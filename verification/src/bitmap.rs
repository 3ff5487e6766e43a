//! Bitmaps that hold one bit per page: a set bit means the page is allocated.

use vstd::prelude::*;

verus! {

/// Bit number `bit` of `byte` is set.
pub open spec fn bit_is_set(byte: u8, bit: int) -> bool {
    (byte >> (bit as u8)) & 1u8 == 1u8
}

/// The bit of page `id` is set in `bitmap`.
pub open spec fn page_is_set(bitmap: Seq<u8>, id: int) -> bool {
    bit_is_set(bitmap[id / 8], id % 8)
}

/// How many of the pages below `n` have a clear bit.
pub open spec fn count_clear(bitmap: Seq<u8>, n: int) -> int
    decreases n,
{
    if n <= 0 {
        0
    } else {
        count_clear(bitmap, n - 1) + if page_is_set(bitmap, n - 1) {
            0int
        } else {
            1int
        }
    }
}

/// The lowest page in `from .. limit` whose bit is clear.
pub open spec fn first_clear(bitmap: Seq<u8>, from: int, limit: int) -> Option<int>
    decreases limit - from,
{
    if from >= limit {
        None
    } else if !page_is_set(bitmap, from) {
        Some(from)
    } else {
        first_clear(bitmap, from + 1, limit)
    }
}

/// `bitmap` with the bit of page `id` set.
pub open spec fn with_set(bitmap: Seq<u8>, id: int) -> Seq<u8> {
    bitmap.update(id / 8, bitmap[id / 8] | (1u8 << ((id % 8) as u8)))
}

/// `bitmap` with the bit of page `id` clear.
pub open spec fn with_clear(bitmap: Seq<u8>, id: int) -> Seq<u8> {
    bitmap.update(id / 8, bitmap[id / 8] & !(1u8 << ((id % 8) as u8)))
}

/// `bitmap` cut or filled up with zero bytes to `len` bytes.
pub open spec fn resized(bitmap: Seq<u8>, len: int) -> Seq<u8> {
    Seq::new(len as nat, |i: int| if i < bitmap.len() { bitmap[i] } else { 0u8 })
}

/// The number of bytes that hold one bit for each of `pages` pages.
pub open spec fn bitmap_len(pages: int) -> int {
    (pages + 7) / 8
}

proof fn lemma_or_bit(byte: u8, set: u8, bit: u8)
    by (bit_vector)
    requires
        set < 8,
        bit < 8,
    ensures
        ((byte | (1u8 << set)) >> bit) & 1u8 == 1u8 <==> bit == set || (byte >> bit) & 1u8 == 1u8,
{
}

proof fn lemma_and_not_bit(byte: u8, clear: u8, bit: u8)
    by (bit_vector)
    requires
        clear < 8,
        bit < 8,
    ensures
        ((byte & !(1u8 << clear)) >> bit) & 1u8 == 1u8 <==> bit != clear && (byte >> bit) & 1u8
            == 1u8,
{
}

proof fn lemma_or_then_clear(byte: u8, bit: u8)
    by (bit_vector)
    requires
        bit < 8,
        (byte >> bit) & 1u8 != 1u8,
    ensures
        (byte | (1u8 << bit)) & !(1u8 << bit) == byte,
{
}

proof fn lemma_bit_of_zero(bit: u8)
    by (bit_vector)
    ensures
        (0u8 >> bit) & 1u8 == 0u8,
{
}

/// A bit test by mask.
pub proof fn lemma_mask_test(byte: u8, bit: u8)
    by (bit_vector)
    requires
        bit < 8,
    ensures
        byte & (1u8 << bit) == 0u8 <==> (byte >> bit) & 1u8 != 1u8,
{
}

/// Setting the bit of `id` sets that bit and no other.
pub proof fn lemma_with_set(bitmap: Seq<u8>, id: int, other: int)
    requires
        0 <= id < 8 * bitmap.len(),
        0 <= other < 8 * bitmap.len(),
    ensures
        page_is_set(with_set(bitmap, id), other) <==> other == id || page_is_set(bitmap, other),
{
    lemma_or_bit(bitmap[id / 8], (id % 8) as u8, (other % 8) as u8);
}

/// Clearing the bit of `id` clears that bit and no other.
pub proof fn lemma_with_clear(bitmap: Seq<u8>, id: int, other: int)
    requires
        0 <= id < 8 * bitmap.len(),
        0 <= other < 8 * bitmap.len(),
    ensures
        page_is_set(with_clear(bitmap, id), other) <==> other != id && page_is_set(bitmap, other),
{
    lemma_and_not_bit(bitmap[id / 8], (id % 8) as u8, (other % 8) as u8);
}

/// Clearing a bit that was just set restores the bitmap.
pub proof fn lemma_set_then_clear(bitmap: Seq<u8>, id: int)
    requires
        0 <= id < 8 * bitmap.len(),
        !page_is_set(bitmap, id),
    ensures
        with_clear(with_set(bitmap, id), id) == bitmap,
{
    lemma_or_then_clear(bitmap[id / 8], (id % 8) as u8);
    assert(with_clear(with_set(bitmap, id), id) =~= bitmap);
}

/// A zero byte has no bit set.
pub proof fn lemma_zero_byte(bitmap: Seq<u8>, id: int)
    requires
        0 <= id < 8 * bitmap.len(),
        bitmap[id / 8] == 0u8,
    ensures
        !page_is_set(bitmap, id),
{
    lemma_bit_of_zero((id % 8) as u8);
}

/// What `first_clear` finds.
pub proof fn lemma_first_clear(bitmap: Seq<u8>, from: int, limit: int)
    ensures
        match first_clear(bitmap, from, limit) {
            Some(id) => from <= id < limit && !page_is_set(bitmap, id) && forall|j: int|
                from <= j < id ==> #[trigger] page_is_set(bitmap, j),
            None => forall|j: int| from <= j < limit ==> #[trigger] page_is_set(bitmap, j),
        },
    decreases limit - from,
{
    if from < limit && page_is_set(bitmap, from) {
        lemma_first_clear(bitmap, from + 1, limit);
    }
}

/// Where `first_clear` finds `id`.
pub proof fn lemma_first_clear_is(bitmap: Seq<u8>, from: int, limit: int, id: int)
    requires
        from <= id < limit,
        !page_is_set(bitmap, id),
        forall|j: int| from <= j < id ==> #[trigger] page_is_set(bitmap, j),
    ensures
        first_clear(bitmap, from, limit) == Some(id),
    decreases id - from,
{
    if from < id {
        assert(page_is_set(bitmap, from));
        lemma_first_clear_is(bitmap, from + 1, limit, id);
    }
}

/// Where `first_clear` finds nothing.
pub proof fn lemma_first_clear_none(bitmap: Seq<u8>, from: int, limit: int)
    requires
        forall|j: int| from <= j < limit ==> #[trigger] page_is_set(bitmap, j),
    ensures
        first_clear(bitmap, from, limit) is None,
    decreases limit - from,
{
    if from < limit {
        assert(page_is_set(bitmap, from));
        lemma_first_clear_none(bitmap, from + 1, limit);
    }
}

/// Counting looks at the bits alone.
pub proof fn lemma_count_same(a: Seq<u8>, b: Seq<u8>, n: int)
    requires
        forall|j: int| 0 <= j < n ==> (#[trigger] page_is_set(a, j) <==> page_is_set(b, j)),
    ensures
        count_clear(a, n) == count_clear(b, n),
    decreases n,
{
    if 0 < n {
        assert(page_is_set(a, n - 1) <==> page_is_set(b, n - 1));
        lemma_count_same(a, b, n - 1);
    }
}

/// `a` and `b` differ below `n` in the bit of `id` alone, which `b` has set.
pub proof fn lemma_count_one_more_set(a: Seq<u8>, b: Seq<u8>, id: int, n: int)
    requires
        0 <= id < n,
        !page_is_set(a, id),
        page_is_set(b, id),
        forall|j: int|
            0 <= j < n && j != id ==> (#[trigger] page_is_set(a, j) <==> page_is_set(b, j)),
    ensures
        count_clear(b, n) == count_clear(a, n) - 1,
    decreases n,
{
    if id == n - 1 {
        lemma_count_same(a, b, n - 1);
    } else {
        assert(page_is_set(a, n - 1) <==> page_is_set(b, n - 1));
        lemma_count_one_more_set(a, b, id, n - 1);
    }
}

/// No more pages are counted than there are.
pub proof fn lemma_count_bounds(bitmap: Seq<u8>, n: int)
    requires
        0 <= n,
    ensures
        0 <= count_clear(bitmap, n) <= n,
    decreases n,
{
    if 0 < n {
        lemma_count_bounds(bitmap, n - 1);
    }
}

/// Pages `from .. to` that are all clear add to the count.
pub proof fn lemma_count_clear_run(bitmap: Seq<u8>, from: int, to: int)
    requires
        0 <= from <= to,
        forall|j: int| from <= j < to ==> !#[trigger] page_is_set(bitmap, j),
    ensures
        count_clear(bitmap, to) == count_clear(bitmap, from) + (to - from),
    decreases to - from,
{
    if from < to {
        assert(!page_is_set(bitmap, to - 1));
        lemma_count_clear_run(bitmap, from, to - 1);
    }
}

/// A page is counted where one is clear.
pub proof fn lemma_count_positive(bitmap: Seq<u8>, id: int, n: int)
    requires
        0 <= id < n,
        !page_is_set(bitmap, id),
    ensures
        0 < count_clear(bitmap, n),
    decreases n,
{
    lemma_count_bounds(bitmap, n - 1);
    if id < n - 1 {
        lemma_count_positive(bitmap, id, n - 1);
    }
}

/// A clear page exists where one is counted.
pub proof fn lemma_count_witness(bitmap: Seq<u8>, n: int) -> (id: int)
    requires
        0 < count_clear(bitmap, n),
    ensures
        0 <= id < n,
        !page_is_set(bitmap, id),
    decreases n,
{
    if !page_is_set(bitmap, n - 1) {
        n - 1
    } else {
        lemma_count_witness(bitmap, n - 1)
    }
}

} // verus!
