//! CRC32 checksums, and byte strings that carry one in their last four bytes.

use vstd::prelude::*;
use vstd::slice::slice_subrange;

use crate::bytes::{le32, put_u32, read_u32, u32_at};

verus! {

/// The register of a CRC32 (IEEE) computation after `n` more bits, low bits first:
/// each bit that leaves it subtracts the polynomial, which is written reflected.
pub open spec fn crc32_bits(register: u32, n: nat) -> u32
    decreases n,
{
    if n == 0 {
        register
    } else if register & 1 == 1 {
        crc32_bits((register >> 1) ^ 0xEDB8_8320, (n - 1) as nat)
    } else {
        crc32_bits(register >> 1, (n - 1) as nat)
    }
}

/// The register once it has taken in `data`; at first all its bits are set.
pub open spec fn crc32_register(data: Seq<u8>) -> u32
    decreases data.len(),
{
    if data.len() == 0 {
        0xFFFF_FFFF
    } else {
        crc32_bits(crc32_register(data.drop_last()) ^ (data.last() as u32), 8)
    }
}

/// The CRC32 (IEEE) checksum of `data`: the complement of the register.
#[verifier::opaque]
pub open spec fn crc32_of(data: Seq<u8>) -> u32 {
    !crc32_register(data)
}

/// `crc32fast::hash`: the CRC32 (IEEE) checksum of the bytes, whichever of its
/// implementations the processor allows.
#[verifier::external_body]
pub(crate) fn crc32(data: &[u8]) -> (checksum: u32)
    ensures
        checksum == crc32_of(data@),
{
    crc32fast::hash(data)
}

/// `body` followed by its checksum.
pub open spec fn sealed(body: Seq<u8>) -> Seq<u8> {
    body + le32(crc32_of(body))
}

/// The last four bytes of `s` are the checksum of those before them.
pub open spec fn is_sealed(s: Seq<u8>) -> bool {
    &&& 4 <= s.len()
    &&& u32_at(s, s.len() - 4) == crc32_of(s.take(s.len() - 4))
}

/// What was sealed is recognised as sealed, and its body is unchanged.
pub proof fn lemma_sealed(body: Seq<u8>)
    ensures
        is_sealed(sealed(body)),
        sealed(body).len() == body.len() + 4,
        sealed(body).take(body.len() as int) == body,
{
    broadcast use crate::bytes::lemma_le32;

    let s = sealed(body);
    assert(s.take(body.len() as int) =~= body);
    assert(s.subrange(s.len() - 4, s.len() as int) =~= le32(crc32_of(body)));
}

/// Whether `data` ends in the checksum of what stands before.
pub fn check_seal(data: &[u8]) -> (r: bool)
    requires
        4 <= data@.len(),
    ensures
        r == is_sealed(data@),
{
    let n: usize = data.len();
    let stored = read_u32(data, n - 4);
    let computed = crc32(slice_subrange(data, 0, n - 4));
    stored == computed
}

/// Writes the checksum of all but the last four bytes into the last four.
pub fn seal(buf: &mut [u8])
    requires
        4 <= old(buf)@.len(),
    ensures
        final(buf)@ == sealed(old(buf)@.take(old(buf)@.len() - 4)),
{
    let n: usize = buf.len();
    let computed = crc32(slice_subrange(buf, 0, n - 4));
    put_u32(buf, n - 4, computed);
    proof {
        broadcast use crate::bytes::lemma_le32;

        assert(buf@ =~= sealed(old(buf)@.take(n - 4)));
    }
}

} // verus!
