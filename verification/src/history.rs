//! A pager at work: whatever it is asked for, one operation after the other, opening its
//! file gives it again as long as the I/O succeeds, pages keep their bytes until they are
//! written to, and where the file cannot be mapped again nothing is lost.

use vstd::prelude::*;

use crate::bytes::{page_of, zeros};
use crate::durability::law_completed_commits_keep_data_pages;
use crate::error::MappedPageError;
use crate::growth::{
    law_growth_between_takes, law_pages_handed_out, lemma_can_take_rest, lemma_doubled_keeps,
    lemma_take_frame, lemma_take_short,
};
use crate::image::{StateView, fresh_file, recover, valid_page_size};
use crate::meta::{FIRST_DATA_PAGE, MetaView};
use crate::ownership::{
    Owner, law_enter_keeps_other_handles, law_freed_handle_is_gone, law_internal_is_owned,
    law_meta_keeps_tidy, law_tidy_is_laid_out, law_write_seen_after_commit, lemma_wf_sizes,
    lemma_with_page,
};
use crate::page::{PageId, page_in_map, with_page};
use crate::pager::{AllocBulkTask, AllocTask, FreeTask, PagerView, law_reservation_completes};
use crate::plan::{StepView, run};
use crate::protected::{
    AllocProtectedTask, AllocProtectedTaskView, FreeProtectedTask, Place, ProtectedPageId,
    WriteTask, addressable, flush_request, lemma_open_slot,
};
use crate::soundness::{
    law_created_pager_is_sound, law_cut_file_keeps_sound, law_directory_commit_keeps_sound,
    law_longer_file_keeps_sound, law_metadata_commit_keeps_sound, law_page_write_keeps_sound,
    law_reservation_keeps_sound, law_sound_pager_is_reopened, lemma_allocated_lies_in_file,
    lemma_copies_are_committable, lemma_entry_is_committable, lemma_freed_all_is_committable,
    lemma_freed_is_committable, lemma_opened, lemma_release_is_committable,
    lemma_reserved_is_committable, lemma_slot_pages, lemma_write_is_committable,
};
use crate::task::{GrowTask, GrowTurn, IoEvent, Request, RequestView, ReserveTurnView, Turn};

verus! {

// ── The machine ───────────────────────────────────────────────────────────────

/// The operation that is under way, and where it stands.
pub enum Busy<const PAGE_SIZE: usize> {
    Idle,
    Alloc(Turn<PageId<PAGE_SIZE>, AllocTask<PAGE_SIZE>>),
    AllocBulk(Turn<Vec<PageId<PAGE_SIZE>>, AllocBulkTask<PAGE_SIZE>>),
    Free(Turn<(), FreeTask>),
    AllocProtected(Turn<ProtectedPageId<PAGE_SIZE>, AllocProtectedTask>),
    FreeProtected(Turn<(), FreeProtectedTask>),
    Write(Turn<(), WriteTask<PAGE_SIZE>>),
}

/// A pager, the bytes of its file, and what is under way.
pub struct Machine<const PAGE_SIZE: usize> {
    pub pager: PagerView,
    pub file: Seq<u8>,
    pub busy: Busy<PAGE_SIZE>,
}

/// The file `f` made `len` bytes long: cut, or with zeros behind it.
pub open spec fn resized_file(f: Seq<u8>, len: int) -> Seq<u8> {
    if len <= f.len() {
        f.take(len)
    } else {
        f + zeros(len - f.len())
    }
}

/// The file once a request is carried out.
pub open spec fn served(f: Seq<u8>, request: RequestView) -> Seq<u8> {
    match request {
        RequestView::Apply(steps) => run(f, steps),
        RequestView::SetLen(len) => resized_file(f, len as int),
        RequestView::Remap => f,
    }
}

impl<const PAGE_SIZE: usize> Machine<PAGE_SIZE> {
    /// A handle may be written through to page `phys`: it is a regular page, or the
    /// copy of a protected page that is not active.
    pub open spec fn writable(self, phys: u64) -> bool {
        ||| self.pager.state.regular(phys as int)
        ||| exists|id: u64|
            self.pager.state.protected_refusal(id, PAGE_SIZE) is None
                && #[trigger] self.pager.state.inactive_copy(id, PAGE_SIZE) == phys
    }

    /// An operation begins, or a page is written to.  Its counters can be
    /// represented, and a page that is freed as a regular one is none that serves
    /// the directory or a protected page.
    pub open spec fn begins(self, next: Machine<PAGE_SIZE>) -> bool {
        let v = self.pager;
        &&& next.busy is Idle || next.file == self.file
        &&& match next.busy {
            Busy::Idle => next.pager == v && exists|phys: u64, new: Seq<u8>|
                #[trigger] self.writable(phys) && new.len() == PAGE_SIZE && next.file
                    == #[trigger] with_page(self.file, phys as int, PAGE_SIZE as int, new),
            Busy::Alloc(turn) => v.can_alloc(PAGE_SIZE) && v.alloc_begun(next.pager, turn),
            Busy::AllocBulk(turn) => exists|count: usize|
                {
                    &&& count > 0 ==> v.state.meta.can_take(count as nat, PAGE_SIZE)
                        && v.state.meta.generation < u64::MAX
                    &&& #[trigger] v.alloc_bulk_begun(count, next.pager, turn)
                },
            Busy::Free(turn) => {
                ||| exists|id: u64|
                    {
                        &&& v.can_free(id)
                        &&& v.free_refusal(id) is None ==> v.state.regular(id as int)
                        &&& #[trigger] v.free_next(id, PAGE_SIZE, next.pager, turn)
                    }
                ||| exists|ids: Seq<u64>|
                    {
                        &&& v.free_bulk_refusal(ids) is None ==> {
                            &&& v.state.meta.free_count + ids.len() <= u64::MAX
                            &&& v.state.meta.generation < u64::MAX
                            &&& forall|i: int|
                                0 <= i < ids.len() ==> v.state.regular(#[trigger] ids[i] as int)
                        }
                        &&& #[trigger] v.free_bulk_next(ids, PAGE_SIZE, next.pager, turn)
                    }
            },
            Busy::AllocProtected(turn) => {
                &&& addressable(PAGE_SIZE)
                &&& v.can_alloc_protected(PAGE_SIZE)
                &&& v.alloc_protected_begun(next.pager, turn)
            },
            Busy::FreeProtected(turn) => exists|id: u64|
                {
                    &&& v.free_protected_refusal(id, PAGE_SIZE) is None ==> {
                        &&& v.state.meta.free_count + 2 <= u64::MAX
                        &&& v.state.meta.generation < u64::MAX
                    }
                    &&& #[trigger] v.free_protected_begun(
                        id,
                        self.file,
                        PAGE_SIZE,
                        next.pager,
                        turn,
                    )
                },
            Busy::Write(turn) => next.pager == v && exists|id: u64|
                #[trigger] self.write_begun(id, turn),
        }
    }

    /// The commit of what was written to handle `id` begins.
    pub open spec fn write_begun(self, id: u64, turn: Turn<(), WriteTask<PAGE_SIZE>>) -> bool {
        let s = self.pager.state;
        let phys = s.inactive_copy(id, PAGE_SIZE);
        &&& s.protected_refusal(id, PAGE_SIZE) is None
        &&& turn matches Turn::Ask(request, task)
        &&& request@ == flush_request(phys, PAGE_SIZE)
        &&& task == (WriteTask::Data {
            id: ProtectedPageId::<PAGE_SIZE>(id),
            phys,
            slot: s.inactive_slot(id, PAGE_SIZE),
        })
    }

    /// An operation has its request carried out and goes on, or is over.
    pub open spec fn goes_on(self, next: Machine<PAGE_SIZE>) -> bool {
        let v = self.pager;
        match self.busy {
            Busy::Idle => false,
            Busy::Alloc(Turn::Ask(request, task)) => {
                &&& next.file == served(self.file, request@)
                &&& next.busy matches Busy::Alloc(turn)
                &&& v.alloc_resumed(task, IoEvent::Done, next.pager, turn)
            },
            Busy::AllocBulk(Turn::Ask(request, task)) => {
                &&& next.file == served(self.file, request@)
                &&& next.busy matches Busy::AllocBulk(turn)
                &&& v.alloc_bulk_resumed(task, IoEvent::Done, next.pager, turn)
            },
            Busy::Free(Turn::Ask(request, _)) => {
                &&& next.file == served(self.file, request@)
                &&& next.busy matches Busy::Free(turn)
                &&& v.free_resumed(IoEvent::Done, next.pager, turn)
            },
            Busy::AllocProtected(Turn::Ask(request, task)) => {
                &&& next.file == served(self.file, request@)
                &&& next.busy matches Busy::AllocProtected(turn)
                &&& v.alloc_protected_resumed(
                    task@,
                    IoEvent::Done,
                    next.file,
                    next.pager,
                    turn,
                )
            },
            Busy::FreeProtected(Turn::Ask(request, task)) => {
                &&& next.file == served(self.file, request@)
                &&& next.busy matches Busy::FreeProtected(turn)
                &&& v.free_protected_resumed(task, IoEvent::Done, PAGE_SIZE, next.pager, turn)
            },
            Busy::Write(Turn::Ask(request, task)) => {
                &&& next.file == served(self.file, request@)
                &&& next.busy matches Busy::Write(turn)
                &&& v.write_resumed(task, IoEvent::Done, next.file, next.pager, turn)
            },
            _ => next == (Machine { busy: Busy::Idle, ..self }),
        }
    }

    /// One step of the machine.
    pub open spec fn steps_to(self, next: Machine<PAGE_SIZE>) -> bool {
        if self.busy is Idle {
            self.begins(next)
        } else {
            self.goes_on(next)
        }
    }

    /// A commit is under way, of metadata or of a directory page.
    pub open spec fn commits(self) -> bool {
        match self.busy {
            Busy::Alloc(Turn::Ask(_, task)) => task is Commit,
            Busy::AllocBulk(Turn::Ask(_, task)) => task is Commit,
            Busy::Free(Turn::Ask(_, _)) => true,
            Busy::AllocProtected(Turn::Ask(_, task)) => !(task is Grow),
            Busy::FreeProtected(Turn::Ask(_, _)) => true,
            Busy::Write(Turn::Ask(_, task)) => task is Directory,
            _ => false,
        }
    }

    // ── What holds on the way ─────────────────────────────────────────────────

    /// Of `want` pages, `got` are reserved in memory; the rest is still to come.
    pub open spec fn reserving(self, base: PagerView, got: Seq<u64>, want: usize) -> bool {
        let m = self.pager.state.meta;
        let all = base.state.meta.take_growing(want as nat);
        let rest = m.take_growing((want - got.len()) as nat);
        &&& self.pager == base.with_meta(m).mapped(self.pager.available)
        &&& base.state.meta.can_take(want as nat, PAGE_SIZE)
        &&& base.state.meta.generation < u64::MAX
        &&& m.well_sized()
        &&& base.state.meta.total_pages <= m.total_pages
        &&& got.len() <= want
        &&& m.can_take((want - got.len()) as nat, PAGE_SIZE)
        &&& m.total_pages * PAGE_SIZE <= self.file.len()
        &&& rest.0 == all.0
        &&& got + rest.1 == all.1
    }

    /// The file is being doubled for a reservation.
    pub open spec fn growing(
        self,
        base: PagerView,
        request: Request,
        got: Seq<u64>,
        want: usize,
        grow: GrowTask,
    ) -> bool {
        let m = self.pager.state.meta;
        &&& self.reserving(base, got, want)
        &&& !self.pager.available
        &&& got.len() < want
        &&& m.lowest_free() is None
        &&& match grow {
            GrowTask::SetLen => request == self.pager.grow_request(PAGE_SIZE),
            GrowTask::Remap => request is Remap && 2 * m.total_pages * PAGE_SIZE
                <= self.file.len(),
            _ => false,
        }
    }

    /// The metadata are being committed.
    pub open spec fn committing(self, base: PagerView, request: RequestView) -> bool {
        &&& request == self.pager.commit_request(PAGE_SIZE)
        &&& exists|m: MetaView|
            #[trigger] base.committable(m, self.file.len() as int, PAGE_SIZE) && self.pager
                == base.with_meta(m).bumped()
    }

    /// The pages of a protected page are being committed.
    pub open spec fn placing(
        self,
        base: PagerView,
        request: RequestView,
        place: Place,
        pages: Seq<u64>,
    ) -> bool {
        let all = base.state.meta.take_growing(place.pages() as nat);
        &&& addressable(PAGE_SIZE)
        &&& request == self.pager.commit_request(PAGE_SIZE)
        &&& base.state.place(PAGE_SIZE) == Ok::<Place, MappedPageError>(place)
        &&& base.state.meta.can_take(place.pages() as nat, PAGE_SIZE)
        &&& base.state.meta.generation < u64::MAX
        &&& all.0.total_pages * PAGE_SIZE <= self.file.len()
        &&& self.pager == base.with_meta(all.0).bumped()
        &&& pages == all.1
    }

    /// A directory page is being committed.
    pub open spec fn entering(self, base: PagerView, request: RequestView, idx: int) -> bool {
        &&& self.pager == base.with_state(self.pager.state)
        &&& base.dir_committable(self.pager.state, idx, PAGE_SIZE)
        &&& request == self.pager.dir_request(idx, self.file, PAGE_SIZE)
    }

    /// The entry of handle `id` is being committed as free.
    pub open spec fn releasing(
        self,
        base: PagerView,
        id: u64,
        block: usize,
        page_a: u64,
        page_b: u64,
    ) -> bool {
        let e = base.state.entry(id, PAGE_SIZE)->0;
        &&& base.state.free_protected_refusal(id, PAGE_SIZE) is None
        &&& base.state.meta.generation < u64::MAX
        &&& base.state.meta.free_count + 2 <= u64::MAX
        &&& block == StateView::block_of(id, PAGE_SIZE)
        &&& page_a == e.page_a
        &&& page_b == e.page_b
        &&& self.pager == base.entry_freed(id, PAGE_SIZE)
    }

    /// Opening the file gives the pager `base`, and the pager is that one, or has been
    /// changed in memory as far as the operation under way has come.
    pub open spec fn holds(self, base: PagerView) -> bool {
        &&& base.opened(self.file, PAGE_SIZE)
        &&& match self.busy {
            Busy::Alloc(Turn::Ask(request, task)) => match task {
                AllocTask::Grow(grow) => self.growing(base, request, Seq::empty(), 1, grow),
                AllocTask::Commit(_) => self.committing(base, request@),
            },
            Busy::AllocBulk(Turn::Ask(request, task)) => match task {
                AllocBulkTask::Grow(reserve) => self.growing(
                    base,
                    request,
                    reserve@.got,
                    reserve@.want,
                    reserve@.grow,
                ),
                AllocBulkTask::Commit(_) => self.committing(base, request@),
            },
            Busy::Free(Turn::Ask(request, _)) => self.committing(base, request@),
            Busy::AllocProtected(Turn::Ask(request, task)) => match task@ {
                AllocProtectedTaskView::Grow { place, reserve } => {
                    &&& addressable(PAGE_SIZE)
                    &&& base.state.place(PAGE_SIZE) == Ok::<Place, MappedPageError>(place)
                    &&& reserve.want == place.pages()
                    &&& self.growing(base, request, reserve.got, reserve.want, reserve.grow)
                },
                AllocProtectedTaskView::Commit { place, pages } => self.placing(
                    base,
                    request@,
                    place,
                    pages,
                ),
                AllocProtectedTaskView::Directory { block, .. } => self.entering(
                    base,
                    request@,
                    block as int,
                ),
            },
            Busy::FreeProtected(Turn::Ask(request, task)) => match task {
                FreeProtectedTask::Directory { block, page_a, page_b } => {
                    &&& self.entering(base, request@, block as int)
                    &&& exists|id: u64| #[trigger] self.releasing(base, id, block, page_a, page_b)
                },
                FreeProtectedTask::Commit => self.committing(base, request@),
            },
            Busy::Write(Turn::Ask(request, task)) => match task {
                WriteTask::Data { id, phys, slot } => {
                    &&& self.pager == base
                    &&& base.state.protected_refusal(id.0, PAGE_SIZE) is None
                    &&& phys == base.state.inactive_copy(id.0, PAGE_SIZE)
                    &&& slot == base.state.inactive_slot(id.0, PAGE_SIZE)
                    &&& request@ == flush_request(phys, PAGE_SIZE)
                },
                WriteTask::Directory { block } => self.entering(base, request@, block as int),
            },
            _ => self.pager == base,
        }
    }
}

// ── Steps ─────────────────────────────────────────────────────────────────────

/// A reservation goes on: it is complete, or the file is doubled for it.
proof fn lemma_reserve_next<const PAGE_SIZE: usize>(
    a: Machine<PAGE_SIZE>,
    base: PagerView,
    got: Seq<u64>,
    want: usize,
    b: Machine<PAGE_SIZE>,
)
    requires
        a.reserving(base, got, want),
        a.pager.available,
        base.available,
        b.file == a.file,
        b.pager == a.pager.reserve_next(got, want, PAGE_SIZE).0,
    ensures
        match a.pager.reserve_next(got, want, PAGE_SIZE).1 {
            ReserveTurnView::Reserved(ids) => {
                let all = base.state.meta.take_growing(want as nat);
                &&& b.pager == base.with_meta(all.0)
                &&& ids == all.1
                &&& all.0.total_pages * PAGE_SIZE <= b.file.len()
            },
            ReserveTurnView::Ask(request, task) => {
                &&& task.want == want
                &&& b.growing(base, request, task.got, want, task.grow)
            },
            ReserveTurnView::Failed(_, _) => false,
        },
{
    let n = (want - got.len()) as nat;
    let m = a.pager.state.meta;
    let (k, ids) = m.take(n);
    law_reservation_completes(a.pager, got, want, PAGE_SIZE);
    lemma_take_frame(m, n);
    lemma_take_short(m, n);
    lemma_can_take_rest(m, n, PAGE_SIZE);
    law_growth_between_takes(m, n);
    assert(base.with_meta(m).mapped(true).with_meta(k) == base.with_meta(k));
    if ids.len() < n {
        let left = (n - ids.len()) as nat;
        lemma_full_take(k, left);
        let rest = k.doubled().take_growing(left);
        assert((got + ids) + rest.1 =~= got + (ids + rest.1));
        assert(b.pager == base.with_meta(k).mapped(false));
    }
}

/// With no page free, pages are taken once the file is doubled.
proof fn lemma_full_take(m: MetaView, n: nat)
    requires
        m.lowest_free() is None,
        n > 0,
        m.doubled().lowest_free() is Some,
    ensures
        m.take_growing(n) == m.doubled().take_growing(n),
{
}

/// A doubling goes on: the file is longer, or it is mapped and the reservation goes
/// on with more free pages.
proof fn lemma_grow_step<const PAGE_SIZE: usize>(
    a: Machine<PAGE_SIZE>,
    base: PagerView,
    request: Request,
    got: Seq<u64>,
    want: usize,
    grow: GrowTask,
    b: Machine<PAGE_SIZE>,
)
    requires
        valid_page_size(PAGE_SIZE),
        base.opened(a.file, PAGE_SIZE),
        a.growing(base, request, got, want, grow),
        b.file == served(a.file, request@),
        b.pager == a.pager.grow_next(grow, IoEvent::Done, PAGE_SIZE).0,
    ensures
        base.opened(b.file, PAGE_SIZE),
        base.sound(a.file, PAGE_SIZE) ==> base.sound(b.file, PAGE_SIZE),
        match a.pager.grow_next(grow, IoEvent::Done, PAGE_SIZE).1 {
            GrowTurn::Grown => b.pager.available && b.reserving(base, got, want),
            GrowTurn::Failed(_) => false,
            GrowTurn::Ask(request1, grow1) => b.growing(
                base,
                request1,
                got,
                want,
                grow1,
            ),
        },
{
    let m = a.pager.state.meta;
    let n = (want - got.len()) as nat;
    assert(m.growable(PAGE_SIZE));
    match grow {
        GrowTask::SetLen => {
            let len = 2 * m.total_pages * PAGE_SIZE;
            assert(m.total_pages * PAGE_SIZE <= len) by (nonlinear_arith)
                requires
                    len == 2 * m.total_pages * PAGE_SIZE,
            ;
            if len <= a.file.len() {
                assert(base.state.meta.total_pages * PAGE_SIZE <= m.total_pages * PAGE_SIZE)
                    by (nonlinear_arith)
                    requires
                        base.state.meta.total_pages <= m.total_pages,
                ;
                law_cut_file_keeps_sound(base, a.file, len, PAGE_SIZE);
            } else {
                law_longer_file_keeps_sound(
                    base,
                    a.file,
                    zeros(len - a.file.len()),
                    PAGE_SIZE,
                );
            }
        },
        _ => {
            lemma_full_take(m, n);
            lemma_doubled_keeps(m);
            assert(base.with_meta(m).mapped(false).with_meta(m.doubled()).mapped(true)
                == base.with_meta(m.doubled()).mapped(true));
        },
    }
}

/// A reservation begins with no page reserved.
proof fn lemma_reserve_begins<const PAGE_SIZE: usize>(
    a: Machine<PAGE_SIZE>,
    want: usize,
)
    requires
        a.pager.opened(a.file, PAGE_SIZE),
        a.pager.state.meta.can_take(want as nat, PAGE_SIZE),
        a.pager.state.meta.generation < u64::MAX,
    ensures
        a.reserving(a.pager, Seq::empty(), want),
{
    let all = a.pager.state.meta.take_growing(want as nat);
    assert(Seq::<u64>::empty() + all.1 =~= all.1);
    assert(a.pager == a.pager.with_meta(a.pager.state.meta).mapped(true));
}

/// The allocation of a page takes one, or has the file doubled.
proof fn lemma_alloc_next<const PAGE_SIZE: usize>(
    a: Machine<PAGE_SIZE>,
    base: PagerView,
    b: Machine<PAGE_SIZE>,
    turn: Turn<PageId<PAGE_SIZE>, AllocTask<PAGE_SIZE>>,
)
    requires
        valid_page_size(PAGE_SIZE),
        base.opened(a.file, PAGE_SIZE),
        a.pager.available,
        a.reserving(base, Seq::empty(), 1),
        a.pager.alloc_next(b.pager, turn),
        b.file == a.file,
        b.busy == Busy::Alloc(turn),
    ensures
        b.holds(base),
{
    let m = a.pager.state.meta;
    let none = Seq::<u64>::empty();
    let c = Machine::<PAGE_SIZE> {
        pager: a.pager.reserve_next(none, 1, PAGE_SIZE).0,
        file: a.file,
        busy: Busy::Idle,
    };
    reveal_with_fuel(MetaView::take, 2);
    lemma_reserve_next(a, base, none, 1, c);
    match m.lowest_free() {
        Some(id) => {
            assert(seq![id] + none =~= seq![id]);
            assert(m.take(1).1.len() == 1);
            assert((none + m.take(1).1).len() == 1);
            lemma_reserved_is_committable(base, 1, a.file, a.file.len() as int, PAGE_SIZE);
            assert(b.pager == base.with_meta(base.state.meta.take_growing(1).0).bumped());
        },
        None => {
            assert((none + m.take(1).1).len() == 0);
            assert(none + m.take(1).1 =~= none);
            assert(c.pager == b.pager);
            assert(b.growing(base, turn->Ask_0, none, 1, GrowTask::SetLen));
        },
    }
}

/// The allocation of several pages goes on with their reservation.
proof fn lemma_alloc_bulk_next<const PAGE_SIZE: usize>(
    a: Machine<PAGE_SIZE>,
    base: PagerView,
    got: Seq<u64>,
    want: usize,
    b: Machine<PAGE_SIZE>,
    turn: Turn<Vec<PageId<PAGE_SIZE>>, AllocBulkTask<PAGE_SIZE>>,
)
    requires
        valid_page_size(PAGE_SIZE),
        base.opened(a.file, PAGE_SIZE),
        a.pager.available,
        a.reserving(base, got, want),
        ({
            let (v, reserved) = a.pager.reserve_next(got, want, PAGE_SIZE);
            v.alloc_bulk_next(reserved, b.pager, turn)
        }),
        b.file == a.file,
        b.busy == Busy::AllocBulk(turn),
    ensures
        b.holds(base),
{
    let (v, reserved) = a.pager.reserve_next(got, want, PAGE_SIZE);
    let c = Machine::<PAGE_SIZE> { pager: v, file: a.file, busy: Busy::Idle };
    lemma_reserve_next(a, base, got, want, c);
    if reserved is Reserved {
        lemma_reserved_is_committable(
            base,
            want as nat,
            a.file,
            a.file.len() as int,
            PAGE_SIZE,
        );
    } else {
        assert(b.growing(
            base,
            turn->Ask_0,
            reserved->Ask_1.got,
            want,
            reserved->Ask_1.grow,
        ));
    }
}

/// The allocation of a protected page goes on with the reservation of its pages.
proof fn lemma_alloc_protected_next<const PAGE_SIZE: usize>(
    a: Machine<PAGE_SIZE>,
    base: PagerView,
    got: Seq<u64>,
    place: Place,
    b: Machine<PAGE_SIZE>,
    turn: Turn<ProtectedPageId<PAGE_SIZE>, AllocProtectedTask>,
)
    requires
        addressable(PAGE_SIZE),
        base.opened(a.file, PAGE_SIZE),
        base.state.place(PAGE_SIZE) == Ok::<Place, MappedPageError>(place),
        a.pager.available,
        a.reserving(base, got, place.pages()),
        ({
            let (v, reserved) = a.pager.reserve_next(got, place.pages(), PAGE_SIZE);
            v.alloc_protected_next(place, reserved, b.pager, turn)
        }),
        b.file == a.file,
        b.busy == Busy::AllocProtected(turn),
    ensures
        b.holds(base),
{
    let want = place.pages();
    let (v, reserved) = a.pager.reserve_next(got, want, PAGE_SIZE);
    let c = Machine::<PAGE_SIZE> { pager: v, file: a.file, busy: Busy::Idle };
    lemma_reserve_next(a, base, got, want, c);
    if reserved is Ask {
        assert(b.growing(
            base,
            turn->Ask_0,
            reserved->Ask_1.got,
            want,
            reserved->Ask_1.grow,
        ));
    }
}

/// Once the metadata are committed, the pager is sound with its file.
proof fn lemma_commit_step<const PAGE_SIZE: usize>(
    a: Machine<PAGE_SIZE>,
    base: PagerView,
    request: RequestView,
)
    requires
        valid_page_size(PAGE_SIZE),
        base.opened(a.file, PAGE_SIZE),
        a.committing(base, request),
    ensures
        a.pager.committed().sound(served(a.file, request), PAGE_SIZE),
        a.pager.committed().opened(served(a.file, request), PAGE_SIZE),
{
    let m = choose|m: MetaView|
        #[trigger] base.committable(m, a.file.len() as int, PAGE_SIZE) && a.pager
            == base.with_meta(m).bumped();
    law_metadata_commit_keeps_sound(base, m, a.file, PAGE_SIZE, 0, a.file);
    law_sound_pager_is_reopened(a.pager.committed(), served(a.file, request), PAGE_SIZE);
}

/// Once a directory page is committed, the pager is sound with its file.
proof fn lemma_enter_step<const PAGE_SIZE: usize>(
    a: Machine<PAGE_SIZE>,
    base: PagerView,
    request: RequestView,
    idx: int,
)
    requires
        valid_page_size(PAGE_SIZE),
        base.opened(a.file, PAGE_SIZE),
        a.entering(base, request, idx),
    ensures
        a.pager.dir_done(idx, IoEvent::Done).0.sound(served(a.file, request), PAGE_SIZE),
        a.pager.dir_done(idx, IoEvent::Done).0.opened(served(a.file, request), PAGE_SIZE),
        a.pager.dir_done(idx, IoEvent::Done).1 is Ok,
{
    law_directory_commit_keeps_sound(base, a.pager.state, idx, a.file, PAGE_SIZE, 0, a.file);
    assert(a.pager.with_state(a.pager.state.dir_committed(idx)) == base.with_state(
        a.pager.state.dir_committed(idx),
    ));
    law_sound_pager_is_reopened(
        a.pager.dir_done(idx, IoEvent::Done).0,
        served(a.file, request),
        PAGE_SIZE,
    );
}

/// Where a protected page is entered depends on the directory alone.
proof fn lemma_place_ignores_meta(s: StateView, t: StateView, page_size: usize)
    requires
        t.blocks == s.blocks,
        t.dirs == s.dirs,
    ensures
        t.place(page_size) == s.place(page_size),
{
    lemma_open_slot_ignores_meta(s, t, 0);
}

proof fn lemma_open_slot_ignores_meta(s: StateView, t: StateView, from: int)
    requires
        t.dirs == s.dirs,
    ensures
        t.open_slot_from(from) == s.open_slot_from(from),
    decreases s.dirs.len() - from,
{
    if from < s.dirs.len() {
        lemma_open_slot_ignores_meta(s, t, from + 1);
    }
}

/// Once its pages are committed, a protected page is entered.
proof fn lemma_place_step<const PAGE_SIZE: usize>(
    a: Machine<PAGE_SIZE>,
    base: PagerView,
    request: RequestView,
    place: Place,
    pages: Seq<u64>,
    b: Machine<PAGE_SIZE>,
    turn: Turn<ProtectedPageId<PAGE_SIZE>, AllocProtectedTask>,
)
    requires
        valid_page_size(PAGE_SIZE),
        base.opened(a.file, PAGE_SIZE),
        a.placing(base, request, place, pages),
        b.file == served(a.file, request),
        b.busy == Busy::AllocProtected(turn),
        a.pager.committed().enter_next(place, pages, b.file, b.pager, turn),
    ensures
        b.holds(a.pager.committed()),
        a.pager.committed().sound(b.file, PAGE_SIZE),
{
    let c = a.pager.committed();
    law_reservation_keeps_sound(
        base,
        place.pages() as nat,
        a.file,
        PAGE_SIZE,
        0,
        a.file,
    );
    law_sound_pager_is_reopened(c, b.file, PAGE_SIZE);
    lemma_opened(c, b.file, PAGE_SIZE);
    lemma_place_ignores_meta(base.state, c.state, PAGE_SIZE);
    lemma_entry_is_committable(c, place, pages, b.file, PAGE_SIZE);
    let block = place.block(c.state);
    lemma_wf_sizes(c.state, PAGE_SIZE);
    lemma_open_slot(c.state, 0);
    assert(block as usize == block);
    assert(b.entering(c, turn->Ask_0@, block));
}

/// A page that may be written to is an allocated data page and no copy of a directory
/// block.
proof fn lemma_writable_is_allocated<const PAGE_SIZE: usize>(a: Machine<PAGE_SIZE>, phys: u64)
    requires
        a.pager.state.tidy(),
        a.writable(phys),
    ensures
        FIRST_DATA_PAGE <= phys,
        a.pager.state.meta.allocated(phys as int),
        forall|i: int|
            0 <= i < a.pager.state.blocks.len() ==> !#[trigger] a.pager.state.backs_block(
                i,
                phys as int,
            ),
{
    let s = a.pager.state;
    if !s.regular(phys as int) {
        let id = choose|id: u64|
            s.protected_refusal(id, PAGE_SIZE) is None && #[trigger] s.inactive_copy(id, PAGE_SIZE)
                == phys;
        lemma_slot_pages(s, id, PAGE_SIZE);
    }
}

/// A write through a handle keeps a pager opened from its file, and sound with it.
proof fn lemma_write_step<const PAGE_SIZE: usize>(a: Machine<PAGE_SIZE>, phys: u64, new: Seq<u8>)
    requires
        valid_page_size(PAGE_SIZE),
        a.pager.opened(a.file, PAGE_SIZE),
        a.writable(phys),
        new.len() == PAGE_SIZE,
    ensures
        a.pager.opened(with_page(a.file, phys as int, PAGE_SIZE as int, new), PAGE_SIZE),
        a.pager.sound(a.file, PAGE_SIZE) ==> a.pager.sound(
            with_page(a.file, phys as int, PAGE_SIZE as int, new),
            PAGE_SIZE,
        ),
{
    lemma_writable_is_allocated(a, phys);
    lemma_allocated_lies_in_file(a.pager.state, phys, a.file.len() as int, PAGE_SIZE);
    law_page_write_keeps_sound(a.pager, a.file, phys, new, PAGE_SIZE);
}

/// What holds before an operation begins holds when it has begun.
proof fn lemma_begins<const PAGE_SIZE: usize>(
    a: Machine<PAGE_SIZE>,
    base: PagerView,
    b: Machine<PAGE_SIZE>,
)
    requires
        valid_page_size(PAGE_SIZE),
        a.busy is Idle,
        a.holds(base),
        a.begins(b),
    ensures
        b.holds(base),
        base.sound(a.file, PAGE_SIZE) ==> base.sound(b.file, PAGE_SIZE),
{
    let v = a.pager;
    match b.busy {
        Busy::Idle => {
            let (phys, new) = choose|phys: u64, new: Seq<u8>|
                #[trigger] a.writable(phys) && new.len() == PAGE_SIZE && b.file
                    == #[trigger] with_page(a.file, phys as int, PAGE_SIZE as int, new);
            lemma_write_step(a, phys, new);
        },
        Busy::Alloc(turn) => {
            lemma_reserve_begins(a, 1);
            lemma_alloc_next(a, base, b, turn);
        },
        Busy::AllocBulk(turn) => {
            let count = choose|count: usize|
                {
                    &&& count > 0 ==> v.state.meta.can_take(count as nat, PAGE_SIZE)
                        && v.state.meta.generation < u64::MAX
                    &&& #[trigger] v.alloc_bulk_begun(count, b.pager, turn)
                };
            if count > 0 {
                lemma_reserve_begins(a, count);
                lemma_alloc_bulk_next(a, base, Seq::empty(), count, b, turn);
            }
        },
        Busy::Free(turn) => {
            lemma_free_begins(a, b, turn);
        },
        Busy::AllocProtected(turn) => {
            if let Ok(place) = v.state.place(PAGE_SIZE) {
                lemma_reserve_begins(a, place.pages());
                lemma_alloc_protected_next(a, base, Seq::empty(), place, b, turn);
            }
        },
        Busy::FreeProtected(turn) => {
            lemma_free_protected_begins(a, b, turn);
        },
        Busy::Write(turn) => {
            lemma_write_begins(a, b, turn);
        },
    }
}

proof fn lemma_write_begins<const PAGE_SIZE: usize>(
    a: Machine<PAGE_SIZE>,
    b: Machine<PAGE_SIZE>,
    turn: Turn<(), WriteTask<PAGE_SIZE>>,
)
    requires
        valid_page_size(PAGE_SIZE),
        a.busy is Idle,
        a.pager.opened(a.file, PAGE_SIZE),
        a.begins(b),
        b.busy == Busy::<PAGE_SIZE>::Write(turn),
    ensures
        b.holds(a.pager),
{
    let id = choose|id: u64| #[trigger] a.write_begun(id, turn);
    assert(a.write_begun(id, turn));
    assert(turn->Ask_1 is Data);
}

proof fn lemma_free_protected_begins<const PAGE_SIZE: usize>(
    a: Machine<PAGE_SIZE>,
    b: Machine<PAGE_SIZE>,
    turn: Turn<(), FreeProtectedTask>,
)
    requires
        valid_page_size(PAGE_SIZE),
        a.busy is Idle,
        a.pager.opened(a.file, PAGE_SIZE),
        a.begins(b),
        b.busy == Busy::<PAGE_SIZE>::FreeProtected(turn),
    ensures
        b.holds(a.pager),
{
    let v = a.pager;
    let id = choose|id: u64|
        {
            &&& v.free_protected_refusal(id, PAGE_SIZE) is None ==> {
                &&& v.state.meta.free_count + 2 <= u64::MAX
                &&& v.state.meta.generation < u64::MAX
            }
            &&& #[trigger] v.free_protected_begun(id, a.file, PAGE_SIZE, b.pager, turn)
        };
    if v.free_protected_refusal(id, PAGE_SIZE) is None {
        let e = v.state.entry(id, PAGE_SIZE)->0;
        let block = StateView::block_of(id, PAGE_SIZE);
        lemma_opened(v, a.file, PAGE_SIZE);
        lemma_release_is_committable(v, id, PAGE_SIZE);
        assert(block as usize == block);
        assert(b.entering(v, turn->Ask_0@, block));
        let task = turn->Ask_1;
        assert(task is Directory);
        assert(b.releasing(v, id, task->block, task->page_a, task->page_b));
    }
}

proof fn lemma_free_begins<const PAGE_SIZE: usize>(
    a: Machine<PAGE_SIZE>,
    b: Machine<PAGE_SIZE>,
    turn: Turn<(), FreeTask>,
)
    requires
        valid_page_size(PAGE_SIZE),
        a.busy is Idle,
        a.pager.opened(a.file, PAGE_SIZE),
        a.begins(b),
        b.busy == Busy::<PAGE_SIZE>::Free(turn),
    ensures
        b.holds(a.pager),
{
    let v = a.pager;
    if exists|id: u64|
        {
            &&& v.can_free(id)
            &&& v.free_refusal(id) is None ==> v.state.regular(id as int)
            &&& #[trigger] v.free_next(id, PAGE_SIZE, b.pager, turn)
        } {
        let id = choose|id: u64|
            {
                &&& v.can_free(id)
                &&& v.free_refusal(id) is None ==> v.state.regular(id as int)
                &&& #[trigger] v.free_next(id, PAGE_SIZE, b.pager, turn)
            };
        if v.free_refusal(id) is None {
            lemma_freed_is_committable(v, id, a.file, PAGE_SIZE);
        }
    } else {
        let ids = choose|ids: Seq<u64>|
            {
                &&& v.free_bulk_refusal(ids) is None ==> {
                    &&& v.state.meta.free_count + ids.len() <= u64::MAX
                    &&& v.state.meta.generation < u64::MAX
                    &&& forall|i: int|
                        0 <= i < ids.len() ==> v.state.regular(#[trigger] ids[i] as int)
                }
                &&& #[trigger] v.free_bulk_next(ids, PAGE_SIZE, b.pager, turn)
            };
        if v.free_bulk_refusal(ids) is None && ids.len() > 0 {
            lemma_freed_all_is_committable(v, ids, a.file, PAGE_SIZE);
        }
    }
}

/// The pager that opening the file gives after a step.
spec fn next_base<const PAGE_SIZE: usize>(
    a: Machine<PAGE_SIZE>,
    base: PagerView,
    b: Machine<PAGE_SIZE>,
) -> PagerView {
    match a.busy {
        Busy::Alloc(Turn::Ask(_, AllocTask::Commit(_))) => b.pager,
        Busy::AllocBulk(Turn::Ask(_, AllocBulkTask::Commit(_))) => b.pager,
        Busy::Free(Turn::Ask(_, _)) => b.pager,
        Busy::AllocProtected(Turn::Ask(_, task)) => match task@ {
            AllocProtectedTaskView::Grow { .. } => base,
            AllocProtectedTaskView::Commit { .. } => a.pager.committed(),
            AllocProtectedTaskView::Directory { .. } => b.pager,
        },
        Busy::FreeProtected(Turn::Ask(_, task)) => match task {
            FreeProtectedTask::Directory { block, .. } => a.pager.dir_done(
                block as int,
                IoEvent::Done,
            ).0,
            FreeProtectedTask::Commit => b.pager,
        },
        Busy::Write(Turn::Ask(_, WriteTask::Directory { .. })) => b.pager,
        _ => base,
    }
}

/// What holds before an operation goes on holds afterwards.
proof fn lemma_goes_on<const PAGE_SIZE: usize>(
    a: Machine<PAGE_SIZE>,
    base: PagerView,
    b: Machine<PAGE_SIZE>,
)
    requires
        valid_page_size(PAGE_SIZE),
        a.holds(base),
        a.goes_on(b),
    ensures
        b.holds(next_base(a, base, b)),
        base.sound(a.file, PAGE_SIZE) || a.commits() ==> next_base(a, base, b).sound(
            b.file,
            PAGE_SIZE,
        ),
{
    let v = a.pager;
    lemma_opened(base, a.file, PAGE_SIZE);
    match a.busy {
        Busy::Alloc(Turn::Ask(request, task)) => match task {
            AllocTask::Grow(grow) => {
                let (w, turn) = v.grow_next(grow, IoEvent::Done, PAGE_SIZE);
                let c = Machine::<PAGE_SIZE> { pager: w, file: b.file, busy: Busy::Idle };
                lemma_grow_step(a, base, request, Seq::empty(), 1, grow, c);
                if turn is Grown {
                    lemma_alloc_next(c, base, b, b.busy->Alloc_0);
                } else {
                    assert(b.growing(base, turn->Ask_0, Seq::empty(), 1, turn->Ask_1));
                }
            },
            AllocTask::Commit(_) => {
                lemma_commit_step(a, base, request@);
            },
        },
        Busy::AllocBulk(Turn::Ask(request, task)) => match task {
            AllocBulkTask::Grow(reserve) => {
                let (w, turn) = v.grow_next(reserve@.grow, IoEvent::Done, PAGE_SIZE);
                let c = Machine::<PAGE_SIZE> { pager: w, file: b.file, busy: Busy::Idle };
                let got = reserve@.got;
                let want = reserve@.want;
                lemma_grow_step(a, base, request, got, want, reserve@.grow, c);
                if turn is Grown {
                    lemma_alloc_bulk_next(c, base, got, want, b, b.busy->AllocBulk_0);
                } else {
                    assert(b.growing(base, turn->Ask_0, got, want, turn->Ask_1));
                }
            },
            AllocBulkTask::Commit(_) => {
                lemma_commit_step(a, base, request@);
            },
        },
        Busy::Free(Turn::Ask(request, _)) => {
            lemma_commit_step(a, base, request@);
        },
        Busy::AllocProtected(Turn::Ask(request, task)) => match task@ {
            AllocProtectedTaskView::Grow { place, reserve } => {
                let (w, turn) = v.grow_next(reserve.grow, IoEvent::Done, PAGE_SIZE);
                let c = Machine::<PAGE_SIZE> { pager: w, file: b.file, busy: Busy::Idle };
                let got = reserve.got;
                let want = reserve.want;
                lemma_grow_step(a, base, request, got, want, reserve.grow, c);
                if turn is Grown {
                    lemma_alloc_protected_next(c, base, got, place, b, b.busy->AllocProtected_0);
                } else {
                    assert(b.growing(base, turn->Ask_0, got, want, turn->Ask_1));
                }
            },
            AllocProtectedTaskView::Commit { place, pages } => {
                lemma_place_step(
                    a,
                    base,
                    request@,
                    place,
                    pages,
                    b,
                    b.busy->AllocProtected_0,
                );
            },
            AllocProtectedTaskView::Directory { block, .. } => {
                lemma_enter_step(a, base, request@, block as int);
            },
        },
        Busy::FreeProtected(Turn::Ask(request, task)) => match task {
            FreeProtectedTask::Directory { block, page_a, page_b } => {
                let id = choose|id: u64| #[trigger] a.releasing(base, id, block, page_a, page_b);
                let c = v.dir_done(block as int, IoEvent::Done).0;
                lemma_enter_step(a, base, request@, block as int);
                lemma_copies_are_committable(base, id, b.file.len() as int, PAGE_SIZE);
                let m = c.state.meta.freed(page_a).freed(page_b);
                assert(c.committable(m, b.file.len() as int, PAGE_SIZE));
                assert(b.pager == c.with_meta(m).bumped());
            },
            FreeProtectedTask::Commit => {
                lemma_commit_step(a, base, request@);
            },
        },
        Busy::Write(Turn::Ask(request, task)) => match task {
            WriteTask::Data { id, phys, slot } => {
                let page = page_of(b.file, phys as int, PAGE_SIZE as int);
                assert(b.file == a.file) by {
                    lemma_flush_changes_nothing(a.file, phys, PAGE_SIZE);
                }
                let block = StateView::block_of(id.0, PAGE_SIZE);
                lemma_write_is_committable(base, id.0, page, PAGE_SIZE);
                assert(block as usize == block);
                assert(b.entering(base, (b.busy->Write_0)->Ask_0@, block));
            },
            WriteTask::Directory { block } => {
                lemma_enter_step(a, base, request@, block as int);
            },
        },
        _ => {},
    }
}

proof fn lemma_flush_changes_nothing(f: Seq<u8>, phys: u64, page_size: usize)
    ensures
        served(f, flush_request(phys, page_size)) == f,
{
    let steps = seq![StepView::Flush { offset: phys * page_size, len: page_size as int }];
    assert(steps.drop_last() =~= Seq::empty());
    reveal_with_fuel(run, 2);
}

// ── Laws ──────────────────────────────────────────────────────────────────────

/// Step `i` of a run is one of the machine.
pub open spec fn step_at<const PAGE_SIZE: usize>(ms: Seq<Machine<PAGE_SIZE>>, i: int) -> bool {
    ms[i].steps_to(ms[i + 1])
}

/// A run of the machine that begins with a pager as it was opened from its file.
pub open spec fn history<const PAGE_SIZE: usize>(ms: Seq<Machine<PAGE_SIZE>>) -> bool {
    &&& 0 < ms.len()
    &&& ms[0].busy is Idle
    &&& ms[0].pager.opened(ms[0].file, PAGE_SIZE)
    &&& forall|i: int| 0 <= i < ms.len() - 1 ==> #[trigger] step_at(ms, i)
}

/// The pager was sound with its file at first, or a commit was carried out before step
/// `k`.
pub open spec fn settled<const PAGE_SIZE: usize>(ms: Seq<Machine<PAGE_SIZE>>, k: int) -> bool {
    ||| ms[0].pager.sound(ms[0].file, PAGE_SIZE)
    ||| exists|i: int| 0 <= i < k && #[trigger] ms[i].commits()
}

proof fn lemma_history<const PAGE_SIZE: usize>(ms: Seq<Machine<PAGE_SIZE>>, k: int) -> (base:
    PagerView)
    requires
        valid_page_size(PAGE_SIZE),
        0 <= k < ms.len(),
        history(ms),
    ensures
        ms[k].holds(base),
        settled(ms, k) ==> base.sound(ms[k].file, PAGE_SIZE),
    decreases k,
{
    if k == 0 {
        ms[0].pager
    } else {
        let before = lemma_history(ms, k - 1);
        assert(step_at(ms, k - 1));
        assert(settled(ms, k) ==> settled(ms, k - 1) || ms[k - 1].commits());
        if ms[k - 1].busy is Idle {
            lemma_begins(ms[k - 1], before, ms[k]);
            before
        } else {
            lemma_goes_on(ms[k - 1], before, ms[k]);
            next_base(ms[k - 1], before, ms[k])
        }
    }
}

/// A run may begin with a new pager and its new file.
pub proof fn law_created_pager_begins_a_history<const PAGE_SIZE: usize>()
    requires
        valid_page_size(PAGE_SIZE),
    ensures
        history(
            seq![
                Machine::<PAGE_SIZE> {
                    pager: PagerView { available: true, state: StateView::fresh() },
                    file: fresh_file(PAGE_SIZE),
                    busy: Busy::Idle,
                },
            ],
        ),
{
    law_created_pager_is_sound(PAGE_SIZE);
    law_sound_pager_is_reopened(
        PagerView { available: true, state: StateView::fresh() },
        fresh_file(PAGE_SIZE),
        PAGE_SIZE,
    );
}

/// A run may begin with the pager that opening a file gives, however it was found there,
/// if its metadata are accurate, the file has its pages, and no page serves twice or is
/// in use and free.
pub proof fn law_opened_pager_begins_a_history<const PAGE_SIZE: usize>(
    f: Seq<u8>,
    state: StateView,
)
    requires
        valid_page_size(PAGE_SIZE),
        recover(f, PAGE_SIZE) == Ok::<StateView, MappedPageError>(state),
        state.meta.accurate(),
        state.tidy(),
        state.meta.total_pages * PAGE_SIZE <= f.len(),
    ensures
        history(
            seq![
                Machine::<PAGE_SIZE> {
                    pager: PagerView { available: true, state },
                    file: f,
                    busy: Busy::Idle,
                },
            ],
        ),
{
}

/// After any run of operations whose I/O succeeds (allocations, also of protected
/// pages, releases, writes to pages, and commits of protected pages) opening the file
/// gives the same pager: the same pages, the same handles, the same counts, and so the
/// same bytes through every handle.  Once a commit is carried out, the pager is sound
/// with its file, however it was opened.
pub proof fn law_any_history_is_reopened<const PAGE_SIZE: usize>(
    ms: Seq<Machine<PAGE_SIZE>>,
    k: int,
)
    requires
        valid_page_size(PAGE_SIZE),
        0 <= k < ms.len(),
        history(ms),
        ms[k].busy is Idle,
    ensures
        ms[k].pager.opened(ms[k].file, PAGE_SIZE),
        ms[k].pager == (PagerView {
            available: true,
            state: recover(ms[k].file, PAGE_SIZE)->Ok_0,
        }),
        settled(ms, k) ==> ms[k].pager.sound(ms[k].file, PAGE_SIZE),
{
    let base = lemma_history(ms, k);
}

impl StateView {
    /// Page `q` is a data page and no copy of a directory block.
    pub open spec fn plain(self, q: u64) -> bool {
        &&& FIRST_DATA_PAGE <= q < self.meta.total_pages
        &&& forall|i: int|
            0 <= i < self.blocks.len() ==> !#[trigger] self.backs_block(i, q as int)
    }
}

/// The pages of the pager in memory lie in the file.
proof fn lemma_pages_in_file<const PAGE_SIZE: usize>(a: Machine<PAGE_SIZE>, base: PagerView)
    requires
        a.holds(base),
    ensures
        a.pager.state.meta.total_pages * PAGE_SIZE <= a.file.len(),
{
}

/// Carrying out a request keeps the bytes of every data page that is no copy of a
/// directory block.
proof fn lemma_request_keeps_page<const PAGE_SIZE: usize>(
    a: Machine<PAGE_SIZE>,
    base: PagerView,
    b: Machine<PAGE_SIZE>,
    q: u64,
)
    requires
        valid_page_size(PAGE_SIZE),
        a.holds(base),
        a.goes_on(b),
        a.pager.state.plain(q),
    ensures
        page_of(b.file, q as int, PAGE_SIZE as int) == page_of(
            a.file,
            q as int,
            PAGE_SIZE as int,
        ),
{
    let ps = PAGE_SIZE as int;
    let s = a.pager.state;
    let f = a.file;
    lemma_pages_in_file(a, base);
    assert((q + 1) * ps <= s.meta.total_pages * ps) by (nonlinear_arith)
        requires
            q + 1 <= s.meta.total_pages,
            0 < ps,
    ;
    assert(q * ps + ps == (q + 1) * ps && 0 <= q * ps) by (nonlinear_arith)
        requires
            0 < ps,
    ;
    assert forall|i: int| 0 <= i < s.blocks.len() implies q != #[trigger] s.blocks[i].copy(
        s.blocks[i].active.other(),
    ) by {
        assert(!s.backs_block(i, q as int));
    }
    match a.busy {
        Busy::Alloc(Turn::Ask(request, task)) => match task {
            AllocTask::Grow(grow) => {
                lemma_grow_keeps_page(a, base, request, Seq::empty(), 1, grow, q);
            },
            AllocTask::Commit(_) => {
                lemma_commit_keeps_page(a, base, request@, q);
            },
        },
        Busy::AllocBulk(Turn::Ask(request, task)) => match task {
            AllocBulkTask::Grow(reserve) => {
                lemma_grow_keeps_page(
                    a,
                    base,
                    request,
                    reserve@.got,
                    reserve@.want,
                    reserve@.grow,
                    q,
                );
            },
            AllocBulkTask::Commit(_) => {
                lemma_commit_keeps_page(a, base, request@, q);
            },
        },
        Busy::Free(Turn::Ask(request, _)) => {
            lemma_commit_keeps_page(a, base, request@, q);
        },
        Busy::AllocProtected(Turn::Ask(request, task)) => match task@ {
            AllocProtectedTaskView::Grow { place, reserve } => {
                lemma_grow_keeps_page(
                    a,
                    base,
                    request,
                    reserve.got,
                    reserve.want,
                    reserve.grow,
                    q,
                );
            },
            AllocProtectedTaskView::Commit { place, pages } => {
                lemma_reserved_is_committable(
                    base,
                    place.pages() as nat,
                    f,
                    f.len() as int,
                    PAGE_SIZE,
                );
                lemma_commit_keeps_page(a, base, request@, q);
            },
            AllocProtectedTaskView::Directory { block, .. } => {
                lemma_enter_keeps_page(a, base, request@, block as int, q);
            },
        },
        Busy::FreeProtected(Turn::Ask(request, task)) => match task {
            FreeProtectedTask::Directory { block, .. } => {
                lemma_enter_keeps_page(a, base, request@, block as int, q);
            },
            FreeProtectedTask::Commit => {
                lemma_commit_keeps_page(a, base, request@, q);
            },
        },
        Busy::Write(Turn::Ask(request, task)) => match task {
            WriteTask::Data { phys, .. } => {
                lemma_flush_changes_nothing(f, phys, PAGE_SIZE);
            },
            WriteTask::Directory { block } => {
                lemma_enter_keeps_page(a, base, request@, block as int, q);
            },
        },
        _ => {},
    }
}

proof fn lemma_grow_keeps_page<const PAGE_SIZE: usize>(
    a: Machine<PAGE_SIZE>,
    base: PagerView,
    request: Request,
    got: Seq<u64>,
    want: usize,
    grow: GrowTask,
    q: u64,
)
    requires
        0 < PAGE_SIZE,
        a.growing(base, request, got, want, grow),
        q * PAGE_SIZE + PAGE_SIZE <= a.pager.state.meta.total_pages * PAGE_SIZE,
        0 <= q * PAGE_SIZE,
    ensures
        page_of(served(a.file, request@), q as int, PAGE_SIZE as int) == page_of(
            a.file,
            q as int,
            PAGE_SIZE as int,
        ),
{
    let m = a.pager.state.meta;
    assert(m.growable(PAGE_SIZE));
    let len = 2 * m.total_pages * PAGE_SIZE;
    assert(m.total_pages * PAGE_SIZE <= len) by (nonlinear_arith)
        requires
            len == 2 * m.total_pages * PAGE_SIZE,
    ;
    assert(page_of(served(a.file, request@), q as int, PAGE_SIZE as int) =~= page_of(
        a.file,
        q as int,
        PAGE_SIZE as int,
    ));
}

proof fn lemma_commit_keeps_page<const PAGE_SIZE: usize>(
    a: Machine<PAGE_SIZE>,
    base: PagerView,
    request: RequestView,
    q: u64,
)
    requires
        valid_page_size(PAGE_SIZE),
        base.opened(a.file, PAGE_SIZE),
        a.committing(base, request),
        FIRST_DATA_PAGE <= q,
        page_in_map(q, PAGE_SIZE, a.file.len() as int),
    ensures
        page_of(served(a.file, request), q as int, PAGE_SIZE as int) == page_of(
            a.file,
            q as int,
            PAGE_SIZE as int,
        ),
{
    lemma_opened(base, a.file, PAGE_SIZE);
    law_completed_commits_keep_data_pages(a.pager.state, 0, a.file, PAGE_SIZE, q);
}

proof fn lemma_enter_keeps_page<const PAGE_SIZE: usize>(
    a: Machine<PAGE_SIZE>,
    base: PagerView,
    request: RequestView,
    idx: int,
    q: u64,
)
    requires
        valid_page_size(PAGE_SIZE),
        base.opened(a.file, PAGE_SIZE),
        a.entering(base, request, idx),
        FIRST_DATA_PAGE <= q,
        page_in_map(q, PAGE_SIZE, a.file.len() as int),
        q != a.pager.state.blocks[idx].copy(a.pager.state.blocks[idx].active.other()),
    ensures
        page_of(served(a.file, request), q as int, PAGE_SIZE as int) == page_of(
            a.file,
            q as int,
            PAGE_SIZE as int,
        ),
{
    lemma_opened(base, a.file, PAGE_SIZE);
    law_tidy_is_laid_out(a.pager.state, a.file.len() as int, PAGE_SIZE);
    law_completed_commits_keep_data_pages(a.pager.state, idx, a.file, PAGE_SIZE, q);
}

/// At step `i`, page `q` is a regular page, and whatever is written through a handle
/// is written to another page.
pub open spec fn left_alone<const PAGE_SIZE: usize>(
    ms: Seq<Machine<PAGE_SIZE>>,
    i: int,
    q: u64,
) -> bool {
    &&& ms[i].pager.state.regular(q as int)
    &&& ms[i].busy is Idle && ms[i + 1].busy is Idle ==> ms[i].writes_elsewhere(ms[i + 1], q)
}

impl<const PAGE_SIZE: usize> Machine<PAGE_SIZE> {
    /// A page other than `q` is written to.
    pub open spec fn writes_elsewhere(self, next: Machine<PAGE_SIZE>, q: u64) -> bool {
        exists|phys: u64, new: Seq<u8>|
            {
                &&& #[trigger] self.writable(phys)
                &&& phys != q
                &&& new.len() == PAGE_SIZE
                &&& next.file == #[trigger] with_page(
                    self.file,
                    phys as int,
                    PAGE_SIZE as int,
                    new,
                )
            }
    }
}

/// In any run of operations whose I/O succeeds, a regular page keeps its bytes until
/// it is written to or freed.
pub proof fn law_history_keeps_pages<const PAGE_SIZE: usize>(
    ms: Seq<Machine<PAGE_SIZE>>,
    from: int,
    upto: int,
    q: u64,
)
    requires
        valid_page_size(PAGE_SIZE),
        0 <= from <= upto < ms.len(),
        history(ms),
        forall|i: int| from <= i < upto ==> #[trigger] left_alone(ms, i, q),
    ensures
        page_of(ms[upto].file, q as int, PAGE_SIZE as int) == page_of(
            ms[from].file,
            q as int,
            PAGE_SIZE as int,
        ),
    decreases upto - from,
{
    if from < upto {
        law_history_keeps_pages(ms, from, upto - 1, q);
        let base = lemma_history(ms, upto - 1);
        assert(step_at(ms, upto - 1));
        assert(left_alone(ms, upto - 1, q));
        lemma_step_keeps_page(ms[upto - 1], base, ms[upto], q);
    }
}

/// A step that does not write to regular page `q` keeps its bytes.
proof fn lemma_step_keeps_page<const PAGE_SIZE: usize>(
    a: Machine<PAGE_SIZE>,
    base: PagerView,
    b: Machine<PAGE_SIZE>,
    q: u64,
)
    requires
        valid_page_size(PAGE_SIZE),
        a.holds(base),
        a.steps_to(b),
        a.pager.state.regular(q as int),
        a.busy is Idle && b.busy is Idle ==> a.writes_elsewhere(b, q),
    ensures
        page_of(b.file, q as int, PAGE_SIZE as int) == page_of(
            a.file,
            q as int,
            PAGE_SIZE as int,
        ),
{
    if !(a.busy is Idle) {
        lemma_request_keeps_page(a, base, b, q);
    } else if b.busy is Idle {
        lemma_other_write_keeps_page(a, b, q);
    }
}

proof fn lemma_other_write_keeps_page<const PAGE_SIZE: usize>(
    a: Machine<PAGE_SIZE>,
    b: Machine<PAGE_SIZE>,
    q: u64,
)
    requires
        valid_page_size(PAGE_SIZE),
        a.pager.opened(a.file, PAGE_SIZE),
        a.pager.state.regular(q as int),
        a.writes_elsewhere(b, q),
    ensures
        page_of(b.file, q as int, PAGE_SIZE as int) == page_of(
            a.file,
            q as int,
            PAGE_SIZE as int,
        ),
{
    let (phys, new) = choose|phys: u64, new: Seq<u8>|
        {
            &&& #[trigger] a.writable(phys)
            &&& phys != q
            &&& new.len() == PAGE_SIZE
            &&& b.file == #[trigger] with_page(a.file, phys as int, PAGE_SIZE as int, new)
        };
    lemma_writable_is_allocated(a, phys);
    lemma_allocated_lies_in_file(a.pager.state, phys, a.file.len() as int, PAGE_SIZE);
    lemma_allocated_lies_in_file(a.pager.state, q, a.file.len() as int, PAGE_SIZE);
    lemma_with_page(a.file, phys, q, PAGE_SIZE, new);
}

// ── Protected pages ───────────────────────────────────────────────────────────

impl<const PAGE_SIZE: usize> Machine<PAGE_SIZE> {
    /// Handle `id` names a protected page.
    pub open spec fn names(self, id: u64) -> bool {
        self.pager.state.protected_refusal(id, PAGE_SIZE) is None
    }

    /// What is read through handle `id`.
    pub open spec fn seen(self, id: u64) -> Seq<u8> {
        page_of(
            self.file,
            self.pager.state.active_copy(id, PAGE_SIZE) as int,
            PAGE_SIZE as int,
        )
    }

    /// What was written through handle `id` has been flushed and is about to be seen.
    pub open spec fn flips(self, id: u64) -> bool {
        self.busy matches Busy::Write(Turn::Ask(_, WriteTask::Data { id: written, .. }))
            && written.0 == id
    }
}

/// The active copy of a protected page is a data page and no copy of a directory
/// block.
proof fn lemma_active_copy_is_plain<const PAGE_SIZE: usize>(
    a: Machine<PAGE_SIZE>,
    base: PagerView,
    id: u64,
)
    requires
        a.holds(base),
        a.names(id),
    ensures
        a.pager.state.plain(a.pager.state.active_copy(id, PAGE_SIZE)),
{
    let s = a.pager.state;
    if s.tidy() {
        lemma_owned_is_plain(s, id, PAGE_SIZE);
    } else {
        lemma_changed_meta(a, base);
        let t = base.state;
        lemma_owned_is_plain(t, id, PAGE_SIZE);
        let phys = t.active_copy(id, PAGE_SIZE);
        assert forall|i: int| 0 <= i < s.blocks.len() implies !#[trigger] s.backs_block(
            i,
            phys as int,
        ) by {
            assert(!t.backs_block(i, phys as int));
        }
    }
}

proof fn lemma_owned_is_plain(s: StateView, id: u64, page_size: usize)
    requires
        s.tidy(),
        s.protected_refusal(id, page_size) is None,
    ensures
        s.plain(s.active_copy(id, page_size)),
        s.slot_in_use(StateView::block_of(id, page_size), StateView::slot_of(id, page_size)),
{
    lemma_slot_pages(s, id, page_size);
}

/// While pages are reserved, or metadata committed, the directory is the one in the
/// file.
proof fn lemma_changed_meta<const PAGE_SIZE: usize>(a: Machine<PAGE_SIZE>, base: PagerView)
    requires
        a.holds(base),
        !a.pager.state.tidy(),
    ensures
        a.pager.state.blocks == base.state.blocks,
        a.pager.state.dirs == base.state.dirs,
        base.state.tidy(),
        base.state.meta.total_pages <= a.pager.state.meta.total_pages,
{
    match a.busy {
        Busy::AllocProtected(Turn::Ask(request, task)) => {
            if let AllocProtectedTaskView::Commit { place, pages } = task@ {
                law_pages_handed_out(base.state.meta, place.pages() as nat, PAGE_SIZE);
            }
        },
        _ => {},
    }
    if exists|m: MetaView|
        #[trigger] base.committable(m, a.file.len() as int, PAGE_SIZE) && a.pager
            == base.with_meta(m).bumped() {
        let m = choose|m: MetaView|
            #[trigger] base.committable(m, a.file.len() as int, PAGE_SIZE) && a.pager
                == base.with_meta(m).bumped();
        assert forall|id: int| base.state.internal(id) && base.state.meta.allocated(id) implies
            #[trigger] a.pager.state.meta.allocated(id) by {
            assert(m.allocated(id));
        }
        law_meta_keeps_tidy(base.state, a.pager.state);
    }
}

/// The entry of a protected page changes only when what was written to it is about to
/// be seen.
proof fn lemma_entry_stays<const PAGE_SIZE: usize>(
    a: Machine<PAGE_SIZE>,
    base: PagerView,
    b: Machine<PAGE_SIZE>,
    id: u64,
)
    requires
        valid_page_size(PAGE_SIZE),
        a.holds(base),
        a.steps_to(b),
        a.names(id),
        b.names(id),
        !a.flips(id),
    ensures
        b.pager.state.entry(id, PAGE_SIZE) == a.pager.state.entry(id, PAGE_SIZE),
{
    let v = a.pager;
    lemma_opened(base, a.file, PAGE_SIZE);
    match a.busy {
        Busy::Idle => match b.busy {
            Busy::FreeProtected(turn) => {
                lemma_release_leaves_others(a, b, turn, id);
            },
            _ => {},
        },
        Busy::AllocProtected(Turn::Ask(request, task)) => match task@ {
            AllocProtectedTaskView::Commit { place, pages } => {
                let c = v.committed();
                lemma_place_ignores_meta(base.state, c.state, PAGE_SIZE);
                lemma_reserved_is_committable(
                    base,
                    place.pages() as nat,
                    a.file,
                    a.file.len() as int,
                    PAGE_SIZE,
                );
                assert(c.state.wf(PAGE_SIZE));
                assert(c.state.entry(id, PAGE_SIZE) == v.state.entry(id, PAGE_SIZE));
                law_enter_keeps_other_handles(c.state, place, pages, b.file, PAGE_SIZE, id);
            },
            _ => {},
        },
        Busy::Write(Turn::Ask(request, task)) => match task {
            WriteTask::Data { id: written, phys, slot } => {
                let page = page_of(b.file, phys as int, PAGE_SIZE as int);
                law_write_seen_after_commit(v.state, written.0, page, PAGE_SIZE);
                let block = StateView::block_of(written.0, PAGE_SIZE);
                let t = v.state.written(written.0, slot, page, PAGE_SIZE);
                assert(t.dir_committed(block).entry(id, PAGE_SIZE) == v.state.entry(
                    id,
                    PAGE_SIZE,
                ));
            },
            _ => {},
        },
        _ => {},
    }
}

proof fn lemma_release_leaves_others<const PAGE_SIZE: usize>(
    a: Machine<PAGE_SIZE>,
    b: Machine<PAGE_SIZE>,
    turn: Turn<(), FreeProtectedTask>,
    id: u64,
)
    requires
        valid_page_size(PAGE_SIZE),
        a.pager.available,
        a.begins(b),
        b.busy == Busy::<PAGE_SIZE>::FreeProtected(turn),
        b.names(id),
    ensures
        b.pager.state.entry(id, PAGE_SIZE) == a.pager.state.entry(id, PAGE_SIZE),
{
    let v = a.pager;
    let gone = choose|gone: u64|
        {
            &&& v.free_protected_refusal(gone, PAGE_SIZE) is None ==> {
                &&& v.state.meta.free_count + 2 <= u64::MAX
                &&& v.state.meta.generation < u64::MAX
            }
            &&& #[trigger] v.free_protected_begun(gone, a.file, PAGE_SIZE, b.pager, turn)
        };
    if v.free_protected_refusal(gone, PAGE_SIZE) is None {
        law_freed_handle_is_gone(v, gone, PAGE_SIZE);
        assert(b.pager.state == v.entry_freed(gone, PAGE_SIZE).state);
    }
}

/// A step keeps what is read through a handle, unless it commits what was written.
proof fn lemma_step_keeps_protected<const PAGE_SIZE: usize>(
    a: Machine<PAGE_SIZE>,
    base: PagerView,
    b: Machine<PAGE_SIZE>,
    id: u64,
)
    requires
        valid_page_size(PAGE_SIZE),
        a.holds(base),
        a.steps_to(b),
        a.names(id),
        b.names(id),
        !a.flips(id),
    ensures
        b.seen(id) == a.seen(id),
{
    lemma_entry_stays(a, base, b, id);
    lemma_active_copy_is_plain(a, base, id);
    let phys = a.pager.state.active_copy(id, PAGE_SIZE);
    assert(b.pager.state.active_copy(id, PAGE_SIZE) == phys);
    if !(a.busy is Idle) {
        lemma_request_keeps_page(a, base, b, phys);
    } else if b.busy is Idle {
        lemma_write_leaves_active(a, b, id);
    }
}

proof fn lemma_write_leaves_active<const PAGE_SIZE: usize>(
    a: Machine<PAGE_SIZE>,
    b: Machine<PAGE_SIZE>,
    id: u64,
)
    requires
        valid_page_size(PAGE_SIZE),
        a.busy is Idle,
        b.busy is Idle,
        a.pager.opened(a.file, PAGE_SIZE),
        a.begins(b),
        a.names(id),
    ensures
        page_of(
            b.file,
            a.pager.state.active_copy(id, PAGE_SIZE) as int,
            PAGE_SIZE as int,
        ) == a.seen(id),
{
    let s = a.pager.state;
    let (phys, new) = choose|phys: u64, new: Seq<u8>|
        #[trigger] a.writable(phys) && new.len() == PAGE_SIZE && b.file == #[trigger] with_page(
            a.file,
            phys as int,
            PAGE_SIZE as int,
            new,
        );
    lemma_owned_is_plain(s, id, PAGE_SIZE);
    let q = s.active_copy(id, PAGE_SIZE);
    let bl = StateView::block_of(id, PAGE_SIZE);
    let k = StateView::slot_of(id, PAGE_SIZE);
    let o = Owner::Slot(bl, k, s.dirs[bl].entries[k].active_slot != 0);
    assert(s.holds(o) && s.page_for(o) == q);
    assert(s.meta.allocated(q as int));
    assert(phys != q) by {
        if s.regular(phys as int) {
            law_internal_is_owned(s, q as int);
        } else {
            let other = choose|other: u64|
                s.protected_refusal(other, PAGE_SIZE) is None && #[trigger] s.inactive_copy(
                    other,
                    PAGE_SIZE,
                ) == phys;
            lemma_owned_is_plain(s, other, PAGE_SIZE);
            let b2 = StateView::block_of(other, PAGE_SIZE);
            let k2 = StateView::slot_of(other, PAGE_SIZE);
            let o2 = Owner::Slot(b2, k2, s.dirs[b2].entries[k2].active_slot == 0);
            assert(s.holds(o2) && s.page_for(o2) == phys);
            assert(o2 != o);
        }
    }
    lemma_writable_is_allocated(a, phys);
    lemma_allocated_lies_in_file(s, phys, a.file.len() as int, PAGE_SIZE);
    lemma_allocated_lies_in_file(s, q, a.file.len() as int, PAGE_SIZE);
    lemma_with_page(a.file, phys, q, PAGE_SIZE, new);
}

/// In any run of operations whose I/O succeeds, what is read through the handle of a
/// protected page stays the same until a write to it is committed or it is freed;
/// writing without a commit changes nothing.
pub proof fn law_history_keeps_protected_pages<const PAGE_SIZE: usize>(
    ms: Seq<Machine<PAGE_SIZE>>,
    from: int,
    upto: int,
    id: u64,
)
    requires
        valid_page_size(PAGE_SIZE),
        0 <= from <= upto < ms.len(),
        history(ms),
        forall|i: int| from <= i <= upto ==> (#[trigger] ms[i]).names(id),
        forall|i: int| from <= i < upto ==> !(#[trigger] ms[i]).flips(id),
    ensures
        ms[upto].seen(id) == ms[from].seen(id),
    decreases upto - from,
{
    if from < upto {
        law_history_keeps_protected_pages(ms, from, upto - 1, id);
        let base = lemma_history(ms, upto - 1);
        assert(step_at(ms, upto - 1));
        lemma_step_keeps_protected(ms[upto - 1], base, ms[upto], id);
    }
}

/// Once a write to a protected page is committed, what was written to the copy that
/// was not active is read through its handle.
pub proof fn law_history_shows_committed_write<const PAGE_SIZE: usize>(
    ms: Seq<Machine<PAGE_SIZE>>,
    i: int,
    id: u64,
)
    requires
        valid_page_size(PAGE_SIZE),
        0 <= i < ms.len() - 1,
        history(ms),
        ms[i].flips(id),
    ensures
        ms[i].names(id),
        ms[i + 1].names(id),
        ms[i + 1].seen(id) == page_of(
            ms[i].file,
            ms[i].pager.state.inactive_copy(id, PAGE_SIZE) as int,
            PAGE_SIZE as int,
        ),
{
    let base = lemma_history(ms, i);
    assert(step_at(ms, i));
    let a = ms[i];
    let b = ms[i + 1];
    if let Busy::Write(Turn::Ask(_, WriteTask::Data { id: written, phys, slot })) = a.busy {
        let page = page_of(b.file, phys as int, PAGE_SIZE as int);
        lemma_flush_changes_nothing(a.file, phys, PAGE_SIZE);
        law_write_seen_after_commit(a.pager.state, id, page, PAGE_SIZE);
        let block = StateView::block_of(id, PAGE_SIZE);
        let t = a.pager.state.written(id, slot, page, PAGE_SIZE);
        assert(t.dir_committed(block).entry(id, PAGE_SIZE) == t.entry(id, PAGE_SIZE));
    }
}

// ── Without a map ─────────────────────────────────────────────────────────────

impl PagerView {
    /// Whatever this pager is asked for, it answers that it is unavailable, and stays
    /// so.
    pub open spec fn answers_unavailable<const PAGE_SIZE: usize>(self) -> bool {
        &&& forall|w: PagerView, turn: Turn<PageId<PAGE_SIZE>, AllocTask<PAGE_SIZE>>|
            #[trigger] self.alloc_begun(w, turn) ==> !w.available && turn == Turn::<
                PageId<PAGE_SIZE>,
                AllocTask<PAGE_SIZE>,
            >::Done(Err(MappedPageError::Unavailable))
        &&& forall|
            count: usize,
            w: PagerView,
            turn: Turn<Vec<PageId<PAGE_SIZE>>, AllocBulkTask<PAGE_SIZE>>,
        |
            #[trigger] self.alloc_bulk_begun(count, w, turn) ==> !w.available && turn == Turn::<
                Vec<PageId<PAGE_SIZE>>,
                AllocBulkTask<PAGE_SIZE>,
            >::Done(Err(MappedPageError::Unavailable))
        &&& forall|id: u64, w: PagerView, turn: Turn<(), FreeTask>|
            #[trigger] self.free_next(id, PAGE_SIZE, w, turn) ==> !w.available && turn == Turn::<
                (),
                FreeTask,
            >::Done(Err(MappedPageError::Unavailable))
        &&& forall|ids: Seq<u64>, w: PagerView, turn: Turn<(), FreeTask>|
            #[trigger] self.free_bulk_next(ids, PAGE_SIZE, w, turn) ==> !w.available && turn
                == Turn::<(), FreeTask>::Done(Err(MappedPageError::Unavailable))
        &&& forall|w: PagerView, turn: Turn<ProtectedPageId<PAGE_SIZE>, AllocProtectedTask>|
            #[trigger] self.alloc_protected_begun(w, turn) ==> !w.available && turn == Turn::<
                ProtectedPageId<PAGE_SIZE>,
                AllocProtectedTask,
            >::Done(Err(MappedPageError::Unavailable))
        &&& forall|id: u64, f: Seq<u8>, w: PagerView, turn: Turn<(), FreeProtectedTask>|
            #[trigger] self.free_protected_begun(id, f, PAGE_SIZE, w, turn) ==> !w.available
                && turn == Turn::<(), FreeProtectedTask>::Done(Err(MappedPageError::Unavailable))
        &&& forall|id: u64|
            #[trigger] self.page_refusal(id) == Some(MappedPageError::Unavailable)
        &&& forall|id: u64|
            #[trigger] self.protected_refusal(id, PAGE_SIZE) == Some(MappedPageError::Unavailable)
    }
}

/// A pager whose file cannot be mapped again is left without a map, with its state in
/// memory as it was.  That is so if the file was made longer and could not be mapped,
/// and if it could not be made longer and then not be mapped as it was.  From then on
/// the pager answers everything with [`MappedPageError::Unavailable`].  The file can be
/// opened anew, whether or not it was made shorter again, and gives the pager `base`
/// that it gave before: `v` is that one, or has reserved pages in memory.
pub proof fn law_failed_map_loses_nothing<const PAGE_SIZE: usize>(
    base: PagerView,
    v: PagerView,
    f: Seq<u8>,
    first: IoEvent,
    completed: usize,
    error: std::io::Error,
    last: IoEvent,
)
    requires
        valid_page_size(PAGE_SIZE),
        base.opened(f, PAGE_SIZE),
        base.state.meta.total_pages <= v.state.meta.total_pages,
        v.state.meta.total_pages * PAGE_SIZE <= f.len(),
        v.state.meta.growable(PAGE_SIZE),
    ensures
        ({
            let (v1, t1) = v.mapped(false).grow_next(GrowTask::SetLen, first, PAGE_SIZE);
            let (v2, t2) = v1.grow_next(
                t1->Ask_1,
                IoEvent::Failed { completed, error },
                PAGE_SIZE,
            );
            let longer = served(f, v.grow_request(PAGE_SIZE)@);
            &&& t1 is Ask && t1->Ask_0 is Remap
            &&& first is Done ==> {
                let (w, t3) = v2.grow_next(t2->Ask_1, last, PAGE_SIZE);
                &&& t2 is Ask
                &&& t3 == GrowTurn::Failed(MappedPageError::Io(error))
                &&& w == v.mapped(false)
                &&& base.opened(longer, PAGE_SIZE)
                &&& base.opened(served(longer, t2->Ask_0@), PAGE_SIZE)
            }
            &&& first is Failed ==> {
                &&& t2 == GrowTurn::Failed(MappedPageError::Io(error))
                &&& v2 == v.mapped(false)
            }
            &&& v.mapped(false).answers_unavailable::<PAGE_SIZE>()
        }),
{
    let m = v.state.meta;
    let len = 2 * m.total_pages * PAGE_SIZE;
    let least = m.total_pages * PAGE_SIZE;
    assert(0 <= least <= len) by (nonlinear_arith)
        requires
            len == 2 * m.total_pages * PAGE_SIZE,
            least == m.total_pages * PAGE_SIZE,
    ;
    assert(base.state.meta.total_pages * PAGE_SIZE <= least) by (nonlinear_arith)
        requires
            base.state.meta.total_pages <= m.total_pages,
            least == m.total_pages * PAGE_SIZE,
    ;
    let longer = served(f, v.grow_request(PAGE_SIZE)@);
    if len <= f.len() {
        law_cut_file_keeps_sound(base, f, len, PAGE_SIZE);
    } else {
        law_longer_file_keeps_sound(base, f, zeros(len - f.len()), PAGE_SIZE);
    }
    law_cut_file_keeps_sound(base, longer, least, PAGE_SIZE);
}

// ── One answer ────────────────────────────────────────────────────────────────

/// Two turns of the allocation of a protected page are the same.
pub open spec fn same_turn<const PAGE_SIZE: usize>(
    x: Turn<ProtectedPageId<PAGE_SIZE>, AllocProtectedTask>,
    y: Turn<ProtectedPageId<PAGE_SIZE>, AllocProtectedTask>,
) -> bool {
    match (x, y) {
        (Turn::Done(a), Turn::Done(b)) => a == b,
        (Turn::Ask(r, t), Turn::Ask(q, u)) => r@ == q@ && t@ == u@,
        _ => false,
    }
}

/// How the allocation of a protected page begins is determined by the pager, and how
/// it goes on by the pager, the task, the event and the file.
proof fn lemma_protected_alloc_is_determined<const PAGE_SIZE: usize>(
    v: PagerView,
    task: AllocProtectedTaskView,
    event: IoEvent,
    f: Seq<u8>,
    a: PagerView,
    x: Turn<ProtectedPageId<PAGE_SIZE>, AllocProtectedTask>,
    b: PagerView,
    y: Turn<ProtectedPageId<PAGE_SIZE>, AllocProtectedTask>,
)
    ensures
        v.alloc_protected_begun(a, x) && v.alloc_protected_begun(b, y) ==> a == b && same_turn(
            x,
            y,
        ),
        v.alloc_protected_resumed(task, event, f, a, x) && v.alloc_protected_resumed(
            task,
            event,
            f,
            b,
            y,
        ) ==> a == b && same_turn(x, y),
{
}

/// The allocation of a protected page on its way: the pagers, the turns and the files.
pub struct Course<const PAGE_SIZE: usize> {
    pub pagers: Seq<PagerView>,
    pub turns: Seq<Turn<ProtectedPageId<PAGE_SIZE>, AllocProtectedTask>>,
    pub files: Seq<Seq<u8>>,
}

impl<const PAGE_SIZE: usize> Course<PAGE_SIZE> {
    /// The allocation begins with the pager `v` and the file `f`.
    pub open spec fn begins(self, v: PagerView, f: Seq<u8>) -> bool {
        &&& v.alloc_protected_begun(self.pagers[0], self.turns[0])
        &&& self.files[0] == f
    }

    /// Turn `i` is carried out: `io` says how a request goes on a file and what it
    /// makes of it.
    pub open spec fn driven_at(
        self,
        io: spec_fn(Seq<u8>, RequestView) -> (IoEvent, Seq<u8>),
        i: int,
    ) -> bool {
        &&& self.turns[i] matches Turn::Ask(request, task)
        &&& self.files[i + 1] == io(self.files[i], request@).1
        &&& self.pagers[i].alloc_protected_resumed(
            task@,
            io(self.files[i], request@).0,
            self.files[i + 1],
            self.pagers[i + 1],
            self.turns[i + 1],
        )
    }
}

/// Two allocations of a protected page that begin with equal pagers and equal files,
/// and whose requests are answered alike, come to the same: at each turn the pagers,
/// the turns and the files are equal.  So it is the same whether the I/O is waited for
/// or awaited.
pub proof fn law_protected_alloc_is_determined<const PAGE_SIZE: usize>(
    v: PagerView,
    f: Seq<u8>,
    io: spec_fn(Seq<u8>, RequestView) -> (IoEvent, Seq<u8>),
    a: Course<PAGE_SIZE>,
    b: Course<PAGE_SIZE>,
    k: int,
)
    requires
        0 <= k,
        a.begins(v, f),
        b.begins(v, f),
        forall|i: int| 0 <= i < k ==> #[trigger] a.driven_at(io, i),
        forall|i: int| 0 <= i < k ==> #[trigger] b.driven_at(io, i),
    ensures
        a.pagers[k] == b.pagers[k],
        same_turn(a.turns[k], b.turns[k]),
        a.files[k] == b.files[k],
    decreases k,
{
    if k == 0 {
        lemma_protected_alloc_is_determined(
            v,
            AllocProtectedTaskView::Directory { block: 0, id: 0 },
            IoEvent::Done,
            f,
            a.pagers[0],
            a.turns[0],
            b.pagers[0],
            b.turns[0],
        );
    } else {
        law_protected_alloc_is_determined(v, f, io, a, b, k - 1);
        assert(a.driven_at(io, k - 1));
        assert(b.driven_at(io, k - 1));
        if let Turn::Ask(request, task) = a.turns[k - 1] {
            let (event, g) = io(a.files[k - 1], request@);
            lemma_protected_alloc_is_determined(
                a.pagers[k - 1],
                task@,
                event,
                g,
                a.pagers[k],
                a.turns[k],
                b.pagers[k],
                b.turns[k],
            );
        }
    }
}

} // verus!
