//! Whole operations, driven over a file in memory.

use std::cell::{RefCell, RefMut};
use std::rc::Rc;

use mappedpages::bulk::{BulkAlloc, BulkFreeStep, BulkStep};
use mappedpages::directory::{DirEntry, DirPage};
use mappedpages::guard::{is_addressable, is_valid_sub_size};
use mappedpages::image::{is_page_in_map, is_valid_page_size};
use mappedpages::meta::{FIRST_DATA_PAGE, MetaPage, MetaSelector};
use mappedpages::plan::Step;
use mappedpages::task::{IoEvent, Request, Turn};
use mappedpages::{BulkPageAllocator, MappedPageError, PageId, ProtectedPageId, SubPageId};

// ── A file in memory ──────────────────────────────────────────────────────────

/// A file that pagers and tests share.
#[derive(Clone)]
struct TempPath(Rc<RefCell<Vec<u8>>>);

impl TempPath {
    fn new() -> Self {
        TempPath(Rc::new(RefCell::new(Vec::new())))
    }

    fn path(&self) -> &TempPath {
        self
    }

    fn bytes(&self) -> Vec<u8> {
        self.0.borrow().clone()
    }
}

fn write_at(file: &TempPath, offset: u64, data: &[u8]) {
    let offset = offset as usize;
    file.0.borrow_mut()[offset..offset + data.len()].copy_from_slice(data);
}

fn zero_range(file: &TempPath, offset: u64, len: usize) {
    write_at(file, offset, &vec![0u8; len]);
}

// Byte offset of the embedded checksum at the end of a metadata page.
fn meta_checksum_offset(sel: MetaSelector, page_size: usize) -> u64 {
    sel.page_id() * page_size as u64 + page_size as u64 - 4
}

fn io_error(text: &str) -> std::io::Error {
    std::io::Error::new(std::io::ErrorKind::Other, text)
}

// ── A pager with its file ─────────────────────────────────────────────────────

/// A pager whose requests are carried out on a file in memory.
struct Pager<const PAGE_SIZE: usize> {
    core: mappedpages::Pager<PAGE_SIZE>,
    file: TempPath,
    /// Requests and steps that still succeed; `None` for all.
    budget: Option<usize>,
    /// Requests whose outcome does not depend on the budget.
    log: Vec<String>,
}

/// The contents of a page at one moment.
struct PageCopy(Vec<u8>);

impl PageCopy {
    fn as_bytes(&self) -> &[u8] {
        &self.0
    }

    fn len(&self) -> usize {
        self.0.len()
    }
}

impl<const PAGE_SIZE: usize> Pager<PAGE_SIZE> {
    fn create(file: &TempPath) -> Result<Self, MappedPageError> {
        assert!(is_valid_page_size(PAGE_SIZE));
        let (core, bytes) = mappedpages::Pager::<PAGE_SIZE>::create();
        *file.0.borrow_mut() = bytes;
        Ok(Pager {
            core,
            file: file.clone(),
            budget: None,
            log: Vec::new(),
        })
    }

    fn open(file: &TempPath) -> Result<Self, MappedPageError> {
        assert!(is_valid_page_size(PAGE_SIZE));
        let core = mappedpages::Pager::<PAGE_SIZE>::open(&file.0.borrow())?;
        Ok(Pager {
            core,
            file: file.clone(),
            budget: None,
            log: Vec::new(),
        })
    }

    /// Whether one more action succeeds.
    fn granted(&mut self) -> bool {
        match self.budget {
            None => true,
            Some(0) => false,
            Some(n) => {
                self.budget = Some(n - 1);
                true
            }
        }
    }

    fn perform(&mut self, request: Request) -> IoEvent {
        match request {
            Request::Apply(steps) => {
                for (completed, step) in steps.into_iter().enumerate() {
                    match step {
                        Step::Store { offset, data } => {
                            self.log.push(format!("store {} {}", offset, data.len()));
                            self.file.0.borrow_mut()[offset..offset + data.len()]
                                .copy_from_slice(&data);
                        }
                        Step::Flush { offset, len } => {
                            self.log.push(format!("flush {} {}", offset, len));
                            if !self.granted() {
                                let error = io_error("flush");
                                return IoEvent::Failed { completed, error };
                            }
                        }
                    }
                }
                IoEvent::Done
            }
            Request::SetLen(len) => {
                self.log.push(format!("set_len {}", len));
                if !self.granted() {
                    let error = io_error("set_len");
                    return IoEvent::Failed { completed: 0, error };
                }
                self.file.0.borrow_mut().resize(len as usize, 0);
                IoEvent::Done
            }
            Request::Remap => {
                self.log.push(String::from("map"));
                if !self.granted() {
                    let error = io_error("map");
                    return IoEvent::Failed { completed: 0, error };
                }
                IoEvent::Done
            }
        }
    }

    fn allocate(&mut self) -> Result<PageId<PAGE_SIZE>, MappedPageError> {
        assert!(self.core.ready_to_allocate());
        let mut turn = self.core.allocate();
        loop {
            match turn {
                Turn::Done(result) => return result,
                Turn::Ask(request, task) => {
                    let event = self.perform(request);
                    turn = self.core.resume_alloc(task, event);
                }
            }
        }
    }

    fn free(&mut self, id: PageId<PAGE_SIZE>) -> Result<(), MappedPageError> {
        assert!(self.core.ready_to_free(id));
        let mut turn = self.core.free(id);
        loop {
            match turn {
                Turn::Done(result) => return result,
                Turn::Ask(request, task) => {
                    let event = self.perform(request);
                    turn = self.core.resume_free(task, event);
                }
            }
        }
    }

    fn alloc_bulk(&mut self, count: usize) -> Result<Vec<PageId<PAGE_SIZE>>, MappedPageError> {
        assert!(self.core.ready_to_alloc_bulk(count));
        let mut turn = self.core.alloc_bulk(count);
        loop {
            match turn {
                Turn::Done(result) => return result,
                Turn::Ask(request, task) => {
                    let event = self.perform(request);
                    turn = self.core.resume_alloc_bulk(task, event);
                }
            }
        }
    }

    fn free_bulk(&mut self, ids: Vec<PageId<PAGE_SIZE>>) -> Result<(), MappedPageError> {
        assert!(self.core.ready_to_free_bulk(&ids));
        let mut turn = self.core.free_bulk(ids);
        loop {
            match turn {
                Turn::Done(result) => return result,
                Turn::Ask(request, task) => {
                    let event = self.perform(request);
                    turn = self.core.resume_free(task, event);
                }
            }
        }
    }

    fn alloc_protected(&mut self) -> Result<ProtectedPageId<PAGE_SIZE>, MappedPageError> {
        assert!(self.core.ready_to_alloc_protected());
        let mut turn = self.core.alloc_protected();
        loop {
            match turn {
                Turn::Done(result) => return result,
                Turn::Ask(request, task) => {
                    let event = self.perform(request);
                    let map = self.file.0.borrow();
                    assert!(self.core.alloc_protected_in_map(&task, &event, map.len()));
                    turn = self.core.resume_alloc_protected(task, event, &map);
                }
            }
        }
    }

    fn free_protected(&mut self, id: ProtectedPageId<PAGE_SIZE>) -> Result<(), MappedPageError> {
        let mut turn = {
            let map = self.file.0.borrow();
            assert!(self.core.ready_to_free_protected(id, map.len()));
            self.core.free_protected(id, &map)
        };
        loop {
            match turn {
                Turn::Done(result) => return result,
                Turn::Ask(request, task) => {
                    let event = self.perform(request);
                    turn = self.core.resume_free_protected(task, event);
                }
            }
        }
    }

    fn alloc_protected_bulk(
        &mut self,
        count: usize,
    ) -> Result<Vec<ProtectedPageId<PAGE_SIZE>>, MappedPageError> {
        let mut step = self.core.alloc_protected_bulk(count);
        loop {
            step = match step {
                BulkStep::Allocate(batch) => {
                    let result = self.alloc_protected();
                    batch.allocated(result)
                }
                BulkStep::Free(id, undo) => {
                    let _ = self.free_protected(id);
                    undo.freed()
                }
                BulkStep::Done(result) => return result,
            };
        }
    }

    fn free_protected_bulk(
        &mut self,
        ids: Vec<ProtectedPageId<PAGE_SIZE>>,
    ) -> Result<(), MappedPageError> {
        let mut step = self.core.free_protected_bulk(ids);
        loop {
            step = match step {
                BulkFreeStep::Free(id, batch) => {
                    let result = self.free_protected(id);
                    batch.freed(result)
                }
                BulkFreeStep::Done(result) => return result,
            };
        }
    }

    fn page_size(&self) -> usize {
        self.core.page_size()
    }

    fn page_count(&self) -> u64 {
        self.core.page_count()
    }

    fn free_page_count(&self) -> u64 {
        self.core.free_page_count()
    }

    fn active_meta_selector(&self) -> MetaSelector {
        self.core.active_meta_selector()
    }

    fn dir_block_pages(&self, block_idx: usize) -> (u64, u64, MetaSelector) {
        self.core.dir_block_pages(block_idx)
    }

    fn protected_active_slot(&self, id: ProtectedPageId<PAGE_SIZE>) -> u8 {
        self.core.protected_active_slot(id)
    }

    fn protected_backing_pages(&self, id: ProtectedPageId<PAGE_SIZE>) -> (u64, u64) {
        self.core.protected_backing_pages(id)
    }

    fn iter_allocated_pages(&self) -> std::vec::IntoIter<PageId<PAGE_SIZE>> {
        let mut pages = self.core.iter_allocated_pages();
        let mut ids = Vec::new();
        while let Some(id) = pages.next() {
            ids.push(id);
        }
        ids.into_iter()
    }

    fn iter_allocated_protected_pages(&self) -> std::vec::IntoIter<ProtectedPageId<PAGE_SIZE>> {
        assert!(is_addressable(PAGE_SIZE));
        let mut pages = self.core.iter_allocated_protected_pages();
        let mut ids = Vec::new();
        while let Some(id) = pages.next() {
            ids.push(id);
        }
        ids.into_iter()
    }

    fn get_page_mut(
        &mut self,
        id: PageId<PAGE_SIZE>,
    ) -> Result<PageWriter<'_, PAGE_SIZE>, MappedPageError> {
        id.open_mut(self)
    }
}

/// A handle whose page can be read through `A`.
trait Fetch<A> {
    fn fetch(&self, from: &A) -> Result<PageCopy, MappedPageError>;
}

/// A handle whose page can be written through `A`.
trait OpenMut<A> {
    type Writer<'a>
    where
        A: 'a;

    fn open_mut<'a>(&self, from: &'a mut A) -> Result<Self::Writer<'a>, MappedPageError>;
}

impl<const PAGE_SIZE: usize> Fetch<Pager<PAGE_SIZE>> for PageId<PAGE_SIZE> {
    fn fetch(&self, p: &Pager<PAGE_SIZE>) -> Result<PageCopy, MappedPageError> {
        let map = p.file.0.borrow();
        assert!(p.core.page_in_map(*self, map.len()));
        let page = self.get(&p.core, &map)?;
        assert_eq!(page.len(), page.as_bytes().len());
        assert!(!page.is_empty());
        Ok(PageCopy(page.as_bytes().to_vec()))
    }
}

/// A regular page to be written.
struct PageWriter<'a, const PAGE_SIZE: usize> {
    core: &'a mappedpages::Pager<PAGE_SIZE>,
    id: PageId<PAGE_SIZE>,
    map: RefMut<'a, Vec<u8>>,
}

impl<'a, const PAGE_SIZE: usize> PageWriter<'a, PAGE_SIZE> {
    fn edit(&mut self, change: impl FnOnce(&mut [u8])) {
        let mut page = self.id.get_mut(self.core, &mut self.map).unwrap();
        assert_eq!(page.len(), page.as_bytes().len());
        assert!(!page.is_empty());
        change(page.as_bytes_mut());
    }
}

impl<const PAGE_SIZE: usize> OpenMut<Pager<PAGE_SIZE>> for PageId<PAGE_SIZE> {
    type Writer<'a> = PageWriter<'a, PAGE_SIZE>;

    fn open_mut<'a>(
        &self,
        p: &'a mut Pager<PAGE_SIZE>,
    ) -> Result<PageWriter<'a, PAGE_SIZE>, MappedPageError> {
        let mut map = p.file.0.borrow_mut();
        assert!(p.core.page_in_map(*self, map.len()));
        self.get_mut(&p.core, &mut map)?;
        Ok(PageWriter { core: &p.core, id: *self, map })
    }
}

impl<const PAGE_SIZE: usize> Fetch<Pager<PAGE_SIZE>> for ProtectedPageId<PAGE_SIZE> {
    fn fetch(&self, p: &Pager<PAGE_SIZE>) -> Result<PageCopy, MappedPageError> {
        let map = p.file.0.borrow();
        assert!(p.core.active_copy_in_map(*self, map.len()));
        Ok(PageCopy(self.get(&p.core, &map)?.as_bytes().to_vec()))
    }
}

/// A protected page to be written and committed.
struct ProtectedWriter<'a, const PAGE_SIZE: usize> {
    pager: &'a mut Pager<PAGE_SIZE>,
    id: ProtectedPageId<PAGE_SIZE>,
}

impl<'a, const PAGE_SIZE: usize> ProtectedWriter<'a, PAGE_SIZE> {
    fn page_mut(&mut self) -> &mut Self {
        self
    }

    fn edit(&mut self, change: impl FnOnce(&mut [u8])) {
        let mut map = self.pager.file.0.borrow_mut();
        let mut writer = self.id.get_mut(&mut self.pager.core, &mut map).unwrap();
        assert!(is_page_in_map(writer.inactive_phys_page, PAGE_SIZE, writer.map.len()));
        change(writer.page_mut().as_bytes_mut());
    }

    fn commit(self) -> Result<(), MappedPageError> {
        let mut turn = {
            let mut map = self.pager.file.0.borrow_mut();
            self.id.get_mut(&mut self.pager.core, &mut map)?.commit()
        };
        loop {
            match turn {
                Turn::Done(result) => return result,
                Turn::Ask(request, task) => {
                    let event = self.pager.perform(request);
                    let map = self.pager.file.0.borrow();
                    assert!(self.pager.core.can_resume_write(&task, &event, map.len()));
                    turn = self.pager.core.resume_write(task, event, &map);
                }
            }
        }
    }
}

impl<const PAGE_SIZE: usize> OpenMut<Pager<PAGE_SIZE>> for ProtectedPageId<PAGE_SIZE> {
    type Writer<'a> = ProtectedWriter<'a, PAGE_SIZE>;

    fn open_mut<'a>(
        &self,
        p: &'a mut Pager<PAGE_SIZE>,
    ) -> Result<ProtectedWriter<'a, PAGE_SIZE>, MappedPageError> {
        {
            let mut map = p.file.0.borrow_mut();
            assert!(p.core.ready_to_write(*self));
            self.get_mut(&mut p.core, &mut map)?;
        }
        Ok(ProtectedWriter { pager: p, id: *self })
    }
}

// ── A sub-page allocator with its file ────────────────────────────────────────

struct SubPageAllocator<const PARENT_SIZE: usize, const SUB_SIZE: usize> {
    core: mappedpages::SubPageAllocator<PARENT_SIZE, SUB_SIZE>,
    /// Carries out the requests; its own pager is not used.
    disk: Pager<PARENT_SIZE>,
}

impl<const PARENT_SIZE: usize, const SUB_SIZE: usize> SubPageAllocator<PARENT_SIZE, SUB_SIZE> {
    fn new(mut pager: Pager<PARENT_SIZE>) -> Self {
        assert!(is_valid_sub_size(PARENT_SIZE, SUB_SIZE));
        let (spare, _) = mappedpages::Pager::create();
        let inner = std::mem::replace(&mut pager.core, spare);
        SubPageAllocator {
            core: mappedpages::SubPageAllocator::new(inner),
            disk: pager,
        }
    }

    fn pager(&self) -> &mappedpages::Pager<PARENT_SIZE> {
        self.core.pager()
    }

    fn into_pager(self) -> Pager<PARENT_SIZE> {
        let mut pager = self.disk;
        pager.core = self.core.into_pager();
        pager
    }

    fn allocate(&mut self) -> Result<SubPageId<PARENT_SIZE, SUB_SIZE>, MappedPageError> {
        assert!(self.core.ready_to_allocate());
        let mut turn = self.core.allocate();
        loop {
            match turn {
                Turn::Done(result) => return result,
                Turn::Ask(request, task) => {
                    let event = self.disk.perform(request);
                    turn = self.core.resume_alloc(task, event);
                }
            }
        }
    }

    fn free(&mut self, id: SubPageId<PARENT_SIZE, SUB_SIZE>) -> Result<(), MappedPageError> {
        assert!(self.core.ready_to_free(id));
        let mut turn = self.core.free(id);
        loop {
            match turn {
                Turn::Done(result) => return result,
                Turn::Ask(request, task) => {
                    let event = self.disk.perform(request);
                    turn = self.core.resume_free(task, event);
                }
            }
        }
    }

    fn alloc_bulk(
        &mut self,
        count: usize,
    ) -> Result<Vec<SubPageId<PARENT_SIZE, SUB_SIZE>>, MappedPageError> {
        let mut step = self.core.alloc_bulk(count);
        loop {
            step = match step {
                BulkStep::Allocate(batch) => {
                    let result = self.allocate();
                    batch.allocated(result)
                }
                BulkStep::Free(id, undo) => {
                    let _ = self.free(id);
                    undo.freed()
                }
                BulkStep::Done(result) => return result,
            };
        }
    }

    fn free_bulk(
        &mut self,
        ids: Vec<SubPageId<PARENT_SIZE, SUB_SIZE>>,
    ) -> Result<(), MappedPageError> {
        let mut step = self.core.free_bulk(ids);
        loop {
            step = match step {
                BulkFreeStep::Free(page, batch) => {
                    assert!(self.core.ready_to_release(page));
                    let mut turn = self.core.release(page);
                    let result = loop {
                        match turn {
                            Turn::Done(result) => break result,
                            Turn::Ask(request, task) => {
                                let event = self.disk.perform(request);
                                turn = self.core.resume_free(task, event);
                            }
                        }
                    };
                    batch.freed(result)
                }
                BulkFreeStep::Done(result) => return result,
            };
        }
    }
}

impl<const PARENT_SIZE: usize, const SUB_SIZE: usize> Fetch<SubPageAllocator<PARENT_SIZE, SUB_SIZE>>
    for SubPageId<PARENT_SIZE, SUB_SIZE>
{
    fn fetch(
        &self,
        sub: &SubPageAllocator<PARENT_SIZE, SUB_SIZE>,
    ) -> Result<PageCopy, MappedPageError> {
        let map = sub.disk.file.0.borrow();
        assert!(sub.core.sub_page_in_map(*self, map.len()));
        Ok(PageCopy(self.get(&sub.core, &map)?.as_bytes().to_vec()))
    }
}

/// A sub-page to be written.
struct SubWriter<'a, const PARENT_SIZE: usize, const SUB_SIZE: usize> {
    sub: &'a mut SubPageAllocator<PARENT_SIZE, SUB_SIZE>,
    id: SubPageId<PARENT_SIZE, SUB_SIZE>,
}

impl<'a, const PARENT_SIZE: usize, const SUB_SIZE: usize> SubWriter<'a, PARENT_SIZE, SUB_SIZE> {
    fn edit(&mut self, change: impl FnOnce(&mut [u8])) {
        let mut map = self.sub.disk.file.0.borrow_mut();
        change(self.id.get_mut(&self.sub.core, &mut map).unwrap().as_bytes_mut());
    }
}

impl<const PARENT_SIZE: usize, const SUB_SIZE: usize>
    OpenMut<SubPageAllocator<PARENT_SIZE, SUB_SIZE>> for SubPageId<PARENT_SIZE, SUB_SIZE>
{
    type Writer<'a> = SubWriter<'a, PARENT_SIZE, SUB_SIZE>;

    fn open_mut<'a>(
        &self,
        sub: &'a mut SubPageAllocator<PARENT_SIZE, SUB_SIZE>,
    ) -> Result<SubWriter<'a, PARENT_SIZE, SUB_SIZE>, MappedPageError> {
        {
            let mut map = sub.disk.file.0.borrow_mut();
            assert!(sub.core.sub_page_in_map(*self, map.len()));
            self.get_mut(&sub.core, &mut map)?;
        }
        Ok(SubWriter { sub, id: *self })
    }
}

// ── A read-only pager with its file ───────────────────────────────────────────

struct ReadOnlyPager<const PAGE_SIZE: usize> {
    core: mappedpages::ReadOnlyPager<PAGE_SIZE>,
    file: TempPath,
}

impl<const PAGE_SIZE: usize> ReadOnlyPager<PAGE_SIZE> {
    fn open(file: &TempPath) -> Result<Self, MappedPageError> {
        let core = mappedpages::ReadOnlyPager::<PAGE_SIZE>::open(&file.0.borrow())?;
        Ok(ReadOnlyPager {
            core,
            file: file.clone(),
        })
    }

    fn page_size(&self) -> usize {
        self.core.page_size()
    }

    fn page_count(&self) -> u64 {
        self.core.page_count()
    }

    fn free_page_count(&self) -> u64 {
        self.core.free_page_count()
    }

    fn get_page(&self, id: PageId<PAGE_SIZE>) -> Result<PageCopy, MappedPageError> {
        let map = self.file.0.borrow();
        Ok(PageCopy(self.core.get_page(id, &map)?.as_bytes().to_vec()))
    }

    fn get_protected_page(
        &self,
        id: ProtectedPageId<PAGE_SIZE>,
    ) -> Result<PageCopy, MappedPageError> {
        let map = self.file.0.borrow();
        let page = self.core.get_protected_page(id, &map)?;
        Ok(PageCopy(page.as_bytes().to_vec()))
    }

    fn iter_allocated_pages(&self) -> std::vec::IntoIter<PageId<PAGE_SIZE>> {
        let mut pages = self.core.iter_allocated_pages();
        let mut ids = Vec::new();
        while let Some(id) = pages.next() {
            ids.push(id);
        }
        ids.into_iter()
    }

    fn iter_allocated_protected_pages(&self) -> std::vec::IntoIter<ProtectedPageId<PAGE_SIZE>> {
        let mut pages = self.core.iter_allocated_protected_pages();
        let mut ids = Vec::new();
        while let Some(id) = pages.next() {
            ids.push(id);
        }
        ids.into_iter()
    }
}


// ── Pager integration tests ───────────────────────────────────────────────────

#[test]
fn pager_create_basic() {
    let tmp = TempPath::new();
    let p = Pager::<1024>::create(tmp.path()).unwrap();
    assert_eq!(p.page_size(), 1024);
    assert_eq!(p.page_count(), 4);
    assert_eq!(p.free_page_count(), 1);
}

#[test]
fn pager_create_larger_page_size() {
    let tmp = TempPath::new();
    let p = Pager::<4096>::create(tmp.path()).unwrap();
    assert_eq!(p.page_size(), 4096);
}

#[test]
fn pager_open_recovers_state() {
    let tmp = TempPath::new();
    Pager::<1024>::create(tmp.path()).unwrap();
    let p = Pager::<1024>::open(tmp.path()).unwrap();
    assert_eq!(p.page_size(), 1024);
    assert_eq!(p.page_count(), 4);
    assert_eq!(p.free_page_count(), 1);
}

#[test]
fn pager_open_wrong_page_size_fails() {
    let tmp = TempPath::new();
    Pager::<1024>::create(tmp.path()).unwrap();
    assert!(matches!(
        Pager::<4096>::open(tmp.path()),
        Err(MappedPageError::InvalidPageSize)
    ));
}

#[test]
fn pager_alloc_returns_data_page() {
    let tmp = TempPath::new();
    let mut p = Pager::<1024>::create(tmp.path()).unwrap();
    let id = p.allocate().unwrap();
    assert!(
        id.0 >= FIRST_DATA_PAGE,
        "alloc must not return reserved pages"
    );
}

#[test]
fn pager_alloc_multiple_distinct_ids() {
    let tmp = TempPath::new();
    let mut p = Pager::<1024>::create(tmp.path()).unwrap();
    // 1 initial free page, then grows to accommodate more
    let ids: Vec<PageId<1024>> = (0..5).map(|_| p.allocate().unwrap()).collect();
    let mut sorted: Vec<u64> = ids.iter().map(|id| id.0).collect();
    sorted.sort_unstable();
    sorted.dedup();
    assert_eq!(sorted.len(), 5, "all returned PageIds must be distinct");
    assert!(ids.iter().all(|id| id.0 >= FIRST_DATA_PAGE));
}

#[test]
fn pager_alloc_exhaustion_triggers_grow() {
    let tmp = TempPath::new();
    let mut p = Pager::<1024>::create(tmp.path()).unwrap();
    assert_eq!(p.page_count(), 4);
    p.allocate().unwrap(); // last free page (3)
    assert_eq!(p.free_page_count(), 0);
    p.allocate().unwrap(); // triggers grow 4 → 8, then allocates page 4
    assert_eq!(p.page_count(), 8);
    assert_eq!(p.free_page_count(), 3); // pages 5-7 still free
}

#[test]
fn pager_page_count_doubles_each_grow() {
    let tmp = TempPath::new();
    let mut p = Pager::<1024>::create(tmp.path()).unwrap();
    // exhaust and grow twice
    while p.free_page_count() > 0 {
        p.allocate().unwrap();
    }
    p.allocate().unwrap(); // grow 4 → 8
    assert_eq!(p.page_count(), 8);
    while p.free_page_count() > 0 {
        p.allocate().unwrap();
    }
    p.allocate().unwrap(); // grow 8 → 16
    assert_eq!(p.page_count(), 16);
}

#[test]
fn pager_free_returns_page_to_pool() {
    let tmp = TempPath::new();
    let mut p = Pager::<1024>::create(tmp.path()).unwrap();
    let id = p.allocate().unwrap();
    assert_eq!(p.free_page_count(), 0);
    p.free(id).unwrap();
    assert_eq!(p.free_page_count(), 1);
    let id2 = p.allocate().unwrap(); // should reuse
    assert_eq!(id, id2);
}

#[test]
fn pager_free_reserved_pages_error() {
    let tmp = TempPath::new();
    let mut p = Pager::<1024>::create(tmp.path()).unwrap();
    for i in 0..FIRST_DATA_PAGE {
        assert!(matches!(
            p.free(PageId(i)),
            Err(MappedPageError::ReservedPage)
        ));
    }
}

#[test]
fn pager_free_out_of_bounds_error() {
    let tmp = TempPath::new();
    let mut p = Pager::<1024>::create(tmp.path()).unwrap();
    assert!(matches!(
        p.free(PageId(4)),
        Err(MappedPageError::OutOfBounds)
    ));
    assert!(matches!(
        p.free(PageId(u64::MAX)),
        Err(MappedPageError::OutOfBounds)
    ));
}

#[test]
fn pager_double_free_error() {
    let tmp = TempPath::new();
    let mut p = Pager::<1024>::create(tmp.path()).unwrap();
    let id = p.allocate().unwrap();
    p.free(id).unwrap();
    assert!(matches!(p.free(id), Err(MappedPageError::DoubleFree)));
    assert_eq!(p.free_page_count(), 1); // count not corrupted
}

#[test]
fn pager_get_page_reserved_error() {
    let tmp = TempPath::new();
    let p = Pager::<1024>::create(tmp.path()).unwrap();
    for i in 0..FIRST_DATA_PAGE {
        assert!(matches!(
            PageId(i).fetch(&p),
            Err(MappedPageError::ReservedPage)
        ));
    }
}

#[test]
fn pager_get_page_out_of_bounds_error() {
    let tmp = TempPath::new();
    let p = Pager::<1024>::create(tmp.path()).unwrap();
    assert!(matches!(
        PageId(4).fetch(&p),
        Err(MappedPageError::OutOfBounds)
    ));
    assert!(matches!(
        PageId(u64::MAX).fetch(&p),
        Err(MappedPageError::OutOfBounds)
    ));
}

#[test]
fn pager_get_page_mut_write_then_read() {
    let tmp = TempPath::new();
    let mut p = Pager::<1024>::create(tmp.path()).unwrap();
    let id = p.allocate().unwrap();
    id.open_mut(&mut p).unwrap().edit(|b| b.fill(0xAB));
    assert!(id.fetch(&p).unwrap().as_bytes().iter().all(|&b| b == 0xAB));
}

#[test]
fn pager_page_len_equals_page_size() {
    let tmp = TempPath::new();
    let mut p = Pager::<1024>::create(tmp.path()).unwrap();
    let id = p.allocate().unwrap();
    assert_eq!(id.fetch(&p).unwrap().len(), 1024);
}

#[test]
fn pager_data_persists_across_reopen() {
    let tmp = TempPath::new();
    let id = {
        let mut p = Pager::<1024>::create(tmp.path()).unwrap();
        let id = p.allocate().unwrap();
        id.open_mut(&mut p).unwrap().edit(|b| b.fill(0x5A));
        id
    };
    let p = Pager::<1024>::open(tmp.path()).unwrap();
    assert!(id.fetch(&p).unwrap().as_bytes().iter().all(|&b| b == 0x5A));
}

#[test]
fn pager_grow_preserves_existing_page_data() {
    let tmp = TempPath::new();
    let mut p = Pager::<1024>::create(tmp.path()).unwrap();
    let id = p.allocate().unwrap(); // page 3; exhausts capacity
    id.open_mut(&mut p).unwrap().edit(|b| b.fill(0xCC));
    p.allocate().unwrap(); // triggers grow and remap
    assert!(id.fetch(&p).unwrap().as_bytes().iter().all(|&b| b == 0xCC));
}

#[test]
fn pager_alloc_free_sequence_correct_after_reopen() {
    let tmp = TempPath::new();
    let kept = {
        let mut p = Pager::<1024>::create(tmp.path()).unwrap();
        let a = p.allocate().unwrap(); // page 3
        let _b = p.allocate().unwrap(); // grows; page 4
        let c = p.allocate().unwrap(); // page 5
        p.free(a).unwrap();
        let d = p.allocate().unwrap(); // reuses page 3
        assert_eq!(d, a);
        p.free(c).unwrap();
        // allocated: page 3 (d), page 4 (_b)
        // free: page 3's old slot is now d, page 5 is free
        d
    };
    let p = Pager::<1024>::open(tmp.path()).unwrap();
    assert_eq!(p.page_count(), 8);
    assert!(kept.fetch(&p).is_ok());
}

// ── Crash simulation tests ────────────────────────────────────────────────────
//
// These tests manually corrupt specific bytes in the file to simulate partial
// writes at each step of the commit protocol, then verify recovery.

#[test]
fn crash_corrupt_active_meta_falls_back_to_alternate() {
    let tmp = TempPath::new();
    {
        let mut p = Pager::<1024>::create(tmp.path()).unwrap();
        // commit: B gets new state (page 3 allocated), superblock → B
        p.allocate().unwrap();
    }
    // Active = B.  Corrupt B's embedded checksum → B fails on next open.
    zero_range(tmp.path(), meta_checksum_offset(MetaSelector::B, 1024), 4);

    let mut p = Pager::<1024>::open(tmp.path()).unwrap();
    // Recovery must use A, which has the pre-alloc state.
    assert_eq!(p.active_meta_selector(), MetaSelector::A);
    assert_eq!(p.free_page_count(), 1); // page 3 free again
    assert_eq!(p.allocate().unwrap().0, 3);
}

#[test]
fn crash_corrupt_inactive_meta_has_no_effect() {
    let tmp = TempPath::new();
    {
        let mut p = Pager::<1024>::create(tmp.path()).unwrap();
        p.allocate().unwrap(); // active → B
    }
    // Corrupt the inactive page (A) — this should be irrelevant.
    zero_range(tmp.path(), meta_checksum_offset(MetaSelector::A, 1024), 4);

    let p = Pager::<1024>::open(tmp.path()).unwrap();
    assert_eq!(p.active_meta_selector(), MetaSelector::B);
    assert_eq!(p.free_page_count(), 0); // page 3 still allocated
}

#[test]
fn crash_both_meta_corrupt_returns_error() {
    let tmp = TempPath::new();
    Pager::<1024>::create(tmp.path()).unwrap();
    zero_range(tmp.path(), meta_checksum_offset(MetaSelector::A, 1024), 4);
    zero_range(tmp.path(), meta_checksum_offset(MetaSelector::B, 1024), 4);
    assert!(matches!(
        Pager::<1024>::open(tmp.path()),
        Err(MappedPageError::CorruptMetadata)
    ));
}

#[test]
fn crash_corrupt_superblock_magic() {
    let tmp = TempPath::new();
    Pager::<1024>::create(tmp.path()).unwrap();
    zero_range(tmp.path(), 0, 8); // zero the magic bytes
    assert!(matches!(
        Pager::<1024>::open(tmp.path()),
        Err(MappedPageError::CorruptSuperblock)
    ));
}

#[test]
fn crash_corrupt_superblock_version_major() {
    let tmp = TempPath::new();
    Pager::<1024>::create(tmp.path()).unwrap();
    write_at(tmp.path(), 4, &[0xFF]); // byte 4 = version major
    assert!(matches!(
        Pager::<1024>::open(tmp.path()),
        Err(MappedPageError::CorruptSuperblock)
    ));
}

#[test]
fn crash_corrupt_superblock_selector_byte() {
    let tmp = TempPath::new();
    Pager::<1024>::create(tmp.path()).unwrap();
    write_at(tmp.path(), 12, &[0xFF]); // byte 12 = active_meta; 0xFF is invalid
    assert!(matches!(
        Pager::<1024>::open(tmp.path()),
        Err(MappedPageError::CorruptSuperblock)
    ));
}

#[test]
fn crash_superblock_meta_checksum_mismatch_falls_back() {
    let tmp = TempPath::new();
    {
        let mut p = Pager::<1024>::create(tmp.path()).unwrap();
        p.allocate().unwrap(); // active → B; page 3 allocated
    }
    // Zero the superblock's meta_checksum field (bytes 16-19).
    // Superblock still points to B but checksum no longer matches.
    zero_range(tmp.path(), 16, 4);

    // B fails the superblock-checksum cross-check; falls back to A.
    let mut p = Pager::<1024>::open(tmp.path()).unwrap();
    assert_eq!(p.active_meta_selector(), MetaSelector::A);
    assert_eq!(p.free_page_count(), 1);
    assert_eq!(p.allocate().unwrap().0, 3);
}

/// Simulate a crash between commit step 1 (write inactive meta) and step 2
/// (flip superblock).  The newer state written to B is discarded; recovery
/// uses A (the still-active page per the superblock).
#[test]
fn crash_between_meta_write_and_superblock_flip() {
    let tmp = TempPath::new();
    // Create: active = A, page 3 free.
    Pager::<1024>::create(tmp.path()).unwrap();

    // Manually write a "newer" committed-looking MetaPage to B (page 3
    // allocated, generation bumped) — as if commit step 1 completed then
    // the process died before step 2.
    {
        let mut new_meta = MetaPage::new_for_capacity(4);
        new_meta.alloc_page(); // mark page 3 allocated
        new_meta.generation = 1;
        let mut buf = vec![0u8; 1024];
        new_meta.write_to(&mut buf);
        write_at(tmp.path(), MetaSelector::B.page_id() * 1024, &buf);
    }
    // Superblock still says active = A with original checksum.

    let mut p = Pager::<1024>::open(tmp.path()).unwrap();
    // Must use A: the uncommitted B is ignored.
    assert_eq!(p.active_meta_selector(), MetaSelector::A);
    assert_eq!(p.free_page_count(), 1);
    assert_eq!(p.allocate().unwrap().0, 3);
}

#[test]
fn crash_committed_alloc_survives_reopen() {
    let tmp = TempPath::new();
    let id = {
        let mut p = Pager::<1024>::create(tmp.path()).unwrap();
        p.allocate().unwrap()
    };
    // Reopen: page must still be allocated.
    let mut p = Pager::<1024>::open(tmp.path()).unwrap();
    assert_eq!(p.free_page_count(), 0);
    // Freeing it must succeed (proves it was allocated, not silently lost).
    p.free(id).unwrap();
    assert!(matches!(p.free(id), Err(MappedPageError::DoubleFree)));
}

#[test]
fn crash_committed_data_survives_reopen() {
    const PAT: u8 = 0xA5;
    let tmp = TempPath::new();
    let id = {
        let mut p = Pager::<1024>::create(tmp.path()).unwrap();
        let id = p.allocate().unwrap();
        id.open_mut(&mut p).unwrap().edit(|b| b.fill(PAT));
        id
    };
    let p = Pager::<1024>::open(tmp.path()).unwrap();
    assert!(id.fetch(&p).unwrap().as_bytes().iter().all(|&b| b == PAT));
}

#[test]
fn crash_grow_survives_reopen() {
    let tmp = TempPath::new();
    {
        let mut p = Pager::<1024>::create(tmp.path()).unwrap();
        p.allocate().unwrap(); // exhaust
        p.allocate().unwrap(); // grow 4 → 8
    }
    let p = Pager::<1024>::open(tmp.path()).unwrap();
    assert_eq!(p.page_count(), 8);
    // first alloc took page 3; grow added pages 4-7; second alloc took page 4 → 3 free
    assert_eq!(p.free_page_count(), 3);
}

#[test]
fn crash_multiple_grows_survive_reopen() {
    let tmp = TempPath::new();
    let alloc_count;
    {
        let mut p = Pager::<1024>::create(tmp.path()).unwrap();
        // grow twice: 4 → 8 → 16
        let mut n = 0u32;
        while p.page_count() < 16 {
            p.allocate().unwrap();
            n += 1;
        }
        alloc_count = n;
        // write a marker to the last allocated page
        let last_id = PageId::<1024>(FIRST_DATA_PAGE + alloc_count as u64 - 1);
        last_id.open_mut(&mut p).unwrap().edit(|b| b[0] = 0xBB);
    }
    let p = Pager::<1024>::open(tmp.path()).unwrap();
    assert_eq!(p.page_count(), 16);
    let last_id = PageId::<1024>(FIRST_DATA_PAGE + alloc_count as u64 - 1);
    assert_eq!(last_id.fetch(&p).unwrap().as_bytes()[0], 0xBB);
}

// ── Protected-page integration tests ─────────────────────────────────────────

#[test]
fn protected_alloc_returns_id() {
    let tmp = TempPath::new();
    let mut p = Pager::<1024>::create(tmp.path()).unwrap();
    let id = p.alloc_protected().unwrap();
    assert_eq!(id.0, 0);
}

#[test]
fn protected_alloc_multiple_distinct_sequential_ids() {
    let tmp = TempPath::new();
    let mut p = Pager::<1024>::create(tmp.path()).unwrap();
    let ids: Vec<u64> = (0..4).map(|_| p.alloc_protected().unwrap().0).collect();
    assert_eq!(ids, [0, 1, 2, 3]);
}

#[test]
fn protected_page_len_equals_page_size() {
    let tmp = TempPath::new();
    let mut p = Pager::<1024>::create(tmp.path()).unwrap();
    let id = p.alloc_protected().unwrap();
    assert_eq!(id.fetch(&p).unwrap().len(), 1024);
}

#[test]
fn protected_read_initial_content_is_zero() {
    let tmp = TempPath::new();
    let mut p = Pager::<1024>::create(tmp.path()).unwrap();
    let id = p.alloc_protected().unwrap();
    assert!(id.fetch(&p).unwrap().as_bytes().iter().all(|&b| b == 0));
}

#[test]
fn protected_write_not_visible_before_commit() {
    let tmp = TempPath::new();
    let mut p = Pager::<1024>::create(tmp.path()).unwrap();
    let id = p.alloc_protected().unwrap();
    {
        let mut w = id.open_mut(&mut p).unwrap();
        w.page_mut().edit(|b| b.fill(0xFF));
        // drop without commit
    }
    // Active physical page was never touched; must still read as zeros.
    assert!(id.fetch(&p).unwrap().as_bytes().iter().all(|&b| b == 0));
}

#[test]
fn protected_write_visible_after_commit() {
    let tmp = TempPath::new();
    let mut p = Pager::<1024>::create(tmp.path()).unwrap();
    let id = p.alloc_protected().unwrap();
    let mut w = id.open_mut(&mut p).unwrap();
    w.page_mut().edit(|b| b.fill(0xAB));
    w.commit().unwrap();
    assert!(id.fetch(&p).unwrap().as_bytes().iter().all(|&b| b == 0xAB));
}

#[test]
fn protected_second_write_overwrites_first() {
    let tmp = TempPath::new();
    let mut p = Pager::<1024>::create(tmp.path()).unwrap();
    let id = p.alloc_protected().unwrap();

    let mut w = id.open_mut(&mut p).unwrap();
    w.page_mut().edit(|b| b.fill(0xAB));
    w.commit().unwrap();

    let mut w2 = id.open_mut(&mut p).unwrap();
    w2.page_mut().edit(|b| b.fill(0xCD));
    w2.commit().unwrap();

    assert!(id.fetch(&p).unwrap().as_bytes().iter().all(|&b| b == 0xCD));
}

#[test]
fn protected_alternating_writes_toggle_active_slot() {
    let tmp = TempPath::new();
    let mut p = Pager::<1024>::create(tmp.path()).unwrap();
    let id = p.alloc_protected().unwrap();

    // initial: active_slot = 0
    assert_eq!(p.protected_active_slot(id), 0);

    let mut w = id.open_mut(&mut p).unwrap();
    w.page_mut().edit(|b| b.fill(1));
    w.commit().unwrap();
    assert_eq!(p.protected_active_slot(id), 1); // flipped

    let mut w2 = id.open_mut(&mut p).unwrap();
    w2.page_mut().edit(|b| b.fill(2));
    w2.commit().unwrap();
    assert_eq!(p.protected_active_slot(id), 0); // flipped back

    let mut w3 = id.open_mut(&mut p).unwrap();
    w3.page_mut().edit(|b| b.fill(3));
    w3.commit().unwrap();
    assert_eq!(p.protected_active_slot(id), 1);
}

#[test]
fn protected_free_releases_backing_pages() {
    let tmp = TempPath::new();
    let mut p = Pager::<1024>::create(tmp.path()).unwrap();
    p.alloc_protected().unwrap(); // first alloc: creates dir block + backing pages
    let id = p.alloc_protected().unwrap(); // second alloc: reuses dir block, new backing pages
    // Measure free count AFTER the second alloc (and any grow it triggered).
    let free_before = p.free_page_count();
    p.free_protected(id).unwrap(); // releases exactly 2 backing pages
    assert_eq!(p.free_page_count(), free_before + 2);
}

#[test]
fn protected_double_free_error() {
    let tmp = TempPath::new();
    let mut p = Pager::<1024>::create(tmp.path()).unwrap();
    let id = p.alloc_protected().unwrap();
    p.free_protected(id).unwrap();
    assert!(matches!(
        p.free_protected(id),
        Err(MappedPageError::DoubleFree)
    ));
}

#[test]
fn protected_get_invalid_id_returns_out_of_bounds() {
    let tmp = TempPath::new();
    let p = Pager::<1024>::create(tmp.path()).unwrap();
    // No dir blocks exist yet; any slot index is out of bounds.
    assert!(matches!(
        ProtectedPageId(0).fetch(&p),
        Err(MappedPageError::OutOfBounds)
    ));
    assert!(matches!(
        ProtectedPageId(u64::MAX).fetch(&p),
        Err(MappedPageError::OutOfBounds)
    ));
}

#[test]
fn protected_get_freed_slot_returns_out_of_bounds() {
    let tmp = TempPath::new();
    let mut p = Pager::<1024>::create(tmp.path()).unwrap();
    let id = p.alloc_protected().unwrap();
    p.free_protected(id).unwrap();
    assert!(matches!(id.fetch(&p), Err(MappedPageError::OutOfBounds)));
}

#[test]
fn protected_slot_reuse_after_free() {
    let tmp = TempPath::new();
    let mut p = Pager::<1024>::create(tmp.path()).unwrap();
    let id0 = p.alloc_protected().unwrap();

    // Write something, commit, then free.
    let mut w = id0.open_mut(&mut p).unwrap();
    w.page_mut().edit(|b| b.fill(0xAB));
    w.commit().unwrap();
    p.free_protected(id0).unwrap();

    // Realloc must reuse slot 0.
    let id1 = p.alloc_protected().unwrap();
    assert_eq!(id1.0, 0);
    // New backing pages are freshly allocated → content is zero, not 0xAB.
    assert!(id1.fetch(&p).unwrap().as_bytes().iter().all(|&b| b == 0));
}

#[test]
fn protected_alloc_survives_reopen() {
    let tmp = TempPath::new();
    let id = {
        let mut p = Pager::<1024>::create(tmp.path()).unwrap();
        p.alloc_protected().unwrap()
    };
    let p = Pager::<1024>::open(tmp.path()).unwrap();
    // Slot must be accessible and marked in-use after reopen.
    assert!(id.fetch(&p).is_ok());
}

#[test]
fn protected_write_survives_reopen() {
    let tmp = TempPath::new();
    let id = {
        let mut p = Pager::<1024>::create(tmp.path()).unwrap();
        let id = p.alloc_protected().unwrap();
        let mut w = id.open_mut(&mut p).unwrap();
        w.page_mut().edit(|b| b.fill(0x5C));
        w.commit().unwrap();
        id
    };
    let p = Pager::<1024>::open(tmp.path()).unwrap();
    assert!(id.fetch(&p).unwrap().as_bytes().iter().all(|&b| b == 0x5C));
}

#[test]
fn protected_multiple_writes_survive_reopen() {
    const PAT1: u8 = 0xAA;
    const PAT2: u8 = 0xBB;
    let tmp = TempPath::new();
    let (id0, id1) = {
        let mut p = Pager::<1024>::create(tmp.path()).unwrap();
        let id0 = p.alloc_protected().unwrap();
        let id1 = p.alloc_protected().unwrap();

        let mut w = id0.open_mut(&mut p).unwrap();
        w.page_mut().edit(|b| b.fill(PAT1));
        w.commit().unwrap();

        let mut w = id1.open_mut(&mut p).unwrap();
        w.page_mut().edit(|b| b.fill(PAT2));
        w.commit().unwrap();
        (id0, id1)
    };
    let p = Pager::<1024>::open(tmp.path()).unwrap();
    assert!(id0.fetch(&p).unwrap().as_bytes().iter().all(|&b| b == PAT1));
    assert!(id1.fetch(&p).unwrap().as_bytes().iter().all(|&b| b == PAT2));
}

#[test]
fn protected_free_survives_reopen() {
    let tmp = TempPath::new();
    let id = {
        let mut p = Pager::<1024>::create(tmp.path()).unwrap();
        let id = p.alloc_protected().unwrap();
        p.free_protected(id).unwrap();
        id
    };
    // Slot is free after reopen; getting it must fail.
    let p = Pager::<1024>::open(tmp.path()).unwrap();
    assert!(matches!(id.fetch(&p), Err(MappedPageError::OutOfBounds)));
}

#[test]
fn protected_normal_alloc_and_protected_alloc_coexist() {
    let tmp = TempPath::new();
    let mut p = Pager::<1024>::create(tmp.path()).unwrap();

    let normal_id = p.allocate().unwrap();
    let prot_id = p.alloc_protected().unwrap();
    let normal_id2 = p.allocate().unwrap();

    normal_id.open_mut(&mut p).unwrap().edit(|b| b.fill(0x11));

    let mut w = prot_id.open_mut(&mut p).unwrap();
    w.page_mut().edit(|b| b.fill(0x22));
    w.commit().unwrap();

    normal_id2
        .open_mut(&mut p)
        .unwrap()
        .edit(|b| b.fill(0x33));

    assert!(
        normal_id
            .fetch(&p)
            .unwrap()
            .as_bytes()
            .iter()
            .all(|&b| b == 0x11)
    );
    assert!(
        prot_id
            .fetch(&p)
            .unwrap()
            .as_bytes()
            .iter()
            .all(|&b| b == 0x22)
    );
    assert!(
        normal_id2
            .fetch(&p)
            .unwrap()
            .as_bytes()
            .iter()
            .all(|&b| b == 0x33)
    );
}

// ── Protected-page crash simulation tests ─────────────────────────────────────

/// Helper: byte offset of the last 4 bytes (checksum) of a physical page.
fn phys_page_checksum_offset(phys: u64, page_size: usize) -> u64 {
    phys * page_size as u64 + page_size as u64 - 4
}

/// Helper: byte offset of the start of a physical page.
fn phys_page_offset(phys: u64, page_size: usize) -> u64 {
    phys * page_size as u64
}

#[test]
fn crash_corrupt_active_dir_page_falls_back_to_inactive() {
    let tmp = TempPath::new();

    // Commit a write so the active dir page records active_slot=1.
    let id = {
        let mut p = Pager::<1024>::create(tmp.path()).unwrap();
        let id = p.alloc_protected().unwrap();
        let mut w = id.open_mut(&mut p).unwrap();
        w.page_mut().edit(|b| b.fill(0xAB));
        w.commit().unwrap();
        // Active dir page is now A (page_a of the dir block).
        // Verify active_slot = 1 (page_b of the data is active).
        assert_eq!(p.protected_active_slot(id), 1);
        let (dir_pa, _dir_pb, _active) = p.dir_block_pages(0);
        // Active dir page is stored at dir_pa after the flip.
        zero_range(tmp.path(), phys_page_checksum_offset(dir_pa, 1024), 4);
        id
    };

    // Reopen: active dir page is corrupt → fall back to inactive (old state, slot=0).
    let p = Pager::<1024>::open(tmp.path()).unwrap();
    // Slot 0 of the fallback page has active_slot=0 (pre-write state).
    assert_eq!(p.protected_active_slot(id), 0);
    // The active physical page (page_a of data) was never written → zeros.
    assert!(id.fetch(&p).unwrap().as_bytes().iter().all(|&b| b == 0));
}

#[test]
fn crash_corrupt_both_dir_pages_returns_error() {
    let tmp = TempPath::new();
    {
        let mut p = Pager::<1024>::create(tmp.path()).unwrap();
        p.alloc_protected().unwrap();
        let (dir_pa, dir_pb, _) = p.dir_block_pages(0);
        zero_range(tmp.path(), phys_page_checksum_offset(dir_pa, 1024), 4);
        zero_range(tmp.path(), phys_page_checksum_offset(dir_pb, 1024), 4);
    }
    assert!(matches!(
        Pager::<1024>::open(tmp.path()),
        Err(MappedPageError::CorruptProtectedDirectory)
    ));
}

/// Simulate crash between writing the inactive dir page (step 1 of commit_dir_block)
/// and updating page 0 (step 3). Page 0 still points to the old active dir page, so
/// the committed write appears uncommitted after recovery.
#[test]
fn crash_between_dir_write_and_page0_update() {
    let tmp = TempPath::new();

    let id = {
        let mut p = Pager::<1024>::create(tmp.path()).unwrap();
        let id = p.alloc_protected().unwrap();
        // After alloc_protected: block.active = B (dir_pb).
        // Backing pages: data_pa is active (slot 0).
        let (dir_pa, dir_pb, active) = p.dir_block_pages(0);
        assert_eq!(active, MetaSelector::B); // active dir page is B=dir_pb
        let (_data_pa, data_pb) = p.protected_backing_pages(id);

        // Now simulate: writer fills data_pb (the inactive data page) with 0xAB
        // and the dir commit writes the new dir page to inactive dir_pa (A)...
        // but page 0 is NOT updated (crash before step 3).

        // Write 0xAB to the inactive data page.
        write_at(
            tmp.path(),
            phys_page_offset(data_pb, 1024),
            &vec![0xABu8; 1024],
        );

        // Write a valid dir page to dir_pa (currently inactive/A) reflecting
        // active_slot=1 (data_pb active) — as if commit_dir_block step 1 completed.
        let mut new_dir = DirPage::new_empty(1024);
        new_dir.entries[0] = DirEntry {
            in_use: true,
            page_a: p.protected_backing_pages(id).0,
            page_b: data_pb,
            active_slot: 1,
            generation: 1,
            checksum: crc32fast::hash(&vec![0xABu8; 1024]),
        };
        let mut dir_buf = vec![0u8; 1024];
        new_dir.write_to(&mut dir_buf);
        write_at(tmp.path(), phys_page_offset(dir_pa, 1024), &dir_buf);

        // Do NOT update page 0 → superblock still says active dir = B = dir_pb.
        let _ = (dir_pb, active); // keep compiler happy
        id
    };

    // Reopen: page 0 says active dir = B (dir_pb), which has the pre-write state.
    let p = Pager::<1024>::open(tmp.path()).unwrap();
    // active_slot = 0 → data_pa is active → zeros.
    assert_eq!(p.protected_active_slot(id), 0);
    assert!(id.fetch(&p).unwrap().as_bytes().iter().all(|&b| b == 0));
}

#[test]
fn crash_committed_write_survives_reopen() {
    let tmp = TempPath::new();
    let id = {
        let mut p = Pager::<1024>::create(tmp.path()).unwrap();
        let id = p.alloc_protected().unwrap();
        let mut w = id.open_mut(&mut p).unwrap();
        w.page_mut().edit(|b| b.fill(0xDD));
        w.commit().unwrap();
        id
    };
    let p = Pager::<1024>::open(tmp.path()).unwrap();
    assert!(id.fetch(&p).unwrap().as_bytes().iter().all(|&b| b == 0xDD));
}

#[test]
fn crash_committed_free_survives_reopen() {
    let tmp = TempPath::new();
    let id = {
        let mut p = Pager::<1024>::create(tmp.path()).unwrap();
        let id = p.alloc_protected().unwrap();
        p.free_protected(id).unwrap();
        id
    };
    let p = Pager::<1024>::open(tmp.path()).unwrap();
    assert!(matches!(id.fetch(&p), Err(MappedPageError::OutOfBounds)));
}

#[test]
fn crash_corrupt_page0_dir_section_returns_error() {
    let tmp = TempPath::new();
    {
        let mut p = Pager::<1024>::create(tmp.path()).unwrap();
        p.alloc_protected().unwrap(); // writes dir block ref to page 0
    }
    // Corrupt the dir section checksum at the end of page 0.
    zero_range(tmp.path(), 1024 - 4, 4);
    assert!(matches!(
        Pager::<1024>::open(tmp.path()),
        Err(MappedPageError::CorruptDirectoryIndex)
    ));
}

#[test]
fn crash_old_file_without_dir_section_opens_cleanly() {
    // Simulate a file created before protected pages were added:
    // page 0 bytes 20..1024 are all zeros (no dir section, no checksum).
    let tmp = TempPath::new();
    Pager::<1024>::create(tmp.path()).unwrap();
    // Zero out everything after the 20-byte superblock in page 0.
    zero_range(tmp.path(), 20, 1024 - 20);
    // Should open successfully with no directory blocks.
    let p = Pager::<1024>::open(tmp.path()).unwrap();
    assert_eq!(p.free_page_count(), 1);
}


#[test]
fn sub_alloc_basic_alloc_get_free() {
    let tmp = TempPath::new();
    let pager = Pager::<4096>::create(tmp.path()).unwrap();
    let mut sub = SubPageAllocator::<4096, 512>::new(pager);
    let id = sub.allocate().unwrap();
    assert_eq!(id.fetch(&sub).unwrap().len(), 512);
    id.open_mut(&mut sub).unwrap().edit(|b| b.fill(0xAB));
    assert!(id.fetch(&sub).unwrap().as_bytes().iter().all(|&b| b == 0xAB));
    sub.free(id).unwrap();
}

#[test]
fn sub_alloc_fills_one_big_page() {
    // N = 4096 / 512 = 8 sub-slots per big page.
    let tmp = TempPath::new();
    let pager = Pager::<4096>::create(tmp.path()).unwrap();
    let mut sub = SubPageAllocator::<4096, 512>::new(pager);
    // 8 allocs should all come from a single big page.
    let ids: Vec<_> = (0..8).map(|_| sub.allocate().unwrap()).collect();
    let first_slot = ids[0].slot_index;
    assert!(ids.iter().all(|id| id.slot_index == first_slot));
    // 9th alloc must trigger a second big-page allocation.
    let extra = sub.allocate().unwrap();
    assert_ne!(extra.slot_index, first_slot);
    sub.free(extra).unwrap();
    for id in ids {
        sub.free(id).unwrap();
    }
}

#[test]
fn sub_alloc_auto_grow_second_big_page() {
    let tmp = TempPath::new();
    let pager = Pager::<4096>::create(tmp.path()).unwrap();
    let mut sub = SubPageAllocator::<4096, 512>::new(pager);
    let first_ids: Vec<_> = (0..8).map(|_| sub.allocate().unwrap()).collect();
    let id_new = sub.allocate().unwrap();
    assert_ne!(
        id_new.slot_index, first_ids[0].slot_index,
        "9th sub-page must come from a different big-page slot"
    );
    sub.free(id_new).unwrap();
    for id in first_ids {
        sub.free(id).unwrap();
    }
}

#[test]
fn sub_alloc_full_free_returns_big_page() {
    let tmp = TempPath::new();
    let pager = Pager::<4096>::create(tmp.path()).unwrap();
    let mut sub = SubPageAllocator::<4096, 512>::new(pager);
    let free_before = sub.pager().free_page_count();
    let ids: Vec<_> = (0..8).map(|_| sub.allocate().unwrap()).collect();
    // One big page consumed.
    assert!(sub.pager().free_page_count() < free_before + 1);
    // Free all sub-slots; the big page should be returned to the inner pager.
    for id in ids {
        sub.free(id).unwrap();
    }
    assert_eq!(sub.pager().free_page_count(), free_before);
}

#[test]
fn sub_alloc_double_free_error() {
    let tmp = TempPath::new();
    let pager = Pager::<4096>::create(tmp.path()).unwrap();
    let mut sub = SubPageAllocator::<4096, 512>::new(pager);
    let id = sub.allocate().unwrap();
    sub.free(id).unwrap();
    assert!(matches!(sub.free(id), Err(MappedPageError::DoubleFree)));
}

#[test]
fn sub_alloc_out_of_bounds_sub_index() {
    let tmp = TempPath::new();
    let pager = Pager::<4096>::create(tmp.path()).unwrap();
    let mut sub = SubPageAllocator::<4096, 512>::new(pager);
    let _live = sub.allocate().unwrap(); // ensure slot 0 exists
    // sub_index 8 is out of range for N = 8.
    let bad = SubPageId::<4096, 512>::new_raw(0, 8);
    assert!(matches!(bad.fetch(&sub), Err(MappedPageError::OutOfBounds)));
    assert!(matches!(sub.free(bad), Err(MappedPageError::OutOfBounds)));
}

#[test]
fn sub_alloc_slot_reuse_after_full_free() {
    let tmp = TempPath::new();
    let pager = Pager::<4096>::create(tmp.path()).unwrap();
    let mut sub = SubPageAllocator::<4096, 512>::new(pager);
    let ids: Vec<_> = (0..8).map(|_| sub.allocate().unwrap()).collect();
    let first_slot = ids[0].slot_index;
    for id in ids {
        sub.free(id).unwrap();
    }
    // The tombstone at `first_slot` must be reused by the next alloc.
    let new_id = sub.allocate().unwrap();
    assert_eq!(
        new_id.slot_index, first_slot,
        "tombstone slot must be reused"
    );
}

#[test]
fn sub_alloc_into_pager() {
    let tmp = TempPath::new();
    let pager = Pager::<4096>::create(tmp.path()).unwrap();
    let sub = SubPageAllocator::<4096, 512>::new(pager);
    let pager2 = sub.into_pager();
    assert_eq!(pager2.page_size(), 4096);
}

#[test]
fn sub_alloc_n_equals_64() {
    // PARENT_SIZE / SUB_SIZE = 4096 / 64 = 64 — exercises the full_mask() edge case.
    let tmp = TempPath::new();
    let pager = Pager::<4096>::create(tmp.path()).unwrap();
    let mut sub = SubPageAllocator::<4096, 64>::new(pager);
    let ids: Vec<_> = (0..64).map(|_| sub.allocate().unwrap()).collect();
    assert_eq!(ids.len(), 64);
    // 65th alloc must succeed (new big page).
    let extra = sub.allocate().unwrap();
    assert_ne!(extra.slot_index, ids[0].slot_index);
    sub.free(extra).unwrap();
    for id in ids {
        sub.free(id).unwrap();
    }
}

// ── SubPageAllocator bulk tests ───────────────────────────────────────────────

#[test]
fn sub_bulk_alloc_zero_returns_empty() {
    let tmp = TempPath::new();
    let pager = Pager::<4096>::create(tmp.path()).unwrap();
    let mut sub = SubPageAllocator::<4096, 512>::new(pager);
    let ids = sub.alloc_bulk(0).unwrap();
    assert!(ids.is_empty());
}

#[test]
fn sub_bulk_alloc_returns_distinct_ids() {
    let tmp = TempPath::new();
    let pager = Pager::<4096>::create(tmp.path()).unwrap();
    let mut sub = SubPageAllocator::<4096, 512>::new(pager);
    let ids = sub.alloc_bulk(5).unwrap();
    assert_eq!(ids.len(), 5);
    let mut sorted = ids.clone();
    sorted.sort_unstable();
    sorted.dedup();
    assert_eq!(sorted.len(), 5, "all ids must be distinct");
    for id in ids {
        sub.free(id).unwrap();
    }
}

#[test]
fn sub_bulk_alloc_spans_multiple_big_pages() {
    // 4096 / 512 = 8 sub-slots per big page; alloc 10 forces a second big page.
    let tmp = TempPath::new();
    let pager = Pager::<4096>::create(tmp.path()).unwrap();
    let mut sub = SubPageAllocator::<4096, 512>::new(pager);
    let ids = sub.alloc_bulk(10).unwrap();
    assert_eq!(ids.len(), 10);
    // At least two distinct slot_index values required.
    let distinct_slots: std::collections::HashSet<_> = ids.iter().map(|id| id.slot_index).collect();
    assert!(distinct_slots.len() >= 2);
    for id in ids {
        sub.free(id).unwrap();
    }
}

#[test]
fn sub_bulk_free_zero_is_ok() {
    let tmp = TempPath::new();
    let pager = Pager::<4096>::create(tmp.path()).unwrap();
    let mut sub = SubPageAllocator::<4096, 512>::new(pager);
    assert!(sub.free_bulk(vec![]).is_ok());
}

#[test]
fn sub_bulk_free_releases_pages() {
    let tmp = TempPath::new();
    let pager = Pager::<4096>::create(tmp.path()).unwrap();
    let mut sub = SubPageAllocator::<4096, 512>::new(pager);
    let ids = sub.alloc_bulk(4).unwrap();
    sub.free_bulk(ids).unwrap();
    // After freeing all sub-slots the big page should have been returned;
    // reallocating should succeed and reuse the same slot.
    let id2 = sub.allocate().unwrap();
    assert_eq!(id2.slot_index, 0);
}

#[test]
fn sub_bulk_free_releases_big_page_when_all_sub_slots_freed() {
    // Alloc exactly one full big page worth of sub-slots (8 for 4096/512).
    let tmp = TempPath::new();
    let pager = Pager::<4096>::create(tmp.path()).unwrap();
    let mut sub = SubPageAllocator::<4096, 512>::new(pager);
    let initial_free = sub.pager().free_page_count();
    let ids = sub.alloc_bulk(8).unwrap();
    assert_eq!(sub.pager().free_page_count(), initial_free - 1); // one big page consumed
    sub.free_bulk(ids).unwrap();
    assert_eq!(sub.pager().free_page_count(), initial_free); // big page returned
}

#[test]
fn sub_bulk_free_double_free_error() {
    let tmp = TempPath::new();
    let pager = Pager::<4096>::create(tmp.path()).unwrap();
    let mut sub = SubPageAllocator::<4096, 512>::new(pager);
    let id = sub.allocate().unwrap();
    sub.free(id).unwrap();
    let result = sub.free_bulk(vec![id]);
    assert!(result.is_err());
}

#[test]
fn sub_bulk_free_duplicate_in_input_error() {
    let tmp = TempPath::new();
    let pager = Pager::<4096>::create(tmp.path()).unwrap();
    let mut sub = SubPageAllocator::<4096, 512>::new(pager);
    let id = sub.allocate().unwrap();
    let result = sub.free_bulk(vec![id, id]);
    assert!(result.is_err());
    sub.free(id).unwrap(); // original allocation still valid
}

#[test]
fn sub_bulk_free_out_of_bounds_error() {
    let tmp = TempPath::new();
    let pager = Pager::<4096>::create(tmp.path()).unwrap();
    let mut sub = SubPageAllocator::<4096, 512>::new(pager);
    let bad = SubPageId::<4096, 512>::new_raw(999, 0);
    let result = sub.free_bulk(vec![bad]);
    assert!(result.is_err());
}

#[test]
fn sub_bulk_free_atomic_no_partial_free_on_error() {
    // Alloc two valid ids, then pass them alongside an invalid one.
    // Both valid ids should still be live after the failed bulk free.
    let tmp = TempPath::new();
    let pager = Pager::<4096>::create(tmp.path()).unwrap();
    let mut sub = SubPageAllocator::<4096, 512>::new(pager);
    let id0 = sub.allocate().unwrap();
    let id1 = sub.allocate().unwrap();
    let bad = SubPageId::<4096, 512>::new_raw(999, 0);
    let result = sub.free_bulk(vec![id0, id1, bad]);
    assert!(result.is_err());
    // Both ids must still be individually freeable.
    sub.free(id0).unwrap();
    sub.free(id1).unwrap();
}

// ── alloc_bulk / free_bulk tests ──────────────────────────────────────────────

#[test]
fn bulk_alloc_zero_returns_empty() {
    let tmp = TempPath::new();
    let mut pager = Pager::<4096>::create(tmp.path()).unwrap();
    let ids = pager.alloc_bulk(0).unwrap();
    assert!(ids.is_empty());
}

#[test]
fn bulk_alloc_returns_distinct_ids() {
    let tmp = TempPath::new();
    let mut pager = Pager::<4096>::create(tmp.path()).unwrap();
    let ids = pager.alloc_bulk(3).unwrap();
    assert_eq!(ids.len(), 3);
    let mut sorted = ids.clone();
    sorted.sort_unstable();
    sorted.dedup();
    assert_eq!(sorted.len(), 3, "all ids must be distinct");
    for id in &ids {
        assert!(id.0 >= FIRST_DATA_PAGE);
    }
}

#[test]
fn bulk_alloc_all_data_pages() {
    let tmp = TempPath::new();
    let mut pager = Pager::<4096>::create(tmp.path()).unwrap();
    // Initial file: 4 pages total, 1 free data page (page 3).
    let ids = pager.alloc_bulk(1).unwrap();
    assert_eq!(ids.len(), 1);
    assert_eq!(ids[0].0, FIRST_DATA_PAGE);
}

#[test]
fn bulk_alloc_triggers_grow() {
    let tmp = TempPath::new();
    let mut pager = Pager::<4096>::create(tmp.path()).unwrap();
    // Exhaust the initial free page, then allocate 5 more (forces grow).
    let ids = pager.alloc_bulk(6).unwrap();
    assert_eq!(ids.len(), 6);
}

#[test]
fn bulk_alloc_persists_across_reopen() {
    let tmp = TempPath::new();
    let ids = {
        let mut pager = Pager::<4096>::create(tmp.path()).unwrap();
        pager.alloc_bulk(3).unwrap()
    };
    let pager = Pager::<4096>::open(tmp.path()).unwrap();
    assert_eq!(
        pager.free_page_count() + 3,
        pager.page_count() - FIRST_DATA_PAGE
    );
    // All allocated ids should be accessible.
    for id in &ids {
        assert!(id.fetch(&pager).is_ok());
    }
}

#[test]
fn bulk_free_zero_is_ok() {
    let tmp = TempPath::new();
    let mut pager = Pager::<4096>::create(tmp.path()).unwrap();
    assert!(pager.free_bulk(vec![]).is_ok());
}

#[test]
fn bulk_free_releases_pages() {
    let tmp = TempPath::new();
    let mut pager = Pager::<4096>::create(tmp.path()).unwrap();
    let ids = pager.alloc_bulk(3).unwrap();
    let free_before = pager.free_page_count();
    pager.free_bulk(ids).unwrap();
    assert_eq!(pager.free_page_count(), free_before + 3);
}

#[test]
fn bulk_free_reserved_page_error() {
    let tmp = TempPath::new();
    let mut pager = Pager::<4096>::create(tmp.path()).unwrap();
    let result = pager.free_bulk(vec![PageId(0)]);
    assert!(matches!(result, Err(MappedPageError::ReservedPage)));
}

#[test]
fn bulk_free_out_of_bounds_error() {
    let tmp = TempPath::new();
    let mut pager = Pager::<4096>::create(tmp.path()).unwrap();
    let result = pager.free_bulk(vec![PageId(9999)]);
    assert!(matches!(result, Err(MappedPageError::OutOfBounds)));
}

#[test]
fn bulk_free_double_free_error() {
    let tmp = TempPath::new();
    let mut pager = Pager::<4096>::create(tmp.path()).unwrap();
    let ids = pager.alloc_bulk(2).unwrap();
    pager.free_bulk(ids.clone()).unwrap();
    // Freeing the same pages again should fail.
    let result = pager.free_bulk(ids);
    assert!(matches!(result, Err(MappedPageError::DoubleFree)));
}

#[test]
fn bulk_free_duplicate_in_input_error() {
    let tmp = TempPath::new();
    let mut pager = Pager::<4096>::create(tmp.path()).unwrap();
    let ids = pager.alloc_bulk(1).unwrap();
    // Pass the same PageId twice.
    let result = pager.free_bulk(vec![ids[0], ids[0]]);
    assert!(matches!(result, Err(MappedPageError::DoubleFree)));
    // The page must still be allocated (no partial state change).
    assert!(ids[0].fetch(&pager).is_ok());
}

#[test]
fn bulk_free_atomic_no_partial_free_on_error() {
    let tmp = TempPath::new();
    let mut pager = Pager::<4096>::create(tmp.path()).unwrap();
    let ids = pager.alloc_bulk(2).unwrap();
    let free_before = pager.free_page_count();
    // Mix a valid id with an out-of-bounds one.
    let result = pager.free_bulk(vec![ids[0], PageId(9999)]);
    assert!(result.is_err());
    // No pages should have been freed.
    assert_eq!(pager.free_page_count(), free_before);
}

#[test]
fn bulk_free_persists_across_reopen() {
    let tmp = TempPath::new();
    let ids = {
        let mut pager = Pager::<4096>::create(tmp.path()).unwrap();
        let ids = pager.alloc_bulk(3).unwrap();
        pager.free_bulk(ids.clone()).unwrap();
        ids
    };
    let pager = Pager::<4096>::open(tmp.path()).unwrap();
    // Freed pages should be available again; trying to get them should fail as unallocated
    // (they're free so get_page would succeed if bounds are ok — verify free_count instead).
    assert_eq!(
        pager.free_page_count(),
        pager.page_count() - FIRST_DATA_PAGE,
        "all data pages should be free after reopen"
    );
    drop(ids);
}

// ── iter_allocated_pages tests ────────────────────────────────────────────────

#[test]
fn iter_empty_pager_yields_nothing() {
    let tmp = TempPath::new();
    let pager = Pager::<4096>::create(tmp.path()).unwrap();
    let allocated: Vec<_> = pager.iter_allocated_pages().collect();
    assert!(allocated.is_empty());
}

#[test]
fn iter_yields_allocated_pages() {
    let tmp = TempPath::new();
    let mut pager = Pager::<4096>::create(tmp.path()).unwrap();
    let ids = pager.alloc_bulk(3).unwrap();
    let mut iterated: Vec<_> = pager.iter_allocated_pages().collect();
    iterated.sort_unstable();
    let mut expected = ids.clone();
    expected.sort_unstable();
    assert_eq!(iterated, expected);
}

#[test]
fn iter_excludes_freed_pages() {
    let tmp = TempPath::new();
    let mut pager = Pager::<4096>::create(tmp.path()).unwrap();
    let ids = pager.alloc_bulk(3).unwrap();
    pager.free(ids[1]).unwrap();
    let iterated: Vec<_> = pager.iter_allocated_pages().collect();
    assert_eq!(iterated.len(), 2);
    assert!(!iterated.contains(&ids[1]));
}

#[test]
fn iter_excludes_reserved_pages() {
    let tmp = TempPath::new();
    let mut pager = Pager::<4096>::create(tmp.path()).unwrap();
    pager.alloc_bulk(2).unwrap();
    for id in pager.iter_allocated_pages() {
        assert!(
            id.0 >= FIRST_DATA_PAGE,
            "reserved page leaked through iterator"
        );
    }
}

#[test]
fn iter_count_matches_alloc_count() {
    let tmp = TempPath::new();
    let mut pager = Pager::<4096>::create(tmp.path()).unwrap();
    pager.alloc_bulk(5).unwrap();
    let count = pager.iter_allocated_pages().count();
    assert_eq!(count, 5);
}

#[test]
fn iter_after_free_bulk_is_empty() {
    let tmp = TempPath::new();
    let mut pager = Pager::<4096>::create(tmp.path()).unwrap();
    let ids = pager.alloc_bulk(4).unwrap();
    pager.free_bulk(ids).unwrap();
    let iterated: Vec<_> = pager.iter_allocated_pages().collect();
    assert!(iterated.is_empty());
}

#[test]
fn iter_survives_reopen() {
    let tmp = TempPath::new();
    let ids = {
        let mut pager = Pager::<4096>::create(tmp.path()).unwrap();
        pager.alloc_bulk(3).unwrap()
    };
    let pager = Pager::<4096>::open(tmp.path()).unwrap();
    let mut iterated: Vec<_> = pager.iter_allocated_pages().collect();
    iterated.sort_unstable();
    let mut expected = ids.clone();
    expected.sort_unstable();
    assert_eq!(iterated, expected);
}

// ── iter_allocated_pages / iter_allocated_protected_pages separation tests ────

#[test]
fn iter_regular_excludes_protected_backing_pages() {
    let tmp = TempPath::new();
    let mut pager = Pager::<4096>::create(tmp.path()).unwrap();
    // Allocate a protected page — this reserves physical backing pages.
    let _pid = pager.alloc_protected().unwrap();
    // Regular iterator must yield nothing (no regular pages allocated).
    let regular: Vec<_> = pager.iter_allocated_pages().collect();
    assert!(
        regular.is_empty(),
        "regular iterator yielded a protected backing page: {regular:?}"
    );
}

#[test]
fn iter_regular_excludes_dir_block_pages() {
    let tmp = TempPath::new();
    let mut pager = Pager::<4096>::create(tmp.path()).unwrap();
    let _pid = pager.alloc_protected().unwrap();
    // All allocated physical pages should be internal; none regular.
    let regular: Vec<_> = pager.iter_allocated_pages().collect();
    assert!(
        regular.is_empty(),
        "regular iterator exposed dir-block pages: {regular:?}"
    );
}

#[test]
fn iter_regular_and_protected_together_are_disjoint() {
    let tmp = TempPath::new();
    let mut pager = Pager::<4096>::create(tmp.path()).unwrap();
    let reg_id = pager.allocate().unwrap();
    let prot_id = pager.alloc_protected().unwrap();

    let regular: Vec<_> = pager.iter_allocated_pages().collect();
    let protected: Vec<_> = pager.iter_allocated_protected_pages().collect();

    assert_eq!(regular, vec![reg_id], "regular iterator mismatch");
    assert_eq!(protected, vec![prot_id], "protected iterator mismatch");

    // No physical page id should appear in both sets.
    for r in &regular {
        let prot_phys = pager.protected_backing_pages(prot_id);
        assert!(
            r.0 != prot_phys.0 && r.0 != prot_phys.1,
            "regular page {r:?} overlaps protected backing pages"
        );
    }
}

#[test]
fn iter_protected_empty_when_no_protected_pages() {
    let tmp = TempPath::new();
    let mut pager = Pager::<4096>::create(tmp.path()).unwrap();
    pager.alloc_bulk(3).unwrap();
    let protected: Vec<_> = pager.iter_allocated_protected_pages().collect();
    assert!(
        protected.is_empty(),
        "protected iterator should be empty: {protected:?}"
    );
}

#[test]
fn iter_protected_yields_in_use_slots_only() {
    let tmp = TempPath::new();
    let mut pager = Pager::<4096>::create(tmp.path()).unwrap();
    let p0 = pager.alloc_protected().unwrap();
    let p1 = pager.alloc_protected().unwrap();
    let p2 = pager.alloc_protected().unwrap();
    // Free the middle one.
    pager.free_protected(p1).unwrap();
    let mut iterated: Vec<_> = pager.iter_allocated_protected_pages().collect();
    iterated.sort_unstable();
    assert_eq!(iterated, vec![p0, p2]);
}

#[test]
fn iter_protected_count_matches_alloc_count() {
    let tmp = TempPath::new();
    let mut pager = Pager::<4096>::create(tmp.path()).unwrap();
    pager.alloc_protected().unwrap();
    pager.alloc_protected().unwrap();
    pager.alloc_protected().unwrap();
    assert_eq!(pager.iter_allocated_protected_pages().count(), 3);
}

#[test]
fn iter_protected_empty_after_free_all() {
    let tmp = TempPath::new();
    let mut pager = Pager::<4096>::create(tmp.path()).unwrap();
    let ids = pager.alloc_protected_bulk(3).unwrap();
    pager.free_protected_bulk(ids).unwrap();
    assert!(
        pager
            .iter_allocated_protected_pages()
            .collect::<Vec<_>>()
            .is_empty()
    );
}

#[test]
fn iter_protected_survives_reopen() {
    let tmp = TempPath::new();
    let ids = {
        let mut pager = Pager::<4096>::create(tmp.path()).unwrap();
        pager.alloc_protected_bulk(2).unwrap()
    };
    let pager = Pager::<4096>::open(tmp.path()).unwrap();
    let mut iterated: Vec<_> = pager.iter_allocated_protected_pages().collect();
    iterated.sort_unstable();
    let mut expected = ids.clone();
    expected.sort_unstable();
    assert_eq!(iterated, expected);
}

// ── alloc_protected_bulk / free_protected_bulk tests ─────────────────────────

#[test]
fn bulk_protected_alloc_zero_returns_empty() {
    let tmp = TempPath::new();
    let mut pager = Pager::<4096>::create(tmp.path()).unwrap();
    assert!(pager.alloc_protected_bulk(0).unwrap().is_empty());
}

#[test]
fn bulk_protected_alloc_returns_distinct_ids() {
    let tmp = TempPath::new();
    let mut pager = Pager::<4096>::create(tmp.path()).unwrap();
    let ids = pager.alloc_protected_bulk(3).unwrap();
    assert_eq!(ids.len(), 3);
    let mut sorted = ids.clone();
    sorted.dedup();
    assert_eq!(sorted.len(), 3, "all ids must be distinct");
}

#[test]
fn bulk_protected_alloc_pages_are_accessible() {
    let tmp = TempPath::new();
    let mut pager = Pager::<4096>::create(tmp.path()).unwrap();
    let ids = pager.alloc_protected_bulk(3).unwrap();
    for id in &ids {
        assert!(id.fetch(&pager).is_ok());
    }
}

#[test]
fn bulk_protected_alloc_persists_across_reopen() {
    let tmp = TempPath::new();
    let ids = {
        let mut pager = Pager::<4096>::create(tmp.path()).unwrap();
        pager.alloc_protected_bulk(2).unwrap()
    };
    let pager = Pager::<4096>::open(tmp.path()).unwrap();
    for id in &ids {
        assert!(id.fetch(&pager).is_ok());
    }
}

#[test]
fn bulk_protected_free_zero_is_ok() {
    let tmp = TempPath::new();
    let mut pager = Pager::<4096>::create(tmp.path()).unwrap();
    assert!(pager.free_protected_bulk(vec![]).is_ok());
}

#[test]
fn bulk_protected_free_releases_pages() {
    let tmp = TempPath::new();
    let mut pager = Pager::<4096>::create(tmp.path()).unwrap();
    let ids = pager.alloc_protected_bulk(3).unwrap();
    let free_before = pager.free_page_count();
    pager.free_protected_bulk(ids).unwrap();
    // Each protected page frees 2 backing pages.
    assert_eq!(pager.free_page_count(), free_before + 6);
}

#[test]
fn bulk_protected_free_double_free_error() {
    let tmp = TempPath::new();
    let mut pager = Pager::<4096>::create(tmp.path()).unwrap();
    let ids = pager.alloc_protected_bulk(2).unwrap();
    pager.free_protected_bulk(ids.clone()).unwrap();
    let result = pager.free_protected_bulk(ids);
    assert!(matches!(result, Err(MappedPageError::DoubleFree)));
}

#[test]
fn bulk_protected_free_duplicate_in_input_error() {
    let tmp = TempPath::new();
    let mut pager = Pager::<4096>::create(tmp.path()).unwrap();
    let ids = pager.alloc_protected_bulk(1).unwrap();
    let result = pager.free_protected_bulk(vec![ids[0], ids[0]]);
    assert!(matches!(result, Err(MappedPageError::DoubleFree)));
    // Page must still be allocated.
    assert!(ids[0].fetch(&pager).is_ok());
}

#[test]
fn bulk_protected_free_out_of_bounds_error() {
    let tmp = TempPath::new();
    let mut pager = Pager::<4096>::create(tmp.path()).unwrap();
    let result = pager.free_protected_bulk(vec![ProtectedPageId(9999)]);
    assert!(matches!(result, Err(MappedPageError::OutOfBounds)));
}

#[test]
fn bulk_protected_free_atomic_no_partial_free_on_error() {
    let tmp = TempPath::new();
    let mut pager = Pager::<4096>::create(tmp.path()).unwrap();
    let ids = pager.alloc_protected_bulk(2).unwrap();
    let free_before = pager.free_page_count();
    // Mix a valid id with an out-of-bounds one.
    let result = pager.free_protected_bulk(vec![ids[0], ProtectedPageId(9999)]);
    assert!(result.is_err());
    assert_eq!(
        pager.free_page_count(),
        free_before,
        "no pages should have been freed"
    );
}


// ── ReadOnlyPager tests ───────────────────────────────────────────────────────

#[test]
fn readonly_open_sees_allocated_pages() {
    let tmp = TempPath::new();
    let id = {
        let mut pager = Pager::<4096>::create(tmp.path()).unwrap();
        let id = pager.allocate().unwrap();
        pager.get_page_mut(id).unwrap().edit(|b| b[0] = 42);
        id
    };

    let ro = ReadOnlyPager::<4096>::open(tmp.path()).unwrap();
    assert_eq!(ro.page_count(), 4);
    let pages: Vec<_> = ro.iter_allocated_pages().collect();
    assert_eq!(pages, vec![id]);
    assert_eq!(ro.get_page(id).unwrap().as_bytes()[0], 42);
}

#[test]
fn readonly_wrong_page_size_is_rejected() {
    let tmp = TempPath::new();
    Pager::<4096>::create(tmp.path()).unwrap();
    assert!(matches!(
        ReadOnlyPager::<1024>::open(tmp.path()),
        Err(MappedPageError::InvalidPageSize)
    ));
}

#[test]
fn readonly_reserved_page_returns_error() {
    let tmp = TempPath::new();
    Pager::<4096>::create(tmp.path()).unwrap();
    let ro = ReadOnlyPager::<4096>::open(tmp.path()).unwrap();
    assert!(matches!(
        ro.get_page(PageId(0)),
        Err(MappedPageError::ReservedPage)
    ));
    assert!(matches!(
        ro.get_page(PageId(1)),
        Err(MappedPageError::ReservedPage)
    ));
    assert!(matches!(
        ro.get_page(PageId(2)),
        Err(MappedPageError::ReservedPage)
    ));
}

#[test]
fn readonly_out_of_bounds_returns_error() {
    let tmp = TempPath::new();
    Pager::<4096>::create(tmp.path()).unwrap();
    let ro = ReadOnlyPager::<4096>::open(tmp.path()).unwrap();
    assert!(matches!(
        ro.get_page(PageId(999)),
        Err(MappedPageError::OutOfBounds)
    ));
}

#[test]
fn readonly_sees_protected_pages() {
    let tmp = TempPath::new();
    let pid = {
        let mut pager = Pager::<4096>::create(tmp.path()).unwrap();
        let pid = pager.alloc_protected().unwrap();
        let mut w = pid.open_mut(&mut pager).unwrap();
        w.page_mut().edit(|b| b[0] = 99);
        w.commit().unwrap();
        pid
    };

    let ro = ReadOnlyPager::<4096>::open(tmp.path()).unwrap();
    let protected: Vec<_> = ro.iter_allocated_protected_pages().collect();
    assert_eq!(protected, vec![pid]);
    assert_eq!(ro.get_protected_page(pid).unwrap().as_bytes()[0], 99);
}

#[test]
fn readonly_iter_excludes_internal_pages() {
    let tmp = TempPath::new();
    {
        let mut pager = Pager::<4096>::create(tmp.path()).unwrap();
        pager.alloc_protected().unwrap();
        pager.allocate().unwrap();
    }

    let ro = ReadOnlyPager::<4096>::open(tmp.path()).unwrap();
    // iter_allocated_pages must yield only the regular data page, not the two
    // protected backing pages or the two directory block pages.
    assert_eq!(ro.iter_allocated_pages().count(), 1);
    assert_eq!(ro.iter_allocated_protected_pages().count(), 1);
}

#[test]
fn readonly_metadata_agrees_with_writer() {
    let tmp = TempPath::new();
    {
        let mut pager = Pager::<4096>::create(tmp.path()).unwrap();
        pager.allocate().unwrap();
        pager.allocate().unwrap();
    }

    let pager = Pager::<4096>::open(tmp.path()).unwrap();
    let ro = ReadOnlyPager::<4096>::open(tmp.path()).unwrap();

    assert_eq!(ro.page_count(), pager.page_count());
    assert_eq!(ro.free_page_count(), pager.free_page_count());
    assert_eq!(ro.page_size(), pager.page_size());
}

// ── Commits ───────────────────────────────────────────────────────────────────

#[test]
fn commit_writes_the_inactive_page_first() {
    let tmp = TempPath::new();
    let mut p = Pager::<1024>::create(tmp.path()).unwrap();
    p.allocate().unwrap();
    assert_eq!(
        p.log,
        ["store 2048 1024", "flush 2048 1024", "store 0 1024", "flush 0 1024"]
    );
    p.log.clear();
    p.allocate().unwrap(); // grows, and commits to the other page
    assert_eq!(
        p.log,
        [
            "set_len 8192",
            "map",
            "store 1024 1024",
            "flush 1024 1024",
            "store 0 1024",
            "flush 0 1024"
        ]
    );
}

#[test]
fn bulk_alloc_commits_once() {
    let tmp = TempPath::new();
    let mut p = Pager::<1024>::create(tmp.path()).unwrap();
    let ids = p.alloc_bulk(8).unwrap();
    let numbers: Vec<u64> = ids.iter().map(|id| id.0).collect();
    assert_eq!(numbers, [3, 4, 5, 6, 7, 8, 9, 10]);
    assert_eq!(p.page_count(), 16);
    assert_eq!(p.log.iter().filter(|l| l.starts_with("store")).count(), 2);
    assert_eq!(p.log.iter().filter(|l| l.starts_with("set_len")).count(), 2);
    p.log.clear();
    p.free_bulk(ids).unwrap();
    assert_eq!(p.log.len(), 4);
    assert_eq!(p.free_page_count(), 13);
}

#[test]
fn failed_commit_keeps_the_active_page() {
    for budget in 0..2 {
        let tmp = TempPath::new();
        let mut p = Pager::<1024>::create(tmp.path()).unwrap();
        p.budget = Some(budget);
        assert!(matches!(p.allocate(), Err(MappedPageError::Io(_))));
        assert_eq!(p.active_meta_selector(), MetaSelector::A);
        assert_eq!(p.free_page_count(), 0);
        // With a working disk the next commit succeeds.
        p.budget = None;
        p.free(PageId(3)).unwrap();
        let p = Pager::<1024>::open(tmp.path()).unwrap();
        assert_eq!(p.free_page_count(), 1);
    }
}

#[test]
fn directory_selector_flips_once_the_copy_is_flushed() {
    for (budget, flipped) in [(0, false), (1, true)] {
        let tmp = TempPath::new();
        let mut p = Pager::<1024>::create(tmp.path()).unwrap();
        let id = p.alloc_protected().unwrap();
        let (_, _, before) = p.dir_block_pages(0);
        p.budget = Some(budget);
        assert!(matches!(p.free_protected(id), Err(MappedPageError::Io(_))));
        let (_, _, after) = p.dir_block_pages(0);
        assert_eq!(after != before, flipped);
        // The entry is free in memory, and its copies are still allocated.
        assert!(matches!(id.fetch(&p), Err(MappedPageError::OutOfBounds)));
        assert_eq!(p.free_page_count(), 1);
    }
}

/// Every way in which a metadata commit can stop leaves the old or the new state.
#[test]
fn torn_metadata_commit_is_old_or_new() {
    let (mut core, file) = mappedpages::Pager::<1024>::create();
    let steps = match core.allocate() {
        Turn::Ask(Request::Apply(steps), _) => steps,
        _ => panic!("a page is free"),
    };
    let (page, page0) = match (&steps[0], &steps[2]) {
        (Step::Store { data: page, .. }, Step::Store { data: page0, .. }) => (page, page0),
        _ => panic!("stores come first"),
    };
    // The metadata page is torn at any byte; page 0 is not written yet.
    for cut in 0..=1024 {
        let mut f = file.clone();
        f[2048..2048 + cut].copy_from_slice(&page[..cut]);
        let p = mappedpages::Pager::<1024>::open(&f).unwrap();
        assert_eq!(p.free_page_count(), 1);
    }
    // The metadata page is flushed; page 0 is torn, each differing byte old or new.
    let differing: Vec<usize> = (0..1024).filter(|&i| file[i] != page0[i]).collect();
    assert!(!differing.is_empty() && differing.len() <= 5);
    for mask in 0..1u32 << differing.len() {
        let mut f = file.clone();
        f[2048..3072].copy_from_slice(page);
        for (k, &i) in differing.iter().enumerate() {
            if mask >> k & 1 == 1 {
                f[i] = page0[i];
            }
        }
        let p = mappedpages::Pager::<1024>::open(&f).unwrap();
        assert!(p.free_page_count() <= 1);
        if mask == 0 {
            assert_eq!(p.free_page_count(), 1);
        }
        if mask + 1 == 1 << differing.len() {
            assert_eq!(p.free_page_count(), 0);
        }
    }
}

/// A protected write that stops between any two steps shows the old or the new
/// content.
#[test]
fn interrupted_protected_write_is_old_or_new() {
    for budget in 0..4 {
        let tmp = TempPath::new();
        let id = {
            let mut p = Pager::<1024>::create(tmp.path()).unwrap();
            let id = p.alloc_protected().unwrap();
            let mut w = id.open_mut(&mut p).unwrap();
            w.edit(|b| b.fill(1));
            w.commit().unwrap();
            let mut w = id.open_mut(&mut p).unwrap();
            w.edit(|b| b.fill(2));
            w.pager.budget = Some(budget);
            assert_eq!(w.commit().is_ok(), budget == 3);
            id
        };
        let p = Pager::<1024>::open(tmp.path()).unwrap();
        let page = id.fetch(&p).unwrap();
        let expected = if budget < 2 { 1 } else { 2 };
        assert!(page.as_bytes().iter().all(|&b| b == expected));
    }
}

// ── Growth that fails ─────────────────────────────────────────────────────────

#[test]
fn failed_resize_and_remap_make_the_pager_unavailable() {
    let tmp = TempPath::new();
    let mut p = Pager::<1024>::create(tmp.path()).unwrap();
    p.allocate().unwrap();
    p.log.clear();
    p.budget = Some(0);
    // The resize fails, and so does the remap that follows it.
    assert!(matches!(p.allocate(), Err(MappedPageError::Io(_))));
    assert_eq!(p.log, ["set_len 8192", "map"]);
    assert!(!p.core.available);
    assert!(matches!(p.allocate(), Err(MappedPageError::Unavailable)));
}

#[test]
fn pager_is_usable_after_a_failed_resize() {
    let (mut core, _) = mappedpages::Pager::<1024>::create();
    match core.allocate() {
        Turn::Ask(Request::Apply(_), task) => {
            assert!(matches!(core.resume_alloc(task, IoEvent::Done), Turn::Done(Ok(PageId(3)))));
        }
        _ => panic!("a page is free"),
    }
    let task = match core.allocate() {
        Turn::Ask(Request::SetLen(8192), task) => task,
        _ => panic!("the file has to grow"),
    };
    assert!(!core.available);
    let failed = IoEvent::Failed { completed: 0, error: io_error("no space") };
    let task = match core.resume_alloc(task, failed) {
        Turn::Ask(Request::Remap, task) => task,
        _ => panic!("the old map is restored"),
    };
    match core.resume_alloc(task, IoEvent::Done) {
        Turn::Done(Err(MappedPageError::Io(e))) => assert_eq!(e.to_string(), "no space"),
        _ => panic!("the first error is reported"),
    }
    assert!(core.available);
    assert_eq!(core.page_count(), 4);
    assert_eq!(core.free_page_count(), 0);
}

#[test]
fn failed_remap_makes_the_pager_unavailable() {
    let tmp = TempPath::new();
    let mut p = Pager::<1024>::create(tmp.path()).unwrap();
    let id = p.allocate().unwrap();
    p.log.clear();
    p.budget = Some(1);
    match p.allocate() {
        Err(MappedPageError::Io(e)) => assert_eq!(e.to_string(), "map"),
        _ => panic!("the map failed"),
    }
    // The file is made shorter again.
    assert_eq!(p.log, ["set_len 8192", "map", "set_len 4096"]);
    p.budget = None;
    let pid = ProtectedPageId(0);
    assert!(matches!(p.allocate(), Err(MappedPageError::Unavailable)));
    assert!(matches!(p.free(id), Err(MappedPageError::Unavailable)));
    assert!(matches!(p.alloc_bulk(2), Err(MappedPageError::Unavailable)));
    assert!(matches!(p.free_bulk(vec![id]), Err(MappedPageError::Unavailable)));
    assert!(matches!(p.alloc_protected(), Err(MappedPageError::Unavailable)));
    assert!(matches!(p.free_protected(pid), Err(MappedPageError::Unavailable)));
    assert!(matches!(p.alloc_protected_bulk(1), Err(MappedPageError::Unavailable)));
    assert!(matches!(p.free_protected_bulk(vec![pid]), Err(MappedPageError::Unavailable)));
    assert!(matches!(id.fetch(&p), Err(MappedPageError::Unavailable)));
    assert!(matches!(id.open_mut(&mut p), Err(MappedPageError::Unavailable)));
    assert!(matches!(pid.fetch(&p), Err(MappedPageError::Unavailable)));
    assert!(matches!(pid.open_mut(&mut p), Err(MappedPageError::Unavailable)));
    // Reopening the file works.
    let p = Pager::<1024>::open(tmp.path()).unwrap();
    assert_eq!(p.page_count(), 4);
    assert_eq!(p.free_page_count(), 0);
}

#[test]
fn unavailable_pager_still_counts_in_memory() {
    let (mut core, _) = mappedpages::Pager::<1024>::create();
    core.available = false;
    // A free page is marked, and cannot be committed.
    assert!(core.ready_to_allocate());
    assert!(matches!(core.allocate(), Turn::Done(Err(MappedPageError::Unavailable))));
    assert_eq!(core.free_page_count(), 0);
    assert_eq!(core.state.meta.generation, 1);
    // No page is free: nothing changes.
    assert!(matches!(core.allocate(), Turn::Done(Err(MappedPageError::Unavailable))));
    assert_eq!((core.page_count(), core.free_page_count()), (4, 0));
    assert_eq!(core.state.meta.generation, 1);
    // The page is marked as free, and cannot be committed.
    assert!(core.ready_to_free(PageId(3)));
    assert!(matches!(core.free(PageId(3)), Turn::Done(Err(MappedPageError::Unavailable))));
    assert_eq!(core.free_page_count(), 1);
    assert_eq!(core.state.meta.generation, 2);
    // What could not be freed anyway changes nothing.
    for id in [2, 3, 4] {
        assert!(matches!(core.free(PageId(id)), Turn::Done(Err(MappedPageError::Unavailable))));
    }
    assert_eq!(core.free_page_count(), 1);
    assert_eq!(core.state.meta.generation, 2);
    // Of four pages for a protected page one is there.
    assert!(core.ready_to_alloc_protected());
    let turn = core.alloc_protected();
    assert!(matches!(turn, Turn::Done(Err(MappedPageError::Unavailable))));
    assert_eq!(core.free_page_count(), 0);
    assert_eq!(core.state.meta.generation, 2);
    assert_eq!(core.active_meta_selector(), MetaSelector::A);
}

#[test]
fn unavailable_pager_still_frees_entries_in_memory() {
    let tmp = TempPath::new();
    let mut p = Pager::<1024>::create(tmp.path()).unwrap();
    let id = p.alloc_protected().unwrap();
    let spare = p.free_page_count();
    p.core.available = false;
    assert!(matches!(p.free_protected(id), Err(MappedPageError::Unavailable)));
    assert_eq!(p.iter_allocated_protected_pages().count(), 0);
    assert_eq!(p.free_page_count(), spare);
    assert!(matches!(p.free_protected(id), Err(MappedPageError::Unavailable)));
    // The file is as it was.
    let p = Pager::<1024>::open(tmp.path()).unwrap();
    assert_eq!(p.iter_allocated_protected_pages().count(), 1);
}

#[test]
fn protected_page_is_read_if_its_active_copy_is_mapped() {
    let tmp = TempPath::new();
    let mut p = Pager::<1024>::create(tmp.path()).unwrap();
    let id = p.alloc_protected().unwrap();
    let (a, b) = p.protected_backing_pages(id);
    assert_eq!((a, b, p.protected_active_slot(id)), (5, 6, 0));
    let mut bytes = tmp.bytes();
    bytes.truncate(6 * 1024);
    let core = mappedpages::Pager::<1024>::open(&bytes).unwrap();
    assert!(core.active_copy_in_map(id, bytes.len()));
    assert_eq!(id.get(&core, &bytes).unwrap().len(), 1024);
    assert!(core.ready_to_write(id));
    assert!(!core.active_copy_in_map(id, 5 * 1024));
}

#[test]
fn bulk_alloc_gives_pages_back_if_the_file_cannot_grow() {
    let tmp = TempPath::new();
    let mut p = Pager::<1024>::create(tmp.path()).unwrap();
    p.budget = Some(2); // one growth succeeds, the next does not
    assert!(matches!(p.alloc_bulk(8), Err(MappedPageError::Io(_))));
    assert_eq!(p.page_count(), 8);
    assert_eq!(p.free_page_count(), 5);
    assert_eq!(p.iter_allocated_pages().count(), 0);
}

#[test]
fn file_that_cannot_grow_is_recognised() {
    let tmp = TempPath::new();
    let mut p = Pager::<1024>::create(tmp.path()).unwrap();
    // A page of 1024 bytes has room for the bits of 7968 pages.
    p.alloc_bulk(4093).unwrap();
    assert_eq!(p.page_count(), 4096);
    assert!(!p.core.ready_to_allocate());
    assert!(!p.core.can_reserve(1));
    p.free(PageId(17)).unwrap();
    assert!(p.core.ready_to_allocate());
    assert!(!p.core.can_reserve(2));
    assert_eq!(p.allocate().unwrap().0, 17);
}

// ── Protected pages ───────────────────────────────────────────────────────────

#[test]
fn directory_has_room_for_58_blocks() {
    let tmp = TempPath::new();
    let mut p = Pager::<1024>::create(tmp.path()).unwrap();
    for i in 0..58 * 33 {
        assert_eq!(p.alloc_protected().unwrap().0, i);
    }
    assert!(matches!(p.alloc_protected(), Err(MappedPageError::DirectoryFull)));
    let p = Pager::<1024>::open(tmp.path()).unwrap();
    assert_eq!(p.iter_allocated_protected_pages().count(), 58 * 33);
    assert_eq!(p.iter_allocated_pages().count(), 0);
}

#[test]
fn failed_protected_batch_is_undone() {
    let tmp = TempPath::new();
    let mut p = Pager::<1024>::create(tmp.path()).unwrap();
    let kept = p.alloc_protected_bulk(58 * 33 - 2).unwrap();
    let free_before = p.free_page_count();
    // Two of the three find an entry, and are freed again.
    assert!(matches!(p.alloc_protected_bulk(3), Err(MappedPageError::DirectoryFull)));
    let left: Vec<_> = p.iter_allocated_protected_pages().collect();
    assert_eq!(left, kept);
    assert_eq!(p.free_page_count(), free_before);
    assert_eq!(p.alloc_protected_bulk(2).unwrap().len(), 2);
}

#[test]
fn protected_batch_that_fails_frees_in_order() {
    let mut step: BulkStep<u64> = BulkAlloc::start(3);
    for id in [10, 20] {
        step = match step {
            BulkStep::Allocate(batch) => batch.allocated(Ok(id)),
            _ => panic!("the batch is not full"),
        };
    }
    step = match step {
        BulkStep::Allocate(batch) => batch.allocated(Err(MappedPageError::DirectoryFull)),
        _ => panic!("the batch is not full"),
    };
    let mut freed = Vec::new();
    loop {
        step = match step {
            BulkStep::Free(id, undo) => {
                freed.push(id);
                undo.freed()
            }
            BulkStep::Done(result) => {
                assert!(matches!(result, Err(MappedPageError::DirectoryFull)));
                break;
            }
            BulkStep::Allocate(_) => panic!("the batch has failed"),
        };
    }
    assert_eq!(freed, [10, 20]);
}

#[test]
fn writes_alternate_between_two_copies() {
    let tmp = TempPath::new();
    let mut p = Pager::<1024>::create(tmp.path()).unwrap();
    let id = p.alloc_protected().unwrap();
    let other = p.alloc_protected().unwrap();
    let (a, b) = p.protected_backing_pages(id);
    assert_ne!(a, b);
    for round in 1..5u8 {
        let before = tmp.bytes();
        let active = if p.protected_active_slot(id) == 0 { a } else { b } as usize;
        let mut w = id.open_mut(&mut p).unwrap();
        w.edit(|bytes| bytes.fill(round));
        // The active copy is untouched until the commit.
        let now = tmp.bytes();
        assert_eq!(
            before[active * 1024..(active + 1) * 1024],
            now[active * 1024..(active + 1) * 1024]
        );
        let w = id.open_mut(&mut p).unwrap();
        w.commit().unwrap();
        assert_eq!(p.protected_active_slot(id), round % 2);
        assert!(id.fetch(&p).unwrap().as_bytes().iter().all(|&x| x == round));
        assert!(other.fetch(&p).unwrap().as_bytes().iter().all(|&x| x == 0));
    }
}

#[test]
fn freed_page_is_handed_out_before_higher_ones() {
    let tmp = TempPath::new();
    let mut p = Pager::<1024>::create(tmp.path()).unwrap();
    let ids = p.alloc_bulk(5).unwrap();
    p.free(ids[3]).unwrap();
    p.free(ids[1]).unwrap();
    assert_eq!(p.allocate().unwrap(), ids[1]);
    assert_eq!(p.allocate().unwrap(), ids[3]);
    assert_eq!(p.allocate().unwrap().0, ids[4].0 + 1);
}

// ── Sub-pages ─────────────────────────────────────────────────────────────────

#[test]
fn sub_bulk_free_reports_the_first_bad_handle_in_slot_order() {
    let tmp = TempPath::new();
    let pager = Pager::<4096>::create(tmp.path()).unwrap();
    let mut sub = SubPageAllocator::<4096, 512>::new(pager);
    let id = sub.allocate().unwrap();
    let unused = SubPageId::new_raw(0, 3);
    let beyond = SubPageId::new_raw(0, 8);
    let no_slot = SubPageId::new_raw(7, 0);
    assert!(matches!(
        sub.free_bulk(vec![no_slot, beyond, unused, id]),
        Err(MappedPageError::DoubleFree)
    ));
    assert!(matches!(
        sub.free_bulk(vec![no_slot, beyond, id]),
        Err(MappedPageError::OutOfBounds)
    ));
    assert!(matches!(
        sub.free_bulk(vec![no_slot, no_slot]),
        Err(MappedPageError::DoubleFree)
    ));
    sub.free_bulk(vec![id]).unwrap();
    assert!(matches!(id.fetch(&sub), Err(MappedPageError::OutOfBounds)));
    assert!(matches!(sub.free(id), Err(MappedPageError::DoubleFree)));
    assert!(matches!(sub.free(no_slot), Err(MappedPageError::OutOfBounds)));
}

#[test]
fn sub_bulk_free_gives_back_every_empty_page() {
    let tmp = TempPath::new();
    let pager = Pager::<4096>::create(tmp.path()).unwrap();
    let mut sub = SubPageAllocator::<4096, 512>::new(pager);
    let mut ids = sub.alloc_bulk(20).unwrap();
    let kept = ids.remove(9); // in the second big page
    let free_before = sub.pager().free_page_count();
    ids.reverse();
    sub.free_bulk(ids).unwrap();
    assert_eq!(sub.pager().free_page_count(), free_before + 2);
    assert_eq!((kept.slot_index, kept.sub_index), (1, 1));
    // The tombstone of the first slot is reused once the second is full.
    for sub_index in [0, 2, 3, 4, 5, 6, 7] {
        assert_eq!(sub.allocate().unwrap(), SubPageId::new_raw(1, sub_index));
    }
    assert_eq!(sub.allocate().unwrap(), SubPageId::new_raw(0, 0));
}

#[test]
fn sub_pages_do_not_overlap() {
    let tmp = TempPath::new();
    let pager = Pager::<4096>::create(tmp.path()).unwrap();
    let mut sub = SubPageAllocator::<4096, 512>::new(pager);
    let ids = sub.alloc_bulk(8).unwrap();
    for (i, id) in ids.iter().enumerate() {
        id.open_mut(&mut sub).unwrap().edit(|b| b.fill(i as u8 + 1));
    }
    for (i, id) in ids.iter().enumerate() {
        assert!(id.fetch(&sub).unwrap().as_bytes().iter().all(|&b| b == i as u8 + 1));
    }
}

#[test]
fn sub_page_allocation_fails_with_the_pager() {
    let tmp = TempPath::new();
    let pager = Pager::<4096>::create(tmp.path()).unwrap();
    let mut sub = SubPageAllocator::<4096, 512>::new(pager);
    let ids = sub.alloc_bulk(8).unwrap();
    let free_before = sub.pager().free_page_count();
    sub.disk.budget = Some(0);
    assert!(matches!(sub.alloc_bulk(9), Err(MappedPageError::Io(_))));
    sub.disk.budget = None;
    assert_eq!(sub.pager().free_page_count(), free_before);
    assert!(matches!(sub.allocate(), Err(MappedPageError::Unavailable)));
    // Sub-slots of a big page that is checked out need no I/O.
    sub.free(ids[0]).unwrap();
    assert_eq!(sub.allocate().unwrap(), ids[0]);
}

// ── Traits ────────────────────────────────────────────────────────────────────

fn allocate_and_free<A, H>(allocator: &mut A, map: &mut Vec<u8>)
where
    H: mappedpages::PageHandle<A> + Copy,
    A: mappedpages::PageAllocator<H>,
{
    let mut perform = |request: Request| {
        if let Request::Apply(steps) = request {
            for step in steps {
                if let Step::Store { offset, data } = step {
                    map[offset..offset + data.len()].copy_from_slice(&data);
                }
            }
        } else if let Request::SetLen(len) = request {
            map.resize(len as usize, 0);
        }
        map.clone()
    };
    let mut now = perform(Request::Remap);
    let mut turn = allocator.allocate();
    let id = loop {
        match turn {
            Turn::Done(result) => break result.ok().unwrap(),
            Turn::Ask(request, task) => {
                now = perform(request);
                turn = allocator.resume_allocate(task, IoEvent::Done, &now);
            }
        }
    };
    assert!(id.get(allocator, &now).is_ok());
    let mut turn = allocator.free(id, &now);
    loop {
        match turn {
            Turn::Done(result) => break assert!(result.is_ok()),
            Turn::Ask(request, task) => {
                perform(request);
                turn = allocator.resume_free(task, IoEvent::Done);
            }
        }
    }
}

#[test]
fn every_handle_works_through_the_traits() {
    let (mut pager, mut map) = mappedpages::Pager::<1024>::create();
    allocate_and_free::<_, PageId<1024>>(&mut pager, &mut map);
    assert_eq!(pager.free_page_count(), 1);
    allocate_and_free::<_, ProtectedPageId<1024>>(&mut pager, &mut map);
    assert_eq!(pager.page_count(), 8);
    assert_eq!(pager.free_page_count(), 3); // the directory block keeps two pages
    let mut sub = mappedpages::SubPageAllocator::<1024, 256>::new(pager);
    allocate_and_free::<_, SubPageId<1024, 256>>(&mut sub, &mut map);
    assert_eq!(sub.pager().free_page_count(), 3);
    let reopened = mappedpages::Pager::<1024>::open(&map).unwrap();
    assert_eq!(reopened.free_page_count(), 3);
}

#[test]
fn batches_work_through_the_traits() {
    let (mut pager, _) = mappedpages::Pager::<1024>::create();
    let batch = BulkPageAllocator::<ProtectedPageId<1024>>::alloc_bulk(&mut pager, 0);
    assert!(matches!(batch, BulkStep::Done(Ok(ids)) if ids.is_empty()));
    let ids = vec![ProtectedPageId::<1024>(0)];
    let batch = BulkPageAllocator::<ProtectedPageId<1024>>::free_bulk(&mut pager, ids);
    assert!(matches!(batch, BulkFreeStep::Done(Err(MappedPageError::OutOfBounds))));
    let batch = BulkPageAllocator::<PageId<1024>>::alloc_bulk(&mut pager, 1);
    assert!(matches!(batch, Turn::Ask(Request::Apply(_), _)));
    let ids = vec![PageId::<1024>(2)];
    let batch = BulkPageAllocator::<PageId<1024>>::free_bulk(&mut pager, ids);
    assert!(matches!(batch, Turn::Done(Err(MappedPageError::ReservedPage))));
}

// ── Files that cannot be opened ───────────────────────────────────────────────

#[test]
fn short_files_are_refused() {
    let (_, file) = mappedpages::Pager::<1024>::create();
    for len in [0, 19, 20, 1024, 4095] {
        assert!(matches!(
            mappedpages::Pager::<1024>::open(&file[..len]),
            Err(MappedPageError::CorruptSuperblock)
        ));
    }
    assert!(mappedpages::Pager::<1024>::open(&file[..4096]).is_ok());
    // The page size is looked at before the length.
    assert!(matches!(
        mappedpages::Pager::<4096>::open(&file[..20]),
        Err(MappedPageError::InvalidPageSize)
    ));
}

#[test]
fn directory_block_beyond_the_file_is_refused() {
    let tmp = TempPath::new();
    {
        let mut p = Pager::<1024>::create(tmp.path()).unwrap();
        p.alloc_protected().unwrap();
    }
    let mut bytes = tmp.bytes();
    bytes.truncate(4096);
    assert!(matches!(
        mappedpages::Pager::<1024>::open(&bytes),
        Err(MappedPageError::CorruptProtectedDirectory)
    ));
}

// ── Protected pages and crashes ───────────────────────────────────────────────

/// The steps with which the commit of a write to `id` ends.
fn directory_steps(p: &mut Pager<1024>, id: ProtectedPageId<1024>) -> Vec<Step> {
    let map = &mut p.file.0.borrow_mut();
    let task = match id.get_mut(&mut p.core, map).unwrap().commit() {
        Turn::Ask(Request::Apply(steps), task) => {
            assert!(matches!(steps[..], [Step::Flush { len: 1024, .. }]));
            task
        }
        _ => panic!("the copy is flushed first"),
    };
    match p.core.resume_write(task, IoEvent::Done, map) {
        Turn::Ask(Request::Apply(steps), _) => steps,
        _ => panic!("the directory is committed next"),
    }
}

#[test]
fn torn_directory_section_is_old_new_or_refused() {
    let tmp = TempPath::new();
    let mut p = Pager::<1024>::create(tmp.path()).unwrap();
    let id = p.alloc_protected().unwrap();
    let before = p.protected_active_slot(id);
    let steps = directory_steps(&mut p, id);
    let mut file = tmp.bytes();
    let page0 = match (&steps[0], &steps[2]) {
        (Step::Store { offset, data }, Step::Store { offset: 0, data: page0 }) => {
            file[*offset..*offset + 1024].copy_from_slice(data);
            page0
        }
        _ => panic!("the directory page comes before page 0"),
    };
    let differing: Vec<usize> = (0..1024).filter(|&i| file[i] != page0[i]).collect();
    assert_eq!(differing[0], 24 + 16); // the selector; the rest is the checksum
    assert!(differing[1..].iter().all(|&i| i >= 1020));
    for mask in 0..1u32 << differing.len() {
        let mut f = file.clone();
        for (k, &i) in differing.iter().enumerate() {
            if mask >> k & 1 == 1 {
                f[i] = page0[i];
            }
        }
        match mappedpages::Pager::<1024>::open(&f) {
            Ok(p) => {
                let whole = mask + 1 == 1 << differing.len();
                assert!(mask == 0 || whole);
                assert_eq!(p.protected_active_slot(id) != before, whole);
            }
            Err(e) => assert!(matches!(e, MappedPageError::CorruptDirectoryIndex)),
        }
    }
}

#[test]
fn damaged_directory_copy_falls_back_to_the_other() {
    let tmp = TempPath::new();
    let mut p = Pager::<1024>::create(tmp.path()).unwrap();
    let first = p.alloc_protected().unwrap();
    p.alloc_protected().unwrap();
    let (a, b, active) = p.dir_block_pages(0);
    let (active_page, other_page) = match active {
        MetaSelector::A => (a, b),
        MetaSelector::B => (b, a),
    };
    // The other copy was written before the second page was entered.
    zero_range(&tmp, active_page * 1024, 1024);
    {
        let p = Pager::<1024>::open(tmp.path()).unwrap();
        assert_eq!(p.dir_block_pages(0), (a, b, active.other()));
        let ids: Vec<_> = p.iter_allocated_protected_pages().collect();
        assert_eq!(ids, [first]);
    }
    zero_range(&tmp, other_page * 1024, 1024);
    assert!(matches!(
        Pager::<1024>::open(tmp.path()),
        Err(MappedPageError::CorruptProtectedDirectory)
    ));
}

#[test]
fn commits_leave_data_pages_alone() {
    let tmp = TempPath::new();
    let mut p = Pager::<1024>::create(tmp.path()).unwrap();
    let page = p.allocate().unwrap();
    page.open_mut(&mut p).unwrap().edit(|b| b.fill(7));
    let id = p.alloc_protected().unwrap();
    let mut w = id.open_mut(&mut p).unwrap();
    w.edit(|b| b.fill(8));
    w.commit().unwrap();
    let spare = p.alloc_bulk(20).unwrap();
    p.free_bulk(spare).unwrap();
    let p = Pager::<1024>::open(tmp.path()).unwrap();
    assert!(page.fetch(&p).unwrap().as_bytes().iter().all(|&b| b == 7));
    assert!(id.fetch(&p).unwrap().as_bytes().iter().all(|&b| b == 8));
}

#[test]
fn freed_handle_names_nothing() {
    let tmp = TempPath::new();
    let mut p = Pager::<1024>::create(tmp.path()).unwrap();
    let ids = p.alloc_protected_bulk(3).unwrap();
    let (a, b) = p.protected_backing_pages(ids[1]);
    p.free_protected(ids[1]).unwrap();
    assert!(matches!(ids[1].fetch(&p), Err(MappedPageError::OutOfBounds)));
    assert!(matches!(p.free_protected(ids[1]), Err(MappedPageError::DoubleFree)));
    assert!(matches!(
        p.free_protected(ProtectedPageId(33)),
        Err(MappedPageError::OutOfBounds)
    ));
    let left: Vec<_> = p.iter_allocated_protected_pages().collect();
    assert_eq!(left, [ids[0], ids[2]]);
    // Its copies are the next pages to be handed out, and its handle the next.
    assert_eq!(p.allocate().unwrap().0, a.min(b));
    assert_eq!(p.alloc_protected().unwrap(), ids[1]);
}

// ── Live handles ──────────────────────────────────────────────────────────────

/// The handles among the first slots that `free` would accept.
fn live_handles(sub: &SubPageAllocator<4096, 512>) -> Vec<SubPageId<4096, 512>> {
    let mut found = Vec::new();
    for (slot_index, slot) in sub.core.slots.iter().enumerate() {
        for sub_index in 0..8 {
            if slot.map_or(false, |s| s.used >> sub_index & 1 == 1) {
                found.push(SubPageId::new_raw(slot_index as u32, sub_index));
            }
        }
    }
    found
}

#[test]
fn failed_sub_batch_leaves_the_live_handles() {
    let tmp = TempPath::new();
    let pager = Pager::<4096>::create(tmp.path()).unwrap();
    let mut sub = SubPageAllocator::<4096, 512>::new(pager);
    let ids = sub.alloc_bulk(5).unwrap();
    sub.free(ids[2]).unwrap();
    let before = live_handles(&sub);
    assert_eq!(before, [ids[0], ids[1], ids[3], ids[4]]);
    // Four sub-pages are free in the big page; the fifth needs another one.
    sub.disk.budget = Some(0);
    assert!(matches!(sub.alloc_bulk(5), Err(MappedPageError::Io(_))));
    assert_eq!(live_handles(&sub), before);
    assert!(matches!(sub.free(ids[2]), Err(MappedPageError::DoubleFree)));
    // Without a failure, the handles that are handed out are new.
    let more = sub.alloc_bulk(4).unwrap();
    assert_eq!(more[0], ids[2]);
    assert!(more.iter().all(|id| !before.contains(id)));
    let mut all = before;
    all.extend(more);
    all.sort();
    assert_eq!(live_handles(&sub), all);
}

#[test]
fn sub_bulk_free_ends_exactly_the_named_handles() {
    let tmp = TempPath::new();
    let pager = Pager::<4096>::create(tmp.path()).unwrap();
    let mut sub = SubPageAllocator::<4096, 512>::new(pager);
    let ids = sub.alloc_bulk(20).unwrap();
    let free_before = sub.pager().free_page_count();
    // All of the first big page, and one sub-page of the second.
    let named: Vec<_> = ids[..9].to_vec();
    sub.free_bulk(named).unwrap();
    assert_eq!(live_handles(&sub), ids[9..]);
    assert_eq!(sub.pager().free_page_count(), free_before + 1);
}

#[test]
fn sub_bulk_free_does_not_depend_on_the_order() {
    let run = |order: fn(&mut Vec<SubPageId<4096, 512>>)| {
        let tmp = TempPath::new();
        let pager = Pager::<4096>::create(tmp.path()).unwrap();
        let mut sub = SubPageAllocator::<4096, 512>::new(pager);
        let mut ids = sub.alloc_bulk(20).unwrap();
        ids.truncate(17);
        ids.remove(3);
        order(&mut ids);
        let mut wrong = ids.clone();
        wrong.push(SubPageId::new_raw(0, 8));
        wrong.push(SubPageId::new_raw(3, 0));
        order(&mut wrong);
        let refused = sub.free_bulk(wrong).err().map(|e| e.message());
        sub.disk.log.clear();
        sub.free_bulk(ids).unwrap();
        (refused, live_handles(&sub), sub.disk.log.clone(), tmp.bytes())
    };
    let first = run(|_| {});
    assert!(first == run(|ids| ids.reverse()));
    assert!(first == run(|ids| ids.rotate_left(7)));
    // The handles that were not named are left.
    let left = [(0, 3), (2, 1), (2, 2), (2, 3)].map(|(i, b)| SubPageId::new_raw(i, b));
    assert_eq!(first.1, left);
}

#[test]
fn sub_page_write_is_seen_through_its_handle_alone() {
    let tmp = TempPath::new();
    let pager = Pager::<4096>::create(tmp.path()).unwrap();
    let mut sub = SubPageAllocator::<4096, 512>::new(pager);
    let ids = sub.alloc_bulk(10).unwrap();
    for (i, id) in ids.iter().enumerate() {
        id.open_mut(&mut sub).unwrap().edit(|b| b.fill(i as u8));
    }
    ids[4].open_mut(&mut sub).unwrap().edit(|b| b.fill(0xAA));
    for (i, id) in ids.iter().enumerate() {
        let want = if i == 4 { 0xAA } else { i as u8 };
        assert!(id.fetch(&sub).unwrap().as_bytes().iter().all(|&b| b == want));
    }
}

#[test]
fn failed_protected_batch_leaves_the_named_handles() {
    let tmp = TempPath::new();
    let mut p = Pager::<1024>::create(tmp.path()).unwrap();
    let ids = p.alloc_protected_bulk(3).unwrap();
    p.free_protected(ids[1]).unwrap();
    let before: Vec<_> = p.iter_allocated_protected_pages().collect();
    assert_eq!(before, [ids[0], ids[2]]);
    // One page is entered, with two flushes for its pages and two for its entry;
    // the pages of the next cannot be committed.
    p.budget = Some(4);
    assert!(matches!(p.alloc_protected_bulk(2), Err(MappedPageError::Io(_))));
    p.budget = None;
    let after: Vec<_> = p.iter_allocated_protected_pages().collect();
    assert_eq!(after, before);
}

/// However a batch fails, the handles are those before it and at most that of the page
/// whose entry was under way.
#[test]
fn failed_protected_batch_leaves_at_most_the_entry_under_way() {
    for budget in 0..12 {
        let tmp = TempPath::new();
        let mut p = Pager::<1024>::create(tmp.path()).unwrap();
        let ids = p.alloc_protected_bulk(3).unwrap();
        p.free_protected(ids[1]).unwrap();
        p.alloc_bulk(1).unwrap();
        let before: Vec<_> = p.iter_allocated_protected_pages().collect();
        p.budget = Some(budget);
        assert!(matches!(p.alloc_protected_bulk(3), Err(MappedPageError::Io(_))));
        p.budget = None;
        let after: Vec<_> = p.iter_allocated_protected_pages().collect();
        assert!(before.iter().all(|id| after.contains(id)));
        let left = after.len() - before.len();
        // Each page takes two flushes for its pages and then two for its entry.
        assert_eq!(left, (budget % 4 >= 2) as usize);
    }
}

#[test]
fn live_sub_pages_can_be_borrowed() {
    let tmp = TempPath::new();
    let pager = Pager::<4096>::create(tmp.path()).unwrap();
    let mut sub = SubPageAllocator::<4096, 512>::new(pager);
    for round in 0..80usize {
        // The first request of some rounds fails: a flush, or making the file longer.
        let fails = round % 7 == 5;
        sub.disk.budget = if fails { Some(0) } else { None };
        let live = live_handles(&sub);
        match round % 4 {
            0 => {
                let _ = sub.alloc_bulk(11);
            }
            1 | 2 => {
                let _ = sub.allocate();
            }
            _ if round % 8 == 3 => {
                let _ = sub.free(live[round % live.len()]);
            }
            _ => {
                let _ = sub.free_bulk(live.into_iter().step_by(2).collect());
            }
        }
        let live = live_handles(&sub);
        for id in &live {
            assert_eq!(id.fetch(&sub).unwrap().as_bytes().len(), 512);
        }
        if let Some(id) = live.first() {
            id.open_mut(&mut sub).unwrap().edit(|b| b.fill(round as u8));
        }
    }
    assert!(!live_handles(&sub).is_empty());
}

// ── Histories ─────────────────────────────────────────────────────────────────

#[test]
fn any_history_is_found_again() {
    let tmp = TempPath::new();
    let mut p = Pager::<1024>::create(tmp.path()).unwrap();
    let mut pages: Vec<(PageId<1024>, u8)> = Vec::new();
    let mut protected: Vec<(ProtectedPageId<1024>, u8)> = Vec::new();
    for round in 0..60u8 {
        match round % 6 {
            0 => {
                let id = p.allocate().unwrap();
                id.open_mut(&mut p).unwrap().edit(|b| b.fill(round));
                pages.push((id, round));
            }
            1 => {
                let id = p.alloc_protected().unwrap();
                let mut w = id.open_mut(&mut p).unwrap();
                w.edit(|b| b.fill(round));
                w.commit().unwrap();
                protected.push((id, round));
            }
            2 => {
                for id in p.alloc_bulk(3).unwrap() {
                    id.open_mut(&mut p).unwrap().edit(|b| b.fill(round));
                    pages.push((id, round));
                }
            }
            3 => {
                let (id, _) = pages.remove(round as usize % pages.len());
                p.free(id).unwrap();
            }
            4 => {
                let k = round as usize % protected.len();
                let mut w = protected[k].0.open_mut(&mut p).unwrap();
                w.edit(|b| b.fill(round));
                if round % 4 == 0 {
                    w.commit().unwrap();
                    protected[k].1 = round;
                }
            }
            _ => {
                if protected.len() > 4 {
                    let (id, _) = protected.remove(round as usize % protected.len());
                    p.free_protected(id).unwrap();
                }
            }
        }
        let q = Pager::<1024>::open(tmp.path()).unwrap();
        assert_eq!(q.page_count(), p.page_count());
        assert_eq!(q.free_page_count(), p.free_page_count());
        let mut ids: Vec<_> = pages.iter().map(|(id, _)| *id).collect();
        ids.sort();
        assert_eq!(q.iter_allocated_pages().collect::<Vec<_>>(), ids);
        let mut ids: Vec<_> = protected.iter().map(|(id, _)| *id).collect();
        ids.sort();
        assert_eq!(q.iter_allocated_protected_pages().collect::<Vec<_>>(), ids);
        for (id, byte) in &pages {
            assert!(id.fetch(&q).unwrap().as_bytes().iter().all(|b| b == byte));
        }
        for (id, byte) in &protected {
            assert!(id.fetch(&q).unwrap().as_bytes().iter().all(|b| b == byte));
            assert_eq!(id.fetch(&p).unwrap().as_bytes(), id.fetch(&q).unwrap().as_bytes());
        }
    }
}

#[test]
fn file_of_an_unavailable_pager_is_found_again() {
    for rollback in [false, true] {
        let tmp = TempPath::new();
        let mut p = Pager::<1024>::create(tmp.path()).unwrap();
        let page = p.allocate().unwrap();
        page.open_mut(&mut p).unwrap().edit(|b| b.fill(9));
        // The file is made longer; mapping it fails, and so may making it shorter.
        let task = match p.core.allocate() {
            Turn::Ask(request, task) => {
                assert!(matches!(request, Request::SetLen(8192)));
                p.perform(request);
                task
            }
            Turn::Done(_) => panic!("no page is free"),
        };
        let task = match p.core.resume_alloc(task, IoEvent::Done) {
            Turn::Ask(Request::Remap, task) => task,
            _ => panic!("the file is mapped next"),
        };
        let failed = IoEvent::Failed { completed: 0, error: io_error("map") };
        let (request, task) = match p.core.resume_alloc(task, failed) {
            Turn::Ask(request, task) => (request, task),
            Turn::Done(_) => panic!("the file is made shorter next"),
        };
        p.budget = Some(rollback as usize);
        let event = p.perform(request);
        assert_eq!(tmp.bytes().len(), if rollback { 4096 } else { 8192 });
        assert!(matches!(
            p.core.resume_alloc(task, event),
            Turn::Done(Err(MappedPageError::Io(_)))
        ));
        assert!(matches!(p.allocate(), Err(MappedPageError::Unavailable)));
        assert!(matches!(p.alloc_bulk(1), Err(MappedPageError::Unavailable)));
        assert!(matches!(p.alloc_protected(), Err(MappedPageError::Unavailable)));
        assert!(matches!(page.fetch(&p), Err(MappedPageError::Unavailable)));
        let mut q = Pager::<1024>::open(tmp.path()).unwrap();
        assert_eq!((q.page_count(), q.free_page_count()), (4, 0));
        assert!(page.fetch(&q).unwrap().as_bytes().iter().all(|&b| b == 9));
        assert_eq!(q.allocate().unwrap().0, 4);
    }
}

/// A file with one protected page, written twice, and one regular page.
fn file_with_history(file: &TempPath) -> (Pager<1024>, ProtectedPageId<1024>) {
    let mut p = Pager::<1024>::create(file).unwrap();
    let id = p.alloc_protected().unwrap();
    for byte in [1, 2] {
        let mut w = id.open_mut(&mut p).unwrap();
        w.edit(|b| b.fill(byte));
        w.commit().unwrap();
    }
    p.allocate().unwrap();
    (p, id)
}

fn damage_active_metadata(file: &TempPath, p: &Pager<1024>) {
    zero_range(file, meta_checksum_offset(p.active_meta_selector(), 1024), 4);
}

fn tear_superblock(file: &TempPath, _: &Pager<1024>) {
    zero_range(file, 16, 4);
}

fn damage_active_directory(file: &TempPath, p: &Pager<1024>) {
    let (a, b, active) = p.dir_block_pages(0);
    let phys = if active == MetaSelector::A { a } else { b };
    zero_range(file, phys_page_checksum_offset(phys, 1024), 4);
}

fn drop_directory_section(file: &TempPath, _: &Pager<1024>) {
    zero_range(file, 20, 1024 - 20);
}

#[test]
fn commits_on_any_opened_file_are_found_again() {
    let damages: [fn(&TempPath, &Pager<1024>); 4] = [
        damage_active_metadata,
        tear_superblock,
        damage_active_directory,
        drop_directory_section,
    ];
    for (kind, damage) in damages.into_iter().enumerate() {
        let tmp = TempPath::new();
        let (written, first) = file_with_history(tmp.path());
        damage(tmp.path(), &written);
        let mut p = Pager::<1024>::open(tmp.path()).unwrap();
        // The damaged part is read as it was one commit ago, or not at all.
        assert_eq!(p.iter_allocated_pages().count(), [0, 0, 1, 5][kind]);
        match kind {
            2 => assert!(first.fetch(&p).unwrap().as_bytes().iter().all(|&b| b == 1)),
            3 => assert!(matches!(first.fetch(&p), Err(MappedPageError::OutOfBounds))),
            _ => assert!(first.fetch(&p).unwrap().as_bytes().iter().all(|&b| b == 2)),
        }
        let page = p.allocate().unwrap();
        page.open_mut(&mut p).unwrap().edit(|b| b.fill(7));
        let id = p.alloc_protected().unwrap();
        let mut w = id.open_mut(&mut p).unwrap();
        w.edit(|b| b.fill(8));
        w.commit().unwrap();
        let q = Pager::<1024>::open(tmp.path()).unwrap();
        assert_eq!(q.page_count(), p.page_count());
        assert_eq!(q.free_page_count(), p.free_page_count());
        assert_eq!(q.active_meta_selector(), p.active_meta_selector());
        assert!(q.iter_allocated_pages().eq(p.iter_allocated_pages()));
        assert!(q.iter_allocated_protected_pages().eq(p.iter_allocated_protected_pages()));
        assert!(page.fetch(&q).unwrap().as_bytes().iter().all(|&b| b == 7));
        assert!(id.fetch(&q).unwrap().as_bytes().iter().all(|&b| b == 8));
        for id in p.iter_allocated_protected_pages() {
            assert_eq!(id.fetch(&p).unwrap().as_bytes(), id.fetch(&q).unwrap().as_bytes());
        }
    }
}

#[test]
fn protected_write_alone_on_any_opened_file_is_found_again() {
    for damage in [damage_active_metadata, tear_superblock, damage_active_directory] {
        let tmp = TempPath::new();
        let (written, id) = file_with_history(tmp.path());
        damage(tmp.path(), &written);
        let mut p = Pager::<1024>::open(tmp.path()).unwrap();
        let mut w = id.open_mut(&mut p).unwrap();
        w.edit(|b| b.fill(3));
        // Written and not committed, it is not seen.
        let q = Pager::<1024>::open(tmp.path()).unwrap();
        assert!(id.fetch(&q).unwrap().as_bytes().iter().all(|&b| b == 1 || b == 2));
        w.commit().unwrap();
        let q = Pager::<1024>::open(tmp.path()).unwrap();
        assert_eq!(q.free_page_count(), p.free_page_count());
        assert!(q.iter_allocated_pages().eq(p.iter_allocated_pages()));
        assert!(id.fetch(&q).unwrap().as_bytes().iter().all(|&b| b == 3));
    }
}

#[test]
fn first_metadata_commit_after_a_fallback_is_old_or_new() {
    let tmp = TempPath::new();
    let mut p = Pager::<1024>::create(tmp.path()).unwrap();
    let page = p.allocate().unwrap();
    p.allocate().unwrap();
    p.free(page).unwrap();
    assert_eq!(p.free_page_count(), 4);
    tear_superblock(tmp.path(), &p);
    let mut p = Pager::<1024>::open(tmp.path()).unwrap();
    assert_eq!((p.active_meta_selector(), p.free_page_count()), (MetaSelector::A, 3));
    let steps = match p.core.allocate() {
        Turn::Ask(Request::Apply(steps), _) => steps,
        _ => panic!("a page is free"),
    };
    let (page, page0) = match (&steps[0], &steps[2]) {
        (Step::Store { offset: 2048, data: page }, Step::Store { offset: 0, data: page0 }) => {
            (page, page0)
        }
        _ => panic!("stores come first"),
    };
    let file = tmp.bytes();
    assert_ne!(&file[2048..3072], &page[..]);
    // Page 0 names the metadata page under way, and does not vouch for it.
    for cut in 0..=1024 {
        let mut f = file.clone();
        f[2048..2048 + cut].copy_from_slice(&page[..cut]);
        assert_eq!(mappedpages::Pager::<1024>::open(&f).unwrap().free_page_count(), 3);
    }
    let differing: Vec<usize> = (0..1024).filter(|&i| file[i] != page0[i]).collect();
    assert!(!differing.is_empty() && differing.len() <= 5);
    for mask in 0..1u32 << differing.len() {
        let mut f = file.clone();
        f[2048..3072].copy_from_slice(page);
        for (k, &i) in differing.iter().enumerate() {
            if mask >> k & 1 == 1 {
                f[i] = page0[i];
            }
        }
        let whole = mask + 1 == 1 << differing.len();
        let found = mappedpages::Pager::<1024>::open(&f).unwrap().free_page_count();
        assert_eq!(found, if whole { 2 } else { 3 });
    }
}

#[test]
fn first_directory_commit_after_a_fallback_is_old_or_new() {
    let tmp = TempPath::new();
    let (written, id) = file_with_history(tmp.path());
    damage_active_directory(tmp.path(), &written);
    let mut p = Pager::<1024>::open(tmp.path()).unwrap();
    let before = p.protected_active_slot(id);
    let steps = directory_steps(&mut p, id);
    let file = tmp.bytes();
    let (offset, page, page0) = match (&steps[0], &steps[2]) {
        (Step::Store { offset, data: page }, Step::Store { offset: 0, data: page0 }) => {
            (*offset, page, page0)
        }
        _ => panic!("the directory page comes before page 0"),
    };
    // Page 0 already names the copy under way.
    assert_eq!(&file[..1024], &page0[..]);
    for cut in 0..=1024 {
        let mut f = file.clone();
        f[offset..offset + cut].copy_from_slice(&page[..cut]);
        let q = mappedpages::Pager::<1024>::open(&f).unwrap();
        let whole = f[offset..offset + 1024] == page[..];
        assert_eq!(q.protected_active_slot(id) != before, whole);
    }
}

#[test]
fn protected_allocation_asks_the_same_of_any_driver() {
    let (tmp, other) = (TempPath::new(), TempPath::new());
    let mut p = Pager::<1024>::create(tmp.path()).unwrap();
    let mut q = Pager::<1024>::create(other.path()).unwrap();
    for _ in 0..40 {
        assert_eq!(p.alloc_protected().unwrap(), q.alloc_protected().unwrap());
    }
    assert_eq!(p.log, q.log);
    assert_eq!(tmp.bytes(), other.bytes());
}
