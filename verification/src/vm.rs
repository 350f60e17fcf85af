//! The virtual memory allocator: it finds free pages, takes frames from the
//! physical frame allocator and installs the mappings in the page table.

use vstd::prelude::*;
use crate::layout::{
    directory_index, frame_of, frames_spanning, index_of, indices_of, offset_of, page_address,
    page_at_or_after, page_count, pages_spanning, slot_of, table_index, ENTRIES, FRAME_COUNT,
    GRANULARITY, IDENTITY_MAPPED_END, PAGE_COUNT, PAGE_LIMIT,
};
use crate::pm::PhysicalMemory;
use crate::pt::{
    covering_slots, directory_wf, empty_table, installed_slots, lemma_covering_slots_step,
    lemma_empty_table_maps_nothing, lemma_with_entry, lookup, mappings, slots_after_mapping,
    with_entry, DirectoryView, PageDirectory,
};
use crate::run::{is_first_run, is_run, lemma_first_run_is, lemma_first_run_none};
use crate::space::{run_mappings, AddressSpace};

verus! {

/// The search for free pages cannot tell a slot that holds no table from a
/// slot whose table has only free entries: with either directory behind it
/// the address space is the same, and so is the page at which the search
/// ends.
pub proof fn lemma_search_ignores_empty_tables(
    directory: DirectoryView,
    index: int,
    free_frames: Set<int>,
    n: int,
)
    requires
        directory_wf(directory),
        0 <= index < ENTRIES,
        directory[index] is None,
    ensures
        ({
            let without = AddressSpace { pages: mappings(directory), free_frames };
            let with = AddressSpace {
                pages: mappings(directory.update(index, Some(empty_table()))),
                free_frames,
            };
            with == without && with.find_free_pages(n) == without.find_free_pages(n)
        }),
{
    lemma_empty_table_maps_nothing(directory, index);
}

/// The kernel's one address space: the page directory together with the
/// state of the physical frames behind it.
pub struct VirtualMemory {
    phys_mem: PhysicalMemory,
    root: PageDirectory,
}

impl VirtualMemory {
    /// Both parts are well formed.
    pub closed spec fn wf(&self) -> bool {
        self.phys_mem.wf() && self.root.wf()
    }

    /// The mapped pages and the free frames.
    pub closed spec fn view(&self) -> AddressSpace {
        AddressSpace { pages: mappings(self.root@), free_frames: self.phys_mem@ }
    }

    /// The slots of the page directory that hold a table.
    pub closed spec fn installed(&self) -> Set<int> {
        installed_slots(self.root@)
    }

    /// The view of a well-formed address space is well formed.
    pub proof fn lemma_view_wf(&self)
        requires
            self.wf(),
        ensures
            self@.wf(),
            self@.free_frames.finite(),
    {
        self.phys_mem.lemma_view_bounded();
    }

    /// An address space over the given frames and the given page directory.
    pub fn new(phys_mem: PhysicalMemory, root: PageDirectory) -> (memory: Self)
        requires
            phys_mem.wf(),
            root.wf(),
        ensures
            memory.wf(),
            memory@ == (AddressSpace { pages: mappings(root@), free_frames: phys_mem@ }),
            memory.installed() == installed_slots(root@),
    {
        VirtualMemory { phys_mem, root }
    }

    /// The state of the physical frames.
    pub fn phys_mem(&self) -> (phys_mem: &PhysicalMemory)
        requires
            self.wf(),
        ensures
            phys_mem.wf(),
            phys_mem@ == self@.free_frames,
    {
        &self.phys_mem
    }

    /// The page directory.
    pub fn root(&self) -> (root: &PageDirectory)
        requires
            self.wf(),
        ensures
            root.wf(),
            mappings(root@) == self@.pages,
            installed_slots(root@) == self.installed(),
    {
        &self.root
    }

    /// Finds the lowest run of `pages` unmapped pages that starts at page 1
    /// or later and ends at or below the largest page index, and returns its
    /// first page, or `None` where there is no such run.
    ///
    /// A slot of the directory that holds no table stands for 1024 unmapped
    /// pages and is passed over in one step. The search changes nothing, so
    /// that asking twice gives the same answer.
    pub fn find_free(&self, pages: usize) -> (found: Option<usize>)
        requires
            self.wf(),
        ensures
            index_of(found) == self@.find_free_pages(pages as int),
            found matches Some(page_start) ==> is_first_run(
                self@.unmapped(),
                1,
                PAGE_LIMIT as int,
                pages as int,
                page_start as int,
            ),
    {
        let mut page_start: usize = 1;
        let mut consecutive_pages: usize = 0;
        while consecutive_pages < pages
            invariant
                self.wf(),
                1 <= page_start <= PAGE_LIMIT,
                consecutive_pages > 0 ==> page_start + pages <= PAGE_LIMIT,
                consecutive_pages < pages + ENTRIES,
                forall|s: int|
                    1 <= s < page_start ==> !#[trigger] is_run(self@.unmapped(), s, pages as int),
                is_run(self@.unmapped(), page_start as int, consecutive_pages as int),
            decreases PAGE_LIMIT - page_start, pages + ENTRIES - consecutive_pages,
        {
            // a run from here on would end above the largest page index
            if pages > PAGE_LIMIT - page_start {
                proof {
                    lemma_first_run_none(
                        self@.unmapped(),
                        1,
                        PAGE_LIMIT as int,
                        pages as int,
                        page_start as int,
                    );
                }
                return None;
            }
            let page = page_start + consecutive_pages;

            match self.root.table_ref(directory_index(page)) {
                None => {
                    // no page up to the end of this slot is mapped
                    let rest = ENTRIES - table_index(page);
                    assert forall|p: int| page <= p < page + rest implies self@.unmapped().contains(
                        p,
                    ) by {
                        assert(slot_of(p) == slot_of(page as int));
                        assert(lookup(self.root@, p) is None);
                    }
                    consecutive_pages += rest;
                },
                Some(page_table) => {
                    if page_table.entry(table_index(page)).free() {
                        assert(self@.unmapped().contains(page as int));
                        consecutive_pages += 1;
                    } else {
                        // every run that starts at or below this page holds it
                        assert forall|s: int| page_start <= s <= page implies !#[trigger] is_run(
                            self@.unmapped(),
                            s,
                            pages as int,
                        ) by {
                            assert(!self@.unmapped().contains(page as int));
                        }
                        page_start = page + 1;
                        consecutive_pages = 0;
                    }
                },
            }
        }
        proof {
            lemma_first_run_is(
                self@.unmapped(),
                1,
                PAGE_LIMIT as int,
                pages as int,
                page_start as int,
            );
        }
        Some(page_start)
    }

    /// Maps the `frames` frames from `frame_start` on into the lowest run of
    /// free pages, frame by frame, and returns the first page of that run,
    /// or `None` where no such run is left; nothing changes then.
    ///
    /// The frames must lie in the addressable range. Whether they are free
    /// or used is not looked at and does not change. Tables are installed
    /// where the run needs them. Every entry that is written is free: the
    /// search and the installation cannot disagree.
    pub fn map(&mut self, frame_start: usize, frames: usize) -> (mapped: Option<usize>)
        requires
            old(self).wf(),
            frame_start + frames <= FRAME_COUNT,
        ensures
            final(self).wf(),
            final(self)@ == old(self)@.map(frame_start as int, frames as int),
            index_of(mapped) == old(self)@.find_free_pages(frames as int),
            final(self).installed() == slots_after_mapping(
                old(self).installed(),
                index_of(mapped),
                frames as int,
            ),
            mapped matches Some(page_start) ==> 1 <= page_start && page_start + frames
                <= PAGE_LIMIT,
    {
        let page_start = self.find_free(frames)?;
        let mut i: usize = 0;
        assert(covering_slots(page_start as int, 0) == Set::<int>::empty());
        while i < frames
            invariant
                i <= frames,
                self.wf(),
                1 <= page_start,
                page_start + frames <= PAGE_LIMIT,
                frame_start + frames <= FRAME_COUNT,
                is_run(old(self)@.unmapped(), page_start as int, frames as int),
                self@.free_frames == old(self)@.free_frames,
                self@.pages == old(self)@.pages.union_prefer_right(
                    run_mappings(page_start as int, frame_start as int, i as int),
                ),
                self.installed() == old(self).installed().union(
                    covering_slots(page_start as int, i as int),
                ),
            decreases frames - i,
        {
            let page = page_start + i;
            let frame = frame_start + i;
            let ghost before = self.root@;
            proof {
                assert(old(self)@.unmapped().contains(page as int));
                assert(!self@.pages.contains_key(page as int));
                assert(lookup(before, page as int) is None);
                lemma_with_entry(before, page as int, Some(frame as int));
                lemma_covering_slots_step(page_start as int, i as int);
            }
            let page_table = self.root.table_create(directory_index(page));
            let page_table_entry = page_table.entry_mut(table_index(page));
            page_table_entry.map(frame);
            assert(self.root@ == with_entry(before, page as int, Some(frame as int)));
            assert(self@.pages == old(self)@.pages.union_prefer_right(
                run_mappings(page_start as int, frame_start as int, i + 1),
            ));
            i += 1;
        }
        Some(page_start)
    }

    /// Allocates `pages` pages backed by a run of free frames and returns
    /// the first page. It does what
    /// [`allocate_contiguous`](Self::allocate_contiguous) does and keeps the
    /// frame to itself.
    pub fn allocate(&mut self, pages: usize) -> (allocated: Option<usize>)
        requires
            old(self).wf(),
        ensures
            final(self).wf(),
            final(self)@ == old(self)@.allocate_contiguous(pages as int),
            index_of(allocated) == old(self)@.allocated_page(pages as int),
            final(self).installed() == slots_after_mapping(
                old(self).installed(),
                index_of(allocated),
                pages as int,
            ),
            allocated matches Some(page_start) ==> 1 <= page_start && page_start + pages
                <= PAGE_LIMIT,
    {
        match self.allocate_contiguous(pages) {
            Some((page_start, _)) => Some(page_start),
            None => None,
        }
    }

    /// Allocates `pages` pages backed by a run of free frames and returns
    /// the first page and the first frame.
    ///
    /// The lowest run of `pages` free frames is marked used and mapped,
    /// frame by frame, into the lowest run of `pages` free pages. Where no
    /// run of free frames exists nothing changes. Where the frames were
    /// found but no run of free pages is left, the frames stay marked used
    /// and nothing is mapped.
    pub fn allocate_contiguous(&mut self, pages: usize) -> (allocated: Option<(usize, usize)>)
        requires
            old(self).wf(),
        ensures
            final(self).wf(),
            final(self)@ == old(self)@.allocate_contiguous(pages as int),
            indices_of(allocated) == old(self)@.allocated(pages as int),
            final(self).installed() == slots_after_mapping(
                old(self).installed(),
                old(self)@.allocated_page(pages as int),
                pages as int,
            ),
            allocated matches Some((page_start, frame_start)) ==> {
                &&& final(self)@.maps_run(page_start as int, frame_start as int, pages as int)
                &&& 1 <= page_start
                &&& page_start + pages <= PAGE_LIMIT
                &&& frame_start + pages <= FRAME_COUNT
            },
    {
        let frame_start = self.phys_mem.find_free(pages)?;
        self.phys_mem.mark_used(frame_start, pages);
        let page_start = self.map(frame_start, pages)?;
        Some((page_start, frame_start))
    }

    /// Whether every page in `[page_start, page_start + pages)` is mapped,
    /// which is what [`free`](Self::free) asks of its caller.
    pub fn mapped_run(&self, page_start: usize, pages: usize) -> (mapped: bool)
        requires
            self.wf(),
        ensures
            mapped == self@.mapped_run(page_start as int, pages as int),
    {
        if pages == 0 {
            return true;
        }
        if page_start >= PAGE_COUNT || pages > PAGE_COUNT - page_start {
            assert(!self@.pages.contains_key(page_start + pages - 1));
            return false;
        }
        let mut i: usize = 0;
        while i < pages
            invariant
                i <= pages,
                self.wf(),
                page_start + pages <= PAGE_COUNT,
                self@.mapped_run(page_start as int, i as int),
            decreases pages - i,
        {
            if self.root.translate(page_start + i).is_none() {
                assert(!self@.pages.contains_key(page_start + i));
                return false;
            }
            i += 1;
        }
        true
    }

    /// Frees the pages `[page_start, page_start + pages)`, all of which must
    /// be mapped: each is unmapped, and the frame it was mapped to is marked
    /// free, one frame for each page. The tables that held the entries stay
    /// installed.
    pub fn free(&mut self, page_start: usize, pages: usize)
        requires
            old(self).wf(),
            old(self)@.mapped_run(page_start as int, pages as int),
        ensures
            final(self).wf(),
            final(self)@ == old(self)@.free(page_start as int, pages as int),
            final(self).installed() == old(self).installed(),
    {
        let mut i: usize = 0;
        assert(self@.pages =~= old(self)@.free(page_start as int, 0).pages);
        assert(self@.free_frames =~= old(self)@.free(page_start as int, 0).free_frames);
        while i < pages
            invariant
                i <= pages,
                self.wf(),
                old(self)@.mapped_run(page_start as int, pages as int),
                self@.pages == old(self)@.free(page_start as int, i as int).pages,
                self@.free_frames == old(self)@.free(page_start as int, i as int).free_frames,
                self.installed() == old(self).installed(),
            decreases pages - i,
        {
            let ghost before = self.root@;
            proof {
                assert(old(self)@.pages.contains_key(page_start + i));
                assert(self@.pages.contains_key(page_start + i));
                assert(self@.pages[page_start + i] == old(self)@.pages[page_start + i]);
                assert(lookup(before, page_start + i) == Some(old(self)@.pages[page_start + i]));
                assert(installed_slots(before).contains(slot_of(page_start + i)));
                lemma_with_entry(before, page_start + i, None);
            }
            let page = page_start + i;
            let page_table = self.root.table(directory_index(page)).unwrap();
            let page_table_entry = page_table.entry_mut(table_index(page));
            let frame = page_table_entry.unmap();
            self.phys_mem.mark_free(frame, 1);
            proof {
                assert(self.root@ == with_entry(before, page as int, None));
                assert(old(self)@.maps(page as int, frame as int));
                assert(self@.pages =~= old(self)@.free(page_start as int, i + 1).pages);
                assert(self@.free_frames =~= old(self)@.free(page_start as int, i + 1).free_frames);
                assert(self.installed() =~= old(self).installed());
            }
            i += 1;
        }
    }

    /// Allocates whole pages for `size` bytes, as
    /// [`allocate`](Self::allocate) does, and returns the address of the
    /// first page, or 0 where the allocation failed. The address of a page
    /// is a multiple of the page size and never 0. The page count is `size`
    /// divided by the page size, rounded up, so that even a single byte
    /// takes a whole page.
    pub fn alloc_bytes(&mut self, size: usize) -> (address: usize)
        requires
            old(self).wf(),
        ensures
            final(self).wf(),
            final(self)@ == old(self)@.allocate_contiguous(pages_spanning(size as int)),
            address == match old(self)@.allocated_page(pages_spanning(size as int)) {
                Some(page_start) => page_start * GRANULARITY,
                None => 0,
            },
            address != 0 <==> old(self)@.allocated_page(pages_spanning(size as int)) is Some,
            final(self).installed() == slots_after_mapping(
                old(self).installed(),
                old(self)@.allocated_page(pages_spanning(size as int)),
                pages_spanning(size as int),
            ),
    {
        let pages = page_count(size);
        match self.allocate(pages) {
            Some(page_start) => page_address(page_start),
            None => 0,
        }
    }

    /// Frees the pages that held the `size` bytes at `address`, as
    /// [`free`](Self::free) does: as many pages as
    /// [`alloc_bytes`](Self::alloc_bytes) takes for `size` bytes, from the
    /// first page that starts at or after `address`. All of them must be
    /// mapped.
    pub fn dealloc(&mut self, address: usize, size: usize)
        requires
            old(self).wf(),
            old(self)@.mapped_run(pages_spanning(address as int), pages_spanning(size as int)),
        ensures
            final(self).wf(),
            final(self)@ == old(self)@.free(
                pages_spanning(address as int),
                pages_spanning(size as int),
            ),
            final(self).installed() == old(self).installed(),
    {
        let page_start = page_at_or_after(address);
        let pages = page_count(size);
        self.free(page_start, pages);
    }

    /// Makes the `size` bytes of physical memory at `phys_addr` readable and
    /// returns the virtual address of the first byte, or `None` where no run
    /// of free pages is left.
    ///
    /// An address in the low region that is identity-mapped at boot is
    /// returned as it is, and nothing changes. For any other address the
    /// frames that hold the bytes, which must lie in the addressable range,
    /// are mapped as [`map`](Self::map) does, and the result lies as far
    /// into the first page as `phys_addr` lies into its frame.
    pub fn map_physical_region(&mut self, phys_addr: usize, size: usize) -> (mapped: Option<usize>)
        requires
            old(self).wf(),
            phys_addr > IDENTITY_MAPPED_END ==> phys_addr + size <= FRAME_COUNT * GRANULARITY,
        ensures
            final(self).wf(),
            phys_addr <= IDENTITY_MAPPED_END ==> {
                &&& mapped == Some(phys_addr)
                &&& final(self)@ == old(self)@
                &&& final(self).installed() == old(self).installed()
            },
            phys_addr > IDENTITY_MAPPED_END ==> {
                let frames = frames_spanning(phys_addr as int, size as int);
                let found = old(self)@.find_free_pages(frames);
                &&& final(self)@ == old(self)@.map(frame_of(phys_addr as int), frames)
                &&& index_of(mapped) == match found {
                    Some(page_start) => Some(
                        page_start * GRANULARITY + offset_of(phys_addr as int),
                    ),
                    None => None,
                }
                &&& final(self).installed() == slots_after_mapping(
                    old(self).installed(),
                    found,
                    frames,
                )
            },
    {
        if phys_addr <= IDENTITY_MAPPED_END {
            return Some(phys_addr);
        }
        let offset = phys_addr % GRANULARITY;
        let frame_start = phys_addr / GRANULARITY;
        let frames = page_count(offset + size);
        let page_start = self.map(frame_start, frames)?;
        Some(page_start * GRANULARITY + offset)
    }
}

} // verus!
