//! The address space as a mathematical object: which page is mapped to which
//! frame and which frames are free, with the allocator's operations as
//! functions on it.

use vstd::prelude::*;
use vstd::set_lib::{lemma_int_range, lemma_len_subset, set_int_range};
use crate::layout::{FRAME_COUNT, PAGE_LIMIT};
use crate::run::{first_run, is_first_run, is_run, lemma_first_run_is, lemma_first_run_sound};

verus! {

/// The state that the allocator manages. Which tables the page directory
/// holds is no part of it: a page under a missing table is as unmapped as a
/// page whose entry is free.
pub struct AddressSpace {
    /// The mapped pages, each with the frame it is mapped to.
    pub pages: Map<int, int>,
    /// The frames that are free.
    pub free_frames: Set<int>,
}

/// The mappings that send the `n` pages from `page_start` on to the `n`
/// frames from `frame_start` on, in order.
pub open spec fn run_mappings(page_start: int, frame_start: int, n: int) -> Map<int, int> {
    Map::new(
        |page: int| page_start <= page < page_start + n,
        |page: int| frame_start + (page - page_start),
    )
}

impl AddressSpace {
    /// Only tracked frames are free.
    pub open spec fn wf(self) -> bool {
        self.free_frames.subset_of(set_int_range(0, FRAME_COUNT as int))
    }

    /// Frames and pages agree: no mapped frame is free, and no frame is
    /// mapped by two pages. The allocator keeps this up as long as frames
    /// reach the page table through allocation only.
    pub open spec fn consistent(self) -> bool {
        &&& forall|page: int|
            self.pages.contains_key(page) ==> !self.free_frames.contains(
                #[trigger] self.pages[page],
            )
        &&& forall|a: int, b: int|
            self.pages.contains_key(a) && self.pages.contains_key(b) && a != b
                ==> #[trigger] self.pages[a] != #[trigger] self.pages[b]
    }

    /// The pages that are not mapped.
    pub open spec fn unmapped(self) -> Set<int> {
        Set::new(|page: int| !self.pages.contains_key(page))
    }

    /// `page` is mapped to `frame`.
    pub open spec fn maps(self, page: int, frame: int) -> bool {
        self.pages.contains_key(page) && self.pages[page] == frame
    }

    /// The `n` pages from `page_start` on are mapped to the `n` frames from
    /// `frame_start` on, in order.
    pub open spec fn maps_run(self, page_start: int, frame_start: int, n: int) -> bool {
        forall|page: int|
            page_start <= page < page_start + n ==> #[trigger] self.pages.contains_key(page)
                && self.pages[page] == frame_start + (page - page_start)
    }

    /// Every page in `[page_start, page_start + n)` is mapped.
    pub open spec fn mapped_run(self, page_start: int, n: int) -> bool {
        forall|page: int| page_start <= page < page_start + n ==> self.pages.contains_key(page)
    }

    /// The frames that the pages in `[page_start, page_start + n)` are mapped
    /// to.
    pub open spec fn frames_of(self, page_start: int, n: int) -> Set<int> {
        Set::new(
            |frame: int|
                exists|page: int| page_start <= page < page_start + n && self.maps(page, frame),
        )
    }

    /// Where the search for `n` free frames ends: at the first frame of the
    /// lowest run of `n` free frames.
    pub open spec fn find_free_frames(self, n: int) -> Option<int> {
        first_run(self.free_frames, 0, FRAME_COUNT as int, n)
    }

    /// Where the search for `n` free pages ends: at the first page of the
    /// lowest run of `n` unmapped pages that starts at page 1 or later and
    /// ends at or below the largest page index.
    pub open spec fn find_free_pages(self, n: int) -> Option<int> {
        first_run(self.unmapped(), 1, PAGE_LIMIT as int, n)
    }

    /// The state after the frames `[frame_start, frame_start + n)` have been
    /// marked used.
    pub open spec fn mark_used(self, frame_start: int, n: int) -> AddressSpace {
        AddressSpace {
            free_frames: self.free_frames.difference(set_int_range(frame_start, frame_start + n)),
            ..self
        }
    }

    /// The state after mapping `n` frames from `frame_start` on: the lowest
    /// run of `n` free pages now maps to them, page by page. Where no such
    /// run exists nothing changes.
    pub open spec fn map(self, frame_start: int, n: int) -> AddressSpace {
        match self.find_free_pages(n) {
            Some(page_start) => AddressSpace {
                pages: self.pages.union_prefer_right(run_mappings(page_start, frame_start, n)),
                ..self
            },
            None => self,
        }
    }

    /// What allocating `n` pages returns: the first page and the first frame
    /// of the runs that were found, where both searches succeed.
    pub open spec fn allocated(self, n: int) -> Option<(int, int)> {
        match (self.find_free_pages(n), self.find_free_frames(n)) {
            (Some(page_start), Some(frame_start)) => Some((page_start, frame_start)),
            _ => None,
        }
    }

    /// The first page that allocating `n` pages returns.
    pub open spec fn allocated_page(self, n: int) -> Option<int> {
        match self.allocated(n) {
            Some((page_start, _)) => Some(page_start),
            None => None,
        }
    }

    /// The state after allocating `n` pages. Where no run of free frames
    /// exists nothing changes. Where one exists it is marked used, and stays
    /// so even if no run of free pages is left to map it to.
    pub open spec fn allocate_contiguous(self, n: int) -> AddressSpace {
        match self.find_free_frames(n) {
            Some(frame_start) => self.mark_used(frame_start, n).map(frame_start, n),
            None => self,
        }
    }

    /// The state after freeing the pages `[page_start, page_start + n)`:
    /// they are unmapped, and each frame that one of them was mapped to is
    /// free.
    pub open spec fn free(self, page_start: int, n: int) -> AddressSpace {
        AddressSpace {
            pages: self.pages.remove_keys(set_int_range(page_start, page_start + n)),
            free_frames: self.free_frames.union(self.frames_of(page_start, n)),
        }
    }
}

/// The search for free pages asks and does not act, and what it finds is
/// decided by the mapped pages alone: as long as nothing is mapped or
/// unmapped, every search for `n` pages ends at the same page.
pub proof fn lemma_page_search_reads_pages_only(a: AddressSpace, b: AddressSpace, n: int)
    requires
        a.pages == b.pages,
    ensures
        a.find_free_pages(n) == b.find_free_pages(n),
{
    assert(a.unmapped() =~= b.unmapped());
}

/// Marking frames used has no effect on which pages are found free.
proof fn lemma_mark_used_keeps_pages(space: AddressSpace, frame_start: int, n: int)
    ensures
        space.mark_used(frame_start, n).find_free_pages(n) == space.find_free_pages(n),
{
    lemma_page_search_reads_pages_only(space.mark_used(frame_start, n), space, n);
}

/// Pages that were just mapped, run to run, are mapped to exactly the frames
/// of that run.
proof fn lemma_frames_of_run(space: AddressSpace, page_start: int, frame_start: int, n: int)
    requires
        0 <= n,
        space.maps_run(page_start, frame_start, n),
    ensures
        space.frames_of(page_start, n) == set_int_range(frame_start, frame_start + n),
{
    assert forall|frame: int| frame_start <= frame < frame_start + n implies space.frames_of(
        page_start,
        n,
    ).contains(frame) by {
        let page = page_start + (frame - frame_start);
        assert(space.pages.contains_key(page));
        assert(space.maps(page, frame));
    }
    assert(space.frames_of(page_start, n) =~= set_int_range(frame_start, frame_start + n));
}

/// Page 0 is never handed out: where it is unmapped, neither mapping frames
/// nor allocating nor freeing pages maps it.
pub proof fn lemma_page_zero_stays_unmapped(
    space: AddressSpace,
    page_start: int,
    frame_start: int,
    n: int,
)
    requires
        !space.pages.contains_key(0),
    ensures
        !space.map(frame_start, n).pages.contains_key(0),
        !space.allocate_contiguous(n).pages.contains_key(0),
        !space.free(page_start, n).pages.contains_key(0),
{
    lemma_first_run_sound(space.unmapped(), 1, PAGE_LIMIT as int, n);
    if let Some(found) = space.find_free_frames(n) {
        lemma_mark_used_keeps_pages(space, found, n);
    }
}

/// Allocation keeps frames and pages in agreement, whether it succeeds or
/// not.
pub proof fn lemma_allocation_keeps_consistency(space: AddressSpace, n: int)
    requires
        0 <= n,
        space.consistent(),
    ensures
        space.allocate_contiguous(n).consistent(),
{
    lemma_first_run_sound(space.free_frames, 0, FRAME_COUNT as int, n);
    lemma_first_run_sound(space.unmapped(), 1, PAGE_LIMIT as int, n);
    let after = space.allocate_contiguous(n);
    if let Some(frame_start) = space.find_free_frames(n) {
        lemma_mark_used_keeps_pages(space, frame_start, n);
        if let Some(page_start) = space.find_free_pages(n) {
            // A page either is new and mapped to a frame that was free, or
            // is old and mapped to a frame that was not.
            let added = run_mappings(page_start, frame_start, n);
            assert forall|page: int| after.pages.contains_key(page) implies (if added.contains_key(
                page,
            ) {
                &&& after.pages[page] == frame_start + (page - page_start)
                &&& space.free_frames.contains(after.pages[page])
            } else {
                &&& space.pages.contains_key(page)
                &&& after.pages[page] == space.pages[page]
                &&& !space.free_frames.contains(after.pages[page])
            }) by {}
        }
    }
}

/// Freeing mapped pages keeps frames and pages in agreement.
pub proof fn lemma_free_keeps_consistency(space: AddressSpace, page_start: int, n: int)
    requires
        space.consistent(),
    ensures
        space.free(page_start, n).consistent(),
{
    let after = space.free(page_start, n);
    assert forall|page: int| after.pages.contains_key(page) implies !after.free_frames.contains(
        #[trigger] after.pages[page],
    ) by {
        if space.frames_of(page_start, n).contains(space.pages[page]) {
            let other = choose|other: int|
                page_start <= other < page_start + n && space.maps(other, space.pages[page]);
            assert(other != page);
        }
    }
}

/// An allocation that succeeds maps the pages it returns to the frames it
/// returns, in order: the page `i` places after the first is mapped to the
/// frame `i` places after the first.
pub proof fn lemma_allocation_is_contiguous(space: AddressSpace, n: int)
    requires
        0 <= n,
        space.allocated(n) is Some,
    ensures
        space.allocate_contiguous(n).maps_run(
            space.allocated(n).unwrap().0,
            space.allocated(n).unwrap().1,
            n,
        ),
{
    let (page_start, frame_start) = space.allocated(n).unwrap();
    lemma_mark_used_keeps_pages(space, frame_start, n);
    let after = space.allocate_contiguous(n);
    assert forall|page: int| page_start <= page < page_start + n implies {
        &&& #[trigger] after.pages.contains_key(page)
        &&& after.pages[page] == frame_start + (page - page_start)
    } by {
        assert(run_mappings(page_start, frame_start, n).contains_key(page));
    }
}

/// Allocating `n` pages and freeing them at once gives back the state from
/// before: every frame that was taken is free again, every page that was
/// mapped is unmapped again, and allocating `n` pages once more returns the
/// same pages and frames.
pub proof fn lemma_allocate_free_round_trip(space: AddressSpace, n: int)
    requires
        0 <= n,
        space.allocated(n) is Some,
    ensures
        ({
            let (page_start, frame_start) = space.allocated(n).unwrap();
            let allocated = space.allocate_contiguous(n);
            let freed = allocated.free(page_start, n);
            &&& allocated.mapped_run(page_start, n)
            &&& freed == space
            &&& is_run(freed.free_frames, frame_start, n)
            &&& is_run(freed.unmapped(), page_start, n)
            &&& freed.allocated(n) == Some((page_start, frame_start))
        }),
{
    let (page_start, frame_start) = space.allocated(n).unwrap();
    let allocated = space.allocate_contiguous(n);
    let freed = allocated.free(page_start, n);
    lemma_first_run_sound(space.free_frames, 0, FRAME_COUNT as int, n);
    lemma_first_run_sound(space.unmapped(), 1, PAGE_LIMIT as int, n);
    lemma_mark_used_keeps_pages(space, frame_start, n);
    lemma_allocation_is_contiguous(space, n);
    lemma_frames_of_run(allocated, page_start, frame_start, n);
    assert forall|page: int| page_start <= page < page_start + n implies !space.pages.contains_key(
        page,
    ) by {
        assert(space.unmapped().contains(page));
    }
    assert(freed.pages =~= space.pages);
    assert(freed.free_frames =~= space.free_frames);
}

/// With exactly `k` frames free, allocating `k + 1` pages fails and changes
/// nothing: no page is mapped and every frame keeps its state.
pub proof fn lemma_allocation_fails_beyond_free_frames(space: AddressSpace, k: int)
    requires
        space.wf(),
        space.free_frames.len() == k,
    ensures
        space.allocated(k + 1) is None,
        space.allocate_contiguous(k + 1) == space,
{
    lemma_first_run_sound(space.free_frames, 0, FRAME_COUNT as int, k + 1);
    if let Some(frame_start) = space.find_free_frames(k + 1) {
        let run = set_int_range(frame_start, frame_start + k + 1);
        lemma_int_range(0, FRAME_COUNT as int);
        lemma_len_subset(space.free_frames, set_int_range(0, FRAME_COUNT as int));
        lemma_int_range(frame_start, frame_start + k + 1);
        assert(run.subset_of(space.free_frames));
        lemma_len_subset(run, space.free_frames);
    }
}

/// With exactly `k` frames free that form one run, allocating `k` pages
/// succeeds wherever `k` pages in a row are unmapped, and leaves no frame
/// free.
pub proof fn lemma_allocation_takes_all_free_frames(space: AddressSpace, first: int, k: int)
    requires
        0 <= first,
        0 <= k,
        first + k <= FRAME_COUNT,
        space.free_frames == set_int_range(first, first + k),
        space.find_free_pages(k) is Some,
    ensures
        space.free_frames.len() == k,
        space.allocated(k) is Some,
        k > 0 ==> space.allocated(k).unwrap().1 == first,
        space.allocate_contiguous(k).free_frames == Set::<int>::empty(),
{
    lemma_int_range(first, first + k);
    let start = if k > 0 {
        first
    } else {
        0
    };
    assert(is_first_run(space.free_frames, 0, FRAME_COUNT as int, k, start)) by {
        assert forall|s: int| 0 <= s < start implies !#[trigger] is_run(
            space.free_frames,
            s,
            k,
        ) by {
            assert(!space.free_frames.contains(s));
        }
    }
    lemma_first_run_is(space.free_frames, 0, FRAME_COUNT as int, k, start);
    lemma_mark_used_keeps_pages(space, start, k);
    assert(space.allocate_contiguous(k).free_frames =~= Set::<int>::empty());
}

} // verus!
