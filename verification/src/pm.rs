//! The physical frame allocator: which frames of physical memory are free.

use vstd::prelude::*;
use vstd::set_lib::set_int_range;
use crate::layout::{index_of, FRAME_COUNT, GRANULARITY};
use crate::run::{first_run, is_first_run, is_run, lemma_first_run_is, lemma_first_run_none};

verus! {

/// How the firmware classifies a region of physical memory.
#[derive(Clone, Copy, Debug, PartialEq, Eq)]
pub enum RegionKind {
    /// Ordinary memory that the kernel may use.
    Available,
    /// Anything else: reserved, defective, or owned by the firmware.
    Reserved,
}

/// One entry of the firmware memory map: `length` bytes starting at the
/// physical address `base`.
#[derive(Clone, Copy, Debug, PartialEq, Eq)]
pub struct MemoryRegion {
    pub base: u64,
    pub length: u64,
    pub kind: RegionKind,
}

/// Frame `f` lies wholly inside `region`.
pub open spec fn frame_within(region: MemoryRegion, f: int) -> bool {
    region.base <= f * GRANULARITY && (f + 1) * GRANULARITY <= region.base + region.length
}

/// Frame `f` shares at least one byte with `region`.
pub open spec fn frame_touches(region: MemoryRegion, f: int) -> bool {
    &&& region.length > 0
    &&& region.base < (f + 1) * GRANULARITY
    &&& f * GRANULARITY < region.base + region.length
}

/// One of the first `upto` regions is available and holds all of frame `f`.
pub open spec fn covered(regions: Seq<MemoryRegion>, upto: int, f: int) -> bool {
    exists|j: int|
        0 <= j < upto && (#[trigger] regions[j]).kind is Available && frame_within(regions[j], f)
}

/// None of the first `upto` regions is reserved and touches frame `f`.
pub open spec fn unclaimed(regions: Seq<MemoryRegion>, upto: int, f: int) -> bool {
    forall|j: int|
        0 <= j < upto && (#[trigger] regions[j]).kind is Reserved ==> !frame_touches(regions[j], f)
}

/// Frame `f` may be handed out under the memory map `regions`: it is tracked,
/// an available region holds all of it, and no reserved region touches it.
pub open spec fn usable_frame(regions: Seq<MemoryRegion>, f: int) -> bool {
    &&& 0 <= f < FRAME_COUNT
    &&& covered(regions, regions.len() as int, f)
    &&& unclaimed(regions, regions.len() as int, f)
}

/// The frames that may be handed out under the memory map `regions`.
pub open spec fn usable_frames(regions: Seq<MemoryRegion>) -> Set<int> {
    Set::new(|f: int| usable_frame(regions, f))
}

/// The tracked frames that lie wholly inside `region`, as a half-open range
/// of frame indices.
fn frames_within(region: &MemoryRegion) -> (range: (usize, usize))
    ensures
        range.0 <= range.1 <= FRAME_COUNT,
        forall|f: int|
            0 <= f < FRAME_COUNT ==> (range.0 <= f < range.1 <==> frame_within(*region, f)),
{
    let granularity: u128 = GRANULARITY as u128;
    let limit: u128 = FRAME_COUNT as u128;
    let base: u128 = region.base as u128;
    let end: u128 = base + region.length as u128;
    let mut first: u128 = (base + (granularity - 1)) / granularity;
    let mut past: u128 = end / granularity;
    if first > limit {
        first = limit;
    }
    if past > limit {
        past = limit;
    }
    if past < first {
        past = first;
    }
    (first as usize, past as usize)
}

/// The tracked frames that share a byte with `region`, as a half-open range
/// of frame indices.
fn frames_touched(region: &MemoryRegion) -> (range: (usize, usize))
    ensures
        range.0 <= range.1 <= FRAME_COUNT,
        forall|f: int|
            0 <= f < FRAME_COUNT ==> (range.0 <= f < range.1 <==> frame_touches(*region, f)),
{
    if region.length == 0 {
        return (0, 0);
    }
    let granularity: u128 = GRANULARITY as u128;
    let limit: u128 = FRAME_COUNT as u128;
    let base: u128 = region.base as u128;
    let end: u128 = base + region.length as u128;
    let mut first: u128 = base / granularity;
    let mut past: u128 = (end + (granularity - 1)) / granularity;
    if first > limit {
        first = limit;
    }
    if past > limit {
        past = limit;
    }
    (first as usize, past as usize)
}

/// The state of every frame in the addressable physical range.
pub struct PhysicalMemory {
    /// One flag per frame, set while the frame is free.
    free: Vec<bool>,
}

impl PhysicalMemory {
    /// Every frame of the addressable range is tracked.
    pub closed spec fn wf(&self) -> bool {
        self.free.len() == FRAME_COUNT
    }

    /// The set of free frames.
    pub closed spec fn view(&self) -> Set<int> {
        Set::new(|f: int| 0 <= f < self.free.len() && self.free[f])
    }

    /// Only tracked frames are ever free.
    pub proof fn lemma_view_bounded(&self)
        requires
            self.wf(),
        ensures
            self@.subset_of(set_int_range(0, FRAME_COUNT as int)),
            self@.finite(),
    {
        vstd::set_lib::lemma_int_range(0, FRAME_COUNT as int);
        vstd::set_lib::lemma_len_subset(self@, set_int_range(0, FRAME_COUNT as int));
    }

    /// Physical memory with no free frame.
    pub fn new() -> (memory: Self)
        ensures
            memory.wf(),
            memory@ == Set::<int>::empty(),
    {
        let memory = PhysicalMemory { free: vec![false; FRAME_COUNT] };
        assert(memory@ =~= Set::<int>::empty());
        memory
    }

    /// Physical memory as the firmware memory map describes it. A frame is
    /// free if an available region holds all of it and no reserved region
    /// touches it, in whatever order the regions come. Every other frame is
    /// used, and so is all memory that the map does not mention.
    pub fn from_regions(regions: &[MemoryRegion]) -> (memory: Self)
        ensures
            memory.wf(),
            memory@ == usable_frames(regions@),
    {
        let mut memory = PhysicalMemory::new();
        let mut i: usize = 0;
        while i < regions.len()
            invariant
                i <= regions.len(),
                memory.wf(),
                forall|f: int|
                    memory@.contains(f) <==> 0 <= f < FRAME_COUNT && covered(regions@, i as int, f),
            decreases regions.len() - i,
        {
            let region = &regions[i];
            let ghost before = memory@;
            if let RegionKind::Available = region.kind {
                let (first, past) = frames_within(region);
                memory.fill(first, past - first, true);
            }
            assert forall|f: int|
                memory@.contains(f) <==> 0 <= f < FRAME_COUNT && covered(regions@, i + 1, f) by {
                if 0 <= f < FRAME_COUNT {
                    if covered(regions@, i + 1, f) {
                        let j = choose|j: int|
                            0 <= j < i + 1 && (#[trigger] regions@[j]).kind is Available
                                && frame_within(regions@[j], f);
                        if j < i {
                            assert(covered(regions@, i as int, f));
                        }
                    }
                    if before.contains(f) {
                        assert(covered(regions@, i as int, f));
                    }
                    if region.kind is Available && frame_within(*region, f) {
                        assert(regions@[i as int] == *region);
                    }
                }
            }
            i += 1;
        }
        let mut i: usize = 0;
        while i < regions.len()
            invariant
                i <= regions.len(),
                memory.wf(),
                forall|f: int|
                    memory@.contains(f) <==> 0 <= f < FRAME_COUNT && covered(
                        regions@,
                        regions.len() as int,
                        f,
                    ) && unclaimed(regions@, i as int, f),
            decreases regions.len() - i,
        {
            let region = &regions[i];
            if let RegionKind::Reserved = region.kind {
                let (first, past) = frames_touched(region);
                memory.fill(first, past - first, false);
            }
            assert forall|f: int| 0 <= f < FRAME_COUNT implies (unclaimed(regions@, i + 1, f)
                <==> unclaimed(regions@, i as int, f) && !(region.kind is Reserved && frame_touches(
                *region,
                f,
            ))) by {
                assert(regions@[i as int] == *region);
            }
            i += 1;
        }
        assert(memory@ =~= usable_frames(regions@));
        memory
    }

    /// Whether `frame` is free. A frame outside the tracked range never is.
    pub fn is_free(&self, frame: usize) -> (free: bool)
        requires
            self.wf(),
        ensures
            free == self@.contains(frame as int),
    {
        frame < FRAME_COUNT && self.free[frame]
    }

    /// Sets the state of every frame in `[frame_start, frame_start + count)`.
    fn fill(&mut self, frame_start: usize, count: usize, free: bool)
        requires
            old(self).wf(),
            frame_start + count <= FRAME_COUNT,
        ensures
            final(self).wf(),
            forall|f: int|
                final(self)@.contains(f) <==> if frame_start <= f < frame_start + count {
                    free
                } else {
                    old(self)@.contains(f)
                },
    {
        let mut i: usize = 0;
        while i < count
            invariant
                i <= count,
                frame_start + count <= FRAME_COUNT,
                self.wf(),
                forall|f: int|
                    self@.contains(f) <==> if frame_start <= f < frame_start + i {
                        free
                    } else {
                        old(self)@.contains(f)
                    },
            decreases count - i,
        {
            let ghost before = *self;
            self.free[frame_start + i] = free;
            assert forall|f: int|
                self@.contains(f) <==> if f == frame_start + i {
                    free
                } else {
                    before@.contains(f)
                } by {
                if 0 <= f < FRAME_COUNT {
                    assert(self.free@[f] == before.free@.update(frame_start + i, free)[f]);
                }
            }
            i += 1;
        }
    }

    /// Marks the frames `[frame_start, frame_start + count)` used. The run
    /// must be free beforehand.
    pub fn mark_used(&mut self, frame_start: usize, count: usize)
        requires
            old(self).wf(),
            frame_start + count <= FRAME_COUNT,
            is_run(old(self)@, frame_start as int, count as int),
        ensures
            final(self).wf(),
            final(self)@ == old(self)@.difference(
                set_int_range(frame_start as int, frame_start + count),
            ),
    {
        self.fill(frame_start, count, false);
        assert(self@ =~= old(self)@.difference(
            set_int_range(frame_start as int, frame_start + count),
        ));
    }

    /// Marks the frames `[frame_start, frame_start + count)` free, whatever
    /// their state was.
    pub fn mark_free(&mut self, frame_start: usize, count: usize)
        requires
            old(self).wf(),
            frame_start + count <= FRAME_COUNT,
        ensures
            final(self).wf(),
            final(self)@ == old(self)@.union(
                set_int_range(frame_start as int, frame_start + count),
            ),
    {
        self.fill(frame_start, count, true);
        assert(self@ =~= old(self)@.union(
            set_int_range(frame_start as int, frame_start + count),
        ));
    }

    /// Finds the lowest run of `count` free frames and returns its first
    /// frame, or `None` where the tracked range holds no such run.
    pub fn find_free(&self, count: usize) -> (found: Option<usize>)
        requires
            self.wf(),
        ensures
            index_of(found) == first_run(self@, 0, FRAME_COUNT as int, count as int),
            found matches Some(start) ==> is_first_run(
                self@,
                0,
                FRAME_COUNT as int,
                count as int,
                start as int,
            ),
    {
        let mut start: usize = 0;
        let mut run: usize = 0;
        while run < count
            invariant
                self.wf(),
                run <= count,
                start <= FRAME_COUNT,
                run > 0 ==> start + count <= FRAME_COUNT,
                forall|s: int| 0 <= s < start ==> !#[trigger] is_run(self@, s, count as int),
                is_run(self@, start as int, run as int),
            decreases FRAME_COUNT - start, count - run,
        {
            if count > FRAME_COUNT - start {
                proof {
                    lemma_first_run_none(self@, 0, FRAME_COUNT as int, count as int, start as int);
                }
                return None;
            }
            let frame = start + run;
            if self.free[frame] {
                run += 1;
            } else {
                assert forall|s: int| start <= s <= frame implies !#[trigger] is_run(
                    self@,
                    s,
                    count as int,
                ) by {
                    assert(!self@.contains(frame as int));
                }
                start = frame + 1;
                run = 0;
            }
        }
        proof {
            lemma_first_run_is(self@, 0, FRAME_COUNT as int, count as int, start as int);
        }
        Some(start)
    }
}

} // verus!
