use meerkat::layout::FRAME_COUNT;
use meerkat::{MemoryRegion, PhysicalMemory, RegionKind};

fn available(base: u64, length: u64) -> MemoryRegion {
    MemoryRegion { base, length, kind: RegionKind::Available }
}

fn reserved(base: u64, length: u64) -> MemoryRegion {
    MemoryRegion { base, length, kind: RegionKind::Reserved }
}

fn free_frames(memory: &PhysicalMemory) -> Vec<usize> {
    (0..FRAME_COUNT).filter(|&frame| memory.is_free(frame)).collect()
}

#[test]
fn new_memory_has_no_free_frame() {
    let memory = PhysicalMemory::new();
    assert!(free_frames(&memory).is_empty());
    assert_eq!(memory.find_free(1), None);
    assert_eq!(memory.find_free(0), Some(0));
}

#[test]
fn one_megabyte_region_gives_256_frames() {
    let memory = PhysicalMemory::from_regions(&[available(0x10_0000, 0x10_0000)]);
    let free = free_frames(&memory);
    assert_eq!(free.len(), 256);
    assert_eq!(free.first(), Some(&0x100));
    assert_eq!(free.last(), Some(&0x1FF));
}

#[test]
fn frames_cut_by_a_region_edge_stay_used() {
    // The region starts one byte into frame 2 and ends one byte into frame 5.
    let memory = PhysicalMemory::from_regions(&[available(0x2001, 0x3000)]);
    assert_eq!(free_frames(&memory), vec![3, 4]);
}

#[test]
fn region_shorter_than_a_frame_gives_nothing() {
    let regions = [available(0x1000, 0xFFF), available(0x3800, 0x1000)];
    let memory = PhysicalMemory::from_regions(&regions);
    assert!(free_frames(&memory).is_empty());
}

#[test]
fn reserved_region_takes_every_frame_it_touches() {
    // Frames 16..32 are available; the reserved bytes lie in frames 19 and 20.
    let regions = [available(0x1_0000, 0x1_0000), reserved(0x1_3FFF, 2)];
    let memory = PhysicalMemory::from_regions(&regions);
    let expected: Vec<usize> = (16..32).filter(|frame| *frame != 19 && *frame != 20).collect();
    assert_eq!(free_frames(&memory), expected);
}

#[test]
fn reserved_region_wins_whatever_the_order() {
    let hole = reserved(0x5000, 0x1000);
    let first = PhysicalMemory::from_regions(&[hole, available(0x4000, 0x4000)]);
    let second = PhysicalMemory::from_regions(&[available(0x4000, 0x4000), hole]);
    assert_eq!(free_frames(&first), vec![4, 6, 7]);
    assert_eq!(free_frames(&second), vec![4, 6, 7]);
}

#[test]
fn empty_reserved_region_takes_nothing() {
    let memory = PhysicalMemory::from_regions(&[available(0x4000, 0x2000), reserved(0x4800, 0)]);
    assert_eq!(free_frames(&memory), vec![4, 5]);
}

#[test]
fn memory_above_the_addressable_range_is_ignored() {
    let regions = [available(0xFFFF_E000, 0x1_0000_0000), available(0x2_0000_0000, 0x1000_0000)];
    let memory = PhysicalMemory::from_regions(&regions);
    assert_eq!(free_frames(&memory), vec![0xF_FFFE, 0xF_FFFF]);
}

#[test]
fn region_that_ends_past_the_last_address_is_handled() {
    let memory = PhysicalMemory::from_regions(&[available(u64::MAX - 0xFFF, u64::MAX)]);
    assert!(free_frames(&memory).is_empty());
    let memory = PhysicalMemory::from_regions(&[available(0xFFFF_F000, u64::MAX)]);
    assert_eq!(free_frames(&memory), vec![0xF_FFFF]);
}

#[test]
fn overlapping_available_regions_count_once() {
    let regions = [available(0x8000, 0x3000), available(0x9000, 0x3000)];
    let memory = PhysicalMemory::from_regions(&regions);
    assert_eq!(free_frames(&memory), vec![8, 9, 10, 11]);
}

#[test]
fn find_free_returns_the_lowest_run() {
    let regions = [available(0x2000, 0x2000), available(0x6000, 0x3000), available(0xA000, 0x5000)];
    let memory = PhysicalMemory::from_regions(&regions);
    // Free: 2, 3, 6, 7, 8, 10..15.
    assert_eq!(memory.find_free(0), Some(0));
    assert_eq!(memory.find_free(1), Some(2));
    assert_eq!(memory.find_free(2), Some(2));
    assert_eq!(memory.find_free(3), Some(6));
    assert_eq!(memory.find_free(4), Some(10));
    assert_eq!(memory.find_free(5), Some(10));
    assert_eq!(memory.find_free(6), None);
}

#[test]
fn find_free_reaches_the_last_frame() {
    let memory = PhysicalMemory::from_regions(&[available(0xFFFF_C000, 0x4000)]);
    assert_eq!(memory.find_free(4), Some(0xF_FFFC));
    assert_eq!(memory.find_free(5), None);
    assert_eq!(memory.find_free(usize::MAX), None);
}

#[test]
fn find_free_is_a_pure_query() {
    let memory = PhysicalMemory::from_regions(&[available(0x2000, 0x8000)]);
    let before = free_frames(&memory);
    assert_eq!(memory.find_free(3), memory.find_free(3));
    assert_eq!(free_frames(&memory), before);
}

#[test]
fn mark_used_takes_exactly_the_run() {
    let mut memory = PhysicalMemory::from_regions(&[available(0x2000, 0x8000)]);
    memory.mark_used(4, 3);
    assert_eq!(free_frames(&memory), vec![2, 3, 7, 8, 9]);
    assert_eq!(memory.find_free(3), Some(7));
    memory.mark_used(9, 0);
    assert_eq!(free_frames(&memory), vec![2, 3, 7, 8, 9]);
}

#[test]
fn mark_free_gives_exactly_the_run_back() {
    let mut memory = PhysicalMemory::from_regions(&[available(0x2000, 0x8000)]);
    memory.mark_used(4, 3);
    memory.mark_free(5, 1);
    assert_eq!(free_frames(&memory), vec![2, 3, 5, 7, 8, 9]);
    memory.mark_free(4, 3);
    assert_eq!(free_frames(&memory), vec![2, 3, 4, 5, 6, 7, 8, 9]);
    memory.mark_free(0xF_FFFF, 1);
    assert!(memory.is_free(0xF_FFFF));
}

#[test]
fn frames_outside_the_tracked_range_are_never_free() {
    let mut memory = PhysicalMemory::new();
    memory.mark_free(0, FRAME_COUNT);
    assert!(memory.is_free(FRAME_COUNT - 1));
    assert!(!memory.is_free(FRAME_COUNT));
    assert!(!memory.is_free(usize::MAX));
    assert_eq!(memory.find_free(FRAME_COUNT), Some(0));
    assert_eq!(memory.find_free(FRAME_COUNT + 1), None);
}
