use meerkat::layout::{ENTRIES, FRAME_COUNT, PAGE_LIMIT};
use meerkat::{MemoryRegion, PageDirectory, PhysicalMemory, RegionKind, VirtualMemory};

/// An empty address space over the frames `[first, first + count)`.
fn memory_with_frames(first: usize, count: usize) -> VirtualMemory {
    let region = MemoryRegion {
        base: (first as u64) * 4096,
        length: (count as u64) * 4096,
        kind: RegionKind::Available,
    };
    VirtualMemory::new(PhysicalMemory::from_regions(&[region]), PageDirectory::new())
}

fn free_frame_count(memory: &VirtualMemory) -> usize {
    (0..FRAME_COUNT).filter(|&frame| memory.phys_mem().is_free(frame)).count()
}

fn mapped_pages(memory: &VirtualMemory) -> Vec<(usize, usize)> {
    (0..ENTRIES * ENTRIES)
        .filter_map(|page| memory.root().translate(page).map(|frame| (page, frame)))
        .collect()
}

#[test]
fn boot_scenario_with_one_usable_region() {
    let region = MemoryRegion { base: 0x10_0000, length: 0x10_0000, kind: RegionKind::Available };
    let phys_mem = PhysicalMemory::from_regions(&[region]);
    let mut memory = VirtualMemory::new(phys_mem, PageDirectory::new());
    assert_eq!(free_frame_count(&memory), 256);

    assert_eq!(memory.allocate_contiguous(4), Some((1, 0x100)));
    assert_eq!(free_frame_count(&memory), 252);
    for frame in 0x100..0x104 {
        assert!(!memory.phys_mem().is_free(frame));
    }

    memory.free(1, 4);
    assert_eq!(free_frame_count(&memory), 256);
    for frame in 0x100..0x104 {
        assert!(memory.phys_mem().is_free(frame));
    }

    assert_eq!(memory.allocate_contiguous(300), None);
    assert_eq!(free_frame_count(&memory), 256);
    assert!(mapped_pages(&memory).is_empty());
}

#[test]
fn allocate_then_free_restores_the_state() {
    for n in [0usize, 1, 2, 7, 64] {
        let mut memory = memory_with_frames(0x400, 64);
        assert_eq!(memory.allocate(3), Some(1));
        let frames_before = free_frame_count(&memory);
        let pages_before = mapped_pages(&memory);

        let page_start = memory.allocate(n);
        let page_start = match page_start {
            Some(page_start) => page_start,
            None => {
                assert!(n > 61);
                continue;
            }
        };
        assert_eq!(page_start, if n == 0 { 1 } else { 4 });
        assert_eq!(free_frame_count(&memory), frames_before - n);
        memory.free(page_start, n);

        assert_eq!(free_frame_count(&memory), frames_before);
        assert_eq!(mapped_pages(&memory), pages_before);
        assert_eq!(memory.allocate(n), Some(page_start));
    }
}

#[test]
fn page_search_is_a_pure_query() {
    let mut memory = memory_with_frames(0x400, 64);
    memory.allocate(5);
    let frames = free_frame_count(&memory);
    let pages = mapped_pages(&memory);
    for n in [0usize, 1, 5, 2000, PAGE_LIMIT, usize::MAX] {
        assert_eq!(memory.find_free(n), memory.find_free(n));
    }
    assert_eq!(free_frame_count(&memory), frames);
    assert_eq!(mapped_pages(&memory), pages);
    assert!(memory.root().table_ref(1).is_none());
}

#[test]
fn allocation_maps_pages_to_frames_in_order() {
    let mut memory = memory_with_frames(0x2000, 3000);
    assert_eq!(memory.allocate_contiguous(10), Some((1, 0x2000)));
    let (page_start, frame_start) = memory.allocate_contiguous(2500).expect("frames are left");
    assert_eq!((page_start, frame_start), (11, 0x200A));
    for i in 0..2500 {
        assert_eq!(memory.root().translate(page_start + i), Some(frame_start + i));
    }
    assert_eq!(memory.root().translate(page_start + 2500), None);
    assert_eq!(mapped_pages(&memory).len(), 2510);
}

#[test]
fn allocation_takes_exactly_the_free_frames_and_no_more() {
    let k = 37;
    let mut memory = memory_with_frames(0x500, k);
    assert_eq!(memory.allocate(k), Some(1));
    assert_eq!(free_frame_count(&memory), 0);

    let mut memory = memory_with_frames(0x500, k);
    assert_eq!(memory.allocate(k + 1), None);
    assert_eq!(free_frame_count(&memory), k);
    for frame in 0x500..0x500 + k {
        assert!(memory.phys_mem().is_free(frame));
    }
    assert!(mapped_pages(&memory).is_empty());
    assert!(memory.root().table_ref(0).is_none());
}

#[test]
fn scattered_free_frames_do_not_make_a_run() {
    let regions = [
        MemoryRegion { base: 0x1000, length: 0x1000, kind: RegionKind::Available },
        MemoryRegion { base: 0x3000, length: 0x1000, kind: RegionKind::Available },
    ];
    let phys_mem = PhysicalMemory::from_regions(&regions);
    let mut memory = VirtualMemory::new(phys_mem, PageDirectory::new());
    assert_eq!(free_frame_count(&memory), 2);
    assert_eq!(memory.allocate(2), None);
    assert_eq!(free_frame_count(&memory), 2);
    assert_eq!(memory.allocate_contiguous(1), Some((1, 1)));
    assert_eq!(memory.allocate_contiguous(1), Some((2, 3)));
}

#[test]
fn missing_table_reads_like_an_empty_one() {
    let mut bare = memory_with_frames(0x400, 16);
    let mut root = PageDirectory::new();
    root.table_create(0);
    root.table_create(2);
    let region = MemoryRegion { base: 0x40_0000, length: 0x1_0000, kind: RegionKind::Available };
    let mut installed = VirtualMemory::new(PhysicalMemory::from_regions(&[region]), root);

    for n in [0usize, 1, 1023, 1024, 1025, 3000, PAGE_LIMIT - 1, PAGE_LIMIT] {
        assert_eq!(bare.find_free(n), installed.find_free(n));
    }
    assert_eq!(bare.allocate_contiguous(9), installed.allocate_contiguous(9));
    assert_eq!(mapped_pages(&bare), mapped_pages(&installed));
    assert_eq!(bare.find_free(2000), installed.find_free(2000));
}

#[test]
fn page_zero_is_never_handed_out() {
    let mut memory = memory_with_frames(0, 8);
    assert_eq!(memory.find_free(0), Some(1));
    assert_eq!(memory.find_free(1), Some(1));
    assert_eq!(memory.allocate(1), Some(1));
    assert_eq!(memory.root().translate(0), None);
    assert_eq!(memory.root().translate(1), Some(0));
}

#[test]
fn search_does_not_run_past_a_missing_table_into_a_used_page() {
    // Table 0 is missing and the first page of table 1 is mapped: the pages
    // 1..1024 are free, no more. A run of 1024 has to start behind page 1024.
    let mut root = PageDirectory::new();
    root.table_create(1).entry_mut(0).map(5);
    let memory = VirtualMemory::new(PhysicalMemory::new(), root);
    assert_eq!(memory.find_free(1023), Some(1));
    assert_eq!(memory.find_free(1024), Some(1025));
    assert_eq!(memory.find_free(2), Some(1));
}

#[test]
fn search_restarts_behind_a_used_page() {
    let mut root = PageDirectory::new();
    root.table_create(0).entry_mut(3).map(5);
    root.table_create(0).entry_mut(6).map(5);
    let memory = VirtualMemory::new(PhysicalMemory::new(), root);
    assert_eq!(memory.find_free(1), Some(1));
    assert_eq!(memory.find_free(2), Some(1));
    assert_eq!(memory.find_free(3), Some(7));
    assert_eq!(memory.find_free(1017), Some(7));
    assert_eq!(memory.find_free(1018), Some(7));
}

#[test]
fn search_stops_at_the_largest_page_index() {
    let memory = memory_with_frames(0, 1);
    assert_eq!(memory.find_free(PAGE_LIMIT - 1), Some(1));
    assert_eq!(memory.find_free(PAGE_LIMIT), None);
    assert_eq!(memory.find_free(usize::MAX), None);

    let mut root = PageDirectory::new();
    root.table_create(0).entry_mut(1).map(0);
    let memory = VirtualMemory::new(PhysicalMemory::new(), root);
    assert_eq!(memory.find_free(PAGE_LIMIT - 2), Some(2));
    assert_eq!(memory.find_free(PAGE_LIMIT - 1), None);
}

#[test]
fn map_installs_given_frames_without_touching_their_state() {
    let mut memory = memory_with_frames(0x100, 4);
    assert_eq!(memory.map(0xF_0000, 3), Some(1));
    assert_eq!(memory.map(0x101, 2), Some(4));
    assert_eq!(
        mapped_pages(&memory),
        vec![(1, 0xF_0000), (2, 0xF_0001), (3, 0xF_0002), (4, 0x101), (5, 0x102)]
    );
    assert_eq!(free_frame_count(&memory), 4);
    // A run of no pages is found at once, and nothing is mapped.
    assert_eq!(memory.map(7, 0), Some(1));
    assert_eq!(mapped_pages(&memory).len(), 5);
    assert_eq!(memory.map(FRAME_COUNT - 1, 1), Some(6));
    assert_eq!(memory.root().translate(6), Some(FRAME_COUNT - 1));
}

#[test]
fn map_reports_a_full_address_space_and_changes_nothing() {
    let mut memory = memory_with_frames(0, 0);
    assert_eq!(memory.map(0, PAGE_LIMIT - 1), Some(1));
    assert_eq!(memory.root().translate(PAGE_LIMIT - 1), Some(PAGE_LIMIT - 2));
    assert_eq!(memory.root().translate(PAGE_LIMIT), None);
    assert_eq!(memory.map(0, 1), None);
    assert_eq!(memory.find_free(0), Some(1));
    assert_eq!(memory.root().translate(PAGE_LIMIT), None);
    assert_eq!(memory.root().translate(0), None);
}

#[test]
fn frames_stay_used_when_no_page_is_left() {
    let mut memory = memory_with_frames(0x100, 16);
    assert_eq!(memory.map(0, PAGE_LIMIT - 1), Some(1));
    assert_eq!(memory.allocate_contiguous(2), None);
    assert_eq!(free_frame_count(&memory), 14);
    assert!(!memory.phys_mem().is_free(0x100));
    assert!(!memory.phys_mem().is_free(0x101));
    assert!(memory.phys_mem().is_free(0x102));
}

#[test]
fn allocate_returns_the_page_of_allocate_contiguous() {
    let mut one = memory_with_frames(0x300, 32);
    let mut two = memory_with_frames(0x300, 32);
    for n in [1usize, 4, 0, 9, 40, 18] {
        let pair = one.allocate_contiguous(n);
        assert_eq!(two.allocate(n), pair.map(|(page_start, _)| page_start));
    }
    assert_eq!(mapped_pages(&one), mapped_pages(&two));
    assert_eq!(free_frame_count(&one), free_frame_count(&two));
}

#[test]
fn free_releases_one_frame_per_page() {
    let mut memory = memory_with_frames(0x100, 16);
    assert_eq!(memory.allocate_contiguous(6), Some((1, 0x100)));
    memory.free(3, 2);
    assert_eq!(mapped_pages(&memory), vec![(1, 0x100), (2, 0x101), (5, 0x104), (6, 0x105)]);
    assert!(memory.phys_mem().is_free(0x102));
    assert!(memory.phys_mem().is_free(0x103));
    assert!(!memory.phys_mem().is_free(0x101));
    assert!(!memory.phys_mem().is_free(0x104));
    assert!(memory.root().table_ref(0).is_some());
    // The gap is found again, pages first, frames first.
    assert_eq!(memory.allocate_contiguous(2), Some((3, 0x102)));
    assert_eq!(memory.allocate_contiguous(3), Some((7, 0x106)));
}

#[test]
fn free_across_a_table_boundary() {
    let mut memory = memory_with_frames(0x1000, 2048);
    assert_eq!(memory.allocate_contiguous(1500), Some((1, 0x1000)));
    memory.free(1020, 10);
    for page in 1020..1030 {
        assert_eq!(memory.root().translate(page), None);
    }
    assert_eq!(memory.root().translate(1019), Some(0x1000 + 1018));
    assert_eq!(memory.root().translate(1030), Some(0x1000 + 1029));
    assert_eq!(memory.find_free(10), Some(1020));
    assert_eq!(memory.find_free(11), Some(1501));
}

#[test]
fn mapped_run_tells_what_may_be_freed() {
    let mut memory = memory_with_frames(0x100, 16);
    assert_eq!(memory.allocate(4), Some(1));
    assert!(memory.mapped_run(1, 4));
    assert!(memory.mapped_run(2, 2));
    assert!(memory.mapped_run(9, 0));
    assert!(memory.mapped_run(usize::MAX, 0));
    assert!(!memory.mapped_run(0, 1));
    assert!(!memory.mapped_run(1, 5));
    assert!(!memory.mapped_run(5, 1));
    assert!(!memory.mapped_run(2048, 1));
    assert!(!memory.mapped_run(ENTRIES * ENTRIES, 1));
    assert!(!memory.mapped_run(1, usize::MAX));
    assert!(!memory.mapped_run(usize::MAX, 2));
}

#[test]
fn alloc_bytes_takes_whole_pages() {
    let mut memory = memory_with_frames(0x100, 8);
    assert_eq!(memory.alloc_bytes(1), 0x1000);
    assert_eq!(memory.alloc_bytes(4096), 0x2000);
    assert_eq!(memory.alloc_bytes(4097), 0x3000);
    assert_eq!(memory.alloc_bytes(100), 0x5000);
    assert_eq!(free_frame_count(&memory), 3);
    assert_eq!(mapped_pages(&memory).len(), 5);
}

#[test]
fn alloc_bytes_returns_null_when_memory_is_short() {
    let mut memory = memory_with_frames(0x100, 2);
    assert_eq!(memory.alloc_bytes(3 * 4096), 0);
    assert_eq!(free_frame_count(&memory), 2);
    assert!(mapped_pages(&memory).is_empty());
    assert_eq!(memory.alloc_bytes(2 * 4096), 0x1000);
    assert_eq!(memory.alloc_bytes(1), 0);
    assert_eq!(memory.alloc_bytes(usize::MAX), 0);
}

#[test]
fn dealloc_frees_what_alloc_bytes_took() {
    let mut memory = memory_with_frames(0x100, 8);
    let first = memory.alloc_bytes(5000);
    let second = memory.alloc_bytes(10);
    assert_eq!((first, second), (0x1000, 0x3000));
    memory.dealloc(first, 5000);
    assert_eq!(mapped_pages(&memory), vec![(3, 0x102)]);
    assert_eq!(free_frame_count(&memory), 7);
    assert_eq!(memory.alloc_bytes(8192), 0x1000);
    memory.dealloc(second, 10);
    assert_eq!(mapped_pages(&memory), vec![(1, 0x100), (2, 0x101)]);
}

#[test]
fn low_physical_memory_is_identity_mapped() {
    let mut memory = memory_with_frames(0x100, 8);
    assert_eq!(memory.map_physical_region(0, 64), Some(0));
    assert_eq!(memory.map_physical_region(0xE_0123, 36), Some(0xE_0123));
    assert_eq!(memory.map_physical_region(0x3F_FFFF, 0x2000), Some(0x3F_FFFF));
    assert!(mapped_pages(&memory).is_empty());
    assert_eq!(free_frame_count(&memory), 8);
}

#[test]
fn high_physical_memory_is_mapped_with_its_offset() {
    let mut memory = memory_with_frames(0x100, 8);
    assert_eq!(memory.map_physical_region(0x40_0000, 1), Some(0x1000));
    assert_eq!(memory.map_physical_region(0x7FE_1234, 0x100), Some(0x2234));
    assert_eq!(mapped_pages(&memory), vec![(1, 0x400), (2, 0x7FE1)]);
    // Frames are mapped as they are given: their state does not change.
    assert_eq!(free_frame_count(&memory), 8);
}

#[test]
fn mapped_region_covers_every_byte_asked_for() {
    let mut memory = memory_with_frames(0x100, 8);
    // 36 bytes that begin 16 bytes before the end of a frame lie in two frames.
    assert_eq!(memory.map_physical_region(0x7FE_1FF0, 36), Some(0x1FF0));
    assert_eq!(mapped_pages(&memory), vec![(1, 0x7FE1), (2, 0x7FE2)]);
    assert_eq!(memory.map_physical_region(0x8000_0000, 0x3000), Some(0x3000));
    assert_eq!(memory.map_physical_region(0x8000_0800, 0x3000), Some(0x6800));
    assert_eq!(mapped_pages(&memory).len(), 2 + 3 + 4);
    assert_eq!(memory.map_physical_region(0xFFFF_F000, 0x1000), Some(0xA000));
    assert_eq!(memory.root().translate(10), Some(0xF_FFFF));
}

#[test]
fn map_physical_region_reports_a_full_address_space() {
    let mut memory = memory_with_frames(0x100, 8);
    assert_eq!(memory.map(0, PAGE_LIMIT - 1), Some(1));
    assert_eq!(memory.map_physical_region(0x40_0000, 1), None);
    assert_eq!(memory.map_physical_region(0x1000, 1), Some(0x1000));
}

#[test]
fn allocation_and_freeing_keep_frames_and_pages_in_agreement() {
    let mut memory = memory_with_frames(0x200, 40);
    let mut held: Vec<(usize, usize)> = Vec::new();
    for (step, n) in [3usize, 1, 8, 2, 5, 13, 1, 4].into_iter().enumerate() {
        if let Some((page_start, _)) = memory.allocate_contiguous(n) {
            held.push((page_start, n));
        }
        if step % 3 == 2 {
            let (page_start, n) = held.remove(0);
            memory.free(page_start, n);
        }
        let mapped = mapped_pages(&memory);
        for (_, frame) in &mapped {
            assert!(!memory.phys_mem().is_free(*frame));
        }
        let mut frames: Vec<usize> = mapped.iter().map(|(_, frame)| *frame).collect();
        frames.sort();
        frames.dedup();
        assert_eq!(frames.len(), mapped.len());
        assert_eq!(free_frame_count(&memory) + mapped.len(), 40);
    }
}

#[test]
fn empty_request_takes_no_page() {
    let mut memory = memory_with_frames(0x200, 4);
    assert_eq!(memory.allocate_contiguous(0), Some((1, 0)));
    assert_eq!(memory.allocate(0), Some(1));
    assert_eq!(memory.alloc_bytes(0), 0x1000);
    memory.free(1, 0);
    memory.dealloc(0x1000, 0);
    assert!(mapped_pages(&memory).is_empty());
    assert_eq!(free_frame_count(&memory), 4);
    assert!(memory.root().table_ref(0).is_none());
}

#[test]
fn tables_are_created_on_first_use_and_kept() {
    let mut memory = memory_with_frames(0x1000, 3000);
    assert!((0..ENTRIES).all(|index| memory.root().table_ref(index).is_none()));
    assert_eq!(memory.allocate(1), Some(1));
    assert!(memory.root().table_ref(0).is_some());
    assert!(memory.root().table_ref(1).is_none());
    assert_eq!(memory.allocate(2500), Some(2));
    assert!(memory.root().table_ref(1).is_some());
    assert!(memory.root().table_ref(2).is_some());
    assert!(memory.root().table_ref(3).is_none());
    memory.free(1, 2501);
    assert!(mapped_pages(&memory).is_empty());
    assert!(memory.root().table_ref(0).is_some());
    assert!(memory.root().table_ref(1).is_some());
    assert!(memory.root().table_ref(2).is_some());
    assert_eq!(memory.find_free(1), Some(1));
}
