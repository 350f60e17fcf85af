//! Sizes of the address space and the conversions between byte addresses and
//! page or frame indices.

use vstd::prelude::*;

verus! {

/// Bytes in a page and in a frame.
pub const GRANULARITY: usize = 4096;

/// Entries in a page table, and tables in the page directory.
pub const ENTRIES: usize = 1024;

/// Pages in the virtual address space.
pub const PAGE_COUNT: usize = 0x10_0000;

/// Largest page index. A run of allocated pages ends at or below it, so the
/// page with this index is never handed out.
pub const PAGE_LIMIT: usize = 0xF_FFFF;

/// Frames in the addressable physical range.
pub const FRAME_COUNT: usize = 0x10_0000;

/// Last physical address of the low region that is identity-mapped at boot.
pub const IDENTITY_MAPPED_END: usize = 0x003F_FFFF;

/// Number of whole pages needed to hold `bytes` bytes.
pub open spec fn pages_spanning(bytes: int) -> int {
    (bytes + GRANULARITY - 1) / (GRANULARITY as int)
}

/// Index of the frame that holds the byte at `address`.
pub open spec fn frame_of(address: int) -> int {
    address / (GRANULARITY as int)
}

/// How far the byte at `address` lies into its frame or page.
pub open spec fn offset_of(address: int) -> int {
    address % (GRANULARITY as int)
}

/// Number of frames that together hold the `bytes` bytes from `address` on.
pub open spec fn frames_spanning(address: int, bytes: int) -> int {
    pages_spanning(offset_of(address) + bytes)
}

/// Index of the directory slot whose table covers `page`.
pub open spec fn slot_of(page: int) -> int {
    page / (ENTRIES as int)
}

/// Index of the entry for `page` inside the table that covers it.
pub open spec fn entry_of(page: int) -> int {
    page % (ENTRIES as int)
}

/// An index that a search has found, or `None`, as a mathematical integer.
pub open spec fn index_of(found: Option<usize>) -> Option<int> {
    match found {
        Some(index) => Some(index as int),
        None => None,
    }
}

/// A pair of indices that a search has found, or `None`, as mathematical
/// integers.
pub open spec fn indices_of(found: Option<(usize, usize)>) -> Option<(int, int)> {
    match found {
        Some((first, second)) => Some((first as int, second as int)),
        None => None,
    }
}

/// Number of whole pages needed to hold `bytes` bytes: the byte count
/// divided by the page size, rounded up.
pub fn page_count(bytes: usize) -> (pages: usize)
    ensures
        pages == pages_spanning(bytes as int),
        bytes <= pages * GRANULARITY < bytes + GRANULARITY,
{
    if bytes == 0 {
        0
    } else {
        (bytes - 1) / GRANULARITY + 1
    }
}

/// Index of the directory slot whose table covers `page`.
pub fn directory_index(page: usize) -> (index: usize)
    requires
        page < PAGE_COUNT,
    ensures
        index == slot_of(page as int),
        index < ENTRIES,
{
    page / ENTRIES
}

/// Index of the entry for `page` inside the table that covers it.
pub fn table_index(page: usize) -> (index: usize)
    ensures
        index == entry_of(page as int),
        index < ENTRIES,
{
    page % ENTRIES
}

/// Byte address at which `page` starts.
pub fn page_address(page: usize) -> (address: usize)
    requires
        page < PAGE_COUNT,
    ensures
        address == page * GRANULARITY,
{
    page * GRANULARITY
}

/// Index of the first page that starts at or after `address`.
pub fn page_at_or_after(address: usize) -> (page: usize)
    ensures
        page == pages_spanning(address as int),
{
    page_count(address)
}

} // verus!
