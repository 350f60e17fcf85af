//! The two-level page table: a directory of lazily created tables, each an
//! array of entries that are either free or hold a frame.

use vstd::prelude::*;
use crate::layout::{
    directory_index, entry_of, index_of, slot_of, table_index, ENTRIES, FRAME_COUNT, PAGE_COUNT,
};

verus! {

/// What a page table holds: for each entry the frame installed in it, if any.
pub type TableView = Seq<Option<int>>;

/// What the page directory holds: for each slot the table installed in it,
/// if any.
pub type DirectoryView = Seq<Option<TableView>>;

/// A table in which every entry is free.
pub open spec fn empty_table() -> TableView {
    Seq::new(ENTRIES as nat, |i: int| None::<int>)
}

/// A directory in which no table is installed.
pub open spec fn empty_directory() -> DirectoryView {
    Seq::new(ENTRIES as nat, |i: int| None::<TableView>)
}

/// The directory has one slot per table and every installed table is full
/// size.
pub open spec fn directory_wf(directory: DirectoryView) -> bool {
    &&& directory.len() == ENTRIES
    &&& forall|i: int|
        0 <= i < ENTRIES ==> ((#[trigger] directory[i]) matches Some(table) ==> table.len()
            == ENTRIES)
}

/// The slots of the directory that hold a table.
pub open spec fn installed_slots(directory: DirectoryView) -> Set<int> {
    Set::new(|index: int| 0 <= index < directory.len() && directory[index] is Some)
}

/// The slots of the directory whose tables cover the pages
/// `[page_start, page_start + n)`.
pub open spec fn covering_slots(page_start: int, n: int) -> Set<int> {
    Set::new(
        |index: int|
            exists|page: int| page_start <= page < page_start + n && slot_of(page) == index,
    )
}

/// The slots that hold a table once a run of `n` pages has been mapped at
/// `mapped`: those that held one before and those that cover the run. Where
/// nothing was mapped they are the same as before.
pub open spec fn slots_after_mapping(
    installed: Set<int>,
    mapped: Option<int>,
    n: int,
) -> Set<int> {
    match mapped {
        Some(page_start) => installed.union(covering_slots(page_start, n)),
        None => installed,
    }
}

/// The table in slot `index`, or an empty one where the slot holds none.
pub open spec fn table_or_empty(directory: DirectoryView, index: int) -> TableView {
    match directory[index] {
        Some(table) => table,
        None => empty_table(),
    }
}

/// The frame that `page` is mapped to. A page whose slot holds no table is
/// unmapped, exactly like a page whose entry is free.
pub open spec fn lookup(directory: DirectoryView, page: int) -> Option<int> {
    if 0 <= page < PAGE_COUNT {
        match directory[slot_of(page)] {
            Some(table) => table[entry_of(page)],
            None => None,
        }
    } else {
        None
    }
}

/// The mapped pages, each with its frame.
pub open spec fn mappings(directory: DirectoryView) -> Map<int, int> {
    Map::new(
        |page: int| lookup(directory, page) is Some,
        |page: int| lookup(directory, page).unwrap(),
    )
}

/// The directory after the entry for `page` has been set to `slot`, with the
/// covering table created where it was missing.
pub open spec fn with_entry(
    directory: DirectoryView,
    page: int,
    slot: Option<int>,
) -> DirectoryView {
    directory.update(
        slot_of(page),
        Some(table_or_empty(directory, slot_of(page)).update(entry_of(page), slot)),
    )
}

/// One page more is covered by the slots that covered the pages before it
/// and by its own slot.
pub proof fn lemma_covering_slots_step(page_start: int, n: int)
    requires
        0 <= n,
    ensures
        covering_slots(page_start, n + 1) == covering_slots(page_start, n).insert(
            slot_of(page_start + n),
        ),
{
    let more = covering_slots(page_start, n + 1);
    let fewer = covering_slots(page_start, n).insert(slot_of(page_start + n));
    assert forall|index: int| more.contains(index) <==> fewer.contains(index) by {
        if more.contains(index) {
            let page = choose|page: int|
                page_start <= page < page_start + n + 1 && slot_of(page) == index;
            if page < page_start + n {
                assert(covering_slots(page_start, n).contains(index));
            }
        }
        if covering_slots(page_start, n).contains(index) {
            let page = choose|page: int|
                page_start <= page < page_start + n && slot_of(page) == index;
            assert(page_start <= page < page_start + n + 1 && slot_of(page) == index);
        }
        if index == slot_of(page_start + n) {
            assert(page_start <= page_start + n < page_start + n + 1 && slot_of(page_start + n)
                == index);
        }
    }
    assert(more =~= fewer);
}

/// Installing an empty table in an empty slot maps and unmaps nothing.
pub proof fn lemma_empty_table_maps_nothing(directory: DirectoryView, index: int)
    requires
        directory_wf(directory),
        0 <= index < ENTRIES,
        directory[index] is None,
    ensures
        directory_wf(directory.update(index, Some(empty_table()))),
        mappings(directory.update(index, Some(empty_table()))) == mappings(directory),
        installed_slots(directory.update(index, Some(empty_table()))) == installed_slots(
            directory,
        ).insert(index),
{
    let installed = directory.update(index, Some(empty_table()));
    assert forall|page: int| lookup(installed, page) == lookup(directory, page) by {
        if 0 <= page < PAGE_COUNT && slot_of(page) == index {
            assert(0 <= entry_of(page) < ENTRIES);
        }
    }
    assert(mappings(installed) =~= mappings(directory));
    assert(installed_slots(installed) =~= installed_slots(directory).insert(index));
}

/// Setting one entry changes what its page is mapped to, and nothing for any
/// other page.
pub proof fn lemma_with_entry(directory: DirectoryView, page: int, slot: Option<int>)
    requires
        directory_wf(directory),
        0 <= page < PAGE_COUNT,
    ensures
        directory_wf(with_entry(directory, page, slot)),
        installed_slots(with_entry(directory, page, slot)) == installed_slots(directory).insert(
            slot_of(page),
        ),
        forall|other: int|
            lookup(with_entry(directory, page, slot), other) == if other == page {
                slot
            } else {
                lookup(directory, other)
            },
        slot matches Some(frame) ==> mappings(with_entry(directory, page, slot)) == mappings(
            directory,
        ).insert(page, frame),
        slot is None ==> mappings(with_entry(directory, page, slot)) == mappings(directory).remove(
            page,
        ),
{
    let updated = with_entry(directory, page, slot);
    let index = slot_of(page);
    assert(0 <= index < ENTRIES);
    assert(0 <= entry_of(page) < ENTRIES);
    assert forall|other: int|
        lookup(updated, other) == if other == page {
            slot
        } else {
            lookup(directory, other)
        } by {
        if 0 <= other < PAGE_COUNT {
            assert(0 <= entry_of(other) < ENTRIES);
            assert(0 <= slot_of(other) < ENTRIES);
            if slot_of(other) == index && other != page {
                assert(entry_of(other) != entry_of(page));
            }
        }
    }
    assert(installed_slots(updated) =~= installed_slots(directory).insert(index));
    match slot {
        Some(frame) => {
            assert(mappings(updated) =~= mappings(directory).insert(page, frame));
        },
        None => {
            assert(mappings(updated) =~= mappings(directory).remove(page));
        },
    }
}

/// Flags of an entry that holds a frame: present and writable.
const MAPPED: u32 = 3;

/// What the frame index is multiplied by to leave the low bits of an entry
/// to the flags.
const FRAME_SHIFT: u32 = 4096;

/// One entry of a page table. It is free, or it holds the frame that its
/// page is mapped to.
#[derive(Clone, Copy, Debug)]
pub struct PageTableEntry {
    /// The frame index in the upper twenty bits, the flags below. The lowest
    /// flag marks the entry present; an entry that is not present is free.
    raw: u32,
}

impl PageTableEntry {
    /// The frame installed in the entry, if any.
    pub closed spec fn view(&self) -> Option<int> {
        if self.raw % 2 == 1 {
            Some(self.raw as int / FRAME_SHIFT as int)
        } else {
            None
        }
    }

    /// A free entry.
    pub fn new() -> (entry: Self)
        ensures
            entry@ is None,
    {
        PageTableEntry { raw: 0 }
    }

    /// Whether no frame is installed.
    pub fn free(&self) -> (free: bool)
        ensures
            free == (self@ is None),
    {
        self.raw % 2 == 0
    }

    /// The frame installed in the entry, if any.
    pub fn frame(&self) -> (frame: Option<usize>)
        ensures
            index_of(frame) == self@,
            frame matches Some(f) ==> f < FRAME_COUNT,
    {
        if self.raw % 2 == 1 {
            Some((self.raw / FRAME_SHIFT) as usize)
        } else {
            None
        }
    }

    /// Installs `frame` in the entry, which must be free.
    pub fn map(&mut self, frame: usize)
        requires
            old(self)@ is None,
            frame < FRAME_COUNT,
        ensures
            final(self)@ == Some(frame as int),
    {
        self.raw = (frame as u32) * FRAME_SHIFT + MAPPED;
    }

    /// Clears the entry, which must hold a frame, and returns that frame.
    pub fn unmap(&mut self) -> (frame: usize)
        requires
            old(self)@ is Some,
        ensures
            old(self)@ == Some(frame as int),
            frame < FRAME_COUNT,
            final(self)@ is None,
    {
        let frame = (self.raw / FRAME_SHIFT) as usize;
        self.raw = 0;
        frame
    }
}

/// A page table: the entries for 1024 consecutive pages.
pub struct PageTable {
    entries: Vec<PageTableEntry>,
}

impl PageTable {
    /// The frame installed in each entry, if any.
    pub closed spec fn view(&self) -> TableView {
        self.entries@.map_values(|entry: PageTableEntry| entry@)
    }

    /// The table has all its entries.
    pub open spec fn wf(&self) -> bool {
        self@.len() == ENTRIES
    }

    /// A table in which every entry is free.
    pub fn new() -> (table: Self)
        ensures
            table.wf(),
            table@ == empty_table(),
    {
        let table = PageTable { entries: vec![PageTableEntry::new(); ENTRIES] };
        assert(table@ =~= empty_table());
        table
    }

    /// The entry at `index`.
    pub fn entry(&self, index: usize) -> (entry: &PageTableEntry)
        requires
            self.wf(),
            index < ENTRIES,
        ensures
            entry@ == self@[index as int],
    {
        &self.entries[index]
    }

    /// The entry at `index`, for change.
    pub fn entry_mut(&mut self, index: usize) -> (entry: &mut PageTableEntry)
        requires
            old(self).wf(),
            index < ENTRIES,
        ensures
            entry@ == old(self)@[index as int],
            final(self)@ == old(self)@.update(index as int, final(entry)@),
    {
        &mut self.entries[index]
    }
}

/// The page directory: one slot for each table, filled on first use.
pub struct PageDirectory {
    tables: Vec<Option<PageTable>>,
}

impl PageDirectory {
    /// The table installed in each slot, if any.
    pub closed spec fn view(&self) -> DirectoryView {
        self.tables@.map_values(
            |slot: Option<PageTable>|
                match slot {
                    Some(table) => Some(table@),
                    None => None,
                },
        )
    }

    /// The directory has all its slots and every installed table all its
    /// entries.
    pub open spec fn wf(&self) -> bool {
        directory_wf(self@)
    }

    /// A directory with no table installed, in which every page is unmapped.
    pub fn new() -> (directory: Self)
        ensures
            directory.wf(),
            directory@ == empty_directory(),
    {
        let mut tables: Vec<Option<PageTable>> = Vec::new();
        let mut i: usize = 0;
        while i < ENTRIES
            invariant
                i <= ENTRIES,
                tables.len() == i,
                forall|j: int| 0 <= j < i ==> tables[j] is None,
            decreases ENTRIES - i,
        {
            tables.push(None);
            i += 1;
        }
        let directory = PageDirectory { tables };
        assert(directory@ =~= empty_directory());
        directory
    }

    /// The table in slot `index`, if one is installed. None is created.
    pub fn table_ref(&self, index: usize) -> (table: Option<&PageTable>)
        requires
            self.wf(),
            index < ENTRIES,
        ensures
            match table {
                Some(table) => self@[index as int] == Some(table@) && table.wf(),
                None => self@[index as int] is None,
            },
    {
        self.tables[index].as_ref()
    }

    /// The table in slot `index`, for change, if one is installed. None is
    /// created.
    pub fn table(&mut self, index: usize) -> (table: Option<&mut PageTable>)
        requires
            old(self).wf(),
            index < ENTRIES,
        ensures
            match table {
                Some(table) => {
                    &&& old(self)@[index as int] == Some(table@)
                    &&& table.wf()
                    &&& final(self)@ == old(self)@.update(index as int, Some(final(table)@))
                },
                None => old(self)@[index as int] is None && final(self)@ == old(self)@,
            },
    {
        self.tables[index].as_mut()
    }

    /// The table in slot `index`, for change. Where the slot holds none, an
    /// empty table is installed first.
    pub fn table_create(&mut self, index: usize) -> (table: &mut PageTable)
        requires
            old(self).wf(),
            index < ENTRIES,
        ensures
            table@ == table_or_empty(old(self)@, index as int),
            table.wf(),
            final(self)@ == old(self)@.update(index as int, Some(final(table)@)),
    {
        if self.tables[index].is_none() {
            self.tables[index] = Some(PageTable::new());
        }
        self.tables[index].as_mut().unwrap()
    }

    /// The frame that `page` is mapped to, if any.
    pub fn translate(&self, page: usize) -> (frame: Option<usize>)
        requires
            self.wf(),
        ensures
            index_of(frame) == lookup(self@, page as int),
            frame matches Some(f) ==> f < FRAME_COUNT,
    {
        if page >= PAGE_COUNT {
            return None;
        }
        match self.table_ref(directory_index(page)) {
            Some(table) => table.entry(table_index(page)).frame(),
            None => None,
        }
    }
}

} // verus!
