//! The host's page tables as a mathematical object: which tables exist and
//! where, what each maps, and what building them step by step does.
//!
//! Tables are named by their level and by a slot. Level 4 is the top table,
//! slot 0; below it, the table behind entry `i` of slot `s` has slot
//! `512 * s + i` one level down. Level 1 tables hold the entries of 4 KiB pages,
//! whose slots are page numbers.

use crate::arch::x86_64::entry::{
    leaf_flags, lemma_huge_entry, lemma_leaf_entry, lemma_leaf_is_present, lemma_table_entry,
    lemma_zero_entry, page_number, split_entry, translation, walk, word, Translation, ADDRESS_MASK,
    HUGE, PHYSICAL_LIMIT, PRESENT, WRITABLE,
};
use crate::arch::x86_64::paging::PagingError;
use crate::boot_alloc::ArenaView;
use crate::uefi::EfiMemoryDescriptor;
use vstd::prelude::*;
use vstd::set_lib::set_int_range;

verus! {

/// Page tables as a tree. The slot of a table is its place among all tables that
/// its level could have.
pub ghost struct PageTree {
    /// The address of each table, by level and slot.
    pub tables: Map<(int, int), u64>,
    /// The entries that map large pages, by slot.
    pub huge: Map<int, u64>,
    /// The entries that map 4 KiB pages, by page number.
    pub small: Map<int, u64>,
}

/// The entry maps a large page with the flags of a leaf.
pub open spec fn is_huge_entry(entry: u64) -> bool {
    exists|address: u64, nx_enabled: bool, executable: bool|
        #![trigger leaf_flags(nx_enabled, executable), address | leaf_flags(nx_enabled, executable)]
        address % 0x20_0000 == 0 && address < PHYSICAL_LIMIT && entry == address | leaf_flags(
            nx_enabled,
            executable,
        ) | HUGE
}

impl PageTree {
    /// The entry for slot `child` in the table above it, which has level `level`.
    pub open spec fn entry(self, level: int, child: int) -> u64 {
        if level == 1 {
            if self.small.contains_key(child) {
                self.small[child]
            } else {
                0
            }
        } else if level == 2 && self.huge.contains_key(child) {
            self.huge[child]
        } else if self.tables.contains_key((level - 1, child)) {
            self.tables[(level - 1, child)] | PRESENT | WRITABLE
        } else {
            0
        }
    }

    /// The entry that maps a page, as if every large page had been split.
    pub open spec fn leaf(self, page: int) -> Option<u64> {
        if self.small.contains_key(page) {
            Some(self.small[page])
        } else if self.huge.contains_key(page / 512) {
            Some(split_entry(self.huge[page / 512], page % 512))
        } else {
            None
        }
    }

    /// The pages that are mapped.
    pub open spec fn mapped_pages(self) -> Set<int> {
        Set::new(|page: int| 0 <= page < 0x10_0000_0000 && self.leaf(page) is Some)
    }

    /// Where the tables lead an address.
    pub open spec fn translate(self, address: u64) -> Option<Translation> {
        match self.leaf(page_number(address)) {
            Some(entry) => Some(translation(entry, 4096, address, true, false)),
            None => None,
        }
    }

    /// The words of the table of this level and slot are in memory.
    pub open spec fn table_is_in(self, memory: Map<int, u64>, level: int, slot: int) -> bool {
        let table = self.tables[(level, slot)];
        forall|index: int|
            0 <= index < 512 ==> #[trigger] word(memory, table, index) == self.entry(
                level,
                slot * 512 + index,
            )
    }

    /// The words of every table are in memory.
    pub open spec fn is_in(self, memory: Map<int, u64>) -> bool {
        forall|level: int, slot: int| #[trigger]
            self.tables.contains_key((level, slot)) ==> self.table_is_in(memory, level, slot)
    }

    /// The tables hang together, lie in separate pages between `low` and
    /// `high`, and map nothing twice.
    pub open spec fn wf(self, low: int, high: int) -> bool {
        &&& self.tables.contains_key((4, 0))
        &&& forall|level: int, slot: int| #[trigger]
            self.tables.contains_key((level, slot)) ==> {
                &&& 1 <= level <= 4
                &&& 0 <= slot < slots(level)
                &&& level < 4 ==> self.tables.contains_key((level + 1, slot / 512))
                &&& self.tables[(level, slot)] % 4096 == 0
                &&& low <= self.tables[(level, slot)]
                &&& self.tables[(level, slot)] + 4096 <= high
            }
        &&& forall|one: (int, int), two: (int, int)|
            #![trigger self.tables[one], self.tables[two]]
            self.tables.contains_key(one) && self.tables.contains_key(two) && one != two
                ==> self.tables[one] != self.tables[two]
        &&& forall|slot: int| #[trigger]
            self.huge.contains_key(slot) ==> {
                &&& 0 <= slot < slots(1)
                &&& self.tables.contains_key((2, slot / 512))
                &&& !self.tables.contains_key((1, slot))
                &&& is_huge_entry(self.huge[slot])
            }
        &&& forall|page: int| #[trigger]
            self.small.contains_key(page) ==> {
                &&& 0 <= page < slots(0)
                &&& self.tables.contains_key((1, page / 512))
                &&& self.small[page] & PRESENT != 0
            }
    }
}

/// How many slots there are at a level.
pub open spec fn slots(level: int) -> int {
    if level == 0 {
        0x10_0000_0000
    } else if level == 1 {
        0x800_0000
    } else if level == 2 {
        0x4_0000
    } else if level == 3 {
        512
    } else {
        1
    }
}

/// The construction of page tables: what has been built, what is left of the
/// arena, and the count of pages mapped.
pub ghost struct HostPaging {
    pub tree: PageTree,
    pub arena: ArenaView,
    pub mapped: int,
}

impl HostPaging {
    /// An arena page as the new table of this level and slot, unless the slot
    /// has a table already. A slot that maps a large page can have none.
    pub open spec fn with_table(self, level: int, slot: int) -> (HostPaging, Option<PagingError>) {
        if level == 1 && self.tree.huge.contains_key(slot) {
            (self, Some(PagingError::MappingConflict))
        } else if self.tree.tables.contains_key((level, slot)) {
            (self, None)
        } else {
            match self.arena.allocate_pages(1) {
                (arena, None) => (
                    HostPaging { arena, ..self },
                    Some(PagingError::ArenaExhausted),
                ),
                (arena, Some(table)) => (
                    HostPaging {
                        tree: PageTree {
                            tables: self.tree.tables.insert((level, slot), table),
                            ..self.tree
                        },
                        arena,
                        ..self
                    },
                    None,
                ),
            }
        }
    }

    /// Tables down to level 2 for a page.
    pub open spec fn with_directory(self, page: int) -> (HostPaging, Option<PagingError>) {
        match self.with_table(3, page / 0x800_0000) {
            (next, Some(error)) => (next, Some(error)),
            (next, None) => next.with_table(2, page / 0x4_0000),
        }
    }

    /// Maps the 4 KiB page that `address` lies in.
    pub open spec fn map_4k(self, address: u64, flags: u64) -> (HostPaging, Option<PagingError>) {
        let page = page_number(address);
        match self.with_directory(page) {
            (next, Some(error)) => (next, Some(error)),
            (next, None) => match next.with_table(1, page / 512) {
                (next, Some(error)) => (next, Some(error)),
                (next, None) => if next.tree.small.contains_key(page) {
                    (next, Some(PagingError::MappingConflict))
                } else {
                    (
                        HostPaging {
                            tree: PageTree {
                                small: next.tree.small.insert(page, address | flags),
                                ..next.tree
                            },
                            mapped: next.mapped + 1,
                            ..next
                        },
                        None,
                    )
                },
            },
        }
    }

    /// Maps the large page that `address` lies in.
    pub open spec fn map_2m(self, address: u64, flags: u64) -> (HostPaging, Option<PagingError>) {
        let page = page_number(address);
        match self.with_directory(page) {
            (next, Some(error)) => (next, Some(error)),
            (next, None) => {
                let slot = page / 512;
                if next.tree.huge.contains_key(slot) || next.tree.tables.contains_key((1, slot)) {
                    (next, Some(PagingError::MappingConflict))
                } else {
                    (
                        HostPaging {
                            tree: PageTree {
                                huge: next.tree.huge.insert(slot, address | flags | HUGE),
                                ..next.tree
                            },
                            mapped: next.mapped + 512,
                            ..next
                        },
                        None,
                    )
                }
            },
        }
    }

    /// Maps the pages from `address` up to `end`, by large pages where one
    /// starts and fits.
    pub open spec fn map_range(self, address: u64, end: u64, flags: u64) -> (
        HostPaging,
        Option<PagingError>,
    )
        decreases end - address,
    {
        if address >= end {
            (self, None)
        } else if address % 0x20_0000 == 0 && end - address >= 0x20_0000 {
            match self.map_2m(address, flags) {
                (next, Some(error)) => (next, Some(error)),
                (next, None) => next.map_range((address + 0x20_0000) as u64, end, flags),
            }
        } else {
            match self.map_4k(address, flags) {
                (next, Some(error)) => (next, Some(error)),
                (next, None) => if address + 4096 >= end {
                    (next, None)
                } else {
                    next.map_range((address + 4096) as u64, end, flags)
                },
            }
        }
    }

    /// Maps the memory of one descriptor, but for the page at address zero.
    pub open spec fn map_descriptor(self, descriptor: EfiMemoryDescriptor, nx_enabled: bool) -> (
        HostPaging,
        Option<PagingError>,
    ) {
        let end = descriptor.physical_start + descriptor.number_of_pages * 4096;
        if descriptor.number_of_pages == 0 {
            (self, None)
        } else if end > u64::MAX {
            (self, Some(PagingError::AddressOverflow))
        } else if end > PHYSICAL_LIMIT {
            (self, Some(PagingError::PhysicalAddressTooWide))
        } else {
            self.map_range(
                first_mapped(descriptor),
                end as u64,
                leaf_flags(nx_enabled, is_code(descriptor)),
            )
        }
    }

    /// Maps the memory of all descriptors in order, up to the first error.
    pub open spec fn map_all(self, descriptors: Seq<EfiMemoryDescriptor>, nx_enabled: bool) -> (
        HostPaging,
        Option<PagingError>,
    )
        decreases descriptors.len(),
    {
        if descriptors.len() == 0 {
            (self, None)
        } else {
            match self.map_all(descriptors.drop_last(), nx_enabled) {
                (next, Some(error)) => (next, Some(error)),
                (next, None) => next.map_descriptor(descriptors.last(), nx_enabled),
            }
        }
    }

    /// Splits the large page in a slot into 4 KiB pages.
    pub open spec fn split(self, slot: int) -> (HostPaging, Option<PagingError>) {
        match self.arena.allocate_pages(1) {
            (arena, None) => (HostPaging { arena, ..self }, Some(PagingError::ArenaExhausted)),
            (arena, Some(table)) => (
                HostPaging {
                    tree: PageTree {
                        tables: self.tree.tables.insert((1, slot), table),
                        huge: self.tree.huge.remove(slot),
                        small: Map::new(
                            |page: int|
                                self.tree.small.contains_key(page) || 512 * slot <= page < 512
                                    * slot + 512,
                            |page: int|
                                if 512 * slot <= page < 512 * slot + 512 {
                                    split_entry(self.tree.huge[slot], page - 512 * slot)
                                } else {
                                    self.tree.small[page]
                                },
                        ),
                    },
                    arena,
                    ..self
                },
                None,
            ),
        }
    }

    /// Takes away the mapping of the 4 KiB page that `address` lies in.
    pub open spec fn unmap_4k(self, address: u64) -> (HostPaging, Option<PagingError>) {
        let page = page_number(address);
        let slot = page / 512;
        if self.tree.huge.contains_key(slot) {
            match self.split(slot) {
                (next, Some(error)) => (next, Some(error)),
                (next, None) => next.drop_page(page),
            }
        } else {
            self.drop_page(page)
        }
    }

    /// Takes away the entry of a 4 KiB page.
    pub open spec fn drop_page(self, page: int) -> (HostPaging, Option<PagingError>) {
        if !self.tree.small.contains_key(page) {
            (self, Some(PagingError::MissingGuardMapping))
        } else {
            (
                HostPaging {
                    tree: PageTree { small: self.tree.small.remove(page), ..self.tree },
                    mapped: self.mapped - 1,
                    ..self
                },
                None,
            )
        }
    }

    /// Takes away the mappings of the guard pages in order, up to the first error.
    pub open spec fn unmap_all(self, guards: Seq<u64>) -> (HostPaging, Option<PagingError>)
        decreases guards.len(),
    {
        if guards.len() == 0 {
            (self, None)
        } else {
            match self.unmap_all(guards.drop_last()) {
                (next, Some(error)) => (next, Some(error)),
                (next, None) => next.unmap_4k(guards.last()),
            }
        }
    }

    /// The construction hangs together; `low` is where the tables start.
    pub open spec fn wf(self, low: int) -> bool {
        &&& self.tree.wf(low, self.arena.next as int)
        &&& self.arena.next <= self.arena.end <= PHYSICAL_LIMIT
        &&& self.tree.mapped_pages().finite()
        &&& self.mapped == self.tree.mapped_pages().len()
    }
}

/// The firmware put code into the descriptor's memory.
pub open spec fn is_code(descriptor: EfiMemoryDescriptor) -> bool {
    descriptor.memory_type == 1 || descriptor.memory_type == 3 || descriptor.memory_type == 5
}

/// Where the mapping of a descriptor starts: never in the page at address zero.
pub open spec fn first_mapped(descriptor: EfiMemoryDescriptor) -> u64 {
    if descriptor.physical_start < 4096 {
        4096
    } else {
        descriptor.physical_start
    }
}

/// The whole construction: a top table, the descriptors' memory, then the guard
/// pages taken out again. `None` in place of the construction where not even the
/// top table could be had.
pub open spec fn host_paging(
    arena: ArenaView,
    descriptors: Seq<EfiMemoryDescriptor>,
    guards: Seq<u64>,
    nx_enabled: bool,
) -> (HostPaging, Option<PagingError>) {
    match arena.allocate_pages(1) {
        (arena, None) => (
            HostPaging {
                tree: PageTree { tables: Map::empty(), huge: Map::empty(), small: Map::empty() },
                arena,
                mapped: 0,
            },
            Some(PagingError::ArenaExhausted),
        ),
        (arena, Some(root)) => match new_paging(arena, root).map_all(descriptors, nx_enabled) {
            (next, Some(error)) => (next, Some(error)),
            (next, None) => next.unmap_all(guards),
        },
    }
}

/// An empty top table at `root`.
pub open spec fn new_paging(arena: ArenaView, root: u64) -> HostPaging {
    HostPaging {
        tree: PageTree {
            tables: Map::empty().insert((4, 0), root),
            huge: Map::empty(),
            small: Map::empty(),
        },
        arena,
        mapped: 0,
    }
}

/// The pages of a large page have consecutive numbers, the first a multiple of
/// 512.
pub proof fn lemma_large_page_numbers(address: u64, index: int)
    requires
        address % 0x20_0000 == 0,
        0 <= index < 512,
        address + index * 4096 <= u64::MAX,
    ensures
        page_number(address) % 512 == 0,
        page_number((address + index * 4096) as u64) == page_number(address) + index,
{
    let at: u64 = (address + index * 4096) as u64;
    let whole = address as int / 4096;
    assert(at as int / 4096 == whole + index);
    assert(whole % 512 == 0);
    let high = whole / 512;
    assert(whole == 512 * high);
    assert(whole % 0x10_0000_0000 == 512 * (high % 0x800_0000));
    assert((whole + index) % 0x10_0000_0000 == 512 * (high % 0x800_0000) + index);
}

pub proof fn lemma_arena_page(arena: ArenaView)
    requires
        arena.next <= arena.end <= PHYSICAL_LIMIT,
    ensures
        ({
            let (rest, page) = arena.allocate_pages(1);
            &&& arena.next <= rest.next <= rest.end == arena.end
            &&& page matches Some(address) ==> {
                &&& address % 4096 == 0
                &&& arena.next <= address
                &&& address + 4096 == rest.next
            }
        }),
{
    crate::boot_alloc::law_cursor_only_advances(arena, 4096, 4096);
    if arena.allocate_pages(1).1 is Some {
        crate::boot_alloc::law_allocation_lies_in_the_arena(arena, 4096, 4096);
    }
}

impl HostPaging {
    /// Adding a table keeps the tree well-formed and changes no mapping.
    #[verifier::spinoff_prover]
    pub proof fn lemma_with_table(self, level: int, slot: int, low: int)
        requires
            self.wf(low),
            low <= self.arena.next,
            1 <= level <= 3,
            0 <= slot < slots(level),
            self.tree.tables.contains_key((level + 1, slot / 512)),
        ensures
            ({
                let (next, error) = self.with_table(level, slot);
                &&& next.wf(low)
                &&& self.arena.next <= next.arena.next
                &&& next.arena.end == self.arena.end
                &&& next.tree.small == self.tree.small
                &&& next.tree.huge == self.tree.huge
                &&& next.tree.tables[(4, 0)] == self.tree.tables[(4, 0)]
                &&& next.mapped == self.mapped
                &&& forall|key: (int, int)|
                    self.tree.tables.contains_key(key) ==> #[trigger] next.tree.tables.contains_key(
                        key,
                    )
                &&& error is None ==> next.tree.tables.contains_key((level, slot)) && (level == 1
                    ==> !next.tree.huge.contains_key(slot))
                &&& forall|key: (int, int)|
                    key != (level, slot) && #[trigger] next.tree.tables.contains_key(key)
                        ==> self.tree.tables.contains_key(key)
            }),
    {
        lemma_arena_page(self.arena);
        let (next, error) = self.with_table(level, slot);
        if next.tree != self.tree {
            let table = next.tree.tables[(level, slot)];
            assert forall|one: (int, int), two: (int, int)|
                #![trigger next.tree.tables[one], next.tree.tables[two]]
                next.tree.tables.contains_key(one) && next.tree.tables.contains_key(two) && one
                    != two implies next.tree.tables[one] != next.tree.tables[two] by {
                if one == (level, slot) {
                    assert(self.tree.tables.contains_key((two.0, two.1)));
                } else if two == (level, slot) {
                    assert(self.tree.tables.contains_key((one.0, one.1)));
                } else {
                    assert(self.tree.tables[one] != self.tree.tables[two]);
                }
            }
        }
        assert(next.tree.mapped_pages() =~= self.tree.mapped_pages());
    }

    /// Adding the tables above a page keeps the tree well-formed and changes no
    /// mapping.
    #[verifier::spinoff_prover]
    pub proof fn lemma_with_directory(self, page: int, low: int)
        requires
            self.wf(low),
            low <= self.arena.next,
            0 <= page < slots(0),
        ensures
            ({
                let (next, error) = self.with_directory(page);
                &&& next.wf(low)
                &&& self.arena.next <= next.arena.next
                &&& next.arena.end == self.arena.end
                &&& next.tree.small == self.tree.small
                &&& next.tree.huge == self.tree.huge
                &&& next.tree.tables[(4, 0)] == self.tree.tables[(4, 0)]
                &&& next.mapped == self.mapped
                &&& forall|slot: int| #[trigger]
                    next.tree.tables.contains_key((1, slot)) <==> self.tree.tables.contains_key(
                        (1, slot),
                    )
                &&& error is None ==> next.tree.tables.contains_key((2, page / 0x4_0000))
            }),
    {
        self.lemma_with_table(3, page / 0x800_0000, low);
        let (next, error) = self.with_table(3, page / 0x800_0000);
        if error is None {
            assert(page / 0x4_0000 / 512 == page / 0x800_0000);
            next.lemma_with_table(2, page / 0x4_0000, low);
        }
    }

    /// Mapping a 4 KiB page adds its entry and changes no other; where it
    /// succeeds, the page was not mapped.
    #[verifier::spinoff_prover]
    pub proof fn lemma_map_4k(self, address: u64, nx_enabled: bool, executable: bool, low: int)
        requires
            self.wf(low),
            low <= self.arena.next,
        ensures
            ({
                let flags = leaf_flags(nx_enabled, executable);
                let page = page_number(address);
                let (next, error) = self.map_4k(address, flags);
                &&& next.wf(low)
                &&& self.arena.next <= next.arena.next
                &&& next.arena.end == self.arena.end
                &&& next.tree.tables[(4, 0)] == self.tree.tables[(4, 0)]
                &&& error is None ==> {
                    &&& self.tree.leaf(page) is None
                    &&& forall|other: int| #[trigger]
                        next.tree.leaf(other) == if other == page {
                            Some(address | flags)
                        } else {
                            self.tree.leaf(other)
                        }
                }
            }),
    {
        let flags = leaf_flags(nx_enabled, executable);
        let page = page_number(address);
        self.lemma_with_directory(page, low);
        let (with2, error2) = self.with_directory(page);
        if error2 is None {
            assert(page / 512 / 512 == page / 0x4_0000);
            with2.lemma_with_table(1, page / 512, low);
            let (with1, error1) = with2.with_table(1, page / 512);
            let (next, error) = self.map_4k(address, flags);
            if error is None {
                lemma_leaf_is_present(address, nx_enabled, executable);
                assert(self.tree.leaf(page) is None);
                assert forall|other: int| #[trigger]
                    next.tree.leaf(other) == if other == page {
                        Some(address | flags)
                    } else {
                        self.tree.leaf(other)
                    } by {}
                let before = self.tree.mapped_pages();
                assert(next.tree.mapped_pages() =~= before.insert(page));
                assert(!before.contains(page));
                assert(next.tree.wf(low, next.arena.next as int));
            }
        }
    }

    /// Mapping a large page adds the entries of its 512 pages and changes no
    /// other; where it succeeds, none of them was mapped.
    #[verifier::spinoff_prover]
    pub proof fn lemma_map_2m(self, address: u64, nx_enabled: bool, executable: bool, low: int)
        requires
            self.wf(low),
            low <= self.arena.next,
            address % 0x20_0000 == 0,
            address < PHYSICAL_LIMIT,
        ensures
            ({
                let flags = leaf_flags(nx_enabled, executable);
                let first = page_number(address);
                let (next, error) = self.map_2m(address, flags);
                &&& next.wf(low)
                &&& self.arena.next <= next.arena.next
                &&& next.arena.end == self.arena.end
                &&& next.tree.tables[(4, 0)] == self.tree.tables[(4, 0)]
                &&& error is None ==> {
                    &&& forall|other: int|
                        first <= other < first + 512 ==> #[trigger] self.tree.leaf(other) is None
                    &&& forall|other: int| #[trigger]
                        next.tree.leaf(other) == if first <= other < first + 512 {
                            Some((address + (other - first) * 4096) as u64 | flags)
                        } else {
                            self.tree.leaf(other)
                        }
                }
            }),
    {
        let flags = leaf_flags(nx_enabled, executable);
        let first = page_number(address);
        let slot = first / 512;
        lemma_large_page_numbers(address, 0);
        self.lemma_with_directory(first, low);
        let (with2, error2) = self.with_directory(first);
        let (next, error) = self.map_2m(address, flags);
        if error is None {
            lemma_huge_entry(address, nx_enabled, executable);
            assert(slot / 512 == first / 0x4_0000);
            assert forall|other: int| first <= other < first + 512 implies #[trigger] self.tree.leaf(
                other,
            ) is None by {
                assert(other / 512 == slot);
                if self.tree.small.contains_key(other) {
                    assert(with2.tree.tables.contains_key((1, slot)));
                }
            }
            assert forall|other: int| #[trigger]
                next.tree.leaf(other) == if first <= other < first + 512 {
                    Some((address + (other - first) * 4096) as u64 | flags)
                } else {
                    self.tree.leaf(other)
                } by {
                if first <= other < first + 512 {
                    assert(other / 512 == slot);
                    assert(other % 512 == other - first);
                    assert(self.tree.leaf(other) is None);
                } else {
                    assert(other / 512 != slot);
                }
            }
            let before = self.tree.mapped_pages();
            let added = set_int_range(first, first + 512);
            assert(next.tree.mapped_pages() =~= before + added) by {
                assert forall|page: int| next.tree.mapped_pages().contains(page) <==> (before
                    + added).contains(page) by {
                    assert(next.tree.leaf(page) == if first <= page < first + 512 {
                        Some((address + (page - first) * 4096) as u64 | flags)
                    } else {
                        self.tree.leaf(page)
                    });
                }
            }
            assert forall|page: int| before.contains(page) implies !added.contains(page) by {
                assert(self.tree.leaf(page) is Some);
            }
            vstd::set_lib::lemma_int_range(first, first + 512);
            vstd::set_lib::lemma_set_disjoint_lens(before, added);
            assert(is_huge_entry(address | flags | HUGE));
            assert(next.tree.wf(low, next.arena.next as int));
        }
    }
}

/// Every entry that a large page splits into maps its share of the page, with
/// the flags of the whole.
#[verifier::spinoff_prover]
pub proof fn lemma_split_entry(huge: u64, index: int)
    requires
        is_huge_entry(huge),
        0 <= index < 512,
    ensures
        ({
            let entry = split_entry(huge, index);
            &&& entry & PRESENT != 0
            &&& entry & WRITABLE != 0
            &&& entry & ADDRESS_MASK == (huge & ADDRESS_MASK) + index * 4096
            &&& (entry & crate::arch::x86_64::entry::NO_EXECUTE != 0) == (huge
                & crate::arch::x86_64::entry::NO_EXECUTE != 0)
            &&& huge & PRESENT != 0
            &&& huge & WRITABLE != 0
            &&& huge & HUGE != 0
            &&& (huge & ADDRESS_MASK) % 0x20_0000 == 0
            &&& huge & ADDRESS_MASK < PHYSICAL_LIMIT
        }),
{
    let (address, nx_enabled, executable) = choose|
        address: u64,
        nx_enabled: bool,
        executable: bool,
    |
        #![trigger leaf_flags(nx_enabled, executable), address | leaf_flags(nx_enabled, executable)]
        address % 0x20_0000 == 0 && address < PHYSICAL_LIMIT && huge == address | leaf_flags(
            nx_enabled,
            executable,
        ) | HUGE;
    lemma_huge_entry(address, nx_enabled, executable);
    let page = (address + index * 4096) as u64;
    assert(address + index * 4096 < PHYSICAL_LIMIT);
    lemma_leaf_is_present(page, nx_enabled, executable);
    lemma_leaf_entry(page, nx_enabled, executable);
}

impl HostPaging {
    /// Splitting a large page changes no mapping.
    #[verifier::spinoff_prover]
    pub proof fn lemma_split(self, slot: int, low: int)
        requires
            self.wf(low),
            low <= self.arena.next,
            self.tree.huge.contains_key(slot),
        ensures
            ({
                let (next, error) = self.split(slot);
                &&& next.wf(low)
                &&& self.arena.next <= next.arena.next
                &&& next.arena.end == self.arena.end
                &&& next.tree.tables[(4, 0)] == self.tree.tables[(4, 0)]
                &&& next.mapped == self.mapped
                &&& forall|page: int| #[trigger] next.tree.leaf(page) == self.tree.leaf(page)
            }),
    {
        lemma_arena_page(self.arena);
        let (next, error) = self.split(slot);
        if error is None {
            assert forall|page: int| #[trigger] next.tree.leaf(page) == self.tree.leaf(page) by {
                if 512 * slot <= page < 512 * slot + 512 {
                    assert(page / 512 == slot);
                    assert(page % 512 == page - 512 * slot);
                    assert(!self.tree.small.contains_key(page));
                } else {
                    assert(page / 512 != slot);
                }
            }
            assert forall|page: int| #[trigger] next.tree.small.contains_key(page) implies {
                &&& 0 <= page < slots(0)
                &&& next.tree.tables.contains_key((1, page / 512))
                &&& next.tree.small[page] & PRESENT != 0
            } by {
                if 512 * slot <= page < 512 * slot + 512 {
                    assert(page / 512 == slot);
                    lemma_split_entry(self.tree.huge[slot], page - 512 * slot);
                } else {
                    assert(self.tree.small.contains_key(page));
                }
            }
            assert forall|one: (int, int), two: (int, int)|
                #![trigger next.tree.tables[one], next.tree.tables[two]]
                next.tree.tables.contains_key(one) && next.tree.tables.contains_key(two) && one
                    != two implies next.tree.tables[one] != next.tree.tables[two] by {
                if one == (1int, slot) {
                    assert(self.tree.tables.contains_key((two.0, two.1)));
                } else if two == (1int, slot) {
                    assert(self.tree.tables.contains_key((one.0, one.1)));
                } else {
                    assert(self.tree.tables[one] != self.tree.tables[two]);
                }
            }
            assert forall|level: int, at: int| #[trigger]
                next.tree.tables.contains_key((level, at)) implies {
                &&& 1 <= level <= 4
                &&& 0 <= at < slots(level)
                &&& level < 4 ==> next.tree.tables.contains_key((level + 1, at / 512))
                &&& next.tree.tables[(level, at)] % 4096 == 0
                &&& low <= next.tree.tables[(level, at)]
                &&& next.tree.tables[(level, at)] + 4096 <= next.arena.next
            } by {
                if (level, at) != (1int, slot) {
                    assert(self.tree.tables.contains_key((level, at)));
                }
            }
            assert(next.tree.wf(low, next.arena.next as int));
            assert(next.tree.mapped_pages() =~= self.tree.mapped_pages());
        } else {
            assert(next.tree == self.tree);
        }
    }

    /// Taking a page away leaves every other page mapped as it was.
    #[verifier::spinoff_prover]
    pub proof fn lemma_unmap_4k(self, address: u64, low: int)
        requires
            self.wf(low),
            low <= self.arena.next,
        ensures
            ({
                let page = page_number(address);
                let (next, error) = self.unmap_4k(address);
                &&& next.wf(low)
                &&& self.arena.next <= next.arena.next
                &&& next.arena.end == self.arena.end
                &&& next.tree.tables[(4, 0)] == self.tree.tables[(4, 0)]
                &&& match error {
                    None => {
                        &&& self.tree.leaf(page) is Some
                        &&& forall|other: int| #[trigger]
                            next.tree.leaf(other) == if other == page {
                                None
                            } else {
                                self.tree.leaf(other)
                            }
                    },
                    Some(why) => why == PagingError::MissingGuardMapping <==> self.tree.leaf(
                        page,
                    ) is None,
                }
            }),
    {
        let page = page_number(address);
        let slot = page / 512;
        let (before, error) = if self.tree.huge.contains_key(slot) {
            self.lemma_split(slot, low);
            self.split(slot)
        } else {
            (self, None)
        };
        if error is None {
            assert forall|other: int| #[trigger] before.tree.leaf(other) == self.tree.leaf(
                other,
            ) by {}
            assert(before.tree.leaf(page) == self.tree.leaf(page));
            assert(!before.tree.huge.contains_key(slot));
            let (next, last) = before.drop_page(page);
            if last is None {
                assert forall|other: int| #[trigger]
                    next.tree.leaf(other) == if other == page {
                        None
                    } else {
                        self.tree.leaf(other)
                    } by {
                    assert(before.tree.leaf(other) == self.tree.leaf(other));
                }
                assert(next.tree.mapped_pages() =~= before.tree.mapped_pages().remove(page));
                assert(before.tree.mapped_pages().contains(page));
                assert(next.tree.wf(low, next.arena.next as int));
            }
        }
    }
}

/// A large page leads an address where its split entries would.
proof fn lemma_large_translation(huge: u64, address: u64)
    requires
        is_huge_entry(huge),
    ensures
        translation(huge, 0x20_0000, address, true, false) == translation(
            split_entry(huge, page_number(address) % 512),
            4096,
            address,
            true,
            false,
        ),
{
    let index = page_number(address) % 512;
    lemma_split_entry(huge, index);
    let base = (huge & ADDRESS_MASK) as int;
    assert(address as int % 0x20_0000 == index * 4096 + address as int % 4096) by {
        assert(index == (address as int / 4096) % 512);
    }
    assert(base / 0x20_0000 * 0x20_0000 == base);
    assert((base + index * 4096) / 4096 * 4096 == base + index * 4096);
}

/// The slots above a page.
proof fn lemma_slots_above(page: int)
    requires
        0 <= page < slots(0),
    ensures
        page / 0x4_0000 / 512 == page / 0x800_0000,
        page / 0x4_0000 == page / 0x800_0000 * 512 + page / 0x4_0000 % 512,
        page / 512 / 512 == page / 0x4_0000,
        page / 512 == page / 0x4_0000 * 512 + page / 512 % 512,
        page == page / 512 * 512 + page % 512,
        0 <= page / 0x800_0000 < 512,
{
}

/// A walk through tables that are in memory leads where the tables say.
#[verifier::spinoff_prover]
pub proof fn lemma_walk(tree: PageTree, memory: Map<int, u64>, low: int, high: int, address: u64)
    requires
        tree.wf(low, high),
        high <= PHYSICAL_LIMIT,
        tree.is_in(memory),
    ensures
        walk(memory, tree.tables[(4, 0)], address) == tree.translate(address),
{
    let page = page_number(address);
    lemma_zero_entry();
    lemma_slots_above(page);
    let s3 = page / 0x800_0000;
    let s2 = page / 0x4_0000;
    let s1 = page / 512;
    assert(tree.table_is_in(memory, 4, 0));
    let e4 = word(memory, tree.tables[(4, 0)], s3);
    assert(e4 == tree.entry(4, s3));
    if tree.tables.contains_key((3, s3)) {
        lemma_table_entry(tree.tables[(3, s3)]);
        assert(tree.table_is_in(memory, 3, s3));
        let e3 = word(memory, tree.tables[(3, s3)], s2 % 512);
        assert(e3 == tree.entry(3, s2));
        if tree.tables.contains_key((2, s2)) {
            lemma_table_entry(tree.tables[(2, s2)]);
            assert(tree.table_is_in(memory, 2, s2));
            let e2 = word(memory, tree.tables[(2, s2)], s1 % 512);
            assert(e2 == tree.entry(2, s1));
            if tree.huge.contains_key(s1) {
                lemma_split_entry(tree.huge[s1], page % 512);
                lemma_large_translation(tree.huge[s1], address);
                assert(!tree.small.contains_key(page));
            } else if tree.tables.contains_key((1, s1)) {
                lemma_table_entry(tree.tables[(1, s1)]);
                assert(tree.table_is_in(memory, 1, s1));
                let e1 = word(memory, tree.tables[(1, s1)], page % 512);
                assert(e1 == tree.entry(1, page));
            }
        }
    }
}

/// The tables map `page` by `entry`.
pub open spec fn maps_to(tree: PageTree, page: int, entry: u64) -> bool {
    tree.leaf(page) == Some(entry)
}

/// The page at `at` is one of those from `address` up to `end`, and belongs at
/// page number `page`.
pub open spec fn range_has(address: u64, end: int, page: int, at: u64) -> bool {
    address <= at < end && (at - address) % 4096 == 0 && page_number(at) == page
}

/// One of the pages from `address` up to `end` belongs at `page`, with `entry`.
pub open spec fn range_maps(address: u64, end: int, flags: u64, page: int, entry: u64) -> bool {
    exists|at: u64| #[trigger] range_has(address, end, page, at) && entry == at | flags
}

/// The address behind the descriptor's memory.
pub open spec fn mapped_end(descriptor: EfiMemoryDescriptor) -> int {
    descriptor.physical_start + descriptor.number_of_pages * 4096
}

/// A page of the descriptor's memory belongs at `page`, with `entry`.
pub open spec fn descriptor_maps(
    descriptor: EfiMemoryDescriptor,
    nx_enabled: bool,
    page: int,
    entry: u64,
) -> bool {
    descriptor.number_of_pages > 0 && range_maps(
        first_mapped(descriptor),
        mapped_end(descriptor),
        leaf_flags(nx_enabled, is_code(descriptor)),
        page,
        entry,
    )
}

/// One of the descriptors maps `page` by `entry`.
pub open spec fn described(
    descriptors: Seq<EfiMemoryDescriptor>,
    nx_enabled: bool,
    page: int,
    entry: u64,
) -> bool {
    exists|index: int|
        0 <= index < descriptors.len() && #[trigger] descriptor_maps(
            descriptors[index],
            nx_enabled,
            page,
            entry,
        )
}

/// A guard lies in the page.
pub open spec fn is_guard(guards: Seq<u64>, page: int) -> bool {
    exists|index: int| 0 <= index < guards.len() && page_number(#[trigger] guards[index]) == page
}

proof fn lemma_range_step_4k(address: u64, end: int, flags: u64, page: int, entry: u64)
    requires
        address < end,
        address + 4096 <= u64::MAX,
    ensures
        range_maps(address, end, flags, page, entry) <==> (page == page_number(address) && entry
            == address | flags) || range_maps((address + 4096) as u64, end, flags, page, entry),
{
    let next = (address + 4096) as u64;
    if range_maps(address, end, flags, page, entry) {
        let at = choose|at: u64| #[trigger]
            range_has(address, end, page, at) && entry == at | flags;
        if at != address {
            assert(at - address >= 4096);
            assert(range_has(next, end, page, at));
        }
    }
    if page == page_number(address) && entry == address | flags {
        assert(range_has(address, end, page, address));
    }
    if range_maps(next, end, flags, page, entry) {
        let at = choose|at: u64| #[trigger] range_has(next, end, page, at) && entry == at | flags;
        assert(range_has(address, end, page, at));
    }
}

#[verifier::spinoff_prover]
proof fn lemma_range_step_2m(address: u64, end: int, flags: u64, page: int, entry: u64)
    requires
        address % 0x20_0000 == 0,
        address + 0x20_0000 <= end,
        end <= u64::MAX,
    ensures
        ({
            let first = page_number(address);
            range_maps(address, end, flags, page, entry) <==> (first <= page < first + 512 && entry
                == (address + (page - first) * 4096) as u64 | flags) || range_maps(
                (address + 0x20_0000) as u64,
                end,
                flags,
                page,
                entry,
            )
        }),
{
    let next = (address + 0x20_0000) as u64;
    let first = page_number(address);
    lemma_large_page_numbers(address, 0);
    if range_maps(address, end, flags, page, entry) {
        let at = choose|at: u64| #[trigger]
            range_has(address, end, page, at) && entry == at | flags;
        if at >= next {
            assert(range_has(next, end, page, at));
        } else {
            let step = (at - address) / 4096;
            assert(at == address + step * 4096);
            lemma_large_page_numbers(address, step);
        }
    }
    if first <= page < first + 512 && entry == (address + (page - first) * 4096) as u64 | flags {
        let at = (address + (page - first) * 4096) as u64;
        lemma_large_page_numbers(address, page - first);
        assert(range_has(address, end, page, at));
    }
    if range_maps(next, end, flags, page, entry) {
        let at = choose|at: u64| #[trigger] range_has(next, end, page, at) && entry == at | flags;
        assert(range_has(address, end, page, at));
    }
}

/// `after` has the mappings of `before` and those of a range, none of whose
/// pages was mapped.
pub open spec fn adds_range(
    before: PageTree,
    after: PageTree,
    address: u64,
    end: int,
    flags: u64,
) -> bool {
    forall|page: int, entry: u64|
        {
            &&& #[trigger] maps_to(after, page, entry) <==> maps_to(before, page, entry)
                || range_maps(address, end, flags, page, entry)
            &&& range_maps(address, end, flags, page, entry) ==> before.leaf(page) is None
        }
}

proof fn lemma_adds_nothing(tree: PageTree, address: u64, end: int, flags: u64)
    requires
        address >= end,
    ensures
        adds_range(tree, tree, address, end, flags),
{
}
#[verifier::spinoff_prover]
proof fn lemma_adds_2m(
    before: PageTree,
    step: PageTree,
    after: PageTree,
    address: u64,
    end: int,
    flags: u64,
)
    requires
        address % 0x20_0000 == 0,
        address + 0x20_0000 <= end <= u64::MAX,
        ({
            let first = page_number(address);
            &&& forall|page: int|
                first <= page < first + 512 ==> #[trigger] before.leaf(page) is None
            &&& forall|page: int| #[trigger]
                step.leaf(page) == if first <= page < first + 512 {
                    Some((address + (page - first) * 4096) as u64 | flags)
                } else {
                    before.leaf(page)
                }
        }),
        adds_range(step, after, (address + 0x20_0000) as u64, end, flags),
    ensures
        adds_range(before, after, address, end, flags),
{
    let first = page_number(address);
    let rest = (address + 0x20_0000) as u64;
    assert forall|page: int, entry: u64|
        {
            &&& #[trigger] maps_to(after, page, entry) <==> maps_to(before, page, entry)
                || range_maps(address, end, flags, page, entry)
            &&& range_maps(address, end, flags, page, entry) ==> before.leaf(page) is None
        } by {
        lemma_range_step_2m(address, end, flags, page, entry);
        assert(maps_to(after, page, entry) <==> maps_to(step, page, entry) || range_maps(
            rest,
            end,
            flags,
            page,
            entry,
        ));
        assert(step.leaf(page) == if first <= page < first + 512 {
            Some((address + (page - first) * 4096) as u64 | flags)
        } else {
            before.leaf(page)
        });
        assert(first <= page < first + 512 ==> before.leaf(page) is None);
    }
}
#[verifier::spinoff_prover]
proof fn lemma_adds_4k(
    before: PageTree,
    step: PageTree,
    after: PageTree,
    address: u64,
    end: int,
    flags: u64,
)
    requires
        address < end,
        address + 4096 <= u64::MAX,
        before.leaf(page_number(address)) is None,
        forall|page: int| #[trigger]
            step.leaf(page) == if page == page_number(address) {
                Some(address | flags)
            } else {
                before.leaf(page)
            },
        adds_range(step, after, (address + 4096) as u64, end, flags),
    ensures
        adds_range(before, after, address, end, flags),
{
    let rest = (address + 4096) as u64;
    assert forall|page: int, entry: u64|
        {
            &&& #[trigger] maps_to(after, page, entry) <==> maps_to(before, page, entry)
                || range_maps(address, end, flags, page, entry)
            &&& range_maps(address, end, flags, page, entry) ==> before.leaf(page) is None
        } by {
        lemma_range_step_4k(address, end, flags, page, entry);
        assert(maps_to(after, page, entry) <==> maps_to(step, page, entry) || range_maps(
            rest,
            end,
            flags,
            page,
            entry,
        ));
        assert(step.leaf(page) == if page == page_number(address) {
            Some(address | flags)
        } else {
            before.leaf(page)
        });
    }
}

impl HostPaging {
    /// Mapping a range adds the entries of its pages, none of which was mapped,
    /// and changes no other.
    #[verifier::spinoff_prover]
    pub proof fn lemma_map_range(
        self,
        address: u64,
        end: u64,
        nx_enabled: bool,
        executable: bool,
        low: int,
    )
        requires
            self.wf(low),
            low <= self.arena.next,
            end <= PHYSICAL_LIMIT,
        ensures
            ({
                let flags = leaf_flags(nx_enabled, executable);
                let (next, error) = self.map_range(address, end, flags);
                &&& next.wf(low)
                &&& self.arena.next <= next.arena.next
                &&& next.arena.end == self.arena.end
                &&& next.tree.tables[(4, 0)] == self.tree.tables[(4, 0)]
                &&& error is None ==> adds_range(
                    self.tree,
                    next.tree,
                    address,
                    end as int,
                    flags,
                )
            }),
        decreases end - address,
    {
        let flags = leaf_flags(nx_enabled, executable);
        let (next, error) = self.map_range(address, end, flags);
        if address >= end {
            lemma_adds_nothing(self.tree, address, end as int, flags);
        } else if address % 0x20_0000 == 0 && end - address >= 0x20_0000 {
            self.lemma_map_2m(address, nx_enabled, executable, low);
            let (step, failed) = self.map_2m(address, flags);
            if failed is None {
                let rest = (address + 0x20_0000) as u64;
                step.lemma_map_range(rest, end, nx_enabled, executable, low);
                if error is None {
                    lemma_adds_2m(self.tree, step.tree, next.tree, address, end as int, flags);
                }
            }
        } else {
            self.lemma_map_4k(address, nx_enabled, executable, low);
            let (step, failed) = self.map_4k(address, flags);
            if failed is None {
                let rest = (address + 4096) as u64;
                if rest < end {
                    step.lemma_map_range(rest, end, nx_enabled, executable, low);
                } else {
                    lemma_adds_nothing(step.tree, rest, end as int, flags);
                }
                if error is None {
                    lemma_adds_4k(self.tree, step.tree, next.tree, address, end as int, flags);
                }
            }
        }
    }

    /// Mapping descriptors adds what they describe, none of which was mapped,
    /// and changes no other.
    pub proof fn lemma_map_descriptor(
        self,
        descriptor: EfiMemoryDescriptor,
        nx_enabled: bool,
        low: int,
    )
        requires
            self.wf(low),
            low <= self.arena.next,
        ensures
            ({
                let (next, error) = self.map_descriptor(descriptor, nx_enabled);
                &&& next.wf(low)
                &&& self.arena.next <= next.arena.next
                &&& next.arena.end == self.arena.end
                &&& next.tree.tables[(4, 0)] == self.tree.tables[(4, 0)]
                &&& error is None ==> forall|page: int, entry: u64|
                    {
                        &&& #[trigger] maps_to(next.tree, page, entry) <==> maps_to(
                            self.tree,
                            page,
                            entry,
                        ) || descriptor_maps(descriptor, nx_enabled, page, entry)
                        &&& descriptor_maps(descriptor, nx_enabled, page, entry)
                            ==> self.tree.leaf(page) is None
                    }
            }),
    {
        let end = mapped_end(descriptor);
        if descriptor.number_of_pages > 0 && end <= PHYSICAL_LIMIT {
            self.lemma_map_range(
                first_mapped(descriptor),
                end as u64,
                nx_enabled,
                is_code(descriptor),
                low,
            );
        }
    }

    /// Mapping descriptors keeps the tree well-formed and adds what they describe.
    pub proof fn lemma_map_all(
        self,
        descriptors: Seq<EfiMemoryDescriptor>,
        nx_enabled: bool,
        low: int,
    )
        requires
            self.wf(low),
            low <= self.arena.next,
        ensures
            ({
                let (next, error) = self.map_all(descriptors, nx_enabled);
                &&& next.wf(low)
                &&& self.arena.next <= next.arena.next
                &&& next.arena.end == self.arena.end
                &&& next.tree.tables[(4, 0)] == self.tree.tables[(4, 0)]
                &&& error is None ==> forall|page: int, entry: u64| #[trigger]
                    maps_to(next.tree, page, entry) <==> maps_to(self.tree, page, entry)
                        || described(descriptors, nx_enabled, page, entry)
            }),
        decreases descriptors.len(),
    {
        let (next, error) = self.map_all(descriptors, nx_enabled);
        if descriptors.len() == 0 {
        } else {
            let shorter = descriptors.drop_last();
            self.lemma_map_all(shorter, nx_enabled, low);
            let (step, failed) = self.map_all(shorter, nx_enabled);
            if failed is None {
                step.lemma_map_descriptor(descriptors.last(), nx_enabled, low);
                if error is None {
                    assert forall|page: int, entry: u64| #[trigger]
                        maps_to(next.tree, page, entry) <==> maps_to(self.tree, page, entry)
                            || described(descriptors, nx_enabled, page, entry) by {
                        lemma_described_last(descriptors, nx_enabled, page, entry);
                        assert(maps_to(next.tree, page, entry) <==> maps_to(step.tree, page, entry)
                            || descriptor_maps(descriptors.last(), nx_enabled, page, entry));
                    }
                }
            }
        }
    }

    /// Taking guard pages out keeps the tree well-formed and removes nothing else.
    pub proof fn lemma_unmap_all(self, guards: Seq<u64>, low: int)
        requires
            self.wf(low),
            low <= self.arena.next,
        ensures
            ({
                let (next, error) = self.unmap_all(guards);
                &&& next.wf(low)
                &&& self.arena.next <= next.arena.next
                &&& next.arena.end == self.arena.end
                &&& next.tree.tables[(4, 0)] == self.tree.tables[(4, 0)]
                &&& error is None ==> forall|page: int, entry: u64| #[trigger]
                    maps_to(next.tree, page, entry) <==> maps_to(self.tree, page, entry)
                        && !is_guard(guards, page)
            }),
        decreases guards.len(),
    {
        let (next, error) = self.unmap_all(guards);
        if guards.len() == 0 {
        } else {
            let shorter = guards.drop_last();
            self.lemma_unmap_all(shorter, low);
            let (step, failed) = self.unmap_all(shorter);
            if failed is None {
                step.lemma_unmap_4k(guards.last(), low);
                if error is None {
                    assert forall|page: int, entry: u64| #[trigger]
                        maps_to(next.tree, page, entry) <==> maps_to(self.tree, page, entry)
                            && !is_guard(guards, page) by {
                        lemma_guard_last(guards, page);
                        assert(maps_to(step.tree, page, entry) <==> maps_to(self.tree, page, entry)
                            && !is_guard(shorter, page));
                        assert(next.tree.leaf(page) == if page == page_number(guards.last()) {
                            None
                        } else {
                            step.tree.leaf(page)
                        });
                    }
                }
            }
        }
    }
}

proof fn lemma_described_last(
    descriptors: Seq<EfiMemoryDescriptor>,
    nx_enabled: bool,
    page: int,
    entry: u64,
)
    requires
        descriptors.len() > 0,
    ensures
        described(descriptors, nx_enabled, page, entry) <==> described(
            descriptors.drop_last(),
            nx_enabled,
            page,
            entry,
        ) || descriptor_maps(descriptors.last(), nx_enabled, page, entry),
{
    let shorter = descriptors.drop_last();
    if described(descriptors, nx_enabled, page, entry) {
        let index = choose|index: int|
            0 <= index < descriptors.len() && #[trigger] descriptor_maps(
                descriptors[index],
                nx_enabled,
                page,
                entry,
            );
        if index < shorter.len() {
            assert(descriptor_maps(shorter[index], nx_enabled, page, entry));
        }
    }
    if described(shorter, nx_enabled, page, entry) {
        let index = choose|index: int|
            0 <= index < shorter.len() && #[trigger] descriptor_maps(
                shorter[index],
                nx_enabled,
                page,
                entry,
            );
        assert(descriptor_maps(descriptors[index], nx_enabled, page, entry));
    }
    if descriptor_maps(descriptors.last(), nx_enabled, page, entry) {
        assert(descriptor_maps(descriptors[descriptors.len() - 1], nx_enabled, page, entry));
    }
}

proof fn lemma_guard_last(guards: Seq<u64>, page: int)
    requires
        guards.len() > 0,
    ensures
        is_guard(guards, page) <==> is_guard(guards.drop_last(), page) || page_number(guards.last())
            == page,
{
    let shorter = guards.drop_last();
    if is_guard(guards, page) {
        let index = choose|index: int|
            0 <= index < guards.len() && page_number(#[trigger] guards[index]) == page;
        if index < shorter.len() {
            assert(page_number(shorter[index]) == page);
        }
    }
    if is_guard(shorter, page) {
        let index = choose|index: int|
            0 <= index < shorter.len() && page_number(#[trigger] shorter[index]) == page;
        assert(page_number(guards[index]) == page);
    }
    if page_number(guards.last()) == page {
        assert(page_number(guards[guards.len() - 1]) == page);
    }
}

pub proof fn lemma_new_paging_wf(arena: ArenaView, root: u64, low: int)
    requires
        root % 4096 == 0,
        low <= root,
        root + 4096 <= arena.next <= arena.end <= PHYSICAL_LIMIT,
    ensures
        new_paging(arena, root).wf(low),
        forall|page: int, entry: u64|
            !#[trigger] maps_to(new_paging(arena, root).tree, page, entry),
{
    assert(new_paging(arena, root).tree.mapped_pages() =~= Set::empty());
}

/// Tables that could be built are well-formed, and lie in the arena.
#[verifier::spinoff_prover]
pub proof fn lemma_host_paging_wf(
    arena: ArenaView,
    descriptors: Seq<EfiMemoryDescriptor>,
    guards: Seq<u64>,
    nx_enabled: bool,
)
    requires
        arena.next <= arena.end <= PHYSICAL_LIMIT,
        host_paging(arena, descriptors, guards, nx_enabled).1 is None,
    ensures
        ({
            let built = host_paging(arena, descriptors, guards, nx_enabled).0;
            &&& built.wf(arena.next as int)
            &&& arena.next <= built.arena.next
            &&& built.arena.end == arena.end
        }),
{
    lemma_arena_page(arena);
    let low = arena.next as int;
    let (rest, page) = arena.allocate_pages(1);
    lemma_new_paging_wf(rest, page->0, low);
    let start = new_paging(rest, page->0);
    start.lemma_map_all(descriptors, nx_enabled, low);
    start.map_all(descriptors, nx_enabled).0.lemma_unmap_all(guards, low);
}

/// Tables that could be built map exactly the memory that the descriptors
/// describe, except the guard pages, and count the pages that they map.
#[verifier::spinoff_prover]
pub proof fn law_tables_map_what_is_described(
    arena: ArenaView,
    descriptors: Seq<EfiMemoryDescriptor>,
    guards: Seq<u64>,
    nx_enabled: bool,
)
    requires
        arena.next <= arena.end <= PHYSICAL_LIMIT,
        host_paging(arena, descriptors, guards, nx_enabled).1 is None,
    ensures
        ({
            let built = host_paging(arena, descriptors, guards, nx_enabled).0;
            &&& forall|page: int, entry: u64| #[trigger]
                maps_to(built.tree, page, entry) <==> described(
                    descriptors,
                    nx_enabled,
                    page,
                    entry,
                ) && !is_guard(guards, page)
            &&& built.mapped == built.tree.mapped_pages().len()
            &&& built.tree.mapped_pages().finite()
        }),
{
    lemma_arena_page(arena);
    let low = arena.next as int;
    let (rest, page) = arena.allocate_pages(1);
    let root = page->0;
    lemma_new_paging_wf(rest, root, low);
    let start = new_paging(rest, root);
    start.lemma_map_all(descriptors, nx_enabled, low);
    let mapped = start.map_all(descriptors, nx_enabled).0;
    mapped.lemma_unmap_all(guards, low);
    let built = host_paging(arena, descriptors, guards, nx_enabled).0;
    assert forall|page: int, entry: u64| #[trigger]
        maps_to(built.tree, page, entry) <==> described(descriptors, nx_enabled, page, entry)
            && !is_guard(guards, page) by {
        assert(maps_to(mapped.tree, page, entry) <==> maps_to(start.tree, page, entry)
            || described(descriptors, nx_enabled, page, entry));
    }
}

/// An address in described memory, outside the page at zero and the guard
/// pages, leads to itself; it may be written, and executed only where the
/// firmware put code or the processor cannot forbid it.
#[verifier::spinoff_prover]
pub proof fn law_described_memory_is_mapped_to_itself(
    arena: ArenaView,
    descriptors: Seq<EfiMemoryDescriptor>,
    guards: Seq<u64>,
    nx_enabled: bool,
    index: int,
    address: u64,
)
    requires
        arena.next <= arena.end <= PHYSICAL_LIMIT,
        host_paging(arena, descriptors, guards, nx_enabled).1 is None,
        0 <= index < descriptors.len(),
        descriptors[index].physical_start % 4096 == 0,
        first_mapped(descriptors[index]) <= address < mapped_end(descriptors[index]),
        address < 0x1_0000_0000_0000,
        !is_guard(guards, page_number(address)),
    ensures
        host_paging(arena, descriptors, guards, nx_enabled).0.tree.translate(address) == Some(
            Translation {
                physical: address as int,
                writable: true,
                no_execute: nx_enabled && !is_code(descriptors[index]),
            },
        ),
{
    let built = host_paging(arena, descriptors, guards, nx_enabled).0;
    let descriptor = descriptors[index];
    let flags = leaf_flags(nx_enabled, is_code(descriptor));
    law_tables_map_what_is_described(arena, descriptors, guards, nx_enabled);
    let at = (address - address % 4096) as u64;
    let page = page_number(address);
    assert(first_mapped(descriptor) % 4096 == 0);
    assert(page_number(at) == page);
    assert(range_has(first_mapped(descriptor), mapped_end(descriptor), page, at));
    assert(descriptor_maps(descriptor, nx_enabled, page, at | flags)) by {
        assert(descriptor.number_of_pages > 0);
    }
    assert(described(descriptors, nx_enabled, page, at | flags));
    assert(maps_to(built.tree, page, at | flags));
    assert(address < PHYSICAL_LIMIT);
    lemma_leaf_entry(at, nx_enabled, is_code(descriptor));
    lemma_leaf_is_present(at, nx_enabled, is_code(descriptor));
}

/// A guard page is not mapped, nor is any address of it.
pub proof fn law_guard_pages_are_not_mapped(
    arena: ArenaView,
    descriptors: Seq<EfiMemoryDescriptor>,
    guards: Seq<u64>,
    nx_enabled: bool,
    address: u64,
)
    requires
        arena.next <= arena.end <= PHYSICAL_LIMIT,
        host_paging(arena, descriptors, guards, nx_enabled).1 is None,
        is_guard(guards, page_number(address)),
    ensures
        host_paging(arena, descriptors, guards, nx_enabled).0.tree.translate(address) is None,
{
    let tree = host_paging(arena, descriptors, guards, nx_enabled).0.tree;
    law_tables_map_what_is_described(arena, descriptors, guards, nx_enabled);
    if tree.leaf(page_number(address)) is Some {
        assert(maps_to(tree, page_number(address), tree.leaf(page_number(address))->0));
    }
}

/// Where all described memory starts at pages and lies below 2^48, an address
/// that is mapped lies in described memory and not in the page at zero.
#[verifier::spinoff_prover]
pub proof fn law_nothing_else_is_mapped(
    arena: ArenaView,
    descriptors: Seq<EfiMemoryDescriptor>,
    guards: Seq<u64>,
    nx_enabled: bool,
    address: u64,
)
    requires
        arena.next <= arena.end <= PHYSICAL_LIMIT,
        host_paging(arena, descriptors, guards, nx_enabled).1 is None,
        forall|index: int|
            0 <= index < descriptors.len() ==> (#[trigger] descriptors[index]).physical_start % 4096
                == 0 && mapped_end(descriptors[index]) <= 0x1_0000_0000_0000,
        address < 0x1_0000_0000_0000,
        host_paging(arena, descriptors, guards, nx_enabled).0.tree.translate(address) is Some,
    ensures
        address >= 4096,
        exists|index: int|
            0 <= index < descriptors.len() && (#[trigger] descriptors[index]).physical_start
                <= address < mapped_end(descriptors[index]),
{
    let tree = host_paging(arena, descriptors, guards, nx_enabled).0.tree;
    let page = page_number(address);
    law_tables_map_what_is_described(arena, descriptors, guards, nx_enabled);
    let entry = tree.leaf(page)->0;
    assert(maps_to(tree, page, entry));
    let index = choose|index: int|
        0 <= index < descriptors.len() && #[trigger] descriptor_maps(
            descriptors[index],
            nx_enabled,
            page,
            entry,
        );
    let descriptor = descriptors[index];
    let flags = leaf_flags(nx_enabled, is_code(descriptor));
    let at = choose|at: u64| #[trigger]
        range_has(first_mapped(descriptor), mapped_end(descriptor), page, at) && entry == at
            | flags;
    assert(range_has(first_mapped(descriptor), mapped_end(descriptor), page, at));
    assert(at % 4096 == 0);
    assert(page_number(at) == at as int / 4096);
    assert(page == address as int / 4096);
    assert(at <= address < at + 4096);
    assert(mapped_end(descriptor) % 4096 == 0);
    assert(descriptors[index].physical_start <= address);
}

} // verus!
