//! The host's page tables: every piece of memory that the firmware describes,
//! mapped at its own address, but for the page at address zero and the guard
//! pages.

use crate::arch::x86_64::entry::{
    leaf_flags, lemma_indices, lemma_table_entry, lemma_zero_entry, page_number, split_entry, walk,
    word, ADDRESS_MASK, ENTRY_COUNT, HUGE, NO_EXECUTE, PHYSICAL_LIMIT, PRESENT, WRITABLE,
};
use crate::arch::x86_64::instructions::{answers, run, Procedure, Processor, Reply, Request, Step};
use crate::arch::x86_64::page_errors::{described_pages, law_count_is_described_pages_less_guards};
use crate::arch::x86_64::page_tree::{
    host_paging, lemma_split_entry, lemma_walk, new_paging, slots,
    HostPaging, PageTree,
};
use crate::boot_alloc::BootArena;
use crate::memory::MemoryMap;
use crate::phys::{covers, same_outside, PhysMemory};
use crate::uefi::EfiMemoryDescriptor;
use vstd::prelude::*;

verus! {

pub const PAGE_SIZE: u64 = 4096;

pub const LARGE_PAGE_SIZE: u64 = 0x20_0000;

pub const IA32_EFER: u32 = 0xc000_0080;

pub const EFER_NXE: u64 = 0x800;

pub const CPUID_EXTENDED_MAX: u32 = 0x8000_0000;

pub const CPUID_EXTENDED_FEATURES: u32 = 0x8000_0001;

pub const CPUID_EDX_NX: u32 = 0x10_0000;

pub const CR0_WRITE_PROTECT: u64 = 0x1_0000;

pub const EFI_LOADER_CODE: u32 = 1;

pub const EFI_BOOT_SERVICES_CODE: u32 = 3;

pub const EFI_RUNTIME_SERVICES_CODE: u32 = 5;

/// Why the host's page tables cannot be built.
#[derive(Clone, Copy, Debug, PartialEq, Eq, Structural)]
pub enum PagingError {
    ArenaExhausted,
    AddressOverflow,
    PhysicalAddressTooWide,
    MappingConflict,
    MissingGuardMapping,
}

impl PagingError {
    /// The number under which the error is logged.
    pub open spec fn number(self) -> u64 {
        match self {
            PagingError::ArenaExhausted => 0u64,
            PagingError::AddressOverflow => 1u64,
            PagingError::PhysicalAddressTooWide => 2u64,
            PagingError::MappingConflict => 3u64,
            PagingError::MissingGuardMapping => 4u64,
        }
    }

    /// The number under which the error is logged.
    pub fn code(self) -> (number: u64)
        ensures
            number == self.number(),
    {
        match self {
            PagingError::ArenaExhausted => 0,
            PagingError::AddressOverflow => 1,
            PagingError::PhysicalAddressTooWide => 2,
            PagingError::MappingConflict => 3,
            PagingError::MissingGuardMapping => 4,
        }
    }
}

/// Nine bits of the address from bit `shift` on: the index into a table.
pub fn index(address: u64, shift: u32) -> (result: usize)
    requires
        shift < 64,
    ensures
        result == (address >> shift) & 0x1ff,
        result < 512,
{
    let bits: u64 = address >> shift;
    proof {
        assert(bits & 0x1ff < 512) by (bit_vector);
    }
    (bits & 0x1ff) as usize
}

/// The address of an entry of the table at `table`.
pub fn entry_pointer(table: u64, index: usize) -> (address: u64)
    requires
        index < ENTRY_COUNT,
        table + 4096 <= u64::MAX,
    ensures
        address == table + 8 * index,
{
    table + 8 * (index as u64)
}

/// A zeroed page of the arena.
pub fn allocate_table(arena: &mut BootArena, memory: &mut PhysMemory) -> (result: Result<
    u64,
    PagingError,
>)
    requires
        old(arena).wf(),
        old(arena)@.end <= PHYSICAL_LIMIT,
        old(memory).wf(),
        covers(old(memory)@, old(arena)@.next as int, old(arena)@.end as int),
    ensures
        final(arena).wf(),
        final(memory).wf(),
        final(arena)@ == old(arena)@.allocate_pages(1).0,
        match result {
            Ok(table) => {
                &&& old(arena)@.allocate_pages(1).1 == Some(table)
                &&& same_outside(old(memory)@, final(memory)@, table as int, table + 4096)
                &&& forall|at: int| 0 <= at < 512 ==> #[trigger] word(final(memory)@, table, at) == 0
            },
            Err(error) => {
                &&& old(arena)@.allocate_pages(1).1 is None
                &&& error == PagingError::ArenaExhausted
                &&& *final(memory) == *old(memory)
            },
        },
{
    let ghost before = arena@;
    match arena.allocate_pages(1) {
        Some(page) => {
            proof {
                crate::boot_alloc::law_allocation_lies_in_the_arena(before, 4096, 4096);
            }
            memory.zero_page(page);
            assert forall|at: int| 0 <= at < 512 implies #[trigger] word(memory@, page, at)
                == 0 by {
                assert(memory@[page + 8 * at] == 0);
            }
            Ok(page)
        },
        None => Err(PagingError::ArenaExhausted),
    }
}

/// The host's page tables.
#[derive(Debug)]
pub struct HostPageTables {
    root: u64,
    mapped_4k_pages: u64,
    nx_enabled: bool,
}

impl HostPageTables {
    /// The address of the top table.
    pub closed spec fn top(&self) -> u64 {
        self.root
    }

    /// How many 4 KiB pages are mapped.
    pub closed spec fn page_count(&self) -> u64 {
        self.mapped_4k_pages
    }

    /// Memory that holds no code is mapped as not executable.
    pub closed spec fn guards_data(&self) -> bool {
        self.nx_enabled
    }

    /// Builds the tables in pages of the arena, which lies in `memory`, below the
    /// end of physical addresses.
    /// `nx_enabled` tells whether the processor knows no-execute pages.
    #[verifier::spinoff_prover]
    pub fn build(
        memory_map: MemoryMap<'_>,
        arena: &mut BootArena,
        memory: &mut PhysMemory,
        guard_pages: &[u64],
        nx_enabled: bool,
    ) -> (result: Result<Self, PagingError>)
        requires
            memory_map.wf(),
            old(arena).wf(),
            old(memory).wf(),
            old(arena)@.end <= PHYSICAL_LIMIT,
            covers(old(memory)@, old(arena)@.next as int, old(arena)@.end as int),
        ensures
            final(arena).wf(),
            final(memory).wf(),
            ({
                let (built, error) = host_paging(
                    old(arena)@,
                    memory_map@,
                    guard_pages@,
                    nx_enabled,
                );
                &&& error == result.err()
                &&& final(arena)@ == built.arena
                &&& same_outside(
                    old(memory)@,
                    final(memory)@,
                    old(arena)@.next as int,
                    final(arena)@.next as int,
                )
                &&& built.tree.is_in(final(memory)@)
                &&& result matches Ok(tables) ==> {
                    &&& tables.top() == built.tree.tables[(4, 0)]
                    &&& tables.page_count() == built.mapped
                    &&& tables.page_count() == described_pages(memory_map@) - guard_pages@.len()
                    &&& tables.guards_data() == nx_enabled
                    &&& forall|address: u64| #[trigger]
                        walk(final(memory)@, tables.top(), address) == built.tree.translate(address)
                }
            }),
    {
        let ghost low = arena@.next as int;
        let ghost begin = arena@;
        let root: u64 = allocate_table(arena, memory)?;
        let mut builder = Builder {
            root,
            mapped_4k_pages: 0,
            nx_enabled,
            built: Ghost(new_paging(arena@, root)),
            low: Ghost(low),
        };
        proof {
            crate::boot_alloc::law_allocation_lies_in_the_arena(begin, 4096, 4096);
            lemma_new_paging(arena@, root, low, memory@);
        }
        let ghost start = builder.built@;
        proof {
            start.lemma_map_all(memory_map@, nx_enabled, low);
        }
        builder.map_all(memory, arena, memory_map)?;
        proof {
            builder.built@.lemma_unmap_all(guard_pages@, low);
        }
        builder.unmap_all(memory, arena, guard_pages)?;
        proof {
            law_count_is_described_pages_less_guards(
                begin,
                memory_map@,
                guard_pages@,
                nx_enabled,
            );
            let tree = builder.built@.tree;
            assert forall|address: u64| #[trigger]
                walk(memory@, root, address) == tree.translate(address) by {
                lemma_walk(tree, memory@, low, builder.built@.arena.next as int, address);
            }
        }
        Ok(
            Self {
                root,
                mapped_4k_pages: builder.mapped_4k_pages,
                nx_enabled,
            },
        )
    }

    /// The values that CR0 and CR3 take when the tables come into use, given
    /// CR0 as it is: write protection goes on.
    pub fn activate(&self, cr0: u64) -> (registers: (u64, u64))
        ensures
            registers == (cr0 | 0x1_0000u64, self.top()),
    {
        (cr0 | CR0_WRITE_PROTECT, self.root)
    }

    /// The address of the top table.
    pub fn root(&self) -> (address: u64)
        ensures
            address == self.top(),
    {
        self.root
    }

    /// How many 4 KiB pages are mapped; a large page counts as 512.
    pub fn mapped_4k_pages(&self) -> (count: u64)
        ensures
            count == self.page_count(),
    {
        self.mapped_4k_pages
    }

    /// Whether memory without code is mapped as not executable.
    pub fn nx_enabled(&self) -> (enabled: bool)
        ensures
            enabled == self.guards_data(),
    {
        self.nx_enabled
    }
}

/// A zeroed top table is an empty tree.
proof fn lemma_new_paging(
    arena: crate::boot_alloc::ArenaView,
    root: u64,
    low: int,
    memory: Map<int, u64>,
)
    requires
        root % 4096 == 0,
        low <= root,
        root + 4096 <= arena.next <= arena.end <= PHYSICAL_LIMIT,
        forall|at: int| 0 <= at < 512 ==> #[trigger] word(memory, root, at) == 0,
    ensures
        new_paging(arena, root).wf(low),
        new_paging(arena, root).tree.is_in(memory),
{
    let built = new_paging(arena, root);
    assert(built.tree.mapped_pages() =~= Set::empty());
}

pub proof fn lemma_map_all_stops(
    start: HostPaging,
    descriptors: Seq<EfiMemoryDescriptor>,
    nx_enabled: bool,
    upto: int,
)
    requires
        0 <= upto <= descriptors.len(),
    ensures
        start.map_all(descriptors.take(upto), nx_enabled).1 is Some ==> start.map_all(
            descriptors,
            nx_enabled,
        ) == start.map_all(descriptors.take(upto), nx_enabled),
    decreases descriptors.len() - upto,
{
    if upto < descriptors.len() {
        lemma_map_all_stops(start, descriptors, nx_enabled, upto + 1);
        assert(descriptors.take(upto + 1).drop_last() =~= descriptors.take(upto));
    } else {
        assert(descriptors.take(upto) =~= descriptors);
    }
}

pub proof fn lemma_unmap_all_stops(start: HostPaging, guards: Seq<u64>, upto: int)
    requires
        0 <= upto <= guards.len(),
    ensures
        start.unmap_all(guards.take(upto)).1 is Some ==> start.unmap_all(guards)
            == start.unmap_all(guards.take(upto)),
    decreases guards.len() - upto,
{
    if upto < guards.len() {
        lemma_unmap_all_stops(start, guards, upto + 1);
        assert(guards.take(upto + 1).drop_last() =~= guards.take(upto));
    } else {
        assert(guards.take(upto) =~= guards);
    }
}

/// Tables under construction.
struct Builder {
    root: u64,
    mapped_4k_pages: u64,
    nx_enabled: bool,
    built: Ghost<HostPaging>,
    low: Ghost<int>,
}

impl Builder {
    spec fn inv(self, memory: PhysMemory, arena: BootArena) -> bool {
        &&& self.built@.wf(self.low@)
        &&& self.built@.arena == arena@
        &&& self.built@.mapped == self.mapped_4k_pages
        &&& self.built@.tree.tables[(4, 0)] == self.root
        &&& self.built@.tree.is_in(memory@)
        &&& memory.wf()
        &&& arena.wf()
        &&& self.low@ <= arena@.next
        &&& covers(memory@, self.low@, arena@.end as int)
    }

    /// `self` carries on where `before` was.
    spec fn follows(self, before: Builder) -> bool {
        &&& self.root == before.root
        &&& self.nx_enabled == before.nx_enabled
        &&& self.low == before.low
    }

    fn leaf_flags(&self, executable: bool) -> (flags: u64)
        ensures
            flags == leaf_flags(self.nx_enabled, executable),
    {
        let nx: u64 = if self.nx_enabled && !executable {
            NO_EXECUTE
        } else {
            0
        };
        PRESENT | WRITABLE | nx
    }

    #[verifier::spinoff_prover]
    fn next_table(
        &mut self,
        memory: &mut PhysMemory,
        arena: &mut BootArena,
        table: u64,
        entry_index: usize,
        Ghost(level): Ghost<int>,
        Ghost(slot): Ghost<int>,
    ) -> (result: Result<u64, PagingError>)
        requires
            old(self).inv(*old(memory), *old(arena)),
            1 <= level <= 3,
            0 <= slot < slots(level),
            old(self).built@.tree.tables.contains_key((level + 1, slot / 512)),
            table == old(self).built@.tree.tables[(level + 1, slot / 512)],
            entry_index == slot % 512,
        ensures
            final(self).inv(*final(memory), *final(arena)),
            final(self).follows(*old(self)),
            final(self).built@ == old(self).built@.with_table(level, slot).0,
            same_outside(
                old(memory)@,
                final(memory)@,
                final(self).low@,
                final(arena)@.next as int,
            ),
            match result {
                Ok(next) => {
                    &&& old(self).built@.with_table(level, slot).1 is None
                    &&& final(self).built@.tree.tables.contains_key((level, slot))
                    &&& next == final(self).built@.tree.tables[(level, slot)]
                },
                Err(error) => old(self).built@.with_table(level, slot).1 == Some(error),
            },
    {
        let ghost before = self.built@;
        let ghost first = memory@;
        let ghost start = arena@;
        proof {
            before.lemma_with_table(level, slot, self.low@);
            lemma_zero_entry();
            assert(before.tree.table_is_in(memory@, level + 1, slot / 512));
            assert(word(memory@, table, entry_index as int) == before.tree.entry(level + 1, slot));
        }
        let entry: u64 = entry_pointer(table, entry_index);
        let value: u64 = memory.read(entry);
        proof {
            if before.tree.tables.contains_key((level, slot)) {
                lemma_table_entry(before.tree.tables[(level, slot)]);
            }
            if level == 1 && before.tree.huge.contains_key(slot) {
                lemma_split_entry(before.tree.huge[slot], 0);
            }
        }
        if value & PRESENT != 0 {
            if value & HUGE != 0 {
                return Err(PagingError::MappingConflict);
            }
            return Ok(value & ADDRESS_MASK);
        }
        let next: u64 = match allocate_table(arena, memory) {
            Ok(next) => next,
            Err(error) => {
                proof {
                    self.built@ = before.with_table(level, slot).0;
                }
                return Err(error);
            },
        };
        let ghost zeroed = memory@;
        memory.write(entry, next | PRESENT | WRITABLE);
        proof {
            crate::boot_alloc::law_allocation_lies_in_the_arena(start, 4096, 4096);
            self.built@ = before.with_table(level, slot).0;
            assert(memory@.dom() =~= first.dom());
            assert forall|at: int| 0 <= at < 512 implies #[trigger] word(memory@, next, at)
                == 0 by {
                assert(word(zeroed, next, at) == 0);
            }
            lemma_table_added(
                before.tree,
                first,
                memory@,
                self.low@,
                start.next as int,
                level,
                slot,
                next,
            );
        }
        Ok(next)
    }
    #[verifier::spinoff_prover]
    fn map_4k(
        &mut self,
        memory: &mut PhysMemory,
        arena: &mut BootArena,
        address: u64,
        executable: bool,
    ) -> (result: Result<(), PagingError>)
        requires
            old(self).inv(*old(memory), *old(arena)),
        ensures
            final(self).inv(*final(memory), *final(arena)),
            final(self).follows(*old(self)),
            same_outside(
                old(memory)@,
                final(memory)@,
                final(self).low@,
                final(arena)@.next as int,
            ),
            ({
                let flags = leaf_flags(old(self).nx_enabled, executable);
                let (built, error) = old(self).built@.map_4k(address, flags);
                final(self).built@ == built && error == result.err()
            }),
    {
        let ghost page = page_number(address);
        let ghost before = self.built@;
        let ghost flags = leaf_flags(self.nx_enabled, executable);
        proof {
            lemma_indices(address);
            lemma_page_slots(page);
            before.lemma_map_4k(address, self.nx_enabled, executable, self.low@);
        }
        let pml4: u64 = self.root;
        let pdpt: u64 = self.next_table(
            memory,
            arena,
            pml4,
            index(address, 39),
            Ghost(3),
            Ghost(page / 0x800_0000),
        )?;
        let pd: u64 = self.next_table(
            memory,
            arena,
            pdpt,
            index(address, 30),
            Ghost(2),
            Ghost(page / 0x4_0000),
        )?;
        let pt: u64 = self.next_table(
            memory,
            arena,
            pd,
            index(address, 21),
            Ghost(1),
            Ghost(page / 512),
        )?;
        let pte: u64 = entry_pointer(pt, index(address, 12));
        let ghost tree = self.built@.tree;
        let ghost held = memory@;
        proof {
            assert(tree.table_is_in(memory@, 1, page / 512));
            assert(word(memory@, pt, page % 512) == tree.entry(1, page));
            lemma_zero_entry();
        }
        if memory.read(pte) & PRESENT != 0 {
            return Err(PagingError::MappingConflict);
        }
        let flags: u64 = self.leaf_flags(executable);
        memory.write(pte, address | flags);
        proof {
            self.built@ = before.map_4k(address, flags).0;
            assert(memory@.dom() =~= held.dom());
            lemma_small_changed(
                tree,
                self.built@.tree,
                held,
                memory@,
                self.low@,
                self.built@.arena.next as int,
                page,
            );
            lemma_mapped_bound(self.built@.tree);
        }
        self.mapped_4k_pages = self.mapped_4k_pages + 1;
        Ok(())
    }
    #[verifier::spinoff_prover]
    fn map_2m(
        &mut self,
        memory: &mut PhysMemory,
        arena: &mut BootArena,
        address: u64,
        executable: bool,
    ) -> (result: Result<(), PagingError>)
        requires
            old(self).inv(*old(memory), *old(arena)),
            address % LARGE_PAGE_SIZE == 0,
            address < PHYSICAL_LIMIT,
        ensures
            final(self).inv(*final(memory), *final(arena)),
            final(self).follows(*old(self)),
            same_outside(
                old(memory)@,
                final(memory)@,
                final(self).low@,
                final(arena)@.next as int,
            ),
            ({
                let flags = leaf_flags(old(self).nx_enabled, executable);
                let (built, error) = old(self).built@.map_2m(address, flags);
                final(self).built@ == built && error == result.err()
            }),
    {
        let ghost page = page_number(address);
        let ghost slot = page / 512;
        let ghost before = self.built@;
        proof {
            lemma_indices(address);
            lemma_page_slots(page);
            before.lemma_map_2m(address, self.nx_enabled, executable, self.low@);
        }
        let pml4: u64 = self.root;
        let pdpt: u64 = self.next_table(
            memory,
            arena,
            pml4,
            index(address, 39),
            Ghost(3),
            Ghost(page / 0x800_0000),
        )?;
        let pd: u64 = self.next_table(
            memory,
            arena,
            pdpt,
            index(address, 30),
            Ghost(2),
            Ghost(page / 0x4_0000),
        )?;
        let pde: u64 = entry_pointer(pd, index(address, 21));
        let ghost tree = self.built@.tree;
        let ghost held = memory@;
        proof {
            assert(tree.table_is_in(memory@, 2, page / 0x4_0000));
            assert(word(memory@, pd, slot % 512) == tree.entry(2, slot));
            lemma_zero_entry();
            if tree.tables.contains_key((1, slot)) {
                lemma_table_entry(tree.tables[(1, slot)]);
            }
            if tree.huge.contains_key(slot) {
                lemma_split_entry(tree.huge[slot], 0);
            }
        }
        if memory.read(pde) & PRESENT != 0 {
            return Err(PagingError::MappingConflict);
        }
        let flags: u64 = self.leaf_flags(executable);
        memory.write(pde, address | flags | HUGE);
        proof {
            self.built@ = before.map_2m(address, flags).0;
            assert(memory@.dom() =~= held.dom());
            lemma_huge_added(
                tree,
                self.built@.tree,
                held,
                memory@,
                self.low@,
                self.built@.arena.next as int,
                slot,
            );
            lemma_mapped_bound(self.built@.tree);
        }
        self.mapped_4k_pages = self.mapped_4k_pages + LARGE_PAGE_SIZE / PAGE_SIZE;
        Ok(())
    }

    fn map_identity(
        &mut self,
        memory: &mut PhysMemory,
        arena: &mut BootArena,
        start: u64,
        end: u64,
        executable: bool,
    ) -> (result: Result<(), PagingError>)
        requires
            old(self).inv(*old(memory), *old(arena)),
            end <= PHYSICAL_LIMIT,
        ensures
            final(self).inv(*final(memory), *final(arena)),
            final(self).follows(*old(self)),
            same_outside(
                old(memory)@,
                final(memory)@,
                final(self).low@,
                final(arena)@.next as int,
            ),
            ({
                let flags = leaf_flags(old(self).nx_enabled, executable);
                let first = if start < 4096 {
                    4096
                } else {
                    start
                };
                let (built, error) = old(self).built@.map_range(first, end, flags);
                final(self).built@ == built && error == result.err()
            }),
    {
        let mut address: u64 = if start < PAGE_SIZE {
            PAGE_SIZE
        } else {
            start
        };
        let ghost before = self.built@;
        let ghost first = address;
        let ghost flags = leaf_flags(self.nx_enabled, executable);
        while address < end
            invariant
                self.inv(*memory, *arena),
                self.follows(*old(self)),
                end <= PHYSICAL_LIMIT,
                flags == leaf_flags(self.nx_enabled, executable),
                before == old(self).built@,
                first == if start < 4096 {
                    4096
                } else {
                    start
                },
                same_outside(old(memory)@, memory@, self.low@, arena@.next as int),
                before.map_range(first, end, flags) == self.built@.map_range(address, end, flags),
            decreases end + 4096 - address,
        {
            let remaining: u64 = end - address;
            let ghost here = self.built@;
            proof {
                lemma_large_page_mask(address);
                here.lemma_map_4k(address, self.nx_enabled, executable, self.low@);
                if address % 0x20_0000 == 0 {
                    here.lemma_map_2m(address, self.nx_enabled, executable, self.low@);
                }
            }
            if address & (LARGE_PAGE_SIZE - 1) == 0 && remaining >= LARGE_PAGE_SIZE {
                self.map_2m(memory, arena, address, executable)?;
                address = address + LARGE_PAGE_SIZE;
            } else {
                self.map_4k(memory, arena, address, executable)?;
                address = address + PAGE_SIZE;
            }
        }
        Ok(())
    }

    fn map_descriptor(
        &mut self,
        memory: &mut PhysMemory,
        arena: &mut BootArena,
        descriptor: EfiMemoryDescriptor,
    ) -> (result: Result<(), PagingError>)
        requires
            old(self).inv(*old(memory), *old(arena)),
        ensures
            final(self).inv(*final(memory), *final(arena)),
            final(self).follows(*old(self)),
            same_outside(
                old(memory)@,
                final(memory)@,
                final(self).low@,
                final(arena)@.next as int,
            ),
            ({
                let (built, error) = old(self).built@.map_descriptor(
                    descriptor,
                    old(self).nx_enabled,
                );
                final(self).built@ == built && error == result.err()
            }),
    {
        if descriptor.number_of_pages == 0 {
            return Ok(());
        }
        let length: u64 = match descriptor.number_of_pages.checked_mul(PAGE_SIZE) {
            Some(length) => length,
            None => return Err(PagingError::AddressOverflow),
        };
        let end: u64 = match descriptor.physical_start.checked_add(length) {
            Some(end) => end,
            None => return Err(PagingError::AddressOverflow),
        };
        if end > PHYSICAL_LIMIT {
            return Err(PagingError::PhysicalAddressTooWide);
        }
        let executable = descriptor.memory_type == EFI_LOADER_CODE || descriptor.memory_type
            == EFI_BOOT_SERVICES_CODE || descriptor.memory_type == EFI_RUNTIME_SERVICES_CODE;
        self.map_identity(memory, arena, descriptor.physical_start, end, executable)
    }

    fn map_all(
        &mut self,
        memory: &mut PhysMemory,
        arena: &mut BootArena,
        memory_map: MemoryMap<'_>,
    ) -> (result: Result<(), PagingError>)
        requires
            memory_map.wf(),
            old(self).inv(*old(memory), *old(arena)),
        ensures
            final(self).inv(*final(memory), *final(arena)),
            final(self).follows(*old(self)),
            same_outside(
                old(memory)@,
                final(memory)@,
                final(self).low@,
                final(arena)@.next as int,
            ),
            ({
                let (built, error) = old(self).built@.map_all(memory_map@, old(self).nx_enabled);
                final(self).built@ == built && error == result.err()
            }),
    {
        let ghost start = self.built@;
        let ghost descriptors = memory_map@;
        let mut iterator = memory_map.descriptors();
        let ghost mut done: int = 0;
        proof {
            assert(descriptors.take(0) =~= Seq::empty());
            assert(descriptors.skip(0) =~= descriptors);
        }
        loop
            invariant
                self.inv(*memory, *arena),
                self.follows(*old(self)),
                same_outside(old(memory)@, memory@, self.low@, arena@.next as int),
                iterator.wf(),
                0 <= done <= descriptors.len(),
                iterator.remaining() == descriptors.skip(done),
                start == old(self).built@,
                descriptors == memory_map@,
                start.map_all(descriptors.take(done), self.nx_enabled) == (
                    self.built@,
                    None::<PagingError>,
                ),
            ensures
                done == descriptors.len(),
            decreases descriptors.len() - done,
        {
            let descriptor = match iterator.next() {
                Some(descriptor) => descriptor,
                None => break,
            };
            proof {
                assert(descriptor == descriptors[done]);
                assert(descriptors.skip(done).skip(1) =~= descriptors.skip(done + 1));
                assert(descriptors.take(done + 1).drop_last() =~= descriptors.take(done));
                assert(descriptors.take(done + 1).last() == descriptor);
                lemma_map_all_stops(start, descriptors, self.nx_enabled, done + 1);
                self.built@.lemma_map_descriptor(descriptor, self.nx_enabled, self.low@);
                done = done + 1;
            }
            self.map_descriptor(memory, arena, descriptor)?;
        }
        proof {
            assert(descriptors.take(done) =~= descriptors);
        }
        Ok(())
    }

    fn unmap_all(
        &mut self,
        memory: &mut PhysMemory,
        arena: &mut BootArena,
        guard_pages: &[u64],
    ) -> (result: Result<(), PagingError>)
        requires
            old(self).inv(*old(memory), *old(arena)),
        ensures
            final(self).inv(*final(memory), *final(arena)),
            final(self).follows(*old(self)),
            same_outside(
                old(memory)@,
                final(memory)@,
                final(self).low@,
                final(arena)@.next as int,
            ),
            ({
                let (built, error) = old(self).built@.unmap_all(guard_pages@);
                final(self).built@ == built && error == result.err()
            }),
    {
        let ghost start = self.built@;
        let ghost guards = guard_pages@;
        let mut index: usize = 0;
        proof {
            assert(guards.take(0) =~= Seq::empty());
        }
        while index < guard_pages.len()
            invariant
                self.inv(*memory, *arena),
                self.follows(*old(self)),
                same_outside(old(memory)@, memory@, self.low@, arena@.next as int),
                index <= guards.len(),
                guards == guard_pages@,
                start == old(self).built@,
                start.unmap_all(guards.take(index as int)) == (self.built@, None::<PagingError>),
            decreases guards.len() - index,
        {
            let guard: u64 = guard_pages[index];
            proof {
                assert(guards.take(index + 1).drop_last() =~= guards.take(index as int));
                assert(guards.take(index + 1).last() == guard);
                lemma_unmap_all_stops(start, guards, index + 1);
                self.built@.lemma_unmap_4k(guard, self.low@);
            }
            self.unmap_4k(memory, arena, guard)?;
            index = index + 1;
        }
        proof {
            assert(guards.take(index as int) =~= guards);
        }
        Ok(())
    }

    fn existing_table(
        &self,
        memory: &PhysMemory,
        table: u64,
        entry_index: usize,
        Ghost(level): Ghost<int>,
        Ghost(slot): Ghost<int>,
        Ghost(arena): Ghost<BootArena>,
    ) -> (result: Result<u64, PagingError>)
        requires
            self.inv(*memory, arena),
            2 <= level <= 3,
            0 <= slot < slots(level),
            self.built@.tree.tables.contains_key((level + 1, slot / 512)),
            table == self.built@.tree.tables[(level + 1, slot / 512)],
            entry_index == slot % 512,
        ensures
            match result {
                Ok(next) => {
                    &&& self.built@.tree.tables.contains_key((level, slot))
                    &&& next == self.built@.tree.tables[(level, slot)]
                },
                Err(error) => {
                    &&& !self.built@.tree.tables.contains_key((level, slot))
                    &&& error == PagingError::MissingGuardMapping
                },
            },
    {
        proof {
            let tree = self.built@.tree;
            lemma_zero_entry();
            assert(tree.table_is_in(memory@, level + 1, slot / 512));
            assert(word(memory@, table, entry_index as int) == tree.entry(level + 1, slot));
            if tree.tables.contains_key((level, slot)) {
                lemma_table_entry(tree.tables[(level, slot)]);
            }
        }
        let value: u64 = memory.read(entry_pointer(table, entry_index));
        if value & PRESENT == 0 || value & HUGE != 0 {
            return Err(PagingError::MissingGuardMapping);
        }
        Ok(value & ADDRESS_MASK)
    }
    #[verifier::spinoff_prover]
    fn split_large_page(
        &mut self,
        memory: &mut PhysMemory,
        arena: &mut BootArena,
        pde: u64,
        pde_value: u64,
        Ghost(slot): Ghost<int>,
    ) -> (result: Result<u64, PagingError>)
        requires
            old(self).inv(*old(memory), *old(arena)),
            old(self).built@.tree.huge.contains_key(slot),
            pde_value == old(self).built@.tree.huge[slot],
            pde == old(self).built@.tree.tables[(2, slot / 512)] + 8 * (slot % 512),
        ensures
            final(self).inv(*final(memory), *final(arena)),
            final(self).follows(*old(self)),
            final(self).built@ == old(self).built@.split(slot).0,
            same_outside(
                old(memory)@,
                final(memory)@,
                final(self).low@,
                final(arena)@.next as int,
            ),
            match result {
                Ok(table) => {
                    &&& old(self).built@.split(slot).1 is None
                    &&& table == final(self).built@.tree.tables[(1, slot)]
                },
                Err(error) => old(self).built@.split(slot).1 == Some(error),
            },
    {
        let ghost before = self.built@;
        let ghost first = memory@;
        let ghost start = arena@;
        proof {
            before.lemma_split(slot, self.low@);
            lemma_split_entry(pde_value, 0);
        }
        let new_pt: u64 = match allocate_table(arena, memory) {
            Ok(table) => table,
            Err(error) => {
                proof {
                    self.built@ = before.split(slot).0;
                }
                return Err(error);
            },
        };
        proof {
            crate::boot_alloc::law_allocation_lies_in_the_arena(start, 4096, 4096);
        }
        let base: u64 = pde_value & ADDRESS_MASK;
        let flags: u64 = pde_value & !ADDRESS_MASK & !HUGE;
        let mut offset: usize = 0;
        while offset < ENTRY_COUNT
            invariant
                offset <= ENTRY_COUNT,
                memory.wf(),
                new_pt % 4096 == 0,
                new_pt + 4096 <= PHYSICAL_LIMIT,
                covers(first, new_pt as int, new_pt + 4096),
                same_outside(first, memory@, new_pt as int, new_pt + 4096),
                base == pde_value & ADDRESS_MASK,
                flags == pde_value & !ADDRESS_MASK & !HUGE,
                base < PHYSICAL_LIMIT,
                forall|at: int|
                    0 <= at < offset ==> #[trigger] word(memory@, new_pt, at) == split_entry(
                        pde_value,
                        at,
                    ),
            decreases ENTRY_COUNT - offset,
        {
            let page: u64 = base + (offset as u64 * PAGE_SIZE);
            let ghost held = memory@;
            assert(first.contains_key(new_pt + 8 * offset));
            assert(held.dom().contains(new_pt + 8 * offset));
            memory.write(entry_pointer(new_pt, offset), page | flags);
            proof {
                assert(memory@.dom() =~= first.dom());
                assert forall|at: int| 0 <= at < offset + 1 implies #[trigger] word(
                    memory@,
                    new_pt,
                    at,
                ) == split_entry(pde_value, at) by {
                    if at < offset {
                        assert(word(held, new_pt, at) == split_entry(pde_value, at));
                    }
                }
            }
            offset = offset + 1;
        }
        let ghost filled = memory@;
        proof {
            assert(before.tree.tables.contains_key((2, slot / 512)));
            assert(filled.dom().contains(pde as int));
        }
        memory.write(pde, new_pt | PRESENT | WRITABLE);
        proof {
            self.built@ = before.split(slot).0;
            assert(memory@.dom() =~= first.dom());
            assert forall|at: int| 0 <= at < 512 implies #[trigger] word(memory@, new_pt, at)
                == split_entry(pde_value, at) by {
                assert(word(filled, new_pt, at) == split_entry(pde_value, at));
            }
            lemma_large_page_split(
                before,
                first,
                memory@,
                self.low@,
                start.next as int,
                slot,
                new_pt,
            );
        }
        Ok(new_pt)
    }
    #[verifier::spinoff_prover]
    fn unmap_4k(
        &mut self,
        memory: &mut PhysMemory,
        arena: &mut BootArena,
        address: u64,
    ) -> (result: Result<(), PagingError>)
        requires
            old(self).inv(*old(memory), *old(arena)),
        ensures
            final(self).inv(*final(memory), *final(arena)),
            final(self).follows(*old(self)),
            same_outside(
                old(memory)@,
                final(memory)@,
                final(self).low@,
                final(arena)@.next as int,
            ),
            ({
                let (built, error) = old(self).built@.unmap_4k(address);
                final(self).built@ == built && error == result.err()
            }),
    {
        let ghost page = page_number(address);
        let ghost slot = page / 512;
        let ghost before = self.built@;
        proof {
            lemma_indices(address);
            lemma_page_slots(page);
            before.lemma_unmap_4k(address, self.low@);
        }
        let pdpt: u64 = self.existing_table(
            memory,
            self.root,
            index(address, 39),
            Ghost(3),
            Ghost(page / 0x800_0000),
            Ghost(*arena),
        )?;
        let pd: u64 = self.existing_table(
            memory,
            pdpt,
            index(address, 30),
            Ghost(2),
            Ghost(page / 0x4_0000),
            Ghost(*arena),
        )?;
        let pde: u64 = entry_pointer(pd, index(address, 21));
        proof {
            let tree = before.tree;
            assert(tree.table_is_in(memory@, 2, page / 0x4_0000));
            assert(word(memory@, pd, slot % 512) == tree.entry(2, slot));
            lemma_zero_entry();
            if tree.huge.contains_key(slot) {
                lemma_split_entry(tree.huge[slot], 0);
            } else if tree.tables.contains_key((1, slot)) {
                lemma_table_entry(tree.tables[(1, slot)]);
            }
        }
        let pde_value: u64 = memory.read(pde);
        let pt: u64 = if pde_value & PRESENT == 0 {
            return Err(PagingError::MissingGuardMapping);
        } else if pde_value & HUGE != 0 {
            self.split_large_page(memory, arena, pde, pde_value, Ghost(slot))?
        } else {
            pde_value & ADDRESS_MASK
        };
        let ghost split = self.built@;
        let ghost held = memory@;
        let pte: u64 = entry_pointer(pt, index(address, 12));
        proof {
            assert(split.tree.tables.contains_key((1, slot)));
            assert(split.tree.table_is_in(memory@, 1, slot));
            assert(word(memory@, pt, page % 512) == split.tree.entry(1, page));
        }
        if memory.read(pte) & PRESENT == 0 {
            return Err(PagingError::MissingGuardMapping);
        }
        memory.write(pte, 0);
        proof {
            self.built@ = split.drop_page(page).0;
            assert(memory@.dom() =~= held.dom());
            lemma_small_changed(
                split.tree,
                self.built@.tree,
                held,
                memory@,
                self.low@,
                split.arena.next as int,
                page,
            );
        }
        self.mapped_4k_pages = self.mapped_4k_pages - 1;
        Ok(())
    }
}

proof fn lemma_large_page_mask(value: u64)
    ensures
        (value & 0x1f_ffff == 0) <==> value % 0x20_0000 == 0,
{
    assert((value & 0x1f_ffff == 0) <==> value % 0x20_0000 == 0) by (bit_vector);
}

/// Writing the entry of a large page gives the tree with that entry.
#[verifier::spinoff_prover]
proof fn lemma_huge_added(
    tree: PageTree,
    next: PageTree,
    before: Map<int, u64>,
    after: Map<int, u64>,
    low: int,
    high: int,
    slot: int,
)
    requires
        tree.wf(low, high),
        tree.is_in(before),
        next.tables == tree.tables,
        next.small == tree.small,
        0 <= slot < slots(1),
        tree.tables.contains_key((2, slot / 512)),
        next.huge.contains_key(slot),
        forall|other: int|
            other != slot ==> (#[trigger] next.huge.contains_key(other)
                <==> tree.huge.contains_key(other)) && (tree.huge.contains_key(other)
                ==> next.huge[other] == tree.huge[other]),
        word(after, tree.tables[(2, slot / 512)], slot % 512) == next.huge[slot],
        forall|address: int|
            low <= address < high && address % 8 == 0 && address != tree.tables[(2, slot / 512)]
                + 8 * (slot % 512) ==> #[trigger] after[address] == before[address],
    ensures
        next.is_in(after),
{
    let table = tree.tables[(2, slot / 512)];
    assert forall|l: int, s: int| #[trigger]
        next.tables.contains_key((l, s)) implies next.table_is_in(after, l, s) by {
        let here = next.tables[(l, s)];
        assert forall|at: int| 0 <= at < 512 implies #[trigger] word(after, here, at)
            == next.entry(l, s * 512 + at) by {
            let child = s * 512 + at;
            assert(child / 512 == s);
            assert(tree.table_is_in(before, l, s));
            assert(word(before, here, at) == tree.entry(l, child));
            if here + 8 * at == table + 8 * (slot % 512) {
                assert(here == table);
                assert((l, s) == (2int, slot / 512)) by {
                    if (l, s) != (2int, slot / 512) {
                        assert(tree.tables[(l, s)] != tree.tables[(2int, slot / 512)]);
                    }
                }
                assert(child == slot);
            } else {
                assert(after[here + 8 * at] == before[here + 8 * at]);
                if l == 2 && child == slot {
                    assert(false);
                }
            }
        }
    }
}

/// Filling a page with the split entries of a large page, and putting it in the
/// large page's place, gives the tree with the large page split.
#[verifier::spinoff_prover]
proof fn lemma_large_page_split(
    built: HostPaging,
    before: Map<int, u64>,
    after: Map<int, u64>,
    low: int,
    high: int,
    slot: int,
    table: u64,
)
    requires
        built.tree.wf(low, high),
        built.tree.is_in(before),
        built.tree.huge.contains_key(slot),
        built.arena.allocate_pages(1).1 == Some(table),
        high <= table,
        table % 4096 == 0,
        forall|at: int|
            0 <= at < 512 ==> #[trigger] word(after, table, at) == split_entry(
                built.tree.huge[slot],
                at,
            ),
        word(after, built.tree.tables[(2, slot / 512)], slot % 512) == table | PRESENT | WRITABLE,
        forall|address: int|
            low <= address < high && address % 8 == 0 && address != built.tree.tables[(2, slot
                / 512)] + 8 * (slot % 512) ==> #[trigger] after[address] == before[address],
    ensures
        built.split(slot).0.tree.is_in(after),
{
    let tree = built.tree;
    let next = built.split(slot).0.tree;
    let parent = tree.tables[(2, slot / 512)];
    assert forall|l: int, s: int| #[trigger]
        next.tables.contains_key((l, s)) implies next.table_is_in(after, l, s) by {
        let here = next.tables[(l, s)];
        assert forall|at: int| 0 <= at < 512 implies #[trigger] word(after, here, at)
            == next.entry(l, s * 512 + at) by {
            let child = s * 512 + at;
            assert(child / 512 == s);
            if (l, s) == (1int, slot) {
                assert(512 * slot <= child < 512 * slot + 512);
                assert(next.small.contains_key(child));
                assert(child - 512 * slot == at);
            } else {
                assert(tree.tables.contains_key((l, s)));
                assert(tree.table_is_in(before, l, s));
                assert(word(before, here, at) == tree.entry(l, child));
                if here + 8 * at == parent + 8 * (slot % 512) {
                    assert(here == parent);
                    assert((l, s) == (2int, slot / 512)) by {
                        if (l, s) != (2int, slot / 512) {
                            assert(tree.tables[(l, s)] != tree.tables[(2int, slot / 512)]);
                        }
                    }
                    assert(child == slot);
                } else {
                    assert(after[here + 8 * at] == before[here + 8 * at]);
                    if l == 2 && child == slot {
                        assert(false);
                    }
                    if l == 1 {
                        assert(s != slot);
                        assert(!(512 * slot <= child < 512 * slot + 512));
                    }
                }
            }
        }
    }
}

/// The slots above a page, and the index of each in the table above it.
proof fn lemma_page_slots(page: int)
    requires
        0 <= page < slots(0),
    ensures
        0 <= page / 0x800_0000 < 512,
        page / 0x800_0000 / 512 == 0,
        page / 0x800_0000 % 512 == page / 0x800_0000,
        page / 0x4_0000 / 512 == page / 0x800_0000,
        0 <= page / 0x4_0000 < slots(2),
        page / 512 / 512 == page / 0x4_0000,
        0 <= page / 512 < slots(1),
        page == page / 512 * 512 + page % 512,
        page / 512 == page / 0x4_0000 * 512 + page / 512 % 512,
{
}

/// There are only so many pages to map.
proof fn lemma_mapped_bound(tree: PageTree)
    ensures
        tree.mapped_pages().finite() ==> tree.mapped_pages().len() <= 0x10_0000_0000,
{
    let all = vstd::set_lib::set_int_range(0, 0x10_0000_0000);
    vstd::set_lib::lemma_int_range(0, 0x10_0000_0000);
    if tree.mapped_pages().finite() {
        vstd::set_lib::lemma_len_subset(tree.mapped_pages(), all);
    }
}

/// Changing the entry of one 4 KiB page in its table gives the tree with that
/// entry.
#[verifier::spinoff_prover]
proof fn lemma_small_changed(
    tree: PageTree,
    next: PageTree,
    before: Map<int, u64>,
    after: Map<int, u64>,
    low: int,
    high: int,
    page: int,
)
    requires
        tree.wf(low, high),
        tree.is_in(before),
        next.tables == tree.tables,
        next.huge == tree.huge,
        0 <= page < slots(0),
        tree.tables.contains_key((1, page / 512)),
        forall|other: int|
            other != page ==> (#[trigger] next.small.contains_key(other)
                <==> tree.small.contains_key(other)) && (tree.small.contains_key(other)
                ==> next.small[other] == tree.small[other]),
        word(after, tree.tables[(1, page / 512)], page % 512) == next.entry(1, page),
        forall|address: int|
            low <= address < high && address % 8 == 0 && address != tree.tables[(1, page / 512)]
                + 8 * (page % 512) ==> #[trigger] after[address] == before[address],
    ensures
        next.is_in(after),
{
    let table = tree.tables[(1, page / 512)];
    assert forall|l: int, s: int| #[trigger]
        next.tables.contains_key((l, s)) implies next.table_is_in(after, l, s) by {
        let here = next.tables[(l, s)];
        assert forall|at: int| 0 <= at < 512 implies #[trigger] word(after, here, at)
            == next.entry(l, s * 512 + at) by {
            let child = s * 512 + at;
            assert(child / 512 == s);
            assert(tree.table_is_in(before, l, s));
            assert(word(before, here, at) == tree.entry(l, child));
            if here + 8 * at == table + 8 * (page % 512) {
                assert(here == table);
                assert((l, s) == (1int, page / 512)) by {
                    if (l, s) != (1int, page / 512) {
                        assert(tree.tables[(l, s)] != tree.tables[(1int, page / 512)]);
                    }
                }
                assert(child == page);
            } else {
                assert(after[here + 8 * at] == before[here + 8 * at]);
            }
        }
    }
}

/// Adding a zeroed page as a table, and its entry in the table above, gives the
/// tree with that table.
#[verifier::spinoff_prover]
proof fn lemma_table_added(
    tree: PageTree,
    before: Map<int, u64>,
    after: Map<int, u64>,
    low: int,
    high: int,
    level: int,
    slot: int,
    table: u64,
)
    requires
        tree.wf(low, high),
        tree.is_in(before),
        1 <= level <= 3,
        0 <= slot < slots(level),
        tree.tables.contains_key((level + 1, slot / 512)),
        !tree.tables.contains_key((level, slot)),
        level == 1 ==> !tree.huge.contains_key(slot),
        high <= table,
        table % 4096 == 0,
        forall|at: int| 0 <= at < 512 ==> #[trigger] word(after, table, at) == 0,
        word(after, tree.tables[(level + 1, slot / 512)], slot % 512) == table | PRESENT | WRITABLE,
        forall|address: int|
            low <= address < high && address % 8 == 0 && address != tree.tables[(level + 1, slot
                / 512)] + 8 * (slot % 512) ==> #[trigger] after[address] == before[address],
    ensures
        (PageTree { tables: tree.tables.insert((level, slot), table), ..tree }).is_in(after),
{
    let next = PageTree { tables: tree.tables.insert((level, slot), table), ..tree };
    let parent = tree.tables[(level + 1, slot / 512)];
    assert forall|l: int, s: int| #[trigger]
        next.tables.contains_key((l, s)) implies next.table_is_in(after, l, s) by {
        let here = next.tables[(l, s)];
        assert forall|at: int| 0 <= at < 512 implies #[trigger] word(after, here, at)
            == next.entry(l, s * 512 + at) by {
            let child = s * 512 + at;
            assert(child / 512 == s);
            if (l, s) == (level, slot) {
                assert(!tree.tables.contains_key((level - 1, child)));
            } else {
                assert(tree.tables.contains_key((l, s)));
                assert(tree.table_is_in(before, l, s));
                assert(word(before, here, at) == tree.entry(l, child));
                if here + 8 * at == parent + 8 * (slot % 512) {
                    assert(here == parent);
                    assert((l, s) == (level + 1, slot / 512)) by {
                        if (l, s) != (level + 1, slot / 512) {
                            assert(tree.tables[(l, s)] != tree.tables[(level + 1, slot / 512)]);
                        }
                    }
                    assert(child == slot);
                } else {
                    assert(after[here + 8 * at] == before[here + 8 * at]);
                    if child == slot && l == level + 1 {
                        assert(false);
                    }
                }
            }
        }
    }
}

/// How far switching no-execute pages on has come. The result tells whether the
/// processor has them.
#[derive(Clone, Copy, Debug, PartialEq, Eq, Structural)]
pub enum EnableNx {
    Maximum,
    Features,
    Efer,
    Written,
}

/// A step of switching no-execute pages on.
pub type EnableNxStep = Step<EnableNx, bool>;

impl EnableNx {
    /// The reply is of the kind that the state waits for.
    pub open spec fn expects(self, reply: Reply) -> bool {
        match self {
            EnableNx::Maximum | EnableNx::Features => reply is Cpuid,
            EnableNx::Efer => reply is Value,
            EnableNx::Written => reply is Done,
        }
    }

    /// Goes on with the reply to what was asked for.
    pub fn next(self, reply: Reply) -> (step: EnableNxStep)
        requires
            self.expects(reply),
        ensures
            step == self.advance(reply),
            step matches Step::Ask { state, request } ==> forall|answer: Reply|
                answers(answer, request) ==> #[trigger] state.expects(answer),
    {
        match self {
            EnableNx::Maximum => {
                if reply.cpuid().eax < CPUID_EXTENDED_FEATURES {
                    return Step::Finished { result: false };
                }
                Step::Ask {
                    state: EnableNx::Features,
                    request: Request::Cpuid { leaf: CPUID_EXTENDED_FEATURES, subleaf: 0 },
                }
            },
            EnableNx::Features => {
                if reply.cpuid().edx & CPUID_EDX_NX == 0 {
                    return Step::Finished { result: false };
                }
                Step::Ask {
                    state: EnableNx::Efer,
                    request: Request::Rdmsr { msr: IA32_EFER },
                }
            },
            EnableNx::Efer => Step::Ask {
                state: EnableNx::Written,
                request: Request::Wrmsr { msr: IA32_EFER, value: reply.value() | EFER_NXE },
            },
            EnableNx::Written => Step::Finished { result: true },
        }
    }
}

impl Procedure for EnableNx {
    type Output = bool;

    open spec fn advance(self, reply: Reply) -> EnableNxStep {
        match self {
            EnableNx::Maximum => if reply->result.eax < CPUID_EXTENDED_FEATURES {
                Step::Finished { result: false }
            } else {
                Step::Ask {
                    state: EnableNx::Features,
                    request: Request::Cpuid { leaf: CPUID_EXTENDED_FEATURES, subleaf: 0 },
                }
            },
            EnableNx::Features => if reply->result.edx & CPUID_EDX_NX == 0 {
                Step::Finished { result: false }
            } else {
                Step::Ask { state: EnableNx::Efer, request: Request::Rdmsr { msr: IA32_EFER } }
            },
            EnableNx::Efer => Step::Ask {
                state: EnableNx::Written,
                request: Request::Wrmsr { msr: IA32_EFER, value: reply->Value_value | EFER_NXE },
            },
            EnableNx::Written => Step::Finished { result: true },
        }
    }
}

/// Starts to switch no-execute pages on.
pub fn enable_nx() -> (step: EnableNxStep)
    ensures
        step == (EnableNxStep::Ask {
            state: EnableNx::Maximum,
            request: Request::Cpuid { leaf: CPUID_EXTENDED_MAX, subleaf: 0 },
        }),
{
    Step::Ask {
        state: EnableNx::Maximum,
        request: Request::Cpuid { leaf: CPUID_EXTENDED_MAX, subleaf: 0 },
    }
}

/// The processor has no-execute pages.
pub open spec fn has_nx(processor: Processor) -> bool {
    (processor.cpuid)(CPUID_EXTENDED_MAX, 0).eax >= CPUID_EXTENDED_FEATURES && (processor.cpuid)(
        CPUID_EXTENDED_FEATURES,
        0,
    ).edx & CPUID_EDX_NX != 0
}

/// No-execute pages are switched on exactly where the processor has them, and
/// nothing else changes.
pub proof fn law_enable_nx(processor: Processor)
    ensures
        ({
            let start = EnableNxStep::Ask {
                state: EnableNx::Maximum,
                request: Request::Cpuid { leaf: CPUID_EXTENDED_MAX, subleaf: 0 },
            };
            run(start, processor, 4) == (
                if has_nx(processor) {
                    Processor {
                        msrs: processor.msrs.insert(
                            IA32_EFER,
                            processor.msrs[IA32_EFER] | EFER_NXE,
                        ),
                        ..processor
                    }
                } else {
                    processor
                },
                Some(has_nx(processor)),
            )
        }),
{
    reveal_with_fuel(run, 5);
}

/// No-execute pages are switched on where the processor answers for its extended features and
/// has bit 20 of them: bit 11 of register 0xc0000080 is then set, and its other bits stay.
pub proof fn law_no_execute_is_bit_11(processor: Processor)
    ensures
        ({
            let start = EnableNxStep::Ask {
                state: EnableNx::Maximum,
                request: Request::Cpuid { leaf: 0x8000_0000, subleaf: 0 },
            };
            let known = (processor.cpuid)(0x8000_0000, 0).eax >= 0x8000_0001 && (processor.cpuid)(
                0x8000_0001,
                0,
            ).edx & 0x10_0000 != 0;
            let (after, result) = run(start, processor, 4);
            &&& result == Some(known)
            &&& !known ==> after == processor
            &&& known ==> after == Processor {
                msrs: processor.msrs.insert(
                    0xc000_0080,
                    processor.msrs[0xc000_0080] | 0x800,
                ),
                ..processor
            }
        }),
{
    law_enable_nx(processor);
}

} // verus!
