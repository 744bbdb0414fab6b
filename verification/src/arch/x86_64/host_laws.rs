//! What the processor finds in the host's page tables, in the numbers of its manual.

use crate::arch::x86_64::entry::{
    leaf_flags, lemma_huge_entry, page_number, split_entry, word, HUGE, PHYSICAL_LIMIT, PRESENT,
    WRITABLE,
};
use crate::arch::x86_64::page_tree::{
    described, descriptor_maps, first_mapped, host_paging, is_code, is_guard, is_huge_entry,
    law_described_memory_is_mapped_to_itself, law_tables_map_what_is_described,
    lemma_host_paging_wf, mapped_end, maps_to, new_paging, range_has, HostPaging, PageTree,
};
use crate::boot_alloc::ArenaView;
use crate::uefi::EfiMemoryDescriptor;
use vstd::prelude::*;

verus! {

/// The address lies in the descriptor's memory, and not in the page at zero.
pub open spec fn is_in_memory(descriptor: EfiMemoryDescriptor, address: u64) -> bool {
    &&& 4096 <= address
    &&& descriptor.physical_start <= address < descriptor.physical_start + 4096
        * descriptor.number_of_pages
}

/// One of the guards lies in the page of the address.
pub open spec fn is_guarded(guards: Seq<u64>, address: u64) -> bool {
    exists|index: int|
        0 <= index < guards.len() && (#[trigger] guards[index]) as int / 4096 % 0x10_0000_0000
            == address as int / 4096 % 0x10_0000_0000
}

/// Memory of the types 1, 3 and 5, where the firmware put code, can be executed; with
/// no-execute pages no other memory can. All of it is mapped to itself and can be written,
/// but for the page at zero and the guard pages.
pub proof fn law_only_code_is_executable(
    arena: ArenaView,
    descriptors: Seq<EfiMemoryDescriptor>,
    guards: Seq<u64>,
    nx_enabled: bool,
    index: int,
    address: u64,
)
    requires
        arena.next <= arena.end <= PHYSICAL_LIMIT,
        host_paging(arena, descriptors, guards, nx_enabled).1 is None,
        0 <= index < descriptors.len(),
        descriptors[index].physical_start % 4096 == 0,
        is_in_memory(descriptors[index], address),
        address < 0x1_0000_0000_0000,
        !is_guarded(guards, address),
    ensures
        ({
            let kind = descriptors[index].memory_type;
            let found = host_paging(arena, descriptors, guards, nx_enabled).0.tree.translate(
                address,
            );
            &&& found is Some
            &&& found->0.physical == address
            &&& found->0.writable
            &&& nx_enabled && kind != 1 && kind != 3 && kind != 5 ==> found->0.no_execute
            &&& !nx_enabled || kind == 1 || kind == 3 || kind == 5 ==> !found->0.no_execute
        }),
{
    law_described_memory_is_mapped_to_itself(
        arena,
        descriptors,
        guards,
        nx_enabled,
        index,
        address,
    );
}

/// The table that an entry names.
pub open spec fn table_in(entry: u64) -> int {
    entry as int / 4096 % 0x100_0000_0000 * 4096
}

/// The entry at which the processor's walk for an address ends, and the size of the page
/// that it maps; `None` where the walk meets an entry that is not present. An entry is
/// present where it is odd, and maps a large page where its bit 7 is set.
pub open spec fn entry_found(memory: Map<int, u64>, root: u64, address: u64) -> Option<(u64, int)> {
    let e4 = memory[root + 8 * (address as int / 0x80_0000_0000 % 512)];
    let e3 = memory[table_in(e4) + 8 * (address as int / 0x4000_0000 % 512)];
    let e2 = memory[table_in(e3) + 8 * (address as int / 0x20_0000 % 512)];
    let e1 = memory[table_in(e2) + 8 * (address as int / 0x1000 % 512)];
    if e4 % 2 == 0 || e3 % 2 == 0 {
        None
    } else if e3 / 128 % 2 == 1 {
        Some((e3, 0x4000_0000))
    } else if e2 % 2 == 0 {
        None
    } else if e2 / 128 % 2 == 1 {
        Some((e2, 0x20_0000))
    } else if e1 % 2 == 0 {
        None
    } else {
        Some((e1, 0x1000))
    }
}

/// Entries as numbers.
proof fn lemma_entry_numbers(table: u64, at: u64, nx: u64)
    requires
        nx == 0 || nx == 0x8000_0000_0000_0000,
        table % 4096 == 0,
        table < PHYSICAL_LIMIT,
        at % 4096 == 0,
        at < PHYSICAL_LIMIT,
    ensures
        ({
            let entry = table | PRESENT | WRITABLE;
            &&& entry % 2 == 1
            &&& entry / 128 % 2 == 0
            &&& table_in(entry) == table
        }),
        ({
            let entry = at | (PRESENT | WRITABLE | nx);
            &&& entry == at + 3 + nx
            &&& entry % 2 == 1
        }),
        at % 0x20_0000 == 0 ==> {
            let entry = at | (PRESENT | WRITABLE | nx) | HUGE;
            &&& entry == at + 0x83 + nx
            &&& entry % 2 == 1
            &&& entry / 128 % 2 == 1
        },
{
    let link = table | 0x1 | 0x2;
    let leaf = at | (0x1u64 | 0x2 | nx);
    let large = at | (0x1u64 | 0x2 | nx) | 0x80;
    assert(link % 2 == 1 && link / 128 % 2 == 0 && link / 4096 % 0x100_0000_0000 == table / 4096
        && leaf == at + 3 + nx && leaf % 2 == 1 && (at % 0x20_0000 == 0 ==> large == at + 0x83 + nx
        && large % 2 == 1 && large / 128 % 2 == 1)) by (bit_vector)
        requires
            link == table | 0x1 | 0x2,
            leaf == at | (0x1u64 | 0x2 | nx),
            large == at | (0x1u64 | 0x2 | nx) | 0x80,
            nx == 0 || nx == 0x8000_0000_0000_0000,
            table % 4096 == 0,
            table < 0x10_0000_0000_0000,
            at % 4096 == 0,
            at < 0x10_0000_0000_0000,
    ;
}

/// All described memory starts at pages and lies below 2^48.
pub open spec fn is_plain_map(descriptors: Seq<EfiMemoryDescriptor>) -> bool {
    forall|index: int|
        0 <= index < descriptors.len() ==> (#[trigger] descriptors[index]).physical_start % 4096
            == 0 && descriptors[index].physical_start + 4096 * descriptors[index].number_of_pages
            <= 0x1_0000_0000_0000
}

/// The top bit of an entry for memory of this type.
pub open spec fn no_execute_bit(descriptor: EfiMemoryDescriptor, nx_enabled: bool) -> u64 {
    let kind = descriptor.memory_type;
    if nx_enabled && kind != 1 && kind != 3 && kind != 5 {
        0x8000_0000_0000_0000
    } else {
        0
    }
}

/// What the tree maps at the page of an address.
#[verifier::spinoff_prover]
proof fn lemma_leaf_at(
    arena: ArenaView,
    descriptors: Seq<EfiMemoryDescriptor>,
    guards: Seq<u64>,
    nx_enabled: bool,
    address: u64,
)
    requires
        arena.next <= arena.end <= PHYSICAL_LIMIT,
        host_paging(arena, descriptors, guards, nx_enabled).1 is None,
        is_plain_map(descriptors),
        address < 0x1_0000_0000_0000,
    ensures
        ({
            let tree = host_paging(arena, descriptors, guards, nx_enabled).0.tree;
            let page = address as int / 4096;
            &&& tree.leaf(page) is Some <==> !is_guarded(guards, address) && exists|index: int|
                0 <= index < descriptors.len() && is_in_memory(
                    #[trigger] descriptors[index],
                    address,
                )
            &&& forall|index: int|
                0 <= index < descriptors.len() && is_in_memory(
                    #[trigger] descriptors[index],
                    address,
                ) && !is_guarded(guards, address) ==> tree.leaf(page) == Some(
                    ((address - address % 4096) + 3 + no_execute_bit(
                        descriptors[index],
                        nx_enabled,
                    )) as u64,
                )
        }),
{
    let tree = host_paging(arena, descriptors, guards, nx_enabled).0.tree;
    let page = address as int / 4096;
    let at = (address - address % 4096) as u64;
    law_tables_map_what_is_described(arena, descriptors, guards, nx_enabled);
    assert(page_number(address) == page);
    assert(page_number(at) == page);
    assert(is_guarded(guards, address) <==> is_guard(guards, page)) by {
        if is_guarded(guards, address) {
            let index = choose|index: int|
                0 <= index < guards.len() && (#[trigger] guards[index]) as int / 4096
                    % 0x10_0000_0000 == address as int / 4096 % 0x10_0000_0000;
            assert(page_number(guards[index]) == page);
        }
        if is_guard(guards, page) {
            let index = choose|index: int|
                0 <= index < guards.len() && page_number(#[trigger] guards[index]) == page;
            assert(guards[index] as int / 4096 % 0x10_0000_0000 == address as int / 4096
                % 0x10_0000_0000);
        }
    }
    assert forall|index: int|
        0 <= index < descriptors.len() && is_in_memory(#[trigger] descriptors[index], address)
            && !is_guarded(guards, address) implies tree.leaf(page) == Some(
        (at + 3 + no_execute_bit(descriptors[index], nx_enabled)) as u64,
    ) by {
        let descriptor = descriptors[index];
        let flags = leaf_flags(nx_enabled, is_code(descriptor));
        assert(first_mapped(descriptor) % 4096 == 0);
        assert(range_has(first_mapped(descriptor), mapped_end(descriptor), page, at));
        assert(descriptor_maps(descriptor, nx_enabled, page, at | flags));
        assert(described(descriptors, nx_enabled, page, at | flags));
        assert(maps_to(tree, page, at | flags));
        lemma_entry_numbers(0, at, no_execute_bit(descriptor, nx_enabled));
    }
    if tree.leaf(page) is Some {
        let entry = tree.leaf(page)->0;
        assert(maps_to(tree, page, entry));
        let index = choose|index: int|
            0 <= index < descriptors.len() && #[trigger] descriptor_maps(
                descriptors[index],
                nx_enabled,
                page,
                entry,
            );
        let descriptor = descriptors[index];
        let flags = leaf_flags(nx_enabled, is_code(descriptor));
        let found = choose|found: u64| #[trigger]
            range_has(first_mapped(descriptor), mapped_end(descriptor), page, found) && entry
                == found | flags;
        assert(found % 4096 == 0);
        assert(found == at);
        assert(mapped_end(descriptor) % 4096 == 0);
        assert(is_in_memory(descriptors[index], address));
    }
}

/// The words that a walk meets, by what the tree holds.
#[verifier::spinoff_prover]
proof fn lemma_entry_found(
    tree: PageTree,
    memory: Map<int, u64>,
    low: int,
    high: int,
    address: u64,
)
    requires
        tree.wf(low, high),
        high <= PHYSICAL_LIMIT,
        tree.is_in(memory),
        address < 0x1_0000_0000_0000,
        forall|page: int| #[trigger] tree.small.contains_key(page) ==> tree.small[page] % 2 == 1,
        forall|slot: int| #[trigger]
            tree.huge.contains_key(slot) ==> tree.huge[slot] % 2 == 1 && tree.huge[slot] / 128 % 2
                == 1,
    ensures
        ({
            let page = address as int / 4096;
            let slot = address as int / 0x20_0000;
            entry_found(memory, tree.tables[(4, 0)], address) == if tree.huge.contains_key(slot) {
                Some((tree.huge[slot], 0x20_0000int))
            } else if tree.small.contains_key(page) {
                Some((tree.small[page], 0x1000int))
            } else {
                None
            }
        }),
{
    let page = address as int / 4096;
    let s3 = page / 0x800_0000;
    let s2 = page / 0x4_0000;
    let s1 = page / 512;
    assert(address as int / 0x80_0000_0000 % 512 == s3);
    assert(address as int / 0x4000_0000 % 512 == s2 % 512);
    assert(address as int / 0x20_0000 == s1);
    assert(s1 / 512 == s2 && s2 / 512 == s3);
    assert(s2 == s3 * 512 + s2 % 512 && s1 == s2 * 512 + s1 % 512 && page == s1 * 512 + page % 512);
    assert(0 <= s3 < 512);
    assert(tree.table_is_in(memory, 4, 0));
    let e4 = word(memory, tree.tables[(4, 0)], s3);
    assert(e4 == tree.entry(4, s3));
    if tree.tables.contains_key((3, s3)) {
        lemma_entry_numbers(tree.tables[(3, s3)], 0, 0);
        assert(tree.table_is_in(memory, 3, s3));
        let e3 = word(memory, tree.tables[(3, s3)], s2 % 512);
        assert(e3 == tree.entry(3, s2));
        if tree.tables.contains_key((2, s2)) {
            lemma_entry_numbers(tree.tables[(2, s2)], 0, 0);
            assert(tree.table_is_in(memory, 2, s2));
            let e2 = word(memory, tree.tables[(2, s2)], s1 % 512);
            assert(e2 == tree.entry(2, s1));
            if tree.huge.contains_key(s1) {
            } else if tree.tables.contains_key((1, s1)) {
                lemma_entry_numbers(tree.tables[(1, s1)], 0, 0);
                assert(tree.table_is_in(memory, 1, s1));
                let e1 = word(memory, tree.tables[(1, s1)], page % 512);
                assert(e1 == tree.entry(1, page));
            }
        }
    }
}

/// Entries of well-formed trees for large pages, as numbers.
#[verifier::spinoff_prover]
proof fn lemma_huge_number(huge: u64, index: int) -> (at: (u64, u64))
    requires
        is_huge_entry(huge),
        0 <= index < 512,
    ensures
        at.0 % 0x20_0000 == 0,
        at.0 < PHYSICAL_LIMIT,
        at.1 == 0 || at.1 == 0x8000_0000_0000_0000,
        huge == at.0 + 0x83 + at.1,
        huge % 2 == 1,
        huge / 128 % 2 == 1,
        split_entry(huge, index) == at.0 + index * 4096 + 3 + at.1,
{
    let (address, nx_enabled, executable) = choose|
        address: u64,
        nx_enabled: bool,
        executable: bool,
    |
        #![trigger leaf_flags(nx_enabled, executable), address | leaf_flags(nx_enabled, executable)]
        address % 0x20_0000 == 0 && address < PHYSICAL_LIMIT && huge == address | leaf_flags(
            nx_enabled,
            executable,
        ) | HUGE;
    let nx: u64 = if nx_enabled && !executable {
        0x8000_0000_0000_0000
    } else {
        0
    };
    lemma_huge_entry(address, nx_enabled, executable);
    lemma_entry_numbers(0, address, nx);
    let page = (address + index * 4096) as u64;
    assert(address + index * 4096 < PHYSICAL_LIMIT);
    lemma_entry_numbers(0, page, nx);
    (address, nx)
}

/// All entries of the host's tree are present, and those of large pages say so.
#[verifier::spinoff_prover]
proof fn lemma_tree_entries(
    arena: ArenaView,
    descriptors: Seq<EfiMemoryDescriptor>,
    guards: Seq<u64>,
    nx_enabled: bool,
)
    requires
        arena.next <= arena.end <= PHYSICAL_LIMIT,
        host_paging(arena, descriptors, guards, nx_enabled).1 is None,
        is_plain_map(descriptors),
    ensures
        ({
            let tree = host_paging(arena, descriptors, guards, nx_enabled).0.tree;
            &&& forall|page: int| #[trigger]
                tree.small.contains_key(page) ==> tree.small[page] % 2 == 1
            &&& forall|slot: int| #[trigger]
                tree.huge.contains_key(slot) ==> tree.huge[slot] % 2 == 1 && tree.huge[slot] / 128
                    % 2 == 1
        }),
{
    let tree = host_paging(arena, descriptors, guards, nx_enabled).0.tree;
    lemma_host_paging_wf(arena, descriptors, guards, nx_enabled);
    assert forall|page: int| #[trigger] tree.small.contains_key(page) implies tree.small[page] % 2
        == 1 by {
        let address = (page * 4096) as u64;
        lemma_leaf_at(arena, descriptors, guards, nx_enabled, address);
        assert(address as int / 4096 == page);
        assert(tree.leaf(page) == Some(tree.small[page]));
        let index = choose|index: int|
            0 <= index < descriptors.len() && is_in_memory(#[trigger] descriptors[index], address);
        assert(is_in_memory(descriptors[index], address));
    }
    assert forall|slot: int| #[trigger] tree.huge.contains_key(slot) implies tree.huge[slot] % 2
        == 1 && tree.huge[slot] / 128 % 2 == 1 by {
        let at = lemma_huge_number(tree.huge[slot], 0);
    }
}

/// The processor finds just the described memory, but for the page at zero and the guard
/// pages. An entry holds the address of its page, itself, and says that the page is present
/// and can be written; its top bit is set just where no-execute pages are on and the firmware
/// put no code.
#[verifier::spinoff_prover]
pub proof fn law_processor_finds_described_memory(
    arena: ArenaView,
    descriptors: Seq<EfiMemoryDescriptor>,
    guards: Seq<u64>,
    nx_enabled: bool,
    memory: Map<int, u64>,
    address: u64,
)
    requires
        arena.next <= arena.end <= PHYSICAL_LIMIT,
        host_paging(arena, descriptors, guards, nx_enabled).1 is None,
        is_plain_map(descriptors),
        host_paging(arena, descriptors, guards, nx_enabled).0.tree.is_in(memory),
        address < 0x1_0000_0000_0000,
    ensures
        ({
            let tree = host_paging(arena, descriptors, guards, nx_enabled).0.tree;
            let found = entry_found(memory, tree.tables[(4, 0)], address);
            &&& found is Some <==> !is_guarded(guards, address) && exists|index: int|
                0 <= index < descriptors.len() && is_in_memory(
                    #[trigger] descriptors[index],
                    address,
                )
            &&& forall|index: int|
                0 <= index < descriptors.len() && is_in_memory(
                    #[trigger] descriptors[index],
                    address,
                ) && !is_guarded(guards, address) ==> {
                    let top = no_execute_bit(descriptors[index], nx_enabled);
                    ||| found == Some(((address - address % 0x1000 + 0x3 + top) as u64, 0x1000int))
                    ||| found == Some(
                        ((address - address % 0x20_0000 + 0x83 + top) as u64, 0x20_0000int),
                    )
                }
        }),
{
    let (built, _) = host_paging(arena, descriptors, guards, nx_enabled);
    let tree = built.tree;
    let page = address as int / 4096;
    let slot = address as int / 0x20_0000;
    lemma_host_paging_wf(arena, descriptors, guards, nx_enabled);
    lemma_tree_entries(arena, descriptors, guards, nx_enabled);
    lemma_leaf_at(arena, descriptors, guards, nx_enabled, address);
    lemma_entry_found(tree, memory, arena.next as int, built.arena.next as int, address);
    assert(page / 512 == slot);
    if tree.huge.contains_key(slot) {
        let at = lemma_huge_number(tree.huge[slot], page % 512);
        assert(!tree.small.contains_key(page));
        assert(tree.leaf(page) == Some((at.0 + page % 512 * 4096 + 3 + at.1) as u64));
        assert(address - address % 0x1000 == address - address % 0x20_0000 + page % 512 * 4096);
        let index = choose|index: int|
            0 <= index < descriptors.len() && is_in_memory(#[trigger] descriptors[index], address);
        assert(is_in_memory(descriptors[index], address));
    }
}

/// The large page that starts at `base` is one of the range's.
spec fn has_large(address: u64, end: int, slot: int, base: u64) -> bool {
    &&& base % 0x20_0000 == 0
    &&& address <= base
    &&& base + 0x20_0000 <= end
    &&& address % 4096 == 0
    &&& slot_of(base) == slot
}

spec fn is_large(address: u64, end: int, slot: int) -> bool {
    exists|base: u64| #[trigger] has_large(address, end, slot, base)
}

proof fn lemma_multiples(low: int, high: int)
    requires
        0 <= low < high,
        low % 0x20_0000 == 0,
        high % 0x20_0000 == 0,
    ensures
        low % 4096 == 0,
        high % 4096 == 0,
        low + 0x20_0000 <= high,
{
}

/// The number of the large page that an address lies in.
#[verifier::opaque]
spec fn slot_of(base: u64) -> int {
    page_number(base) / 512
}

#[verifier::spinoff_prover]
proof fn lemma_large_first(address: u64, end: int, slot: int)
    requires
        address % 0x20_0000 == 0,
        address + 0x20_0000 <= end <= PHYSICAL_LIMIT,
    ensures
        is_large(address, end, slot) <==> slot == slot_of(address) || is_large(
            (address + 0x20_0000) as u64,
            end,
            slot,
        ),
{
    let rest = (address + 0x20_0000) as u64;
    lemma_multiples(address as int, rest as int);
    if slot == slot_of(address) {
        assert(has_large(address, end, slot, address));
    }
    if is_large(rest, end, slot) {
        let base = choose|base: u64| #[trigger] has_large(rest, end, slot, base);
        assert(has_large(address, end, slot, base));
    }
    if is_large(address, end, slot) {
        let base = choose|base: u64| #[trigger] has_large(address, end, slot, base);
        if base != address {
            lemma_multiples(address as int, base as int);
            assert(has_large(rest, end, slot, base));
        }
    }
}

#[verifier::spinoff_prover]
proof fn lemma_large_later(address: u64, end: int, slot: int)
    requires
        address < end <= PHYSICAL_LIMIT,
        address % 0x20_0000 != 0 || address + 0x20_0000 > end,
    ensures
        is_large(address, end, slot) <==> is_large((address + 4096) as u64, end, slot),
{
    let rest = (address + 4096) as u64;
    if is_large(address, end, slot) {
        let base = choose|base: u64| #[trigger] has_large(address, end, slot, base);
        assert(base != address);
        assert(base >= rest) by {
            assert(base % 4096 == 0);
            assert(base as int == 4096 * (base as int / 4096));
            assert(address as int == 4096 * (address as int / 4096));
        }
        assert(has_large(rest, end, slot, base));
    }
    if is_large(rest, end, slot) {
        let base = choose|base: u64| #[trigger] has_large(rest, end, slot, base);
        assert(address % 4096 == 0);
        assert(has_large(address, end, slot, base));
    }
}

/// What mapping one page does to the large pages.
#[verifier::spinoff_prover]
proof fn lemma_page_large(built: HostPaging, address: u64, flags: u64)
    ensures
        built.map_4k(address, flags).0.tree.huge == built.tree.huge,
        built.map_2m(address, flags).1 is None ==> built.map_2m(address, flags).0.tree.huge
            == built.tree.huge.insert(slot_of(address), address | flags | HUGE),
{
    reveal(slot_of);
    let (next, error) = built.with_directory(page_number(address));
    assert(next.tree.huge == built.tree.huge);
}

/// Mapping a range maps its large pages as such.
#[verifier::spinoff_prover]
proof fn lemma_range_large(built: HostPaging, address: u64, end: u64, flags: u64, slot: int)
    requires
        built.map_range(address, end, flags).1 is None,
        end <= PHYSICAL_LIMIT,
    ensures
        built.map_range(address, end, flags).0.tree.huge.contains_key(slot)
            <==> built.tree.huge.contains_key(slot) || is_large(address, end as int, slot),
    decreases end - address,
{
    lemma_page_large(built, address, flags);
    if address >= end {
    } else if address % 0x20_0000 == 0 && end - address >= 0x20_0000 {
        lemma_large_first(address, end as int, slot);
        lemma_range_large(
            built.map_2m(address, flags).0,
            (address + 0x20_0000) as u64,
            end,
            flags,
            slot,
        );
    } else {
        lemma_large_later(address, end as int, slot);
        if address + 4096 < end {
            lemma_range_large(
                built.map_4k(address, flags).0,
                (address + 4096) as u64,
                end,
                flags,
                slot,
            );
        }
    }
}

/// The large page lies in the memory of one of the descriptors.
spec fn is_large_in(descriptors: Seq<EfiMemoryDescriptor>, slot: int) -> bool {
    exists|index: int|
        0 <= index < descriptors.len() && (#[trigger] descriptors[index]).number_of_pages > 0
            && is_large(first_mapped(descriptors[index]), mapped_end(descriptors[index]), slot)
}

#[verifier::spinoff_prover]
proof fn lemma_map_large(
    built: HostPaging,
    descriptors: Seq<EfiMemoryDescriptor>,
    nx_enabled: bool,
    slot: int,
)
    requires
        built.map_all(descriptors, nx_enabled).1 is None,
    ensures
        built.map_all(descriptors, nx_enabled).0.tree.huge.contains_key(slot)
            <==> built.tree.huge.contains_key(slot) || is_large_in(descriptors, slot),
    decreases descriptors.len(),
{
    if descriptors.len() > 0 {
        let shorter = descriptors.drop_last();
        let last = descriptors.last();
        let top = descriptors.len() - 1;
        lemma_map_large(built, shorter, nx_enabled, slot);
        let step = built.map_all(shorter, nx_enabled).0;
        if last.number_of_pages > 0 {
            lemma_range_large(
                step,
                first_mapped(last),
                mapped_end(last) as u64,
                leaf_flags(nx_enabled, is_code(last)),
                slot,
            );
        }
        assert(descriptors[top] == last);
        if is_large_in(shorter, slot) {
            let index = choose|index: int|
                0 <= index < shorter.len() && (#[trigger] shorter[index]).number_of_pages > 0
                    && is_large(first_mapped(shorter[index]), mapped_end(shorter[index]), slot);
            assert(descriptors[index] == shorter[index]);
        }
        if is_large_in(descriptors, slot) {
            let index = choose|index: int|
                0 <= index < descriptors.len() && (#[trigger] descriptors[index]).number_of_pages
                    > 0 && is_large(
                    first_mapped(descriptors[index]),
                    mapped_end(descriptors[index]),
                    slot,
                );
            if index < top {
                assert(shorter[index] == descriptors[index]);
            }
        }
    }
}

/// A guard lies in the large page.
spec fn is_split(guards: Seq<u64>, slot: int) -> bool {
    exists|index: int|
        0 <= index < guards.len() && page_number(#[trigger] guards[index]) / 512 == slot
}

#[verifier::spinoff_prover]
proof fn lemma_unmap_large(built: HostPaging, guards: Seq<u64>, slot: int)
    requires
        built.unmap_all(guards).1 is None,
    ensures
        built.unmap_all(guards).0.tree.huge.contains_key(slot) <==> built.tree.huge.contains_key(
            slot,
        ) && !is_split(guards, slot),
    decreases guards.len(),
{
    if guards.len() > 0 {
        let shorter = guards.drop_last();
        let top = guards.len() - 1;
        lemma_unmap_large(built, shorter, slot);
        assert(guards[top] == guards.last());
        if is_split(shorter, slot) {
            let index = choose|index: int|
                0 <= index < shorter.len() && page_number(#[trigger] shorter[index]) / 512 == slot;
            assert(guards[index] == shorter[index]);
        }
        if is_split(guards, slot) {
            let index = choose|index: int|
                0 <= index < guards.len() && page_number(#[trigger] guards[index]) / 512 == slot;
            if index < top {
                assert(shorter[index] == guards[index]);
            }
        }
    }
}

/// The 2 MiB around the address lie in the descriptor's memory, and not at address zero.
pub open spec fn fills_large_page(descriptor: EfiMemoryDescriptor, address: u64) -> bool {
    let base = address - address % 0x20_0000;
    &&& 0 < base
    &&& descriptor.physical_start <= base
    &&& base + 0x20_0000 <= descriptor.physical_start + 4096 * descriptor.number_of_pages
}

/// Large pages are used where they fit: the 2 MiB around an address are one page just where
/// they lie in the memory of one descriptor and hold no guard.
#[verifier::spinoff_prover]
pub proof fn law_large_pages_where_they_fit(
    arena: ArenaView,
    descriptors: Seq<EfiMemoryDescriptor>,
    guards: Seq<u64>,
    nx_enabled: bool,
    memory: Map<int, u64>,
    address: u64,
)
    requires
        arena.next <= arena.end <= PHYSICAL_LIMIT,
        host_paging(arena, descriptors, guards, nx_enabled).1 is None,
        is_plain_map(descriptors),
        host_paging(arena, descriptors, guards, nx_enabled).0.tree.is_in(memory),
        address < 0x1_0000_0000_0000,
    ensures
        ({
            let tree = host_paging(arena, descriptors, guards, nx_enabled).0.tree;
            let found = entry_found(memory, tree.tables[(4, 0)], address);
            (found is Some && (found->0).1 == 0x20_0000) <==> {
                &&& exists|index: int|
                    0 <= index < descriptors.len() && fills_large_page(
                        #[trigger] descriptors[index],
                        address,
                    )
                &&& forall|index: int|
                    0 <= index < guards.len() ==> (#[trigger] guards[index]) as int / 0x20_0000
                        % 0x800_0000 != address as int / 0x20_0000
            }
        }),
{
    let (built, _) = host_paging(arena, descriptors, guards, nx_enabled);
    let tree = built.tree;
    let slot = address as int / 0x20_0000;
    let base = (address - address % 0x20_0000) as u64;
    lemma_host_paging_wf(arena, descriptors, guards, nx_enabled);
    lemma_tree_entries(arena, descriptors, guards, nx_enabled);
    lemma_entry_found(tree, memory, arena.next as int, built.arena.next as int, address);
    let (rest, root) = arena.allocate_pages(1);
    let start = new_paging(rest, root->0);
    lemma_map_large(start, descriptors, nx_enabled, slot);
    lemma_unmap_large(start.map_all(descriptors, nx_enabled).0, guards, slot);
    assert(tree.huge.contains_key(slot) <==> is_large_in(descriptors, slot) && !is_split(
        guards,
        slot,
    ));
    assert forall|index: int| 0 <= index < guards.len() implies (page_number(
        #[trigger] guards[index],
    ) / 512 == slot) == (guards[index] as int / 0x20_0000 % 0x800_0000 == slot) by {
        lemma_slot(guards[index]);
    }
    lemma_slot(base);
    assert(slot_of(base) == slot);
    assert forall|index: int| 0 <= index < descriptors.len() implies fills_large_page(
        #[trigger] descriptors[index],
        address,
    ) == (descriptors[index].number_of_pages > 0 && is_large(
        first_mapped(descriptors[index]),
        mapped_end(descriptors[index]),
        slot,
    )) by {
        let descriptor = descriptors[index];
        let first = first_mapped(descriptor);
        let end = mapped_end(descriptor);
        if fills_large_page(descriptor, address) {
            assert(first <= base);
            assert(first % 4096 == 0);
            assert(has_large(first, end, slot, base));
        }
        if is_large(first, end, slot) {
            let other = choose|other: u64| #[trigger] has_large(first, end, slot, other);
            lemma_slot(other);
            assert(other as int / 0x20_0000 == slot);
            assert(other == base);
        }
    }
    if is_large_in(descriptors, slot) {
        let index = choose|index: int|
            0 <= index < descriptors.len() && (#[trigger] descriptors[index]).number_of_pages > 0
                && is_large(
                first_mapped(descriptors[index]),
                mapped_end(descriptors[index]),
                slot,
            );
        assert(fills_large_page(descriptors[index], address));
    }
    if exists|index: int|
        0 <= index < descriptors.len() && fills_large_page(#[trigger] descriptors[index], address) {
        let index = choose|index: int|
            0 <= index < descriptors.len() && fills_large_page(
                #[trigger] descriptors[index],
                address,
            );
        assert(is_large_in(descriptors, slot));
    }
}

#[verifier::spinoff_prover]
proof fn lemma_slot(address: u64)
    ensures
        page_number(address) / 512 == address as int / 0x20_0000 % 0x800_0000,
        slot_of(address) == address as int / 0x20_0000 % 0x800_0000,
{
    reveal(slot_of);
    let whole = address as int / 4096;
    assert(whole / 512 == address as int / 0x20_0000);
    assert(whole % 0x10_0000_0000 / 512 == whole / 512 % 0x800_0000);
}

/// The piece number `step` of a descriptor's memory: it starts where the memory does, but not
/// below 4096, and each piece has 4096 bytes.
pub open spec fn is_piece(descriptor: EfiMemoryDescriptor, step: int, at: u64) -> bool {
    let first = if descriptor.physical_start < 4096 {
        4096
    } else {
        descriptor.physical_start as int
    };
    &&& 0 <= step
    &&& at == first + 4096 * step
    &&& at < descriptor.physical_start + 4096 * descriptor.number_of_pages
}

/// Whatever the descriptors hold, a page is mapped just where it has no guard and a piece of their
/// memory belongs there, by the low 48 bits of its address; and it is mapped to that piece, with
/// the bits for present and writable, and the top bit for memory without code.
pub proof fn law_pieces_of_memory_are_mapped(
    arena: ArenaView,
    descriptors: Seq<EfiMemoryDescriptor>,
    guards: Seq<u64>,
    nx_enabled: bool,
    index: int,
    step: int,
    at: u64,
)
    requires
        arena.next <= arena.end <= PHYSICAL_LIMIT,
        host_paging(arena, descriptors, guards, nx_enabled).1 is None,
        0 <= index < descriptors.len(),
        is_piece(descriptors[index], step, at),
    ensures
        ({
            let tree = host_paging(arena, descriptors, guards, nx_enabled).0.tree;
            let page = at as int / 4096 % 0x10_0000_0000;
            tree.leaf(page) == if is_guarded(guards, at) {
                None
            } else {
                Some(at | (0x1u64 | 0x2 | no_execute_bit(descriptors[index], nx_enabled)))
            }
        }),
{
    let tree = host_paging(arena, descriptors, guards, nx_enabled).0.tree;
    let page = at as int / 4096 % 0x10_0000_0000;
    let descriptor = descriptors[index];
    let flags = leaf_flags(nx_enabled, is_code(descriptor));
    law_tables_map_what_is_described(arena, descriptors, guards, nx_enabled);
    assert(page_number(at) == page);
    assert((at - first_mapped(descriptor)) % 4096 == 0);
    assert(range_has(first_mapped(descriptor), mapped_end(descriptor), page, at));
    assert(descriptor_maps(descriptor, nx_enabled, page, at | flags));
    assert(described(descriptors, nx_enabled, page, at | flags));
    assert(maps_to(tree, page, at | flags) <==> !is_guard(guards, page));
    if is_guarded(guards, at) {
        let guard = choose|guard: int|
            0 <= guard < guards.len() && (#[trigger] guards[guard]) as int / 4096 % 0x10_0000_0000
                == at as int / 4096 % 0x10_0000_0000;
        assert(page_number(guards[guard]) == page);
        assert(is_guard(guards, page));
        if tree.leaf(page) is Some {
            assert(maps_to(tree, page, tree.leaf(page)->0));
        }
    } else if is_guard(guards, page) {
        let guard = choose|guard: int|
            0 <= guard < guards.len() && page_number(#[trigger] guards[guard]) == page;
        assert(guards[guard] as int / 4096 % 0x10_0000_0000 == page);
    }
}

/// A page that no piece of memory belongs to is not mapped.
pub proof fn law_only_pieces_of_memory_are_mapped(
    arena: ArenaView,
    descriptors: Seq<EfiMemoryDescriptor>,
    guards: Seq<u64>,
    nx_enabled: bool,
    page: int,
)
    requires
        arena.next <= arena.end <= PHYSICAL_LIMIT,
        host_paging(arena, descriptors, guards, nx_enabled).1 is None,
        host_paging(arena, descriptors, guards, nx_enabled).0.tree.leaf(page) is Some,
    ensures
        exists|index: int, step: int, at: u64|
            0 <= index < descriptors.len() && #[trigger] is_piece(descriptors[index], step, at)
                && page == at as int / 4096 % 0x10_0000_0000,
{
    let tree = host_paging(arena, descriptors, guards, nx_enabled).0.tree;
    law_tables_map_what_is_described(arena, descriptors, guards, nx_enabled);
    let entry = tree.leaf(page)->0;
    assert(maps_to(tree, page, entry));
    let index = choose|index: int|
        0 <= index < descriptors.len() && #[trigger] descriptor_maps(
            descriptors[index],
            nx_enabled,
            page,
            entry,
        );
    let descriptor = descriptors[index];
    let first = first_mapped(descriptor);
    let flags = leaf_flags(nx_enabled, is_code(descriptor));
    let at = choose|at: u64| #[trigger]
        range_has(first, mapped_end(descriptor), page, at) && entry == at | flags;
    let step = (at - first) / 4096;
    assert(at == first + 4096 * step);
    assert(is_piece(descriptors[index], step, at));
}

} // verus!
