//! How many pages the host's page tables map, and when they cannot be built.

use crate::arch::x86_64::entry::{leaf_flags, page_number, PHYSICAL_LIMIT};
use crate::arch::x86_64::page_tree::{
    adds_range, described, descriptor_maps, first_mapped, host_paging, is_code, is_guard, lemma_arena_page,
    lemma_large_page_numbers, lemma_new_paging_wf, mapped_end, maps_to,
    new_paging, range_has, range_maps, HostPaging, PageTree,
};
use crate::arch::x86_64::paging::{lemma_map_all_stops, lemma_unmap_all_stops, PagingError};
use crate::boot_alloc::{
    law_arena_gives_the_lowest_block, law_arena_refuses, law_pages_are_blocks, ArenaView,
};
use crate::uefi::EfiMemoryDescriptor;
use vstd::prelude::*;

verus! {

/// How many pages of the descriptor's memory are mapped: all but a page at
/// address zero.
pub open spec fn pages_of(descriptor: EfiMemoryDescriptor) -> int {
    if descriptor.physical_start == 0 && descriptor.number_of_pages > 0 {
        descriptor.number_of_pages - 1
    } else {
        descriptor.number_of_pages as int
    }
}

/// How many pages the descriptors have together, but for pages at address zero.
pub open spec fn described_pages(descriptors: Seq<EfiMemoryDescriptor>) -> int
    decreases descriptors.len(),
{
    if descriptors.len() == 0 {
        0
    } else {
        described_pages(descriptors.drop_last()) + pages_of(descriptors.last())
    }
}

/// How many pages start between `address` and `end`, the first at `address`.
spec fn pages_between(address: int, end: int) -> int {
    if address >= end {
        0
    } else {
        (end - address + 4095) / 4096
    }
}

proof fn lemma_range_count(built: HostPaging, address: u64, end: u64, flags: u64)
    requires
        built.map_range(address, end, flags).1 is None,
    ensures
        built.map_range(address, end, flags).0.mapped == built.mapped + pages_between(
            address as int,
            end as int,
        ),
    decreases end - address,
{
    if address >= end {
    } else if address % 0x20_0000 == 0 && end - address >= 0x20_0000 {
        let (next, _) = built.map_2m(address, flags);
        assert(next.mapped == built.mapped + 512);
        lemma_range_count(next, (address + 0x20_0000) as u64, end, flags);
    } else {
        let (next, _) = built.map_4k(address, flags);
        assert(next.mapped == built.mapped + 1);
        if address + 4096 < end {
            lemma_range_count(next, (address + 4096) as u64, end, flags);
        }
    }
}

proof fn lemma_map_count(
    built: HostPaging,
    descriptors: Seq<EfiMemoryDescriptor>,
    nx_enabled: bool,
)
    requires
        built.map_all(descriptors, nx_enabled).1 is None,
    ensures
        built.map_all(descriptors, nx_enabled).0.mapped == built.mapped + described_pages(
            descriptors,
        ),
    decreases descriptors.len(),
{
    if descriptors.len() > 0 {
        let last = descriptors.last();
        lemma_map_count(built, descriptors.drop_last(), nx_enabled);
        let (step, _) = built.map_all(descriptors.drop_last(), nx_enabled);
        if last.number_of_pages > 0 {
            lemma_range_count(
                step,
                first_mapped(last),
                mapped_end(last) as u64,
                leaf_flags(nx_enabled, is_code(last)),
            );
        }
    }
}

proof fn lemma_unmap_count(built: HostPaging, guards: Seq<u64>)
    requires
        built.unmap_all(guards).1 is None,
    ensures
        built.unmap_all(guards).0.mapped == built.mapped - guards.len(),
    decreases guards.len(),
{
    if guards.len() > 0 {
        lemma_unmap_count(built, guards.drop_last());
    }
}

/// Tables that could be built count the described pages, but for pages at address
/// zero, less the guards. A large page counts as 512.
pub proof fn law_count_is_described_pages_less_guards(
    arena: ArenaView,
    descriptors: Seq<EfiMemoryDescriptor>,
    guards: Seq<u64>,
    nx_enabled: bool,
)
    requires
        host_paging(arena, descriptors, guards, nx_enabled).1 is None,
    ensures
        host_paging(arena, descriptors, guards, nx_enabled).0.mapped == described_pages(descriptors)
            - guards.len(),
{
    let (rest, root) = arena.allocate_pages(1);
    let start = new_paging(rest, root->0);
    lemma_map_count(start, descriptors, nx_enabled);
    lemma_unmap_count(start.map_all(descriptors, nx_enabled).0, guards);
}

/// The page of a guard is not mapped when its turn comes: it is not described, or
/// a guard before it lies in it.
pub open spec fn is_missing(
    descriptors: Seq<EfiMemoryDescriptor>,
    guards: Seq<u64>,
    nx_enabled: bool,
    index: int,
) -> bool {
    let page = page_number(guards[index]);
    ||| forall|entry: u64| !#[trigger] described(descriptors, nx_enabled, page, entry)
    ||| is_guard(guards.take(index), page)
}

proof fn lemma_guards_before(
    arena: ArenaView,
    descriptors: Seq<EfiMemoryDescriptor>,
    guards: Seq<u64>,
    nx_enabled: bool,
    index: int,
)
    requires
        arena.next <= arena.end <= PHYSICAL_LIMIT,
        0 <= index < guards.len(),
        host_paging(arena, descriptors, guards.take(index), nx_enabled).1 is None,
    ensures
        ({
            let built = host_paging(arena, descriptors, guards.take(index), nx_enabled).0;
            let error = built.unmap_4k(guards[index]).1;
            &&& is_missing(descriptors, guards, nx_enabled, index) <==> error == Some(
                PagingError::MissingGuardMapping,
            )
            &&& host_paging(arena, descriptors, guards.take(index + 1), nx_enabled).1 == error
            &&& error is Some ==> host_paging(arena, descriptors, guards, nx_enabled).1 == error
        }),
{
    lemma_arena_page(arena);
    let low = arena.next as int;
    let (rest, root) = arena.allocate_pages(1);
    lemma_new_paging_wf(rest, root->0, low);
    let start = new_paging(rest, root->0);
    start.lemma_map_all(descriptors, nx_enabled, low);
    let (mapped, _) = start.map_all(descriptors, nx_enabled);
    let before = guards.take(index);
    mapped.lemma_unmap_all(before, low);
    let (built, _) = mapped.unmap_all(before);
    built.lemma_unmap_4k(guards[index], low);
    let page = page_number(guards[index]);
    assert(guards.take(index + 1).drop_last() =~= before);
    lemma_unmap_all_stops(mapped, guards, index + 1);
    assert forall|entry: u64|
        #[trigger] maps_to(built.tree, page, entry) <==> described(
            descriptors,
            nx_enabled,
            page,
            entry,
        ) && !is_guard(before, page) by {
        assert(maps_to(mapped.tree, page, entry) <==> described(
            descriptors,
            nx_enabled,
            page,
            entry,
        ));
    }
    if built.tree.leaf(page) is Some {
        assert(maps_to(built.tree, page, built.tree.leaf(page)->0));
    } else {
        assert forall|entry: u64| !is_guard(before, page) implies !#[trigger] described(
            descriptors,
            nx_enabled,
            page,
            entry,
        ) by {
            assert(!maps_to(built.tree, page, entry));
        }
    }
}

/// A guard page that is missing is reported just where the guards before it could
/// be taken out, and its own page is not described or has been taken out before.
pub proof fn law_missing_guard_mapping(
    arena: ArenaView,
    descriptors: Seq<EfiMemoryDescriptor>,
    guards: Seq<u64>,
    nx_enabled: bool,
)
    requires
        arena.next <= arena.end <= PHYSICAL_LIMIT,
    ensures
        host_paging(arena, descriptors, guards, nx_enabled).1 == Some(
            PagingError::MissingGuardMapping,
        ) <==> exists|index: int|
            0 <= index < guards.len() && host_paging(
                arena,
                descriptors,
                guards.take(index),
                nx_enabled,
            ).1 is None && #[trigger] is_missing(descriptors, guards, nx_enabled, index),
{
    let error = host_paging(arena, descriptors, guards, nx_enabled).1;
    if exists|index: int|
        0 <= index < guards.len() && host_paging(
            arena,
            descriptors,
            guards.take(index),
            nx_enabled,
        ).1 is None && #[trigger] is_missing(descriptors, guards, nx_enabled, index) {
        let index = choose|index: int|
            0 <= index < guards.len() && host_paging(
                arena,
                descriptors,
                guards.take(index),
                nx_enabled,
            ).1 is None && #[trigger] is_missing(descriptors, guards, nx_enabled, index);
        lemma_guards_before(arena, descriptors, guards, nx_enabled, index);
    }
    if error == Some(PagingError::MissingGuardMapping) {
        lemma_mapping_misses_no_guard(arena, descriptors, nx_enabled);
        assert(guards.take(0) =~= Seq::empty());
        lemma_first_missing(arena, descriptors, guards, nx_enabled, 0);
    }
}

/// Mapping reports no missing guard.
proof fn lemma_mapping_misses_no_guard(
    arena: ArenaView,
    descriptors: Seq<EfiMemoryDescriptor>,
    nx_enabled: bool,
)
    ensures
        host_paging(arena, descriptors, Seq::empty(), nx_enabled).1 != Some(
            PagingError::MissingGuardMapping,
        ),
{
    let (rest, root) = arena.allocate_pages(1);
    if root is Some {
        lemma_map_all_misses_no_guard(new_paging(rest, root->0), descriptors, nx_enabled);
    }
}

proof fn lemma_map_all_misses_no_guard(
    built: HostPaging,
    descriptors: Seq<EfiMemoryDescriptor>,
    nx_enabled: bool,
)
    ensures
        built.map_all(descriptors, nx_enabled).1 != Some(PagingError::MissingGuardMapping),
    decreases descriptors.len(),
{
    if descriptors.len() > 0 {
        let last = descriptors.last();
        lemma_map_all_misses_no_guard(built, descriptors.drop_last(), nx_enabled);
        lemma_range_misses_no_guard(
            built.map_all(descriptors.drop_last(), nx_enabled).0,
            first_mapped(last),
            mapped_end(last) as u64,
            leaf_flags(nx_enabled, is_code(last)),
        );
    }
}

proof fn lemma_range_misses_no_guard(built: HostPaging, address: u64, end: u64, flags: u64)
    ensures
        built.map_range(address, end, flags).1 != Some(PagingError::MissingGuardMapping),
    decreases end - address,
{
    if address >= end {
    } else if address % 0x20_0000 == 0 && end - address >= 0x20_0000 {
        lemma_range_misses_no_guard(
            built.map_2m(address, flags).0,
            (address + 0x20_0000) as u64,
            end,
            flags,
        );
    } else if address + 4096 < end {
        lemma_range_misses_no_guard(
            built.map_4k(address, flags).0,
            (address + 4096) as u64,
            end,
            flags,
        );
    }
}

/// Where a guard is missing and those before `from` are not, one from there on is.
proof fn lemma_first_missing(
    arena: ArenaView,
    descriptors: Seq<EfiMemoryDescriptor>,
    guards: Seq<u64>,
    nx_enabled: bool,
    from: int,
)
    requires
        arena.next <= arena.end <= PHYSICAL_LIMIT,
        0 <= from <= guards.len(),
        host_paging(arena, descriptors, guards.take(from), nx_enabled).1 != Some(
            PagingError::MissingGuardMapping,
        ),
        host_paging(arena, descriptors, guards, nx_enabled).1 == Some(
            PagingError::MissingGuardMapping,
        ),
    ensures
        exists|index: int|
            0 <= index < guards.len() && host_paging(
                arena,
                descriptors,
                guards.take(index),
                nx_enabled,
            ).1 is None && #[trigger] is_missing(descriptors, guards, nx_enabled, index),
    decreases guards.len() - from,
{
    let (rest, root) = arena.allocate_pages(1);
    if root is Some {
        let (mapped, failed) = new_paging(rest, root->0).map_all(descriptors, nx_enabled);
        if failed is None {
            lemma_unmap_all_stops(mapped, guards, from);
        }
    }
    assert(guards.take(guards.len() as int) =~= guards);
    assert(host_paging(arena, descriptors, guards.take(from), nx_enabled).1 is None);
    lemma_guards_before(arena, descriptors, guards, nx_enabled, from);
    if !is_missing(descriptors, guards, nx_enabled, from) {
        lemma_first_missing(arena, descriptors, guards, nx_enabled, from + 1);
    }
}

/// Where nothing else goes wrong, a missing guard mapping is reported just where a
/// guard's page is not described or is named twice.
pub proof fn law_guards_are_described_and_named_once(
    arena: ArenaView,
    descriptors: Seq<EfiMemoryDescriptor>,
    guards: Seq<u64>,
    nx_enabled: bool,
)
    requires
        arena.next <= arena.end <= PHYSICAL_LIMIT,
        ({
            let error = host_paging(arena, descriptors, guards, nx_enabled).1;
            error is None || error == Some(PagingError::MissingGuardMapping)
        }),
    ensures
        host_paging(arena, descriptors, guards, nx_enabled).1 == Some(
            PagingError::MissingGuardMapping,
        ) <==> exists|index: int|
            0 <= index < guards.len() && #[trigger] is_missing(
                descriptors,
                guards,
                nx_enabled,
                index,
            ),
{
    law_missing_guard_mapping(arena, descriptors, guards, nx_enabled);
    if host_paging(arena, descriptors, guards, nx_enabled).1 is None {
        let (rest, root) = arena.allocate_pages(1);
        let (mapped, _) = new_paging(rest, root->0).map_all(descriptors, nx_enabled);
        assert forall|index: int| 0 <= index < guards.len() implies !#[trigger] is_missing(
            descriptors,
            guards,
            nx_enabled,
            index,
        ) by {
            lemma_unmap_all_stops(mapped, guards, index);
        }
    }
}

/// The memory of every descriptor lies in physical memory.
pub open spec fn all_fit(descriptors: Seq<EfiMemoryDescriptor>) -> bool {
    forall|index: int|
        0 <= index < descriptors.len() && (#[trigger] descriptors[index]).number_of_pages > 0
            ==> mapped_end(descriptors[index]) <= PHYSICAL_LIMIT
}

/// The memory of the descriptor from `at` on belongs at `page`.
pub open spec fn claims(descriptor: EfiMemoryDescriptor, page: int, at: u64) -> bool {
    descriptor.number_of_pages > 0 && range_has(
        first_mapped(descriptor),
        mapped_end(descriptor),
        page,
        at,
    )
}

/// Two pieces of the descriptors' memory belong at the same page.
pub open spec fn is_claimed_twice(descriptors: Seq<EfiMemoryDescriptor>) -> bool {
    exists|one: int, two: int, page: int, at_one: u64, at_two: u64|
        {
            &&& 0 <= one < descriptors.len()
            &&& 0 <= two < descriptors.len()
            &&& (one, at_one) != (two, at_two)
            &&& #[trigger] claims(descriptors[one], page, at_one)
            &&& #[trigger] claims(descriptors[two], page, at_two)
        }
}

/// Every table of 4 KiB pages maps one.
spec fn is_used(tree: PageTree) -> bool {
    forall|slot: int| #[trigger]
        tree.tables.contains_key((1, slot)) ==> exists|page: int| #[trigger]
            tree.small.contains_key(page) && page / 512 == slot
}

/// A 4 KiB page conflicts just where it is mapped.
#[verifier::spinoff_prover]
proof fn lemma_conflict_4k(
    built: HostPaging,
    address: u64,
    nx_enabled: bool,
    executable: bool,
    low: int,
)
    requires
        built.wf(low),
        low <= built.arena.next,
        is_used(built.tree),
    ensures
        ({
            let (next, error) = built.map_4k(address, leaf_flags(nx_enabled, executable));
            &&& error == Some(PagingError::MappingConflict) ==> built.tree.leaf(
                page_number(address),
            ) is Some
            &&& error is None ==> is_used(next.tree)
        }),
{
    let flags = leaf_flags(nx_enabled, executable);
    let page = page_number(address);
    built.lemma_with_directory(page, low);
    let (with2, error2) = built.with_directory(page);
    if error2 is None {
        assert(page / 512 / 512 == page / 0x4_0000);
        with2.lemma_with_table(1, page / 512, low);
        let (with1, error1) = with2.with_table(1, page / 512);
        let (next, error) = built.map_4k(address, flags);
        if error is None {
            assert forall|slot: int| #[trigger]
                next.tree.tables.contains_key((1, slot)) implies exists|other: int| #[trigger]
                next.tree.small.contains_key(other) && other / 512 == slot by {
                if slot == page / 512 {
                    assert(next.tree.small.contains_key(page));
                } else {
                    assert(with1.tree.tables.contains_key((1, slot)));
                    assert(with2.tree.tables.contains_key((1, slot)));
                    assert(built.tree.tables.contains_key((1, slot)));
                    let other = choose|other: int| #[trigger]
                        built.tree.small.contains_key(other) && other / 512 == slot;
                    assert(next.tree.small.contains_key(other));
                }
            }
        }
    }
}

/// A large page conflicts only where one of its pages is mapped.
#[verifier::spinoff_prover]
proof fn lemma_conflict_2m(
    built: HostPaging,
    address: u64,
    nx_enabled: bool,
    executable: bool,
    low: int,
)
    requires
        built.wf(low),
        low <= built.arena.next,
        is_used(built.tree),
        address % 0x20_0000 == 0,
        address < PHYSICAL_LIMIT,
    ensures
        ({
            let first = page_number(address);
            let (next, error) = built.map_2m(address, leaf_flags(nx_enabled, executable));
            &&& error == Some(PagingError::MappingConflict) ==> exists|page: int|
                first <= page < first + 512 && #[trigger] built.tree.leaf(page) is Some
            &&& error is None ==> is_used(next.tree)
        }),
{
    let flags = leaf_flags(nx_enabled, executable);
    let first = page_number(address);
    let slot = first / 512;
    lemma_large_page_numbers(address, 0);
    built.lemma_with_directory(first, low);
    let (with2, error2) = built.with_directory(first);
    if error2 is None {
        if with2.tree.huge.contains_key(slot) {
            assert(built.tree.leaf(first) is Some);
        } else if with2.tree.tables.contains_key((1, slot)) {
            assert(built.tree.tables.contains_key((1, slot)));
            let page = choose|page: int| #[trigger]
                built.tree.small.contains_key(page) && page / 512 == slot;
            assert(built.tree.leaf(page) is Some);
        } else {
            let next = built.map_2m(address, flags).0;
            assert forall|other: int| #[trigger]
                next.tree.tables.contains_key((1, other)) implies exists|page: int| #[trigger]
                next.tree.small.contains_key(page) && page / 512 == other by {
                assert(with2.tree.tables.contains_key((1, other)));
                assert(built.tree.tables.contains_key((1, other)));
                let page = choose|page: int| #[trigger]
                    built.tree.small.contains_key(page) && page / 512 == other;
                assert(next.tree.small.contains_key(page));
            }
        }
    }
}

/// A piece of the range belongs at a page that is mapped, or where another piece
/// of it belongs.
spec fn collides(tree: PageTree, address: u64, end: int) -> bool {
    ||| exists|page: int, at: u64| #[trigger]
        range_has(address, end, page, at) && tree.leaf(page) is Some
    ||| meets_itself(address, end)
}

/// Two pieces of the range belong at the same page.
spec fn meets_itself(address: u64, end: int) -> bool {
    exists|page: int, one: u64, two: u64|
        one != two && #[trigger] range_has(address, end, page, one) && #[trigger] range_has(
            address,
            end,
            page,
            two,
        )
}

/// What goes wrong in the rest of a range goes wrong in the whole. `count` is the
/// number of pages, from `first` on, that were mapped before the rest.
proof fn lemma_collision_in_rest(
    before: PageTree,
    step: PageTree,
    address: u64,
    end: int,
    count: int,
)
    requires
        0 < count,
        address + count * 4096 <= u64::MAX,
        address + (count - 1) * 4096 < end,
        forall|index: int|
            0 <= index < count ==> page_number(#[trigger] ((address + index * 4096) as u64))
                == page_number(address) + index,
        forall|page: int| #[trigger]
            step.leaf(page) is Some ==> before.leaf(page) is Some || page_number(address) <= page
                < page_number(address) + count,
        collides(step, (address + count * 4096) as u64, end),
    ensures
        collides(before, address, end),
{
    let rest = (address + count * 4096) as u64;
    if meets_itself(rest, end) {
        let (page, one, two) = choose|page: int, one: u64, two: u64|
            one != two && #[trigger] range_has(rest, end, page, one) && #[trigger] range_has(
                rest,
                end,
                page,
                two,
            );
        lemma_in_rest(address, end, count, page, one);
        lemma_in_rest(address, end, count, page, two);
        assert(meets_itself(address, end));
    } else {
        let (page, at) = choose|page: int, at: u64| #[trigger]
            range_has(rest, end, page, at) && step.leaf(page) is Some;
        lemma_in_rest(address, end, count, page, at);
        if before.leaf(page) is None {
            let index = page - page_number(address);
            let other = (address + index * 4096) as u64;
            assert(page_number(other) == page);
            assert((other - address) % 4096 == 0);
            assert(range_has(address, end, page, other));
            assert(other != at);
            assert(meets_itself(address, end));
        }
    }
}

proof fn lemma_in_rest(address: u64, end: int, count: int, page: int, at: u64)
    requires
        0 <= count,
        address + count * 4096 <= u64::MAX,
        range_has((address + count * 4096) as u64, end, page, at),
    ensures
        range_has(address, end, page, at),
{
    assert((at - address) % 4096 == 0);
}

/// Mapping a range conflicts only where it collides with what is mapped or with
/// itself.
#[verifier::spinoff_prover]
proof fn lemma_range_conflict(
    built: HostPaging,
    address: u64,
    end: u64,
    nx_enabled: bool,
    executable: bool,
    low: int,
)
    requires
        built.wf(low),
        low <= built.arena.next,
        is_used(built.tree),
        end <= PHYSICAL_LIMIT,
    ensures
        ({
            let flags = leaf_flags(nx_enabled, executable);
            let (next, error) = built.map_range(address, end, flags);
            &&& error == Some(PagingError::MappingConflict) ==> collides(
                built.tree,
                address,
                end as int,
            )
            &&& error is None ==> is_used(next.tree)
        }),
    decreases end - address,
{
    let flags = leaf_flags(nx_enabled, executable);
    let (next, error) = built.map_range(address, end, flags);
    if address >= end {
    } else if address % 0x20_0000 == 0 && end - address >= 0x20_0000 {
        let first = page_number(address);
        built.lemma_map_2m(address, nx_enabled, executable, low);
        lemma_conflict_2m(built, address, nx_enabled, executable, low);
        let (step, failed) = built.map_2m(address, flags);
        if failed is None {
            let rest = (address + 0x20_0000) as u64;
            lemma_range_conflict(step, rest, end, nx_enabled, executable, low);
            if error == Some(PagingError::MappingConflict) {
                assert forall|index: int| 0 <= index < 512 implies page_number(
                    #[trigger] ((address + index * 4096) as u64),
                ) == first + index by {
                    lemma_large_page_numbers(address, index);
                }
                lemma_collision_in_rest(built.tree, step.tree, address, end as int, 512);
            }
        } else if failed == Some(PagingError::MappingConflict) {
            let page = choose|page: int|
                first <= page < first + 512 && #[trigger] built.tree.leaf(page) is Some;
            let at = (address + (page - first) * 4096) as u64;
            lemma_large_page_numbers(address, page - first);
            assert((at - address) % 4096 == 0);
            assert(range_has(address, end as int, page, at));
        }
    } else {
        built.lemma_map_4k(address, nx_enabled, executable, low);
        lemma_conflict_4k(built, address, nx_enabled, executable, low);
        let (step, failed) = built.map_4k(address, flags);
        if failed is None {
            if address + 4096 < end {
                let rest = (address + 4096) as u64;
                lemma_range_conflict(step, rest, end, nx_enabled, executable, low);
                if error == Some(PagingError::MappingConflict) {
                    lemma_collision_in_rest(built.tree, step.tree, address, end as int, 1);
                }
            }
        } else if failed == Some(PagingError::MappingConflict) {
            assert(range_has(address, end as int, page_number(address), address));
        }
    }
}

proof fn lemma_is_in_rest(address: u64, end: int, count: int, page: int, at: u64)
    requires
        0 <= count,
        address + count * 4096 <= at,
        range_has(address, end, page, at),
    ensures
        range_has((address + count * 4096) as u64, end, page, at),
{
    assert((at - (address + count * 4096)) % 4096 == 0);
}

/// What the rest of a range adds was not mapped.
proof fn lemma_rest_was_free(
    step: PageTree,
    next: PageTree,
    rest: u64,
    end: int,
    flags: u64,
    page: int,
    at: u64,
)
    requires
        adds_range(step, next, rest, end, flags),
        range_has(rest, end, page, at),
    ensures
        step.leaf(page) is None,
{
    assert(range_maps(rest, end, flags, page, at | flags));
    assert(maps_to(next, page, at | flags) <==> maps_to(step, page, at | flags) || range_maps(
        rest,
        end,
        flags,
        page,
        at | flags,
    ));
}

/// A range that could be mapped does not meet itself.
#[verifier::spinoff_prover]
proof fn lemma_mapped_range_is_apart(
    built: HostPaging,
    address: u64,
    end: u64,
    nx_enabled: bool,
    executable: bool,
    low: int,
    page: int,
    other: int,
    one: u64,
    two: u64,
)
    requires
        built.wf(low),
        low <= built.arena.next,
        end <= PHYSICAL_LIMIT,
        built.map_range(address, end, leaf_flags(nx_enabled, executable)).1 is None,
        range_has(address, end as int, page, one),
        range_has(address, end as int, other, two),
        one < two,
    ensures
        page != other,
    decreases end - address,
{
    let flags = leaf_flags(nx_enabled, executable);
    let (next, _) = built.map_range(address, end, flags);
    let large = address % 0x20_0000 == 0 && end - address >= 0x20_0000;
    let count: int = if large {
        512
    } else {
        1
    };
    let rest = (address + count * 4096) as u64;
    let (step, _) = if large {
        built.lemma_map_2m(address, nx_enabled, executable, low);
        built.map_2m(address, flags)
    } else {
        built.lemma_map_4k(address, nx_enabled, executable, low);
        built.map_4k(address, flags)
    };
    if two >= rest {
        assert(rest < end);
        assert(step.map_range(rest, end, flags) == (next, None::<PagingError>));
        step.lemma_map_range(rest, end, nx_enabled, executable, low);
        lemma_is_in_rest(address, end as int, count, other, two);
        if one >= rest {
            lemma_is_in_rest(address, end as int, count, page, one);
            lemma_mapped_range_is_apart(
                step,
                rest,
                end,
                nx_enabled,
                executable,
                low,
                page,
                other,
                one,
                two,
            );
        } else {
            lemma_rest_was_free(step.tree, next.tree, rest, end as int, flags, other, two);
            let index = (one - address) / 4096;
            assert(one == address + index * 4096);
            if large {
                lemma_large_page_numbers(address, index);
            }
            assert(step.tree.leaf(page) is Some);
        }
    } else {
        let index = (one - address) / 4096;
        let second = (two - address) / 4096;
        assert(one == address + index * 4096);
        assert(two == address + second * 4096);
        assert(large);
        lemma_large_page_numbers(address, index);
        lemma_large_page_numbers(address, second);
    }
}

/// Mapping all descriptors from nothing: where it succeeds they fit, and nothing is
/// claimed twice; where it conflicts, some of them, which fit, claim a page twice.
proof fn lemma_map_all_conflict(
    start: HostPaging,
    descriptors: Seq<EfiMemoryDescriptor>,
    nx_enabled: bool,
    low: int,
)
    requires
        start.wf(low),
        low <= start.arena.next,
        is_used(start.tree),
        forall|page: int, entry: u64| !#[trigger] maps_to(start.tree, page, entry),
    ensures
        ({
            let (next, error) = start.map_all(descriptors, nx_enabled);
            &&& error is None ==> is_used(next.tree) && all_fit(descriptors) && !is_claimed_twice(
                descriptors,
            )
            &&& error == Some(PagingError::MappingConflict) ==> exists|count: int|
                0 <= count <= descriptors.len() && all_fit(descriptors.take(count))
                    && #[trigger] is_claimed_twice(descriptors.take(count))
            &&& all_fit(descriptors) ==> error is None || error == Some(
                PagingError::MappingConflict,
            ) || error == Some(PagingError::ArenaExhausted)
        }),
    decreases descriptors.len(),
{
    if descriptors.len() > 0 {
        let shorter = descriptors.drop_last();
        let last = descriptors.last();
        let top = descriptors.len() - 1;
        lemma_map_all_conflict(start, shorter, nx_enabled, low);
        start.lemma_map_all(shorter, nx_enabled, low);
        let (step, failed) = start.map_all(shorter, nx_enabled);
        let (next, error) = start.map_all(descriptors, nx_enabled);
        assert(descriptors.take(descriptors.len() as int) =~= descriptors);
        if failed is None {
            let end = mapped_end(last);
            if last.number_of_pages > 0 && end <= PHYSICAL_LIMIT {
                lemma_range_conflict(
                    step,
                    first_mapped(last),
                    end as u64,
                    nx_enabled,
                    is_code(last),
                    low,
                );
                lemma_range_errors(
                    step,
                    first_mapped(last),
                    end as u64,
                    leaf_flags(nx_enabled, is_code(last)),
                );
            }
            if error == Some(PagingError::MappingConflict) {
                assert(all_fit(descriptors));
                lemma_collision_is_claim(step.tree, descriptors, nx_enabled);
                assert(is_claimed_twice(descriptors.take(descriptors.len() as int)));
            }
            if error is None {
                assert(all_fit(descriptors));
                if is_claimed_twice(descriptors) {
                    lemma_claim_fails(start, descriptors, nx_enabled, low);
                }
            }
        } else {
            if failed == Some(PagingError::MappingConflict) {
                let count = choose|count: int|
                    0 <= count <= shorter.len() && all_fit(shorter.take(count))
                        && #[trigger] is_claimed_twice(shorter.take(count));
                assert(descriptors.take(count) =~= shorter.take(count));
                assert(is_claimed_twice(descriptors.take(count)));
            }
            if all_fit(descriptors) {
                assert forall|index: int|
                    0 <= index < shorter.len() && (#[trigger] shorter[index]).number_of_pages
                        > 0 implies mapped_end(shorter[index]) <= PHYSICAL_LIMIT by {
                    assert(descriptors[index] == shorter[index]);
                }
            }
        }
    }
}

/// Mapping a range can only conflict or exhaust the arena.
proof fn lemma_range_errors(built: HostPaging, address: u64, end: u64, flags: u64)
    ensures
        ({
            let error = built.map_range(address, end, flags).1;
            error is None || error == Some(PagingError::MappingConflict) || error == Some(
                PagingError::ArenaExhausted,
            )
        }),
    decreases end - address,
{
    if address >= end {
    } else if address % 0x20_0000 == 0 && end - address >= 0x20_0000 {
        lemma_range_errors(
            built.map_2m(address, flags).0,
            (address + 0x20_0000) as u64,
            end,
            flags,
        );
    } else if address + 4096 < end {
        lemma_range_errors(
            built.map_4k(address, flags).0,
            (address + 4096) as u64,
            end,
            flags,
        );
    }
}

/// A collision of the last descriptor is a page claimed twice.
proof fn lemma_collision_is_claim(
    tree: PageTree,
    descriptors: Seq<EfiMemoryDescriptor>,
    nx_enabled: bool,
)
    requires
        descriptors.len() > 0,
        descriptors.last().number_of_pages > 0,
        forall|page: int, entry: u64| #[trigger]
            maps_to(tree, page, entry) ==> described(
                descriptors.drop_last(),
                nx_enabled,
                page,
                entry,
            ),
        collides(tree, first_mapped(descriptors.last()), mapped_end(descriptors.last())),
    ensures
        is_claimed_twice(descriptors),
{
    let shorter = descriptors.drop_last();
    let last = descriptors.last();
    let top = descriptors.len() - 1;
    let address = first_mapped(last);
    let end = mapped_end(last);
    if meets_itself(address, end) {
        let (page, one, two) = choose|page: int, one: u64, two: u64|
            one != two && #[trigger] range_has(address, end, page, one) && #[trigger] range_has(
                address,
                end,
                page,
                two,
            );
        assert(claims(descriptors[top], page, one));
        assert(claims(descriptors[top], page, two));
    } else {
        let (page, at) = choose|page: int, at: u64| #[trigger]
            range_has(address, end, page, at) && tree.leaf(page) is Some;
        let entry = tree.leaf(page)->0;
        assert(maps_to(tree, page, entry));
        let index = choose|index: int|
            0 <= index < shorter.len() && #[trigger] descriptor_maps(
                shorter[index],
                nx_enabled,
                page,
                entry,
            );
        let other = shorter[index];
        let flags = leaf_flags(nx_enabled, is_code(other));
        let before = choose|before: u64| #[trigger]
            range_has(first_mapped(other), mapped_end(other), page, before) && entry == before
                | flags;
        assert(claims(descriptors[index], page, before));
        assert(claims(descriptors[top], page, at));
    }
}

/// Where a page is claimed twice, not all descriptors can be mapped.
proof fn lemma_claim_fails(
    start: HostPaging,
    descriptors: Seq<EfiMemoryDescriptor>,
    nx_enabled: bool,
    low: int,
)
    requires
        start.wf(low),
        low <= start.arena.next,
        descriptors.len() > 0,
        !is_claimed_twice(descriptors.drop_last()),
        is_claimed_twice(descriptors),
    ensures
        start.map_all(descriptors, nx_enabled).1 is Some,
{
    let shorter = descriptors.drop_last();
    let last = descriptors.last();
    let top = descriptors.len() - 1;
    let (one, two, page, at_one, at_two) = choose|
        one: int,
        two: int,
        page: int,
        at_one: u64,
        at_two: u64,
    |
        {
            &&& 0 <= one < descriptors.len()
            &&& 0 <= two < descriptors.len()
            &&& (one, at_one) != (two, at_two)
            &&& #[trigger] claims(descriptors[one], page, at_one)
            &&& #[trigger] claims(descriptors[two], page, at_two)
        };
    start.lemma_map_all(shorter, nx_enabled, low);
    let (step, failed) = start.map_all(shorter, nx_enabled);
    if start.map_all(descriptors, nx_enabled).1 is None {
        step.lemma_map_descriptor(last, nx_enabled, low);
        let (next, _) = step.map_descriptor(last, nx_enabled);
        if one < top && two < top {
            assert(claims(shorter[one], page, at_one));
            assert(claims(shorter[two], page, at_two));
            assert(is_claimed_twice(shorter));
        } else if one == top && two == top {
            let (low_at, high_at) = if at_one < at_two {
                (at_one, at_two)
            } else {
                (at_two, at_one)
            };
            lemma_mapped_range_is_apart(
                step,
                first_mapped(last),
                mapped_end(last) as u64,
                nx_enabled,
                is_code(last),
                low,
                page,
                page,
                low_at,
                high_at,
            );
        } else {
            let (index, at, mine) = if one == top {
                (two, at_two, at_one)
            } else {
                (one, at_one, at_two)
            };
            let other = shorter[index];
            let entry = at | leaf_flags(nx_enabled, is_code(other));
            let own = mine | leaf_flags(nx_enabled, is_code(last));
            assert(range_has(first_mapped(other), mapped_end(other), page, at));
            assert(descriptor_maps(other, nx_enabled, page, entry));
            assert(described(shorter, nx_enabled, page, entry));
            assert(maps_to(step.tree, page, entry));
            assert(range_has(first_mapped(last), mapped_end(last), page, mine));
            assert(descriptor_maps(last, nx_enabled, page, own));
            assert(maps_to(next.tree, page, own));
        }
    }
}

/// Unless the arena is exhausted, a conflict is reported just where descriptors
/// that fit, before the first that does not, claim a page twice.
pub proof fn law_mapping_conflict(
    arena: ArenaView,
    descriptors: Seq<EfiMemoryDescriptor>,
    guards: Seq<u64>,
    nx_enabled: bool,
)
    requires
        arena.next <= arena.end <= PHYSICAL_LIMIT,
        host_paging(arena, descriptors, guards, nx_enabled).1 != Some(PagingError::ArenaExhausted),
    ensures
        host_paging(arena, descriptors, guards, nx_enabled).1 == Some(PagingError::MappingConflict)
            <==> exists|count: int|
            0 <= count <= descriptors.len() && all_fit(descriptors.take(count))
                && #[trigger] is_claimed_twice(descriptors.take(count)),
{
    lemma_arena_page(arena);
    let low = arena.next as int;
    let (rest, root) = arena.allocate_pages(1);
    let start = new_paging(rest, root->0);
    lemma_new_paging_wf(rest, root->0, low);
    lemma_map_all_conflict(start, descriptors, nx_enabled, low);
    let (mapped, failed) = start.map_all(descriptors, nx_enabled);
    if failed is None {
        lemma_unmap_errors(mapped, guards);
    }
    if exists|count: int|
        0 <= count <= descriptors.len() && all_fit(descriptors.take(count))
            && #[trigger] is_claimed_twice(descriptors.take(count)) {
        let count = choose|count: int|
            0 <= count <= descriptors.len() && all_fit(descriptors.take(count))
                && #[trigger] is_claimed_twice(descriptors.take(count));
        lemma_map_all_conflict(start, descriptors.take(count), nx_enabled, low);
        lemma_map_all_stops(start, descriptors, nx_enabled, count);
    }
}

/// Memory that claims a page twice is refused: with a conflict, if all of it fits
/// and the arena is not exhausted.
pub proof fn law_overlapping_memory_is_refused(
    arena: ArenaView,
    descriptors: Seq<EfiMemoryDescriptor>,
    guards: Seq<u64>,
    nx_enabled: bool,
)
    requires
        arena.next <= arena.end <= PHYSICAL_LIMIT,
        is_claimed_twice(descriptors),
    ensures
        ({
            let error = host_paging(arena, descriptors, guards, nx_enabled).1;
            &&& error is Some
            &&& all_fit(descriptors) && error != Some(PagingError::ArenaExhausted) ==> error
                == Some(PagingError::MappingConflict)
        }),
{
    lemma_arena_page(arena);
    let low = arena.next as int;
    let (rest, root) = arena.allocate_pages(1);
    if root is Some {
        let start = new_paging(rest, root->0);
        lemma_new_paging_wf(rest, root->0, low);
        lemma_map_all_conflict(start, descriptors, nx_enabled, low);
    }
}

/// Taking guards out reports no conflict.
proof fn lemma_unmap_errors(built: HostPaging, guards: Seq<u64>)
    ensures
        built.unmap_all(guards).1 != Some(PagingError::MappingConflict),
    decreases guards.len(),
{
    if guards.len() > 0 {
        lemma_unmap_errors(built, guards.drop_last());
    }
}

/// The first descriptor whose memory does not fit decides, where those before it can be mapped:
/// memory that ends outside the address space is reported as such, and memory that ends above
/// 2^52 as too wide.
pub proof fn law_memory_that_does_not_fit(
    arena: ArenaView,
    descriptors: Seq<EfiMemoryDescriptor>,
    guards: Seq<u64>,
    nx_enabled: bool,
    index: int,
)
    requires
        0 <= index < descriptors.len(),
        host_paging(arena, descriptors.take(index), Seq::empty(), nx_enabled).1 is None,
        descriptors[index].number_of_pages > 0,
        descriptors[index].physical_start + 4096 * descriptors[index].number_of_pages
            > 0x10_0000_0000_0000,
    ensures
        host_paging(arena, descriptors, guards, nx_enabled).1 == Some(
            if descriptors[index].physical_start + 4096 * descriptors[index].number_of_pages
                > u64::MAX {
                PagingError::AddressOverflow
            } else {
                PagingError::PhysicalAddressTooWide
            },
        ),
{
    let (rest, root) = arena.allocate_pages(1);
    let start = new_paging(rest, root->0);
    let with = descriptors.take(index + 1);
    assert(with.drop_last() =~= descriptors.take(index));
    assert(with.last() == descriptors[index]);
    lemma_map_all_stops(start, descriptors, nx_enabled, index + 1);
}

/// What is left of the arena is where the tables end, one page for each.
spec fn pays_for_tables(built: HostPaging, start: int, end: int) -> bool {
    &&& built.arena.next % 4096 == 0
    &&& 0 < built.arena.next <= built.arena.end
    &&& built.arena.end == end <= PHYSICAL_LIMIT
    &&& built.tree.tables.dom().finite()
    &&& built.arena.next == start + 4096 * built.tree.tables.dom().len()
}

/// The construction went on to `next`, or failed there: for want of room only where there is
/// none.
spec fn pays(next: HostPaging, error: Option<PagingError>, start: int, end: int) -> bool {
    &&& pays_for_tables(next, start, end)
    &&& error == Some(PagingError::ArenaExhausted) ==> next.arena.end - next.arena.next < 4096
}

proof fn lemma_next_page(arena: ArenaView)
    requires
        0 < arena.next <= arena.end <= PHYSICAL_LIMIT,
        arena.next % 4096 == 0,
    ensures
        arena.allocate_pages(1) == if arena.next + 4096 <= arena.end {
            (
                ArenaView { next: arena.next + 4096, end: arena.end },
                Some(arena.next as u64),
            )
        } else {
            (arena, None)
        },
{
    law_pages_are_blocks(arena, 1);
    assert(arena.allocate_pages(1) == arena.allocate(4096, 4096));
    if arena.next + 4096 <= arena.end {
        law_arena_gives_the_lowest_block(arena, 4096, 4096, arena.next);
    } else {
        law_arena_refuses(arena, 4096, 4096);
    }
}

proof fn lemma_pays_table(built: HostPaging, level: int, slot: int, start: int, end: int)
    requires
        pays_for_tables(built, start, end),
    ensures
        pays(built.with_table(level, slot).0, built.with_table(level, slot).1, start, end),
{
    lemma_next_page(built.arena);
    assert(built.tree.tables.insert((level, slot), built.arena.next as u64).dom()
        =~= built.tree.tables.dom().insert((level, slot)));
}

proof fn lemma_pays_directory(built: HostPaging, page: int, start: int, end: int)
    requires
        pays_for_tables(built, start, end),
    ensures
        pays(built.with_directory(page).0, built.with_directory(page).1, start, end),
{
    lemma_pays_table(built, 3, page / 0x800_0000, start, end);
    let next = built.with_table(3, page / 0x800_0000).0;
    lemma_pays_table(next, 2, page / 0x4_0000, start, end);
}

proof fn lemma_pays_range(
    built: HostPaging,
    address: u64,
    last: u64,
    flags: u64,
    start: int,
    end: int,
)
    requires
        pays_for_tables(built, start, end),
    ensures
        pays(
            built.map_range(address, last, flags).0,
            built.map_range(address, last, flags).1,
            start,
            end,
        ),
    decreases last - address,
{
    let page = page_number(address);
    if address >= last {
    } else {
        lemma_pays_directory(built, page, start, end);
        let (next, error) = built.with_directory(page);
        if address % 0x20_0000 == 0 && last - address >= 0x20_0000 {
            let (mapped, failed) = built.map_2m(address, flags);
            assert(pays(mapped, failed, start, end));
            if failed is None {
                lemma_pays_range(
                    mapped,
                    (address + 0x20_0000) as u64,
                    last,
                    flags,
                    start,
                    end,
                );
            }
        } else {
            if error is None {
                lemma_pays_table(next, 1, page / 512, start, end);
            }
            let (mapped, failed) = built.map_4k(address, flags);
            assert(pays(mapped, failed, start, end));
            if failed is None && address + 4096 < last {
                lemma_pays_range(mapped, (address + 4096) as u64, last, flags, start, end);
            }
        }
    }
}

proof fn lemma_pays_all(
    built: HostPaging,
    descriptors: Seq<EfiMemoryDescriptor>,
    nx_enabled: bool,
    start: int,
    end: int,
)
    requires
        pays_for_tables(built, start, end),
    ensures
        pays(
            built.map_all(descriptors, nx_enabled).0,
            built.map_all(descriptors, nx_enabled).1,
            start,
            end,
        ),
    decreases descriptors.len(),
{
    if descriptors.len() > 0 {
        let shorter = descriptors.drop_last();
        let last = descriptors.last();
        lemma_pays_all(built, shorter, nx_enabled, start, end);
        let (step, failed) = built.map_all(shorter, nx_enabled);
        if failed is None {
            lemma_pays_range(
                step,
                first_mapped(last),
                mapped_end(last) as u64,
                leaf_flags(nx_enabled, is_code(last)),
                start,
                end,
            );
        }
    }
}

proof fn lemma_pays_guards(built: HostPaging, guards: Seq<u64>, low: int, start: int, end: int)
    requires
        pays_for_tables(built, start, end),
        built.wf(low),
        low <= built.arena.next,
    ensures
        pays(built.unmap_all(guards).0, built.unmap_all(guards).1, start, end),
    decreases guards.len(),
{
    if guards.len() > 0 {
        let shorter = guards.drop_last();
        lemma_pays_guards(built, shorter, low, start, end);
        built.lemma_unmap_all(shorter, low);
        let (step, failed) = built.unmap_all(shorter);
        if failed is None {
            let slot = page_number(guards.last()) / 512;
            lemma_next_page(step.arena);
            if step.tree.huge.contains_key(slot) {
                assert(!step.tree.tables.contains_key((1, slot)));
                assert(step.tree.tables.insert((1, slot), step.arena.next as u64).dom()
                    =~= step.tree.tables.dom().insert((1, slot)));
            }
        }
    }
}

/// Building the tables takes one page of the arena for each of them and no other, and fails for
/// want of room only where no page is left.
pub proof fn law_arena_pays_for_tables_only(
    arena: ArenaView,
    descriptors: Seq<EfiMemoryDescriptor>,
    guards: Seq<u64>,
    nx_enabled: bool,
)
    requires
        0 < arena.next <= arena.end <= PHYSICAL_LIMIT,
        arena.next % 4096 == 0,
    ensures
        ({
            let (built, error) = host_paging(arena, descriptors, guards, nx_enabled);
            &&& built.tree.tables.dom().finite()
            &&& built.arena.next == arena.next + 4096 * built.tree.tables.dom().len()
            &&& built.arena.end == arena.end
            &&& error == Some(PagingError::ArenaExhausted) ==> built.arena.end - built.arena.next
                < 4096
            &&& error is None ==> built.tree.tables[(4, 0)] == arena.next
        }),
{
    let low = arena.next as int;
    let end = arena.end as int;
    lemma_next_page(arena);
    let (rest, root) = arena.allocate_pages(1);
    if root is Some {
        let start = new_paging(rest, root->0);
        assert(start.tree.tables.dom() =~= Set::empty().insert((4int, 0int)));
        lemma_new_paging_wf(rest, root->0, low);
        lemma_pays_all(start, descriptors, nx_enabled, low, end);
        start.lemma_map_all(descriptors, nx_enabled, low);
        let (mapped, failed) = start.map_all(descriptors, nx_enabled);
        if failed is None {
            lemma_pays_guards(mapped, guards, low, low, end);
            mapped.lemma_unmap_all(guards, low);
        }
    } else {
        let tables = Map::<(int, int), u64>::empty();
        assert(tables.dom() =~= Set::empty());
    }
}

} // verus!
