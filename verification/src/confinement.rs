//! What holds of memory when a whole run of the core is over: the host cannot reach
//! its guard pages, and the guest reaches its own pages only.

use crate::arch::x86_64::descriptors::{
    are_host_tables, ist_sizes, law_interrupt_stacks_take_27_pages,
};
use crate::arch::x86_64::entry::{page_number, walk, word};
use crate::arch::x86_64::ept::{
    ept_walk, guest_page, law_virtual_machine_takes_27_pages, vm_memory, EptTranslation,
};
use crate::arch::x86_64::instructions::{run, Processor};
use crate::arch::x86_64::page_errors::law_arena_pays_for_tables_only;
use crate::arch::x86_64::page_tree::{
    host_paging, is_guard, lemma_host_paging_wf, lemma_walk, HostPaging,
};
use crate::arch::x86_64::paging::has_nx;
use crate::arch::x86_64::vm::{
    block_sizes, ept_leaf, named, resources, with_ept, with_guest, VmPages, EPT_EXECUTE, EPT_READ,
    EPT_WRITE, GUEST_CODE_LAST, GUEST_CODE_WORD, GUEST_PDPT_GPA, GUEST_PD_GPA,
};
use crate::boot_alloc::{arena_error, blocks, is_block, lemma_blocks, ArenaView};
use crate::guest_start::{guest_start, law_guest_start};
use crate::hypervisor::Entry;
use crate::machine::{
    core_ends, guest_stage_end, paging_stage_ends, part, stock_stage_ends, switched_on,
    tables_stage_ends, vm_stage_ends, Machine,
};
use crate::memory::{collect, descriptors_in, map_error};
use crate::phys::{covers, same_outside};
use crate::serial::LogRecord;
use crate::stages::{
    all_guards, host_records, law_stages_guard_the_host_and_confine_the_guest, memory_with_vm,
    stock_records, tables_failure_records, take_over_records, vm_failure_records, Vectors,
};
use vstd::prelude::*;

verus! {

/// The virtual machine that a run makes when every stage but the last succeeds,
/// the guards, and the host's page tables.
pub open spec fn made_by_run(entry: Entry<'_>, machine: Machine) -> (
    VmPages,
    Seq<u64>,
    HostPaging,
) {
    let handoff = entry.handoff;
    let base = handoff.bootstrap_arena_base;
    let arena = ArenaView {
        next: base as nat,
        end: (base + handoff.bootstrap_arena_size) as nat,
    };
    let descriptors = descriptors_in(entry.map@, handoff.descriptor_size as nat);
    let (guarded, stacks) = blocks(arena, ist_sizes());
    let (rest, pages) = blocks(guarded, block_sizes());
    let vm = named(pages->0);
    let guards = all_guards(handoff.stack_guard, stacks->0, vm.vmexit_stack);
    (vm, guards, host_paging(rest, descriptors, guards, has_nx(machine.processor)).0)
}

/// Every stage but the last succeeds.
pub open spec fn reaches_last_stage(entry: Entry<'_>, machine: Machine) -> bool {
    let handoff = entry.handoff;
    let base = handoff.bootstrap_arena_base;
    let arena = ArenaView {
        next: base as nat,
        end: (base + handoff.bootstrap_arena_size) as nat,
    };
    let descriptors = descriptors_in(entry.map@, handoff.descriptor_size as nat);
    let (guarded, stacks) = blocks(arena, ist_sizes());
    let (rest, pages) = blocks(guarded, block_sizes());
    let (_, guards, _) = made_by_run(entry, machine);
    &&& arena_error(base, handoff.bootstrap_arena_size) is None
    &&& stacks is Some
    &&& map_error(handoff) is None
    &&& collect(descriptors) is Ok
    &&& pages is Some
    &&& host_paging(rest, descriptors, guards, has_nx(machine.processor)).1 is None
}

/// The words of the `size` bytes from `base` on are there, and zero.
pub open spec fn holds_zeros(memory: Map<int, u64>, base: int, size: int) -> bool {
    &&& covers(memory, base, base + size)
    &&& forall|place: int|
        base <= place < base + size && place % 8 == 0 ==> #[trigger] memory[place] == 0
}

/// In memory as it is after a run, `address` is not mapped for the host if it lies in
/// a guard page, and `guest` leads the guest into one of its five pages or nowhere.
pub open spec fn is_confined(
    entry: Entry<'_>,
    before: Machine,
    after: Machine,
    address: u64,
    guest: u64,
) -> bool {
    let (vm, guards, built) = made_by_run(entry, before);
    &&& is_guard(guards, page_number(address)) ==> walk(
        after.memory,
        built.tree.tables[(4, 0)],
        address,
    ) is None
    &&& ept_walk(after.memory, vm.ept_pml4, guest) == match guest_page(vm, page_number(guest)) {
        Some((page, rights)) => Some(
            EptTranslation { host: page + guest as int % 4096, rights },
        ),
        None => None,
    }
}

/// When a run that began with an arena of zeros and reached the last stage is over,
/// memory is as the processor found it when CR3 was written; no address of a guard
/// page is mapped for the host; and the guest reaches the five pages that were made
/// for it, and nothing else.
#[verifier::spinoff_prover]
pub proof fn law_run_guards_the_host_and_confines_the_guest(
    entry: Entry<'_>,
    vectors: Vectors,
    before: Machine,
    after: Machine,
    address: u64,
    guest: u64,
)
    requires
        entry.wf(),
        reaches_last_stage(entry, before),
        core_ends(Some(entry), vectors, before, after),
        holds_zeros(
            before.memory,
            entry.handoff.bootstrap_arena_base as int,
            entry.handoff.bootstrap_arena_size as int,
        ),
    ensures
        after.at_switch == Some(after.memory),
        is_confined(entry, before, after, address, guest),
{
    lemma_run_stores(entry, vectors, before, after);
    let left = choose|left: Map<int, u64>| #[trigger]
        is_stored_by_run(entry, before, after, left);
    lemma_run_confines(entry, before, after, left, address, guest);
}

#[verifier::spinoff_prover]
proof fn lemma_run_confines(
    entry: Entry<'_>,
    before: Machine,
    after: Machine,
    left: Map<int, u64>,
    address: u64,
    guest: u64,
)
    requires
        entry.wf(),
        reaches_last_stage(entry, before),
        is_stored_by_run(entry, before, after, left),
        holds_zeros(
            before.memory,
            entry.handoff.bootstrap_arena_base as int,
            entry.handoff.bootstrap_arena_size as int,
        ),
    ensures
        is_confined(entry, before, after, address, guest),
{
    let base = entry.handoff.bootstrap_arena_base as int;
    let size = entry.handoff.bootstrap_arena_size as int;
    let arena = ArenaView { next: base as nat, end: (base + size) as nat };
    lemma_part(before.memory, base, size);
    lemma_run_builds(entry, before, after, left, address);
    law_stages_guard_the_host_and_confine_the_guest(
        arena,
        before.memory,
        after.memory,
        descriptors_in(entry.map@, entry.handoff.descriptor_size as nat),
        entry.handoff.stack_guard,
        has_nx(before.processor),
        address,
        guest,
    );
}

/// The part of memory that is there is part of memory.
proof fn lemma_part(memory: Map<int, u64>, base: int, size: int)
    requires
        base % 8 == 0,
        covers(memory, base, base + size),
    ensures
        covers(part(memory, base, size), base, base + size),
        memory == memory.union_prefer_right(part(memory, base, size)),
{
    assert(memory =~= memory.union_prefer_right(part(memory, base, size)));
}

/// What a run stored is the virtual machine and the host's page tables, and the
/// processor's walk leads where these say.
#[verifier::spinoff_prover]
proof fn lemma_run_builds(
    entry: Entry<'_>,
    before: Machine,
    after: Machine,
    left: Map<int, u64>,
    address: u64,
)
    requires
        entry.wf(),
        reaches_last_stage(entry, before),
        is_stored_by_run(entry, before, after, left),
        ({
            let base = entry.handoff.bootstrap_arena_base as int;
            let held = part(before.memory, base, entry.handoff.bootstrap_arena_size as int);
            &&& covers(held, base, base + entry.handoff.bootstrap_arena_size)
            &&& before.memory == before.memory.union_prefer_right(held)
        }),
    ensures
        ({
            let base = entry.handoff.bootstrap_arena_base as int;
            let size = entry.handoff.bootstrap_arena_size as int;
            let arena = ArenaView { next: base as nat, end: (base + size) as nat };
            let (rest, _) = blocks(blocks(arena, ist_sizes()).0, block_sizes());
            let (vm, _, built) = made_by_run(entry, before);
            &&& same_outside(
                vm_memory(before.memory, vm),
                after.memory,
                rest.next as int,
                built.arena.next as int,
            )
            &&& walk(after.memory, built.tree.tables[(4, 0)], address) == built.tree.translate(
                address,
            )
        }),
{
    let handoff = entry.handoff;
    let base = handoff.bootstrap_arena_base as int;
    let size = handoff.bootstrap_arena_size as int;
    let arena = ArenaView { next: base as nat, end: (base + size) as nat };
    let descriptors = descriptors_in(entry.map@, handoff.descriptor_size as nat);
    let (guarded, stacks) = blocks(arena, ist_sizes());
    let (rest, pages) = blocks(guarded, block_sizes());
    let (vm, guards, built) = made_by_run(entry, before);
    let held = part(before.memory, base, size);
    lemma_blocks(arena, ist_sizes());
    lemma_blocks(guarded, block_sizes());
    lemma_host_paging_wf(rest, descriptors, guards, has_nx(before.processor));
    lemma_vm_in_whole_memory(before.memory, held, guarded, rest, pages->0);
    lemma_tables_in_whole_memory(before.memory, held, vm, left, rest, built);
    lemma_walk(built.tree, after.memory, rest.next as int, built.arena.next as int, address);
}

/// A run that reached the last stage stored `left` over the arena.
spec fn is_stored_by_run(
    entry: Entry<'_>,
    before: Machine,
    after: Machine,
    left: Map<int, u64>,
) -> bool {
    let base = entry.handoff.bootstrap_arena_base as int;
    let size = entry.handoff.bootstrap_arena_size as int;
    let arena = ArenaView { next: base as nat, end: (base + size) as nat };
    let (rest, _) = blocks(blocks(arena, ist_sizes()).0, block_sizes());
    let (vm, _, built) = made_by_run(entry, before);
    &&& same_outside(
        vm_memory(part(before.memory, base, size), vm),
        left,
        rest.next as int,
        built.arena.next as int,
    )
    &&& built.tree.is_in(left)
    &&& after.memory == before.memory.union_prefer_right(left)
    &&& after.at_switch == Some(after.memory)
}

#[verifier::spinoff_prover]
proof fn lemma_run_stores(entry: Entry<'_>, vectors: Vectors, before: Machine, after: Machine)
    requires
        reaches_last_stage(entry, before),
        core_ends(Some(entry), vectors, before, after),
    ensures
        exists|left: Map<int, u64>| #[trigger] is_stored_by_run(entry, before, after, left),
{
    let handoff = entry.handoff;
    let base = handoff.bootstrap_arena_base as int;
    let size = handoff.bootstrap_arena_size as int;
    let arena = ArenaView { next: base as nat, end: (base + size) as nat };
    let descriptors = descriptors_in(entry.map@, handoff.descriptor_size as nat);
    let (guarded, stacks) = blocks(arena, ist_sizes());
    let (rest, pages) = blocks(guarded, block_sizes());
    let (vm, guards, built) = made_by_run(entry, before);
    let nx_enabled = has_nx(before.processor);
    let memory = vm_memory(part(before.memory, base, size), vm);
    let first = before.reported(take_over_records(Some(handoff)));
    let loaded = Machine { tables: after.tables, ..first };
    let found = loaded.reported(stock_records(handoff, entry.map@, guarded));
    assert(tables_stage_ends(entry, vectors, arena, first, after));
    assert(stock_stage_ends(entry, guarded, stacks->0, loaded, after));
    assert(vm_stage_ends(handoff, guarded, stacks->0, descriptors, found, after));
    assert(memory_with_vm(guarded, part(found.memory, base, size)) == memory);
    assert(paging_stage_ends(
        handoff,
        rest,
        stacks->0,
        descriptors,
        resources(vm),
        memory,
        found,
        after,
    ));
    let records = host_records(built, None, nx_enabled);
    let left = choose|left: Map<int, u64>|
        {
            let ready = switched_on(found).stored(left).reported(records);
            &&& #[trigger] same_outside(memory, left, rest.next as int, built.arena.next as int)
            &&& built.tree.is_in(left)
            &&& after == guest_stage_end(
                built.tree.tables[(4, 0)],
                resources(vm),
                handoff.vmxon_region,
                ready,
            )
        };
    assert(is_stored_by_run(entry, before, after, left));
}

/// Tables built in the arena's part of memory are tables in memory.
#[verifier::spinoff_prover]
proof fn lemma_tables_in_whole_memory(
    memory: Map<int, u64>,
    held: Map<int, u64>,
    vm: VmPages,
    left: Map<int, u64>,
    arena: ArenaView,
    built: HostPaging,
)
    requires
        vm_memory(memory, vm) == memory.union_prefer_right(vm_memory(held, vm)),
        vm_memory(held, vm).dom() == held.dom(),
        covers(held, arena.next as int, arena.end as int),
        built.wf(arena.next as int),
        built.arena.end == arena.end,
        same_outside(
            vm_memory(held, vm),
            left,
            arena.next as int,
            built.arena.next as int,
        ),
        built.tree.is_in(left),
    ensures
        same_outside(
            vm_memory(memory, vm),
            memory.union_prefer_right(left),
            arena.next as int,
            built.arena.next as int,
        ),
        built.tree.is_in(memory.union_prefer_right(left)),
{
    let after = memory.union_prefer_right(left);
    assert(after.dom() =~= vm_memory(memory, vm).dom());
    assert forall|level: int, slot: int| #[trigger]
        built.tree.tables.contains_key((level, slot)) implies built.tree.table_is_in(
        after,
        level,
        slot,
    ) by {
        let table = built.tree.tables[(level, slot)];
        assert(built.tree.table_is_in(left, level, slot));
        assert forall|index: int| 0 <= index < 512 implies #[trigger] word(after, table, index)
            == built.tree.entry(level, slot * 512 + index) by {
            assert(word(left, table, index) == built.tree.entry(level, slot * 512 + index));
            assert(held.contains_key(table + 8 * index));
            assert(left.dom().contains(table + 8 * index));
        }
    }
}

/// A virtual machine made in the arena's part of memory is one made in memory.
proof fn lemma_vm_in_whole_memory(
    memory: Map<int, u64>,
    held: Map<int, u64>,
    arena: ArenaView,
    rest: ArenaView,
    pages: Seq<u64>,
)
    requires
        blocks(arena, block_sizes()) == (rest, Some(pages)),
        arena.next <= arena.end <= u64::MAX,
        covers(held, arena.next as int, arena.end as int),
        memory == memory.union_prefer_right(held),
    ensures
        vm_memory(memory, named(pages)) == memory.union_prefer_right(
            vm_memory(held, named(pages)),
        ),
        vm_memory(held, named(pages)).dom() == held.dom(),
{
    let vm = named(pages);
    lemma_blocks(arena, block_sizes());
    assert forall|index: int| 0 <= index < 11 implies has_words(
        held,
        #[trigger] pages[index] as int,
    ) by {
        assert(is_block(pages[index], block_sizes()[index], arena.next, rest.next));
        assert forall|word: int| 0 <= word < 512 implies #[trigger] held.contains_key(
            pages[index] + 8 * word,
        ) by {}
    }
    lemma_guest_in_whole_memory(memory, held, vm);
    lemma_ept_in_whole_memory(memory, with_guest(held, vm), vm);
}

/// The words of the page are there.
spec fn has_words(memory: Map<int, u64>, page: int) -> bool {
    forall|word: int| 0 <= word < 512 ==> #[trigger] memory.contains_key(page + 8 * word)
}

proof fn lemma_insert(memory: Map<int, u64>, held: Map<int, u64>, place: int, value: u64)
    requires
        held.contains_key(place),
    ensures
        memory.union_prefer_right(held).insert(place, value) == memory.union_prefer_right(
            held.insert(place, value),
        ),
        held.insert(place, value).dom() == held.dom(),
{
    assert(memory.union_prefer_right(held).insert(place, value) =~= memory.union_prefer_right(
        held.insert(place, value),
    ));
    assert(held.insert(place, value).dom() =~= held.dom());
}

#[verifier::spinoff_prover]
proof fn lemma_guest_in_whole_memory(memory: Map<int, u64>, held: Map<int, u64>, vm: VmPages)
    requires
        has_words(held, vm.guest_pml4 as int),
        has_words(held, vm.guest_pdpt as int),
        has_words(held, vm.guest_pd as int),
        has_words(held, vm.guest_code as int),
        memory == memory.union_prefer_right(held),
    ensures
        with_guest(memory, vm) == memory.union_prefer_right(with_guest(held, vm)),
        with_guest(held, vm).dom() == held.dom(),
{
    let pml4 = vm.guest_pml4 as int;
    let pdpt = vm.guest_pdpt as int;
    let pd = vm.guest_pd as int;
    let code = vm.guest_code as int;
    assert(held.contains_key(pml4 + 8 * 0) && held.contains_key(pdpt + 8 * 0)
        && held.contains_key(pd + 8 * 0) && held.contains_key(code + 8 * 0) && held.contains_key(
        code + 8 * 1,
    ));
    let one = held.insert(pml4, GUEST_PDPT_GPA | 0x3);
    let two = one.insert(pdpt, GUEST_PD_GPA | 0x3);
    let three = two.insert(pd, 0x83);
    let four = three.insert(code, GUEST_CODE_WORD);
    lemma_insert(memory, held, pml4, GUEST_PDPT_GPA | 0x3);
    lemma_insert(memory, one, pdpt, GUEST_PD_GPA | 0x3);
    lemma_insert(memory, two, pd, 0x83);
    lemma_insert(memory, three, code, GUEST_CODE_WORD);
    assert(four.dom().contains(code + 8));
    lemma_insert(memory, four, code + 8, (four[code + 8] & !0xffu64) | GUEST_CODE_LAST);
}

#[verifier::spinoff_prover]
proof fn lemma_ept_in_whole_memory(memory: Map<int, u64>, held: Map<int, u64>, vm: VmPages)
    requires
        has_words(held, vm.ept_pml4 as int),
        has_words(held, vm.ept_pdpt as int),
        has_words(held, vm.ept_pd as int),
        has_words(held, vm.ept_pt as int),
    ensures
        with_ept(memory.union_prefer_right(held), vm) == memory.union_prefer_right(
            with_ept(held, vm),
        ),
        with_ept(held, vm).dom() == held.dom(),
{
    let nonleaf = EPT_READ | EPT_WRITE | EPT_EXECUTE;
    let data = EPT_READ | EPT_WRITE;
    let pml4 = vm.ept_pml4 as int;
    let pdpt = vm.ept_pdpt as int;
    let pd = vm.ept_pd as int;
    let pt = vm.ept_pt as int;
    assert(held.contains_key(pml4 + 8 * 0) && held.contains_key(pdpt + 8 * 0)
        && held.contains_key(pd + 8 * 0));
    assert(held.contains_key(pt + 8 * 1) && held.contains_key(pt + 8 * 2) && held.contains_key(
        pt + 8 * 3,
    ) && held.contains_key(pt + 8 * 4) && held.contains_key(pt + 8 * 5));
    let one = held.insert(pml4, vm.ept_pdpt | nonleaf);
    let two = one.insert(pdpt, vm.ept_pd | nonleaf);
    let three = two.insert(pd, vm.ept_pt | nonleaf);
    let four = three.insert(pt + 8 * 1, ept_leaf(vm.guest_pml4, data));
    let five = four.insert(pt + 8 * 2, ept_leaf(vm.guest_pdpt, data));
    let six = five.insert(pt + 8 * 3, ept_leaf(vm.guest_pd, data));
    let seven = six.insert(pt + 8 * 4, ept_leaf(vm.guest_code, EPT_READ | EPT_EXECUTE));
    lemma_insert(memory, held, pml4, vm.ept_pdpt | nonleaf);
    lemma_insert(memory, one, pdpt, vm.ept_pd | nonleaf);
    lemma_insert(memory, two, pd, vm.ept_pt | nonleaf);
    lemma_insert(memory, three, pt + 8 * 1, ept_leaf(vm.guest_pml4, data));
    lemma_insert(memory, four, pt + 8 * 2, ept_leaf(vm.guest_pdpt, data));
    lemma_insert(memory, five, pt + 8 * 3, ept_leaf(vm.guest_pd, data));
    lemma_insert(memory, six, pt + 8 * 4, ept_leaf(vm.guest_code, EPT_READ | EPT_EXECUTE));
    lemma_insert(memory, seven, pt + 8 * 5, ept_leaf(vm.guest_stack, data));
}

/// Where a run puts things, counted in pages from the base of its arena: three interrupt stacks of
/// nine pages from the base on, the virtual machine's 27 pages behind them, and the host's tables
/// behind those. The guards are that of the core's stack and the lowest pages of these four stacks.
#[verifier::spinoff_prover]
pub proof fn law_places_in_the_arena(entry: Entry<'_>, machine: Machine)
    requires
        entry.wf(),
        reaches_last_stage(entry, machine),
        entry.handoff.bootstrap_arena_base > 0,
    ensures
        ({
            let base = entry.handoff.bootstrap_arena_base;
            let (vm, guards, built) = made_by_run(entry, machine);
            &&& resources(vm).vmcs == base + 27 * 4096
            &&& resources(vm).vmexit_guard == base + 28 * 4096
            &&& resources(vm).vmexit_stack_top == base + 45 * 4096
            &&& resources(vm).ept_root == base + 50 * 4096
            &&& built.tree.tables[(4, 0)] == base + 54 * 4096
            &&& guards.len() == 5
            &&& guards[0] == entry.handoff.stack_guard
            &&& guards[1] == base
            &&& guards[2] == base + 9 * 4096
            &&& guards[3] == base + 18 * 4096
            &&& guards[4] == base + 28 * 4096
        }),
{
    let handoff = entry.handoff;
    let base = handoff.bootstrap_arena_base as int;
    let size = handoff.bootstrap_arena_size as int;
    let arena = ArenaView { next: base as nat, end: (base + size) as nat };
    let descriptors = descriptors_in(entry.map@, handoff.descriptor_size as nat);
    let guarded = blocks(arena, ist_sizes()).0;
    let rest = blocks(guarded, block_sizes()).0;
    let (_, guards, _) = made_by_run(entry, machine);
    lemma_blocks(arena, ist_sizes());
    lemma_blocks(guarded, block_sizes());
    law_interrupt_stacks_take_27_pages(arena);
    law_virtual_machine_takes_27_pages(guarded);
    law_arena_pays_for_tables_only(rest, descriptors, guards, has_nx(machine.processor));
}

/// A run that reaches its last stage: the processor uses descriptor tables with the core's stack;
/// the messages of the stages are logged in order; no-execute pages are switched on where the
/// processor has them; and the last stage starts the guest with the first of the host's tables,
/// the virtual machine, and the page for VMX operation that was handed over.
#[verifier::spinoff_prover]
pub proof fn law_run_starts_the_guest(
    entry: Entry<'_>,
    vectors: Vectors,
    before: Machine,
    after: Machine,
)
    requires
        reaches_last_stage(entry, before),
        core_ends(Some(entry), vectors, before, after),
    ensures
        ({
            let handoff = entry.handoff;
            let base = handoff.bootstrap_arena_base;
            let arena = ArenaView {
                next: base as nat,
                end: (base + handoff.bootstrap_arena_size) as nat,
            };
            let (guarded, stacks) = blocks(arena, ist_sizes());
            let (vm, guards, built) = made_by_run(entry, before);
            let nx_enabled = (before.processor.cpuid)(0x8000_0000, 0).eax >= 0x8000_0001 && (
            before.processor.cpuid)(0x8000_0001, 0).edx & 0x10_0000 != 0;
            let msrs = before.processor.msrs;
            let ready = Processor {
                console: before.processor.console + take_over_records(Some(handoff))
                    + stock_records(handoff, entry.map@, guarded) + host_records(
                    built,
                    None,
                    nx_enabled,
                ),
                msrs: if nx_enabled {
                    msrs.insert(0xc000_0080, msrs[0xc000_0080] | 0x800)
                } else {
                    msrs
                },
                ..before.processor
            };
            &&& after.processor == run(
                guest_start(
                    built.tree.tables[(4, 0)],
                    resources(vm),
                    handoff.vmxon_region,
                ),
                ready,
                143,
            ).0
            &&& after.tables matches Some(tables)
            &&& are_host_tables(
                tables,
                stacks->0,
                handoff.stack_top,
                vectors.tss_base,
                vectors.stubs@,
                vectors.unhandled,
            )
        }),
{
    let handoff = entry.handoff;
    let base = handoff.bootstrap_arena_base as int;
    let size = handoff.bootstrap_arena_size as int;
    let arena = ArenaView { next: base as nat, end: (base + size) as nat };
    let descriptors = descriptors_in(entry.map@, handoff.descriptor_size as nat);
    let (guarded, stacks) = blocks(arena, ist_sizes());
    let (rest, pages) = blocks(guarded, block_sizes());
    let (vm, guards, built) = made_by_run(entry, before);
    let nx_enabled = has_nx(before.processor);
    let memory = vm_memory(part(before.memory, base, size), vm);
    let first = before.reported(take_over_records(Some(handoff)));
    let loaded = Machine { tables: after.tables, ..first };
    let found = loaded.reported(stock_records(handoff, entry.map@, guarded));
    assert(tables_stage_ends(entry, vectors, arena, first, after));
    assert(stock_stage_ends(entry, guarded, stacks->0, loaded, after));
    assert(vm_stage_ends(handoff, guarded, stacks->0, descriptors, found, after));
    assert(memory_with_vm(guarded, part(found.memory, base, size)) == memory);
    assert(paging_stage_ends(
        handoff,
        rest,
        stacks->0,
        descriptors,
        resources(vm),
        memory,
        found,
        after,
    ));
    let records = host_records(built, None, nx_enabled);
    let left = choose|left: Map<int, u64>|
        {
            let ready = switched_on(found).stored(left).reported(records);
            &&& #[trigger] same_outside(memory, left, rest.next as int, built.arena.next as int)
            &&& built.tree.is_in(left)
            &&& after == guest_stage_end(
                built.tree.tables[(4, 0)],
                resources(vm),
                handoff.vmxon_region,
                ready,
            )
        };
    let ready = switched_on(found).stored(left).reported(records);
    law_guest_start(
        built.tree.tables[(4, 0)],
        resources(vm),
        handoff.vmxon_region,
        ready.processor,
    );
}

/// A run that stops before its last stage. Without a hand-over or an arena, nothing but the first
/// messages is done; without room for the interrupt stacks that is logged too.
pub proof fn law_run_that_stops_at_once(
    entry: Option<Entry<'_>>,
    vectors: Vectors,
    before: Machine,
    after: Machine,
)
    requires
        core_ends(entry, vectors, before, after),
    ensures
        entry is None ==> after == told(before, take_over_records(None)),
        entry matches Some(entry) ==> {
            let handoff = entry.handoff;
            let base = handoff.bootstrap_arena_base;
            let arena = ArenaView {
                next: base as nat,
                end: (base + handoff.bootstrap_arena_size) as nat,
            };
            let greeted = told(before, take_over_records(Some(handoff)));
            &&& arena_error(base, handoff.bootstrap_arena_size) is Some ==> after == greeted
            &&& arena_error(base, handoff.bootstrap_arena_size) is None && blocks(
                arena,
                ist_sizes(),
            ).1 is None ==> after == told(greeted, tables_failure_records())
        },
{
}

/// The machine once these messages are on the console.
pub open spec fn told(machine: Machine, records: Seq<LogRecord>) -> Machine {
    Machine {
        processor: Processor {
            console: machine.processor.console + records,
            ..machine.processor
        },
        ..machine
    }
}

/// A run that stops between its second stage and its last: the processor uses the host's
/// descriptor tables, and the messages of the stages are logged. Without a memory map or a ledger
/// memory stays as it is; without room for the virtual machine it has what was made of it;
/// without page tables it has the virtual machine and the tables that were begun, and no-execute
/// pages are on where the processor has them. CR3 is not written.
#[verifier::spinoff_prover]
pub proof fn law_run_that_stops_later(
    entry: Entry<'_>,
    vectors: Vectors,
    before: Machine,
    after: Machine,
)
    requires
        core_ends(Some(entry), vectors, before, after),
        arena_error(entry.handoff.bootstrap_arena_base, entry.handoff.bootstrap_arena_size) is None,
        ({
            let base = entry.handoff.bootstrap_arena_base;
            let arena = ArenaView {
                next: base as nat,
                end: (base + entry.handoff.bootstrap_arena_size) as nat,
            };
            blocks(arena, ist_sizes()).1 is Some
        }),
        !reaches_last_stage(entry, before),
    ensures
        ({
            let handoff = entry.handoff;
            let base = handoff.bootstrap_arena_base;
            let size = handoff.bootstrap_arena_size;
            let arena = ArenaView { next: base as nat, end: (base + size) as nat };
            let descriptors = descriptors_in(entry.map@, handoff.descriptor_size as nat);
            let (guarded, stacks) = blocks(arena, ist_sizes());
            let (rest, pages) = blocks(guarded, block_sizes());
            let stocked = told(
                Machine { tables: after.tables, ..before },
                take_over_records(Some(handoff)) + stock_records(handoff, entry.map@, guarded),
            );
            let made = memory_with_vm(guarded, part(before.memory, base as int, size as int));
            let nx_enabled = has_nx(before.processor);
            let guards = all_guards(
                handoff.stack_guard,
                stacks->0,
                named(pages->0).vmexit_stack,
            );
            let (built, error) = host_paging(rest, descriptors, guards, nx_enabled);
            &&& after.at_switch == before.at_switch
            &&& after.processor.cr3 == before.processor.cr3
            &&& after.tables matches Some(tables)
            &&& are_host_tables(
                tables,
                stacks->0,
                handoff.stack_top,
                vectors.tss_base,
                vectors.stubs@,
                vectors.unhandled,
            )
            &&& if map_error(handoff) is Some || collect(descriptors) is Err {
                after == stocked
            } else if pages is None {
                after == Machine {
                    memory: before.memory.union_prefer_right(made),
                    ..told(stocked, vm_failure_records())
                }
            } else {
                &&& after == Machine {
                    memory: after.memory,
                    ..told(switched_on(stocked), host_records(built, error, nx_enabled))
                }
                &&& exists|left: Map<int, u64>|
                    {
                        &&& #[trigger] same_outside(
                            made,
                            left,
                            rest.next as int,
                            built.arena.next as int,
                        )
                        &&& built.tree.is_in(left)
                        &&& after.memory == before.memory.union_prefer_right(left)
                    }
            }
        }),
{
    let handoff = entry.handoff;
    let base = handoff.bootstrap_arena_base as int;
    let size = handoff.bootstrap_arena_size as int;
    let arena = ArenaView { next: base as nat, end: (base + size) as nat };
    let descriptors = descriptors_in(entry.map@, handoff.descriptor_size as nat);
    let (guarded, stacks) = blocks(arena, ist_sizes());
    let (rest, pages) = blocks(guarded, block_sizes());
    let first = before.reported(take_over_records(Some(handoff)));
    let loaded = Machine { tables: after.tables, ..first };
    let found = loaded.reported(stock_records(handoff, entry.map@, guarded));
    let stocked = told(
        Machine { tables: after.tables, ..before },
        take_over_records(Some(handoff)) + stock_records(handoff, entry.map@, guarded),
    );
    assert(found.processor.console =~= stocked.processor.console);
    assert(found == stocked);
    assert(tables_stage_ends(entry, vectors, arena, first, after));
    assert(stock_stage_ends(entry, guarded, stacks->0, loaded, after));
    if map_error(handoff) is None && collect(descriptors) is Ok {
        assert(vm_stage_ends(handoff, guarded, stacks->0, descriptors, found, after));
        let made = memory_with_vm(guarded, part(before.memory, base, size));
        if pages is Some {
            let vm = named(pages->0);
            let guards = all_guards(handoff.stack_guard, stacks->0, vm.vmexit_stack);
            let nx_enabled = has_nx(before.processor);
            let (built, error) = host_paging(rest, descriptors, guards, nx_enabled);
            assert(paging_stage_ends(
                handoff,
                rest,
                stacks->0,
                descriptors,
                resources(vm),
                made,
                found,
                after,
            ));
            assert(error is Some);
            let left = choose|left: Map<int, u64>|
                {
                    &&& #[trigger] same_outside(
                        made,
                        left,
                        rest.next as int,
                        built.arena.next as int,
                    )
                    &&& built.tree.is_in(left)
                    &&& after == switched_on(found).stored(left).reported(
                        host_records(built, error, nx_enabled),
                    )
                };
            assert(after.memory == before.memory.union_prefer_right(left));
        }
    }
}

} // verus!
