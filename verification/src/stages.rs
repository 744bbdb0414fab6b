//! The stages of the core, from the hand-over to the host's page tables.
//!
//! Each stage works on plain values and says what is to be logged, and what the
//! core goes on with. A stage that gives nothing to go on with is the last: the
//! processor then halts.

use crate::arch::x86_64::descriptors::{
    are_host_tables, install, ist_sizes, DescriptorError, DescriptorState, DescriptorTables,
};
use crate::arch::x86_64::entry::{page_number, walk, PHYSICAL_LIMIT};
use crate::arch::x86_64::ept::{
    ept_walk, guest_page, is_vm, law_guest_reaches_its_pages_only,
    law_later_work_leaves_the_guest_alone, vm_memory, EptTranslation,
};
use crate::arch::x86_64::page_tree::{
    host_paging, is_guard, law_guard_pages_are_not_mapped, HostPaging,
};
use crate::arch::x86_64::paging::{HostPageTables, PagingError};
use crate::arch::x86_64::vm::{
    block_sizes, named, resources, with_guest, VmError, VmResources,
};
use crate::boot_alloc::{arena_error, blocks, lemma_blocks, ArenaView, BootArena};
use crate::memory::{
    collect, descriptors_in, has_no_empty_range, is_free, map_error, merged, pages_in,
    FrameAllocator, FrameRange, MemoryError, MemoryMap,
};
use crate::phys::{covers, same_outside, PhysMemory};
use crate::serial::LogRecord;
use crate::uefi::{EfiMemoryDescriptor, Handoff};
use vstd::prelude::*;

verus! {

/// What a stage logs, and what the core goes on with.
pub struct Stage<T> {
    pub records: Vec<LogRecord>,
    pub value: Option<T>,
}

/// The addresses that the descriptor tables need: of the host's task state, of
/// the entries of the exceptions, and of the entry of all other interrupts.
#[derive(Clone, Copy, Debug, PartialEq, Eq)]
pub struct Vectors {
    pub tss_base: u64,
    pub stubs: [u64; 32],
    pub unhandled: u64,
}

/// The message with which the core gives up before it has anything to work on.
pub open spec fn fatal_records(message: &'static str) -> Seq<LogRecord> {
    seq![LogRecord::Line("hypewwisoww: fatal"), LogRecord::Line(message)]
}

/// Logs why the core gives up.
pub fn fatal(records: &mut Vec<LogRecord>, message: &'static str)
    ensures
        final(records)@ == old(records)@ + fatal_records(message),
{
    records.push(LogRecord::Line("hypewwisoww: fatal"));
    records.push(LogRecord::Line(message));
}

/// What the first stage logs.
pub open spec fn take_over_records(handoff: Option<Handoff>) -> Seq<LogRecord> {
    let hello = seq![LogRecord::Line("hypewwisoww: boot services exited; core owns execution")];
    match handoff {
        None => hello + fatal_records("null UEFI handoff"),
        Some(handoff) => {
            let start = hello + seq![
                LogRecord::Hex(
                    "hypewwisoww: memory-map bytes=",
                    handoff.memory_map_size as u64,
                ),
                LogRecord::Hex(
                    "hypewwisoww: descriptor bytes=",
                    handoff.descriptor_size as u64,
                ),
            ];
            match arena_error(handoff.bootstrap_arena_base, handoff.bootstrap_arena_size) {
                Some(error) => start + seq![
                    LogRecord::Hex("hypewwisoww: invalid bootstrap arena=", error.number()),
                ],
                None => start,
            }
        },
    }
}

/// The first stage: the core takes over, and opens the bootstrap arena.
pub fn take_over(handoff: Option<Handoff>) -> (stage: Stage<BootArena>)
    ensures
        stage.records@ == take_over_records(handoff),
        match stage.value {
            Some(arena) => {
                &&& handoff matches Some(handoff)
                &&& arena_error(handoff.bootstrap_arena_base, handoff.bootstrap_arena_size) is None
                &&& arena.wf()
                &&& arena@ == (ArenaView {
                    next: handoff.bootstrap_arena_base as nat,
                    end: (handoff.bootstrap_arena_base + handoff.bootstrap_arena_size) as nat,
                })
            },
            None => handoff matches Some(handoff) ==> arena_error(
                handoff.bootstrap_arena_base,
                handoff.bootstrap_arena_size,
            ) is Some,
        },
{
    let mut records: Vec<LogRecord> = Vec::new();
    records.push(LogRecord::Line("hypewwisoww: boot services exited; core owns execution"));
    let handoff: Handoff = match handoff {
        Some(handoff) => handoff,
        None => {
            fatal(&mut records, "null UEFI handoff");
            return Stage { records, value: None };
        },
    };
    records.push(
        LogRecord::Hex("hypewwisoww: memory-map bytes=", handoff.memory_map_size as u64),
    );
    records.push(
        LogRecord::Hex("hypewwisoww: descriptor bytes=", handoff.descriptor_size as u64),
    );
    match BootArena::new(handoff.bootstrap_arena_base, handoff.bootstrap_arena_size) {
        Ok(arena) => Stage { records, value: Some(arena) },
        Err(error) => {
            records.push(
                LogRecord::Hex("hypewwisoww: invalid bootstrap arena=", error.code()),
            );
            Stage { records, value: None }
        },
    }
}

/// What the second stage logs when it fails.
pub open spec fn tables_failure_records() -> Seq<LogRecord> {
    seq![
        LogRecord::Hex(
            "hypewwisoww: descriptor setup failed=",
            DescriptorError::ArenaExhausted.number(),
        ),
    ]
}

/// The second stage does this: with room for the interrupt stacks in the arena
/// it gives the tables and logs nothing, without it logs the failure.
pub open spec fn tables_set_up(
    before: ArenaView,
    after: ArenaView,
    handoff: Handoff,
    vectors: Vectors,
    stage: Stage<DescriptorTables>,
) -> bool {
    &&& after == blocks(before, ist_sizes()).0
    &&& match blocks(before, ist_sizes()).1 {
        Some(guards) => {
            &&& stage.records@ =~= Seq::<LogRecord>::empty()
            &&& stage.value is Some
            &&& are_host_tables(
                stage.value->0,
                guards,
                handoff.stack_top,
                vectors.tss_base,
                vectors.stubs@,
                vectors.unhandled,
            )
        },
        None => {
            &&& stage.records@ =~= tables_failure_records()
            &&& stage.value is None
        },
    }
}

/// The second stage: the descriptor tables that the processor is to load.
pub fn set_up_tables(arena: &mut BootArena, handoff: &Handoff, vectors: &Vectors) -> (stage: Stage<
    DescriptorTables,
>)
    requires
        old(arena).wf(),
    ensures
        final(arena).wf(),
        tables_set_up(old(arena)@, final(arena)@, *handoff, *vectors, stage),
{
    let mut records: Vec<LogRecord> = Vec::new();
    match install(
        arena,
        handoff.stack_top,
        vectors.tss_base,
        &vectors.stubs,
        vectors.unhandled,
    ) {
        Ok(tables) => Stage { records, value: Some(tables) },
        Err(error) => {
            records.push(
                LogRecord::Hex("hypewwisoww: descriptor setup failed=", error.code()),
            );
            Stage { records, value: None }
        },
    }
}

/// The machine's memory: the firmware's map, and what of it is free.
pub struct Stock<'a> {
    pub map: MemoryMap<'a>,
    pub frames: FrameAllocator,
}

/// The ledger is that of the memory that the descriptors call free.
pub open spec fn is_ledger_of(
    frames: FrameAllocator,
    ranges: Result<Seq<FrameRange>, MemoryError>,
) -> bool {
    &&& ranges is Ok
    &&& frames.wf()
    &&& frames@ == merged(ranges->Ok_0)
    &&& has_no_empty_range(frames@)
    &&& forall|address: int|
        is_free(frames@, address) <==> #[trigger] is_free(ranges->Ok_0, address)
}

/// What the third stage logs.
pub open spec fn stock_records(handoff: Handoff, bytes: Seq<u8>, arena: ArenaView) -> Seq<
    LogRecord,
> {
    let start = seq![
        LogRecord::Line("hypewwisoww: host GDT/TSS/IDT active"),
        LogRecord::Hex(
            "hypewwisoww: bootstrap arena remaining=",
            (arena.end - arena.next) as u64,
        ),
    ];
    let descriptors = descriptors_in(bytes, handoff.descriptor_size as nat);
    let counted = start + seq![
        LogRecord::Hex("hypewwisoww: memory descriptors=", descriptors.len() as u64),
    ];
    match map_error(handoff) {
        Some(error) => start + seq![
            LogRecord::Hex("hypewwisoww: invalid memory map=", error.number()),
        ],
        None => match collect(descriptors) {
            Err(error) => counted + seq![
                LogRecord::Hex("hypewwisoww: frame ledger failed=", error.number()),
            ],
            Ok(ranges) => counted + seq![
                LogRecord::Hex("hypewwisoww: free ranges=", merged(ranges).len() as u64),
                LogRecord::Hex("hypewwisoww: free 4K frames=", pages_in(merged(ranges)) as u64),
            ],
        },
    }
}

/// The third stage does this: it logs what it finds in the map, and gives the
/// map and the ledger of free memory if both can be had.
pub open spec fn stock_taken(
    handoff: Handoff,
    bytes: Seq<u8>,
    arena: ArenaView,
    stage: Stage<Stock<'_>>,
) -> bool {
    let descriptors = descriptors_in(bytes, handoff.descriptor_size as nat);
    &&& stage.records@ =~= stock_records(handoff, bytes, arena)
    &&& match stage.value {
        Some(stock) => {
            &&& map_error(handoff) is None
            &&& stock.map.wf()
            &&& stock.map@ == descriptors
            &&& is_ledger_of(stock.frames, collect(descriptors))
        },
        None => map_error(handoff) is Some || collect(descriptors) is Err,
    }
}

/// The third stage, once the tables are loaded: what the firmware says of the
/// machine's memory. `bytes` is the memory that the hand-over's map points to.
pub fn take_stock<'a>(handoff: &Handoff, bytes: &'a [u8], arena: &BootArena) -> (stage: Stage<
    Stock<'a>,
>)
    requires
        arena.wf(),
        handoff.memory_map != 0 ==> bytes@.len() == handoff.memory_map_size,
    ensures
        stock_taken(*handoff, bytes@, arena@, stage),
{
    let mut records: Vec<LogRecord> = Vec::new();
    records.push(LogRecord::Line("hypewwisoww: host GDT/TSS/IDT active"));
    records.push(
        LogRecord::Hex("hypewwisoww: bootstrap arena remaining=", arena.remaining_bytes()),
    );
    let map: MemoryMap<'a> = match MemoryMap::from_handoff(handoff, bytes) {
        Ok(map) => map,
        Err(error) => {
            records.push(LogRecord::Hex("hypewwisoww: invalid memory map=", error.code()));
            return Stage { records, value: None };
        },
    };
    records.push(
        LogRecord::Hex("hypewwisoww: memory descriptors=", map.descriptor_count() as u64),
    );
    let frames: FrameAllocator = match FrameAllocator::from_memory_map(map) {
        Ok(frames) => frames,
        Err(error) => {
            records.push(LogRecord::Hex("hypewwisoww: frame ledger failed=", error.code()));
            return Stage { records, value: None };
        },
    };
    records.push(LogRecord::Hex("hypewwisoww: free ranges=", frames.range_count() as u64));
    records.push(LogRecord::Hex("hypewwisoww: free 4K frames=", frames.total_pages()));
    Stage { records, value: Some(Stock { map, frames }) }
}

/// Memory after the fourth stage, if the arena comes to it as `arena` and memory
/// as `found`. Where the arena has room for the guest but not for its extended
/// page tables, the guest alone is put into memory.
pub open spec fn memory_with_vm(arena: ArenaView, found: Map<int, u64>) -> Map<int, u64> {
    match blocks(arena, block_sizes()).1 {
        Some(pages) => vm_memory(found, named(pages)),
        None => match blocks(arena, block_sizes().take(7)).1 {
            Some(pages) => with_guest(found, named(pages)),
            None => found,
        },
    }
}

/// What the fourth stage logs when it fails.
pub open spec fn vm_failure_records() -> Seq<LogRecord> {
    seq![
        LogRecord::Hex(
            "hypewwisoww: VM resource allocation failed=",
            VmError::ArenaExhausted.number(),
        ),
    ]
}

/// The fourth stage does this: with room for the virtual machine in the arena it
/// puts it into memory and logs nothing, without it logs the failure.
pub open spec fn vm_made(
    before: ArenaView,
    after: ArenaView,
    found: Map<int, u64>,
    left: Map<int, u64>,
    stage: Stage<VmResources>,
) -> bool {
    &&& after == blocks(before, block_sizes()).0
    &&& left == memory_with_vm(before, found)
    &&& match blocks(before, block_sizes()).1 {
        Some(pages) => {
            &&& stage.records@ =~= Seq::<LogRecord>::empty()
            &&& stage.value is Some
            &&& stage.value->0@ == resources(named(pages))
        },
        None => {
            &&& stage.records@ =~= vm_failure_records()
            &&& stage.value is None
        },
    }
}

/// The fourth stage: the memory of the virtual machine.
pub fn make_vm(arena: &mut BootArena, memory: &mut PhysMemory) -> (stage: Stage<VmResources>)
    requires
        old(arena).wf(),
        old(memory).wf(),
        covers(old(memory)@, old(arena)@.next as int, old(arena)@.end as int),
    ensures
        final(arena).wf(),
        final(memory).wf(),
        vm_made(old(arena)@, final(arena)@, old(memory)@, final(memory)@, stage),
{
    let mut records: Vec<LogRecord> = Vec::new();
    match VmResources::allocate(arena, memory) {
        Ok(resources) => Stage { records, value: Some(resources) },
        Err(error) => {
            records.push(
                LogRecord::Hex("hypewwisoww: VM resource allocation failed=", error.code()),
            );
            Stage { records, value: None }
        },
    }
}

/// The pages that must not be mapped: below the core's stack, the three
/// interrupt stacks and the exit stack.
pub open spec fn all_guards(stack_guard: u64, ist_guards: Seq<u64>, vmexit_guard: u64) -> Seq<u64> {
    seq![stack_guard, ist_guards[0], ist_guards[1], ist_guards[2], vmexit_guard]
}

/// What the fifth stage logs of the tables `built`, or of the error.
pub open spec fn host_records(
    built: HostPaging,
    error: Option<PagingError>,
    nx_enabled: bool,
) -> Seq<LogRecord> {
    match error {
        Some(error) => seq![LogRecord::Hex("hypewwisoww: host paging failed=", error.number())],
        None => seq![
            LogRecord::Hex("hypewwisoww: host CR3=", built.tree.tables[(4, 0)]),
            LogRecord::Hex("hypewwisoww: mapped 4K pages=", built.mapped as u64),
            LogRecord::Hex(
                "hypewwisoww: NX active=",
                if nx_enabled {
                    1
                } else {
                    0
                },
            ),
        ],
    }
}

/// The fifth stage does this: it builds the host's page tables in memory and logs
/// what it built, or logs why it could not. Tables that were begun stay in memory.
pub open spec fn host_mapped(
    descriptors: Seq<EfiMemoryDescriptor>,
    guards: Seq<u64>,
    nx_enabled: bool,
    before: ArenaView,
    after: ArenaView,
    found: Map<int, u64>,
    left: Map<int, u64>,
    stage: Stage<HostPageTables>,
) -> bool {
    let (built, error) = host_paging(before, descriptors, guards, nx_enabled);
    &&& after == built.arena
    &&& same_outside(found, left, before.next as int, after.next as int)
    &&& built.tree.is_in(left)
    &&& stage.records@ =~= host_records(built, error, nx_enabled)
    &&& match error {
        Some(error) => stage.value is None,
        None => {
            &&& stage.value matches Some(tables)
            &&& tables.top() == built.tree.tables[(4, 0)]
            &&& tables.page_count() == built.mapped
            &&& tables.guards_data() == nx_enabled
            &&& forall|address: u64| #[trigger]
                walk(left, tables.top(), address) == built.tree.translate(address)
        },
    }
}

/// The fifth stage: the host's page tables.
pub fn map_host(
    map: MemoryMap<'_>,
    arena: &mut BootArena,
    memory: &mut PhysMemory,
    handoff: &Handoff,
    state: &DescriptorState,
    resources: &VmResources,
    nx_enabled: bool,
) -> (stage: Stage<HostPageTables>)
    requires
        map.wf(),
        old(arena).wf(),
        old(memory).wf(),
        old(arena)@.end <= PHYSICAL_LIMIT,
        covers(old(memory)@, old(arena)@.next as int, old(arena)@.end as int),
    ensures
        final(arena).wf(),
        final(memory).wf(),
        host_mapped(
            map@,
            all_guards(
                handoff.stack_guard,
                state.ist_guard_pages@,
                resources@.vmexit_guard,
            ),
            nx_enabled,
            old(arena)@,
            final(arena)@,
            old(memory)@,
            final(memory)@,
            stage,
        ),
{
    let mut records: Vec<LogRecord> = Vec::new();
    let guards: [u64; 5] = [
        handoff.stack_guard,
        state.ist_guard_pages[0],
        state.ist_guard_pages[1],
        state.ist_guard_pages[2],
        resources.guard_page(),
    ];
    assert(guards@ =~= all_guards(
        handoff.stack_guard,
        state.ist_guard_pages@,
        resources@.vmexit_guard,
    ));
    match HostPageTables::build(map, arena, memory, &guards, nx_enabled) {
        Ok(tables) => {
            records.push(LogRecord::Hex("hypewwisoww: host CR3=", tables.root()));
            records.push(
                LogRecord::Hex("hypewwisoww: mapped 4K pages=", tables.mapped_4k_pages()),
            );
            let active: u64 = if tables.nx_enabled() {
                1
            } else {
                0
            };
            records.push(LogRecord::Hex("hypewwisoww: NX active=", active));
            Stage { records, value: Some(tables) }
        },
        Err(error) => {
            records.push(LogRecord::Hex("hypewwisoww: host paging failed=", error.code()));
            Stage { records, value: None }
        },
    }
}

/// What the stages leave behind when all of them succeed on an arena of zeros.
/// `before` is memory as the core finds it, `after` as the guest finds it:
/// no address of a guard page is mapped for the host; and the guest reaches the
/// five pages that were made for it, and nothing else.
pub proof fn law_stages_guard_the_host_and_confine_the_guest(
    arena: ArenaView,
    before: Map<int, u64>,
    after: Map<int, u64>,
    descriptors: Seq<EfiMemoryDescriptor>,
    stack_guard: u64,
    nx_enabled: bool,
    address: u64,
    guest: u64,
)
    requires
        arena.next <= arena.end <= PHYSICAL_LIMIT,
        covers(before, arena.next as int, arena.end as int),
        forall|place: int|
            arena.next <= place < arena.end && place % 8 == 0 ==> #[trigger] before[place] == 0,
        blocks(arena, ist_sizes()).1 is Some,
        blocks(blocks(arena, ist_sizes()).0, block_sizes()).1 is Some,
        ({
            let (guarded, stacks) = blocks(arena, ist_sizes());
            let (rest, pages) = blocks(guarded, block_sizes());
            let vm = named(pages->0);
            let guards = all_guards(stack_guard, stacks->0, vm.vmexit_stack);
            let (built, error) = host_paging(rest, descriptors, guards, nx_enabled);
            &&& error is None
            &&& same_outside(
                vm_memory(before, vm),
                after,
                rest.next as int,
                built.arena.next as int,
            )
            &&& walk(after, built.tree.tables[(4, 0)], address) == built.tree.translate(address)
        }),
    ensures
        ({
            let (guarded, stacks) = blocks(arena, ist_sizes());
            let (rest, pages) = blocks(guarded, block_sizes());
            let vm = named(pages->0);
            let guards = all_guards(stack_guard, stacks->0, vm.vmexit_stack);
            let (built, _) = host_paging(rest, descriptors, guards, nx_enabled);
            &&& is_guard(guards, page_number(address)) ==> walk(
                after,
                built.tree.tables[(4, 0)],
                address,
            ) is None
            &&& ept_walk(after, vm.ept_pml4, guest) == match guest_page(vm, page_number(guest)) {
                Some((page, rights)) => Some(
                    EptTranslation { host: page + guest as int % 4096, rights },
                ),
                None => None,
            }
        }),
{
    let (guarded, stacks) = blocks(arena, ist_sizes());
    let (rest, pages) = blocks(guarded, block_sizes());
    let vm = named(pages->0);
    let guards = all_guards(stack_guard, stacks->0, vm.vmexit_stack);
    let (built, _) = host_paging(rest, descriptors, guards, nx_enabled);
    lemma_blocks(arena, ist_sizes());
    lemma_blocks(guarded, block_sizes());
    if is_guard(guards, page_number(address)) {
        law_guard_pages_are_not_mapped(rest, descriptors, guards, nx_enabled, address);
    }
    assert(is_vm(guarded, before, pages->0));
    law_guest_reaches_its_pages_only(guarded, before, pages->0, guest);
    law_later_work_leaves_the_guest_alone(
        guarded,
        before,
        pages->0,
        after,
        rest.next as int,
        built.arena.next as int,
        guest,
    );
}

} // verus!
