//! The core: the order of its stages, and what is done between them.

use crate::arch::x86_64::descriptors::{ist_sizes, DescriptorState, DescriptorTables};
use crate::arch::x86_64::entry::PHYSICAL_LIMIT;
use crate::arch::x86_64::instructions::{answers, Procedure, Reply, Request, Step};
use crate::arch::x86_64::paging::{
    enable_nx, EnableNx, EnableNxStep, HostPageTables, CPUID_EXTENDED_MAX,
};
use crate::arch::x86_64::vm::{block_sizes, VmResources};
use crate::boot_alloc::{arena_error, lemma_blocks, ArenaView, BootArena};
use crate::guest_start::{
    guest_start, guest_start_step_view, start_guest, GuestStart, GuestStartStep,
    GuestStartViewStep,
};
use crate::memory::MemoryMap;
use crate::phys::{covers, words_at, PhysMemory};
use crate::serial::LogRecord;
use crate::stages::{
    all_guards, host_mapped, make_vm, map_host, set_up_tables, stock_taken, tables_set_up,
    take_over, take_over_records, take_stock, vm_made, Stage, Stock, Vectors,
};
use crate::uefi::Handoff;
use vstd::prelude::*;

verus! {

/// What the core finds: the hand-over, and the memory that its map points to.
#[derive(Clone, Copy)]
pub struct Entry<'a> {
    pub handoff: Handoff,
    pub map: &'a [u8],
}

impl Entry<'_> {
    /// The map is as long as the hand-over says, if it is there, and an arena
    /// that can be used lies in physical memory.
    pub open spec fn wf(self) -> bool {
        let base = self.handoff.bootstrap_arena_base;
        let size = self.handoff.bootstrap_arena_size;
        &&& self.handoff.memory_map != 0 ==> self.map@.len() == self.handoff.memory_map_size
        &&& arena_error(base, size) is None ==> base + size <= PHYSICAL_LIMIT
    }
}

/// One thing for the core's surroundings to do.
#[derive(Debug)]
pub enum CoreRequest {
    /// Log these messages.
    Report { records: Vec<LogRecord> },
    /// Make the processor use these tables.
    LoadTables { tables: DescriptorTables },
    /// Read the arena's memory.
    ReadArena { base: u64, bytes: u64 },
    /// Write the arena's memory.
    StoreArena { base: u64, words: Vec<u64> },
    /// Something for the processor.
    Processor { request: Request },
}

/// The answer to a request.
#[derive(Debug)]
pub enum CoreReply {
    Done,
    Words { words: Vec<u64> },
    Processor { reply: Reply },
}

/// The reply is of the kind that the request calls for.
pub open spec fn core_answers(reply: CoreReply, request: CoreRequest) -> bool {
    match request {
        CoreRequest::ReadArena { bytes, .. } => reply matches CoreReply::Words { words } && 8
            * words@.len() == bytes,
        CoreRequest::Processor { request } => reply matches CoreReply::Processor { reply }
            && answers(reply, request),
        _ => reply is Done,
    }
}

/// How far the core has come: what has been asked for, and what it has so far.
pub enum Core<'a> {
    TakenOver { entry: Entry<'a>, vectors: Vectors, arena: BootArena },
    Loaded { entry: Entry<'a>, arena: BootArena, state: DescriptorState },
    Stocked { entry: Entry<'a>, arena: BootArena, state: DescriptorState, map: MemoryMap<'a> },
    Reading { entry: Entry<'a>, arena: BootArena, state: DescriptorState, map: MemoryMap<'a> },
    Switching { work: Work<'a>, switch: EnableNx },
    Storing { records: Vec<LogRecord>, built: Option<Host> },
    Mapped { host: Host },
    Starting { start: GuestStart },
    Stopped,
}

/// What the host's page tables are made of.
pub struct Work<'a> {
    pub entry: Entry<'a>,
    pub arena: BootArena,
    pub state: DescriptorState,
    pub map: MemoryMap<'a>,
    pub memory: PhysMemory,
    pub resources: VmResources,
}

/// What the last stage works on: the host's page tables, the virtual machine, and
/// the page for VMX operation.
#[derive(Debug)]
pub struct Host {
    pub tables: HostPageTables,
    pub resources: VmResources,
    pub region: u64,
}

/// What the core does next. When it has finished, the processor halts.
pub enum CoreStep<'a> {
    Ask { state: Core<'a>, request: CoreRequest },
    Finished,
}

/// The arena is what is left of the one that was handed over.
pub open spec fn is_arena_of(entry: Entry<'_>, arena: BootArena) -> bool {
    let base = entry.handoff.bootstrap_arena_base;
    let size = entry.handoff.bootstrap_arena_size;
    &&& entry.wf()
    &&& arena_error(base, size) is None
    &&& base <= arena@.next <= arena@.end == base + size
}

impl Work<'_> {
    /// Memory holds the arena.
    pub open spec fn wf(self) -> bool {
        &&& is_arena_of(self.entry, self.arena)
        &&& self.map.wf()
        &&& self.memory.wf()
        &&& covers(self.memory@, self.arena@.next as int, self.arena@.end as int)
    }
}

impl Core<'_> {
    /// What the core has is fit for the next stage.
    pub open spec fn wf(self) -> bool {
        match self {
            Core::TakenOver { entry, arena, .. } => is_arena_of(entry, arena),
            Core::Loaded { entry, arena, .. } => is_arena_of(entry, arena),
            Core::Stocked { entry, arena, map, .. } => is_arena_of(entry, arena) && map.wf(),
            Core::Reading { entry, arena, map, .. } => is_arena_of(entry, arena) && map.wf(),
            Core::Switching { work, .. } => work.wf(),
            Core::Starting { start } => start.wf(),
            _ => true,
        }
    }

    /// The reply is of the kind that the state waits for.
    pub open spec fn expects(self, reply: CoreReply) -> bool {
        match self {
            Core::Reading { entry, .. } => reply matches CoreReply::Words { words } && 8
                * words@.len() == entry.handoff.bootstrap_arena_size,
            Core::Switching { switch, .. } => reply matches CoreReply::Processor { reply }
                && switch.expects(reply),
            Core::Starting { start } => reply matches CoreReply::Processor { reply }
                && start@.expects(reply),
            _ => reply is Done,
        }
    }
}

/// The core logs these messages, and then halts.
pub open spec fn stops(step: CoreStep<'_>, records: Seq<LogRecord>) -> bool {
    step matches CoreStep::Ask { state, request } && state is Stopped && (request matches
        CoreRequest::Report { records: reported } && reported@ =~= records)
}

/// The core logs these messages, and goes on.
pub open spec fn reports(step: CoreStep<'_>, records: Seq<LogRecord>) -> bool {
    step matches CoreStep::Ask { request, .. } && (request matches CoreRequest::Report {
        records: reported,
    } && reported@ =~= records)
}

/// The state that a step goes on in.
pub open spec fn state_of<'a>(step: CoreStep<'a>) -> Core<'a> {
    step->state
}

/// After the first stage: its messages are logged, and the core goes on with the
/// arena if there is one.
pub open spec fn begins(entry: Option<Entry<'_>>, vectors: Vectors, step: CoreStep<'_>) -> bool {
    let handoff = match entry {
        Some(entry) => Some(entry.handoff),
        None => None,
    };
    match entry {
        Some(found) if arena_error(
            found.handoff.bootstrap_arena_base,
            found.handoff.bootstrap_arena_size,
        ) is None => {
            &&& reports(step, take_over_records(handoff))
            &&& state_of(step) matches Core::TakenOver { entry: kept, vectors: given, arena }
            &&& kept == found
            &&& given == vectors
            &&& arena@ == ArenaView {
                next: found.handoff.bootstrap_arena_base as nat,
                end: (found.handoff.bootstrap_arena_base
                    + found.handoff.bootstrap_arena_size) as nat,
            }
        },
        _ => stops(step, take_over_records(handoff)),
    }
}

/// After the second stage: its tables are loaded.
pub open spec fn loads_tables(
    entry: Entry<'_>,
    vectors: Vectors,
    arena: ArenaView,
    step: CoreStep<'_>,
) -> bool {
    exists|stage: Stage<DescriptorTables>, left: ArenaView| #[trigger]
        tables_set_up(arena, left, entry.handoff, vectors, stage) && match stage.value {
            Some(tables) => {
                &&& step matches CoreStep::Ask { state, request }
                &&& request == CoreRequest::LoadTables { tables }
                &&& state matches Core::Loaded { entry: kept, arena: rest, state: kept_state }
                &&& kept == entry
                &&& rest@ == left
                &&& kept_state == tables.state
            },
            None => stops(step, stage.records@),
        }
}

/// After the third stage: its messages are logged, and the core keeps the map.
pub open spec fn reports_stock(
    entry: Entry<'_>,
    arena: BootArena,
    state: DescriptorState,
    step: CoreStep<'_>,
) -> bool {
    exists|stage: Stage<Stock<'_>>| #[trigger]
        stock_taken(entry.handoff, entry.map@, arena@, stage) && match stage.value {
            Some(stock) => {
                &&& reports(step, stage.records@)
                &&& state_of(step) == Core::Stocked { entry, arena, state, map: stock.map }
            },
            None => stops(step, stage.records@),
        }
}

/// The core writes the arena back as `memory`. Then it logs these messages, and
/// goes on to the last stage if there is a host for it.
pub open spec fn stores(
    step: CoreStep<'_>,
    memory: Map<int, u64>,
    records: Seq<LogRecord>,
    host: Option<Host>,
) -> bool {
    &&& step matches CoreStep::Ask { state, request }
    &&& request matches CoreRequest::StoreArena { base, words }
    &&& memory == words_at(base as int, words@)
    &&& state matches Core::Storing { records: kept, built: given }
    &&& kept@ =~= records
    &&& given == host
}

/// The step that begins to switch no-execute pages on.
pub open spec fn switch_start() -> EnableNxStep {
    Step::Ask {
        state: EnableNx::Maximum,
        request: Request::Cpuid { leaf: CPUID_EXTENDED_MAX, subleaf: 0 },
    }
}

/// The work is on these.
pub open spec fn is_work(
    work: Work<'_>,
    entry: Entry<'_>,
    arena: ArenaView,
    state: DescriptorState,
    map: MemoryMap<'_>,
    memory: Map<int, u64>,
    resources: VmResources,
) -> bool {
    &&& work.entry == entry
    &&& work.arena@ == arena
    &&& work.state == state
    &&& work.map == map
    &&& work.memory@ == memory
    &&& work.resources == resources
}

/// After the fourth stage: the core goes on to switch no-execute pages on. Where
/// the stage fails, what it wrote is stored before the failure is logged.
pub open spec fn makes_vm(
    entry: Entry<'_>,
    arena: ArenaView,
    state: DescriptorState,
    map: MemoryMap<'_>,
    words: Seq<u64>,
    step: CoreStep<'_>,
) -> bool {
    let found = words_at(entry.handoff.bootstrap_arena_base as int, words);
    exists|stage: Stage<VmResources>, rest: ArenaView, left: Map<int, u64>| #[trigger]
        vm_made(arena, rest, found, left, stage) && match stage.value {
            Some(resources) => exists|work: Work<'_>| #[trigger]
                is_work(work, entry, rest, state, map, left, resources) && switches(
                    work,
                    switch_start(),
                    step,
                ),
            None => stores(step, left, stage.records@, None),
        }
}

/// While no-execute pages are switched on, and after: then comes the fifth
/// stage, what it wrote is stored, and the core keeps what it built.
pub open spec fn switches(work: Work<'_>, switched: EnableNxStep, step: CoreStep<'_>) -> bool {
    match switched {
        Step::Ask { state, request } => {
            &&& step matches CoreStep::Ask { state: next, request: asked }
            &&& asked == CoreRequest::Processor { request }
            &&& next == Core::Switching { work, switch: state }
        },
        Step::Finished { result } => {
            let guards = all_guards(
                work.entry.handoff.stack_guard,
                work.state.ist_guard_pages@,
                work.resources@.vmexit_guard,
            );
            exists|stage: Stage<HostPageTables>, rest: ArenaView, left: Map<int, u64>| #[trigger]
                host_mapped(
                    work.map@,
                    guards,
                    result,
                    work.arena@,
                    rest,
                    work.memory@,
                    left,
                    stage,
                ) && stores(
                    step,
                    left,
                    stage.records@,
                    match stage.value {
                        Some(tables) => Some(
                            Host {
                                tables,
                                resources: work.resources,
                                region: work.entry.handoff.vmxon_region,
                            },
                        ),
                        None => None,
                    },
                )
        },
    }
}

/// A step of the last stage, as a step of the core.
pub open spec fn starts(started: GuestStartViewStep, step: CoreStep<'_>) -> bool {
    match started {
        Step::Ask { state, request } => {
            &&& step matches CoreStep::Ask { state: next, request: asked }
            &&& asked == CoreRequest::Processor { request }
            &&& next matches Core::Starting { start }
            &&& start@ == state
        },
        Step::Finished { .. } => step is Finished,
    }
}

impl<'a> Core<'a> {
    /// What comes after the reply to the state's request.
    pub open spec fn leads_to(self, reply: CoreReply, step: CoreStep<'a>) -> bool {
        match self {
            Core::TakenOver { entry, vectors, arena } => loads_tables(
                entry,
                vectors,
                arena@,
                step,
            ),
            Core::Loaded { entry, arena, state } => reports_stock(entry, arena, state, step),
            Core::Stocked { entry, arena, state, map } => step == CoreStep::Ask {
                state: Core::Reading { entry, arena, state, map },
                request: CoreRequest::ReadArena {
                    base: entry.handoff.bootstrap_arena_base,
                    bytes: entry.handoff.bootstrap_arena_size,
                },
            },
            Core::Reading { entry, arena, state, map } => makes_vm(
                entry,
                arena@,
                state,
                map,
                reply->words@,
                step,
            ),
            Core::Switching { work, switch } => switches(work, switch.advance(reply->reply), step),
            Core::Storing { records, built } => match built {
                Some(host) => reports(step, records@) && state_of(step) == (Core::Mapped { host }),
                None => stops(step, records@),
            },
            Core::Mapped { host } => starts(
                guest_start(host.tables.top(), host.resources@, host.region),
                step,
            ),
            Core::Starting { start } => starts(start@.advance(reply->reply), step),
            Core::Stopped => step is Finished,
        }
    }

    fn stop(records: Vec<LogRecord>) -> (step: CoreStep<'a>)
        ensures
            stops(step, records@),
    {
        CoreStep::Ask { state: Core::Stopped, request: CoreRequest::Report { records } }
    }

    fn store(memory: PhysMemory, records: Vec<LogRecord>, host: Option<Host>) -> (step: CoreStep<
        'a,
    >)
        requires
            memory.wf(),
        ensures
            stores(step, memory@, records@, host),
    {
        let (base, words) = memory.into_parts();
        CoreStep::Ask {
            state: Core::Storing { records, built: host },
            request: CoreRequest::StoreArena { base, words },
        }
    }

    fn load_tables(entry: Entry<'a>, vectors: Vectors, arena: BootArena) -> (step: CoreStep<'a>)
        requires
            is_arena_of(entry, arena),
        ensures
            loads_tables(entry, vectors, arena@, step),
            step matches CoreStep::Ask { state, .. } && state.wf(),
    {
        let mut rest: BootArena = arena;
        proof {
            lemma_blocks(arena@, ist_sizes());
        }
        let stage: Stage<DescriptorTables> = set_up_tables(&mut rest, &entry.handoff, &vectors);
        assert(tables_set_up(arena@, rest@, entry.handoff, vectors, stage));
        match stage.value {
            Some(tables) => {
                let state: DescriptorState = tables.state;
                CoreStep::Ask {
                    state: Core::Loaded { entry, arena: rest, state },
                    request: CoreRequest::LoadTables { tables },
                }
            },
            None => Core::stop(stage.records),
        }
    }

    fn report_stock(entry: Entry<'a>, arena: BootArena, state: DescriptorState) -> (step: CoreStep<
        'a,
    >)
        requires
            is_arena_of(entry, arena),
        ensures
            reports_stock(entry, arena, state, step),
            step matches CoreStep::Ask { state, .. } && state.wf(),
    {
        let stage: Stage<Stock<'a>> = take_stock(&entry.handoff, entry.map, &arena);
        assert(stock_taken(entry.handoff, entry.map@, arena@, stage));
        match stage.value {
            Some(stock) => CoreStep::Ask {
                state: Core::Stocked { entry, arena, state, map: stock.map },
                request: CoreRequest::Report { records: stage.records },
            },
            None => Core::stop(stage.records),
        }
    }

    fn make(
        entry: Entry<'a>,
        arena: BootArena,
        state: DescriptorState,
        map: MemoryMap<'a>,
        words: Vec<u64>,
    ) -> (step: CoreStep<'a>)
        requires
            is_arena_of(entry, arena),
            map.wf(),
            8 * words@.len() == entry.handoff.bootstrap_arena_size,
        ensures
            makes_vm(entry, arena@, state, map, words@, step),
            step matches CoreStep::Ask { state, .. } ==> state.wf(),
    {
        let mut rest: BootArena = arena;
        let ghost found = words_at(entry.handoff.bootstrap_arena_base as int, words@);
        proof {
            lemma_blocks(arena@, block_sizes());
            lemma_words_cover(
                entry.handoff.bootstrap_arena_base as int,
                words@,
                arena@.next as int,
                arena@.end as int,
            );
        }
        let mut memory: PhysMemory = match PhysMemory::new(
            entry.handoff.bootstrap_arena_base,
            words,
        ) {
            Some(memory) => memory,
            None => return CoreStep::Finished,
        };
        let stage: Stage<VmResources> = make_vm(&mut rest, &mut memory);
        assert(vm_made(arena@, rest@, found, memory@, stage));
        match stage.value {
            Some(resources) => {
                proof {
                    lemma_vm_memory_covers(found, arena@, rest@, memory@, stage);
                }
                let work = Work { entry, arena: rest, state, map, memory, resources };
                assert(is_work(work, entry, rest@, state, map, memory@, resources));
                Core::switch(work, enable_nx())
            },
            None => Core::store(memory, stage.records, None),
        }
    }

    fn switch(work: Work<'a>, switched: EnableNxStep) -> (step: CoreStep<'a>)
        requires
            work.wf(),
        ensures
            switches(work, switched, step),
            step matches CoreStep::Ask { state, .. } && state.wf(),
    {
        match switched {
            Step::Ask { state, request } => CoreStep::Ask {
                state: Core::Switching { work, switch: state },
                request: CoreRequest::Processor { request },
            },
            Step::Finished { result } => {
                let ghost before = work;
                let Work { entry, arena, state, map, memory, resources } = work;
                let mut rest: BootArena = arena;
                let mut memory: PhysMemory = memory;
                let stage: Stage<HostPageTables> = map_host(
                    map,
                    &mut rest,
                    &mut memory,
                    &entry.handoff,
                    &state,
                    &resources,
                    result,
                );
                assert(host_mapped(
                    before.map@,
                    all_guards(
                        before.entry.handoff.stack_guard,
                        before.state.ist_guard_pages@,
                        before.resources@.vmexit_guard,
                    ),
                    result,
                    before.arena@,
                    rest@,
                    before.memory@,
                    memory@,
                    stage,
                ));
                let host: Option<Host> = match stage.value {
                    Some(tables) => Some(
                        Host { tables, resources, region: entry.handoff.vmxon_region },
                    ),
                    None => None,
                };
                Core::store(memory, stage.records, host)
            },
        }
    }

    fn start(started: GuestStartStep) -> (step: CoreStep<'a>)
        requires
            started matches Step::Ask { state, .. } ==> state.wf(),
        ensures
            starts(guest_start_step_view(started), step),
            step matches CoreStep::Ask { state, .. } ==> state.wf(),
    {
        match started {
            Step::Ask { state, request } => CoreStep::Ask {
                state: Core::Starting { start: state },
                request: CoreRequest::Processor { request },
            },
            Step::Finished { .. } => CoreStep::Finished,
        }
    }

    /// Goes on with the reply to what was asked for.
    pub fn next(self, reply: CoreReply) -> (step: CoreStep<'a>)
        requires
            self.wf(),
            self.expects(reply),
        ensures
            self.leads_to(reply, step),
            step matches CoreStep::Ask { state, request } ==> state.wf() && forall|
                answer: CoreReply,
            |
                core_answers(answer, request) ==> #[trigger] state.expects(answer),
    {
        match self {
            Core::TakenOver { entry, vectors, arena } => Core::load_tables(entry, vectors, arena),
            Core::Loaded { entry, arena, state } => Core::report_stock(entry, arena, state),
            Core::Stocked { entry, arena, state, map } => CoreStep::Ask {
                state: Core::Reading { entry, arena, state, map },
                request: CoreRequest::ReadArena {
                    base: entry.handoff.bootstrap_arena_base,
                    bytes: entry.handoff.bootstrap_arena_size,
                },
            },
            Core::Reading { entry, arena, state, map } => match reply {
                CoreReply::Words { words } => Core::make(entry, arena, state, map, words),
                _ => CoreStep::Finished,
            },
            Core::Switching { work, switch } => match reply {
                CoreReply::Processor { reply } => Core::switch(work, switch.next(reply)),
                _ => CoreStep::Finished,
            },
            Core::Storing { records, built } => match built {
                Some(host) => CoreStep::Ask {
                    state: Core::Mapped { host },
                    request: CoreRequest::Report { records },
                },
                None => Core::stop(records),
            },
            Core::Mapped { host } => Core::start(
                start_guest(host.tables, host.resources, host.region),
            ),
            Core::Starting { start } => match reply {
                CoreReply::Processor { reply } => Core::start(start.next(reply)),
                _ => CoreStep::Finished,
            },
            Core::Stopped => CoreStep::Finished,
        }
    }
}

/// Starts the core with what was handed over, if anything was.
pub fn hypervisor_main<'a>(entry: Option<Entry<'a>>, vectors: Vectors) -> (step: CoreStep<'a>)
    requires
        entry matches Some(entry) ==> entry.wf(),
    ensures
        begins(entry, vectors, step),
        step matches CoreStep::Ask { state, .. } && state.wf(),
{
    let handoff: Option<Handoff> = match entry {
        Some(entry) => Some(entry.handoff),
        None => None,
    };
    let stage: Stage<BootArena> = take_over(handoff);
    match (entry, stage.value) {
        (Some(entry), Some(arena)) => CoreStep::Ask {
            state: Core::TakenOver { entry, vectors, arena },
            request: CoreRequest::Report { records: stage.records },
        },
        _ => Core::stop(stage.records),
    }
}

/// Words from `base` on cover every part of them.
proof fn lemma_words_cover(base: int, words: Seq<u64>, low: int, high: int)
    requires
        base % 8 == 0,
        base <= low,
        high <= base + 8 * words.len(),
    ensures
        covers(words_at(base, words), low, high),
{
}

/// The virtual machine's memory has the words that memory had.
proof fn lemma_vm_memory_covers(
    found: Map<int, u64>,
    before: ArenaView,
    after: ArenaView,
    left: Map<int, u64>,
    stage: Stage<VmResources>,
)
    requires
        vm_made(before, after, found, left, stage),
        stage.value is Some,
        before.next <= after.next <= after.end == before.end,
        covers(found, before.next as int, before.end as int),
    ensures
        covers(left, after.next as int, after.end as int),
{
    assert forall|address: int|
        after.next <= address < after.end && address % 8 == 0 implies #[trigger] left.contains_key(
        address,
    ) by {
        assert(found.contains_key(address));
    }
}

} // verus!
