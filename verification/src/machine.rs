//! The machine that the core runs on, as a model, and what a whole run of the
//! core does to it.

use crate::arch::x86_64::descriptors::{
    are_host_tables, ist_sizes, DescriptorState, DescriptorTables,
};
use crate::arch::x86_64::instructions::{run, Procedure, Processor, Reply, Request, Step};
use crate::arch::x86_64::page_tree::host_paging;
use crate::arch::x86_64::paging::{
    has_nx, law_enable_nx, EnableNx, HostPageTables, EFER_NXE, IA32_EFER,
};
use crate::arch::x86_64::vm::{block_sizes, named, resources, VmResources, VmResourcesView};
use crate::boot_alloc::{arena_error, blocks, ArenaView, BootArena};
use crate::guest_start::{
    guest_start, guest_start_outcome, law_guest_start, GuestStartViewStep,
};
use crate::hypervisor::{
    begins, is_work, loads_tables, makes_vm, reports, reports_stock, starts, state_of, stops,
    stores, switch_start, switches, Core, CoreReply, CoreRequest, CoreStep, Entry, Host, Work,
};
use crate::memory::{collect, descriptors_in, map_error, MemoryMap};
use crate::phys::{same_outside, words_at};
use crate::serial::LogRecord;
use crate::stages::{
    all_guards, host_mapped, host_records, memory_with_vm, stock_records, stock_taken,
    tables_failure_records, tables_set_up, take_over_records, vm_failure_records, vm_made, Stage,
    Stock, Vectors,
};
use crate::uefi::{EfiMemoryDescriptor, Handoff};
use vstd::prelude::*;

verus! {

/// The core's surroundings: memory by words, the processor, the descriptor tables
/// that it uses, and memory as it was when CR3 was last written.
pub ghost struct Machine {
    pub memory: Map<int, u64>,
    pub processor: Processor,
    pub tables: Option<DescriptorTables>,
    pub at_switch: Option<Map<int, u64>>,
}

/// The words that memory holds in the `size` bytes from `base` on.
pub open spec fn part(memory: Map<int, u64>, base: int, size: int) -> Map<int, u64> {
    Map::new(
        |address: int| base <= address < base + size && (address - base) % 8 == 0,
        |address: int| memory[address],
    )
}

impl Machine {
    /// The machine once these messages have been logged.
    pub open spec fn reported(self, records: Seq<LogRecord>) -> Machine {
        Machine {
            processor: Processor { console: self.processor.console + records, ..self.processor },
            ..self
        }
    }

    /// The machine once these words have been written to memory.
    pub open spec fn stored(self, words: Map<int, u64>) -> Machine {
        Machine { memory: self.memory.union_prefer_right(words), ..self }
    }

    /// The machine after a request to the processor, and the processor's reply.
    pub open spec fn perform(self, request: Request) -> (Machine, Reply) {
        let (processor, reply) = self.processor.perform(request);
        let at_switch = if request is WriteCr3 {
            Some(self.memory)
        } else {
            self.at_switch
        };
        (Machine { processor, at_switch, ..self }, reply)
    }

    /// The machine answers the request so, and is `after` then.
    pub open spec fn performs(
        self,
        request: CoreRequest,
        reply: CoreReply,
        after: Machine,
    ) -> bool {
        match request {
            CoreRequest::Report { records } => {
                &&& reply is Done
                &&& after == self.reported(records@)
            },
            CoreRequest::LoadTables { tables } => {
                &&& reply is Done
                &&& after == (Machine { tables: Some(tables), ..self })
            },
            CoreRequest::ReadArena { base, bytes } => {
                &&& reply matches CoreReply::Words { words }
                &&& 8 * words@.len() == bytes
                &&& words_at(base as int, words@) == part(self.memory, base as int, bytes as int)
                &&& after == self
            },
            CoreRequest::StoreArena { base, words } => {
                &&& reply is Done
                &&& after == self.stored(words_at(base as int, words@))
            },
            CoreRequest::Processor { request } => {
                let (machine, answer) = self.perform(request);
                &&& reply == CoreReply::Processor { reply: answer }
                &&& after == machine
            },
        }
    }
}

/// From this step on, whatever the machine answers and the core then does, the
/// core finishes after at most `fuel` requests, and `goal` holds of the machine.
pub open spec fn always_ends<'a>(
    step: CoreStep<'a>,
    machine: Machine,
    fuel: nat,
    goal: spec_fn(Machine) -> bool,
) -> bool
    decreases fuel,
{
    match step {
        CoreStep::Finished => goal(machine),
        CoreStep::Ask { state, request } => fuel > 0 && forall|
            reply: CoreReply,
            next: CoreStep<'a>,
            after: Machine,
        |
            #[trigger] machine.performs(request, reply, after) && #[trigger] state.leads_to(
                reply,
                next,
            ) ==> always_ends(next, after, (fuel - 1) as nat, goal),
    }
}

/// The core's last stage, on a machine that is ready for it, ends so.
pub open spec fn guest_stage_end(
    root: u64,
    resources: VmResourcesView,
    region: u64,
    ready: Machine,
) -> Machine {
    Machine {
        processor: guest_start_outcome(root, resources, region, ready.processor),
        at_switch: Some(ready.memory),
        ..ready
    }
}

/// The machine with no-execute pages switched on, if its processor has them.
pub open spec fn switched_on(machine: Machine) -> Machine {
    if has_nx(machine.processor) {
        let msrs = machine.processor.msrs;
        Machine {
            processor: Processor {
                msrs: msrs.insert(IA32_EFER, msrs[IA32_EFER] | EFER_NXE),
                ..machine.processor
            },
            ..machine
        }
    } else {
        machine
    }
}

/// From the fifth stage on: no-execute pages are switched on, the host's tables
/// are built next to the virtual machine, all of it is stored and the messages
/// are logged. Then the core stops, if the tables could not be built, or goes
/// through the last stage with the tables in memory.
pub open spec fn paging_stage_ends(
    handoff: Handoff,
    arena: ArenaView,
    ist_guards: Seq<u64>,
    descriptors: Seq<EfiMemoryDescriptor>,
    vm: VmResourcesView,
    memory: Map<int, u64>,
    found: Machine,
    after: Machine,
) -> bool {
    let nx_enabled = has_nx(found.processor);
    let guards = all_guards(handoff.stack_guard, ist_guards, vm.vmexit_guard);
    let (built, error) = host_paging(arena, descriptors, guards, nx_enabled);
    exists|left: Map<int, u64>|
        {
            let ready = switched_on(found).stored(left).reported(
                host_records(built, error, nx_enabled),
            );
            &&& #[trigger] same_outside(
                memory,
                left,
                arena.next as int,
                built.arena.next as int,
            )
            &&& built.tree.is_in(left)
            &&& after == match error {
                Some(_) => ready,
                None => guest_stage_end(
                    built.tree.tables[(4, 0)],
                    vm,
                    handoff.vmxon_region,
                    ready,
                ),
            }
        }
}

/// From the fourth stage on: the virtual machine is put into the arena. Without
/// room for it what was written is stored, the failure is logged, and the core
/// stops.
pub open spec fn vm_stage_ends(
    handoff: Handoff,
    arena: ArenaView,
    ist_guards: Seq<u64>,
    descriptors: Seq<EfiMemoryDescriptor>,
    found: Machine,
    after: Machine,
) -> bool {
    let held = part(
        found.memory,
        handoff.bootstrap_arena_base as int,
        handoff.bootstrap_arena_size as int,
    );
    let left = memory_with_vm(arena, held);
    let (rest, pages) = blocks(arena, block_sizes());
    match pages {
        Some(pages) => paging_stage_ends(
            handoff,
            rest,
            ist_guards,
            descriptors,
            resources(named(pages)),
            left,
            found,
            after,
        ),
        None => after == found.stored(left).reported(vm_failure_records()),
    }
}

/// From the third stage on: the messages about the memory map are logged. Without
/// a map and a ledger of free memory the core stops.
pub open spec fn stock_stage_ends(
    entry: Entry<'_>,
    arena: ArenaView,
    ist_guards: Seq<u64>,
    found: Machine,
    after: Machine,
) -> bool {
    let handoff = entry.handoff;
    let descriptors = descriptors_in(entry.map@, handoff.descriptor_size as nat);
    let reported = found.reported(stock_records(handoff, entry.map@, arena));
    if map_error(handoff) is None && collect(descriptors) is Ok {
        vm_stage_ends(handoff, arena, ist_guards, descriptors, reported, after)
    } else {
        after == reported
    }
}

/// From the second stage on: the processor uses the host's descriptor tables.
/// Without room for the interrupt stacks the failure is logged, and the core stops.
pub open spec fn tables_stage_ends(
    entry: Entry<'_>,
    vectors: Vectors,
    arena: ArenaView,
    found: Machine,
    after: Machine,
) -> bool {
    let (rest, guards) = blocks(arena, ist_sizes());
    match guards {
        Some(guards) => {
            &&& after.tables matches Some(tables)
            &&& are_host_tables(
                tables,
                guards,
                entry.handoff.stack_top,
                vectors.tss_base,
                vectors.stubs@,
                vectors.unhandled,
            )
            &&& stock_stage_ends(
                entry,
                rest,
                guards,
                Machine { tables: after.tables, ..found },
                after,
            )
        },
        None => after == found.reported(tables_failure_records()),
    }
}

/// What a run of the core does to a machine: it is `before` when the core is
/// entered, and `after` when the core is left with nothing to do but to halt.
pub open spec fn core_ends(
    entry: Option<Entry<'_>>,
    vectors: Vectors,
    before: Machine,
    after: Machine,
) -> bool {
    match entry {
        Some(entry) => {
            let base = entry.handoff.bootstrap_arena_base;
            let size = entry.handoff.bootstrap_arena_size;
            let reported = before.reported(take_over_records(Some(entry.handoff)));
            if arena_error(base, size) is None {
                let arena = ArenaView { next: base as nat, end: (base + size) as nat };
                tables_stage_ends(entry, vectors, arena, reported, after)
            } else {
                after == reported
            }
        },
        None => after == before.reported(take_over_records(None)),
    }
}

/// CR3 is written in the first `fuel` requests.
spec fn writes_cr3(step: GuestStartViewStep, processor: Processor, fuel: nat) -> bool
    decreases fuel,
{
    match step {
        Step::Finished { .. } => false,
        Step::Ask { state, request } => fuel > 0 && (request is WriteCr3 || {
            let (next, reply) = processor.perform(request);
            writes_cr3(state.advance(reply), next, (fuel - 1) as nat)
        }),
    }
}

/// The last stage runs on the machine as it does on the machine's processor.
proof fn lemma_starting<'a>(
    started: GuestStartViewStep,
    step: CoreStep<'a>,
    machine: Machine,
    fuel: nat,
    goal: spec_fn(Machine) -> bool,
)
    requires
        starts(started, step),
        run(started, machine.processor, fuel).1 is Some,
        goal(
            Machine {
                processor: run(started, machine.processor, fuel).0,
                at_switch: if writes_cr3(started, machine.processor, fuel) {
                    Some(machine.memory)
                } else {
                    machine.at_switch
                },
                ..machine
            },
        ),
    ensures
        always_ends(step, machine, fuel, goal),
    decreases fuel,
{
    if let Step::Ask { state, request } = started {
        assert forall|reply: CoreReply, next: CoreStep<'a>, after: Machine|
            #[trigger] machine.performs(step->request, reply, after)
                && #[trigger] step->state.leads_to(reply, next) implies always_ends(
            next,
            after,
            (fuel - 1) as nat,
            goal,
        ) by {
            let (machine_after, answer) = machine.perform(request);
            assert(after == machine_after);
            lemma_starting(state.advance(answer), next, after, (fuel - 1) as nat, goal);
        }
    }
}

/// The last stage.
proof fn lemma_guest_stage<'a>(
    host: Host,
    step: CoreStep<'a>,
    machine: Machine,
    goal: spec_fn(Machine) -> bool,
)
    requires
        starts(guest_start(host.tables.top(), host.resources@, host.region), step),
        goal(guest_stage_end(host.tables.top(), host.resources@, host.region, machine)),
    ensures
        always_ends(step, machine, 143, goal),
{
    let started = guest_start(host.tables.top(), host.resources@, host.region);
    law_guest_start(host.tables.top(), host.resources@, host.region, machine.processor);
    assert(writes_cr3(started, machine.processor, 143)) by {
        reveal_with_fuel(writes_cr3, 4);
    }
    lemma_starting(started, step, machine, 143, goal);
}

/// A run that ends in time ends in more time.
proof fn lemma_more_time<'a>(
    step: CoreStep<'a>,
    machine: Machine,
    fuel: nat,
    more: nat,
    goal: spec_fn(Machine) -> bool,
)
    requires
        fuel <= more,
        always_ends(step, machine, fuel, goal),
    ensures
        always_ends(step, machine, more, goal),
    decreases fuel,
{
    if let CoreStep::Ask { state, request } = step {
        assert forall|reply: CoreReply, next: CoreStep<'a>, after: Machine|
            #[trigger] machine.performs(request, reply, after) && #[trigger] state.leads_to(
                reply,
                next,
            ) implies always_ends(next, after, (more - 1) as nat, goal) by {
            lemma_more_time(next, after, (fuel - 1) as nat, (more - 1) as nat, goal);
        }
    }
}

/// The core logs its last messages.
proof fn lemma_stopping<'a>(
    step: CoreStep<'a>,
    records: Seq<LogRecord>,
    machine: Machine,
    fuel: nat,
    goal: spec_fn(Machine) -> bool,
)
    requires
        stops(step, records),
        goal(machine.reported(records)),
        fuel > 0,
    ensures
        always_ends(step, machine, fuel, goal),
{
    let request = step->request;
    assert(request->records@ == records);
    assert forall|reply: CoreReply, next: CoreStep<'a>, after: Machine|
        #[trigger] machine.performs(request, reply, after) && #[trigger] step->state.leads_to(
            reply,
            next,
        ) implies always_ends(next, after, (fuel - 1) as nat, goal) by {
        assert(after == machine.reported(records));
    }
}

/// Where a run ends that stores the arena, logs messages, and goes on to the last
/// stage if there is a host for it.
spec fn storing_end(
    memory: Map<int, u64>,
    records: Seq<LogRecord>,
    host: Option<Host>,
    machine: Machine,
) -> Machine {
    let ready = machine.stored(memory).reported(records);
    match host {
        Some(host) => guest_stage_end(host.tables.top(), host.resources@, host.region, ready),
        None => ready,
    }
}

/// The arena is stored, and the messages are logged.
proof fn lemma_storing<'a>(
    step: CoreStep<'a>,
    memory: Map<int, u64>,
    records: Seq<LogRecord>,
    host: Option<Host>,
    machine: Machine,
    goal: spec_fn(Machine) -> bool,
)
    requires
        stores(step, memory, records, host),
        goal(storing_end(memory, records, host, machine)),
    ensures
        always_ends(step, machine, 145, goal),
{
    let stored = machine.stored(memory);
    assert forall|reply: CoreReply, next: CoreStep<'a>, after: Machine|
        #[trigger] machine.performs(step->request, reply, after)
            && #[trigger] step->state.leads_to(reply, next) implies always_ends(
        next,
        after,
        144,
        goal,
    ) by {
        assert(after == stored);
        match host {
            None => lemma_stopping(next, records, stored, 144, goal),
            Some(host) => {
                let ready = stored.reported(records);
                assert(reports(next, records));
                assert(next->request->records@ == records);
                assert forall|reply: CoreReply, last: CoreStep<'a>, after: Machine|
                    #[trigger] stored.performs(next->request, reply, after)
                        && #[trigger] next->state.leads_to(reply, last) implies always_ends(
                    last,
                    after,
                    143,
                    goal,
                ) by {
                    assert(after == ready);
                    lemma_guest_stage(host, last, ready, goal);
                }
            },
        }
    }
}

/// No-execute pages are switched on, and the fifth stage follows. `found` is the
/// machine before the switch.
proof fn lemma_switching<'a>(
    work: Work<'a>,
    switched: Step<EnableNx, bool>,
    step: CoreStep<'a>,
    found: Machine,
    machine: Machine,
    fuel: nat,
    goal: spec_fn(Machine) -> bool,
)
    requires
        switches(work, switched, step),
        switched matches Step::Ask { request, .. } ==> !(request is WriteCr3),
        machine == (Machine { processor: machine.processor, ..found }),
        run(switched, machine.processor, fuel) == (
            switched_on(found).processor,
            Some(has_nx(found.processor)),
        ),
        forall|end: Machine|
            paging_stage_ends(
                work.entry.handoff,
                work.arena@,
                work.state.ist_guard_pages@,
                work.map@,
                work.resources@,
                work.memory@,
                found,
                end,
            ) ==> #[trigger] goal(end),
    ensures
        always_ends(step, machine, fuel + 145, goal),
    decreases fuel,
{
    match switched {
        Step::Ask { state, request } => {
            assert forall|reply: CoreReply, next: CoreStep<'a>, after: Machine|
                #[trigger] machine.performs(step->request, reply, after)
                    && #[trigger] step->state.leads_to(reply, next) implies always_ends(
                next,
                after,
                (fuel + 145 - 1) as nat,
                goal,
            ) by {
                let (processor, answer) = machine.processor.perform(request);
                assert(after == (Machine { processor, ..machine }));
                lemma_switching(
                    work,
                    state.advance(answer),
                    next,
                    found,
                    after,
                    (fuel - 1) as nat,
                    goal,
                );
            }
        },
        Step::Finished { result } => {
            let guards = all_guards(
                work.entry.handoff.stack_guard,
                work.state.ist_guard_pages@,
                work.resources@.vmexit_guard,
            );
            let region = work.entry.handoff.vmxon_region;
            let (stage, rest, left) = choose|
                stage: Stage<HostPageTables>,
                rest: ArenaView,
                left: Map<int, u64>,
            |
                #[trigger] host_mapped(
                    work.map@,
                    guards,
                    result,
                    work.arena@,
                    rest,
                    work.memory@,
                    left,
                    stage,
                ) && stores(
                    step,
                    left,
                    stage.records@,
                    match stage.value {
                        Some(tables) => Some(
                            Host { tables, resources: work.resources, region },
                        ),
                        None => None,
                    },
                );
            let host = match stage.value {
                Some(tables) => Some(Host { tables, resources: work.resources, region }),
                None => None,
            };
            assert(machine == switched_on(found));
            let (built, error) = host_paging(work.arena@, work.map@, guards, result);
            assert(stage.records@ == host_records(built, error, result));
            let end = storing_end(left, stage.records@, host, machine);
            assert(same_outside(
                work.memory@,
                left,
                work.arena@.next as int,
                built.arena.next as int,
            ));
            assert(goal(end));
            lemma_storing(step, left, stage.records@, host, machine, goal);
            lemma_more_time(step, machine, 145, fuel + 145, goal);
        },
    }
}

/// The fourth stage, and what follows.
proof fn lemma_vm_stage<'a>(
    entry: Entry<'a>,
    arena: ArenaView,
    state: DescriptorState,
    map: MemoryMap<'a>,
    words: Seq<u64>,
    step: CoreStep<'a>,
    machine: Machine,
    goal: spec_fn(Machine) -> bool,
)
    requires
        makes_vm(entry, arena, state, map, words, step),
        words_at(entry.handoff.bootstrap_arena_base as int, words) == part(
            machine.memory,
            entry.handoff.bootstrap_arena_base as int,
            entry.handoff.bootstrap_arena_size as int,
        ),
        forall|end: Machine|
            vm_stage_ends(
                entry.handoff,
                arena,
                state.ist_guard_pages@,
                map@,
                machine,
                end,
            ) ==> #[trigger] goal(end),
    ensures
        always_ends(step, machine, 149, goal),
{
    let held = words_at(entry.handoff.bootstrap_arena_base as int, words);
    let (stage, rest, left) = choose|
        stage: Stage<VmResources>,
        rest: ArenaView,
        left: Map<int, u64>,
    |
        #[trigger] vm_made(arena, rest, held, left, stage) && match stage.value {
            Some(resources) => exists|work: Work<'_>| #[trigger]
                is_work(work, entry, rest, state, map, left, resources) && switches(
                    work,
                    switch_start(),
                    step,
                ),
            None => stores(step, left, stage.records@, None),
        };
    match stage.value {
        Some(resources) => {
            let work = choose|work: Work<'a>| #[trigger]
                is_work(work, entry, rest, state, map, left, resources) && switches(
                    work,
                    switch_start(),
                    step,
                );
            law_enable_nx(machine.processor);
            assert forall|end: Machine|
                paging_stage_ends(
                    work.entry.handoff,
                    work.arena@,
                    work.state.ist_guard_pages@,
                    work.map@,
                    work.resources@,
                    work.memory@,
                    machine,
                    end,
                ) implies #[trigger] goal(end) by {
                assert(vm_stage_ends(
                    entry.handoff,
                    arena,
                    state.ist_guard_pages@,
                    map@,
                    machine,
                    end,
                ));
            }
            lemma_switching(work, switch_start(), step, machine, machine, 4, goal);
        },
        None => {
            assert(stage.records@ == vm_failure_records());
            let end = storing_end(left, stage.records@, None, machine);
            assert(goal(end));
            lemma_storing(step, left, stage.records@, None, machine, goal);
            lemma_more_time(step, machine, 145, 149, goal);
        },
    }
}

/// The third stage, and what follows.
proof fn lemma_stock_stage<'a>(
    entry: Entry<'a>,
    arena: BootArena,
    state: DescriptorState,
    step: CoreStep<'a>,
    machine: Machine,
    goal: spec_fn(Machine) -> bool,
)
    requires
        reports_stock(entry, arena, state, step),
        forall|end: Machine|
            stock_stage_ends(
                entry,
                arena@,
                state.ist_guard_pages@,
                machine,
                end,
            ) ==> #[trigger] goal(end),
    ensures
        always_ends(step, machine, 151, goal),
{
    let handoff = entry.handoff;
    let records = stock_records(handoff, entry.map@, arena@);
    let reported = machine.reported(records);
    let stage = choose|stage: Stage<Stock<'_>>| #[trigger]
        stock_taken(handoff, entry.map@, arena@, stage) && match stage.value {
            Some(stock) => {
                &&& reports(step, stage.records@)
                &&& state_of(step) == Core::Stocked { entry, arena, state, map: stock.map }
            },
            None => stops(step, stage.records@),
        };
    assert(stage.records@ == records);
    match stage.value {
        None => {
            assert(goal(reported));
            lemma_stopping(step, records, machine, 151, goal);
        },
        Some(stock) => {
            assert(step->request->records@ == records);
            assert forall|reply: CoreReply, reading: CoreStep<'a>, after: Machine|
                #[trigger] machine.performs(step->request, reply, after)
                    && #[trigger] step->state.leads_to(reply, reading) implies always_ends(
                reading,
                after,
                150,
                goal,
            ) by {
                assert(after == reported);
                assert forall|reply: CoreReply, next: CoreStep<'a>, last: Machine|
                    #[trigger] after.performs(reading->request, reply, last)
                        && #[trigger] reading->state.leads_to(reply, next) implies always_ends(
                    next,
                    last,
                    149,
                    goal,
                ) by {
                    assert forall|end: Machine|
                        vm_stage_ends(
                            handoff,
                            arena@,
                            state.ist_guard_pages@,
                            stock.map@,
                            last,
                            end,
                        ) implies #[trigger] goal(end) by {
                        assert(stock_stage_ends(
                            entry,
                            arena@,
                            state.ist_guard_pages@,
                            machine,
                            end,
                        ));
                    }
                    lemma_vm_stage(
                        entry,
                        arena@,
                        state,
                        stock.map,
                        reply->words@,
                        next,
                        last,
                        goal,
                    );
                }
            }
        },
    }
}

/// The second stage, and what follows.
proof fn lemma_tables_stage<'a>(
    entry: Entry<'a>,
    vectors: Vectors,
    arena: ArenaView,
    step: CoreStep<'a>,
    machine: Machine,
    goal: spec_fn(Machine) -> bool,
)
    requires
        loads_tables(entry, vectors, arena, step),
        forall|end: Machine|
            tables_stage_ends(entry, vectors, arena, machine, end) ==> #[trigger] goal(end),
    ensures
        always_ends(step, machine, 152, goal),
{
    let (stage, left) = choose|stage: Stage<DescriptorTables>, left: ArenaView| #[trigger]
        tables_set_up(arena, left, entry.handoff, vectors, stage) && match stage.value {
            Some(tables) => {
                &&& step matches CoreStep::Ask { state, request }
                &&& request == CoreRequest::LoadTables { tables }
                &&& state matches Core::Loaded { entry: kept, arena: rest, state: kept_state }
                &&& kept == entry
                &&& rest@ == left
                &&& kept_state == tables.state
            },
            None => stops(step, stage.records@),
        };
    match stage.value {
        None => {
            assert(stage.records@ == tables_failure_records());
            assert(goal(machine.reported(tables_failure_records())));
            lemma_stopping(step, stage.records@, machine, 152, goal);
        },
        Some(tables) => {
            let loaded = Machine { tables: Some(tables), ..machine };
            assert forall|reply: CoreReply, next: CoreStep<'a>, after: Machine|
                #[trigger] machine.performs(step->request, reply, after)
                    && #[trigger] step->state.leads_to(reply, next) implies always_ends(
                next,
                after,
                151,
                goal,
            ) by {
                assert(after == loaded);
                assert forall|end: Machine|
                    stock_stage_ends(
                        entry,
                        left,
                        tables.state.ist_guard_pages@,
                        loaded,
                        end,
                    ) implies #[trigger] goal(end) by {
                    lemma_tables_stay(entry, left, tables.state.ist_guard_pages@, loaded, end);
                    assert(tables_stage_ends(entry, vectors, arena, machine, end));
                }
                if let Core::Loaded { arena: rest, .. } = step->state {
                    lemma_stock_stage(entry, rest, tables.state, next, loaded, goal);
                }
            }
        },
    }
}

/// After the second stage the processor keeps its descriptor tables.
proof fn lemma_tables_stay(
    entry: Entry<'_>,
    arena: ArenaView,
    ist_guards: Seq<u64>,
    found: Machine,
    after: Machine,
)
    requires
        stock_stage_ends(entry, arena, ist_guards, found, after),
    ensures
        after.tables == found.tables,
{
}

/// A run of the core ends after at most 153 requests, and does to the machine
/// what `core_ends` says: it logs its messages in order, stops at the first stage
/// that fails, and reaches the last stage only with the host's page tables and the
/// virtual machine in memory, where they are when CR3 is written.
pub proof fn law_core<'a>(
    entry: Option<Entry<'a>>,
    vectors: Vectors,
    step: CoreStep<'a>,
    machine: Machine,
)
    requires
        begins(entry, vectors, step),
    ensures
        always_ends(
            step,
            machine,
            153,
            |end: Machine| core_ends(entry, vectors, machine, end),
        ),
{
    let goal = |end: Machine| core_ends(entry, vectors, machine, end);
    let handoff = match entry {
        Some(entry) => Some(entry.handoff),
        None => None,
    };
    let records = take_over_records(handoff);
    let reported = machine.reported(records);
    match entry {
        Some(found) if arena_error(
            found.handoff.bootstrap_arena_base,
            found.handoff.bootstrap_arena_size,
        ) is None => {
            let arena = ArenaView {
                next: found.handoff.bootstrap_arena_base as nat,
                end: (found.handoff.bootstrap_arena_base
                    + found.handoff.bootstrap_arena_size) as nat,
            };
            assert(step->request->records@ == records);
            assert forall|reply: CoreReply, next: CoreStep<'a>, after: Machine|
                #[trigger] machine.performs(step->request, reply, after)
                    && #[trigger] step->state.leads_to(reply, next) implies always_ends(
                next,
                after,
                152,
                goal,
            ) by {
                assert(after == reported);
                assert forall|end: Machine|
                    tables_stage_ends(found, vectors, arena, reported, end) implies #[trigger] goal(
                    end,
                ) by {}
                lemma_tables_stage(found, vectors, arena, next, reported, goal);
            }
        },
        _ => {
            assert(goal(reported));
            lemma_stopping(step, records, machine, 153, goal);
        },
    }
}

} // verus!
