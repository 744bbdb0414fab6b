//! What the core says and does, stage by stage.

use crate::arch::x86_64::instructions::{run, Processor, Request};
use crate::arch::x86_64::launch_laws::launched;
use crate::arch::x86_64::launch::law_launch;
use crate::arch::x86_64::page_tree::HostPaging;
use crate::arch::x86_64::paging::PagingError;
use crate::arch::x86_64::vm::VmResourcesView;
use crate::arch::x86_64::vmx::{law_enter_root, EnterRoot, EnterRootStep};
use crate::boot_alloc::{arena_error, ArenaView};
use crate::guest_start::{guest_start, law_guest_start};
use crate::memory::{
    collect, descriptors_in, is_merged, is_sound, law_conventional_memory_is_free,
    law_merging_has_one_result, map_error, merged, pages_in, FrameRange,
};
use crate::serial::LogRecord;
use crate::stages::{
    all_guards, fatal_records, host_records, stock_records, tables_failure_records, take_over_records,
    vm_failure_records,
};
use crate::uefi::Handoff;
use vstd::prelude::*;

verus! {

/// The last stage: write protection goes on and the host's tables come into use, which is
/// logged; then VMX operation is entered. Where that fails, the failure and its number are
/// logged, and nothing more is done. Else the revision and the launch are announced, and the
/// guest is launched. Where that fails, its number and, where it can be read, the processor's
/// are logged, and VMX operation is left.
#[verifier::spinoff_prover]
pub proof fn law_last_stage(
    root: u64,
    resources: VmResourcesView,
    region: u64,
    before: Processor,
)
    ensures
        ({
            let (after, result) = run(guest_start(root, resources, region), before, 143);
            let active = Processor {
                cr0: before.cr0 | 0x1_0000,
                cr3: root,
                console: before.console.push(
                    LogRecord::Line("hypewwisoww: host-owned page tables active"),
                ),
                ..before
            };
            let enter = EnterRootStep::Ask {
                state: EnterRoot::Features { region },
                request: Request::Cpuid { leaf: 1, subleaf: 0 },
            };
            let (inside, entered) = run(enter, active, 16);
            &&& result is Some
            &&& match entered->0 {
                Err(error) => after == Processor {
                    console: inside.console.push(
                        LogRecord::Line("hypewwisoww: VMX entry failed"),
                    ).push(LogRecord::Hex("hypewwisoww: VMX error=", error.number())),
                    ..inside
                },
                Ok(info) => {
                    let ready = Processor {
                        console: inside.console.push(
                            LogRecord::Hex(
                                "hypewwisoww: VMX root active, revision=",
                                info.revision_id as u64,
                            ),
                        ).push(
                            LogRecord::Line(
                                "hypewwisoww: launching EPT-backed 64-bit validation guest",
                            ),
                        ),
                        ..inside
                    };
                    let (end, outcome) = launched(resources, info, ready);
                    match outcome->0 {
                        Ok(()) => after == end,
                        Err(error) => {
                            let told = end.console.push(
                                LogRecord::Hex(
                                    "hypewwisoww: VMLAUNCH path failed=",
                                    error.number(),
                                ),
                            );
                            after == Processor {
                                vmx_on: false,
                                console: if (end.fails)(Request::Vmread { field: 0x4400 }) {
                                    told
                                } else {
                                    told.push(
                                        LogRecord::Hex(
                                            "hypewwisoww: VM-instruction error=",
                                            end.vmcs[0x4400],
                                        ),
                                    )
                                },
                                ..end
                            }
                        },
                    }
                },
            }
        }),
{
    law_guest_start(root, resources, region, before);
    let active = Processor {
        cr0: before.cr0 | 0x1_0000,
        cr3: root,
        console: before.console.push(
            LogRecord::Line("hypewwisoww: host-owned page tables active"),
        ),
        ..before
    };
    law_enter_root(region, active);
    let enter = EnterRootStep::Ask {
        state: EnterRoot::Features { region },
        request: Request::Cpuid { leaf: 1, subleaf: 0 },
    };
    let (inside, entered) = run(enter, active, 16);
    if let Ok(info) = entered->0 {
        let ready = Processor {
            console: inside.console.push(
                LogRecord::Hex("hypewwisoww: VMX root active, revision=", info.revision_id as u64),
            ).push(
                LogRecord::Line("hypewwisoww: launching EPT-backed 64-bit validation guest"),
            ),
            ..inside
        };
        law_launch(resources, info, ready);
    }
}

/// The core greets. Without a hand-over it gives up; else it tells the sizes of the map and of
/// its descriptors, and why the arena cannot be used, if it cannot.
pub proof fn law_first_messages(handoff: Handoff)
    ensures
        take_over_records(None) == seq![
            LogRecord::Line("hypewwisoww: boot services exited; core owns execution"),
            LogRecord::Line("hypewwisoww: fatal"),
            LogRecord::Line("null UEFI handoff"),
        ],
        ({
            let told = seq![
                LogRecord::Line("hypewwisoww: boot services exited; core owns execution"),
                LogRecord::Hex("hypewwisoww: memory-map bytes=", handoff.memory_map_size as u64),
                LogRecord::Hex("hypewwisoww: descriptor bytes=", handoff.descriptor_size as u64),
            ];
            take_over_records(Some(handoff)) == match arena_error(
                handoff.bootstrap_arena_base,
                handoff.bootstrap_arena_size,
            ) {
                None => told,
                Some(error) => told.push(
                    LogRecord::Hex("hypewwisoww: invalid bootstrap arena=", error.number()),
                ),
            }
        }),
{
    let told = seq![
        LogRecord::Line("hypewwisoww: boot services exited; core owns execution"),
        LogRecord::Hex("hypewwisoww: memory-map bytes=", handoff.memory_map_size as u64),
        LogRecord::Hex("hypewwisoww: descriptor bytes=", handoff.descriptor_size as u64),
    ];
    assert(take_over_records(None) =~= seq![
        LogRecord::Line("hypewwisoww: boot services exited; core owns execution"),
        LogRecord::Line("hypewwisoww: fatal"),
        LogRecord::Line("null UEFI handoff"),
    ]);
    match arena_error(handoff.bootstrap_arena_base, handoff.bootstrap_arena_size) {
        None => assert(take_over_records(Some(handoff)) =~= told),
        Some(error) => assert(take_over_records(Some(handoff)) =~= told.push(
            LogRecord::Hex("hypewwisoww: invalid bootstrap arena=", error.number()),
        )),
    }
}

/// Once its tables are in use, the core tells what is left of the arena; then why the map cannot
/// be used, or how many descriptors it has; then why there is no ledger, or how many ranges and
/// pages are free in it.
pub proof fn law_stock_messages(
    handoff: Handoff,
    bytes: Seq<u8>,
    arena: ArenaView,
    ledger: Seq<FrameRange>,
)
    requires
        arena.next <= arena.end <= u64::MAX,
        ({
            let descriptors = descriptors_in(bytes, handoff.descriptor_size as nat);
            is_sound(descriptors) ==> is_merged(collect(descriptors)->Ok_0, ledger)
        }),
    ensures
        ({
            let descriptors = descriptors_in(bytes, handoff.descriptor_size as nat);
            let told = seq![
                LogRecord::Line("hypewwisoww: host GDT/TSS/IDT active"),
                LogRecord::Hex(
                    "hypewwisoww: bootstrap arena remaining=",
                    (arena.end - arena.next) as u64,
                ),
            ];
            let counted = told.push(
                LogRecord::Hex("hypewwisoww: memory descriptors=", descriptors.len() as u64),
            );
            let records = stock_records(handoff, bytes, arena);
            &&& map_error(handoff) matches Some(error) ==> records == told.push(
                LogRecord::Hex("hypewwisoww: invalid memory map=", error.number()),
            )
            &&& map_error(handoff) is None && !is_sound(descriptors) ==> records == counted.push(
                LogRecord::Hex(
                    "hypewwisoww: frame ledger failed=",
                    collect(descriptors)->Err_0.number(),
                ),
            )
            &&& map_error(handoff) is None && is_sound(descriptors) ==> records == counted.push(
                LogRecord::Hex("hypewwisoww: free ranges=", ledger.len() as u64),
            ).push(LogRecord::Hex("hypewwisoww: free 4K frames=", pages_in(ledger) as u64))
        }),
{
    let descriptors = descriptors_in(bytes, handoff.descriptor_size as nat);
    law_conventional_memory_is_free(descriptors);
    let told = seq![
        LogRecord::Line("hypewwisoww: host GDT/TSS/IDT active"),
        LogRecord::Hex(
            "hypewwisoww: bootstrap arena remaining=",
            (arena.end - arena.next) as u64,
        ),
    ];
    let counted = told.push(
        LogRecord::Hex("hypewwisoww: memory descriptors=", descriptors.len() as u64),
    );
    let records = stock_records(handoff, bytes, arena);
    if let Some(error) = map_error(handoff) {
        assert(records =~= told.push(
            LogRecord::Hex("hypewwisoww: invalid memory map=", error.number()),
        ));
    } else if is_sound(descriptors) {
        let ranges = collect(descriptors)->Ok_0;
        law_merging_has_one_result(ranges, ledger, merged(ranges));
        assert(records =~= counted.push(
            LogRecord::Hex("hypewwisoww: free ranges=", ledger.len() as u64),
        ).push(LogRecord::Hex("hypewwisoww: free 4K frames=", pages_in(ledger) as u64)));
    } else {
        assert(records =~= counted.push(
            LogRecord::Hex(
                "hypewwisoww: frame ledger failed=",
                collect(descriptors)->Err_0.number(),
            ),
        ));
    }
}

/// A stage that finds no room in the arena says so with the number zero; so does one that cannot
/// build the host's page tables, with the number of the reason. Tables that were built are
/// announced with the address of the first, the count of their pages, and whether no-execute
/// pages are on.
pub proof fn law_later_messages(
    built: HostPaging,
    error: PagingError,
    nx_enabled: bool,
)
    ensures
        tables_failure_records() == seq![
            LogRecord::Hex("hypewwisoww: descriptor setup failed=", 0),
        ],
        vm_failure_records() == seq![
            LogRecord::Hex("hypewwisoww: VM resource allocation failed=", 0),
        ],
        host_records(built, Some(error), nx_enabled) == seq![
            LogRecord::Hex("hypewwisoww: host paging failed=", error.number()),
        ],
        host_records(built, None, nx_enabled) == seq![
            LogRecord::Hex("hypewwisoww: host CR3=", built.tree.tables[(4, 0)]),
            LogRecord::Hex("hypewwisoww: mapped 4K pages=", built.mapped as u64),
            LogRecord::Hex(
                "hypewwisoww: NX active=",
                if nx_enabled {
                    1
                } else {
                    0
                },
            ),
        ],
{
}

/// The pages that are not mapped for the host are the guard of the core's stack, those of the
/// three interrupt stacks, and that of the exit stack.
pub proof fn law_five_guards(stack: u64, interrupts: Seq<u64>, exit: u64)
    requires
        interrupts.len() == 3,
    ensures
        all_guards(stack, interrupts, exit) == seq![stack] + interrupts + seq![exit],
{
    assert(all_guards(stack, interrupts, exit) =~= seq![stack] + interrupts + seq![exit]);
}

/// The core gives up with two messages: that it does, and why.
pub proof fn law_fatal_messages(message: &'static str)
    ensures
        fatal_records(message) == seq![
            LogRecord::Line("hypewwisoww: fatal"),
            LogRecord::Line(message),
        ],
{
}

} // verus!
