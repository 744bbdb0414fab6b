//! What the loader takes from the firmware and leaves to the core, in the numbers of the
//! firmware's interface.

use crate::boot::{boot_start, law_boot};
use crate::firmware::{
    exit_outcome, grant, law_exit_boot_services, law_new_loader, law_prepare, prepare_outcome, run_loader, Firmware,
};
use crate::serial::LogRecord;
use crate::uefi::{
    map_step, new_loader_start, EfiHandle, EfiStatus, EfiSystemTable, FirmwareProcedure,
    FirmwareReply, FirmwareRequest, Handoff, Loader, MapInfo, Prepare, PrepareStep,
    Prepared,
};
use vstd::prelude::*;

verus! {

/// Both of the firmware's tables are there, are named as they should be, and reach as far
/// as they are used.
pub open spec fn has_tables(system_table: Option<EfiSystemTable>, firmware: Firmware) -> bool {
    &&& system_table matches Some(table)
    &&& table.header.signature == 0x5453_5953_2049_4249
    &&& table.header.header_size >= 120
    &&& table.boot_services != 0
    &&& firmware.tables[table.boot_services].header.signature == 0x5652_4553_544f_4f42
    &&& firmware.tables[table.boot_services].header.header_size >= 240
}

/// A loader is made just where the firmware's tables are what they should be; it keeps the
/// image and the boot services. Else the image is told that it was called wrongly.
pub proof fn law_loader_is_made_from_tables(
    image_handle: EfiHandle,
    system_table: Option<EfiSystemTable>,
    firmware: Firmware,
)
    ensures
        run_loader(new_loader_start(image_handle, system_table), firmware, 1) == (
            firmware,
            Some(
                if has_tables(system_table, firmware) {
                    Ok::<Loader, EfiStatus>(
                        Loader { image_handle, boot_services: system_table->0.boot_services },
                    )
                } else {
                    Err(0x8000_0000_0000_0002)
                },
            ),
        ),
{
    law_new_loader(image_handle, system_table, firmware);
}

/// The firmware, and what was taken, once memory has been taken for the core.
pub open spec fn taken(firmware: Firmware) -> (Firmware, Option<Result<Prepared, EfiStatus>>) {
    let start = PrepareStep::Ask {
        state: Prepare::Stack,
        request: FirmwareRequest::AllocatePages { pages: 17 },
    };
    run_loader(start, firmware, 8)
}

/// Where the firmware gives the four blocks, the core has a stack of sixteen pages above its
/// guard page, inside the first block of seventeen; a page for VMX operation; a page for its
/// hand-over; and an arena of 1024 pages. All of them are held and zeroed.
pub proof fn law_core_gets_its_memory(firmware: Firmware)
    requires
        grant(firmware, 0).0 == 0,
        grant(firmware, 1).0 == 0,
        grant(firmware, 2).0 == 0,
        grant(firmware, 3).0 == 0,
        grant(firmware, 0).1 + 17 * 4096 <= u64::MAX,
    ensures
        ({
            let (after, result) = taken(firmware);
            let stack = grant(firmware, 0).1;
            let vmxon = grant(firmware, 1).1;
            let handoff = grant(firmware, 2).1;
            let arena = grant(firmware, 3).1;
            &&& handoff == 0 ==> result == Some(
                Err::<Prepared, EfiStatus>(0x8000_0000_0000_0002),
            )
            &&& handoff != 0 ==> {
                &&& result matches Some(Ok(prepared))
                &&& prepared.stack_guard == stack
                &&& prepared.stack_base == stack + 4096
                &&& prepared.stack_top == stack + 17 * 4096
                &&& prepared.vmxon_region == vmxon
                &&& prepared.bootstrap_arena_base == arena
                &&& prepared.handoff == handoff
            }
            &&& after.allocations == firmware.allocations + 4
            &&& after.held == firmware.held.insert((stack, 17)).insert((vmxon, 1)).insert(
                (handoff, 1),
            ).insert((arena, 1024))
            &&& after.zeroed == firmware.zeroed + seq![
                (stack, 17usize),
                (vmxon, 1usize),
                (handoff, 1usize),
                (arena, 1024usize),
            ]
            &&& after == Firmware {
                allocations: after.allocations,
                held: after.held,
                zeroed: after.zeroed,
                ..firmware
            }
        }),
{
    law_prepare(firmware);
}

/// Where the firmware refuses a block, its status is handed on, no further block is asked
/// for, all blocks that were taken are given back, and nothing is zeroed.
pub proof fn law_refused_memory_is_given_back(firmware: Firmware, refused: int)
    requires
        0 <= refused < 4,
        grant(firmware, refused).0 != 0,
        forall|earlier: int| 0 <= earlier < refused ==> (#[trigger] grant(firmware, earlier)).0 == 0,
    ensures
        taken(firmware) == (
            Firmware { allocations: firmware.allocations + refused + 1, ..firmware },
            Some(Err::<Prepared, EfiStatus>(grant(firmware, refused).0)),
        ),
{
    law_prepare(firmware);
    assert(0 < refused ==> grant(firmware, 0).0 == 0);
    assert(1 < refused ==> grant(firmware, 1).0 == 0);
    assert(2 < refused ==> grant(firmware, 2).0 == 0);
}

/// The firmware's answer to the request for the map that comes after `later` others.
pub open spec fn map_answer(firmware: Firmware, later: int) -> (EfiStatus, MapInfo) {
    (firmware.maps)(firmware.map_calls + later)
}

/// The firmware's answer when it is left after `later` other tries, with the map that was
/// read before.
pub open spec fn exit_answer(firmware: Firmware, later: int) -> EfiStatus {
    (firmware.exits)(firmware.exit_calls + later, map_answer(firmware, later).1.map_key)
}

/// A map can be read and is made of whole descriptors of at least forty bytes.
pub open spec fn has_map(firmware: Firmware, later: int) -> bool {
    let (status, info) = map_answer(firmware, later);
    status == 0 && info.descriptor_size >= 40 && info.map_size % info.descriptor_size == 0
}

/// The try is made in vain, because the map has changed meanwhile.
pub open spec fn is_stale(firmware: Firmware, later: int) -> bool {
    has_map(firmware, later) && exit_answer(firmware, later) == 0x8000_0000_0000_0002
}

/// What the core is handed: the memory that was taken for it, an arena of 4 MiB, and the map.
pub open spec fn is_handed(
    handoff: Handoff,
    prepared: Prepared,
    map_buffer: u64,
    info: MapInfo,
) -> bool {
    &&& handoff.memory_map == map_buffer
    &&& handoff.memory_map_size == info.map_size
    &&& handoff.descriptor_size == info.descriptor_size
    &&& handoff.descriptor_version == info.descriptor_version
    &&& handoff._padding == 0
    &&& handoff.stack_guard == prepared.stack_guard
    &&& handoff.stack_base == prepared.stack_base
    &&& handoff.stack_top == prepared.stack_top
    &&& handoff.vmxon_region == prepared.vmxon_region
    &&& handoff.bootstrap_arena_base == prepared.bootstrap_arena_base
    &&& handoff.bootstrap_arena_size == 0x40_0000
}

/// Leaving the boot services is tried until the map is not stale, eight times at most. The
/// last try decides: without a map its status, or that it is unusable; else what the
/// firmware answers. The core's hand-over then speaks of the map of the last try.
pub proof fn law_leaving_is_tried_again(
    image_handle: EfiHandle,
    prepared: Prepared,
    map_buffer: u64,
    firmware: Firmware,
    last: int,
)
    requires
        0 <= last < 8,
        forall|earlier: int| 0 <= earlier < last ==> #[trigger] is_stale(firmware, earlier),
        last < 7 ==> !is_stale(firmware, last),
    ensures
        ({
            let (after, result) = run_loader(
                map_step(image_handle, prepared, map_buffer, 0),
                firmware,
                24,
            );
            let (status, info) = map_answer(firmware, last);
            let left = exit_answer(firmware, last);
            &&& after.map_calls == firmware.map_calls + last + 1
            &&& status != 0 ==> result == Some(Err::<u64, EfiStatus>(status))
            &&& status == 0 && !has_map(firmware, last) ==> result == Some(
                Err::<u64, EfiStatus>(0x8000_0000_0000_0002),
            )
            &&& !has_map(firmware, last) ==> after.exit_calls == firmware.exit_calls + last
                && after.exited == firmware.exited
            &&& has_map(firmware, last) ==> {
                &&& result == Some(
                    if left == 0 {
                        Ok::<u64, EfiStatus>(prepared.handoff)
                    } else {
                        Err(left)
                    },
                )
                &&& after.exit_calls == firmware.exit_calls + last + 1
                &&& after.exited == (firmware.exited || left == 0)
                &&& is_handed(after.handoffs[prepared.handoff], prepared, map_buffer, info)
            }
            &&& after == Firmware {
                map_calls: after.map_calls,
                exit_calls: after.exit_calls,
                exited: after.exited,
                handoffs: after.handoffs,
                ..firmware
            }
        }),
{
    law_exit_boot_services(image_handle, prepared, map_buffer, firmware);
    lemma_tries(prepared, map_buffer, firmware, last, 0);
}

/// The tries from number `done` on.
proof fn lemma_tries(
    prepared: Prepared,
    map_buffer: u64,
    firmware: Firmware,
    last: int,
    done: int,
)
    requires
        0 <= last < 8 - done,
        0 <= done < 8,
        forall|earlier: int| 0 <= earlier < last ==> #[trigger] is_stale(firmware, earlier),
        last < 7 - done ==> !is_stale(firmware, last),
    ensures
        ({
            let (after, result) = exit_outcome(firmware, prepared, map_buffer, done);
            let (status, info) = map_answer(firmware, last);
            let left = exit_answer(firmware, last);
            &&& after.map_calls == firmware.map_calls + last + 1
            &&& status != 0 ==> result == Err::<u64, EfiStatus>(status)
            &&& status == 0 && !has_map(firmware, last) ==> result == Err::<u64, EfiStatus>(
                0x8000_0000_0000_0002,
            )
            &&& !has_map(firmware, last) ==> after.exit_calls == firmware.exit_calls + last
                && after.exited == firmware.exited
            &&& has_map(firmware, last) ==> {
                &&& result == if left == 0 {
                    Ok::<u64, EfiStatus>(prepared.handoff)
                } else {
                    Err(left)
                }
                &&& after.exit_calls == firmware.exit_calls + last + 1
                &&& after.exited == (firmware.exited || left == 0)
                &&& is_handed(after.handoffs[prepared.handoff], prepared, map_buffer, info)
            }
            &&& after == Firmware {
                map_calls: after.map_calls,
                exit_calls: after.exit_calls,
                exited: after.exited,
                handoffs: after.handoffs,
                ..firmware
            }
        }),
    decreases last,
{
    if last > 0 {
        assert(is_stale(firmware, 0));
        let next = Firmware {
            map_calls: firmware.map_calls + 1,
            exit_calls: firmware.exit_calls + 1,
            handoffs: exit_outcome(firmware, prepared, map_buffer, 7).0.handoffs,
            ..firmware
        };
        assert(exit_outcome(firmware, prepared, map_buffer, done) == exit_outcome(
            next,
            prepared,
            map_buffer,
            done + 1,
        ));
        assert forall|later: int| 0 <= later implies #[trigger] is_stale(next, later) == is_stale(
            firmware,
            later + 1,
        ) by {
            assert(next.map_calls + later == firmware.map_calls + (later + 1));
            assert(next.exit_calls + later == firmware.exit_calls + (later + 1));
        }
        assert(next.map_calls + (last - 1) == firmware.map_calls + last);
        assert(next.exit_calls + (last - 1) == firmware.exit_calls + last);
        lemma_tries(prepared, map_buffer, next, last - 1, done + 1);
    } else {
        assert(map_answer(firmware, 0) == (firmware.maps)(firmware.map_calls));
        assert(exit_answer(firmware, 0) == (firmware.exits)(
            firmware.exit_calls,
            map_answer(firmware, 0).1.map_key,
        ));
    }
}

/// The map is asked for with room for 256 KiB; the hand-over is stored where it was taken
/// for; and the firmware is left by the image that it started, with the key of the map that
/// was read last.
pub proof fn law_exit_requests(
    image_handle: EfiHandle,
    prepared: Prepared,
    map_buffer: u64,
    tries: u32,
    info: MapInfo,
)
    requires
        info.descriptor_size >= 40,
        info.map_size % info.descriptor_size == 0,
    ensures
        map_step(image_handle, prepared, map_buffer, tries)->request == (
        FirmwareRequest::GetMemoryMap { capacity: 0x4_0000 }),
        ({
            let asked = map_step(image_handle, prepared, map_buffer, tries)->state;
            let stored = asked.advance(FirmwareReply::MemoryMap { status: 0, info });
            let left = stored->state.advance(FirmwareReply::Done);
            &&& stored is Ask
            &&& stored->request matches FirmwareRequest::StoreHandoff { address, handoff }
            &&& address == prepared.handoff
            &&& is_handed(handoff, prepared, map_buffer, info)
            &&& left is Ask
            &&& left->request == (FirmwareRequest::ExitBootServices {
                image_handle,
                map_key: info.map_key,
            })
        }),
{
}

/// What the image says and returns: it greets; where its tables, its memory or the way out
/// fails it says so, with the status where there is one, and returns the status; else it
/// goes on to the core with the address of the hand-over.
pub proof fn law_image_reports_and_returns(
    image_handle: EfiHandle,
    system_table: Option<EfiSystemTable>,
    map_buffer: u64,
    firmware: Firmware,
)
    ensures
        ({
            let (after, result) = run_loader(
                boot_start(image_handle, system_table, map_buffer),
                firmware,
                36,
            );
            let greeted = firmware.console.push(LogRecord::Line("hypewwisoww: UEFI entry"));
            let entered = Firmware { console: greeted, ..firmware };
            let (holding, memory) = taken(entered);
            let leaving = Firmware {
                console: greeted.push(LogRecord::Line("hypewwisoww: leaving UEFI boot services")),
                ..holding
            };
            if !has_tables(system_table, firmware) {
                &&& after == entered
                &&& result == Some(Err::<u64, EfiStatus>(0x8000_0000_0000_0002))
            } else {
                match memory->0 {
                    Err(status) => {
                        &&& result == Some(Err::<u64, EfiStatus>(status))
                        &&& after == Firmware {
                            console: greeted.push(
                                LogRecord::Hex(
                                    "hypewwisoww: preparation failed, EFI_STATUS=",
                                    status,
                                ),
                            ),
                            ..holding
                        }
                    },
                    Ok(prepared) => {
                        let (left, end) = run_loader(
                            map_step(image_handle, prepared, map_buffer, 0),
                            leaving,
                            24,
                        );
                        &&& result == end
                        &&& after == match end->0 {
                            Ok(_) => left,
                            Err(status) => Firmware {
                                console: leaving.console.push(
                                    LogRecord::Hex(
                                        "hypewwisoww: ExitBootServices failed, EFI_STATUS=",
                                        status,
                                    ),
                                ),
                                ..left
                            },
                        }
                    },
                }
            }
        }),
{
    law_boot(image_handle, system_table, map_buffer, firmware);
    let greeted = firmware.console.push(LogRecord::Line("hypewwisoww: UEFI entry"));
    let entered = Firmware { console: greeted, ..firmware };
    law_prepare(entered);
    let (holding, memory) = prepare_outcome(entered);
    if let Ok(prepared) = memory {
        let leaving = Firmware {
            console: greeted.push(LogRecord::Line("hypewwisoww: leaving UEFI boot services")),
            ..holding
        };
        law_exit_boot_services(image_handle, prepared, map_buffer, leaving);
        lemma_exit_is_silent(leaving, prepared, map_buffer, 0);
    }
}

/// Leaving the boot services logs nothing.
proof fn lemma_exit_is_silent(firmware: Firmware, prepared: Prepared, map_buffer: u64, tries: int)
    ensures
        exit_outcome(firmware, prepared, map_buffer, tries).0.console == firmware.console,
    decreases 8 - tries,
{
    let (status, info) = (firmware.maps)(firmware.map_calls);
    let left = (firmware.exits)(firmware.exit_calls, info.map_key);
    if tries < 7 && status == 0 && left == 0x8000_0000_0000_0002 {
        let after = Firmware {
            handoffs: exit_outcome(firmware, prepared, map_buffer, 7).0.handoffs,
            exit_calls: firmware.exit_calls + 1,
            map_calls: firmware.map_calls + 1,
            ..firmware
        };
        lemma_exit_is_silent(after, prepared, map_buffer, tries + 1);
    }
}

} // verus!
