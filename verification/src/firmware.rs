//! What the loader's procedures do to the firmware as a whole.

use crate::boot_alloc::arena_error;
use crate::memory::map_error;
use crate::serial::LogRecord;
use crate::uefi::{
    handoff_for, is_boot_services, is_system_table, is_whole_map, map_step, new_loader_start,
    prepared, EfiBootServices, EfiHandle, EfiStatus, EfiSystemTable, FirmwareProcedure,
    FirmwareReply, FirmwareRequest, FirmwareStep, Handoff, Loader, MapInfo, Prepare, PrepareStep,
    Prepared, BOOTSTRAP_ARENA_PAGES, EFI_INVALID_PARAMETER, EFI_SUCCESS, EXIT_RETRIES, STACK_PAGES,
};
use vstd::multiset::Multiset;
use vstd::prelude::*;

verus! {

/// A firmware: the tables in its memory, what it answers to each request in
/// turn, and what has come of the requests so far.
pub ghost struct Firmware {
    pub tables: Map<u64, EfiBootServices>,
    /// The messages that the console has been sent.
    pub console: Seq<LogRecord>,
    /// What it answers to the requests for pages.
    pub grants: spec_fn(int) -> (EfiStatus, u64),
    /// How many requests for pages there were.
    pub allocations: int,
    /// The blocks that are taken, by address and number of pages.
    pub held: Multiset<(u64, usize)>,
    /// The blocks that were filled with zeros.
    pub zeroed: Seq<(u64, usize)>,
    /// What it answers to the requests for the memory map.
    pub maps: spec_fn(int) -> (EfiStatus, MapInfo),
    /// How many requests for the memory map there were.
    pub map_calls: int,
    /// What it answers to the requests to leave, by the map's key.
    pub exits: spec_fn(int, usize) -> EfiStatus,
    /// How many requests to leave there were.
    pub exit_calls: int,
    pub handoffs: Map<u64, Handoff>,
    /// The boot services are gone.
    pub exited: bool,
}

impl Firmware {
    /// The firmware after one more message on the console.
    pub open spec fn logged(self, record: LogRecord) -> Firmware {
        Firmware { console: self.console.push(record), ..self }
    }

    /// The firmware after a request, and its reply.
    pub open spec fn perform(self, request: FirmwareRequest) -> (Firmware, FirmwareReply) {
        match request {
            FirmwareRequest::Log { record } => (self.logged(record), FirmwareReply::Done),
            FirmwareRequest::ReadBootServices { address } => (
                self,
                FirmwareReply::BootServices { table: self.tables[address] },
            ),
            FirmwareRequest::AllocatePages { pages } => {
                let (status, address) = (self.grants)(self.allocations);
                (
                    Firmware {
                        allocations: self.allocations + 1,
                        held: if status == EFI_SUCCESS {
                            self.held.insert((address, pages))
                        } else {
                            self.held
                        },
                        ..self
                    },
                    FirmwareReply::Allocated { status, address },
                )
            },
            FirmwareRequest::FreePages { address, pages } => (
                Firmware { held: self.held.remove((address, pages)), ..self },
                FirmwareReply::Done,
            ),
            FirmwareRequest::ZeroPages { address, pages } => (
                Firmware { zeroed: self.zeroed.push((address, pages)), ..self },
                FirmwareReply::Done,
            ),
            FirmwareRequest::GetMemoryMap { .. } => {
                let (status, info) = (self.maps)(self.map_calls);
                (
                    Firmware { map_calls: self.map_calls + 1, ..self },
                    FirmwareReply::MemoryMap { status, info },
                )
            },
            FirmwareRequest::StoreHandoff { address, handoff } => (
                Firmware { handoffs: self.handoffs.insert(address, handoff), ..self },
                FirmwareReply::Done,
            ),
            FirmwareRequest::ExitBootServices { map_key, .. } => {
                let status = (self.exits)(self.exit_calls, map_key);
                (
                    Firmware {
                        exit_calls: self.exit_calls + 1,
                        exited: self.exited || status == EFI_SUCCESS,
                        ..self
                    },
                    FirmwareReply::Status { status },
                )
            },
        }
    }
}

/// The firmware, and the procedure's result, after at most `fuel` requests.
pub open spec fn run_loader<P: FirmwareProcedure>(
    step: FirmwareStep<P, P::Output>,
    firmware: Firmware,
    fuel: nat,
) -> (Firmware, Option<P::Output>)
    decreases fuel,
{
    match step {
        FirmwareStep::Finished { result } => (firmware, Some(result)),
        FirmwareStep::Ask { state, request } => if fuel == 0 {
            (firmware, None)
        } else {
            let (next, reply) = firmware.perform(request);
            run_loader(state.advance(reply), next, (fuel - 1) as nat)
        },
    }
}

/// A procedure that has finished stays finished.
pub proof fn lemma_more_loader_fuel<P: FirmwareProcedure>(
    step: FirmwareStep<P, P::Output>,
    firmware: Firmware,
    fuel: nat,
    more: nat,
)
    requires
        fuel <= more,
        run_loader(step, firmware, fuel).1 is Some,
    ensures
        run_loader(step, firmware, more) == run_loader(step, firmware, fuel),
    decreases fuel,
{
    if let FirmwareStep::Ask { state, request } = step {
        let (next, reply) = firmware.perform(request);
        lemma_more_loader_fuel(
            state.advance(reply),
            next,
            (fuel - 1) as nat,
            (more - 1) as nat,
        );
    }
}

/// The loader that is made from the firmware's tables, if they are what they
/// should be.
pub open spec fn new_loader_result(
    image_handle: EfiHandle,
    system_table: Option<EfiSystemTable>,
    firmware: Firmware,
) -> Result<Loader, EfiStatus> {
    match system_table {
        Some(table) => if is_system_table(table) && is_boot_services(
            firmware.tables[table.boot_services],
        ) {
            Ok(Loader { image_handle, boot_services: table.boot_services })
        } else {
            Err(EFI_INVALID_PARAMETER)
        },
        None => Err(EFI_INVALID_PARAMETER),
    }
}

/// A loader is made just when both of the firmware's tables are what they should
/// be; the firmware stays as it was.
pub proof fn law_new_loader(
    image_handle: EfiHandle,
    system_table: Option<EfiSystemTable>,
    firmware: Firmware,
)
    ensures
        run_loader(new_loader_start(image_handle, system_table), firmware, 1) == (
            firmware,
            Some(new_loader_result(image_handle, system_table, firmware)),
        ),
{
    reveal_with_fuel(run_loader, 2);
}

/// The firmware's answer to the request for pages that comes after `later`
/// others.
pub open spec fn grant(firmware: Firmware, later: int) -> (EfiStatus, u64) {
    (firmware.grants)(firmware.allocations + later)
}

/// What taking memory for the core does to a firmware, and how it ends. Where
/// one of the four requests for pages fails, all pages taken before are given
/// back.
pub open spec fn prepare_outcome(firmware: Firmware) -> (Firmware, Result<Prepared, EfiStatus>) {
    let (stack_status, stack) = grant(firmware, 0);
    let (vmxon_status, vmxon) = grant(firmware, 1);
    let (handoff_status, handoff) = grant(firmware, 2);
    let (arena_status, arena) = grant(firmware, 3);
    if stack_status != EFI_SUCCESS {
        (Firmware { allocations: firmware.allocations + 1, ..firmware }, Err(stack_status))
    } else if vmxon_status != EFI_SUCCESS {
        (Firmware { allocations: firmware.allocations + 2, ..firmware }, Err(vmxon_status))
    } else if handoff_status != EFI_SUCCESS {
        (Firmware { allocations: firmware.allocations + 3, ..firmware }, Err(handoff_status))
    } else if arena_status != EFI_SUCCESS {
        (Firmware { allocations: firmware.allocations + 4, ..firmware }, Err(arena_status))
    } else {
        let after = Firmware {
            allocations: firmware.allocations + 4,
            held: firmware.held.insert((stack, STACK_PAGES)).insert((vmxon, 1)).insert(
                (handoff, 1),
            ).insert((arena, BOOTSTRAP_ARENA_PAGES)),
            zeroed: firmware.zeroed + seq![
                (stack, STACK_PAGES),
                (vmxon, 1usize),
                (handoff, 1usize),
                (arena, BOOTSTRAP_ARENA_PAGES),
            ],
            ..firmware
        };
        if handoff == 0 {
            (after, Err(EFI_INVALID_PARAMETER))
        } else {
            (after, Ok(prepared(stack, vmxon, handoff, arena)))
        }
    }
}

/// Taking memory for the core ends after at most eight requests, and does what
/// `prepare_outcome` says: after a failed request for pages the firmware holds
/// just what it held before.
pub proof fn law_prepare(firmware: Firmware)
    ensures
        ({
            let start = PrepareStep::Ask {
                state: Prepare::Stack,
                request: FirmwareRequest::AllocatePages { pages: STACK_PAGES },
            };
            let (after, result) = prepare_outcome(firmware);
            run_loader(start, firmware, 8) == (after, Some(result))
        }),
{
    broadcast use vstd::multiset::group_multiset_axioms;

    reveal_with_fuel(run_loader, 9);
    let (stack_status, stack) = grant(firmware, 0);
    let (vmxon_status, vmxon) = grant(firmware, 1);
    let (handoff_status, handoff) = grant(firmware, 2);
    let (arena_status, arena) = grant(firmware, 3);
    let held = firmware.held;
    let one = held.insert((stack, STACK_PAGES));
    let two = one.insert((vmxon, 1));
    let three = two.insert((handoff, 1));
    assert(one.remove((stack, STACK_PAGES)) =~= held);
    assert(two.remove((vmxon, 1)) =~= one);
    assert(three.remove((handoff, 1)) =~= two);
    assert(firmware.zeroed.push((stack, STACK_PAGES)).push((vmxon, 1)).push((handoff, 1)).push(
        (arena, BOOTSTRAP_ARENA_PAGES),
    ) =~= firmware.zeroed + seq![
        (stack, STACK_PAGES),
        (vmxon, 1usize),
        (handoff, 1usize),
        (arena, BOOTSTRAP_ARENA_PAGES),
    ]);
}

/// What leaving the boot services does to a firmware, and how it ends, when
/// `tries` have failed before.
pub open spec fn exit_outcome(
    firmware: Firmware,
    prepared: Prepared,
    map_buffer: u64,
    tries: int,
) -> (Firmware, Result<u64, EfiStatus>)
    decreases EXIT_RETRIES - tries,
{
    let (map_status, info) = (firmware.maps)(firmware.map_calls);
    let mapped = Firmware { map_calls: firmware.map_calls + 1, ..firmware };
    if map_status != EFI_SUCCESS {
        (mapped, Err(map_status))
    } else if !is_whole_map(info) {
        (mapped, Err(EFI_INVALID_PARAMETER))
    } else {
        let status = (firmware.exits)(firmware.exit_calls, info.map_key);
        let after = Firmware {
            handoffs: firmware.handoffs.insert(
                prepared.handoff,
                handoff_for(prepared, map_buffer, info),
            ),
            exit_calls: firmware.exit_calls + 1,
            exited: firmware.exited || status == EFI_SUCCESS,
            ..mapped
        };
        if status == EFI_SUCCESS {
            (after, Ok(prepared.handoff))
        } else if status != EFI_INVALID_PARAMETER || tries + 1 >= EXIT_RETRIES {
            (after, Err(status))
        } else {
            exit_outcome(after, prepared, map_buffer, tries + 1)
        }
    }
}

/// Leaving the boot services ends after at most eight tries of three requests
/// each, and does what `exit_outcome` says.
pub proof fn law_exit_boot_services(
    image_handle: EfiHandle,
    prepared: Prepared,
    map_buffer: u64,
    firmware: Firmware,
)
    ensures
        ({
            let (after, result) = exit_outcome(firmware, prepared, map_buffer, 0);
            run_loader(map_step(image_handle, prepared, map_buffer, 0), firmware, 24) == (
                after,
                Some(result),
            )
        }),
{
    lemma_exit(image_handle, prepared, map_buffer, 0, firmware, 24);
}

proof fn lemma_exit(
    image_handle: EfiHandle,
    prepared: Prepared,
    map_buffer: u64,
    tries: u32,
    firmware: Firmware,
    fuel: nat,
)
    requires
        tries < EXIT_RETRIES,
        fuel == 3 * (EXIT_RETRIES - tries),
    ensures
        ({
            let (after, result) = exit_outcome(firmware, prepared, map_buffer, tries as int);
            run_loader(map_step(image_handle, prepared, map_buffer, tries), firmware, fuel) == (
                after,
                Some(result),
            )
        }),
    decreases EXIT_RETRIES - tries,
{
    reveal_with_fuel(run_loader, 4);
    let (map_status, info) = (firmware.maps)(firmware.map_calls);
    if map_status == EFI_SUCCESS && is_whole_map(info) {
        let status = (firmware.exits)(firmware.exit_calls, info.map_key);
        if status == EFI_INVALID_PARAMETER && tries + 1 < EXIT_RETRIES {
            let after = Firmware {
                handoffs: firmware.handoffs.insert(
                    prepared.handoff,
                    handoff_for(prepared, map_buffer, info),
                ),
                exit_calls: firmware.exit_calls + 1,
                map_calls: firmware.map_calls + 1,
                ..firmware
            };
            lemma_exit(
                image_handle,
                prepared,
                map_buffer,
                (tries + 1) as u32,
                after,
                (fuel - 3) as nat,
            );
        }
    }
}

/// The boot services are left just when the loader succeeds, within eight tries;
/// and then the core's hand-over speaks of the map that was read last, which is
/// the one that the firmware was left with.
pub proof fn law_handoff_speaks_of_the_last_map(
    firmware: Firmware,
    prepared: Prepared,
    map_buffer: u64,
    tries: int,
)
    requires
        !firmware.exited,
        0 <= tries < EXIT_RETRIES,
    ensures
        ({
            let (after, result) = exit_outcome(firmware, prepared, map_buffer, tries);
            let (status, info) = (firmware.maps)(after.map_calls - 1);
            &&& after.exited <==> result is Ok
            &&& after.exit_calls <= firmware.exit_calls + EXIT_RETRIES - tries
            &&& result is Ok ==> {
                &&& result->Ok_0 == prepared.handoff
                &&& status == EFI_SUCCESS
                &&& is_whole_map(info)
                &&& after.handoffs[prepared.handoff] == handoff_for(prepared, map_buffer, info)
                &&& (firmware.exits)(after.exit_calls - 1, info.map_key) == EFI_SUCCESS
            }
        }),
    decreases EXIT_RETRIES - tries,
{
    let (map_status, info) = (firmware.maps)(firmware.map_calls);
    if map_status == EFI_SUCCESS && is_whole_map(info) {
        let status = (firmware.exits)(firmware.exit_calls, info.map_key);
        if status == EFI_INVALID_PARAMETER && tries + 1 < EXIT_RETRIES {
            let after = Firmware {
                handoffs: firmware.handoffs.insert(
                    prepared.handoff,
                    handoff_for(prepared, map_buffer, info),
                ),
                exit_calls: firmware.exit_calls + 1,
                map_calls: firmware.map_calls + 1,
                ..firmware
            };
            law_handoff_speaks_of_the_last_map(after, prepared, map_buffer, tries + 1);
        }
    }
}

/// The core can use what it is handed: the map is walked, if it is there and
/// not empty, and the arena is accepted, if it starts at a page and ends in the
/// address space.
pub proof fn law_core_accepts_the_handoff(prepared: Prepared, map_buffer: u64, info: MapInfo)
    requires
        is_whole_map(info),
        map_buffer != 0,
        info.map_size > 0,
        prepared.bootstrap_arena_base % 4096 == 0,
        prepared.bootstrap_arena_base + BOOTSTRAP_ARENA_PAGES * 4096 <= u64::MAX,
    ensures
        ({
            let handoff = handoff_for(prepared, map_buffer, info);
            &&& map_error(handoff) is None
            &&& arena_error(handoff.bootstrap_arena_base, handoff.bootstrap_arena_size) is None
        }),
{
}

} // verus!
