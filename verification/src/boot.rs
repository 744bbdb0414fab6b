//! The image's way from its entry to the core: a loader is made, memory is taken
//! for the core, and the boot services are left.

use crate::firmware::{
    exit_outcome, law_exit_boot_services, law_new_loader, law_prepare, lemma_more_loader_fuel,
    new_loader_result, prepare_outcome, run_loader, Firmware,
};
use crate::serial::LogRecord;
use crate::uefi::{
    answers, map_step, new_loader_start, EfiHandle, EfiStatus, EfiSystemTable, ExitBoot,
    ExitBootStep, FirmwareProcedure, FirmwareReply, FirmwareRequest, FirmwareStep, Loader,
    NewLoader, NewLoaderStep, Prepare, PrepareStep, Prepared, STACK_PAGES,
};
use vstd::prelude::*;

verus! {

/// How far the image has come: what has been asked for, and what is known so
/// far.
#[derive(Clone, Copy, Debug, PartialEq, Eq, Structural)]
pub enum Boot {
    Entered { image_handle: EfiHandle, system_table: Option<EfiSystemTable>, map_buffer: u64 },
    Making { map_buffer: u64, making: NewLoader },
    Preparing { loader: Loader, map_buffer: u64, prepare: Prepare },
    PreparationFailed { status: EfiStatus },
    Leaving { loader: Loader, map_buffer: u64, prepared: Prepared },
    Exiting { exit: ExitBoot },
    ExitFailed { status: EfiStatus },
}

/// The result is the address of the core's hand-over, or the status with which
/// the image returns to the firmware.
pub type BootStep = FirmwareStep<Boot, Result<u64, EfiStatus>>;

/// The step that logs a message before the next state.
pub open spec fn log_step(state: Boot, record: LogRecord) -> BootStep {
    FirmwareStep::Ask { state, request: FirmwareRequest::Log { record } }
}

/// A step of making a loader, as a step of the image.
pub open spec fn making(map_buffer: u64, step: NewLoaderStep) -> BootStep {
    match step {
        FirmwareStep::Ask { state, request } => FirmwareStep::Ask {
            state: Boot::Making { map_buffer, making: state },
            request,
        },
        FirmwareStep::Finished { result } => match result {
            Ok(loader) => preparing(
                loader,
                map_buffer,
                FirmwareStep::Ask {
                    state: Prepare::Stack,
                    request: FirmwareRequest::AllocatePages { pages: STACK_PAGES },
                },
            ),
            Err(status) => FirmwareStep::Finished { result: Err(status) },
        },
    }
}

/// A step of taking memory, as a step of the image.
pub open spec fn preparing(loader: Loader, map_buffer: u64, step: PrepareStep) -> BootStep {
    match step {
        FirmwareStep::Ask { state, request } => FirmwareStep::Ask {
            state: Boot::Preparing { loader, map_buffer, prepare: state },
            request,
        },
        FirmwareStep::Finished { result } => match result {
            Ok(prepared) => log_step(
                Boot::Leaving { loader, map_buffer, prepared },
                LogRecord::Line("hypewwisoww: leaving UEFI boot services"),
            ),
            Err(status) => log_step(
                Boot::PreparationFailed { status },
                LogRecord::Hex("hypewwisoww: preparation failed, EFI_STATUS=", status),
            ),
        },
    }
}

/// A step of leaving the boot services, as a step of the image.
pub open spec fn exiting(step: ExitBootStep) -> BootStep {
    match step {
        FirmwareStep::Ask { state, request } => FirmwareStep::Ask {
            state: Boot::Exiting { exit: state },
            request,
        },
        FirmwareStep::Finished { result } => match result {
            Ok(handoff) => FirmwareStep::Finished { result: Ok(handoff) },
            Err(status) => log_step(
                Boot::ExitFailed { status },
                LogRecord::Hex("hypewwisoww: ExitBootServices failed, EFI_STATUS=", status),
            ),
        },
    }
}

impl FirmwareProcedure for Boot {
    type Output = Result<u64, EfiStatus>;

    open spec fn advance(self, reply: FirmwareReply) -> BootStep {
        match self {
            Boot::Entered { image_handle, system_table, map_buffer } => making(
                map_buffer,
                new_loader_start(image_handle, system_table),
            ),
            Boot::Making { map_buffer, making } => self::making(map_buffer, making.advance(reply)),
            Boot::Preparing { loader, map_buffer, prepare } => preparing(
                loader,
                map_buffer,
                prepare.advance(reply),
            ),
            Boot::PreparationFailed { status } => FirmwareStep::Finished { result: Err(status) },
            Boot::Leaving { loader, map_buffer, prepared } => exiting(
                map_step(loader.image_handle, prepared, map_buffer, 0),
            ),
            Boot::Exiting { exit } => exiting(exit.advance(reply)),
            Boot::ExitFailed { status } => FirmwareStep::Finished { result: Err(status) },
        }
    }
}

impl Boot {
    /// The procedure that is under way is well-formed.
    pub open spec fn wf(self) -> bool {
        match self {
            Boot::Preparing { prepare, .. } => prepare.wf(),
            Boot::Exiting { exit } => exit.wf(),
            _ => true,
        }
    }

    /// The reply is of the kind that the state waits for.
    pub open spec fn expects(self, reply: FirmwareReply) -> bool {
        match self {
            Boot::Making { making, .. } => making.expects(reply),
            Boot::Preparing { prepare, .. } => prepare.expects(reply),
            Boot::Exiting { exit } => exit.expects(reply),
            _ => reply is Done,
        }
    }

    fn make(map_buffer: u64, step: NewLoaderStep) -> (next: BootStep)
        ensures
            next == making(map_buffer, step),
    {
        match step {
            FirmwareStep::Ask { state, request } => FirmwareStep::Ask {
                state: Boot::Making { map_buffer, making: state },
                request,
            },
            FirmwareStep::Finished { result } => match result {
                Ok(loader) => Boot::prepare(loader, map_buffer, loader.prepare()),
                Err(status) => FirmwareStep::Finished { result: Err(status) },
            },
        }
    }

    fn prepare(loader: Loader, map_buffer: u64, step: PrepareStep) -> (next: BootStep)
        ensures
            next == preparing(loader, map_buffer, step),
    {
        match step {
            FirmwareStep::Ask { state, request } => FirmwareStep::Ask {
                state: Boot::Preparing { loader, map_buffer, prepare: state },
                request,
            },
            FirmwareStep::Finished { result } => match result {
                Ok(prepared) => FirmwareStep::Ask {
                    state: Boot::Leaving { loader, map_buffer, prepared },
                    request: FirmwareRequest::Log {
                        record: LogRecord::Line("hypewwisoww: leaving UEFI boot services"),
                    },
                },
                Err(status) => FirmwareStep::Ask {
                    state: Boot::PreparationFailed { status },
                    request: FirmwareRequest::Log {
                        record: LogRecord::Hex(
                            "hypewwisoww: preparation failed, EFI_STATUS=",
                            status,
                        ),
                    },
                },
            },
        }
    }

    fn exit(step: ExitBootStep) -> (next: BootStep)
        ensures
            next == exiting(step),
    {
        match step {
            FirmwareStep::Ask { state, request } => FirmwareStep::Ask {
                state: Boot::Exiting { exit: state },
                request,
            },
            FirmwareStep::Finished { result } => match result {
                Ok(handoff) => FirmwareStep::Finished { result: Ok(handoff) },
                Err(status) => FirmwareStep::Ask {
                    state: Boot::ExitFailed { status },
                    request: FirmwareRequest::Log {
                        record: LogRecord::Hex(
                            "hypewwisoww: ExitBootServices failed, EFI_STATUS=",
                            status,
                        ),
                    },
                },
            },
        }
    }

    /// Goes on with the reply to what was asked for.
    pub fn next(self, reply: FirmwareReply) -> (step: BootStep)
        requires
            self.wf(),
            self.expects(reply),
        ensures
            step == self.advance(reply),
            step matches FirmwareStep::Ask { state, request } ==> state.wf() && forall|
                answer: FirmwareReply,
            |
                answers(answer, request) ==> #[trigger] state.expects(answer),
    {
        match self {
            Boot::Entered { image_handle, system_table, map_buffer } => Boot::make(
                map_buffer,
                Loader::new(image_handle, system_table),
            ),
            Boot::Making { map_buffer, making } => Boot::make(map_buffer, making.next(reply)),
            Boot::Preparing { loader, map_buffer, prepare } => Boot::prepare(
                loader,
                map_buffer,
                prepare.next(reply),
            ),
            Boot::PreparationFailed { status } => FirmwareStep::Finished { result: Err(status) },
            Boot::Leaving { loader, map_buffer, prepared } => Boot::exit(
                loader.exit_boot_services(prepared, map_buffer),
            ),
            Boot::Exiting { exit } => Boot::exit(exit.next(reply)),
            Boot::ExitFailed { status } => FirmwareStep::Finished { result: Err(status) },
        }
    }
}

/// The step that the image begins with.
pub open spec fn boot_start(
    image_handle: EfiHandle,
    system_table: Option<EfiSystemTable>,
    map_buffer: u64,
) -> BootStep {
    log_step(
        Boot::Entered { image_handle, system_table, map_buffer },
        LogRecord::Line("hypewwisoww: UEFI entry"),
    )
}

/// Starts the image, once the console is set up. `system_table` is what the
/// firmware passed, if it passed one; the memory map will go to the buffer at
/// `map_buffer`.
pub fn efi_main(
    image_handle: EfiHandle,
    system_table: Option<EfiSystemTable>,
    map_buffer: u64,
) -> (step: BootStep)
    ensures
        step == boot_start(image_handle, system_table, map_buffer),
{
    FirmwareStep::Ask {
        state: Boot::Entered { image_handle, system_table, map_buffer },
        request: FirmwareRequest::Log { record: LogRecord::Line("hypewwisoww: UEFI entry") },
    }
}

/// The firmware, and the result, after memory was taken for the core, or not.
pub open spec fn after_prepare(
    map_buffer: u64,
    taken: Result<Prepared, EfiStatus>,
    firmware: Firmware,
) -> (Firmware, Result<u64, EfiStatus>) {
    match taken {
        Ok(prepared) => {
            let leaving = firmware.logged(
                LogRecord::Line("hypewwisoww: leaving UEFI boot services"),
            );
            match exit_outcome(leaving, prepared, map_buffer, 0) {
                (after, Ok(handoff)) => (after, Ok(handoff)),
                (after, Err(status)) => (
                    after.logged(
                        LogRecord::Hex(
                            "hypewwisoww: ExitBootServices failed, EFI_STATUS=",
                            status,
                        ),
                    ),
                    Err(status),
                ),
            }
        },
        Err(status) => (
            firmware.logged(
                LogRecord::Hex("hypewwisoww: preparation failed, EFI_STATUS=", status),
            ),
            Err(status),
        ),
    }
}

/// What the image does to a firmware, and how it ends.
pub open spec fn boot_outcome(
    image_handle: EfiHandle,
    system_table: Option<EfiSystemTable>,
    map_buffer: u64,
    firmware: Firmware,
) -> (Firmware, Result<u64, EfiStatus>) {
    let entered = firmware.logged(LogRecord::Line("hypewwisoww: UEFI entry"));
    match new_loader_result(image_handle, system_table, entered) {
        Ok(_) => {
            let (after, taken) = prepare_outcome(entered);
            after_prepare(map_buffer, taken, after)
        },
        Err(status) => (entered, Err(status)),
    }
}

proof fn lemma_making(
    map_buffer: u64,
    step: NewLoaderStep,
    firmware: Firmware,
    fuel: nat,
    rest: nat,
)
    requires
        run_loader(step, firmware, fuel).1 is Some,
        ({
            let (after, result) = run_loader(step, firmware, fuel);
            run_loader(
                making(map_buffer, FirmwareStep::Finished { result: result->0 }),
                after,
                rest,
            ).1 is Some
        }),
    ensures
        ({
            let (after, result) = run_loader(step, firmware, fuel);
            run_loader(making(map_buffer, step), firmware, fuel + rest) == run_loader(
                making(map_buffer, FirmwareStep::Finished { result: result->0 }),
                after,
                rest,
            )
        }),
    decreases fuel,
{
    match step {
        FirmwareStep::Finished { result } => {
            lemma_more_loader_fuel(making(map_buffer, step), firmware, rest, fuel + rest);
        },
        FirmwareStep::Ask { state, request } => {
            let (next, reply) = firmware.perform(request);
            lemma_making(map_buffer, state.advance(reply), next, (fuel - 1) as nat, rest);
        },
    }
}

proof fn lemma_preparing(
    loader: Loader,
    map_buffer: u64,
    step: PrepareStep,
    firmware: Firmware,
    fuel: nat,
    rest: nat,
)
    requires
        run_loader(step, firmware, fuel).1 is Some,
        ({
            let (after, result) = run_loader(step, firmware, fuel);
            run_loader(
                preparing(loader, map_buffer, FirmwareStep::Finished { result: result->0 }),
                after,
                rest,
            ).1 is Some
        }),
    ensures
        ({
            let (after, result) = run_loader(step, firmware, fuel);
            run_loader(preparing(loader, map_buffer, step), firmware, fuel + rest) == run_loader(
                preparing(loader, map_buffer, FirmwareStep::Finished { result: result->0 }),
                after,
                rest,
            )
        }),
    decreases fuel,
{
    match step {
        FirmwareStep::Finished { result } => {
            lemma_more_loader_fuel(
                preparing(loader, map_buffer, step),
                firmware,
                rest,
                fuel + rest,
            );
        },
        FirmwareStep::Ask { state, request } => {
            let (next, reply) = firmware.perform(request);
            lemma_preparing(
                loader,
                map_buffer,
                state.advance(reply),
                next,
                (fuel - 1) as nat,
                rest,
            );
        },
    }
}

proof fn lemma_exiting(step: ExitBootStep, firmware: Firmware, fuel: nat, rest: nat)
    requires
        run_loader(step, firmware, fuel).1 is Some,
        ({
            let (after, result) = run_loader(step, firmware, fuel);
            run_loader(
                exiting(FirmwareStep::Finished { result: result->0 }),
                after,
                rest,
            ).1 is Some
        }),
    ensures
        ({
            let (after, result) = run_loader(step, firmware, fuel);
            run_loader(exiting(step), firmware, fuel + rest) == run_loader(
                exiting(FirmwareStep::Finished { result: result->0 }),
                after,
                rest,
            )
        }),
    decreases fuel,
{
    match step {
        FirmwareStep::Finished { result } => {
            lemma_more_loader_fuel(exiting(step), firmware, rest, fuel + rest);
        },
        FirmwareStep::Ask { state, request } => {
            let (next, reply) = firmware.perform(request);
            lemma_exiting(state.advance(reply), next, (fuel - 1) as nat, rest);
        },
    }
}

proof fn lemma_after_prepare(
    loader: Loader,
    map_buffer: u64,
    taken: Result<Prepared, EfiStatus>,
    firmware: Firmware,
)
    ensures
        ({
            let (after, result) = after_prepare(map_buffer, taken, firmware);
            run_loader(
                preparing(loader, map_buffer, FirmwareStep::Finished { result: taken }),
                firmware,
                26,
            ) == (after, Some(result))
        }),
{
    reveal_with_fuel(run_loader, 2);
    if let Ok(prepared) = taken {
        let leaving = firmware.logged(
            LogRecord::Line("hypewwisoww: leaving UEFI boot services"),
        );
        law_exit_boot_services(loader.image_handle, prepared, map_buffer, leaving);
        let (after, result) = exit_outcome(leaving, prepared, map_buffer, 0);
        lemma_exiting(
            map_step(loader.image_handle, prepared, map_buffer, 0),
            leaving,
            24,
            1,
        );
    }
}

/// The image ends, in the core or back in the firmware, after at most 36
/// requests, and does to the firmware what `boot_outcome` says.
pub proof fn law_boot(
    image_handle: EfiHandle,
    system_table: Option<EfiSystemTable>,
    map_buffer: u64,
    firmware: Firmware,
)
    ensures
        ({
            let (after, result) = boot_outcome(image_handle, system_table, map_buffer, firmware);
            run_loader(
                boot_start(image_handle, system_table, map_buffer),
                firmware,
                36,
            ) == (after, Some(result))
        }),
{
    reveal_with_fuel(run_loader, 2);
    let entered = firmware.logged(LogRecord::Line("hypewwisoww: UEFI entry"));
    let made = new_loader_result(image_handle, system_table, entered);
    law_new_loader(image_handle, system_table, entered);
    if let Ok(loader) = made {
        let start = PrepareStep::Ask {
            state: Prepare::Stack,
            request: FirmwareRequest::AllocatePages { pages: STACK_PAGES },
        };
        law_prepare(entered);
        let (after, taken) = prepare_outcome(entered);
        lemma_after_prepare(loader, map_buffer, taken, after);
        lemma_preparing(loader, map_buffer, start, entered, 8, 26);
    }
    lemma_making(map_buffer, new_loader_start(image_handle, system_table), entered, 1, 34);
}

} // verus!
