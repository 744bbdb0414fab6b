//! The core's last stage: the host's page tables come into use, the processor
//! enters VMX operation, and the guest is launched.

use crate::arch::x86_64::instructions::{
    answers, lemma_more_fuel, run, Procedure, Processor, Reply, Request, Step,
};
use crate::arch::x86_64::launch::{
    law_launch, launch_outcome, launch_writes, lemma_write_all_frame,
};
use crate::arch::x86_64::paging::HostPageTables;
use crate::arch::x86_64::vm::{
    instruction_error, launch, launch_start, launch_step_view, InstructionError,
    InstructionErrorStep, Launch, LaunchStep, LaunchView, LaunchViewStep, VmError, VmResources,
    VmResourcesView,
};
use crate::arch::x86_64::vmcs::VM_INSTRUCTION_ERROR;
use crate::arch::x86_64::vmx::{
    enter_root, enter_root_outcome, law_enter_root, leave_root, EnterRoot, EnterRootStep, VmxError,
    VmxInfo, CPUID_FEATURES,
};
use crate::serial::LogRecord;
use vstd::prelude::*;

verus! {

/// How far the last stage has come: what has been asked for, and what is known
/// so far.
#[derive(Debug)]
pub enum GuestStart {
    Cr0 { tables: HostPageTables, resources: VmResources, region: u64 },
    Cr0Written { root: u64, resources: VmResources, region: u64 },
    Cr3Written { resources: VmResources, region: u64 },
    Active { resources: VmResources, region: u64 },
    Entering { resources: VmResources, entry: EnterRoot },
    RevisionLogged { resources: VmResources, info: VmxInfo },
    LaunchLogged { resources: VmResources, info: VmxInfo },
    Launching { launch: Launch },
    LaunchFailed,
    Asking { question: InstructionError },
    InstructionErrorLogged,
    Off,
    EntryFailed { error: VmxError },
    EntryErrorLogged,
}

/// The last stage, as far as statements about it are concerned.
pub ghost enum GuestStartView {
    Cr0 { root: u64, resources: VmResourcesView, region: u64 },
    Cr0Written { root: u64, resources: VmResourcesView, region: u64 },
    Cr3Written { resources: VmResourcesView, region: u64 },
    Active { resources: VmResourcesView, region: u64 },
    Entering { resources: VmResourcesView, entry: EnterRoot },
    RevisionLogged { resources: VmResourcesView, info: VmxInfo },
    LaunchLogged { resources: VmResourcesView, info: VmxInfo },
    Launching { launch: LaunchView },
    LaunchFailed,
    Asking { question: InstructionError },
    InstructionErrorLogged,
    Off,
    EntryFailed { error: VmxError },
    EntryErrorLogged,
}

impl View for GuestStart {
    type V = GuestStartView;

    open spec fn view(&self) -> GuestStartView {
        match *self {
            GuestStart::Cr0 { tables, resources, region } => GuestStartView::Cr0 {
                root: tables.top(),
                resources: resources@,
                region,
            },
            GuestStart::Cr0Written { root, resources, region } => GuestStartView::Cr0Written {
                root,
                resources: resources@,
                region,
            },
            GuestStart::Cr3Written { resources, region } => GuestStartView::Cr3Written {
                resources: resources@,
                region,
            },
            GuestStart::Active { resources, region } => GuestStartView::Active {
                resources: resources@,
                region,
            },
            GuestStart::Entering { resources, entry } => GuestStartView::Entering {
                resources: resources@,
                entry,
            },
            GuestStart::RevisionLogged { resources, info } => GuestStartView::RevisionLogged {
                resources: resources@,
                info,
            },
            GuestStart::LaunchLogged { resources, info } => GuestStartView::LaunchLogged {
                resources: resources@,
                info,
            },
            GuestStart::Launching { launch } => GuestStartView::Launching { launch: launch@ },
            GuestStart::LaunchFailed => GuestStartView::LaunchFailed,
            GuestStart::Asking { question } => GuestStartView::Asking { question },
            GuestStart::InstructionErrorLogged => GuestStartView::InstructionErrorLogged,
            GuestStart::Off => GuestStartView::Off,
            GuestStart::EntryFailed { error } => GuestStartView::EntryFailed { error },
            GuestStart::EntryErrorLogged => GuestStartView::EntryErrorLogged,
        }
    }
}

/// The stage finishes when there is nothing left to do but to halt.
pub type GuestStartStep = Step<GuestStart, ()>;

/// A step of the stage, as far as statements about it are concerned.
pub type GuestStartViewStep = Step<GuestStartView, ()>;

/// A step of the stage, as far as statements about it are concerned.
pub open spec fn guest_start_step_view(step: GuestStartStep) -> GuestStartViewStep {
    match step {
        Step::Ask { state, request } => Step::Ask { state: state@, request },
        Step::Finished { result } => Step::Finished { result },
    }
}

/// The step that logs a message before the next state.
pub open spec fn log_step(state: GuestStartView, record: LogRecord) -> GuestStartViewStep {
    Step::Ask { state, request: Request::Log { record } }
}

/// A step of entering VMX operation, as a step of the stage.
pub open spec fn entering(resources: VmResourcesView, step: EnterRootStep) -> GuestStartViewStep {
    match step {
        Step::Ask { state, request } => Step::Ask {
            state: GuestStartView::Entering { resources, entry: state },
            request,
        },
        Step::Finished { result } => match result {
            Ok(info) => log_step(
                GuestStartView::RevisionLogged { resources, info },
                LogRecord::Hex(
                    "hypewwisoww: VMX root active, revision=",
                    info.revision_id as u64,
                ),
            ),
            Err(error) => log_step(
                GuestStartView::EntryFailed { error },
                LogRecord::Line("hypewwisoww: VMX entry failed"),
            ),
        },
    }
}

/// A step of the launch, as a step of the stage.
pub open spec fn launching(step: LaunchViewStep) -> GuestStartViewStep {
    match step {
        Step::Ask { state, request } => Step::Ask {
            state: GuestStartView::Launching { launch: state },
            request,
        },
        Step::Finished { result } => match result {
            Ok(()) => Step::Finished { result: () },
            Err(error) => log_step(
                GuestStartView::LaunchFailed,
                LogRecord::Hex("hypewwisoww: VMLAUNCH path failed=", error.number()),
            ),
        },
    }
}

/// The step that leaves VMX operation.
pub open spec fn leaving() -> GuestStartViewStep {
    Step::Ask { state: GuestStartView::Off, request: Request::Vmxoff }
}

/// A step of asking for the reason of a failure, as a step of the stage.
pub open spec fn asking(step: InstructionErrorStep) -> GuestStartViewStep {
    match step {
        Step::Ask { state, request } => Step::Ask {
            state: GuestStartView::Asking { question: state },
            request,
        },
        Step::Finished { result } => match result {
            Some(error) => log_step(
                GuestStartView::InstructionErrorLogged,
                LogRecord::Hex("hypewwisoww: VM-instruction error=", error),
            ),
            None => leaving(),
        },
    }
}

impl Procedure for GuestStartView {
    type Output = ();

    open spec fn advance(self, reply: Reply) -> GuestStartViewStep {
        match self {
            GuestStartView::Cr0 { root, resources, region } => Step::Ask {
                state: GuestStartView::Cr0Written { root, resources, region },
                request: Request::WriteCr0 { value: reply->Value_value | 0x1_0000u64 },
            },
            GuestStartView::Cr0Written { root, resources, region } => Step::Ask {
                state: GuestStartView::Cr3Written { resources, region },
                request: Request::WriteCr3 { value: root },
            },
            GuestStartView::Cr3Written { resources, region } => log_step(
                GuestStartView::Active { resources, region },
                LogRecord::Line("hypewwisoww: host-owned page tables active"),
            ),
            GuestStartView::Active { resources, region } => entering(
                resources,
                Step::Ask {
                    state: EnterRoot::Features { region },
                    request: Request::Cpuid { leaf: CPUID_FEATURES, subleaf: 0 },
                },
            ),
            GuestStartView::Entering { resources, entry } => entering(
                resources,
                entry.advance(reply),
            ),
            GuestStartView::RevisionLogged { resources, info } => log_step(
                GuestStartView::LaunchLogged { resources, info },
                LogRecord::Line("hypewwisoww: launching EPT-backed 64-bit validation guest"),
            ),
            GuestStartView::LaunchLogged { resources, info } => launching(
                launch_start(resources, info),
            ),
            GuestStartView::Launching { launch } => launching(launch.advance(reply)),
            GuestStartView::LaunchFailed => asking(
                Step::Ask {
                    state: InstructionError,
                    request: Request::Vmread { field: VM_INSTRUCTION_ERROR },
                },
            ),
            GuestStartView::Asking { question } => asking(question.advance(reply)),
            GuestStartView::InstructionErrorLogged => leaving(),
            GuestStartView::Off => Step::Finished { result: () },
            GuestStartView::EntryFailed { error } => log_step(
                GuestStartView::EntryErrorLogged,
                LogRecord::Hex("hypewwisoww: VMX error=", error.number()),
            ),
            GuestStartView::EntryErrorLogged => Step::Finished { result: () },
        }
    }
}

impl GuestStartView {
    /// The reply is of the kind that the state waits for.
    pub open spec fn expects(self, reply: Reply) -> bool {
        match self {
            GuestStartView::Cr0 { .. } => reply is Value,
            GuestStartView::Entering { entry, .. } => entry.expects(reply),
            GuestStartView::Launching { launch } => launch.expects(reply),
            GuestStartView::Asking { question } => question.expects(reply),
            _ => reply is Done,
        }
    }
}

impl GuestStart {
    /// A launch that is under way is well-formed.
    pub open spec fn wf(&self) -> bool {
        match *self {
            GuestStart::Launching { launch } => launch.wf(),
            _ => true,
        }
    }

    fn log(state: GuestStart, record: LogRecord) -> (step: GuestStartStep)
        requires
            state.wf(),
        ensures
            guest_start_step_view(step) == log_step(state@, record),
            step matches Step::Ask { state, .. } && state.wf(),
    {
        Step::Ask { state, request: Request::Log { record } }
    }

    fn enter(resources: VmResources, step: EnterRootStep) -> (next: GuestStartStep)
        ensures
            guest_start_step_view(next) == entering(resources@, step),
            next matches Step::Ask { state, .. } && state.wf(),
    {
        match step {
            Step::Ask { state, request } => Step::Ask {
                state: GuestStart::Entering { resources, entry: state },
                request,
            },
            Step::Finished { result } => match result {
                Ok(info) => GuestStart::log(
                    GuestStart::RevisionLogged { resources, info },
                    LogRecord::Hex(
                        "hypewwisoww: VMX root active, revision=",
                        info.revision_id as u64,
                    ),
                ),
                Err(error) => GuestStart::log(
                    GuestStart::EntryFailed { error },
                    LogRecord::Line("hypewwisoww: VMX entry failed"),
                ),
            },
        }
    }

    fn launch(step: LaunchStep) -> (next: GuestStartStep)
        requires
            step matches Step::Ask { state, .. } ==> state.wf(),
        ensures
            guest_start_step_view(next) == launching(launch_step_view(step)),
            next matches Step::Ask { state, .. } ==> state.wf(),
    {
        match step {
            Step::Ask { state, request } => Step::Ask {
                state: GuestStart::Launching { launch: state },
                request,
            },
            Step::Finished { result } => match result {
                Ok(()) => Step::Finished { result: () },
                Err(error) => GuestStart::log(
                    GuestStart::LaunchFailed,
                    LogRecord::Hex("hypewwisoww: VMLAUNCH path failed=", error.code()),
                ),
            },
        }
    }

    fn ask(step: InstructionErrorStep) -> (next: GuestStartStep)
        ensures
            guest_start_step_view(next) == asking(step),
            next matches Step::Ask { state, .. } ==> state.wf(),
    {
        match step {
            Step::Ask { state, request } => Step::Ask {
                state: GuestStart::Asking { question: state },
                request,
            },
            Step::Finished { result } => match result {
                Some(error) => GuestStart::log(
                    GuestStart::InstructionErrorLogged,
                    LogRecord::Hex("hypewwisoww: VM-instruction error=", error),
                ),
                None => Step::Ask { state: GuestStart::Off, request: leave_root() },
            },
        }
    }

    /// Goes on with the reply to what was asked for.
    pub fn next(self, reply: Reply) -> (step: GuestStartStep)
        requires
            self.wf(),
            self@.expects(reply),
        ensures
            guest_start_step_view(step) == self@.advance(reply),
            step matches Step::Ask { state, request } ==> state.wf() && forall|answer: Reply|
                answers(answer, request) ==> #[trigger] state@.expects(answer),
    {
        match self {
            GuestStart::Cr0 { tables, resources, region } => {
                let (cr0, root) = tables.activate(reply.value());
                Step::Ask {
                    state: GuestStart::Cr0Written { root, resources, region },
                    request: Request::WriteCr0 { value: cr0 },
                }
            },
            GuestStart::Cr0Written { root, resources, region } => Step::Ask {
                state: GuestStart::Cr3Written { resources, region },
                request: Request::WriteCr3 { value: root },
            },
            GuestStart::Cr3Written { resources, region } => GuestStart::log(
                GuestStart::Active { resources, region },
                LogRecord::Line("hypewwisoww: host-owned page tables active"),
            ),
            GuestStart::Active { resources, region } => GuestStart::enter(
                resources,
                enter_root(region),
            ),
            GuestStart::Entering { resources, entry } => GuestStart::enter(
                resources,
                entry.next(reply),
            ),
            GuestStart::RevisionLogged { resources, info } => GuestStart::log(
                GuestStart::LaunchLogged { resources, info },
                LogRecord::Line("hypewwisoww: launching EPT-backed 64-bit validation guest"),
            ),
            GuestStart::LaunchLogged { resources, info } => GuestStart::launch(
                launch(&resources, info),
            ),
            GuestStart::Launching { launch } => GuestStart::launch(launch.next(reply)),
            GuestStart::LaunchFailed => GuestStart::ask(instruction_error()),
            GuestStart::Asking { question } => GuestStart::ask(question.next(reply)),
            GuestStart::InstructionErrorLogged => Step::Ask {
                state: GuestStart::Off,
                request: leave_root(),
            },
            GuestStart::Off => Step::Finished { result: () },
            GuestStart::EntryFailed { error } => GuestStart::log(
                GuestStart::EntryErrorLogged,
                LogRecord::Hex("hypewwisoww: VMX error=", error.code()),
            ),
            GuestStart::EntryErrorLogged => Step::Finished { result: () },
        }
    }
}

/// The step that the last stage begins with.
pub open spec fn guest_start(
    root: u64,
    resources: VmResourcesView,
    region: u64,
) -> GuestStartViewStep {
    Step::Ask {
        state: GuestStartView::Cr0 { root, resources, region },
        request: Request::ReadCr0,
    }
}

/// Starts the last stage: the host's page tables `tables`, the virtual machine
/// `resources`, and the page at `vmxon_region` for VMX operation.
pub fn start_guest(tables: HostPageTables, resources: VmResources, vmxon_region: u64) -> (step:
    GuestStartStep)
    ensures
        guest_start_step_view(step) == guest_start(tables.top(), resources@, vmxon_region),
        step matches Step::Ask { state, .. } ==> state.wf(),
{
    Step::Ask {
        state: GuestStart::Cr0 { tables, resources, region: vmxon_region },
        request: Request::ReadCr0,
    }
}

/// What the processor has after the host's page tables came into use.
pub open spec fn activated(root: u64, processor: Processor) -> Processor {
    (Processor { cr0: processor.cr0 | 0x1_0000u64, cr3: root, ..processor }).logged(
        LogRecord::Line("hypewwisoww: host-owned page tables active"),
    )
}

/// The processor after a launch that failed with `error`.
pub open spec fn launch_failed(error: VmError, processor: Processor) -> Processor {
    let first = processor.logged(
        LogRecord::Hex("hypewwisoww: VMLAUNCH path failed=", error.number()),
    );
    let second = if (processor.fails)(Request::Vmread { field: VM_INSTRUCTION_ERROR }) {
        first
    } else {
        first.logged(
            LogRecord::Hex(
                "hypewwisoww: VM-instruction error=",
                processor.vmcs[VM_INSTRUCTION_ERROR],
            ),
        )
    };
    Processor { vmx_on: false, ..second }
}

/// The processor after VMX operation was entered and the guest launched, or
/// the first of the two failed.
pub open spec fn after_entry(
    resources: VmResourcesView,
    entered: Result<VmxInfo, VmxError>,
    processor: Processor,
) -> Processor {
    match entered {
        Ok(info) => {
            let ready = processor.logged(
                LogRecord::Hex(
                    "hypewwisoww: VMX root active, revision=",
                    info.revision_id as u64,
                ),
            ).logged(
                LogRecord::Line("hypewwisoww: launching EPT-backed 64-bit validation guest"),
            );
            match launch_outcome(resources, info, ready) {
                (launched, Ok(())) => launched,
                (unlaunched, Err(error)) => launch_failed(error, unlaunched),
            }
        },
        Err(error) => processor.logged(LogRecord::Line("hypewwisoww: VMX entry failed")).logged(
            LogRecord::Hex("hypewwisoww: VMX error=", error.number()),
        ),
    }
}

/// What the last stage does to a processor.
pub open spec fn guest_start_outcome(
    root: u64,
    resources: VmResourcesView,
    region: u64,
    processor: Processor,
) -> Processor {
    let (after, entered) = enter_root_outcome(region, activated(root, processor));
    after_entry(resources, entered, after)
}

/// The part of the stage that enters VMX operation.
proof fn lemma_entering(
    resources: VmResourcesView,
    step: EnterRootStep,
    processor: Processor,
    fuel: nat,
    rest: nat,
)
    requires
        run(step, processor, fuel).1 is Some,
        ({
            let (after, result) = run(step, processor, fuel);
            run(entering(resources, Step::Finished { result: result->0 }), after, rest).1 is Some
        }),
    ensures
        ({
            let (after, result) = run(step, processor, fuel);
            run(entering(resources, step), processor, fuel + rest) == run(
                entering(resources, Step::Finished { result: result->0 }),
                after,
                rest,
            )
        }),
    decreases fuel,
{
    match step {
        Step::Finished { result } => {
            lemma_more_fuel(entering(resources, step), processor, rest, fuel + rest);
        },
        Step::Ask { state, request } => {
            let (next, reply) = processor.perform(request);
            lemma_entering(resources, state.advance(reply), next, (fuel - 1) as nat, rest);
        },
    }
}

/// The part of the stage that launches the guest.
proof fn lemma_launching(step: LaunchViewStep, processor: Processor, fuel: nat, rest: nat)
    requires
        run(step, processor, fuel).1 is Some,
        ({
            let (after, result) = run(step, processor, fuel);
            run(launching(Step::Finished { result: result->0 }), after, rest).1 is Some
        }),
    ensures
        ({
            let (after, result) = run(step, processor, fuel);
            run(launching(step), processor, fuel + rest) == run(
                launching(Step::Finished { result: result->0 }),
                after,
                rest,
            )
        }),
    decreases fuel,
{
    match step {
        Step::Finished { result } => {
            lemma_more_fuel(launching(step), processor, rest, fuel + rest);
        },
        Step::Ask { state, request } => {
            let (next, reply) = processor.perform(request);
            lemma_launching(state.advance(reply), next, (fuel - 1) as nat, rest);
        },
    }
}

/// The part of the stage after the launch.
proof fn lemma_after_launch(result: Result<(), VmError>, processor: Processor)
    ensures
        run(launching(Step::Finished { result }), processor, 4) == (
            match result {
                Ok(()) => processor,
                Err(error) => launch_failed(error, processor),
            },
            Some(()),
        ),
{
    reveal_with_fuel(run, 5);
}

/// The part of the stage after VMX operation was entered, or not.
proof fn lemma_after_entry(
    resources: VmResourcesView,
    entered: Result<VmxInfo, VmxError>,
    processor: Processor,
)
    ensures
        run(entering(resources, Step::Finished { result: entered }), processor, 123) == (
            after_entry(resources, entered, processor),
            Some(()),
        ),
{
    reveal_with_fuel(run, 3);
    if let Ok(info) = entered {
        let ready = processor.logged(
            LogRecord::Hex("hypewwisoww: VMX root active, revision=", info.revision_id as u64),
        ).logged(LogRecord::Line("hypewwisoww: launching EPT-backed 64-bit validation guest"));
        law_launch(resources, info, ready);
        let (after, result) = launch_outcome(resources, info, ready);
        lemma_after_launch(result, after);
        lemma_launching(launch_start(resources, info), ready, 117, 4);
    }
}

/// The last stage ends after at most 143 requests, and does to the processor
/// what `guest_start_outcome` says.
pub proof fn law_guest_start(
    root: u64,
    resources: VmResourcesView,
    region: u64,
    processor: Processor,
)
    ensures
        run(guest_start(root, resources, region), processor, 143) == (
            guest_start_outcome(root, resources, region, processor),
            Some(()),
        ),
{
    reveal_with_fuel(run, 5);
    let active = activated(root, processor);
    let start = EnterRootStep::Ask {
        state: EnterRoot::Features { region },
        request: Request::Cpuid { leaf: CPUID_FEATURES, subleaf: 0 },
    };
    law_enter_root(region, active);
    let (after, entered) = enter_root_outcome(region, active);
    lemma_after_entry(resources, entered, after);
    lemma_entering(resources, start, active, 16, 123);
}

/// When the last stage is over, the processor is in VMX operation only if the
/// guest was launched.
pub proof fn law_failure_leaves_vmx_operation(
    root: u64,
    resources: VmResourcesView,
    region: u64,
    processor: Processor,
)
    requires
        !processor.vmx_on,
        !processor.launched,
    ensures
        ({
            let after = guest_start_outcome(root, resources, region, processor);
            after.vmx_on <==> after.launched
        }),
{
    let (after, entered) = enter_root_outcome(region, activated(root, processor));
    if let Ok(info) = entered {
        let ready = after.logged(
            LogRecord::Hex("hypewwisoww: VMX root active, revision=", info.revision_id as u64),
        ).logged(LogRecord::Line("hypewwisoww: launching EPT-backed 64-bit validation guest"));
        lemma_launch_keeps_vmx(resources, info, ready);
    }
}

/// A launch leaves VMX operation as it is, and the guest is launched just when
/// it succeeds.
proof fn lemma_launch_keeps_vmx(resources: VmResourcesView, info: VmxInfo, processor: Processor)
    requires
        !processor.launched,
    ensures
        ({
            let (after, result) = launch_outcome(resources, info, processor);
            &&& after.vmx_on == processor.vmx_on
            &&& after.launched <==> result is Ok
        }),
{
    let stored = Processor {
        stored: processor.stored.insert(resources.vmcs, info.revision_id),
        ..processor
    };
    lemma_write_all_frame(stored, launch_writes(resources, info, processor));
}

} // verus!
