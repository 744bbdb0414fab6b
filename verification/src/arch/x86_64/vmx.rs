//! Entering and leaving VMX operation.

use crate::arch::x86_64::instructions::{answers, run, Procedure, Processor, Reply, Request, Step};
use crate::arch::x86_64::launch_laws::{is_within, lemma_registers};
use vstd::prelude::*;

verus! {

pub const CPUID_FEATURES: u32 = 1;

pub const CPUID_ECX_VMX: u32 = 0x20;

pub const IA32_FEATURE_CONTROL: u32 = 0x3a;

pub const FEATURE_CONTROL_LOCK: u64 = 0x1;

pub const FEATURE_CONTROL_VMX_OUTSIDE_SMX: u64 = 0x4;

pub const IA32_VMX_BASIC: u32 = 0x480;

pub const IA32_VMX_CR0_FIXED0: u32 = 0x486;

pub const IA32_VMX_CR0_FIXED1: u32 = 0x487;

pub const IA32_VMX_CR4_FIXED0: u32 = 0x488;

pub const IA32_VMX_CR4_FIXED1: u32 = 0x489;

pub const CR4_VMXE: u64 = 0x2000;

pub const VMX_MEMORY_TYPE_WRITE_BACK: u64 = 6;

/// The bit of the basic information that lets regions lie above 4 GiB.
pub const BASIC_WIDE_ADDRESSES: u64 = 0x1_0000_0000_0000;

/// The bit of the basic information that says that there are true controls.
pub const BASIC_TRUE_CONTROLS: u64 = 0x80_0000_0000_0000;

/// Why VMX operation cannot be entered.
#[derive(Clone, Copy, Debug, PartialEq, Eq, Structural)]
pub enum VmxError {
    Unsupported,
    FirmwareDisabled,
    InvalidBasicMsr,
    RegionMisaligned,
    InstructionFailed,
    RegionAddressWidth,
}

impl VmxError {
    /// The number under which the error is logged.
    pub open spec fn number(self) -> u64 {
        match self {
            VmxError::Unsupported => 1u64,
            VmxError::FirmwareDisabled => 2u64,
            VmxError::InvalidBasicMsr => 3u64,
            VmxError::RegionMisaligned => 4u64,
            VmxError::InstructionFailed => 5u64,
            VmxError::RegionAddressWidth => 6u64,
        }
    }

    /// The number under which the error is logged.
    pub fn code(self) -> (number: u64)
        ensures
            number == self.number(),
    {
        match self {
            VmxError::Unsupported => 1,
            VmxError::FirmwareDisabled => 2,
            VmxError::InvalidBasicMsr => 3,
            VmxError::RegionMisaligned => 4,
            VmxError::InstructionFailed => 5,
            VmxError::RegionAddressWidth => 6,
        }
    }
}

/// What is known of the processor's virtualisation once it is on.
#[derive(Clone, Copy, Debug, PartialEq, Eq, Structural)]
pub struct VmxInfo {
    pub revision_id: u32,
    pub true_controls: bool,
    pub wide_physical_addresses: bool,
}

/// What the basic information register says.
pub open spec fn basic_info(basic: u64) -> VmxInfo {
    VmxInfo {
        revision_id: (basic & 0x7fff_ffff) as u32,
        true_controls: basic & BASIC_TRUE_CONTROLS != 0,
        wide_physical_addresses: basic & BASIC_WIDE_ADDRESSES != 0,
    }
}

/// Why a region cannot be used with what the basic information register says,
/// if it cannot.
pub open spec fn basic_error(basic: u64, region: u64) -> Option<VmxError> {
    let size = (basic >> 32) & 0x1fff;
    let memory_type = (basic >> 50) & 0x0f;
    if size == 0 || size > 4096 || memory_type != VMX_MEMORY_TYPE_WRITE_BACK {
        Some(VmxError::InvalidBasicMsr)
    } else if !basic_info(basic).wide_physical_addresses && region > u32::MAX {
        Some(VmxError::RegionAddressWidth)
    } else {
        None
    }
}

/// How far entering VMX operation has come: what has been asked for, and what
/// is known so far.
#[derive(Clone, Copy, Debug, PartialEq, Eq, Structural)]
pub enum EnterRoot {
    Features { region: u64 },
    FeatureControl { region: u64 },
    FeatureControlWritten { region: u64 },
    Basic { region: u64 },
    Zeroed { region: u64, basic: u64 },
    RevisionStored { region: u64, basic: u64 },
    Cr0Fixed0 { region: u64, basic: u64 },
    Cr0Fixed1 { region: u64, basic: u64, cr0_fixed0: u64 },
    Cr4Fixed0 { region: u64, basic: u64, cr0_fixed0: u64, cr0_fixed1: u64 },
    Cr4Fixed1 { region: u64, basic: u64, cr0_fixed0: u64, cr0_fixed1: u64, cr4_fixed0: u64 },
    Cr0 {
        region: u64,
        basic: u64,
        cr0_fixed0: u64,
        cr0_fixed1: u64,
        cr4_fixed0: u64,
        cr4_fixed1: u64,
    },
    Cr4 { region: u64, basic: u64, cr0: u64, cr4_fixed0: u64, cr4_fixed1: u64 },
    Cr0Written { region: u64, basic: u64, cr4: u64 },
    Cr4Written { region: u64, basic: u64 },
    Vmxon { basic: u64 },
}

/// A step of entering VMX operation.
pub type EnterRootStep = Step<EnterRoot, Result<VmxInfo, VmxError>>;

impl EnterRoot {
    /// The reply is of the kind that the state waits for.
    pub open spec fn expects(self, reply: Reply) -> bool {
        match self {
            EnterRoot::Features { .. } => reply is Cpuid,
            EnterRoot::FeatureControlWritten { .. }
            | EnterRoot::Zeroed { .. }
            | EnterRoot::RevisionStored { .. }
            | EnterRoot::Cr0Written { .. }
            | EnterRoot::Cr4Written { .. } => reply is Done,
            EnterRoot::Vmxon { .. } => reply is Status,
            _ => reply is Value,
        }
    }

    /// Goes on with the reply to what was asked for.
    pub fn next(self, reply: Reply) -> (step: EnterRootStep)
        requires
            self.expects(reply),
        ensures
            step == self.advance(reply),
            step matches Step::Ask { state, request } ==> forall|answer: Reply|
                answers(answer, request) ==> #[trigger] state.expects(answer),
    {
        match self {
            EnterRoot::Features { region } => {
                proof {
                    crate::boot_alloc::lemma_page_mask(region);
                }
                if reply.cpuid().ecx & CPUID_ECX_VMX == 0 {
                    return Step::Finished { result: Err(VmxError::Unsupported) };
                }
                if region & 0xfff != 0 {
                    return Step::Finished { result: Err(VmxError::RegionMisaligned) };
                }
                Step::Ask {
                    state: EnterRoot::FeatureControl { region },
                    request: Request::Rdmsr { msr: IA32_FEATURE_CONTROL },
                }
            },
            EnterRoot::FeatureControl { region } => {
                let feature_control: u64 = reply.value();
                if feature_control & FEATURE_CONTROL_LOCK != 0 {
                    if feature_control & FEATURE_CONTROL_VMX_OUTSIDE_SMX == 0 {
                        return Step::Finished { result: Err(VmxError::FirmwareDisabled) };
                    }
                    Step::Ask {
                        state: EnterRoot::Basic { region },
                        request: Request::Rdmsr { msr: IA32_VMX_BASIC },
                    }
                } else {
                    Step::Ask {
                        state: EnterRoot::FeatureControlWritten { region },
                        request: Request::Wrmsr {
                            msr: IA32_FEATURE_CONTROL,
                            value: feature_control | (FEATURE_CONTROL_LOCK
                                | FEATURE_CONTROL_VMX_OUTSIDE_SMX),
                        },
                    }
                }
            },
            EnterRoot::FeatureControlWritten { region } => Step::Ask {
                state: EnterRoot::Basic { region },
                request: Request::Rdmsr { msr: IA32_VMX_BASIC },
            },
            EnterRoot::Basic { region } => {
                let basic: u64 = reply.value();
                match check_basic(basic, region) {
                    Err(error) => Step::Finished { result: Err(error) },
                    Ok(()) => Step::Ask {
                        state: EnterRoot::Zeroed { region, basic },
                        request: Request::ZeroPage { address: region },
                    },
                }
            },
            EnterRoot::Zeroed { region, basic } => Step::Ask {
                state: EnterRoot::RevisionStored { region, basic },
                request: Request::StoreU32 {
                    address: region,
                    word: read_basic(basic).revision_id,
                },
            },
            EnterRoot::RevisionStored { region, basic } => Step::Ask {
                state: EnterRoot::Cr0Fixed0 { region, basic },
                request: Request::Rdmsr { msr: IA32_VMX_CR0_FIXED0 },
            },
            EnterRoot::Cr0Fixed0 { region, basic } => Step::Ask {
                state: EnterRoot::Cr0Fixed1 { region, basic, cr0_fixed0: reply.value() },
                request: Request::Rdmsr { msr: IA32_VMX_CR0_FIXED1 },
            },
            EnterRoot::Cr0Fixed1 { region, basic, cr0_fixed0 } => Step::Ask {
                state: EnterRoot::Cr4Fixed0 {
                    region,
                    basic,
                    cr0_fixed0,
                    cr0_fixed1: reply.value(),
                },
                request: Request::Rdmsr { msr: IA32_VMX_CR4_FIXED0 },
            },
            EnterRoot::Cr4Fixed0 { region, basic, cr0_fixed0, cr0_fixed1 } => Step::Ask {
                state: EnterRoot::Cr4Fixed1 {
                    region,
                    basic,
                    cr0_fixed0,
                    cr0_fixed1,
                    cr4_fixed0: reply.value(),
                },
                request: Request::Rdmsr { msr: IA32_VMX_CR4_FIXED1 },
            },
            EnterRoot::Cr4Fixed1 { region, basic, cr0_fixed0, cr0_fixed1, cr4_fixed0 } => Step::Ask {
                state: EnterRoot::Cr0 {
                    region,
                    basic,
                    cr0_fixed0,
                    cr0_fixed1,
                    cr4_fixed0,
                    cr4_fixed1: reply.value(),
                },
                request: Request::ReadCr0,
            },
            EnterRoot::Cr0 { region, basic, cr0_fixed0, cr0_fixed1, cr4_fixed0, cr4_fixed1 } => {
                let cr0: u64 = (reply.value() | cr0_fixed0) & cr0_fixed1;
                Step::Ask {
                    state: EnterRoot::Cr4 { region, basic, cr0, cr4_fixed0, cr4_fixed1 },
                    request: Request::ReadCr4,
                }
            },
            EnterRoot::Cr4 { region, basic, cr0, cr4_fixed0, cr4_fixed1 } => {
                let cr4: u64 = (reply.value() | cr4_fixed0 | CR4_VMXE) & cr4_fixed1;
                Step::Ask {
                    state: EnterRoot::Cr0Written { region, basic, cr4 },
                    request: Request::WriteCr0 { value: cr0 },
                }
            },
            EnterRoot::Cr0Written { region, basic, cr4 } => Step::Ask {
                state: EnterRoot::Cr4Written { region, basic },
                request: Request::WriteCr4 { value: cr4 },
            },
            EnterRoot::Cr4Written { region, basic } => Step::Ask {
                state: EnterRoot::Vmxon { basic },
                request: Request::Vmxon { region },
            },
            EnterRoot::Vmxon { basic } => {
                if reply.failed() != 0 {
                    return Step::Finished { result: Err(VmxError::InstructionFailed) };
                }
                Step::Finished { result: Ok(read_basic(basic)) }
            },
        }
    }
}

impl Procedure for EnterRoot {
    type Output = Result<VmxInfo, VmxError>;

    open spec fn advance(self, reply: Reply) -> EnterRootStep {
        let value = reply->Value_value;
        match self {
            EnterRoot::Features { region } => if reply->result.ecx & CPUID_ECX_VMX == 0 {
                Step::Finished { result: Err(VmxError::Unsupported) }
            } else if region % 4096 != 0 {
                Step::Finished { result: Err(VmxError::RegionMisaligned) }
            } else {
                Step::Ask {
                    state: EnterRoot::FeatureControl { region },
                    request: Request::Rdmsr { msr: IA32_FEATURE_CONTROL },
                }
            },
            EnterRoot::FeatureControl { region } => if value & FEATURE_CONTROL_LOCK == 0 {
                Step::Ask {
                    state: EnterRoot::FeatureControlWritten { region },
                    request: Request::Wrmsr {
                        msr: IA32_FEATURE_CONTROL,
                        value: value | (FEATURE_CONTROL_LOCK | FEATURE_CONTROL_VMX_OUTSIDE_SMX),
                    },
                }
            } else if value & FEATURE_CONTROL_VMX_OUTSIDE_SMX == 0 {
                Step::Finished { result: Err(VmxError::FirmwareDisabled) }
            } else {
                Step::Ask {
                    state: EnterRoot::Basic { region },
                    request: Request::Rdmsr { msr: IA32_VMX_BASIC },
                }
            },
            EnterRoot::FeatureControlWritten { region } => Step::Ask {
                state: EnterRoot::Basic { region },
                request: Request::Rdmsr { msr: IA32_VMX_BASIC },
            },
            EnterRoot::Basic { region } => match basic_error(value, region) {
                Some(error) => Step::Finished { result: Err(error) },
                None => Step::Ask {
                    state: EnterRoot::Zeroed { region, basic: value },
                    request: Request::ZeroPage { address: region },
                },
            },
            EnterRoot::Zeroed { region, basic } => Step::Ask {
                state: EnterRoot::RevisionStored { region, basic },
                request: Request::StoreU32 {
                    address: region,
                    word: basic_info(basic).revision_id,
                },
            },
            EnterRoot::RevisionStored { region, basic } => Step::Ask {
                state: EnterRoot::Cr0Fixed0 { region, basic },
                request: Request::Rdmsr { msr: IA32_VMX_CR0_FIXED0 },
            },
            EnterRoot::Cr0Fixed0 { region, basic } => Step::Ask {
                state: EnterRoot::Cr0Fixed1 { region, basic, cr0_fixed0: value },
                request: Request::Rdmsr { msr: IA32_VMX_CR0_FIXED1 },
            },
            EnterRoot::Cr0Fixed1 { region, basic, cr0_fixed0 } => Step::Ask {
                state: EnterRoot::Cr4Fixed0 { region, basic, cr0_fixed0, cr0_fixed1: value },
                request: Request::Rdmsr { msr: IA32_VMX_CR4_FIXED0 },
            },
            EnterRoot::Cr4Fixed0 { region, basic, cr0_fixed0, cr0_fixed1 } => Step::Ask {
                state: EnterRoot::Cr4Fixed1 {
                    region,
                    basic,
                    cr0_fixed0,
                    cr0_fixed1,
                    cr4_fixed0: value,
                },
                request: Request::Rdmsr { msr: IA32_VMX_CR4_FIXED1 },
            },
            EnterRoot::Cr4Fixed1 { region, basic, cr0_fixed0, cr0_fixed1, cr4_fixed0 } => Step::Ask {
                state: EnterRoot::Cr0 {
                    region,
                    basic,
                    cr0_fixed0,
                    cr0_fixed1,
                    cr4_fixed0,
                    cr4_fixed1: value,
                },
                request: Request::ReadCr0,
            },
            EnterRoot::Cr0 { region, basic, cr0_fixed0, cr0_fixed1, cr4_fixed0, cr4_fixed1 } => {
                Step::Ask {
                    state: EnterRoot::Cr4 {
                        region,
                        basic,
                        cr0: (value | cr0_fixed0) & cr0_fixed1,
                        cr4_fixed0,
                        cr4_fixed1,
                    },
                    request: Request::ReadCr4,
                }
            },
            EnterRoot::Cr4 { region, basic, cr0, cr4_fixed0, cr4_fixed1 } => Step::Ask {
                state: EnterRoot::Cr0Written {
                    region,
                    basic,
                    cr4: (value | cr4_fixed0 | CR4_VMXE) & cr4_fixed1,
                },
                request: Request::WriteCr0 { value: cr0 },
            },
            EnterRoot::Cr0Written { region, basic, cr4 } => Step::Ask {
                state: EnterRoot::Cr4Written { region, basic },
                request: Request::WriteCr4 { value: cr4 },
            },
            EnterRoot::Cr4Written { region, basic } => Step::Ask {
                state: EnterRoot::Vmxon { basic },
                request: Request::Vmxon { region },
            },
            EnterRoot::Vmxon { basic } => Step::Finished {
                result: if reply->Status_failed != 0 {
                    Err(VmxError::InstructionFailed)
                } else {
                    Ok(basic_info(basic))
                },
            },
        }
    }
}

fn read_basic(basic: u64) -> (info: VmxInfo)
    ensures
        info == basic_info(basic),
{
    VmxInfo {
        revision_id: (basic & 0x7fff_ffff) as u32,
        true_controls: basic & BASIC_TRUE_CONTROLS != 0,
        wide_physical_addresses: basic & BASIC_WIDE_ADDRESSES != 0,
    }
}

fn check_basic(basic: u64, region: u64) -> (result: Result<(), VmxError>)
    ensures
        result.err() == basic_error(basic, region),
{
    let region_size: u64 = (basic >> 32) & 0x1fff;
    let memory_type: u64 = (basic >> 50) & 0x0f;
    if region_size == 0 || region_size > 4096 || memory_type != VMX_MEMORY_TYPE_WRITE_BACK {
        return Err(VmxError::InvalidBasicMsr);
    }
    if basic & BASIC_WIDE_ADDRESSES == 0 && region > u32::MAX as u64 {
        return Err(VmxError::RegionAddressWidth);
    }
    Ok(())
}

/// Starts to enter VMX operation with the page at `vmxon_region`.
pub fn enter_root(vmxon_region: u64) -> (step: EnterRootStep)
    ensures
        step == (EnterRootStep::Ask {
            state: EnterRoot::Features { region: vmxon_region },
            request: Request::Cpuid { leaf: CPUID_FEATURES, subleaf: 0 },
        }),
{
    Step::Ask {
        state: EnterRoot::Features { region: vmxon_region },
        request: Request::Cpuid { leaf: CPUID_FEATURES, subleaf: 0 },
    }
}

/// What leaves VMX operation.
pub fn leave_root() -> (request: Request)
    ensures
        request == Request::Vmxoff,
{
    Request::Vmxoff
}

/// What entering VMX operation does to a processor, and how it ends.
pub open spec fn enter_root_outcome(region: u64, processor: Processor) -> (
    Processor,
    Result<VmxInfo, VmxError>,
) {
    let control = processor.msrs[IA32_FEATURE_CONTROL];
    if (processor.cpuid)(CPUID_FEATURES, 0).ecx & CPUID_ECX_VMX == 0 {
        (processor, Err(VmxError::Unsupported))
    } else if region % 4096 != 0 {
        (processor, Err(VmxError::RegionMisaligned))
    } else if control & FEATURE_CONTROL_LOCK != 0 && control & FEATURE_CONTROL_VMX_OUTSIDE_SMX
        == 0 {
        (processor, Err(VmxError::FirmwareDisabled))
    } else {
        let allowed = if control & FEATURE_CONTROL_LOCK == 0 {
            Processor {
                msrs: processor.msrs.insert(
                    IA32_FEATURE_CONTROL,
                    control | (FEATURE_CONTROL_LOCK | FEATURE_CONTROL_VMX_OUTSIDE_SMX),
                ),
                ..processor
            }
        } else {
            processor
        };
        let msrs = allowed.msrs;
        let basic = msrs[IA32_VMX_BASIC];
        match basic_error(basic, region) {
            Some(error) => (allowed, Err(error)),
            None => {
                let ready = Processor {
                    zeroed: allowed.zeroed.insert(region),
                    stored: allowed.stored.insert(region, basic_info(basic).revision_id),
                    cr0: (allowed.cr0 | msrs[IA32_VMX_CR0_FIXED0]) & msrs[IA32_VMX_CR0_FIXED1],
                    cr4: (allowed.cr4 | msrs[IA32_VMX_CR4_FIXED0] | CR4_VMXE)
                        & msrs[IA32_VMX_CR4_FIXED1],
                    ..allowed
                };
                if (processor.fails)(Request::Vmxon { region }) {
                    (ready, Err(VmxError::InstructionFailed))
                } else {
                    (Processor { vmx_on: true, ..ready }, Ok(basic_info(basic)))
                }
            },
        }
    }
}

/// Entering VMX operation ends after at most sixteen requests, and does to the
/// processor what `enter_root_outcome` says.
pub proof fn law_enter_root(region: u64, processor: Processor)
    ensures
        ({
            let start = EnterRootStep::Ask {
                state: EnterRoot::Features { region },
                request: Request::Cpuid { leaf: CPUID_FEATURES, subleaf: 0 },
            };
            let (after, result) = enter_root_outcome(region, processor);
            run(start, processor, 16) == (after, Some(result))
        }),
{
    reveal_with_fuel(run, 17);
}

/// VMX operation is on only after it was entered without error, and the
/// registers that control it are changed only once all checks have passed.
pub proof fn law_refused_entry_changes_no_control_register(region: u64, processor: Processor)
    ensures
        ({
            let (after, result) = enter_root_outcome(region, processor);
            &&& after.vmx_on <==> processor.vmx_on || result is Ok
            &&& result is Err && result->Err_0 != VmxError::InstructionFailed ==> after.cr0
                == processor.cr0 && after.cr4 == processor.cr4 && after.stored == processor.stored
                && after.zeroed == processor.zeroed
        }),
{
}

/// Bits of the registers that decide about VMX operation.
proof fn lemma_entry_bits(basic: u64, control: u64, ecx: u32)
    ensures
        basic & 0x7fff_ffff == basic % 0x8000_0000,
        (basic >> 32) & 0x1fff == basic / 0x1_0000_0000 % 0x2000,
        (basic >> 50) & 0xf == basic / 0x4_0000_0000_0000 % 16,
        (basic & 0x1_0000_0000_0000 != 0) <==> basic / 0x1_0000_0000_0000 % 2 == 1,
        (basic & 0x80_0000_0000_0000 != 0) <==> basic / 0x80_0000_0000_0000 % 2 == 1,
        (control & 0x1 != 0) <==> control % 2 == 1,
        (control & 0x4 != 0) <==> control / 4 % 2 == 1,
        (control | (0x1u64 | 0x4)) & 0x5 == 0x5,
        (control | (0x1u64 | 0x4)) & 0xffff_ffff_ffff_fffa == control & 0xffff_ffff_ffff_fffa,
        (ecx & 0x20 != 0) <==> ecx / 32 % 2 == 1,
        basic | control | 0x2000 == basic | 0x2000 | control,
{
    assert(basic & 0x7fff_ffff == basic % 0x8000_0000 && (basic >> 32) & 0x1fff == basic
        / 0x1_0000_0000 % 0x2000 && (basic >> 50) & 0xf == basic / 0x4_0000_0000_0000 % 16 && ((
    basic & 0x1_0000_0000_0000 != 0) <==> basic / 0x1_0000_0000_0000 % 2 == 1) && ((basic
        & 0x80_0000_0000_0000 != 0) <==> basic / 0x80_0000_0000_0000 % 2 == 1) && ((control & 0x1
        != 0) <==> control % 2 == 1) && ((control & 0x4 != 0) <==> control / 4 % 2 == 1) && (control
        | (0x1u64 | 0x4)) & 0x5 == 0x5 && (control | (0x1u64 | 0x4)) & 0xffff_ffff_ffff_fffa == control
        & 0xffff_ffff_ffff_fffa && ((ecx & 0x20 != 0) <==> ecx / 32 % 2 == 1) && basic
        | control | 0x2000 == basic | 0x2000 | control) by (bit_vector);
}

/// How entering VMX operation ends: the first thing that the processor, its firmware or
/// the region lacks decides, in this order.
pub proof fn law_vmx_entry_result(region: u64, before: Processor)
    ensures
        ({
            let start = EnterRootStep::Ask {
                state: EnterRoot::Features { region },
                request: Request::Cpuid { leaf: 1, subleaf: 0 },
            };
            let control = before.msrs[0x3a];
            let basic = before.msrs[0x480];
            let size = basic / 0x1_0000_0000 % 0x2000;
            let wide = basic / 0x1_0000_0000_0000 % 2 == 1;
            run(start, before, 16).1 == Some(
                if (before.cpuid)(1, 0).ecx / 32 % 2 == 0 {
                    Err::<VmxInfo, VmxError>(VmxError::Unsupported)
                } else if region % 4096 != 0 {
                    Err(VmxError::RegionMisaligned)
                } else if control % 2 == 1 && control / 4 % 2 == 0 {
                    Err(VmxError::FirmwareDisabled)
                } else if size == 0 || size > 4096 || basic / 0x4_0000_0000_0000 % 16 != 6 {
                    Err(VmxError::InvalidBasicMsr)
                } else if !wide && region >= 0x1_0000_0000 {
                    Err(VmxError::RegionAddressWidth)
                } else if (before.fails)(Request::Vmxon { region }) {
                    Err(VmxError::InstructionFailed)
                } else {
                    Ok(
                        VmxInfo {
                            revision_id: (basic % 0x8000_0000) as u32,
                            true_controls: basic / 0x80_0000_0000_0000 % 2 == 1,
                            wide_physical_addresses: wide,
                        },
                    )
                },
            )
        }),
{
    law_enter_root(region, before);
    lemma_entry_bits(before.msrs[0x480], before.msrs[0x3a], (before.cpuid)(1, 0).ecx);
}

/// What entering VMX operation changes. Where the firmware left it open, VMX operation is
/// allowed and locked once the processor has it and the region starts at a page. Where
/// the processor is asked to enter it, the region is zeroed and has the revision number,
/// and the control registers have the bits that VMX operation demands, as far as the
/// processor allows them. Nothing else changes.
pub proof fn law_vmx_entry_changes(region: u64, before: Processor)
    ensures
        ({
            let start = EnterRootStep::Ask {
                state: EnterRoot::Features { region },
                request: Request::Cpuid { leaf: 1, subleaf: 0 },
            };
            let (after, result) = run(start, before, 16);
            let basic = before.msrs[0x480];
            let opened = (before.cpuid)(1, 0).ecx / 32 % 2 == 1 && region % 4096 == 0
                && before.msrs[0x3a] % 2 == 0;
            let asked = result->0 is Ok || result->0->Err_0 == VmxError::InstructionFailed;
            &&& after == Processor {
                msrs: after.msrs,
                cr0: after.cr0,
                cr4: after.cr4,
                zeroed: after.zeroed,
                stored: after.stored,
                vmx_on: before.vmx_on || result->0 is Ok,
                ..before
            }
            &&& !opened ==> after.msrs == before.msrs
            &&& opened ==> {
                let control = after.msrs[0x3a];
                &&& after.msrs == before.msrs.insert(0x3a, control)
                &&& control & 0x5 == 0x5
                &&& control & 0xffff_ffff_ffff_fffa == before.msrs[0x3a] & 0xffff_ffff_ffff_fffa
            }
            &&& !asked ==> after.cr0 == before.cr0 && after.cr4 == before.cr4 && after.zeroed
                == before.zeroed && after.stored == before.stored
            &&& asked ==> {
                &&& is_within(after.cr0, before.cr0, before.msrs[0x486], before.msrs[0x487])
                &&& is_within(
                    after.cr4,
                    before.cr4 | 0x2000,
                    before.msrs[0x488],
                    before.msrs[0x489],
                )
                &&& after.zeroed == before.zeroed.insert(region)
                &&& after.stored == before.stored.insert(region, (basic % 0x8000_0000) as u32)
            }
        }),
{
    law_enter_root(region, before);
    let msrs = before.msrs;
    lemma_entry_bits(msrs[0x480], msrs[0x3a], (before.cpuid)(1, 0).ecx);
    lemma_registers(before.cr0, msrs[0x486], msrs[0x487], 0, 0);
    lemma_registers(before.cr4 | 0x2000, msrs[0x488], msrs[0x489], 0, 0);
    lemma_entry_bits(before.cr4, msrs[0x488], 0);
}

} // verus!
