//! The virtual-machine control structure: its fields, and what is written to
//! them before a guest is launched.

use crate::arch::x86_64::instructions::HostRegisters;
use crate::arch::x86_64::vm::{
    VmError, EPT_WRITE_BACK, GUEST_CODE_GPA, GUEST_PML4_GPA, GUEST_STACK_TOP,
};
use vstd::prelude::*;

verus! {

pub const GUEST_ES_SELECTOR: u64 = 0x0800;

pub const GUEST_CS_SELECTOR: u64 = 0x0802;

pub const GUEST_SS_SELECTOR: u64 = 0x0804;

pub const GUEST_DS_SELECTOR: u64 = 0x0806;

pub const GUEST_FS_SELECTOR: u64 = 0x0808;

pub const GUEST_GS_SELECTOR: u64 = 0x080a;

pub const GUEST_LDTR_SELECTOR: u64 = 0x080c;

pub const GUEST_TR_SELECTOR: u64 = 0x080e;

pub const HOST_ES_SELECTOR: u64 = 0x0c00;

pub const HOST_CS_SELECTOR: u64 = 0x0c02;

pub const HOST_SS_SELECTOR: u64 = 0x0c04;

pub const HOST_DS_SELECTOR: u64 = 0x0c06;

pub const HOST_FS_SELECTOR: u64 = 0x0c08;

pub const HOST_GS_SELECTOR: u64 = 0x0c0a;

pub const HOST_TR_SELECTOR: u64 = 0x0c0c;

pub const EPT_POINTER: u64 = 0x201a;

pub const GUEST_VMCS_LINK_POINTER: u64 = 0x2800;

pub const GUEST_IA32_DEBUGCTL: u64 = 0x2802;

pub const GUEST_IA32_PAT: u64 = 0x2804;

pub const GUEST_IA32_EFER: u64 = 0x2806;

pub const HOST_IA32_PAT: u64 = 0x2c00;

pub const HOST_IA32_EFER: u64 = 0x2c02;

pub const PIN_BASED_VM_EXEC_CONTROL: u64 = 0x4000;

pub const CPU_BASED_VM_EXEC_CONTROL: u64 = 0x4002;

pub const EXCEPTION_BITMAP: u64 = 0x4004;

pub const PAGE_FAULT_ERROR_CODE_MASK: u64 = 0x4006;

pub const PAGE_FAULT_ERROR_CODE_MATCH: u64 = 0x4008;

pub const CR3_TARGET_COUNT: u64 = 0x400a;

pub const VM_EXIT_CONTROLS: u64 = 0x400c;

pub const VM_EXIT_MSR_STORE_COUNT: u64 = 0x400e;

pub const VM_EXIT_MSR_LOAD_COUNT: u64 = 0x4010;

pub const VM_ENTRY_CONTROLS: u64 = 0x4012;

pub const VM_ENTRY_MSR_LOAD_COUNT: u64 = 0x4014;

pub const VM_ENTRY_INTR_INFO_FIELD: u64 = 0x4016;

pub const VM_ENTRY_EXCEPTION_ERROR_CODE: u64 = 0x4018;

pub const SECONDARY_VM_EXEC_CONTROL: u64 = 0x401e;

pub const VM_INSTRUCTION_ERROR: u64 = 0x4400;

pub const VM_EXIT_REASON: u64 = 0x4402;

pub const VM_EXIT_INSTRUCTION_LEN: u64 = 0x440c;

pub const GUEST_ES_LIMIT: u64 = 0x4800;

pub const GUEST_CS_LIMIT: u64 = 0x4802;

pub const GUEST_SS_LIMIT: u64 = 0x4804;

pub const GUEST_DS_LIMIT: u64 = 0x4806;

pub const GUEST_FS_LIMIT: u64 = 0x4808;

pub const GUEST_GS_LIMIT: u64 = 0x480a;

pub const GUEST_LDTR_LIMIT: u64 = 0x480c;

pub const GUEST_TR_LIMIT: u64 = 0x480e;

pub const GUEST_GDTR_LIMIT: u64 = 0x4810;

pub const GUEST_IDTR_LIMIT: u64 = 0x4812;

pub const GUEST_ES_AR_BYTES: u64 = 0x4814;

pub const GUEST_CS_AR_BYTES: u64 = 0x4816;

pub const GUEST_SS_AR_BYTES: u64 = 0x4818;

pub const GUEST_DS_AR_BYTES: u64 = 0x481a;

pub const GUEST_FS_AR_BYTES: u64 = 0x481c;

pub const GUEST_GS_AR_BYTES: u64 = 0x481e;

pub const GUEST_LDTR_AR_BYTES: u64 = 0x4820;

pub const GUEST_TR_AR_BYTES: u64 = 0x4822;

pub const GUEST_INTERRUPTIBILITY_INFO: u64 = 0x4824;

pub const GUEST_ACTIVITY_STATE: u64 = 0x4826;

pub const GUEST_SYSENTER_CS: u64 = 0x482a;

pub const HOST_IA32_SYSENTER_CS: u64 = 0x4c00;

pub const CR0_GUEST_HOST_MASK: u64 = 0x6000;

pub const CR4_GUEST_HOST_MASK: u64 = 0x6002;

pub const CR0_READ_SHADOW: u64 = 0x6004;

pub const CR4_READ_SHADOW: u64 = 0x6006;

pub const EXIT_QUALIFICATION: u64 = 0x6400;

pub const GUEST_CR0: u64 = 0x6800;

pub const GUEST_CR3: u64 = 0x6802;

pub const GUEST_CR4: u64 = 0x6804;

pub const GUEST_ES_BASE: u64 = 0x6806;

pub const GUEST_CS_BASE: u64 = 0x6808;

pub const GUEST_SS_BASE: u64 = 0x680a;

pub const GUEST_DS_BASE: u64 = 0x680c;

pub const GUEST_FS_BASE: u64 = 0x680e;

pub const GUEST_GS_BASE: u64 = 0x6810;

pub const GUEST_LDTR_BASE: u64 = 0x6812;

pub const GUEST_TR_BASE: u64 = 0x6814;

pub const GUEST_GDTR_BASE: u64 = 0x6816;

pub const GUEST_IDTR_BASE: u64 = 0x6818;

pub const GUEST_DR7: u64 = 0x681a;

pub const GUEST_RSP: u64 = 0x681c;

pub const GUEST_RIP: u64 = 0x681e;

pub const GUEST_RFLAGS: u64 = 0x6820;

pub const GUEST_PENDING_DBG_EXCEPTIONS: u64 = 0x6822;

pub const GUEST_SYSENTER_ESP: u64 = 0x6824;

pub const GUEST_SYSENTER_EIP: u64 = 0x6826;

pub const HOST_CR0: u64 = 0x6c00;

pub const HOST_CR3: u64 = 0x6c02;

pub const HOST_CR4: u64 = 0x6c04;

pub const HOST_FS_BASE: u64 = 0x6c06;

pub const HOST_GS_BASE: u64 = 0x6c08;

pub const HOST_TR_BASE: u64 = 0x6c0a;

pub const HOST_GDTR_BASE: u64 = 0x6c0c;

pub const HOST_IDTR_BASE: u64 = 0x6c0e;

pub const HOST_IA32_SYSENTER_ESP: u64 = 0x6c10;

pub const HOST_IA32_SYSENTER_EIP: u64 = 0x6c12;

pub const HOST_RSP: u64 = 0x6c14;

pub const HOST_RIP: u64 = 0x6c16;

pub const CPU_BASED_HLT_EXITING: u32 = 0x80;

pub const CPU_BASED_MOV_DR_EXITING: u32 = 0x80_0000;

pub const CPU_BASED_UNCONDITIONAL_IO_EXITING: u32 = 0x100_0000;

pub const CPU_BASED_ACTIVATE_SECONDARY: u32 = 0x8000_0000;

pub const SECONDARY_ENABLE_EPT: u32 = 0x2;

pub const VM_EXIT_HOST_ADDRESS_SPACE_SIZE: u32 = 0x200;

pub const VM_EXIT_SAVE_EFER: u32 = 0x10_0000;

pub const VM_EXIT_LOAD_EFER: u32 = 0x20_0000;

pub const VM_ENTRY_IA32E_MODE: u32 = 0x200;

pub const VM_ENTRY_LOAD_EFER: u32 = 0x8000;

pub const EFER_LME: u64 = 0x100;

pub const EFER_LMA: u64 = 0x400;

pub const EPTP_PAGE_WALK_4: u64 = 0x18;

pub const EPT_CAP_PAGE_WALK_4: u64 = 0x40;

pub const EPT_CAP_WRITE_BACK: u64 = 0x4000;

/// A value for a field.
#[derive(Clone, Copy, Debug, PartialEq, Eq, Structural)]
pub struct VmcsWrite {
    pub field: u64,
    pub value: u64,
}

/// The control settings that a guest runs under.
#[derive(Clone, Copy, Debug, PartialEq, Eq, Structural)]
pub struct Controls {
    pub pin: u32,
    pub primary: u32,
    pub secondary: u32,
    pub exit: u32,
    pub entry: u32,
}

/// What the processor's capability registers say of each kind of control.
#[derive(Clone, Copy, Debug, PartialEq, Eq, Structural)]
pub struct ControlCapabilities {
    pub pin: u64,
    pub primary: u64,
    pub secondary: u64,
    pub exit: u64,
    pub entry: u64,
}

/// The registers of which the guest's first state is made.
#[derive(Clone, Copy, Debug, PartialEq, Eq, Structural)]
pub struct GuestMsrs {
    pub cr0_fixed0: u64,
    pub cr0_fixed1: u64,
    pub cr4_fixed0: u64,
    pub cr4_fixed1: u64,
    pub efer: u64,
    pub pat: u64,
}

/// The model-specific registers that the processor loads when the guest exits.
#[derive(Clone, Copy, Debug, PartialEq, Eq, Structural)]
pub struct HostMsrs {
    pub fs_base: u64,
    pub gs_base: u64,
    pub pat: u64,
    pub efer: u64,
    pub sysenter_cs: u64,
    pub sysenter_esp: u64,
    pub sysenter_eip: u64,
}

/// The controls that come nearest to `desired` on a processor with the given
/// capability: the low half of the capability holds the bits that must be one,
/// the high half those that may be.
pub open spec fn adjusted(desired: u32, capability: u64) -> u32 {
    (desired | capability as u32) & ((capability >> 32) as u32)
}

/// The controls that come nearest to `desired` on a processor with the given
/// capability.
pub fn adjusted_controls(desired: u32, capability: u64) -> (controls: u32)
    ensures
        controls == adjusted(desired, capability),
{
    let must_be_one: u32 = #[verifier::truncate] (capability as u32);
    let may_be_one: u32 = #[verifier::truncate] ((capability >> 32) as u32);
    (desired | must_be_one) & may_be_one
}

/// Primary controls that the guest is meant to run under.
pub open spec fn primary_desired() -> u32 {
    CPU_BASED_HLT_EXITING | CPU_BASED_MOV_DR_EXITING | CPU_BASED_UNCONDITIONAL_IO_EXITING
        | CPU_BASED_ACTIVATE_SECONDARY
}

/// Exit controls that the guest is meant to run under.
pub open spec fn exit_desired() -> u32 {
    VM_EXIT_HOST_ADDRESS_SPACE_SIZE | VM_EXIT_SAVE_EFER | VM_EXIT_LOAD_EFER
}

/// Entry controls that the guest is meant to run under.
pub open spec fn entry_desired() -> u32 {
    VM_ENTRY_IA32E_MODE | VM_ENTRY_LOAD_EFER
}

/// The controls for a processor with the given capabilities.
pub open spec fn controls_for(capabilities: ControlCapabilities) -> Controls {
    Controls {
        pin: adjusted(0, capabilities.pin),
        primary: adjusted(primary_desired(), capabilities.primary),
        secondary: adjusted(SECONDARY_ENABLE_EPT, capabilities.secondary),
        exit: adjusted(exit_desired(), capabilities.exit),
        entry: adjusted(entry_desired(), capabilities.entry),
    }
}

/// The controls hold what the guest cannot do without.
pub open spec fn are_sufficient(controls: Controls) -> bool {
    &&& controls.primary & CPU_BASED_ACTIVATE_SECONDARY != 0
    &&& controls.secondary & SECONDARY_ENABLE_EPT != 0
    &&& controls.exit & exit_desired() == exit_desired()
    &&& controls.entry & entry_desired() == entry_desired()
}

/// Chooses the controls for a processor with the given capabilities.
pub fn choose_controls(capabilities: ControlCapabilities) -> (result: Result<Controls, VmError>)
    ensures
        match result {
            Ok(controls) => controls == controls_for(capabilities) && are_sufficient(controls),
            Err(error) => error == VmError::ControlUnavailable && !are_sufficient(
                controls_for(capabilities),
            ),
        },
{
    let pin: u32 = adjusted_controls(0, capabilities.pin);
    let primary: u32 = adjusted_controls(
        CPU_BASED_HLT_EXITING | CPU_BASED_MOV_DR_EXITING | CPU_BASED_UNCONDITIONAL_IO_EXITING
            | CPU_BASED_ACTIVATE_SECONDARY,
        capabilities.primary,
    );
    let secondary: u32 = adjusted_controls(SECONDARY_ENABLE_EPT, capabilities.secondary);
    let exit_desired: u32 = VM_EXIT_HOST_ADDRESS_SPACE_SIZE | VM_EXIT_SAVE_EFER | VM_EXIT_LOAD_EFER;
    let exit: u32 = adjusted_controls(exit_desired, capabilities.exit);
    let entry_desired: u32 = VM_ENTRY_IA32E_MODE | VM_ENTRY_LOAD_EFER;
    let entry: u32 = adjusted_controls(entry_desired, capabilities.entry);
    if primary & CPU_BASED_ACTIVATE_SECONDARY == 0 || secondary & SECONDARY_ENABLE_EPT == 0 || exit
        & exit_desired != exit_desired || entry & entry_desired != entry_desired {
        return Err(VmError::ControlUnavailable);
    }
    Ok(Controls { pin, primary, secondary, exit, entry })
}

/// The extended page tables that the guest needs are there.
pub open spec fn has_ept(capability: u64) -> bool {
    capability & EPT_CAP_PAGE_WALK_4 != 0 && capability & EPT_CAP_WRITE_BACK != 0
}

/// Whether the extended page tables that the guest needs are there.
pub fn check_ept(capability: u64) -> (result: Result<(), VmError>)
    ensures
        match result {
            Ok(()) => has_ept(capability),
            Err(error) => error == VmError::EptUnavailable && !has_ept(capability),
        },
{
    if capability & EPT_CAP_PAGE_WALK_4 == 0 || capability & EPT_CAP_WRITE_BACK == 0 {
        return Err(VmError::EptUnavailable);
    }
    Ok(())
}

/// The writes that set the controls and the root of the extended page tables.
pub open spec fn control_writes(controls: Controls, ept_root: u64) -> Seq<VmcsWrite> {
    seq![
        VmcsWrite { field: PIN_BASED_VM_EXEC_CONTROL, value: controls.pin as u64 },
        VmcsWrite { field: CPU_BASED_VM_EXEC_CONTROL, value: controls.primary as u64 },
        VmcsWrite { field: SECONDARY_VM_EXEC_CONTROL, value: controls.secondary as u64 },
        VmcsWrite { field: VM_EXIT_CONTROLS, value: controls.exit as u64 },
        VmcsWrite { field: VM_ENTRY_CONTROLS, value: controls.entry as u64 },
        VmcsWrite { field: EXCEPTION_BITMAP, value: 0 },
        VmcsWrite { field: PAGE_FAULT_ERROR_CODE_MASK, value: 0 },
        VmcsWrite { field: PAGE_FAULT_ERROR_CODE_MATCH, value: 0 },
        VmcsWrite { field: CR3_TARGET_COUNT, value: 0 },
        VmcsWrite { field: VM_EXIT_MSR_STORE_COUNT, value: 0 },
        VmcsWrite { field: VM_EXIT_MSR_LOAD_COUNT, value: 0 },
        VmcsWrite { field: VM_ENTRY_MSR_LOAD_COUNT, value: 0 },
        VmcsWrite { field: VM_ENTRY_INTR_INFO_FIELD, value: 0 },
        VmcsWrite { field: CR0_GUEST_HOST_MASK, value: 0 },
        VmcsWrite { field: CR4_GUEST_HOST_MASK, value: 0 },
        VmcsWrite { field: CR0_READ_SHADOW, value: 0 },
        VmcsWrite { field: CR4_READ_SHADOW, value: 0 },
        VmcsWrite { field: EPT_POINTER, value: ept_root | EPT_WRITE_BACK | EPTP_PAGE_WALK_4 },
    ]
}

/// The writes that set the controls and the root of the extended page tables.
pub fn write_controls(controls: Controls, ept_root: u64) -> (writes: Vec<VmcsWrite>)
    ensures
        writes@ == control_writes(controls, ept_root),
{
    let mut writes: Vec<VmcsWrite> = Vec::new();
    writes.push(VmcsWrite { field: PIN_BASED_VM_EXEC_CONTROL, value: controls.pin as u64 });
    writes.push(VmcsWrite { field: CPU_BASED_VM_EXEC_CONTROL, value: controls.primary as u64 });
    writes.push(VmcsWrite { field: SECONDARY_VM_EXEC_CONTROL, value: controls.secondary as u64 });
    writes.push(VmcsWrite { field: VM_EXIT_CONTROLS, value: controls.exit as u64 });
    writes.push(VmcsWrite { field: VM_ENTRY_CONTROLS, value: controls.entry as u64 });
    writes.push(VmcsWrite { field: EXCEPTION_BITMAP, value: 0 });
    writes.push(VmcsWrite { field: PAGE_FAULT_ERROR_CODE_MASK, value: 0 });
    writes.push(VmcsWrite { field: PAGE_FAULT_ERROR_CODE_MATCH, value: 0 });
    writes.push(VmcsWrite { field: CR3_TARGET_COUNT, value: 0 });
    writes.push(VmcsWrite { field: VM_EXIT_MSR_STORE_COUNT, value: 0 });
    writes.push(VmcsWrite { field: VM_EXIT_MSR_LOAD_COUNT, value: 0 });
    writes.push(VmcsWrite { field: VM_ENTRY_MSR_LOAD_COUNT, value: 0 });
    writes.push(VmcsWrite { field: VM_ENTRY_INTR_INFO_FIELD, value: 0 });
    writes.push(VmcsWrite { field: CR0_GUEST_HOST_MASK, value: 0 });
    writes.push(VmcsWrite { field: CR4_GUEST_HOST_MASK, value: 0 });
    writes.push(VmcsWrite { field: CR0_READ_SHADOW, value: 0 });
    writes.push(VmcsWrite { field: CR4_READ_SHADOW, value: 0 });
    writes.push(
        VmcsWrite { field: EPT_POINTER, value: ept_root | EPT_WRITE_BACK | EPTP_PAGE_WALK_4 },
    );
    writes
}

/// The guest's first control register 0: protection, paging and write
/// protection, within what the processor demands and allows.
pub open spec fn guest_cr0(msrs: GuestMsrs) -> u64 {
    (0x8001_0033 | msrs.cr0_fixed0) & msrs.cr0_fixed1
}

/// The guest's first control register 4: address extension, within what the
/// processor demands and allows.
pub open spec fn guest_cr4(msrs: GuestMsrs) -> u64 {
    (0x20 | msrs.cr4_fixed0) & msrs.cr4_fixed1
}

/// The guest's first extended features: those of the host, in long mode.
pub open spec fn guest_efer(msrs: GuestMsrs) -> u64 {
    msrs.efer | EFER_LME | EFER_LMA
}

/// The descriptor of a segment, by the fields that hold it.
#[derive(Clone, Copy, Debug, PartialEq, Eq, Structural)]
pub struct Segment {
    pub selector_field: u64,
    pub base_field: u64,
    pub limit_field: u64,
    pub access_field: u64,
    pub selector: u16,
    pub base: u64,
    pub limit: u32,
    pub access: u32,
}

/// The writes that set a segment.
pub open spec fn segment_writes(segment: Segment) -> Seq<VmcsWrite> {
    seq![
        VmcsWrite { field: segment.selector_field, value: segment.selector as u64 },
        VmcsWrite { field: segment.base_field, value: segment.base },
        VmcsWrite { field: segment.limit_field, value: segment.limit as u64 },
        VmcsWrite { field: segment.access_field, value: segment.access as u64 },
    ]
}

/// The guest's first segments: flat data, 64-bit code, no local table, and an
/// empty task state.
pub open spec fn guest_segments() -> Seq<Segment> {
    seq![
        Segment {
            selector_field: GUEST_ES_SELECTOR,
            base_field: GUEST_ES_BASE,
            limit_field: GUEST_ES_LIMIT,
            access_field: GUEST_ES_AR_BYTES,
            selector: 0x10,
            base: 0,
            limit: 0xffff_ffff,
            access: 0xc093,
        },
        Segment {
            selector_field: GUEST_CS_SELECTOR,
            base_field: GUEST_CS_BASE,
            limit_field: GUEST_CS_LIMIT,
            access_field: GUEST_CS_AR_BYTES,
            selector: 0x08,
            base: 0,
            limit: 0xffff_ffff,
            access: 0xa09b,
        },
        Segment {
            selector_field: GUEST_SS_SELECTOR,
            base_field: GUEST_SS_BASE,
            limit_field: GUEST_SS_LIMIT,
            access_field: GUEST_SS_AR_BYTES,
            selector: 0x10,
            base: 0,
            limit: 0xffff_ffff,
            access: 0xc093,
        },
        Segment {
            selector_field: GUEST_DS_SELECTOR,
            base_field: GUEST_DS_BASE,
            limit_field: GUEST_DS_LIMIT,
            access_field: GUEST_DS_AR_BYTES,
            selector: 0x10,
            base: 0,
            limit: 0xffff_ffff,
            access: 0xc093,
        },
        Segment {
            selector_field: GUEST_FS_SELECTOR,
            base_field: GUEST_FS_BASE,
            limit_field: GUEST_FS_LIMIT,
            access_field: GUEST_FS_AR_BYTES,
            selector: 0x10,
            base: 0,
            limit: 0xffff_ffff,
            access: 0xc093,
        },
        Segment {
            selector_field: GUEST_GS_SELECTOR,
            base_field: GUEST_GS_BASE,
            limit_field: GUEST_GS_LIMIT,
            access_field: GUEST_GS_AR_BYTES,
            selector: 0x10,
            base: 0,
            limit: 0xffff_ffff,
            access: 0xc093,
        },
        Segment {
            selector_field: GUEST_LDTR_SELECTOR,
            base_field: GUEST_LDTR_BASE,
            limit_field: GUEST_LDTR_LIMIT,
            access_field: GUEST_LDTR_AR_BYTES,
            selector: 0,
            base: 0,
            limit: 0,
            access: 0x1_0000,
        },
        Segment {
            selector_field: GUEST_TR_SELECTOR,
            base_field: GUEST_TR_BASE,
            limit_field: GUEST_TR_LIMIT,
            access_field: GUEST_TR_AR_BYTES,
            selector: 0x18,
            base: 0,
            limit: 0x67,
            access: 0x008b,
        },
    ]
}

/// The writes that set some segments.
pub open spec fn all_segment_writes(segments: Seq<Segment>) -> Seq<VmcsWrite>
    decreases segments.len(),
{
    if segments.len() == 0 {
        Seq::empty()
    } else {
        all_segment_writes(segments.drop_last()) + segment_writes(segments.last())
    }
}

/// The writes that set the guest's first registers.
pub open spec fn guest_register_writes(msrs: GuestMsrs) -> Seq<VmcsWrite> {
    seq![
        VmcsWrite { field: GUEST_CR0, value: guest_cr0(msrs) },
        VmcsWrite { field: GUEST_CR3, value: GUEST_PML4_GPA },
        VmcsWrite { field: GUEST_CR4, value: guest_cr4(msrs) },
        VmcsWrite { field: GUEST_DR7, value: 0x400 },
        VmcsWrite { field: GUEST_RSP, value: GUEST_STACK_TOP },
        VmcsWrite { field: GUEST_RIP, value: GUEST_CODE_GPA },
        VmcsWrite { field: GUEST_RFLAGS, value: 0x2 },
        VmcsWrite { field: GUEST_PENDING_DBG_EXCEPTIONS, value: 0 },
        VmcsWrite { field: GUEST_VMCS_LINK_POINTER, value: 0xffff_ffff_ffff_ffff },
        VmcsWrite { field: GUEST_IA32_DEBUGCTL, value: 0 },
        VmcsWrite { field: GUEST_IA32_PAT, value: msrs.pat },
        VmcsWrite { field: GUEST_IA32_EFER, value: guest_efer(msrs) },
    ]
}

/// The writes that set the guest's tables, its activity and its system calls.
pub open spec fn guest_table_writes() -> Seq<VmcsWrite> {
    seq![
        VmcsWrite { field: GUEST_GDTR_BASE, value: 0 },
        VmcsWrite { field: GUEST_GDTR_LIMIT, value: 0 },
        VmcsWrite { field: GUEST_IDTR_BASE, value: 0 },
        VmcsWrite { field: GUEST_IDTR_LIMIT, value: 0 },
        VmcsWrite { field: GUEST_INTERRUPTIBILITY_INFO, value: 0 },
        VmcsWrite { field: GUEST_ACTIVITY_STATE, value: 0 },
        VmcsWrite { field: GUEST_SYSENTER_CS, value: 0 },
        VmcsWrite { field: GUEST_SYSENTER_ESP, value: 0 },
        VmcsWrite { field: GUEST_SYSENTER_EIP, value: 0 },
    ]
}

/// The writes that set the guest's first state.
pub open spec fn guest_writes(msrs: GuestMsrs) -> Seq<VmcsWrite> {
    guest_register_writes(msrs) + all_segment_writes(guest_segments()) + guest_table_writes()
}

fn write_guest_segment(writes: &mut Vec<VmcsWrite>, segment: Segment)
    ensures
        final(writes)@ == old(writes)@ + segment_writes(segment),
{
    writes.push(
        VmcsWrite { field: segment.selector_field, value: segment.selector as u64 },
    );
    writes.push(VmcsWrite { field: segment.base_field, value: segment.base });
    writes.push(VmcsWrite { field: segment.limit_field, value: segment.limit as u64 });
    writes.push(VmcsWrite { field: segment.access_field, value: segment.access as u64 });
}

fn guest_segment_list() -> (segments: Vec<Segment>)
    ensures
        segments@ == guest_segments(),
{
    let mut segments: Vec<Segment> = Vec::new();
    segments.push(
        Segment {
            selector_field: GUEST_ES_SELECTOR,
            base_field: GUEST_ES_BASE,
            limit_field: GUEST_ES_LIMIT,
            access_field: GUEST_ES_AR_BYTES,
            selector: 0x10,
            base: 0,
            limit: 0xffff_ffff,
            access: 0xc093,
        },
    );
    segments.push(
        Segment {
            selector_field: GUEST_CS_SELECTOR,
            base_field: GUEST_CS_BASE,
            limit_field: GUEST_CS_LIMIT,
            access_field: GUEST_CS_AR_BYTES,
            selector: 0x08,
            base: 0,
            limit: 0xffff_ffff,
            access: 0xa09b,
        },
    );
    segments.push(
        Segment {
            selector_field: GUEST_SS_SELECTOR,
            base_field: GUEST_SS_BASE,
            limit_field: GUEST_SS_LIMIT,
            access_field: GUEST_SS_AR_BYTES,
            selector: 0x10,
            base: 0,
            limit: 0xffff_ffff,
            access: 0xc093,
        },
    );
    segments.push(
        Segment {
            selector_field: GUEST_DS_SELECTOR,
            base_field: GUEST_DS_BASE,
            limit_field: GUEST_DS_LIMIT,
            access_field: GUEST_DS_AR_BYTES,
            selector: 0x10,
            base: 0,
            limit: 0xffff_ffff,
            access: 0xc093,
        },
    );
    segments.push(
        Segment {
            selector_field: GUEST_FS_SELECTOR,
            base_field: GUEST_FS_BASE,
            limit_field: GUEST_FS_LIMIT,
            access_field: GUEST_FS_AR_BYTES,
            selector: 0x10,
            base: 0,
            limit: 0xffff_ffff,
            access: 0xc093,
        },
    );
    segments.push(
        Segment {
            selector_field: GUEST_GS_SELECTOR,
            base_field: GUEST_GS_BASE,
            limit_field: GUEST_GS_LIMIT,
            access_field: GUEST_GS_AR_BYTES,
            selector: 0x10,
            base: 0,
            limit: 0xffff_ffff,
            access: 0xc093,
        },
    );
    segments.push(
        Segment {
            selector_field: GUEST_LDTR_SELECTOR,
            base_field: GUEST_LDTR_BASE,
            limit_field: GUEST_LDTR_LIMIT,
            access_field: GUEST_LDTR_AR_BYTES,
            selector: 0,
            base: 0,
            limit: 0,
            access: 0x1_0000,
        },
    );
    segments.push(
        Segment {
            selector_field: GUEST_TR_SELECTOR,
            base_field: GUEST_TR_BASE,
            limit_field: GUEST_TR_LIMIT,
            access_field: GUEST_TR_AR_BYTES,
            selector: 0x18,
            base: 0,
            limit: 0x67,
            access: 0x008b,
        },
    );
    segments
}

/// The writes that set the guest's first state.
pub fn write_guest_state(msrs: GuestMsrs) -> (writes: Vec<VmcsWrite>)
    ensures
        writes@ == guest_writes(msrs),
{
    let cr0: u64 = (0x8001_0033 | msrs.cr0_fixed0) & msrs.cr0_fixed1;
    let cr4: u64 = (0x20 | msrs.cr4_fixed0) & msrs.cr4_fixed1;
    let efer: u64 = msrs.efer | EFER_LME | EFER_LMA;
    let mut writes: Vec<VmcsWrite> = Vec::new();
    writes.push(VmcsWrite { field: GUEST_CR0, value: cr0 });
    writes.push(VmcsWrite { field: GUEST_CR3, value: GUEST_PML4_GPA });
    writes.push(VmcsWrite { field: GUEST_CR4, value: cr4 });
    writes.push(VmcsWrite { field: GUEST_DR7, value: 0x400 });
    writes.push(VmcsWrite { field: GUEST_RSP, value: GUEST_STACK_TOP });
    writes.push(VmcsWrite { field: GUEST_RIP, value: GUEST_CODE_GPA });
    writes.push(VmcsWrite { field: GUEST_RFLAGS, value: 0x2 });
    writes.push(VmcsWrite { field: GUEST_PENDING_DBG_EXCEPTIONS, value: 0 });
    writes.push(VmcsWrite { field: GUEST_VMCS_LINK_POINTER, value: 0xffff_ffff_ffff_ffff });
    writes.push(VmcsWrite { field: GUEST_IA32_DEBUGCTL, value: 0 });
    writes.push(VmcsWrite { field: GUEST_IA32_PAT, value: msrs.pat });
    writes.push(VmcsWrite { field: GUEST_IA32_EFER, value: efer });
    assert(writes@ =~= guest_register_writes(msrs));
    let segments: Vec<Segment> = guest_segment_list();
    let mut index: usize = 0;
    while index < segments.len()
        invariant
            index <= segments@.len(),
            writes@ == guest_register_writes(msrs) + all_segment_writes(
                segments@.take(index as int),
            ),
        decreases segments@.len() - index,
    {
        proof {
            assert(segments@.take(index + 1).drop_last() =~= segments@.take(index as int));
        }
        write_guest_segment(&mut writes, segments[index]);
        index = index + 1;
    }
    assert(segments@.take(index as int) =~= guest_segments());
    writes.push(VmcsWrite { field: GUEST_GDTR_BASE, value: 0 });
    writes.push(VmcsWrite { field: GUEST_GDTR_LIMIT, value: 0 });
    writes.push(VmcsWrite { field: GUEST_IDTR_BASE, value: 0 });
    writes.push(VmcsWrite { field: GUEST_IDTR_LIMIT, value: 0 });
    writes.push(VmcsWrite { field: GUEST_INTERRUPTIBILITY_INFO, value: 0 });
    writes.push(VmcsWrite { field: GUEST_ACTIVITY_STATE, value: 0 });
    writes.push(VmcsWrite { field: GUEST_SYSENTER_CS, value: 0 });
    writes.push(VmcsWrite { field: GUEST_SYSENTER_ESP, value: 0 });
    writes.push(VmcsWrite { field: GUEST_SYSENTER_EIP, value: 0 });
    writes
}

/// The writes that say how the host goes on when the guest exits.
pub open spec fn host_writes(
    host: HostRegisters,
    msrs: HostMsrs,
    vmexit_stack_top: u64,
) -> Seq<VmcsWrite> {
    seq![
        VmcsWrite { field: HOST_CR0, value: host.cr0 },
        VmcsWrite { field: HOST_CR3, value: host.cr3 },
        VmcsWrite { field: HOST_CR4, value: host.cr4 },
        VmcsWrite { field: HOST_ES_SELECTOR, value: (host.es & !7u16) as u64 },
        VmcsWrite { field: HOST_CS_SELECTOR, value: (host.cs & !7u16) as u64 },
        VmcsWrite { field: HOST_SS_SELECTOR, value: (host.ss & !7u16) as u64 },
        VmcsWrite { field: HOST_DS_SELECTOR, value: (host.ds & !7u16) as u64 },
        VmcsWrite { field: HOST_FS_SELECTOR, value: (host.fs & !7u16) as u64 },
        VmcsWrite { field: HOST_GS_SELECTOR, value: (host.gs & !7u16) as u64 },
        VmcsWrite { field: HOST_TR_SELECTOR, value: (host.tr & !7u16) as u64 },
        VmcsWrite { field: HOST_FS_BASE, value: msrs.fs_base },
        VmcsWrite { field: HOST_GS_BASE, value: msrs.gs_base },
        VmcsWrite { field: HOST_TR_BASE, value: host.tss_base },
        VmcsWrite { field: HOST_GDTR_BASE, value: host.gdtr_base },
        VmcsWrite { field: HOST_IDTR_BASE, value: host.idtr_base },
        VmcsWrite { field: HOST_IA32_PAT, value: msrs.pat },
        VmcsWrite { field: HOST_IA32_EFER, value: msrs.efer },
        VmcsWrite { field: HOST_IA32_SYSENTER_CS, value: msrs.sysenter_cs },
        VmcsWrite { field: HOST_IA32_SYSENTER_ESP, value: msrs.sysenter_esp },
        VmcsWrite { field: HOST_IA32_SYSENTER_EIP, value: msrs.sysenter_eip },
        VmcsWrite { field: HOST_RSP, value: vmexit_stack_top },
        VmcsWrite { field: HOST_RIP, value: host.vmexit_entry },
    ]
}

/// The writes that say how the host goes on when the guest exits.
pub fn write_host_state(host: HostRegisters, msrs: HostMsrs, vmexit_stack_top: u64) -> (writes: Vec<
    VmcsWrite,
>)
    ensures
        writes@ == host_writes(host, msrs, vmexit_stack_top),
{
    let mut writes: Vec<VmcsWrite> = Vec::new();
    writes.push(VmcsWrite { field: HOST_CR0, value: host.cr0 });
    writes.push(VmcsWrite { field: HOST_CR3, value: host.cr3 });
    writes.push(VmcsWrite { field: HOST_CR4, value: host.cr4 });
    writes.push(VmcsWrite { field: HOST_ES_SELECTOR, value: (host.es & !7u16) as u64 });
    writes.push(VmcsWrite { field: HOST_CS_SELECTOR, value: (host.cs & !7u16) as u64 });
    writes.push(VmcsWrite { field: HOST_SS_SELECTOR, value: (host.ss & !7u16) as u64 });
    writes.push(VmcsWrite { field: HOST_DS_SELECTOR, value: (host.ds & !7u16) as u64 });
    writes.push(VmcsWrite { field: HOST_FS_SELECTOR, value: (host.fs & !7u16) as u64 });
    writes.push(VmcsWrite { field: HOST_GS_SELECTOR, value: (host.gs & !7u16) as u64 });
    writes.push(VmcsWrite { field: HOST_TR_SELECTOR, value: (host.tr & !7u16) as u64 });
    writes.push(VmcsWrite { field: HOST_FS_BASE, value: msrs.fs_base });
    writes.push(VmcsWrite { field: HOST_GS_BASE, value: msrs.gs_base });
    writes.push(VmcsWrite { field: HOST_TR_BASE, value: host.tss_base });
    writes.push(VmcsWrite { field: HOST_GDTR_BASE, value: host.gdtr_base });
    writes.push(VmcsWrite { field: HOST_IDTR_BASE, value: host.idtr_base });
    writes.push(VmcsWrite { field: HOST_IA32_PAT, value: msrs.pat });
    writes.push(VmcsWrite { field: HOST_IA32_EFER, value: msrs.efer });
    writes.push(VmcsWrite { field: HOST_IA32_SYSENTER_CS, value: msrs.sysenter_cs });
    writes.push(VmcsWrite { field: HOST_IA32_SYSENTER_ESP, value: msrs.sysenter_esp });
    writes.push(VmcsWrite { field: HOST_IA32_SYSENTER_EIP, value: msrs.sysenter_eip });
    writes.push(VmcsWrite { field: HOST_RSP, value: vmexit_stack_top });
    writes.push(VmcsWrite { field: HOST_RIP, value: host.vmexit_entry });
    writes
}

/// Adjusted controls have only bits that the processor allows, all those that
/// it demands where it also allows them, and all those desired that it allows.
pub proof fn law_adjusted_controls_suit_the_processor(desired: u32, capability: u64)
    ensures
        ({
            let must_be_one = capability as u32;
            let may_be_one = (capability >> 32) as u32;
            let controls = adjusted(desired, capability);
            &&& controls & !may_be_one == 0
            &&& controls & (must_be_one & may_be_one) == must_be_one & may_be_one
            &&& controls & (desired & may_be_one) == desired & may_be_one
        }),
{
    let must_be_one = capability as u32;
    let may_be_one = (capability >> 32) as u32;
    let controls = (desired | must_be_one) & may_be_one;
    assert(controls & !may_be_one == 0 && controls & (must_be_one & may_be_one) == must_be_one
        & may_be_one && controls & (desired & may_be_one) == desired & may_be_one) by (bit_vector)
        requires
            controls == (desired | must_be_one) & may_be_one,
    ;
}

} // verus!
