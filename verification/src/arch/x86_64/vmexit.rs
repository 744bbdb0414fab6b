//! What the host does when the guest exits.

use crate::arch::x86_64::instructions::{
    answers, CpuidResult, Procedure, Reply, Request, Step,
};
use crate::arch::x86_64::vm::{
    vmread, vmwrite, GUEST_MAGIC, IA32_EFER, IA32_FS_BASE, IA32_GS_BASE, IA32_PAT,
};
use crate::arch::x86_64::vmcs::{
    EFER_LMA, EFER_LME, EXIT_QUALIFICATION, GUEST_FS_BASE, GUEST_GS_BASE, GUEST_IA32_EFER,
    GUEST_IA32_PAT, GUEST_RIP, VM_ENTRY_EXCEPTION_ERROR_CODE, VM_ENTRY_INTR_INFO_FIELD,
    VM_EXIT_INSTRUCTION_LEN, VM_EXIT_REASON, VM_INSTRUCTION_ERROR,
};
use crate::serial::LogRecord;
use vstd::prelude::*;

verus! {

/// The general registers of the guest.
#[derive(Clone, Copy, Debug, PartialEq, Eq, Structural)]
pub struct GuestRegisters {
    pub r15: u64,
    pub r14: u64,
    pub r13: u64,
    pub r12: u64,
    pub r11: u64,
    pub r10: u64,
    pub r9: u64,
    pub r8: u64,
    pub rdi: u64,
    pub rsi: u64,
    pub rbp: u64,
    pub rdx: u64,
    pub rcx: u64,
    pub rbx: u64,
    pub rax: u64,
}

pub const EXIT_CPUID: u64 = 10;

pub const EXIT_HLT: u64 = 12;

pub const EXIT_VMCALL: u64 = 18;

pub const EXIT_VMREAD: u64 = 23;

pub const EXIT_VMWRITE: u64 = 25;

pub const EXIT_CR_ACCESS: u64 = 28;

pub const EXIT_IO: u64 = 30;

pub const EXIT_RDMSR: u64 = 31;

pub const EXIT_WRMSR: u64 = 32;

pub const EXIT_EPT_VIOLATION: u64 = 48;

/// A general-protection exception with an error code, as the entry field wants it.
pub const GENERAL_PROTECTION: u64 = 0x8000_0b0d;

/// The bits of the extended features that the guest may change: system calls
/// and no-execute.
pub const EFER_ALLOWED: u64 = 0x801;

pub const CPUID_ECX_VMX: u32 = 0x20;

pub const CPUID_ECX_HYPERVISOR: u32 = 0x8000_0000;

pub const CPUID_ECX_SVM: u32 = 0x4;

/// How the handling of an exit ends.
#[derive(Clone, Copy, Debug, PartialEq, Eq, Structural)]
pub enum ExitOutcome {
    /// The guest goes on with these registers.
    Resume { registers: GuestRegisters },
    /// Virtualisation is off, and the processor halts for good.
    Halt,
}

/// How far the handling of an exit has come: what has been asked for, and what
/// is known so far.
#[derive(Clone, Copy, Debug, PartialEq, Eq, Structural)]
pub enum Exit {
    Announced { frame: Option<GuestRegisters> },
    Reason { frame: Option<GuestRegisters> },
    Rip { frame: Option<GuestRegisters>, reason: u64 },
    Length { frame: Option<GuestRegisters>, reason: u64, rip: u64 },
    Qualification { frame: Option<GuestRegisters>, reason: u64, rip: u64, length: u64 },
    ReasonLogged {
        frame: Option<GuestRegisters>,
        reason: u64,
        rip: u64,
        length: u64,
        qualification: u64,
    },
    RipLogged { frame: Option<GuestRegisters>, reason: u64, length: u64, qualification: u64 },
    LengthLogged { frame: Option<GuestRegisters>, reason: u64, qualification: u64 },
    QualificationLogged { frame: Option<GuestRegisters>, reason: u64, qualification: u64 },
    RaxLogged { registers: GuestRegisters, reason: u64, qualification: u64 },
    Cpuid { registers: GuestRegisters },
    MsrRead { registers: GuestRegisters },
    EferRead { registers: GuestRegisters, value: u64 },
    MsrWritten { registers: GuestRegisters },
    AdvanceRip { registers: GuestRegisters },
    AdvanceLength { registers: GuestRegisters, rip: u64 },
    Advanced { registers: GuestRegisters },
    Injected { registers: GuestRegisters },
    ErrorCodeWritten { registers: GuestRegisters },
    ResumeFailed,
    ResumeError,
    ResumeErrorLogged,
    StopLogged,
    Off,
}

/// A step of handling an exit.
pub type ExitStep = Step<Exit, ExitOutcome>;

/// The message that is logged before the processor halts.
pub open spec fn stop_step(message: &'static str) -> ExitStep {
    Step::Ask {
        state: Exit::StopLogged,
        request: Request::Log { record: LogRecord::Line(message) },
    }
}

/// Starts to leave virtualisation for good.
fn stop(message: &'static str) -> (step: ExitStep)
    ensures
        step == stop_step(message),
{
    Step::Ask {
        state: Exit::StopLogged,
        request: Request::Log { record: LogRecord::Line(message) },
    }
}

/// The step that moves the guest past the instruction that exited.
pub open spec fn advance_step(registers: GuestRegisters) -> ExitStep {
    Step::Ask {
        state: Exit::AdvanceRip { registers },
        request: Request::Vmread { field: GUEST_RIP },
    }
}

/// Starts to move the guest past the instruction that exited.
pub fn advance_guest_rip(registers: GuestRegisters) -> (step: ExitStep)
    ensures
        step == advance_step(registers),
{
    Step::Ask {
        state: Exit::AdvanceRip { registers },
        request: Request::Vmread { field: GUEST_RIP },
    }
}

/// The step that raises a general-protection exception in the guest.
pub open spec fn inject_step(registers: GuestRegisters) -> ExitStep {
    Step::Ask {
        state: Exit::Injected { registers },
        request: Request::Vmwrite { field: VM_ENTRY_INTR_INFO_FIELD, value: GENERAL_PROTECTION },
    }
}

/// Starts to raise a general-protection exception in the guest.
pub fn inject_general_protection(registers: GuestRegisters) -> (step: ExitStep)
    ensures
        step == inject_step(registers),
{
    Step::Ask {
        state: Exit::Injected { registers },
        request: Request::Vmwrite { field: VM_ENTRY_INTR_INFO_FIELD, value: GENERAL_PROTECTION },
    }
}

/// What the hypervisor says of itself, for its own leaves.
pub open spec fn hypervisor_leaf(leaf: u32) -> Option<CpuidResult> {
    if leaf == 0x4000_0000 {
        Some(
            CpuidResult {
                eax: 0x4000_0001,
                ebx: 0x7272_6546,
                ecx: 0x7369_766f,
                edx: 0x2020_726f,
            },
        )
    } else if leaf == 0x4000_0001 {
        Some(CpuidResult { eax: 0x3123_7646, ebx: 0, ecx: 0, edx: 0 })
    } else {
        None
    }
}

/// What the guest sees of the processor's answer `host` for the leaf `leaf`:
/// virtualisation is hidden, and the presence of a hypervisor is shown.
pub open spec fn visible_leaf(leaf: u32, host: CpuidResult) -> CpuidResult {
    if leaf == 1 {
        CpuidResult { ecx: (host.ecx & !CPUID_ECX_VMX) | CPUID_ECX_HYPERVISOR, ..host }
    } else if leaf == 0x8000_0001 {
        CpuidResult { ecx: host.ecx & !CPUID_ECX_SVM, ..host }
    } else {
        host
    }
}

fn hide_virtualisation(leaf: u32, host: CpuidResult) -> (result: CpuidResult)
    ensures
        result == visible_leaf(leaf, host),
{
    let mut ecx: u32 = host.ecx;
    if leaf == 1 {
        ecx = (ecx & !CPUID_ECX_VMX) | CPUID_ECX_HYPERVISOR;
    }
    if leaf == 0x8000_0001 {
        ecx = ecx & !CPUID_ECX_SVM;
    }
    CpuidResult { eax: host.eax, ebx: host.ebx, ecx, edx: host.edx }
}

/// The guest's registers once they hold an answer to CPUID.
pub open spec fn with_cpuid(registers: GuestRegisters, result: CpuidResult) -> GuestRegisters {
    GuestRegisters {
        rax: result.eax as u64,
        rbx: result.ebx as u64,
        rcx: result.ecx as u64,
        rdx: result.edx as u64,
        ..registers
    }
}

fn answer_cpuid(registers: GuestRegisters, result: CpuidResult) -> (step: ExitStep)
    ensures
        step == advance_step(with_cpuid(registers, result)),
{
    let mut registers: GuestRegisters = registers;
    registers.rax = result.eax as u64;
    registers.rbx = result.ebx as u64;
    registers.rcx = result.ecx as u64;
    registers.rdx = result.edx as u64;
    advance_guest_rip(registers)
}

/// The step that answers CPUID.
pub open spec fn cpuid_step(registers: GuestRegisters) -> ExitStep {
    let leaf = registers.rax as u32;
    match hypervisor_leaf(leaf) {
        Some(result) => advance_step(with_cpuid(registers, result)),
        None => Step::Ask {
            state: Exit::Cpuid { registers },
            request: Request::Cpuid { leaf, subleaf: registers.rcx as u32 },
        },
    }
}

/// Starts to answer CPUID.
pub fn handle_cpuid(registers: GuestRegisters) -> (step: ExitStep)
    ensures
        step == cpuid_step(registers),
{
    let leaf: u32 = #[verifier::truncate] (registers.rax as u32);
    let subleaf: u32 = #[verifier::truncate] (registers.rcx as u32);
    match leaf {
        0x4000_0000 => answer_cpuid(
            registers,
            CpuidResult {
                eax: 0x4000_0001,
                ebx: 0x7272_6546,
                ecx: 0x7369_766f,
                edx: 0x2020_726f,
            },
        ),
        0x4000_0001 => answer_cpuid(
            registers,
            CpuidResult { eax: 0x3123_7646, ebx: 0, ecx: 0, edx: 0 },
        ),
        _ => Step::Ask {
            state: Exit::Cpuid { registers },
            request: Request::Cpuid { leaf, subleaf },
        },
    }
}

/// The bytes that an access to a port moves.
pub open spec fn io_width(qualification: u64) -> int {
    (qualification & 0x7) + 1
}

/// The access moves one value of one, two or four bytes.
pub open spec fn is_plain_io(qualification: u64) -> bool {
    &&& qualification & 0x10 == 0
    &&& qualification & 0x20 == 0
    &&& io_width(qualification) == 1 || io_width(qualification) == 2 || io_width(qualification)
        == 4
}

/// The low `width` bytes.
pub open spec fn width_mask(width: int) -> u64 {
    if width == 1 {
        0xff
    } else if width == 2 {
        0xffff
    } else {
        0xffff_ffff
    }
}

/// The guest's registers after an access to a port where nothing answers: what
/// is read is all ones, and what is written is lost.
pub open spec fn after_io(registers: GuestRegisters, qualification: u64) -> GuestRegisters {
    let mask = width_mask(io_width(qualification));
    if qualification & 0x8 != 0 {
        GuestRegisters { rax: (registers.rax & !mask) | mask, ..registers }
    } else {
        registers
    }
}

/// The step that answers an access to a port.
pub open spec fn io_step(registers: GuestRegisters, qualification: u64) -> ExitStep {
    if is_plain_io(qualification) {
        advance_step(after_io(registers, qualification))
    } else {
        inject_step(registers)
    }
}

/// Starts to answer an access to a port.
pub fn handle_io(registers: GuestRegisters, qualification: u64) -> (step: ExitStep)
    ensures
        step == io_step(registers, qualification),
{
    proof {
        assert(qualification & 0x7 <= 7) by (bit_vector);
    }
    let width: u64 = (qualification & 0x7) + 1;
    let input: bool = qualification & 0x8 != 0;
    let string: bool = qualification & 0x10 != 0;
    let repeated: bool = qualification & 0x20 != 0;
    if string || repeated || !(width == 1 || width == 2 || width == 4) {
        return inject_general_protection(registers);
    }
    let mut registers: GuestRegisters = registers;
    if input {
        let mask: u64 = match width {
            1 => 0xff,
            2 => 0xffff,
            _ => 0xffff_ffff,
        };
        registers.rax = (registers.rax & !mask) | mask;
    }
    advance_guest_rip(registers)
}

/// The field that stands behind a register that the guest may read.
pub open spec fn readable_field(msr: u32) -> Option<u64> {
    if msr == IA32_EFER {
        Some(GUEST_IA32_EFER)
    } else if msr == IA32_PAT {
        Some(GUEST_IA32_PAT)
    } else if msr == IA32_FS_BASE {
        Some(GUEST_FS_BASE)
    } else if msr == IA32_GS_BASE {
        Some(GUEST_GS_BASE)
    } else {
        None
    }
}

/// The step that answers RDMSR.
pub open spec fn rdmsr_step(registers: GuestRegisters) -> ExitStep {
    match readable_field(registers.rcx as u32) {
        Some(field) => Step::Ask {
            state: Exit::MsrRead { registers },
            request: Request::Vmread { field },
        },
        None => inject_step(registers),
    }
}

/// Starts to answer RDMSR.
pub fn handle_rdmsr(registers: GuestRegisters) -> (step: ExitStep)
    ensures
        step == rdmsr_step(registers),
{
    let msr: u32 = #[verifier::truncate] (registers.rcx as u32);
    let field: u64 = match msr {
        IA32_EFER => GUEST_IA32_EFER,
        IA32_PAT => GUEST_IA32_PAT,
        IA32_FS_BASE => GUEST_FS_BASE,
        IA32_GS_BASE => GUEST_GS_BASE,
        _ => return inject_general_protection(registers),
    };
    Step::Ask { state: Exit::MsrRead { registers }, request: Request::Vmread { field } }
}

/// The guest's registers once they hold the value of a model-specific register,
/// the low half in RAX and the high half in RDX.
pub open spec fn with_msr(registers: GuestRegisters, value: u64) -> GuestRegisters {
    GuestRegisters {
        rax: (value as u32) as u64,
        rdx: ((value >> 32) as u32) as u64,
        ..registers
    }
}

/// The value that the guest writes to a model-specific register.
pub open spec fn msr_operand(registers: GuestRegisters) -> u64 {
    ((registers.rdx as u32) as u64) << 32 | (registers.rax as u32) as u64
}

/// The upper bits of an address are all alike.
pub open spec fn canonical(value: u64) -> bool {
    value >> 48 == 0 || value >> 48 == 0xffff
}

/// Whether the upper bits of an address are all alike.
pub fn is_canonical(value: u64) -> (result: bool)
    ensures
        result == canonical(value),
{
    let upper: u64 = value >> 48;
    upper == 0 || upper == 0xffff
}

/// The guest may write this value to its extended features: nothing but what it
/// may change, and long mode stays on.
pub open spec fn is_allowed_efer(value: u64) -> bool {
    &&& value & !(EFER_ALLOWED | EFER_LME | EFER_LMA) == 0
    &&& value & (EFER_LME | EFER_LMA) == EFER_LME | EFER_LMA
}

/// The guest's extended features after it wrote `value` over `current`.
pub open spec fn written_efer(current: u64, value: u64) -> u64 {
    (current & !EFER_ALLOWED) | (value & EFER_ALLOWED) | EFER_LME | EFER_LMA
}

/// The step that writes `value` to the field behind a register.
pub open spec fn write_msr_step(registers: GuestRegisters, field: u64, value: u64) -> ExitStep {
    Step::Ask {
        state: Exit::MsrWritten { registers },
        request: Request::Vmwrite { field, value },
    }
}

fn write_msr(registers: GuestRegisters, field: u64, value: u64) -> (step: ExitStep)
    ensures
        step == write_msr_step(registers, field, value),
{
    Step::Ask { state: Exit::MsrWritten { registers }, request: Request::Vmwrite { field, value } }
}

/// The step that answers WRMSR.
pub open spec fn wrmsr_step(registers: GuestRegisters) -> ExitStep {
    let msr = registers.rcx as u32;
    let value = msr_operand(registers);
    if msr == IA32_FS_BASE && canonical(value) {
        write_msr_step(registers, GUEST_FS_BASE, value)
    } else if msr == IA32_GS_BASE && canonical(value) {
        write_msr_step(registers, GUEST_GS_BASE, value)
    } else if msr == IA32_EFER {
        Step::Ask {
            state: Exit::EferRead { registers, value },
            request: Request::Vmread { field: GUEST_IA32_EFER },
        }
    } else {
        inject_step(registers)
    }
}

/// Starts to answer WRMSR.
pub fn handle_wrmsr(registers: GuestRegisters) -> (step: ExitStep)
    ensures
        step == wrmsr_step(registers),
{
    let msr: u32 = #[verifier::truncate] (registers.rcx as u32);
    let low: u32 = #[verifier::truncate] (registers.rax as u32);
    let high: u32 = #[verifier::truncate] (registers.rdx as u32);
    let value: u64 = (high as u64) << 32 | low as u64;
    if msr == IA32_FS_BASE && is_canonical(value) {
        write_msr(registers, GUEST_FS_BASE, value)
    } else if msr == IA32_GS_BASE && is_canonical(value) {
        write_msr(registers, GUEST_GS_BASE, value)
    } else if msr == IA32_EFER {
        Step::Ask {
            state: Exit::EferRead { registers, value },
            request: Request::Vmread { field: GUEST_IA32_EFER },
        }
    } else {
        inject_general_protection(registers)
    }
}

/// The step that writes the guest's extended features.
pub open spec fn efer_step(registers: GuestRegisters, value: u64, current: u64) -> ExitStep {
    if is_allowed_efer(value) {
        write_msr_step(registers, GUEST_IA32_EFER, written_efer(current, value))
    } else {
        inject_step(registers)
    }
}

fn write_efer(registers: GuestRegisters, value: u64, current: u64) -> (step: ExitStep)
    ensures
        step == efer_step(registers, value, current),
{
    if value & !(EFER_ALLOWED | EFER_LME | EFER_LMA) != 0 || value & (EFER_LME | EFER_LMA) != (
    EFER_LME | EFER_LMA) {
        return inject_general_protection(registers);
    }
    write_msr(
        registers,
        GUEST_IA32_EFER,
        (current & !EFER_ALLOWED) | (value & EFER_ALLOWED) | EFER_LME | EFER_LMA,
    )
}

/// The step that answers the exit, by its reason.
pub open spec fn reason_step(
    registers: GuestRegisters,
    reason: u64,
    qualification: u64,
) -> ExitStep {
    let basic = reason & 0xffff;
    if basic == EXIT_CPUID {
        cpuid_step(registers)
    } else if basic == EXIT_HLT {
        stop_step("hypewwisoww: guest halted")
    } else if basic == EXIT_VMCALL {
        if registers.rax as u32 == GUEST_MAGIC {
            stop_step("hypewwisoww: synthetic 64-bit guest VMCALL verified")
        } else {
            advance_step(GuestRegisters { rax: u64::MAX, ..registers })
        }
    } else if basic == EXIT_VMREAD || basic == EXIT_VMWRITE {
        inject_step(registers)
    } else if basic == EXIT_CR_ACCESS {
        stop_step("hypewwisoww: unimplemented control-register exit")
    } else if basic == EXIT_IO {
        io_step(registers, qualification)
    } else if basic == EXIT_RDMSR {
        rdmsr_step(registers)
    } else if basic == EXIT_WRMSR {
        wrmsr_step(registers)
    } else if basic == EXIT_EPT_VIOLATION {
        stop_step("hypewwisoww: fatal EPT violation")
    } else {
        stop_step("hypewwisoww: unsupported VM exit")
    }
}

fn handle_reason(registers: GuestRegisters, reason: u64, qualification: u64) -> (step: ExitStep)
    ensures
        step == reason_step(registers, reason, qualification),
{
    match reason & 0xffff {
        EXIT_CPUID => handle_cpuid(registers),
        EXIT_HLT => stop("hypewwisoww: guest halted"),
        EXIT_VMCALL => {
            let low: u32 = #[verifier::truncate] (registers.rax as u32);
            if low == GUEST_MAGIC {
                return stop("hypewwisoww: synthetic 64-bit guest VMCALL verified");
            }
            let mut registers: GuestRegisters = registers;
            registers.rax = u64::MAX;
            advance_guest_rip(registers)
        },
        EXIT_VMREAD | EXIT_VMWRITE => inject_general_protection(registers),
        EXIT_CR_ACCESS => stop("hypewwisoww: unimplemented control-register exit"),
        EXIT_IO => handle_io(registers, qualification),
        EXIT_RDMSR => handle_rdmsr(registers),
        EXIT_WRMSR => handle_wrmsr(registers),
        EXIT_EPT_VIOLATION => stop("hypewwisoww: fatal EPT violation"),
        _ => stop("hypewwisoww: unsupported VM exit"),
    }
}

/// The step that logs a line before the next state.
pub open spec fn log_step(state: Exit, record: LogRecord) -> ExitStep {
    Step::Ask { state, request: Request::Log { record } }
}

fn log(state: Exit, record: LogRecord) -> (step: ExitStep)
    ensures
        step == log_step(state, record),
{
    Step::Ask { state, request: Request::Log { record } }
}

/// Starts to handle an exit of the guest, whose registers were saved in
/// `frame`, if it is there.
pub fn vmexit_dispatch(frame: Option<GuestRegisters>) -> (step: ExitStep)
    ensures
        step == log_step(Exit::Announced { frame }, LogRecord::Line("hypewwisoww: VM exit")),
{
    log(Exit::Announced { frame }, LogRecord::Line("hypewwisoww: VM exit"))
}

/// Starts to give up because the guest cannot be resumed.
pub fn vmresume_failed() -> (step: ExitStep)
    ensures
        step == log_step(
            Exit::ResumeFailed,
            LogRecord::Line("hypewwisoww: VMRESUME failed"),
        ),
{
    log(Exit::ResumeFailed, LogRecord::Line("hypewwisoww: VMRESUME failed"))
}

/// What was read, or `default` where the read failed.
pub open spec fn read_or(reply: Reply, default: u64) -> u64 {
    if reply->Read_failed == 0 {
        reply->Read_value
    } else {
        default
    }
}

fn value_or(reply: Reply, default: u64) -> (value: u64)
    requires
        reply is Read,
    ensures
        value == read_or(reply, default),
{
    let (failed, value) = reply.read();
    match vmread(failed, value) {
        Ok(value) => value,
        Err(_) => default,
    }
}

impl Procedure for Exit {
    type Output = ExitOutcome;

    open spec fn advance(self, reply: Reply) -> ExitStep {
        let unread = reply->Read_failed != 0;
        let failed = reply->Status_failed != 0;
        match self {
            Exit::Announced { frame } => Step::Ask {
                state: Exit::Reason { frame },
                request: Request::Vmread { field: VM_EXIT_REASON },
            },
            Exit::Reason { frame } => Step::Ask {
                state: Exit::Rip { frame, reason: read_or(reply, u64::MAX) },
                request: Request::Vmread { field: GUEST_RIP },
            },
            Exit::Rip { frame, reason } => Step::Ask {
                state: Exit::Length { frame, reason, rip: read_or(reply, u64::MAX) },
                request: Request::Vmread { field: VM_EXIT_INSTRUCTION_LEN },
            },
            Exit::Length { frame, reason, rip } => Step::Ask {
                state: Exit::Qualification { frame, reason, rip, length: read_or(reply, 0) },
                request: Request::Vmread { field: EXIT_QUALIFICATION },
            },
            Exit::Qualification { frame, reason, rip, length } => log_step(
                Exit::ReasonLogged {
                    frame,
                    reason,
                    rip,
                    length,
                    qualification: read_or(reply, u64::MAX),
                },
                LogRecord::Hex("hypewwisoww: exit reason=", reason),
            ),
            Exit::ReasonLogged { frame, reason, rip, length, qualification } => log_step(
                Exit::RipLogged { frame, reason, length, qualification },
                LogRecord::Hex("hypewwisoww: guest RIP=", rip),
            ),
            Exit::RipLogged { frame, reason, length, qualification } => log_step(
                Exit::LengthLogged { frame, reason, qualification },
                LogRecord::Hex("hypewwisoww: instruction length=", length),
            ),
            Exit::LengthLogged { frame, reason, qualification } => log_step(
                Exit::QualificationLogged { frame, reason, qualification },
                LogRecord::Hex("hypewwisoww: qualification=", qualification),
            ),
            Exit::QualificationLogged { frame, reason, qualification } => match frame {
                Some(registers) => log_step(
                    Exit::RaxLogged { registers, reason, qualification },
                    LogRecord::Hex("hypewwisoww: guest RAX=", registers.rax),
                ),
                None => stop_step("hypewwisoww: null VM-exit register frame"),
            },
            Exit::RaxLogged { registers, reason, qualification } => reason_step(
                registers,
                reason,
                qualification,
            ),
            Exit::Cpuid { registers } => advance_step(
                with_cpuid(registers, visible_leaf(registers.rax as u32, reply->result)),
            ),
            Exit::MsrRead { registers } => if unread {
                stop_step("hypewwisoww: VMREAD failed during RDMSR emulation")
            } else {
                advance_step(with_msr(registers, reply->Read_value))
            },
            Exit::EferRead { registers, value } => efer_step(
                registers,
                value,
                read_or(reply, 0),
            ),
            Exit::MsrWritten { registers } => if failed {
                stop_step("hypewwisoww: VMWRITE failed during WRMSR emulation")
            } else {
                advance_step(registers)
            },
            Exit::AdvanceRip { registers } => if unread {
                stop_step("hypewwisoww: cannot read guest RIP")
            } else {
                Step::Ask {
                    state: Exit::AdvanceLength { registers, rip: reply->Read_value },
                    request: Request::Vmread { field: VM_EXIT_INSTRUCTION_LEN },
                }
            },
            Exit::AdvanceLength { registers, rip } => if unread {
                stop_step("hypewwisoww: cannot read VM-exit instruction length")
            } else {
                Step::Ask {
                    state: Exit::Advanced { registers },
                    request: Request::Vmwrite {
                        field: GUEST_RIP,
                        value: rip.wrapping_add(reply->Read_value),
                    },
                }
            },
            Exit::Advanced { registers } => if failed {
                stop_step("hypewwisoww: cannot advance guest RIP")
            } else {
                Step::Finished { result: ExitOutcome::Resume { registers } }
            },
            Exit::Injected { registers } => if failed {
                stop_step("hypewwisoww: failed to inject #GP")
            } else {
                Step::Ask {
                    state: Exit::ErrorCodeWritten { registers },
                    request: Request::Vmwrite { field: VM_ENTRY_EXCEPTION_ERROR_CODE, value: 0 },
                }
            },
            Exit::ErrorCodeWritten { registers } => if failed {
                stop_step("hypewwisoww: failed to inject #GP")
            } else {
                Step::Finished { result: ExitOutcome::Resume { registers } }
            },
            Exit::ResumeFailed => Step::Ask {
                state: Exit::ResumeError,
                request: Request::Vmread { field: VM_INSTRUCTION_ERROR },
            },
            Exit::ResumeError => if unread {
                stop_step("hypewwisoww: stopping after VMRESUME failure")
            } else {
                log_step(
                    Exit::ResumeErrorLogged,
                    LogRecord::Hex("hypewwisoww: VM-instruction error=", reply->Read_value),
                )
            },
            Exit::ResumeErrorLogged => stop_step("hypewwisoww: stopping after VMRESUME failure"),
            Exit::StopLogged => Step::Ask { state: Exit::Off, request: Request::Vmxoff },
            Exit::Off => Step::Finished { result: ExitOutcome::Halt },
        }
    }
}

impl Exit {
    /// The reply is of the kind that the state waits for.
    pub open spec fn expects(self, reply: Reply) -> bool {
        match self {
            Exit::Reason { .. }
            | Exit::Rip { .. }
            | Exit::Length { .. }
            | Exit::Qualification { .. }
            | Exit::MsrRead { .. }
            | Exit::EferRead { .. }
            | Exit::AdvanceRip { .. }
            | Exit::AdvanceLength { .. }
            | Exit::ResumeError => reply is Read,
            Exit::Cpuid { .. } => reply is Cpuid,
            Exit::MsrWritten { .. }
            | Exit::Advanced { .. }
            | Exit::Injected { .. }
            | Exit::ErrorCodeWritten { .. } => reply is Status,
            _ => reply is Done,
        }
    }

    /// Goes on with the reply to what was asked for.
    pub fn next(self, reply: Reply) -> (step: ExitStep)
        requires
            self.expects(reply),
        ensures
            step == self.advance(reply),
            step matches Step::Ask { state, request } ==> forall|answer: Reply|
                answers(answer, request) ==> #[trigger] state.expects(answer),
    {
        match self {
            Exit::Announced { frame } => Step::Ask {
                state: Exit::Reason { frame },
                request: Request::Vmread { field: VM_EXIT_REASON },
            },
            Exit::Reason { frame } => Step::Ask {
                state: Exit::Rip { frame, reason: value_or(reply, u64::MAX) },
                request: Request::Vmread { field: GUEST_RIP },
            },
            Exit::Rip { frame, reason } => Step::Ask {
                state: Exit::Length { frame, reason, rip: value_or(reply, u64::MAX) },
                request: Request::Vmread { field: VM_EXIT_INSTRUCTION_LEN },
            },
            Exit::Length { frame, reason, rip } => Step::Ask {
                state: Exit::Qualification { frame, reason, rip, length: value_or(reply, 0) },
                request: Request::Vmread { field: EXIT_QUALIFICATION },
            },
            Exit::Qualification { frame, reason, rip, length } => {
                let qualification: u64 = value_or(reply, u64::MAX);
                log(
                    Exit::ReasonLogged { frame, reason, rip, length, qualification },
                    LogRecord::Hex("hypewwisoww: exit reason=", reason),
                )
            },
            Exit::ReasonLogged { frame, reason, rip, length, qualification } => log(
                Exit::RipLogged { frame, reason, length, qualification },
                LogRecord::Hex("hypewwisoww: guest RIP=", rip),
            ),
            Exit::RipLogged { frame, reason, length, qualification } => log(
                Exit::LengthLogged { frame, reason, qualification },
                LogRecord::Hex("hypewwisoww: instruction length=", length),
            ),
            Exit::LengthLogged { frame, reason, qualification } => log(
                Exit::QualificationLogged { frame, reason, qualification },
                LogRecord::Hex("hypewwisoww: qualification=", qualification),
            ),
            Exit::QualificationLogged { frame, reason, qualification } => match frame {
                Some(registers) => log(
                    Exit::RaxLogged { registers, reason, qualification },
                    LogRecord::Hex("hypewwisoww: guest RAX=", registers.rax),
                ),
                None => stop("hypewwisoww: null VM-exit register frame"),
            },
            Exit::RaxLogged { registers, reason, qualification } => handle_reason(
                registers,
                reason,
                qualification,
            ),
            Exit::Cpuid { registers } => {
                let leaf: u32 = #[verifier::truncate] (registers.rax as u32);
                answer_cpuid(registers, hide_virtualisation(leaf, reply.cpuid()))
            },
            Exit::MsrRead { registers } => {
                let (failed, value) = reply.read();
                match vmread(failed, value) {
                    Ok(value) => {
                        let mut registers: GuestRegisters = registers;
                        let low: u32 = #[verifier::truncate] (value as u32);
                        let high: u32 = #[verifier::truncate] ((value >> 32) as u32);
                        registers.rax = low as u64;
                        registers.rdx = high as u64;
                        advance_guest_rip(registers)
                    },
                    Err(_) => stop("hypewwisoww: VMREAD failed during RDMSR emulation"),
                }
            },
            Exit::EferRead { registers, value } => write_efer(
                registers,
                value,
                value_or(reply, 0),
            ),
            Exit::MsrWritten { registers } => match vmwrite(reply.failed()) {
                Ok(()) => advance_guest_rip(registers),
                Err(_) => stop("hypewwisoww: VMWRITE failed during WRMSR emulation"),
            },
            Exit::AdvanceRip { registers } => {
                let (failed, value) = reply.read();
                match vmread(failed, value) {
                    Ok(rip) => Step::Ask {
                        state: Exit::AdvanceLength { registers, rip },
                        request: Request::Vmread { field: VM_EXIT_INSTRUCTION_LEN },
                    },
                    Err(_) => stop("hypewwisoww: cannot read guest RIP"),
                }
            },
            Exit::AdvanceLength { registers, rip } => {
                let (failed, value) = reply.read();
                match vmread(failed, value) {
                    Ok(length) => Step::Ask {
                        state: Exit::Advanced { registers },
                        request: Request::Vmwrite {
                            field: GUEST_RIP,
                            value: rip.wrapping_add(length),
                        },
                    },
                    Err(_) => stop("hypewwisoww: cannot read VM-exit instruction length"),
                }
            },
            Exit::Advanced { registers } => match vmwrite(reply.failed()) {
                Ok(()) => Step::Finished { result: ExitOutcome::Resume { registers } },
                Err(_) => stop("hypewwisoww: cannot advance guest RIP"),
            },
            Exit::Injected { registers } => match vmwrite(reply.failed()) {
                Ok(()) => Step::Ask {
                    state: Exit::ErrorCodeWritten { registers },
                    request: Request::Vmwrite { field: VM_ENTRY_EXCEPTION_ERROR_CODE, value: 0 },
                },
                Err(_) => stop("hypewwisoww: failed to inject #GP"),
            },
            Exit::ErrorCodeWritten { registers } => match vmwrite(reply.failed()) {
                Ok(()) => Step::Finished { result: ExitOutcome::Resume { registers } },
                Err(_) => stop("hypewwisoww: failed to inject #GP"),
            },
            Exit::ResumeFailed => Step::Ask {
                state: Exit::ResumeError,
                request: Request::Vmread { field: VM_INSTRUCTION_ERROR },
            },
            Exit::ResumeError => {
                let (failed, value) = reply.read();
                match vmread(failed, value) {
                    Ok(error) => log(
                        Exit::ResumeErrorLogged,
                        LogRecord::Hex("hypewwisoww: VM-instruction error=", error),
                    ),
                    Err(_) => stop("hypewwisoww: stopping after VMRESUME failure"),
                }
            },
            Exit::ResumeErrorLogged => stop("hypewwisoww: stopping after VMRESUME failure"),
            Exit::StopLogged => Step::Ask { state: Exit::Off, request: Request::Vmxoff },
            Exit::Off => Step::Finished { result: ExitOutcome::Halt },
        }
    }
}

} // verus!
