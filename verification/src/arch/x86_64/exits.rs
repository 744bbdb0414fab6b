//! What the handling of an exit does to the processor and to the guest as a
//! whole.

use crate::arch::x86_64::instructions::{run, CpuidResult, Procedure, Processor, Request};
use crate::arch::x86_64::vm::{GUEST_MAGIC, IA32_EFER, IA32_FS_BASE, IA32_GS_BASE};
use crate::arch::x86_64::vmcs::{
    EFER_LMA, EFER_LME, EXIT_QUALIFICATION, GUEST_FS_BASE, GUEST_GS_BASE, GUEST_IA32_EFER, GUEST_RIP,
    VM_ENTRY_EXCEPTION_ERROR_CODE, VM_ENTRY_INTR_INFO_FIELD, VM_EXIT_INSTRUCTION_LEN,
    VM_EXIT_REASON, VM_INSTRUCTION_ERROR,
};
use crate::arch::x86_64::vmexit::{
    advance_step, after_io, canonical, cpuid_step, hypervisor_leaf, inject_step, io_width,
    is_allowed_efer, is_plain_io, log_step, msr_operand, rdmsr_step, readable_field, reason_step,
    stop_step, visible_leaf, width_mask, with_cpuid, with_msr, write_msr_step, written_efer,
    wrmsr_step, Exit, ExitOutcome, GuestRegisters, CPUID_ECX_HYPERVISOR, CPUID_ECX_SVM,
    CPUID_ECX_VMX, EFER_ALLOWED, EXIT_CPUID, EXIT_CR_ACCESS, EXIT_EPT_VIOLATION, EXIT_HLT, EXIT_IO,
    EXIT_RDMSR, EXIT_VMCALL, EXIT_VMREAD, EXIT_VMWRITE, EXIT_WRMSR, GENERAL_PROTECTION,
};
use crate::serial::LogRecord;
use vstd::prelude::*;

verus! {

/// A read of `field` fails.
pub open spec fn read_fails(processor: Processor, field: u64) -> bool {
    (processor.fails)(Request::Vmread { field })
}

/// A write of `value` to `field` fails.
pub open spec fn write_fails(processor: Processor, field: u64, value: u64) -> bool {
    (processor.fails)(Request::Vmwrite { field, value })
}

/// What `field` reads as, or `default` where it cannot be read.
pub open spec fn field_or(processor: Processor, field: u64, default: u64) -> u64 {
    if read_fails(processor, field) {
        default
    } else {
        processor.vmcs[field]
    }
}

/// The processor with `value` in `field`.
pub open spec fn with_field(processor: Processor, field: u64, value: u64) -> Processor {
    Processor { vmcs: processor.vmcs.insert(field, value), ..processor }
}

/// The processor says why it stops, leaves virtualisation and halts.
pub open spec fn stop_outcome(processor: Processor, message: &'static str) -> (
    Processor,
    ExitOutcome,
) {
    (
        Processor { vmx_on: false, ..processor.logged(LogRecord::Line(message)) },
        ExitOutcome::Halt,
    )
}

/// The guest goes on behind the instruction that exited.
pub open spec fn advance_outcome(processor: Processor, registers: GuestRegisters) -> (
    Processor,
    ExitOutcome,
) {
    let next = processor.vmcs[GUEST_RIP].wrapping_add(processor.vmcs[VM_EXIT_INSTRUCTION_LEN]);
    if read_fails(processor, GUEST_RIP) {
        stop_outcome(processor, "hypewwisoww: cannot read guest RIP")
    } else if read_fails(processor, VM_EXIT_INSTRUCTION_LEN) {
        stop_outcome(processor, "hypewwisoww: cannot read VM-exit instruction length")
    } else if write_fails(processor, GUEST_RIP, next) {
        stop_outcome(processor, "hypewwisoww: cannot advance guest RIP")
    } else {
        (with_field(processor, GUEST_RIP, next), ExitOutcome::Resume { registers })
    }
}

/// The guest goes on with a general-protection exception, at the instruction
/// that exited.
pub open spec fn inject_outcome(processor: Processor, registers: GuestRegisters) -> (
    Processor,
    ExitOutcome,
) {
    let pending = with_field(processor, VM_ENTRY_INTR_INFO_FIELD, GENERAL_PROTECTION);
    if write_fails(processor, VM_ENTRY_INTR_INFO_FIELD, GENERAL_PROTECTION) {
        stop_outcome(processor, "hypewwisoww: failed to inject #GP")
    } else if write_fails(processor, VM_ENTRY_EXCEPTION_ERROR_CODE, 0) {
        stop_outcome(pending, "hypewwisoww: failed to inject #GP")
    } else {
        (
            with_field(pending, VM_ENTRY_EXCEPTION_ERROR_CODE, 0),
            ExitOutcome::Resume { registers },
        )
    }
}

/// What the guest is told by CPUID.
pub open spec fn guest_cpuid(processor: Processor, leaf: u32, subleaf: u32) -> CpuidResult {
    match hypervisor_leaf(leaf) {
        Some(result) => result,
        None => visible_leaf(leaf, (processor.cpuid)(leaf, subleaf)),
    }
}

/// What comes of CPUID.
pub open spec fn cpuid_outcome(processor: Processor, registers: GuestRegisters) -> (
    Processor,
    ExitOutcome,
) {
    advance_outcome(
        processor,
        with_cpuid(
            registers,
            guest_cpuid(processor, registers.rax as u32, registers.rcx as u32),
        ),
    )
}

/// What comes of an access to a port.
pub open spec fn io_outcome(
    processor: Processor,
    registers: GuestRegisters,
    qualification: u64,
) -> (Processor, ExitOutcome) {
    if is_plain_io(qualification) {
        advance_outcome(processor, after_io(registers, qualification))
    } else {
        inject_outcome(processor, registers)
    }
}

/// What comes of RDMSR.
pub open spec fn rdmsr_outcome(processor: Processor, registers: GuestRegisters) -> (
    Processor,
    ExitOutcome,
) {
    match readable_field(registers.rcx as u32) {
        Some(field) => if read_fails(processor, field) {
            stop_outcome(processor, "hypewwisoww: VMREAD failed during RDMSR emulation")
        } else {
            advance_outcome(processor, with_msr(registers, processor.vmcs[field]))
        },
        None => inject_outcome(processor, registers),
    }
}

/// The field and the value with which a write to a register is carried out, if
/// the guest may make it.
pub open spec fn permitted_write(processor: Processor, msr: u32, value: u64) -> Option<
    (u64, u64),
> {
    if msr == IA32_FS_BASE && canonical(value) {
        Some((GUEST_FS_BASE, value))
    } else if msr == IA32_GS_BASE && canonical(value) {
        Some((GUEST_GS_BASE, value))
    } else if msr == IA32_EFER && is_allowed_efer(value) {
        Some((GUEST_IA32_EFER, written_efer(field_or(processor, GUEST_IA32_EFER, 0), value)))
    } else {
        None
    }
}

/// What comes of WRMSR.
pub open spec fn wrmsr_outcome(processor: Processor, registers: GuestRegisters) -> (
    Processor,
    ExitOutcome,
) {
    match permitted_write(processor, registers.rcx as u32, msr_operand(registers)) {
        Some((field, value)) => if write_fails(processor, field, value) {
            stop_outcome(processor, "hypewwisoww: VMWRITE failed during WRMSR emulation")
        } else {
            advance_outcome(with_field(processor, field, value), registers)
        },
        None => inject_outcome(processor, registers),
    }
}

/// What comes of an exit, by its reason.
pub open spec fn reason_outcome(
    processor: Processor,
    registers: GuestRegisters,
    reason: u64,
    qualification: u64,
) -> (Processor, ExitOutcome) {
    let basic = reason & 0xffff;
    if basic == EXIT_CPUID {
        cpuid_outcome(processor, registers)
    } else if basic == EXIT_HLT {
        stop_outcome(processor, "hypewwisoww: guest halted")
    } else if basic == EXIT_VMCALL {
        if registers.rax as u32 == GUEST_MAGIC {
            stop_outcome(processor, "hypewwisoww: synthetic 64-bit guest VMCALL verified")
        } else {
            advance_outcome(processor, GuestRegisters { rax: u64::MAX, ..registers })
        }
    } else if basic == EXIT_VMREAD || basic == EXIT_VMWRITE {
        inject_outcome(processor, registers)
    } else if basic == EXIT_CR_ACCESS {
        stop_outcome(processor, "hypewwisoww: unimplemented control-register exit")
    } else if basic == EXIT_IO {
        io_outcome(processor, registers, qualification)
    } else if basic == EXIT_RDMSR {
        rdmsr_outcome(processor, registers)
    } else if basic == EXIT_WRMSR {
        wrmsr_outcome(processor, registers)
    } else if basic == EXIT_EPT_VIOLATION {
        stop_outcome(processor, "hypewwisoww: fatal EPT violation")
    } else {
        stop_outcome(processor, "hypewwisoww: unsupported VM exit")
    }
}

/// The processor after the five messages with which an exit is reported.
pub open spec fn reported(processor: Processor) -> Processor {
    Processor {
        console: processor.console + seq![
            LogRecord::Line("hypewwisoww: VM exit"),
            LogRecord::Hex(
                "hypewwisoww: exit reason=",
                field_or(processor, VM_EXIT_REASON, u64::MAX),
            ),
            LogRecord::Hex("hypewwisoww: guest RIP=", field_or(processor, GUEST_RIP, u64::MAX)),
            LogRecord::Hex(
                "hypewwisoww: instruction length=",
                field_or(processor, VM_EXIT_INSTRUCTION_LEN, 0),
            ),
            LogRecord::Hex(
                "hypewwisoww: qualification=",
                field_or(processor, EXIT_QUALIFICATION, u64::MAX),
            ),
        ],
        ..processor
    }
}

/// What the handling of an exit does to a processor, and how it ends.
pub open spec fn exit_outcome(processor: Processor, frame: Option<GuestRegisters>) -> (
    Processor,
    ExitOutcome,
) {
    match frame {
        Some(registers) => reason_outcome(
            reported(processor).logged(LogRecord::Hex("hypewwisoww: guest RAX=", registers.rax)),
            registers,
            field_or(processor, VM_EXIT_REASON, u64::MAX),
            field_or(processor, EXIT_QUALIFICATION, u64::MAX),
        ),
        None => stop_outcome(
            reported(processor),
            "hypewwisoww: null VM-exit register frame",
        ),
    }
}

proof fn lemma_stop(message: &'static str, processor: Processor, fuel: nat)
    requires
        fuel >= 2,
    ensures
        ({
            let (after, outcome) = stop_outcome(processor, message);
            run(stop_step(message), processor, fuel) == (after, Some(outcome))
        }),
{
    reveal_with_fuel(run, 3);
}

proof fn lemma_advance(registers: GuestRegisters, processor: Processor, fuel: nat)
    requires
        fuel >= 5,
    ensures
        ({
            let (after, outcome) = advance_outcome(processor, registers);
            run(advance_step(registers), processor, fuel) == (after, Some(outcome))
        }),
{
    reveal_with_fuel(run, 4);
    lemma_stop("hypewwisoww: cannot read guest RIP", processor, (fuel - 1) as nat);
    lemma_stop(
        "hypewwisoww: cannot read VM-exit instruction length",
        processor,
        (fuel - 2) as nat,
    );
    lemma_stop("hypewwisoww: cannot advance guest RIP", processor, (fuel - 3) as nat);
}

proof fn lemma_inject(registers: GuestRegisters, processor: Processor, fuel: nat)
    requires
        fuel >= 4,
    ensures
        ({
            let (after, outcome) = inject_outcome(processor, registers);
            run(inject_step(registers), processor, fuel) == (after, Some(outcome))
        }),
{
    reveal_with_fuel(run, 3);
    lemma_stop("hypewwisoww: failed to inject #GP", processor, (fuel - 1) as nat);
    lemma_stop(
        "hypewwisoww: failed to inject #GP",
        with_field(processor, VM_ENTRY_INTR_INFO_FIELD, GENERAL_PROTECTION),
        (fuel - 2) as nat,
    );
}

proof fn lemma_cpuid(registers: GuestRegisters, processor: Processor, fuel: nat)
    requires
        fuel >= 6,
    ensures
        ({
            let (after, outcome) = cpuid_outcome(processor, registers);
            run(cpuid_step(registers), processor, fuel) == (after, Some(outcome))
        }),
{
    let answered = with_cpuid(
        registers,
        guest_cpuid(processor, registers.rax as u32, registers.rcx as u32),
    );
    lemma_advance(answered, processor, fuel);
    lemma_advance(answered, processor, (fuel - 1) as nat);
}

proof fn lemma_rdmsr(registers: GuestRegisters, processor: Processor, fuel: nat)
    requires
        fuel >= 6,
    ensures
        ({
            let (after, outcome) = rdmsr_outcome(processor, registers);
            run(rdmsr_step(registers), processor, fuel) == (after, Some(outcome))
        }),
{
    match readable_field(registers.rcx as u32) {
        Some(field) => {
            lemma_advance(
                with_msr(registers, processor.vmcs[field]),
                processor,
                (fuel - 1) as nat,
            );
            lemma_stop(
                "hypewwisoww: VMREAD failed during RDMSR emulation",
                processor,
                (fuel - 1) as nat,
            );
        },
        None => lemma_inject(registers, processor, fuel),
    }
}

proof fn lemma_write_msr(
    registers: GuestRegisters,
    field: u64,
    value: u64,
    processor: Processor,
    fuel: nat,
)
    requires
        fuel >= 6,
    ensures
        ({
            let (after, outcome) = if write_fails(processor, field, value) {
                stop_outcome(processor, "hypewwisoww: VMWRITE failed during WRMSR emulation")
            } else {
                advance_outcome(with_field(processor, field, value), registers)
            };
            run(write_msr_step(registers, field, value), processor, fuel) == (after, Some(outcome))
        }),
{
    lemma_advance(registers, with_field(processor, field, value), (fuel - 1) as nat);
    lemma_stop(
        "hypewwisoww: VMWRITE failed during WRMSR emulation",
        processor,
        (fuel - 1) as nat,
    );
}

proof fn lemma_wrmsr(registers: GuestRegisters, processor: Processor, fuel: nat)
    requires
        fuel >= 7,
    ensures
        ({
            let (after, outcome) = wrmsr_outcome(processor, registers);
            run(wrmsr_step(registers), processor, fuel) == (after, Some(outcome))
        }),
{
    let value = msr_operand(registers);
    let current = field_or(processor, GUEST_IA32_EFER, 0);
    lemma_write_msr(registers, GUEST_FS_BASE, value, processor, fuel);
    lemma_write_msr(registers, GUEST_GS_BASE, value, processor, fuel);
    lemma_write_msr(
        registers,
        GUEST_IA32_EFER,
        written_efer(current, value),
        processor,
        (fuel - 1) as nat,
    );
    lemma_inject(registers, processor, fuel);
    lemma_inject(registers, processor, (fuel - 1) as nat);
}

proof fn lemma_reason(
    registers: GuestRegisters,
    reason: u64,
    qualification: u64,
    processor: Processor,
    fuel: nat,
)
    requires
        fuel >= 7,
    ensures
        ({
            let (after, outcome) = reason_outcome(processor, registers, reason, qualification);
            run(reason_step(registers, reason, qualification), processor, fuel) == (
                after,
                Some(outcome),
            )
        }),
{
    lemma_cpuid(registers, processor, fuel);
    lemma_rdmsr(registers, processor, fuel);
    lemma_wrmsr(registers, processor, fuel);
    lemma_inject(registers, processor, fuel);
    lemma_advance(after_io(registers, qualification), processor, fuel);
    lemma_advance(GuestRegisters { rax: u64::MAX, ..registers }, processor, fuel);
    lemma_stop("hypewwisoww: guest halted", processor, fuel);
    lemma_stop("hypewwisoww: synthetic 64-bit guest VMCALL verified", processor, fuel);
    lemma_stop("hypewwisoww: unimplemented control-register exit", processor, fuel);
    lemma_stop("hypewwisoww: fatal EPT violation", processor, fuel);
    lemma_stop("hypewwisoww: unsupported VM exit", processor, fuel);
}

/// The handling of an exit ends after at most seventeen requests, and does what
/// `exit_outcome` says.
pub proof fn law_exit(frame: Option<GuestRegisters>, processor: Processor)
    ensures
        ({
            let start = log_step(
                Exit::Announced { frame },
                LogRecord::Line("hypewwisoww: VM exit"),
            );
            let (after, outcome) = exit_outcome(processor, frame);
            run(start, processor, 17) == (after, Some(outcome))
        }),
{
    let seen = reported(processor);
    let reason = field_or(processor, VM_EXIT_REASON, u64::MAX);
    let rip = field_or(processor, GUEST_RIP, u64::MAX);
    let length = field_or(processor, VM_EXIT_INSTRUCTION_LEN, 0);
    let qualification = field_or(processor, EXIT_QUALIFICATION, u64::MAX);
    let first = processor.logged(LogRecord::Line("hypewwisoww: VM exit"));
    let second = first.logged(LogRecord::Hex("hypewwisoww: exit reason=", reason));
    let third = second.logged(LogRecord::Hex("hypewwisoww: guest RIP=", rip));
    let fourth = third.logged(LogRecord::Hex("hypewwisoww: instruction length=", length));
    let fifth = fourth.logged(LogRecord::Hex("hypewwisoww: qualification=", qualification));
    assert(fifth.console =~= seen.console);
    assert(fifth == seen);
    reveal_with_fuel(run, 11);
    match frame {
        Some(registers) => {
            let sixth = seen.logged(LogRecord::Hex("hypewwisoww: guest RAX=", registers.rax));
            lemma_reason(registers, reason, qualification, sixth, 7);
        },
        None => {
            lemma_stop("hypewwisoww: null VM-exit register frame", seen, 8);
        },
    }
}

/// A guest that cannot be resumed is given up after at most five requests, with
/// the processor's reason on the console where it gives one.
pub proof fn law_vmresume_failure(processor: Processor)
    ensures
        ({
            let start = log_step(
                Exit::ResumeFailed,
                LogRecord::Line("hypewwisoww: VMRESUME failed"),
            );
            let first = processor.logged(LogRecord::Line("hypewwisoww: VMRESUME failed"));
            let second = if read_fails(processor, VM_INSTRUCTION_ERROR) {
                first
            } else {
                first.logged(LogRecord::Hex(
                        "hypewwisoww: VM-instruction error=",
                        processor.vmcs[VM_INSTRUCTION_ERROR],
                    ))
            };
            let (after, outcome) = stop_outcome(
                second,
                "hypewwisoww: stopping after VMRESUME failure",
            );
            run(start, processor, 5) == (after, Some(outcome))
        }),
{
    reveal_with_fuel(run, 6);
}

/// The processor stays in VMX operation just as long as the guest goes on.
pub proof fn law_halting_leaves_vmx_operation(processor: Processor, frame: Option<GuestRegisters>)
    requires
        processor.vmx_on,
    ensures
        exit_outcome(processor, frame).0.vmx_on <==> exit_outcome(processor, frame).1 is Resume,
{
}

/// A guest that goes on does so behind the instruction that exited, or at that
/// instruction with a general-protection exception and its registers as they
/// were.
pub proof fn law_guest_moves_on_or_faults(processor: Processor, registers: GuestRegisters)
    requires
        exit_outcome(processor, Some(registers)).1 is Resume,
    ensures
        ({
            let (after, outcome) = exit_outcome(processor, Some(registers));
            let rip = processor.vmcs[GUEST_RIP];
            let length = processor.vmcs[VM_EXIT_INSTRUCTION_LEN];
            ||| {
                &&& after.vmcs[GUEST_RIP] == rip.wrapping_add(length)
                &&& after.vmcs[VM_ENTRY_INTR_INFO_FIELD]
                    == processor.vmcs[VM_ENTRY_INTR_INFO_FIELD]
            }
            ||| {
                &&& after.vmcs[GUEST_RIP] == rip
                &&& after.vmcs[VM_ENTRY_INTR_INFO_FIELD] == GENERAL_PROTECTION
                &&& after.vmcs[VM_ENTRY_EXCEPTION_ERROR_CODE] == 0
                &&& outcome == ExitOutcome::Resume { registers }
            }
        }),
{
}

/// The guest sees the processor as it is, except that virtualisation is hidden
/// and a hypervisor is shown.
pub proof fn law_cpuid_hides_virtualisation(processor: Processor, leaf: u32, subleaf: u32)
    requires
        hypervisor_leaf(leaf) is None,
    ensures
        ({
            let host = (processor.cpuid)(leaf, subleaf);
            let seen = guest_cpuid(processor, leaf, subleaf);
            &&& seen.eax == host.eax && seen.ebx == host.ebx && seen.edx == host.edx
            &&& leaf == 1 ==> {
                let touched = CPUID_ECX_VMX | CPUID_ECX_HYPERVISOR;
                &&& seen.ecx & CPUID_ECX_VMX == 0
                &&& seen.ecx & CPUID_ECX_HYPERVISOR == CPUID_ECX_HYPERVISOR
                &&& seen.ecx & !touched == host.ecx & !touched
            }
            &&& leaf == 0x8000_0001 ==> {
                &&& seen.ecx & CPUID_ECX_SVM == 0
                &&& seen.ecx & !CPUID_ECX_SVM == host.ecx & !CPUID_ECX_SVM
            }
            &&& leaf != 1 && leaf != 0x8000_0001 ==> seen.ecx == host.ecx
        }),
{
    let ecx = (processor.cpuid)(leaf, subleaf).ecx;
    let shown = (ecx & !0x20u32) | 0x8000_0000;
    let touched = 0x20u32 | 0x8000_0000;
    assert(shown & 0x20 == 0 && shown & 0x8000_0000 == 0x8000_0000 && shown & !touched == ecx
        & !touched && (ecx & !0x4u32) & 0x4 == 0 && (ecx & !0x4u32) & !0x4u32 == ecx & !0x4u32)
        by (bit_vector)
        requires
            shown == (ecx & !0x20u32) | 0x8000_0000,
            touched == 0x20u32 | 0x8000_0000,
    ;
}

/// A read from a port gives ones in the bytes that are read, and leaves the
/// others; a write leaves all.
pub proof fn law_ports_read_as_ones(registers: GuestRegisters, qualification: u64)
    requires
        is_plain_io(qualification),
    ensures
        ({
            let after = after_io(registers, qualification);
            let mask = width_mask(io_width(qualification));
            &&& after == GuestRegisters { rax: after.rax, ..registers }
            &&& after.rax & !mask == registers.rax & !mask
            &&& qualification & 0x8 != 0 ==> after.rax & mask == mask
            &&& qualification & 0x8 == 0 ==> after.rax == registers.rax
        }),
{
    let mask = width_mask(io_width(qualification));
    let rax = registers.rax;
    let after = (rax & !mask) | mask;
    assert(after & !mask == rax & !mask && after & mask == mask) by (bit_vector)
        requires
            after == (rax & !mask) | mask,
    ;
}

/// What the guest wrote to its FS or GS base it reads back.
pub proof fn law_written_base_is_read_back(
    processor: Processor,
    writer: GuestRegisters,
    reader: GuestRegisters,
)
    requires
        writer.rcx as u32 == IA32_FS_BASE || writer.rcx as u32 == IA32_GS_BASE,
        reader.rcx as u32 == writer.rcx as u32,
        canonical(msr_operand(writer)),
        wrmsr_outcome(processor, writer).1 is Resume,
        rdmsr_outcome(wrmsr_outcome(processor, writer).0, reader).1 is Resume,
    ensures
        rdmsr_outcome(wrmsr_outcome(processor, writer).0, reader).1 == (ExitOutcome::Resume {
            registers: GuestRegisters {
                rax: (writer.rax as u32) as u64,
                rdx: (writer.rdx as u32) as u64,
                ..reader
            },
        }),
{
    let low = writer.rax as u32;
    let high = writer.rdx as u32;
    let value: u64 = (high as u64) << 32 | low as u64;
    assert(value as u32 == low && (value >> 32) as u32 == high) by (bit_vector)
        requires
            value == (high as u64) << 32 | low as u64,
    ;
}

/// Whatever the guest writes to its extended features, long mode stays on, and
/// it changes nothing but system calls and no-execute.
pub proof fn law_guest_stays_in_long_mode(current: u64, value: u64)
    ensures
        ({
            let written = written_efer(current, value);
            let kept = !(EFER_ALLOWED | EFER_LME | EFER_LMA);
            &&& written & EFER_LME != 0
            &&& written & EFER_LMA != 0
            &&& written & EFER_ALLOWED == value & EFER_ALLOWED
            &&& written & kept == current & kept
        }),
{
    let written = (current & !0x801u64) | (value & 0x801) | 0x100 | 0x400;
    let kept = !(0x801u64 | 0x100 | 0x400);
    assert(written & 0x100 != 0 && written & 0x400 != 0 && written & 0x801 == value & 0x801
        && written & kept == current & kept) by (bit_vector)
        requires
            written == (current & !0x801u64) | (value & 0x801) | 0x100 | 0x400,
            kept == !(0x801u64 | 0x100 | 0x400),
    ;
}

/// A base address whose upper bits are not all alike is refused, and so is a
/// write that would leave long mode or touch a feature that is not the guest's.
pub proof fn law_bad_register_writes_are_refused(processor: Processor, registers: GuestRegisters)
    requires
        ({
            let msr = registers.rcx as u32;
            let value = msr_operand(registers);
            ||| msr != IA32_FS_BASE && msr != IA32_GS_BASE && msr != IA32_EFER
            ||| msr != IA32_EFER && !canonical(value)
            ||| msr == IA32_EFER && !is_allowed_efer(value)
        }),
    ensures
        wrmsr_outcome(processor, registers) == inject_outcome(processor, registers),
{
}

/// The addresses that may be a base are the lowest and the highest 2^48.
pub proof fn law_canonical_range(value: u64)
    ensures
        canonical(value) <==> value < 0x1_0000_0000_0000 || value >= 0xffff_0000_0000_0000,
{
    assert((value >> 48 == 0 || value >> 48 == 0xffff) <==> (value < 0x1_0000_0000_0000 || value
        >= 0xffff_0000_0000_0000)) by (bit_vector);
}

} // verus!
