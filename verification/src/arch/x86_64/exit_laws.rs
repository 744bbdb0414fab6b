//! What the guest, the console and the control structure see of an exit, in the
//! numbers of the processor's manual.

use crate::arch::x86_64::exits::{
    guest_cpuid, law_canonical_range, law_cpuid_hides_virtualisation, law_exit,
    law_guest_stays_in_long_mode, law_ports_read_as_ones, law_vmresume_failure,
    reason_outcome, reported,
};
use crate::arch::x86_64::instructions::{run, Processor, Request};
use crate::arch::x86_64::vmexit::{
    after_io, is_allowed_efer, is_plain_io, msr_operand, with_cpuid, written_efer, Exit,
    ExitOutcome, ExitStep, GuestRegisters,
};
use crate::serial::LogRecord;
use vstd::prelude::*;

verus! {

/// The processor, and how the handling ended, after the handling of an exit.
pub open spec fn handled(processor: Processor, frame: Option<GuestRegisters>) -> (
    Processor,
    Option<ExitOutcome>,
) {
    let start = ExitStep::Ask {
        state: Exit::Announced { frame },
        request: Request::Log { record: LogRecord::Line("hypewwisoww: VM exit") },
    };
    run(start, processor, 17)
}

/// The field can be read.
pub open spec fn is_readable(processor: Processor, field: u64) -> bool {
    !(processor.fails)(Request::Vmread { field })
}

/// The value can be written to the field.
pub open spec fn is_writable(processor: Processor, field: u64, value: u64) -> bool {
    !(processor.fails)(Request::Vmwrite { field, value })
}

/// What a field reads as, or `default` where it cannot be read.
pub open spec fn read_else(processor: Processor, field: u64, default: u64) -> u64 {
    if is_readable(processor, field) {
        processor.vmcs[field]
    } else {
        default
    }
}

/// The guest exited for the reason number `reason`.
pub open spec fn exited_for(processor: Processor, reason: u64) -> bool {
    is_readable(processor, 0x4402) && processor.vmcs[0x4402] % 0x1_0000 == reason
}

/// What an exit is announced with.
pub open spec fn announcement(processor: Processor) -> Seq<LogRecord> {
    seq![
        LogRecord::Line("hypewwisoww: VM exit"),
        LogRecord::Hex(
            "hypewwisoww: exit reason=",
            read_else(processor, 0x4402, 0xffff_ffff_ffff_ffff),
        ),
        LogRecord::Hex(
            "hypewwisoww: guest RIP=",
            read_else(processor, 0x681e, 0xffff_ffff_ffff_ffff),
        ),
        LogRecord::Hex("hypewwisoww: instruction length=", read_else(processor, 0x440c, 0)),
        LogRecord::Hex(
            "hypewwisoww: qualification=",
            read_else(processor, 0x6400, 0xffff_ffff_ffff_ffff),
        ),
    ]
}

/// The processor with an exit of a guest with these registers announced.
pub open spec fn announced(processor: Processor, registers: GuestRegisters) -> Processor {
    Processor {
        console: processor.console + announcement(processor) + seq![
            LogRecord::Hex("hypewwisoww: guest RAX=", registers.rax),
        ],
        ..processor
    }
}

/// The processor says why, leaves VMX operation, and halts.
pub open spec fn halts(processor: Processor, message: &'static str) -> (
    Processor,
    Option<ExitOutcome>,
) {
    (
        Processor {
            console: processor.console.push(LogRecord::Line(message)),
            vmx_on: false,
            ..processor
        },
        Some(ExitOutcome::Halt),
    )
}

/// The guest goes on behind its instruction with these registers, if the processor
/// lets it be moved there.
pub open spec fn moves_on(processor: Processor, registers: GuestRegisters) -> (
    Processor,
    Option<ExitOutcome>,
) {
    let sum = processor.vmcs[0x681e] + processor.vmcs[0x440c];
    let next = (if sum > u64::MAX {
        sum - 0x1_0000_0000_0000_0000
    } else {
        sum
    }) as u64;
    if !is_readable(processor, 0x681e) {
        halts(processor, "hypewwisoww: cannot read guest RIP")
    } else if !is_readable(processor, 0x440c) {
        halts(processor, "hypewwisoww: cannot read VM-exit instruction length")
    } else if !is_writable(processor, 0x681e, next) {
        halts(processor, "hypewwisoww: cannot advance guest RIP")
    } else {
        (
            Processor { vmcs: processor.vmcs.insert(0x681e, next), ..processor },
            Some(ExitOutcome::Resume { registers }),
        )
    }
}

/// The guest goes on at its instruction with its registers as they were and a
/// general-protection exception, error code zero, if the processor lets it be
/// raised.
pub open spec fn faults(processor: Processor, registers: GuestRegisters) -> (
    Processor,
    Option<ExitOutcome>,
) {
    let raised = Processor {
        vmcs: processor.vmcs.insert(0x4016, 0x8000_0b0d),
        ..processor
    };
    if !is_writable(processor, 0x4016, 0x8000_0b0d) {
        halts(processor, "hypewwisoww: failed to inject #GP")
    } else if !is_writable(processor, 0x4018, 0) {
        halts(raised, "hypewwisoww: failed to inject #GP")
    } else {
        (
            Processor { vmcs: raised.vmcs.insert(0x4018, 0), ..processor },
            Some(ExitOutcome::Resume { registers }),
        )
    }
}

/// Bits and halves of a number.
proof fn lemma_numbers(value: u64, low: u32, high: u32)
    ensures
        value & 0xffff == value % 0x1_0000,
        value & 0x7 == value % 8,
        (value & 0x8 == 0) <==> (value / 8) % 2 == 0,
        (value & 0x10 == 0) <==> (value / 16) % 2 == 0,
        (value & 0x20 == 0) <==> (value / 32) % 2 == 0,
        (value as u32) as int + 0x1_0000_0000 * ((value >> 32) as u32) == value,
        value as u32 == value % 0x1_0000_0000,
        (high as u64) << 32 | low as u64 == low + 0x1_0000_0000 * high,
        0xffff_ffff_ffff_ffffu64 & 0xffff == 0xffff,
{
    assert(value & 0xffff == value % 0x1_0000 && value & 0x7 == value % 8 && ((value & 0x8 == 0)
        <==> (value / 8) % 2 == 0) && ((value & 0x10 == 0) <==> (value / 16) % 2 == 0) && ((value
        & 0x20 == 0) <==> (value / 32) % 2 == 0) && (value as u32) + 0x1_0000_0000 * ((value
        >> 32) as u32) == value && value as u32 == value % 0x1_0000_0000 && (high as u64) << 32
        | low as u64 == low + 0x1_0000_0000 * high && 0xffff_ffff_ffff_ffffu64 & 0xffff == 0xffff)
        by (bit_vector);
}

/// The handling of an exit by its reason.
proof fn lemma_handled(processor: Processor, registers: GuestRegisters)
    ensures
        ({
            let (after, outcome) = reason_outcome(
                announced(processor, registers),
                registers,
                read_else(processor, 0x4402, 0xffff_ffff_ffff_ffff),
                read_else(processor, 0x6400, 0xffff_ffff_ffff_ffff),
            );
            handled(processor, Some(registers)) == (after, Some(outcome))
        }),
{
    law_exit(Some(registers), processor);
    let told = reported(processor).logged(
        LogRecord::Hex("hypewwisoww: guest RAX=", registers.rax),
    );
    assert(told.console =~= announced(processor, registers).console);
}

/// An exit without registers is announced, and the processor halts.
pub proof fn law_exit_without_registers(processor: Processor)
    ensures
        handled(processor, None) == halts(
            Processor { console: processor.console + announcement(processor), ..processor },
            "hypewwisoww: null VM-exit register frame",
        ),
{
    law_exit(None, processor);
    assert(reported(processor).console =~= processor.console + announcement(processor));
}

/// The exits that end the guest: each is announced, then the processor says why it
/// halts.
pub proof fn law_exits_that_halt(processor: Processor, registers: GuestRegisters)
    ensures
        ({
            let told = announced(processor, registers);
            let end = handled(processor, Some(registers));
            &&& exited_for(processor, 12) ==> end == halts(told, "hypewwisoww: guest halted")
            &&& exited_for(processor, 18) && registers.rax % 0x1_0000_0000 == 0xf00d_cafe ==> end
                == halts(told, "hypewwisoww: synthetic 64-bit guest VMCALL verified")
            &&& exited_for(processor, 28) ==> end == halts(
                told,
                "hypewwisoww: unimplemented control-register exit",
            )
            &&& exited_for(processor, 48) ==> end == halts(told, "hypewwisoww: fatal EPT violation")
        }),
{
    lemma_numbers(processor.vmcs[0x4402], 0, 0);
    lemma_numbers(registers.rax, 0, 0);
    lemma_handled(processor, registers);
}

/// An exit for any other reason, or for one that cannot be read, ends the guest too.
pub proof fn law_unknown_exits_halt(processor: Processor, registers: GuestRegisters)
    requires
        forall|reason: u64| #[trigger]
            exited_for(processor, reason) ==> reason != 10 && reason != 12 && reason != 18 && reason
                != 23 && reason != 25 && reason != 28 && reason != 30 && reason != 31 && reason
                != 32 && reason != 48,
    ensures
        handled(processor, Some(registers)) == halts(
            announced(processor, registers),
            "hypewwisoww: unsupported VM exit",
        ),
{
    let reason = processor.vmcs[0x4402];
    lemma_numbers(reason, 0, 0);
    lemma_handled(processor, registers);
    if is_readable(processor, 0x4402) {
        assert(exited_for(processor, (reason % 0x1_0000) as u64));
    }
}

/// A hypercall that is not the guest's last word gives all ones in RAX.
pub proof fn law_unknown_hypercall(processor: Processor, registers: GuestRegisters)
    requires
        exited_for(processor, 18),
        registers.rax % 0x1_0000_0000 != 0xf00d_cafe,
    ensures
        handled(processor, Some(registers)) == moves_on(
            announced(processor, registers),
            GuestRegisters { rax: 0xffff_ffff_ffff_ffff, ..registers },
        ),
{
    lemma_numbers(processor.vmcs[0x4402], 0, 0);
    lemma_numbers(registers.rax, 0, 0);
    lemma_handled(processor, registers);
}

/// The guest may not use the control structure itself.
pub proof fn law_guest_has_no_control_structure(processor: Processor, registers: GuestRegisters)
    requires
        exited_for(processor, 23) || exited_for(processor, 25),
    ensures
        handled(processor, Some(registers)) == faults(announced(processor, registers), registers),
{
    lemma_numbers(processor.vmcs[0x4402], 0, 0);
    lemma_handled(processor, registers);
}

/// An access to a port: one value of one, two or four bytes, not repeated, is
/// answered, whatever the port and however it is named; what is read has ones in the
/// bytes that were asked for. Every other access is a fault.
pub proof fn law_port_exit(processor: Processor, registers: GuestRegisters)
    requires
        exited_for(processor, 30),
    ensures
        ({
            let told = announced(processor, registers);
            let end = handled(processor, Some(registers));
            let qualification = read_else(processor, 0x6400, 0xffff_ffff_ffff_ffff);
            let size = qualification % 8;
            let input = (qualification / 8) % 2 == 1;
            let plain = (qualification / 16) % 2 == 0 && (qualification / 32) % 2 == 0 && (size == 0
                || size == 1 || size == 3);
            &&& !plain ==> end == faults(told, registers)
            &&& plain && !input ==> end == moves_on(told, registers)
            &&& plain && input ==> exists|rax: u64|
                {
                    let mask: u64 = if size == 0 {
                        0xff
                    } else if size == 1 {
                        0xffff
                    } else {
                        0xffff_ffff
                    };
                    &&& end == #[trigger] moves_on(told, GuestRegisters { rax, ..registers })
                    &&& rax & mask == mask
                    &&& rax & !mask == registers.rax & !mask
                }
        }),
{
    let qualification = read_else(processor, 0x6400, 0xffff_ffff_ffff_ffff);
    let told = announced(processor, registers);
    lemma_numbers(processor.vmcs[0x4402], 0, 0);
    lemma_numbers(qualification, 0, 0);
    lemma_handled(processor, registers);
    if is_plain_io(qualification) {
        law_ports_read_as_ones(registers, qualification);
        let rax = after_io(registers, qualification).rax;
        assert(moves_on(told, GuestRegisters { rax, ..registers }) == handled(
            processor,
            Some(registers),
        ));
    }
}

/// CPUID: for its own two leaves the hypervisor answers itself. The upper halves of
/// the four registers are cleared.
#[verifier::spinoff_prover]
pub proof fn law_hypervisor_leaves(processor: Processor, registers: GuestRegisters)
    requires
        exited_for(processor, 10),
    ensures
        ({
            let told = announced(processor, registers);
            let end = handled(processor, Some(registers));
            let leaf = registers.rax % 0x1_0000_0000;
            &&& leaf == 0x4000_0000 ==> end == moves_on(
                told,
                GuestRegisters {
                    rax: 0x4000_0001,
                    rbx: 0x7272_6546,
                    rcx: 0x7369_766f,
                    rdx: 0x2020_726f,
                    ..registers
                },
            )
            &&& leaf == 0x4000_0001 ==> end == moves_on(
                told,
                GuestRegisters { rax: 0x3123_7646, rbx: 0, rcx: 0, rdx: 0, ..registers },
            )
        }),
{
    lemma_numbers(processor.vmcs[0x4402], 0, 0);
    lemma_numbers(registers.rax, 0, 0);
    lemma_handled(processor, registers);
}

/// The guest sees this in ECX where the processor has `host`.
pub open spec fn is_seen_as(leaf: u32, host: u32, seen: u32) -> bool {
    &&& leaf == 1 ==> seen & 0x20 == 0 && seen & 0x8000_0000 == 0x8000_0000 && seen & 0x7fff_ffdf
        == host & 0x7fff_ffdf
    &&& leaf == 0x8000_0001 ==> seen & 0x4 == 0 && seen & 0xffff_fffb == host & 0xffff_fffb
    &&& leaf != 1 && leaf != 0x8000_0001 ==> seen == host
}

/// CPUID: for all other leaves the guest is told what the processor says of the leaf
/// in EAX and the subleaf in ECX, except that VMX and SVM are hidden and a hypervisor
/// is shown. The upper halves of the four registers are cleared.
#[verifier::spinoff_prover]
pub proof fn law_processor_leaves(processor: Processor, registers: GuestRegisters)
    requires
        exited_for(processor, 10),
        registers.rax % 0x1_0000_0000 != 0x4000_0000,
        registers.rax % 0x1_0000_0000 != 0x4000_0001,
    ensures
        ({
            let leaf = (registers.rax % 0x1_0000_0000) as u32;
            let subleaf = (registers.rcx % 0x1_0000_0000) as u32;
            let host = (processor.cpuid)(leaf, subleaf);
            exists|ecx: u32| #[trigger]
                is_seen_as(leaf, host.ecx, ecx) && handled(processor, Some(registers)) == moves_on(
                    announced(processor, registers),
                    GuestRegisters {
                        rax: host.eax as u64,
                        rbx: host.ebx as u64,
                        rcx: ecx as u64,
                        rdx: host.edx as u64,
                        ..registers
                    },
                )
        }),
{
    let leaf = registers.rax as u32;
    let subleaf = registers.rcx as u32;
    lemma_numbers(processor.vmcs[0x4402], 0, 0);
    lemma_numbers(registers.rax, 0, 0);
    lemma_numbers(registers.rcx, 0, 0);
    lemma_handled(processor, registers);
    law_cpuid_hides_virtualisation(processor, leaf, subleaf);
    assert(!(0x20u32 | 0x8000_0000) == 0x7fff_ffdf && !0x4u32 == 0xffff_fffb) by (bit_vector);
    let host = (processor.cpuid)(leaf, subleaf);
    let told = announced(processor, registers);
    let seen = guest_cpuid(told, leaf, subleaf);
    assert(leaf == (registers.rax % 0x1_0000_0000) as u32);
    assert(subleaf == (registers.rcx % 0x1_0000_0000) as u32);
    assert(seen == guest_cpuid(processor, leaf, subleaf));
    assert(handled(processor, Some(registers)) == moves_on(told, with_cpuid(registers, seen)));
    assert(is_seen_as(leaf, host.ecx, seen.ecx));
    assert(with_cpuid(registers, seen) == (GuestRegisters {
        rax: host.eax as u64,
        rbx: host.ebx as u64,
        rcx: seen.ecx as u64,
        rdx: host.edx as u64,
        ..registers
    }));
}

/// RDMSR: of its extended features, its page attributes and its FS and GS bases the
/// guest reads its own values, the low half in RAX and the high half in RDX. Every
/// other register is a fault.
pub proof fn law_rdmsr_exit(processor: Processor, registers: GuestRegisters)
    requires
        exited_for(processor, 31),
    ensures
        ({
            let told = announced(processor, registers);
            let end = handled(processor, Some(registers));
            let msr = registers.rcx % 0x1_0000_0000;
            let field: u64 = if msr == 0xc000_0080 {
                0x2806
            } else if msr == 0x277 {
                0x2804
            } else if msr == 0xc000_0100 {
                0x680e
            } else {
                0x6810
            };
            let value = processor.vmcs[field];
            let known = msr == 0xc000_0080 || msr == 0x277 || msr == 0xc000_0100 || msr
                == 0xc000_0101;
            &&& !known ==> end == faults(told, registers)
            &&& known && !is_readable(processor, field) ==> end == halts(
                told,
                "hypewwisoww: VMREAD failed during RDMSR emulation",
            )
            &&& known && is_readable(processor, field) ==> end == moves_on(
                told,
                GuestRegisters {
                    rax: (value % 0x1_0000_0000) as u64,
                    rdx: (value / 0x1_0000_0000) as u64,
                    ..registers
                },
            )
        }),
{
    lemma_numbers(processor.vmcs[0x4402], 0, 0);
    lemma_numbers(registers.rcx, 0, 0);
    lemma_numbers(processor.vmcs[0x2806], 0, 0);
    lemma_numbers(processor.vmcs[0x2804], 0, 0);
    lemma_numbers(processor.vmcs[0x680e], 0, 0);
    lemma_numbers(processor.vmcs[0x6810], 0, 0);
    lemma_handled(processor, registers);
}

/// The value that the guest writes to a register: EDX above EAX.
pub open spec fn written_value(registers: GuestRegisters) -> int {
    registers.rdx % 0x1_0000_0000 * 0x1_0000_0000 + registers.rax % 0x1_0000_0000
}

/// The guest goes on behind its instruction once `value` is in `field`, if the processor
/// takes it.
pub open spec fn writes_and_moves_on(
    processor: Processor,
    registers: GuestRegisters,
    field: u64,
    value: u64,
) -> (Processor, Option<ExitOutcome>) {
    if is_writable(processor, field, value) {
        moves_on(
            Processor { vmcs: processor.vmcs.insert(field, value), ..processor },
            registers,
        )
    } else {
        halts(processor, "hypewwisoww: VMWRITE failed during WRMSR emulation")
    }
}

proof fn lemma_operand(registers: GuestRegisters)
    ensures
        msr_operand(registers) == written_value(registers),
{
    lemma_numbers(registers.rax, registers.rax as u32, registers.rdx as u32);
    lemma_numbers(registers.rdx, 0, 0);
}

/// WRMSR: a base address whose upper sixteen bits are all alike goes to the guest's FS
/// or GS base; any other base address is a fault, and so is a write to any register
/// but these and the extended features.
#[verifier::spinoff_prover]
pub proof fn law_base_write_exit(processor: Processor, registers: GuestRegisters)
    requires
        exited_for(processor, 32),
        registers.rcx % 0x1_0000_0000 != 0xc000_0080,
    ensures
        ({
            let told = announced(processor, registers);
            let end = handled(processor, Some(registers));
            let msr = registers.rcx % 0x1_0000_0000;
            let value = written_value(registers);
            let alike = value < 0x1_0000_0000_0000 || value >= 0xffff_0000_0000_0000;
            &&& msr == 0xc000_0100 && alike ==> end == writes_and_moves_on(
                told,
                registers,
                0x680e,
                value as u64,
            )
            &&& msr == 0xc000_0101 && alike ==> end == writes_and_moves_on(
                told,
                registers,
                0x6810,
                value as u64,
            )
            &&& msr != 0xc000_0100 && msr != 0xc000_0101 || !alike ==> end == faults(
                told,
                registers,
            )
        }),
{
    lemma_numbers(processor.vmcs[0x4402], 0, 0);
    lemma_numbers(registers.rcx, 0, 0);
    lemma_operand(registers);
    law_canonical_range(msr_operand(registers));
    lemma_handled(processor, registers);
}

/// WRMSR to the extended features: a value with both bits of long mode, and besides
/// none but system calls and no-execute, is taken; of what the guest had, these two are
/// replaced, long mode stays on, and all else stays. Any other value is a fault.
#[verifier::spinoff_prover]
pub proof fn law_efer_write_exit(processor: Processor, registers: GuestRegisters)
    requires
        exited_for(processor, 32),
        registers.rcx % 0x1_0000_0000 == 0xc000_0080,
    ensures
        ({
            let told = announced(processor, registers);
            let end = handled(processor, Some(registers));
            let value = written_value(registers) as u64;
            let had = read_else(processor, 0x2806, 0);
            let taken = value & 0x500 == 0x500 && value & 0xffff_ffff_ffff_f2fe == 0;
            &&& !taken ==> end == faults(told, registers)
            &&& taken ==> exists|efer: u64| #[trigger]
                is_written_over(had, value, efer) && end == writes_and_moves_on(
                    told,
                    registers,
                    0x2806,
                    efer,
                )
        }),
{
    let value = msr_operand(registers);
    let had = read_else(processor, 0x2806, 0);
    lemma_numbers(processor.vmcs[0x4402], 0, 0);
    lemma_numbers(registers.rcx, 0, 0);
    lemma_operand(registers);
    lemma_handled(processor, registers);
    law_guest_stays_in_long_mode(had, value);
    let efer = written_efer(had, value);
    lemma_efer_bits(value, efer);
    assert(is_allowed_efer(value) ==> is_written_over(had, value, efer));
}

/// The guest's extended features are `efer` once it wrote `value` over `had`.
pub open spec fn is_written_over(had: u64, value: u64, efer: u64) -> bool {
    &&& efer & 0x500 == 0x500
    &&& efer & 0x801 == value & 0x801
    &&& efer & 0xffff_ffff_ffff_f2fe == had & 0xffff_ffff_ffff_f2fe
}

proof fn lemma_efer_bits(value: u64, efer: u64)
    ensures
        is_allowed_efer(value) <==> value & 0x500 == 0x500 && value & 0xffff_ffff_ffff_f2fe == 0,
        efer & 0x100 != 0 && efer & 0x400 != 0 ==> efer & 0x500 == 0x500,
        !(0x801u64 | 0x100 | 0x400) == 0xffff_ffff_ffff_f2fe,
{
    assert(0x100u64 | 0x400 == 0x500 && !(0x801u64 | 0x100 | 0x400) == 0xffff_ffff_ffff_f2fe && (
    efer & 0x100 != 0 && efer & 0x400 != 0 ==> efer & 0x500 == 0x500)) by (bit_vector);
}

/// A guest that cannot be resumed: the failure is logged, then the processor's number for
/// it, where that can be read, and the processor halts.
pub proof fn law_failed_resume(processor: Processor)
    ensures
        ({
            let start = ExitStep::Ask {
                state: Exit::ResumeFailed,
                request: Request::Log { record: LogRecord::Line("hypewwisoww: VMRESUME failed") },
            };
            let first = processor.console.push(LogRecord::Line("hypewwisoww: VMRESUME failed"));
            let console = if is_readable(processor, 0x4400) {
                first.push(
                    LogRecord::Hex("hypewwisoww: VM-instruction error=", processor.vmcs[0x4400]),
                )
            } else {
                first
            };
            run(start, processor, 5) == halts(
                Processor { console, ..processor },
                "hypewwisoww: stopping after VMRESUME failure",
            )
        }),
{
    law_vmresume_failure(processor);
}

} // verus!
