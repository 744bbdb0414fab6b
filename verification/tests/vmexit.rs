use std::collections::HashMap;

use hypewwisoww::arch::x86_64::instructions::{CpuidResult, Reply, Request, Step};
use hypewwisoww::arch::x86_64::vmexit::{
    is_canonical, vmexit_dispatch, vmresume_failed, ExitOutcome, ExitStep, GuestRegisters,
};
use hypewwisoww::serial::LogRecord;

const REASON: u64 = 0x4402;
const LENGTH: u64 = 0x440c;
const QUALIFICATION: u64 = 0x6400;
const RIP: u64 = 0x681e;
const EFER: u64 = 0x2806;
const PAT: u64 = 0x2804;
const FS_BASE: u64 = 0x680e;
const GS_BASE: u64 = 0x6810;
const INTERRUPTION: u64 = 0x4016;
const ERROR_CODE: u64 = 0x4018;

const REGISTERS: GuestRegisters = GuestRegisters {
    r15: 15,
    r14: 14,
    r13: 13,
    r12: 12,
    r11: 11,
    r10: 10,
    r9: 9,
    r8: 8,
    rdi: 7,
    rsi: 6,
    rbp: 5,
    rdx: 0xdddd_dddd_0000_0001,
    rcx: 0xcccc_cccc_0000_0002,
    rbx: 3,
    rax: 0xaaaa_aaaa_0000_0004,
};

struct Processor {
    fields: HashMap<u64, u64>,
    fails: Vec<u64>,
    console: Vec<LogRecord>,
    vmx_on: bool,
}

impl Processor {
    fn new(reason: u64, qualification: u64) -> Self {
        Processor {
            fields: HashMap::from([
                (REASON, reason),
                (LENGTH, 3),
                (QUALIFICATION, qualification),
                (RIP, 0x4005),
                (EFER, 0xd00),
                (PAT, 0x0007_0406_0007_0406),
                (FS_BASE, 0x1111_2222_3333),
                (GS_BASE, 0xffff_8000_0000_1000),
                (INTERRUPTION, 0),
            ]),
            fails: Vec::new(),
            console: Vec::new(),
            vmx_on: true,
        }
    }

    fn failing(mut self, fields: &[u64]) -> Self {
        self.fails = fields.to_vec();
        self
    }

    fn perform(&mut self, request: Request) -> Reply {
        match request {
            Request::Log { record } => {
                self.console.push(record);
                Reply::Done
            }
            Request::Cpuid { leaf, subleaf } => Reply::Cpuid {
                result: CpuidResult { eax: leaf, ebx: subleaf, ecx: u32::MAX, edx: 0x77 },
            },
            Request::Vmread { field } => Reply::Read {
                failed: u8::from(self.fails.contains(&field)),
                value: self.fields.get(&field).copied().unwrap_or(0),
            },
            Request::Vmwrite { field, value } => {
                let failed = self.fails.contains(&(field | 1 << 63));
                if !failed {
                    self.fields.insert(field, value);
                }
                Reply::Status { failed: u8::from(failed) }
            }
            Request::Vmxoff => {
                self.vmx_on = false;
                Reply::Done
            }
            _ => panic!("unexpected {request:?}"),
        }
    }

    fn drive(&mut self, mut step: ExitStep) -> ExitOutcome {
        loop {
            step = match step {
                Step::Ask { state, request } => state.next(self.perform(request)),
                Step::Finished { result } => return result,
            };
        }
    }

    fn exit(&mut self, registers: GuestRegisters) -> ExitOutcome {
        self.drive(vmexit_dispatch(Some(registers)))
    }

    fn resume(&mut self, registers: GuestRegisters) -> GuestRegisters {
        match self.exit(registers) {
            ExitOutcome::Resume { registers } => registers,
            ExitOutcome::Halt => panic!("{:?}", self.console),
        }
    }

    fn halt(&mut self, registers: GuestRegisters) -> LogRecord {
        assert_eq!(self.exit(registers), ExitOutcome::Halt);
        assert!(!self.vmx_on);
        self.console[self.console.len() - 1]
    }

    /// The guest was left where it is with a general-protection exception.
    fn faulted(&self) -> bool {
        self.fields[&RIP] == 0x4005
            && self.fields[&INTERRUPTION] == 0x8000_0b0d
            && self.fields[&ERROR_CODE] == 0
    }
}

/// A failing write, as opposed to a failing read.
fn write_of(field: u64) -> u64 {
    field | 1 << 63
}

#[test]
fn exit_is_reported() {
    let mut processor = Processor::new(12, 0x55);
    processor.halt(REGISTERS);
    assert_eq!(
        processor.console,
        vec![
            LogRecord::Line("hypewwisoww: VM exit"),
            LogRecord::Hex("hypewwisoww: exit reason=", 12),
            LogRecord::Hex("hypewwisoww: guest RIP=", 0x4005),
            LogRecord::Hex("hypewwisoww: instruction length=", 3),
            LogRecord::Hex("hypewwisoww: qualification=", 0x55),
            LogRecord::Hex("hypewwisoww: guest RAX=", 0xaaaa_aaaa_0000_0004),
            LogRecord::Line("hypewwisoww: guest halted"),
        ]
    );
}

#[test]
fn unreadable_fields_are_reported_as_such() {
    let mut processor = Processor::new(12, 0).failing(&[REASON, RIP, LENGTH, QUALIFICATION]);
    let last = processor.halt(REGISTERS);
    assert_eq!(last, LogRecord::Line("hypewwisoww: unsupported VM exit"));
    assert_eq!(
        processor.console[1..5],
        [
            LogRecord::Hex("hypewwisoww: exit reason=", u64::MAX),
            LogRecord::Hex("hypewwisoww: guest RIP=", u64::MAX),
            LogRecord::Hex("hypewwisoww: instruction length=", 0),
            LogRecord::Hex("hypewwisoww: qualification=", u64::MAX),
        ]
    );
}

#[test]
fn exit_without_a_frame_stops() {
    let mut processor = Processor::new(10, 0);
    assert_eq!(processor.drive(vmexit_dispatch(None)), ExitOutcome::Halt);
    assert_eq!(processor.console.len(), 6);
    assert_eq!(
        processor.console[5],
        LogRecord::Line("hypewwisoww: null VM-exit register frame")
    );
    assert!(!processor.vmx_on);
}

#[test]
fn guest_that_shows_the_magic_is_done() {
    let registers = GuestRegisters { rax: 0x1_f00d_cafe, ..REGISTERS };
    assert_eq!(
        Processor::new(18, 0).halt(registers),
        LogRecord::Line("hypewwisoww: synthetic 64-bit guest VMCALL verified")
    );
}

#[test]
fn other_hypercalls_get_all_ones() {
    let mut processor = Processor::new(18, 0);
    let after = processor.resume(REGISTERS);
    assert_eq!(after, GuestRegisters { rax: u64::MAX, ..REGISTERS });
    assert_eq!(processor.fields[&RIP], 0x4008);
    assert!(processor.vmx_on);
}

#[test]
fn only_the_low_half_of_the_reason_counts() {
    assert_eq!(
        Processor::new(0x8000_000c, 0).halt(REGISTERS),
        LogRecord::Line("hypewwisoww: guest halted")
    );
}

#[test]
fn exits_that_stop_say_why() {
    for (reason, message) in [
        (28, "hypewwisoww: unimplemented control-register exit"),
        (48, "hypewwisoww: fatal EPT violation"),
        (0, "hypewwisoww: unsupported VM exit"),
        (24, "hypewwisoww: unsupported VM exit"),
    ] {
        assert_eq!(Processor::new(reason, 0).halt(REGISTERS), LogRecord::Line(message));
    }
}

#[test]
fn virtualisation_instructions_fault_in_the_guest() {
    for reason in [23, 25] {
        let mut processor = Processor::new(reason, 0);
        assert_eq!(processor.resume(REGISTERS), REGISTERS);
        assert!(processor.faulted());
    }
}

fn cpuid(leaf: u32) -> GuestRegisters {
    let registers = GuestRegisters { rax: u64::from(leaf) | 7 << 32, ..REGISTERS };
    let mut processor = Processor::new(10, 0);
    let after = processor.resume(registers);
    assert_eq!(processor.fields[&RIP], 0x4008);
    assert_eq!((after.rsi, after.r15, after.rbp), (6, 15, 5));
    after
}

#[test]
fn hypervisor_has_its_own_leaves() {
    let first = cpuid(0x4000_0000);
    assert_eq!(first.rax, 0x4000_0001);
    let mut name = (first.rbx as u32).to_le_bytes().to_vec();
    name.extend((first.rcx as u32).to_le_bytes());
    name.extend((first.rdx as u32).to_le_bytes());
    assert_eq!(name, b"Ferrovisor  ");
    let second = cpuid(0x4000_0001);
    assert_eq!((second.rax, second.rbx, second.rcx, second.rdx), (0x3123_7646, 0, 0, 0));
}

#[test]
fn virtualisation_is_hidden_from_the_guest() {
    let features = cpuid(1);
    assert_eq!((features.rax, features.rbx, features.rdx), (1, 2, 0x77));
    assert_eq!(features.rcx, 0xffff_ffdf);
    let extended = cpuid(0x8000_0001);
    assert_eq!(extended.rcx, 0xffff_fffb);
    let other = cpuid(7);
    assert_eq!((other.rax, other.rcx), (7, 0xffff_ffff));
}

#[test]
fn ports_read_as_ones() {
    for (width, low) in [(0, 0xff), (1, 0xffff), (3, 0xffff_ffff)] {
        let mut processor = Processor::new(30, 0x8 | width);
        let rax = 0x1234_5678_0000_0000;
        let after = processor.resume(GuestRegisters { rax, ..REGISTERS });
        assert_eq!(after, GuestRegisters { rax: rax | low, ..REGISTERS });
        assert_eq!(processor.fields[&RIP], 0x4008);
    }
}

#[test]
fn port_writes_change_nothing() {
    let mut processor = Processor::new(30, 0x3f8 << 16);
    assert_eq!(processor.resume(REGISTERS), REGISTERS);
    assert_eq!(processor.fields[&RIP], 0x4008);
}

#[test]
fn unusual_port_accesses_fault() {
    for qualification in [0x10, 0x20, 0x18, 0x2, 0x4, 0x5, 0x6, 0x7] {
        let mut processor = Processor::new(30, qualification);
        assert_eq!(processor.resume(REGISTERS), REGISTERS);
        assert!(processor.faulted());
    }
}

#[test]
fn registers_of_the_guest_are_read() {
    for (msr, value) in [
        (0xc000_0080u64, 0xd00u64),
        (0x277, 0x0007_0406_0007_0406),
        (0xc000_0100, 0x1111_2222_3333),
        (0xc000_0101, 0xffff_8000_0000_1000),
    ] {
        let mut processor = Processor::new(31, 0);
        let registers = GuestRegisters { rcx: msr | 9 << 40, ..REGISTERS };
        let after = processor.resume(registers);
        assert_eq!(
            after,
            GuestRegisters { rax: value & 0xffff_ffff, rdx: value >> 32, ..registers }
        );
        assert_eq!(processor.fields[&RIP], 0x4008);
    }
}

#[test]
fn reads_of_other_registers_fault() {
    let mut processor = Processor::new(31, 0);
    let registers = GuestRegisters { rcx: 0x10, ..REGISTERS };
    assert_eq!(processor.resume(registers), registers);
    assert!(processor.faulted());
}

fn writer(msr: u64, value: u64) -> GuestRegisters {
    GuestRegisters {
        rcx: msr,
        rdx: value >> 32 | 5 << 40,
        rax: value & 0xffff_ffff | 6 << 40,
        ..REGISTERS
    }
}

#[test]
fn written_bases_are_read_back() {
    for (msr, field) in [(0xc000_0100, FS_BASE), (0xc000_0101, GS_BASE)] {
        for value in [0, 0x1234_5678_9abc, 0xffff_ffff_8000_0000] {
            let mut processor = Processor::new(32, 0);
            let registers = writer(msr, value);
            assert_eq!(processor.resume(registers), registers);
            assert_eq!(processor.fields[&field], value);
            assert_eq!(processor.fields[&RIP], 0x4008);
            processor.fields.insert(REASON, 31);
            let read = processor.resume(GuestRegisters { rcx: msr, ..REGISTERS });
            assert_eq!(read.rdx << 32 | read.rax, value);
        }
    }
}

#[test]
fn bases_must_be_canonical() {
    for msr in [0xc000_0100, 0xc000_0101] {
        let mut processor = Processor::new(32, 0);
        let registers = writer(msr, 0x1_0000_0000_0000);
        assert_eq!(processor.resume(registers), registers);
        assert!(processor.faulted());
    }
    assert!(is_canonical(0xffff_ffff_ffff));
    assert!(is_canonical(0xffff_0000_0000_0000));
    assert!(!is_canonical(0xfffe_ffff_ffff_ffff));
}

#[test]
fn guest_changes_its_own_features_only() {
    let mut processor = Processor::new(32, 0);
    processor.fields.insert(EFER, 0x1_0d00);
    processor.resume(writer(0xc000_0080, 0x501));
    assert_eq!(processor.fields[&EFER], 0x1_0501);
    assert_eq!(processor.fields[&RIP], 0x4008);
}

#[test]
fn features_start_from_nothing_where_they_cannot_be_read() {
    let mut processor = Processor::new(32, 0).failing(&[EFER]);
    processor.resume(writer(0xc000_0080, 0xd01));
    assert_eq!(processor.fields[&EFER], 0xd01);
}

#[test]
fn guest_stays_in_long_mode() {
    for value in [0x801, 0x901, 0xc01, 0x1d01, 0xd03] {
        let mut processor = Processor::new(32, 0);
        let registers = writer(0xc000_0080, value);
        assert_eq!(processor.resume(registers), registers);
        assert!(processor.faulted());
        assert_eq!(processor.fields[&EFER], 0xd00);
    }
}

#[test]
fn writes_to_other_registers_fault() {
    for msr in [0x277, 0x10] {
        let mut processor = Processor::new(32, 0);
        assert_eq!(processor.resume(writer(msr, 0)), writer(msr, 0));
        assert!(processor.faulted());
    }
}

#[test]
fn guest_address_wraps_round() {
    let mut processor = Processor::new(18, 0);
    processor.fields.insert(RIP, u64::MAX);
    processor.resume(REGISTERS);
    assert_eq!(processor.fields[&RIP], 2);
}

#[test]
fn failing_accesses_stop() {
    let reader = GuestRegisters { rcx: 0x277, ..REGISTERS };
    for (reason, registers, fails, message) in [
        (18, REGISTERS, RIP, "hypewwisoww: cannot read guest RIP"),
        (18, REGISTERS, LENGTH, "hypewwisoww: cannot read VM-exit instruction length"),
        (18, REGISTERS, write_of(RIP), "hypewwisoww: cannot advance guest RIP"),
        (23, REGISTERS, write_of(INTERRUPTION), "hypewwisoww: failed to inject #GP"),
        (23, REGISTERS, write_of(ERROR_CODE), "hypewwisoww: failed to inject #GP"),
        (31, reader, PAT, "hypewwisoww: VMREAD failed during RDMSR emulation"),
        (
            32,
            writer(0xc000_0100, 0),
            write_of(FS_BASE),
            "hypewwisoww: VMWRITE failed during WRMSR emulation",
        ),
    ] {
        let mut processor = Processor::new(reason, 0).failing(&[fails]);
        assert_eq!(processor.halt(registers), LogRecord::Line(message));
    }
}

#[test]
fn failed_resume_gives_up() {
    let mut processor = Processor::new(0, 0);
    processor.fields.insert(0x4400, 5);
    assert_eq!(processor.drive(vmresume_failed()), ExitOutcome::Halt);
    assert_eq!(
        processor.console,
        vec![
            LogRecord::Line("hypewwisoww: VMRESUME failed"),
            LogRecord::Hex("hypewwisoww: VM-instruction error=", 5),
            LogRecord::Line("hypewwisoww: stopping after VMRESUME failure"),
        ]
    );
    assert!(!processor.vmx_on);
    let mut silent = Processor::new(0, 0).failing(&[0x4400]);
    silent.drive(vmresume_failed());
    assert_eq!(silent.console.len(), 2);
}
