use std::collections::HashMap;

use hypewwisoww::arch::x86_64::instructions::{
    CpuidResult, HostRegisters, Reply, Request,
};
use hypewwisoww::hypervisor::{hypervisor_main, CoreReply, CoreRequest, CoreStep, Entry};
use hypewwisoww::serial::LogRecord;
use hypewwisoww::stages::Vectors;
use hypewwisoww::uefi::Handoff;

const BASE: u64 = 0x40_0000;

const VECTORS: Vectors = Vectors { tss_base: 0x7000, stubs: [1; 32], unhandled: 2 };

fn handoff(map_size: usize, arena_pages: u64) -> Handoff {
    Handoff {
        memory_map: 0x5000,
        memory_map_size: map_size,
        descriptor_size: 40,
        descriptor_version: 1,
        _padding: 0,
        stack_guard: 0x10_0000,
        stack_base: 0x10_1000,
        stack_top: 0x11_1000,
        vmxon_region: 0x20_0000,
        bootstrap_arena_base: BASE,
        bootstrap_arena_size: arena_pages * 4096,
    }
}

/// One descriptor of 16 MiB of free memory from 1 MiB on.
fn memory_map() -> Vec<u8> {
    let mut bytes = Vec::new();
    bytes.extend(7u64.to_le_bytes());
    bytes.extend(0x10_0000u64.to_le_bytes());
    bytes.extend(0u64.to_le_bytes());
    bytes.extend(4096u64.to_le_bytes());
    bytes.extend(0u64.to_le_bytes());
    bytes
}

struct Machine {
    tables_loaded: bool,
    nx: bool,
    arena: Vec<u64>,
    arena_at_switch: Vec<u64>,
    messages_at_store: usize,
    cr0: u64,
    cr3: u64,
    console: Vec<LogRecord>,
    vmcs: HashMap<u64, u64>,
    vmx_on: bool,
    launched: bool,
    has_vmx: bool,
    launch_fails: bool,
    reason_fails: bool,
}

impl Machine {
    fn new() -> Self {
        Machine {
            tables_loaded: false,
            nx: false,
            arena: Vec::new(),
            arena_at_switch: Vec::new(),
            messages_at_store: 0,
            cr0: 0x8000_0011,
            cr3: 0,
            console: Vec::new(),
            vmcs: HashMap::new(),
            vmx_on: false,
            launched: false,
            has_vmx: true,
            launch_fails: false,
            reason_fails: false,
        }
    }

    fn perform(&mut self, request: Request) -> Reply {
        match request {
            Request::Log { record } => self.console.push(record),
            Request::Cpuid { leaf, .. } => {
                let eax = if leaf == 0x8000_0000 { 0x8000_0008 } else { 0 };
                let edx = if leaf == 0x8000_0001 { 1 << 20 } else { 0 };
                let ecx = if self.has_vmx { 1 << 5 } else { 0 };
                return Reply::Cpuid { result: CpuidResult { eax, ebx: 0, ecx, edx } };
            }
            Request::Rdmsr { msr } => {
                return Reply::Value {
                    value: match msr {
                        0x3a => 5,
                        0x480 => 0x12 | 4096 << 32 | 6 << 50,
                        0x48c => 0x4040,
                        0x481..=0x490 => 0xffff_ffff_0000_0000,
                        _ => 0,
                    },
                }
            }
            Request::Wrmsr { msr, value } => {
                assert_eq!((msr, value & 0x800), (0xc000_0080, 0x800));
                self.nx = true;
            }
            Request::ReadCr0 => return Reply::Value { value: self.cr0 },
            Request::ReadCr4 => return Reply::Value { value: 0x20 },
            Request::WriteCr0 { value } => self.cr0 = value,
            Request::WriteCr3 { value } => {
                self.cr3 = value;
                self.arena_at_switch = self.arena.clone();
            }
            Request::ReadHostRegisters => {
                let registers = HostRegisters {
                    cr0: self.cr0,
                    cr3: self.cr3,
                    cr4: 0x20,
                    es: 0x10,
                    cs: 0x08,
                    ss: 0x10,
                    ds: 0x10,
                    fs: 0,
                    gs: 0,
                    tr: 0x18,
                    tss_base: 0x7000,
                    gdtr_base: 0x7100,
                    idtr_base: 0x7200,
                    vmexit_entry: 0x7300,
                };
                return Reply::Host { registers };
            }
            Request::Vmxon { .. } => {
                self.vmx_on = true;
                return Reply::Status { failed: 0 };
            }
            Request::Vmclear { .. } | Request::Vmptrld { .. } => {
                return Reply::Status { failed: 0 };
            }
            Request::Vmwrite { field, value } => {
                self.vmcs.insert(field, value);
                return Reply::Status { failed: 0 };
            }
            Request::Vmread { field } => {
                assert_eq!(field, 0x4400);
                return Reply::Read { failed: u8::from(self.reason_fails), value: 7 };
            }
            Request::Vmlaunch => {
                self.launched = !self.launch_fails;
                return Reply::Status { failed: u8::from(self.launch_fails) };
            }
            Request::Vmxoff => self.vmx_on = false,
            _ => {}
        }
        Reply::Done
    }

    fn run(&mut self, entry: Option<Entry<'_>>) {
        let mut step = hypervisor_main(entry, VECTORS);
        while let CoreStep::Ask { state, request } = step {
            let reply = match request {
                CoreRequest::Report { records } => {
                    self.console.extend(records);
                    CoreReply::Done
                }
                CoreRequest::LoadTables { tables } => {
                    assert_eq!(tables.tss.bytes[4..12], 0x11_1000u64.to_le_bytes());
                    self.tables_loaded = true;
                    CoreReply::Done
                }
                CoreRequest::ReadArena { base, bytes } => {
                    assert_eq!(base, BASE);
                    CoreReply::Words { words: vec![0; bytes as usize / 8] }
                }
                CoreRequest::StoreArena { base, words } => {
                    assert_eq!(base, BASE);
                    self.arena = words;
                    self.messages_at_store = self.console.len();
                    CoreReply::Done
                }
                CoreRequest::Processor { request } => {
                    CoreReply::Processor { reply: self.perform(request) }
                }
            };
            step = state.next(reply);
        }
    }

    fn run_with(&mut self, handoff: Handoff, map: &[u8]) {
        self.run(Some(Entry { handoff, map }));
    }

    fn start(&mut self) -> u64 {
        self.run_with(handoff(40, 80), &memory_map());
        BASE + 54 * 4096
    }

    /// The word at the start of a page of the arena.
    fn word(&self, page: usize) -> u64 {
        self.arena[page * 512]
    }

    fn last(&self) -> LogRecord {
        self.console[self.console.len() - 1]
    }
}

#[test]
fn guest_is_started() {
    let mut machine = Machine::new();
    let root = machine.start();
    assert!(machine.vmx_on && machine.launched);
    assert_eq!(machine.cr3, root);
    assert_eq!(machine.vmcs[&0x6c02], root);
    assert_eq!(machine.vmcs[&0x681e], 0x4000);
    assert_eq!(machine.vmcs[&0x6c16], 0x7300);
    assert!(machine.tables_loaded && machine.nx);
    assert_eq!(machine.arena.len(), 80 * 512);
    assert_eq!(machine.arena_at_switch, machine.arena);
    assert_eq!(machine.word(54) & 1, 1);
    assert_eq!(machine.messages_at_store, 8);
    assert_eq!(
        machine.console,
        vec![
            LogRecord::Line("hypewwisoww: boot services exited; core owns execution"),
            LogRecord::Hex("hypewwisoww: memory-map bytes=", 40),
            LogRecord::Hex("hypewwisoww: descriptor bytes=", 40),
            LogRecord::Line("hypewwisoww: host GDT/TSS/IDT active"),
            LogRecord::Hex("hypewwisoww: bootstrap arena remaining=", 53 * 4096),
            LogRecord::Hex("hypewwisoww: memory descriptors=", 1),
            LogRecord::Hex("hypewwisoww: free ranges=", 1),
            LogRecord::Hex("hypewwisoww: free 4K frames=", 4096),
            LogRecord::Hex("hypewwisoww: host CR3=", root),
            LogRecord::Hex("hypewwisoww: mapped 4K pages=", 4091),
            LogRecord::Hex("hypewwisoww: NX active=", 1),
            LogRecord::Line("hypewwisoww: host-owned page tables active"),
            LogRecord::Hex("hypewwisoww: VMX root active, revision=", 0x12),
            LogRecord::Line("hypewwisoww: launching EPT-backed 64-bit validation guest"),
        ]
    );
}

#[test]
fn write_protection_is_on_before_vmx() {
    let mut machine = Machine::new();
    machine.has_vmx = false;
    let root = machine.start();
    assert_eq!((machine.cr0, machine.cr3), (0x8001_0011, root));
    assert!(!machine.vmx_on);
    assert_eq!(
        machine.console[12..],
        [
            LogRecord::Line("hypewwisoww: VMX entry failed"),
            LogRecord::Hex("hypewwisoww: VMX error=", 1),
        ]
    );
}

#[test]
fn failed_launch_leaves_vmx_operation() {
    let mut machine = Machine::new();
    machine.launch_fails = true;
    machine.start();
    assert!(!machine.vmx_on && !machine.launched);
    assert_eq!(
        machine.console[14..],
        [
            LogRecord::Hex("hypewwisoww: VMLAUNCH path failed=", 7),
            LogRecord::Hex("hypewwisoww: VM-instruction error=", 7),
        ]
    );
    let mut silent = Machine::new();
    silent.launch_fails = true;
    silent.reason_fails = true;
    silent.start();
    assert!(!silent.vmx_on);
    assert_eq!(silent.console.len(), 15);
}

#[test]
fn core_without_a_handoff_stops() {
    let mut machine = Machine::new();
    machine.run(None);
    assert_eq!(machine.last(), LogRecord::Line("null UEFI handoff"));
    assert!(!machine.tables_loaded);
}

#[test]
fn core_stops_at_the_first_failing_stage() {
    let map = memory_map();
    for (handoff, last) in [
        (
            Handoff { bootstrap_arena_base: BASE + 8, ..handoff(40, 80) },
            LogRecord::Hex("hypewwisoww: invalid bootstrap arena=", 1),
        ),
        (
            Handoff { bootstrap_arena_base: 0xffff_ffff_ffff_f000, ..handoff(40, 1) },
            LogRecord::Hex("hypewwisoww: invalid bootstrap arena=", 2),
        ),
        (handoff(40, 20), LogRecord::Hex("hypewwisoww: descriptor setup failed=", 0)),
        (
            Handoff { descriptor_size: 39, ..handoff(40, 80) },
            LogRecord::Hex("hypewwisoww: invalid memory map=", 1),
        ),
    ] {
        let mut machine = Machine::new();
        machine.run_with(handoff, &map);
        assert_eq!(machine.last(), last);
        assert!(machine.arena.is_empty());
        assert_eq!((machine.cr3, machine.vmx_on), (0, false));
    }
}

#[test]
fn core_stops_without_room_for_the_machine_or_the_tables() {
    let map = memory_map();
    let machine_failed = LogRecord::Hex("hypewwisoww: VM resource allocation failed=", 0);
    let paging_failed = LogRecord::Hex("hypewwisoww: host paging failed=", 0);
    for (pages, last) in [
        (40, machine_failed),
        (51, machine_failed),
        (54, paging_failed),
        (55, paging_failed),
    ] {
        let mut machine = Machine::new();
        machine.run_with(handoff(40, pages), &map);
        assert_eq!(machine.last(), last);
        assert_eq!(machine.arena.len(), pages as usize * 512);
        assert_eq!(machine.messages_at_store, machine.console.len() - 1);
        assert_eq!((machine.cr3, machine.vmx_on), (0, false));
    }
}

#[test]
fn failing_stage_leaves_what_it_wrote() {
    let map = memory_map();
    let mut neither = Machine::new();
    neither.run_with(handoff(40, 40), &map);
    assert!(neither.arena.iter().all(|word| *word == 0));
    let mut guest_only = Machine::new();
    guest_only.run_with(handoff(40, 51), &map);
    assert_eq!(guest_only.word(45), 0x2003);
    assert_eq!(guest_only.word(48), 0xc101_0ff0_0dca_feb8);
    assert_eq!(guest_only.word(50), 0);
    let mut no_tables = Machine::new();
    no_tables.run_with(handoff(40, 54), &map);
    assert_eq!(no_tables.word(50), (BASE + 51 * 4096) | 7);
    let mut some_tables = Machine::new();
    some_tables.run_with(handoff(40, 56), &map);
    assert_eq!(some_tables.last(), LogRecord::Hex("hypewwisoww: host paging failed=", 0));
    assert_eq!(some_tables.word(54), (BASE + 55 * 4096) | 3);
}

#[test]
fn no_execute_is_switched_on_before_the_tables_are_built() {
    let map = memory_map();
    let mut none = Machine::new();
    none.run_with(handoff(40, 54), &map);
    assert_eq!(none.last(), LogRecord::Hex("hypewwisoww: host paging failed=", 0));
    assert!(none.nx);
    let mut machine = Machine::new();
    machine.run_with(handoff(40, 51), &map);
    assert!(!machine.nx);
}

#[test]
fn bad_frame_ledger_stops_the_core() {
    let mut map = memory_map();
    map[8] = 1;
    let mut machine = Machine::new();
    machine.run_with(handoff(40, 80), &map);
    assert_eq!(machine.last(), LogRecord::Hex("hypewwisoww: frame ledger failed=", 2));
    assert!(machine.tables_loaded);
}
