use std::collections::HashMap;

use hypewwisoww::arch::x86_64::instructions::{HostRegisters, Reply, Request, Step};
use hypewwisoww::arch::x86_64::vm::{
    ept_map, instruction_error, launch, pages, vmclear, vmptrld, vmread, vmwrite, write_entry,
    InstructionErrorStep, LaunchStep, VmError, VmResources, GUEST_MAGIC,
};
use hypewwisoww::arch::x86_64::vmcs::{
    adjusted_controls, check_ept, choose_controls, write_controls, write_guest_state,
    write_host_state, ControlCapabilities, Controls, GuestMsrs, HostMsrs, VmcsWrite,
};
use hypewwisoww::arch::x86_64::vmx::VmxInfo;
use hypewwisoww::boot_alloc::BootArena;
use hypewwisoww::phys::PhysMemory;

const BASE: u64 = 0x10_0000;
const ADDRESS: u64 = 0x000f_ffff_ffff_f000;

fn arena_of(pages: u64) -> BootArena {
    BootArena::new(BASE, pages * 4096).unwrap_or_else(|error| panic!("{error:?}"))
}

fn make(count: u64) -> (Result<VmResources, VmError>, Vec<u64>, u64) {
    let mut arena = arena_of(count);
    let mut memory = PhysMemory::new(BASE, vec![0; count as usize * 512]).unwrap();
    let result = VmResources::allocate(&mut arena, &mut memory);
    (result, memory.into_parts().1, arena.remaining_bytes() / 4096)
}

fn word(words: &[u64], address: u64) -> u64 {
    words[((address - BASE) / 8) as usize]
}

/// The processor's walk through the extended page tables: the host address and
/// the rights.
fn ept_walk(words: &[u64], root: u64, guest: u64) -> Option<(u64, u64)> {
    let mut table = root;
    let mut rights = 7;
    for shift in [39, 30, 21, 12] {
        let entry = word(words, table + 8 * (guest >> shift & 0x1ff));
        rights &= entry;
        if entry & 7 == 0 {
            return None;
        }
        table = entry & ADDRESS;
    }
    Some((table + (guest & 0xfff), rights))
}

const PML4: u64 = BASE + 18 * 4096;
const CODE: u64 = PML4 + 3 * 4096;
const EPT_ROOT: u64 = PML4 + 5 * 4096;

#[test]
fn blocks_follow_one_another() {
    let (result, _, left) = make(30);
    let resources = result.unwrap();
    assert_eq!(left, 3);
    assert_eq!(resources.guard_page(), BASE + 4096);
}

#[test]
fn guest_reaches_its_five_pages_only() {
    let (_, words, _) = make(27);
    assert_eq!(ept_walk(&words, EPT_ROOT, 0x1008), Some((PML4 + 8, 3)));
    assert_eq!(ept_walk(&words, EPT_ROOT, 0x2000), Some((PML4 + 0x1000, 3)));
    assert_eq!(ept_walk(&words, EPT_ROOT, 0x3000), Some((PML4 + 0x2000, 3)));
    assert_eq!(ept_walk(&words, EPT_ROOT, 0x4fff), Some((CODE + 0xfff, 5)));
    assert_eq!(ept_walk(&words, EPT_ROOT, 0x5000), Some((CODE + 0x1000, 3)));
    for guest in [0, 0xfff, 0x6000, 0x20_1000, 0x4000_1000, 0x80_0000_1000] {
        assert_eq!(ept_walk(&words, EPT_ROOT, guest), None);
    }
}

#[test]
fn no_page_is_both_written_and_executed() {
    let (_, words, _) = make(27);
    for page in 0..512 {
        if let Some((_, rights)) = ept_walk(&words, EPT_ROOT, page * 4096) {
            assert_ne!(rights & 6, 6);
        }
    }
}

#[test]
fn guest_does_not_reach_the_host() {
    let (_, words, _) = make(27);
    for page in 0..512 {
        if let Some((host, _)) = ept_walk(&words, EPT_ROOT, page * 4096) {
            assert!((PML4..EPT_ROOT).contains(&host));
        }
    }
}

#[test]
fn leaves_are_write_back() {
    let (_, words, _) = make(27);
    let last = EPT_ROOT + 3 * 4096;
    assert_eq!(word(&words, last + 8), PML4 | 0x33);
    assert_eq!(word(&words, last + 4 * 8), CODE | 0x35);
}

#[test]
fn guest_tables_map_two_megabytes_to_themselves() {
    let (_, words, _) = make(27);
    assert_eq!(word(&words, PML4), 0x2003);
    assert_eq!(word(&words, PML4 + 0x1000), 0x3003);
    assert_eq!(word(&words, PML4 + 0x2000), 0x83);
    assert!(words[(PML4 - BASE) as usize / 8 + 1..][..511].iter().all(|&word| word == 0));
}

#[test]
fn guest_program_shows_the_magic_and_halts() {
    let (_, words, _) = make(27);
    let mut bytes = word(&words, CODE).to_le_bytes().to_vec();
    bytes.extend(word(&words, CODE + 8).to_le_bytes());
    assert_eq!(bytes[..9], [0xb8, 0xfe, 0xca, 0x0d, 0xf0, 0x0f, 0x01, 0xc1, 0xf4]);
    assert_eq!(bytes[1..5], GUEST_MAGIC.to_le_bytes());
    assert_eq!(bytes[9..], [0; 7]);
}

#[test]
fn bytes_behind_the_program_stay() {
    let mut arena = arena_of(27);
    let mut memory = PhysMemory::new(BASE, vec![u64::MAX; 27 * 512]).unwrap();
    assert!(VmResources::allocate(&mut arena, &mut memory).is_ok());
    assert_eq!(memory.read(CODE + 8), 0xffff_ffff_ffff_fff4);
    assert_eq!(memory.read(CODE + 16), u64::MAX);
}

#[test]
fn virtual_machine_needs_27_pages() {
    for count in 1..27 {
        let (result, _, _) = make(count);
        assert_eq!(result.err(), Some(VmError::ArenaExhausted));
    }
    assert!(make(27).0.is_ok());
    let (_, words, left) = make(24);
    assert_eq!(left, 0);
    assert_eq!(word(&words, PML4), 0x2003);
    let (_, words, left) = make(10);
    assert_eq!(left, 9);
    assert!(words.iter().all(|&word| word == 0));
}

#[test]
fn entries_are_put_in_their_tables() {
    let mut memory = PhysMemory::new(BASE, vec![0; 512]).unwrap();
    write_entry(&mut memory, BASE, 511, 9);
    assert_eq!(memory.read(BASE + 4088), 9);
    ept_map(&mut memory, BASE, 0x20_3fff, 0x5000, 0x1);
    assert_eq!(memory.read(BASE + 3 * 8), 0x5031);
    let mut arena = arena_of(2);
    assert_eq!(pages(&mut arena, 2), Ok(BASE));
    assert_eq!(pages(&mut arena, 1), Err(VmError::ArenaExhausted));
}

#[test]
fn controls_are_adjusted_to_the_processor() {
    assert_eq!(adjusted_controls(0, 0x0000_00ff_0000_0016), 0x16);
    assert_eq!(adjusted_controls(0x81, 0xffff_ff7f_0000_0002), 0x03);
    assert_eq!(adjusted_controls(0xffff_ffff, 0x0000_000f_0000_0000), 0x0f);
    assert_eq!(adjusted_controls(0, 0x0000_0000_0000_0001), 0);
}

const ALL: u64 = 0xffff_ffff_0000_0000;

const CAPABILITIES: ControlCapabilities = ControlCapabilities {
    pin: ALL | 0x16,
    primary: ALL | 0x0401_e172,
    secondary: ALL,
    exit: ALL | 0x0003_6dff,
    entry: ALL | 0x11ff,
};

#[test]
fn controls_hold_what_the_guest_needs() {
    assert_eq!(
        choose_controls(CAPABILITIES),
        Ok(Controls {
            pin: 0x16,
            primary: 0x0401_e172 | 0x8180_0080,
            secondary: 2,
            exit: 0x0003_6dff | 0x30_0200,
            entry: 0x11ff | 0x8200,
        })
    );
}

#[test]
fn missing_controls_are_refused() {
    let without = |bit: u64| !(bit << 32);
    let secondary = without(1 << 31) & CAPABILITIES.primary;
    let ept = without(1 << 1) & CAPABILITIES.secondary;
    for (primary, secondary, exit, entry) in [
        (secondary, CAPABILITIES.secondary, ALL, ALL),
        (CAPABILITIES.primary, ept, ALL, ALL),
        (CAPABILITIES.primary, ALL, ALL & without(1 << 9), ALL),
        (CAPABILITIES.primary, ALL, ALL & without(1 << 20), ALL),
        (CAPABILITIES.primary, ALL, ALL & without(1 << 21), ALL),
        (CAPABILITIES.primary, ALL, ALL, ALL & without(1 << 9)),
        (CAPABILITIES.primary, ALL, ALL, ALL & without(1 << 15)),
    ] {
        let capabilities = ControlCapabilities { pin: ALL, primary, secondary, exit, entry };
        assert_eq!(choose_controls(capabilities), Err(VmError::ControlUnavailable));
    }
    let no_hlt = ControlCapabilities { primary: ALL & without(1 << 7), ..CAPABILITIES };
    assert!(choose_controls(no_hlt).is_ok());
}

#[test]
fn extended_page_tables_must_be_there() {
    assert_eq!(check_ept(0x4040), Ok(()));
    assert_eq!(check_ept(0x4000), Err(VmError::EptUnavailable));
    assert_eq!(check_ept(0x0040), Err(VmError::EptUnavailable));
    assert_eq!(check_ept(u64::MAX), Ok(()));
}

fn as_map(writes: &[VmcsWrite]) -> HashMap<u64, u64> {
    let map: HashMap<u64, u64> = writes.iter().map(|write| (write.field, write.value)).collect();
    assert_eq!(map.len(), writes.len());
    map
}

#[test]
fn control_fields_are_written() {
    let controls = Controls { pin: 1, primary: 2, secondary: 3, exit: 4, entry: 5 };
    let writes = write_controls(controls, 0x7000);
    assert_eq!(writes.len(), 18);
    let map = as_map(&writes);
    assert_eq!(map[&0x4000], 1);
    assert_eq!(map[&0x4002], 2);
    assert_eq!(map[&0x401e], 3);
    assert_eq!(map[&0x400c], 4);
    assert_eq!(map[&0x4012], 5);
    assert_eq!(map[&0x201a], 0x7000 | 0x30 | 0x18);
    for field in [0x4004, 0x4006, 0x4008, 0x400a, 0x400e, 0x4010, 0x4014, 0x4016] {
        assert_eq!(map[&field], 0);
    }
    for field in [0x6000, 0x6002, 0x6004, 0x6006] {
        assert_eq!(map[&field], 0);
    }
}

#[test]
fn guest_fields_are_written() {
    let msrs = GuestMsrs {
        cr0_fixed0: 0x8000_0021,
        cr0_fixed1: 0xffff_ffff,
        cr4_fixed0: 0x2000,
        cr4_fixed1: 0x37_27ff,
        efer: 0x801,
        pat: 0x0007_0406_0007_0406,
    };
    let writes = write_guest_state(msrs);
    assert_eq!(writes.len(), 53);
    assert_eq!(writes[0], VmcsWrite { field: 0x6800, value: 0x8001_0033 });
    let map = as_map(&writes);
    assert_eq!(map[&0x6802], 0x1000);
    assert_eq!(map[&0x6804], 0x2020);
    assert_eq!(map[&0x681a], 0x400);
    assert_eq!(map[&0x681c], 0x6000);
    assert_eq!(map[&0x681e], 0x4000);
    assert_eq!(map[&0x6820], 2);
    assert_eq!(map[&0x2800], u64::MAX);
    assert_eq!(map[&0x2804], 0x0007_0406_0007_0406);
    assert_eq!(map[&0x2806], 0xd01);
    for (selector, base, limit, access, expected) in [
        (0x0800, 0x6806, 0x4800, 0x4814, (0x10, 0, 0xffff_ffff, 0xc093)),
        (0x0802, 0x6808, 0x4802, 0x4816, (0x08, 0, 0xffff_ffff, 0xa09b)),
        (0x0804, 0x680a, 0x4804, 0x4818, (0x10, 0, 0xffff_ffff, 0xc093)),
        (0x0806, 0x680c, 0x4806, 0x481a, (0x10, 0, 0xffff_ffff, 0xc093)),
        (0x0808, 0x680e, 0x4808, 0x481c, (0x10, 0, 0xffff_ffff, 0xc093)),
        (0x080a, 0x6810, 0x480a, 0x481e, (0x10, 0, 0xffff_ffff, 0xc093)),
        (0x080c, 0x6812, 0x480c, 0x4820, (0, 0, 0, 0x1_0000)),
        (0x080e, 0x6814, 0x480e, 0x4822, (0x18, 0, 0x67, 0x8b)),
    ] {
        assert_eq!((map[&selector], map[&base], map[&limit], map[&access]), expected);
    }
    for field in [0x6816, 0x4810, 0x6818, 0x4812, 0x4824, 0x4826, 0x482a, 0x6824, 0x6826] {
        assert_eq!(map[&field], 0);
    }
}

const HOST: HostRegisters = HostRegisters {
    cr0: 1,
    cr3: 2,
    cr4: 3,
    es: 0x13,
    cs: 0x0b,
    ss: 0x10,
    ds: 0x17,
    fs: 0x07,
    gs: 0x00,
    tr: 0x1f,
    tss_base: 0x100,
    gdtr_base: 0x200,
    idtr_base: 0x300,
    vmexit_entry: 0x400,
};

#[test]
fn host_fields_are_written() {
    let msrs = HostMsrs {
        fs_base: 11,
        gs_base: 12,
        pat: 13,
        efer: 14,
        sysenter_cs: 15,
        sysenter_esp: 16,
        sysenter_eip: 17,
    };
    let writes = write_host_state(HOST, msrs, 0x9000);
    assert_eq!(writes.len(), 22);
    let map = as_map(&writes);
    assert_eq!((map[&0x6c00], map[&0x6c02], map[&0x6c04]), (1, 2, 3));
    assert_eq!((map[&0x0c00], map[&0x0c02], map[&0x0c04]), (0x10, 0x08, 0x10));
    assert_eq!((map[&0x0c06], map[&0x0c08], map[&0x0c0a]), (0x10, 0, 0));
    assert_eq!(map[&0x0c0c], 0x18);
    assert_eq!((map[&0x6c06], map[&0x6c08], map[&0x6c0a]), (11, 12, 0x100));
    assert_eq!((map[&0x6c0c], map[&0x6c0e]), (0x200, 0x300));
    assert_eq!((map[&0x2c00], map[&0x2c02]), (13, 14));
    assert_eq!((map[&0x4c00], map[&0x6c10], map[&0x6c12]), (15, 16, 17));
    assert_eq!((map[&0x6c14], map[&0x6c16]), (0x9000, 0x400));
}

const INFO: VmxInfo =
    VmxInfo { revision_id: 0x12, true_controls: true, wide_physical_addresses: true };

/// Launches on a processor that has everything, but fails at `fails`.
fn launch_on(
    info: VmxInfo,
    msr: impl Fn(u32) -> u64,
    fails: impl Fn(Request) -> bool,
) -> (Result<(), VmError>, Vec<Request>) {
    let resources = make(27).0.unwrap();
    let mut asked = Vec::new();
    let mut step: LaunchStep = launch(&resources, info);
    loop {
        step = match step {
            Step::Ask { state, request } => {
                asked.push(request);
                let failed = u8::from(fails(request));
                state.next(match request {
                    Request::Rdmsr { msr: number } => Reply::Value { value: msr(number) },
                    Request::ReadHostRegisters => Reply::Host { registers: HOST },
                    Request::StoreU32 { .. } => Reply::Done,
                    _ => Reply::Status { failed },
                })
            }
            Step::Finished { result } => return (result, asked),
        };
    }
}

fn everything(number: u32) -> u64 {
    match number {
        0x481..=0x48b | 0x48d..=0x490 => ALL,
        0x48c => 0x4040,
        _ => u64::from(number),
    }
}

#[test]
fn guest_is_launched() {
    let (result, asked) = launch_on(INFO, everything, |_| false);
    assert_eq!(result, Ok(()));
    assert_eq!(asked.len(), 117);
    assert_eq!(asked[0], Request::StoreU32 { address: BASE, word: 0x12 });
    assert_eq!(asked[1], Request::Vmclear { vmcs: BASE });
    assert_eq!(asked[2], Request::Vmptrld { vmcs: BASE });
    assert_eq!(asked[3], Request::Rdmsr { msr: 0x48d });
    assert_eq!(asked[4], Request::Rdmsr { msr: 0x48e });
    assert_eq!(asked[5], Request::Rdmsr { msr: 0x48b });
    assert_eq!(asked[6], Request::Rdmsr { msr: 0x48f });
    assert_eq!(asked[7], Request::Rdmsr { msr: 0x490 });
    assert_eq!(asked[8], Request::Rdmsr { msr: 0x48c });
    assert_eq!(asked[116], Request::Vmlaunch);
    let written: HashMap<u64, u64> = asked
        .iter()
        .filter_map(|request| match request {
            Request::Vmwrite { field, value } => Some((*field, *value)),
            _ => None,
        })
        .collect();
    assert_eq!(written.len(), 93);
    assert_eq!(written[&0x681e], 0x4000);
    assert_eq!(written[&0x6802], 0x1000);
    assert_eq!(written[&0x201a], EPT_ROOT | 0x38);
    assert_eq!(written[&0x6c14], BASE + 18 * 4096);
    assert_eq!(written[&0x6c16], 0x400);
    assert_eq!(written[&0x2c02], 0xc000_0080);
    assert_eq!(written[&0x2806], 0xc000_0580);
}

#[test]
fn plain_controls_are_read_without_true_ones() {
    let info = VmxInfo { true_controls: false, ..INFO };
    let (result, asked) = launch_on(info, everything, |_| false);
    assert_eq!(result, Ok(()));
    let read: Vec<Request> = asked[3..8].to_vec();
    let expected = [0x481, 0x482, 0x48b, 0x483, 0x484].map(|msr| Request::Rdmsr { msr });
    assert_eq!(read, expected);
}

#[test]
fn narrow_addresses_are_enough_below_4_gib() {
    let info = VmxInfo { wide_physical_addresses: false, ..INFO };
    assert_eq!(launch_on(info, everything, |_| false).0, Ok(()));
}

#[test]
fn high_control_structure_needs_wide_addresses() {
    let base = 0x1_0000_0000;
    let mut arena = match BootArena::new(base, 27 * 4096) {
        Ok(arena) => arena,
        Err(error) => panic!("{error:?}"),
    };
    let mut memory = PhysMemory::new(base, vec![0; 27 * 512]).unwrap();
    let resources = VmResources::allocate(&mut arena, &mut memory).unwrap();
    let info = VmxInfo { wide_physical_addresses: false, ..INFO };
    match launch(&resources, info) {
        Step::Finished { result } => assert_eq!(result, Err(VmError::VmcsAddressWidth)),
        Step::Ask { .. } => panic!("the launch went on"),
    }
    assert!(matches!(launch(&resources, INFO), Step::Ask { .. }));
}

#[test]
fn failed_instructions_end_the_launch() {
    let fails = |wanted: fn(&Request) -> bool| {
        let (result, asked) = launch_on(INFO, everything, |request| wanted(&request));
        (result.unwrap_err(), asked.len())
    };
    assert_eq!(
        fails(|request| matches!(request, Request::Vmclear { .. })),
        (VmError::VmclearFailed, 2)
    );
    assert_eq!(
        fails(|request| matches!(request, Request::Vmptrld { .. })),
        (VmError::VmptrldFailed, 3)
    );
    assert_eq!(
        fails(|request| matches!(request, Request::Vmwrite { field: 0x4002, .. })),
        (VmError::VmwriteFailed, 11)
    );
    assert_eq!(
        fails(|request| matches!(request, Request::Vmwrite { field: 0x6c16, .. })),
        (VmError::VmwriteFailed, 116)
    );
    assert_eq!(
        fails(|request| matches!(request, Request::Vmlaunch)),
        (VmError::VmlaunchFailed, 117)
    );
}

#[test]
fn missing_capabilities_end_the_launch() {
    let without_ept = |number| if number == 0x48b { 0 } else { everything(number) };
    let (result, asked) = launch_on(INFO, without_ept, |_| false);
    assert_eq!((result, asked.len()), (Err(VmError::ControlUnavailable), 8));
    let without_walk = |number| if number == 0x48c { 0 } else { everything(number) };
    let (result, asked) = launch_on(INFO, without_walk, |_| false);
    assert_eq!((result, asked.len()), (Err(VmError::EptUnavailable), 9));
}

#[test]
fn reason_of_a_failure_is_asked_for() {
    let answer = |failed, value| {
        let step: InstructionErrorStep = instruction_error();
        match step {
            Step::Ask { state, request } => {
                assert_eq!(request, Request::Vmread { field: 0x4400 });
                match state.next(Reply::Read { failed, value }) {
                    Step::Finished { result } => result,
                    Step::Ask { .. } => panic!("asked twice"),
                }
            }
            Step::Finished { .. } => panic!("asked nothing"),
        }
    };
    assert_eq!(answer(0, 7), Some(7));
    assert_eq!(answer(1, 7), None);
}

#[test]
fn instruction_outcomes_have_their_errors() {
    assert_eq!((vmclear(0), vmclear(1)), (Ok(()), Err(VmError::VmclearFailed)));
    assert_eq!((vmptrld(0), vmptrld(1)), (Ok(()), Err(VmError::VmptrldFailed)));
    assert_eq!((vmwrite(0), vmwrite(1)), (Ok(()), Err(VmError::VmwriteFailed)));
    assert_eq!((vmread(0, 5), vmread(1, 5)), (Ok(5), Err(VmError::VmreadFailed)));
}

#[test]
fn machine_errors_have_their_numbers() {
    assert_eq!(VmError::ArenaExhausted.code(), 0);
    assert_eq!(VmError::VmcsAddressWidth.code(), 1);
    assert_eq!(VmError::VmclearFailed.code(), 2);
    assert_eq!(VmError::VmptrldFailed.code(), 3);
    assert_eq!(VmError::VmwriteFailed.code(), 4);
    assert_eq!(VmError::ControlUnavailable.code(), 5);
    assert_eq!(VmError::EptUnavailable.code(), 6);
    assert_eq!(VmError::VmlaunchFailed.code(), 7);
    assert_eq!(VmError::VmreadFailed.code(), 8);
}
