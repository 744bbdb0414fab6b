use std::collections::VecDeque;

use hypewwisoww::boot::{efi_main, BootStep};
use hypewwisoww::serial::LogRecord;
use hypewwisoww::uefi::{
    EfiBootServices, EfiStatus, EfiSystemTable, EfiTableHeader, FirmwareReply, FirmwareRequest,
    FirmwareStep, Handoff, MapInfo, EFI_INVALID_PARAMETER,
};

const OUT_OF_RESOURCES: EfiStatus = 0x8000_0000_0000_0009;
const BUFFER_TOO_SMALL: EfiStatus = 0x8000_0000_0000_0005;
const BUFFER: u64 = 0xb000;

const MAP: MapInfo =
    MapInfo { map_size: 480, map_key: 77, descriptor_size: 48, descriptor_version: 1 };

fn header(signature: u64, header_size: u32) -> EfiTableHeader {
    EfiTableHeader { signature, revision: 0x2_0046, header_size, crc32: 0, reserved: 0 }
}

fn system_table() -> EfiSystemTable {
    EfiSystemTable { header: header(0x5453_5953_2049_4249, 120), boot_services: 0x9000 }
}

struct Firmware {
    boot_services: EfiBootServices,
    grants: VecDeque<(EfiStatus, u64)>,
    maps: VecDeque<(EfiStatus, MapInfo)>,
    exits: VecDeque<EfiStatus>,
    held: Vec<(u64, usize)>,
    freed: Vec<(u64, usize)>,
    zeroed: Vec<(u64, usize)>,
    handoff: Option<(u64, Handoff)>,
    keys: Vec<usize>,
    console: Vec<LogRecord>,
}

impl Firmware {
    fn new() -> Self {
        Firmware {
            boot_services: EfiBootServices { header: header(0x5652_4553_544f_4f42, 240) },
            grants: VecDeque::from([
                (0, 0x10_0000),
                (0, 0x20_0000),
                (0, 0x30_0000),
                (0, 0x40_0000),
            ]),
            maps: VecDeque::from([(0, MAP)]),
            exits: VecDeque::from([0]),
            held: Vec::new(),
            freed: Vec::new(),
            zeroed: Vec::new(),
            handoff: None,
            keys: Vec::new(),
            console: Vec::new(),
        }
    }

    fn perform(&mut self, request: FirmwareRequest) -> FirmwareReply {
        match request {
            FirmwareRequest::Log { record } => self.console.push(record),
            FirmwareRequest::ReadBootServices { address } => {
                assert_eq!(address, 0x9000);
                return FirmwareReply::BootServices { table: self.boot_services };
            }
            FirmwareRequest::AllocatePages { pages } => {
                let (status, address) = self.grants.pop_front().unwrap();
                if status == 0 {
                    self.held.push((address, pages));
                }
                return FirmwareReply::Allocated { status, address };
            }
            FirmwareRequest::FreePages { address, pages } => {
                assert!(self.held.contains(&(address, pages)));
                self.held.retain(|&block| block != (address, pages));
                self.freed.push((address, pages));
            }
            FirmwareRequest::ZeroPages { address, pages } => self.zeroed.push((address, pages)),
            FirmwareRequest::GetMemoryMap { capacity } => {
                assert_eq!(capacity, 262_144);
                let (status, info) = self.maps.pop_front().unwrap();
                return FirmwareReply::MemoryMap { status, info };
            }
            FirmwareRequest::StoreHandoff { address, handoff } => {
                self.handoff = Some((address, handoff));
            }
            FirmwareRequest::ExitBootServices { image_handle, map_key } => {
                assert_eq!(image_handle, 0x1234);
                self.keys.push(map_key);
                return FirmwareReply::Status { status: self.exits.pop_front().unwrap() };
            }
        }
        FirmwareReply::Done
    }

    fn boot(&mut self, table: Option<EfiSystemTable>) -> Result<u64, EfiStatus> {
        let mut step: BootStep = efi_main(0x1234, table, BUFFER);
        loop {
            step = match step {
                FirmwareStep::Ask { state, request } => state.next(self.perform(request)),
                FirmwareStep::Finished { result } => return result,
            };
        }
    }
}

#[test]
fn image_reaches_the_core() {
    let mut firmware = Firmware::new();
    assert_eq!(firmware.boot(Some(system_table())), Ok(0x30_0000));
    let blocks = vec![(0x10_0000, 17), (0x20_0000, 1), (0x30_0000, 1), (0x40_0000, 1024)];
    assert_eq!(firmware.held, blocks);
    assert_eq!(firmware.zeroed, blocks);
    assert_eq!(firmware.keys, vec![77]);
    assert_eq!(
        firmware.handoff,
        Some((
            0x30_0000,
            Handoff {
                memory_map: BUFFER,
                memory_map_size: 480,
                descriptor_size: 48,
                descriptor_version: 1,
                _padding: 0,
                stack_guard: 0x10_0000,
                stack_base: 0x10_1000,
                stack_top: 0x11_1000,
                vmxon_region: 0x20_0000,
                bootstrap_arena_base: 0x40_0000,
                bootstrap_arena_size: 0x40_0000,
            }
        ))
    );
    assert_eq!(
        firmware.console,
        vec![
            LogRecord::Line("hypewwisoww: UEFI entry"),
            LogRecord::Line("hypewwisoww: leaving UEFI boot services"),
        ]
    );
}

#[test]
fn bad_system_table_is_refused() {
    let good = system_table();
    let bad = [
        None,
        Some(EfiSystemTable { header: header(0x5453_5953_2049_4248, 120), ..good }),
        Some(EfiSystemTable { header: header(0x5453_5953_2049_4249, 119), ..good }),
        Some(EfiSystemTable { boot_services: 0, ..good }),
    ];
    for table in bad {
        let mut firmware = Firmware::new();
        assert_eq!(firmware.boot(table), Err(EFI_INVALID_PARAMETER));
        assert_eq!(firmware.console, vec![LogRecord::Line("hypewwisoww: UEFI entry")]);
        assert!(firmware.held.is_empty());
    }
}

#[test]
fn bad_boot_services_are_refused() {
    for (signature, size) in [(0x5652_4553_544f_4f43, 240), (0x5652_4553_544f_4f42, 239)] {
        let mut firmware = Firmware::new();
        firmware.boot_services = EfiBootServices { header: header(signature, size) };
        assert_eq!(firmware.boot(Some(system_table())), Err(EFI_INVALID_PARAMETER));
        assert!(firmware.held.is_empty());
    }
}

#[test]
fn larger_tables_are_accepted() {
    let mut firmware = Firmware::new();
    firmware.boot_services = EfiBootServices { header: header(0x5652_4553_544f_4f42, 400) };
    let table = EfiSystemTable { header: header(0x5453_5953_2049_4249, 200), ..system_table() };
    assert!(firmware.boot(Some(table)).is_ok());
}

#[test]
fn failed_allocation_gives_everything_back() {
    let blocks = [(0x10_0000, 17), (0x20_0000, 1), (0x30_0000, 1)];
    for failing in 0..4 {
        let mut firmware = Firmware::new();
        firmware.grants[failing] = (OUT_OF_RESOURCES, 0);
        assert_eq!(firmware.boot(Some(system_table())), Err(OUT_OF_RESOURCES));
        assert!(firmware.held.is_empty());
        let mut expected = blocks[..failing].to_vec();
        expected.reverse();
        assert_eq!(firmware.freed, expected);
        assert!(firmware.zeroed.is_empty());
        assert_eq!(
            firmware.console[1],
            LogRecord::Hex("hypewwisoww: preparation failed, EFI_STATUS=", OUT_OF_RESOURCES)
        );
    }
}

#[test]
fn handoff_cannot_stand_at_address_zero() {
    let mut firmware = Firmware::new();
    firmware.grants[2] = (0, 0);
    assert_eq!(firmware.boot(Some(system_table())), Err(EFI_INVALID_PARAMETER));
    assert_eq!(firmware.held.len(), 4);
}

#[test]
fn failed_memory_map_is_returned() {
    let mut firmware = Firmware::new();
    firmware.maps[0].0 = BUFFER_TOO_SMALL;
    assert_eq!(firmware.boot(Some(system_table())), Err(BUFFER_TOO_SMALL));
    assert!(firmware.keys.is_empty());
    assert_eq!(
        firmware.console[2],
        LogRecord::Hex("hypewwisoww: ExitBootServices failed, EFI_STATUS=", BUFFER_TOO_SMALL)
    );
}

#[test]
fn malformed_memory_map_is_refused() {
    for info in [
        MapInfo { descriptor_size: 39, map_size: 390, ..MAP },
        MapInfo { descriptor_size: 0, map_size: 0, ..MAP },
        MapInfo { map_size: 481, ..MAP },
    ] {
        let mut firmware = Firmware::new();
        firmware.maps[0].1 = info;
        assert_eq!(firmware.boot(Some(system_table())), Err(EFI_INVALID_PARAMETER));
        assert!(firmware.keys.is_empty());
        assert!(firmware.handoff.is_none());
    }
}

#[test]
fn stale_map_is_read_again() {
    let mut firmware = Firmware::new();
    let fresh = MapInfo { map_size: 528, map_key: 78, ..MAP };
    firmware.maps = VecDeque::from([(0, MAP), (0, fresh)]);
    firmware.exits = VecDeque::from([EFI_INVALID_PARAMETER, 0]);
    assert_eq!(firmware.boot(Some(system_table())), Ok(0x30_0000));
    assert_eq!(firmware.keys, vec![77, 78]);
    assert_eq!(firmware.handoff.unwrap().1.memory_map_size, 528);
}

#[test]
fn leaving_is_tried_eight_times() {
    let mut firmware = Firmware::new();
    firmware.maps = (0..9).map(|key| (0, MapInfo { map_key: key, ..MAP })).collect();
    firmware.exits = VecDeque::from(vec![EFI_INVALID_PARAMETER; 9]);
    assert_eq!(firmware.boot(Some(system_table())), Err(EFI_INVALID_PARAMETER));
    assert_eq!(firmware.keys, (0..8).collect::<Vec<usize>>());
    let mut last = Firmware::new();
    last.maps = VecDeque::from(vec![(0, MAP); 8]);
    last.exits = VecDeque::from(vec![EFI_INVALID_PARAMETER; 7]);
    last.exits.push_back(0);
    assert_eq!(last.boot(Some(system_table())), Ok(0x30_0000));
}

#[test]
fn other_failures_to_leave_are_returned_at_once() {
    let mut firmware = Firmware::new();
    firmware.exits = VecDeque::from([OUT_OF_RESOURCES]);
    assert_eq!(firmware.boot(Some(system_table())), Err(OUT_OF_RESOURCES));
    assert_eq!(firmware.keys.len(), 1);
}
