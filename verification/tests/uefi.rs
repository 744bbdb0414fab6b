use hypewwisoww::boot_alloc::BootArena;
use hypewwisoww::memory::MemoryMap;
use hypewwisoww::uefi::{
    EfiBootServices, EfiSystemTable, EfiTableHeader, FirmwareReply, FirmwareRequest, FirmwareStep,
    Loader, MapInfo, Prepared, EFI_INVALID_PARAMETER,
};

fn header(signature: u64, header_size: u32) -> EfiTableHeader {
    EfiTableHeader { signature, revision: 0, header_size, crc32: 0, reserved: 0 }
}

fn loader() -> Loader {
    let table =
        EfiSystemTable { header: header(0x5453_5953_2049_4249, 120), boot_services: 0x9000 };
    match Loader::new(5, Some(table)) {
        FirmwareStep::Ask { state, request } => {
            assert_eq!(request, FirmwareRequest::ReadBootServices { address: 0x9000 });
            let table = EfiBootServices { header: header(0x5652_4553_544f_4f42, 240) };
            match state.next(FirmwareReply::BootServices { table }) {
                FirmwareStep::Finished { result } => result.unwrap(),
                FirmwareStep::Ask { .. } => panic!("asked twice"),
            }
        }
        FirmwareStep::Finished { .. } => panic!("asked nothing"),
    }
}

#[test]
fn loader_remembers_its_image_and_services() {
    let loader = loader();
    assert_eq!((loader.image_handle, loader.boot_services), (5, 0x9000));
}

#[test]
fn loader_without_a_table_asks_nothing() {
    assert_eq!(
        Loader::new(5, None),
        FirmwareStep::Finished { result: Err(EFI_INVALID_PARAMETER) }
    );
}

#[test]
fn stack_is_asked_for_first() {
    match loader().prepare() {
        FirmwareStep::Ask { state, request } => {
            assert_eq!(request, FirmwareRequest::AllocatePages { pages: 17 });
            let reply = FirmwareReply::Allocated { status: 9, address: 0 };
            assert_eq!(state.next(reply), FirmwareStep::Finished { result: Err(9) });
        }
        FirmwareStep::Finished { .. } => panic!("asked nothing"),
    }
}

#[test]
fn core_accepts_the_handoff() {
    let prepared = Prepared {
        stack_guard: 0x1000,
        stack_base: 0x2000,
        stack_top: 0x1_2000,
        vmxon_region: 0x2_0000,
        bootstrap_arena_base: 0x40_0000,
        handoff: 0x3_0000,
    };
    let bytes = vec![0; 96];
    let FirmwareStep::Ask { state, .. } = loader().exit_boot_services(prepared, 0xb000) else {
        panic!("asked nothing");
    };
    let info = MapInfo { map_size: 96, map_key: 1, descriptor_size: 48, descriptor_version: 1 };
    match state.next(FirmwareReply::MemoryMap { status: 0, info }) {
        FirmwareStep::Ask {
            request: FirmwareRequest::StoreHandoff { address, handoff },
            ..
        } => {
            assert_eq!(address, 0x3_0000);
            assert!(MemoryMap::from_handoff(&handoff, &bytes).is_ok());
            let arena =
                BootArena::new(handoff.bootstrap_arena_base, handoff.bootstrap_arena_size);
            assert!(arena.is_ok());
        }
        _ => panic!("no hand-over"),
    }
}
