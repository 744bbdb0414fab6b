use hypewwisoww::arch::x86_64::paging::HostPageTables;
use hypewwisoww::arch::x86_64::vm::VmResources;
use hypewwisoww::boot_alloc::BootArena;
use hypewwisoww::phys::PhysMemory;
use hypewwisoww::serial::LogRecord;
use hypewwisoww::stages::{
    fatal, make_vm, map_host, set_up_tables, take_over, take_stock, Vectors,
};
use hypewwisoww::uefi::Handoff;

const BASE: u64 = 0x40_0000;

const VECTORS: Vectors = Vectors { tss_base: 0x7000, stubs: [1; 32], unhandled: 2 };

fn handoff(map_size: usize) -> Handoff {
    Handoff {
        memory_map: 0x5000,
        memory_map_size: map_size,
        descriptor_size: 40,
        descriptor_version: 1,
        _padding: 0,
        stack_guard: 0x10_0000,
        stack_base: 0x10_1000,
        stack_top: 0x11_1000,
        vmxon_region: 0x20_0000,
        bootstrap_arena_base: BASE,
        bootstrap_arena_size: 0x40_0000,
    }
}

/// One descriptor of 16 MiB of free memory from 1 MiB on.
fn memory_map() -> Vec<u8> {
    let mut bytes = Vec::new();
    bytes.extend(7u64.to_le_bytes());
    bytes.extend(0x10_0000u64.to_le_bytes());
    bytes.extend(0u64.to_le_bytes());
    bytes.extend(4096u64.to_le_bytes());
    bytes.extend(0u64.to_le_bytes());
    bytes
}

fn arena(pages: u64) -> BootArena {
    BootArena::new(BASE, pages * 4096).unwrap_or_else(|error| panic!("{error:?}"))
}

fn memory(pages: usize) -> PhysMemory {
    PhysMemory::new(BASE, vec![0; pages * 512]).unwrap()
}

#[test]
fn core_takes_over() {
    let stage = take_over(Some(handoff(40)));
    assert_eq!(
        stage.records,
        vec![
            LogRecord::Line("hypewwisoww: boot services exited; core owns execution"),
            LogRecord::Hex("hypewwisoww: memory-map bytes=", 40),
            LogRecord::Hex("hypewwisoww: descriptor bytes=", 40),
        ]
    );
    let mut arena = stage.value.unwrap_or_else(|| panic!("no arena"));
    assert_eq!(arena.remaining_bytes(), 0x40_0000);
    assert_eq!(arena.allocate_pages(1), Some(BASE));
}

#[test]
fn core_needs_a_handoff() {
    let stage = take_over(None);
    assert!(stage.value.is_none());
    assert_eq!(
        stage.records[1..],
        [LogRecord::Line("hypewwisoww: fatal"), LogRecord::Line("null UEFI handoff")]
    );
}

#[test]
fn core_needs_an_arena() {
    for (base, size, number) in [
        (BASE, 0, 0),
        (BASE + 1, 4096, 1),
        (0xffff_ffff_ffff_f000, 4096, 2),
    ] {
        let stage = take_over(Some(Handoff {
            bootstrap_arena_base: base,
            bootstrap_arena_size: size,
            ..handoff(40)
        }));
        assert!(stage.value.is_none());
        assert_eq!(
            stage.records[3..],
            [LogRecord::Hex("hypewwisoww: invalid bootstrap arena=", number)]
        );
    }
}

#[test]
fn fatal_message_is_appended() {
    let mut records = vec![LogRecord::Line("before")];
    fatal(&mut records, "why");
    assert_eq!(
        records,
        vec![
            LogRecord::Line("before"),
            LogRecord::Line("hypewwisoww: fatal"),
            LogRecord::Line("why"),
        ]
    );
}

#[test]
fn tables_use_the_core_stack() {
    let stage = set_up_tables(&mut arena(27), &handoff(40), &VECTORS);
    assert!(stage.records.is_empty());
    let tables = stage.value.unwrap();
    assert_eq!(tables.tss.bytes[4..12], 0x11_1000u64.to_le_bytes());
}

#[test]
fn failed_tables_are_logged() {
    let stage = set_up_tables(&mut arena(26), &handoff(40), &VECTORS);
    assert!(stage.value.is_none());
    assert_eq!(
        stage.records,
        vec![LogRecord::Hex("hypewwisoww: descriptor setup failed=", 0)]
    );
}

#[test]
fn stock_is_taken() {
    let bytes = memory_map();
    let stage = take_stock(&handoff(40), &bytes, &arena(3));
    assert_eq!(
        stage.records,
        vec![
            LogRecord::Line("hypewwisoww: host GDT/TSS/IDT active"),
            LogRecord::Hex("hypewwisoww: bootstrap arena remaining=", 0x3000),
            LogRecord::Hex("hypewwisoww: memory descriptors=", 1),
            LogRecord::Hex("hypewwisoww: free ranges=", 1),
            LogRecord::Hex("hypewwisoww: free 4K frames=", 4096),
        ]
    );
    let stock = stage.value.unwrap_or_else(|| panic!("no stock"));
    assert_eq!(stock.map.descriptor_count(), 1);
    assert_eq!(stock.frames.total_pages(), 4096);
}

#[test]
fn unusable_memory_maps_are_logged() {
    let stage = take_stock(&handoff(0), &[], &arena(3));
    assert!(stage.value.is_none());
    assert_eq!(stage.records[2..], [LogRecord::Hex("hypewwisoww: invalid memory map=", 2)]);

    let mut bytes = memory_map();
    bytes[8] = 1;
    let stage = take_stock(&handoff(40), &bytes, &arena(3));
    assert!(stage.value.is_none());
    assert_eq!(
        stage.records[2..],
        [
            LogRecord::Hex("hypewwisoww: memory descriptors=", 1),
            LogRecord::Hex("hypewwisoww: frame ledger failed=", 2),
        ]
    );
}

#[test]
fn machine_without_room_is_logged() {
    let stage = make_vm(&mut arena(26), &mut memory(26));
    assert!(stage.value.is_none());
    assert_eq!(
        stage.records,
        vec![LogRecord::Hex("hypewwisoww: VM resource allocation failed=", 0)]
    );
}

#[test]
fn machine_without_room_for_its_tables_is_left_half_made() {
    let mut words = memory(25);
    let stage = make_vm(&mut arena(25), &mut words);
    assert!(stage.value.is_none());
    let (_, words) = words.into_parts();
    assert_eq!(words[18 * 512], 0x2003);
    assert_eq!(words[21 * 512], 0xc101_0ff0_0dca_feb8);
    assert_eq!(words[23 * 512], 0);
}

/// All stages up to the host's page tables.
fn prepare(pages: u64) -> (Vec<LogRecord>, Option<HostPageTables>, VmResources, Vec<u64>) {
    let bytes = memory_map();
    let handoff = handoff(40);
    let mut arena = arena(pages);
    let mut memory = memory(pages as usize);
    let tables = set_up_tables(&mut arena, &handoff, &VECTORS).value.unwrap();
    let stock = take_stock(&handoff, &bytes, &arena).value.unwrap_or_else(|| panic!("no stock"));
    let made = make_vm(&mut arena, &mut memory);
    assert!(made.records.is_empty());
    let resources = made.value.unwrap();
    let stage = map_host(
        stock.map,
        &mut arena,
        &mut memory,
        &handoff,
        &tables.state,
        &resources,
        true,
    );
    (stage.records, stage.value, resources, memory.into_parts().1)
}

#[test]
fn host_is_mapped_without_its_guards() {
    let (records, tables, resources, words) = prepare(80);
    let tables = tables.unwrap_or_else(|| panic!("no tables"));
    assert_eq!(
        records,
        vec![
            LogRecord::Hex("hypewwisoww: host CR3=", BASE + 54 * 4096),
            LogRecord::Hex("hypewwisoww: mapped 4K pages=", 4091),
            LogRecord::Hex("hypewwisoww: NX active=", 1),
        ]
    );
    assert_eq!(resources.guard_page(), BASE + 28 * 4096);
    let word = |address: u64| words[((address - BASE) / 8) as usize];
    let mapped = |address: u64| {
        let mut table = tables.root();
        for shift in [39, 30, 21, 12] {
            let entry = word(table + 8 * (address >> shift & 0x1ff));
            if entry & 1 == 0 {
                return false;
            }
            if entry & 0x80 != 0 {
                return true;
            }
            table = entry & 0x000f_ffff_ffff_f000;
        }
        true
    };
    let guards = [0x10_0000, BASE, BASE + 9 * 4096, BASE + 18 * 4096, BASE + 28 * 4096];
    for page in 0..4096 {
        let address = 0x10_0000 + page * 4096;
        assert_eq!(mapped(address), !guards.contains(&address));
    }
    assert!(!mapped(0xf_f000));
    assert!(!mapped(0x110_0000));
}

#[test]
fn host_tables_leave_the_guest_alone() {
    let (_, tables, _, words) = prepare(80);
    assert!(tables.is_some());
    let guest = BASE + 45 * 4096;
    let ept = guest + 5 * 4096;
    let word = |address: u64| words[((address - BASE) / 8) as usize];
    assert_eq!(word(ept), (ept + 0x1000) | 7);
    assert_eq!(word(ept + 0x1000), (ept + 0x2000) | 7);
    assert_eq!(word(ept + 0x2000), (ept + 0x3000) | 7);
    assert_eq!(word(ept + 0x3000), 0);
    assert_eq!(word(ept + 0x3008), guest | 0x33);
    assert_eq!(word(ept + 0x3020), (guest + 0x3000) | 0x35);
    assert_eq!(word(guest + 0x3000), 0xc101_0ff0_0dca_feb8);
}

#[test]
fn failed_paging_is_logged() {
    let (records, tables, _, _) = prepare(55);
    assert!(tables.is_none());
    assert_eq!(records, vec![LogRecord::Hex("hypewwisoww: host paging failed=", 0)]);
}
