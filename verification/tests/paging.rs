use hypewwisoww::arch::x86_64::instructions::{CpuidResult, Reply, Request, Step};
use hypewwisoww::arch::x86_64::paging::{
    enable_nx, entry_pointer, index, EnableNxStep, HostPageTables, PagingError,
};
use hypewwisoww::boot_alloc::BootArena;
use hypewwisoww::memory::MemoryMap;
use hypewwisoww::phys::PhysMemory;
use hypewwisoww::uefi::{EfiMemoryDescriptor, Handoff};

const BASE: u64 = 0x80_0000;
const ADDRESS: u64 = 0x000f_ffff_ffff_f000;
const NO_EXECUTE: u64 = 1 << 63;
const DATA: u32 = 7;
const CODE: u32 = 1;

fn descriptor(memory_type: u32, start: u64, pages: u64) -> EfiMemoryDescriptor {
    EfiMemoryDescriptor {
        memory_type,
        _padding: 0,
        physical_start: start,
        virtual_start: 0,
        number_of_pages: pages,
        attributes: 0,
    }
}

fn encode(descriptors: &[EfiMemoryDescriptor]) -> Vec<u8> {
    let mut bytes = Vec::new();
    for descriptor in descriptors {
        bytes.extend(descriptor.memory_type.to_le_bytes());
        bytes.extend(descriptor._padding.to_le_bytes());
        bytes.extend(descriptor.physical_start.to_le_bytes());
        bytes.extend(descriptor.virtual_start.to_le_bytes());
        bytes.extend(descriptor.number_of_pages.to_le_bytes());
        bytes.extend(descriptor.attributes.to_le_bytes());
    }
    bytes
}

struct Built {
    result: Result<HostPageTables, PagingError>,
    words: Vec<u64>,
    left: u64,
}

fn build(descriptors: &[EfiMemoryDescriptor], guards: &[u64], nx: bool, pages: u64) -> Built {
    let bytes = encode(descriptors);
    let handoff = Handoff {
        memory_map: 0x5000,
        memory_map_size: bytes.len(),
        descriptor_size: 40,
        descriptor_version: 1,
        _padding: 0,
        stack_guard: 0,
        stack_base: 0,
        stack_top: 0,
        vmxon_region: 0,
        bootstrap_arena_base: BASE,
        bootstrap_arena_size: pages * 4096,
    };
    let map = match MemoryMap::from_handoff(&handoff, &bytes) {
        Ok(map) => map,
        Err(error) => panic!("{error:?}"),
    };
    let mut arena = match BootArena::new(BASE, pages * 4096) {
        Ok(arena) => arena,
        Err(error) => panic!("{error:?}"),
    };
    // Memory is not zero before it is used.
    let mut memory = PhysMemory::new(BASE, vec![u64::MAX; pages as usize * 512]).unwrap();
    let result = HostPageTables::build(map, &mut arena, &mut memory, guards, nx);
    let (_, words) = memory.into_parts();
    Built { result, words, left: arena.remaining_bytes() / 4096 }
}

impl Built {
    fn root(&self) -> u64 {
        match &self.result {
            Ok(tables) => tables.root(),
            Err(error) => panic!("{error:?}"),
        }
    }

    fn word(&self, table: u64, index: u64) -> u64 {
        self.words[((table - BASE) / 8 + index) as usize]
    }

    /// The processor's walk: the physical address, and whether code may run there.
    fn walk(&self, address: u64) -> Option<(u64, bool)> {
        let mut table = self.root();
        let mut executable = true;
        for shift in [39, 30, 21, 12] {
            let entry = self.word(table, address >> shift & 0x1ff);
            if entry & 1 == 0 {
                return None;
            }
            assert_eq!(entry & 2, 2);
            executable = executable && entry & NO_EXECUTE == 0;
            if shift == 12 || entry & 0x80 != 0 {
                let offset = address & ((1 << shift) - 1);
                return Some(((entry & ADDRESS) + offset, executable));
            }
            table = entry & ADDRESS;
        }
        None
    }

    fn error(&self) -> PagingError {
        match &self.result {
            Ok(_) => panic!("the tables were built"),
            Err(error) => *error,
        }
    }

    fn pages(&self) -> u64 {
        match &self.result {
            Ok(tables) => tables.mapped_4k_pages(),
            Err(error) => panic!("{error:?}"),
        }
    }
}

#[test]
fn described_memory_is_mapped_to_itself() {
    let built = build(
        &[descriptor(DATA, 0x10_0000, 3), descriptor(CODE, 0x40_0000, 2)],
        &[],
        true,
        16,
    );
    assert_eq!(built.walk(0x10_0000), Some((0x10_0000, false)));
    assert_eq!(built.walk(0x10_2fff), Some((0x10_2fff, false)));
    assert_eq!(built.walk(0x40_1234), Some((0x40_1234, true)));
    assert_eq!(built.pages(), 5);
    assert_eq!(built.root(), BASE);
}

#[test]
fn nothing_else_is_mapped() {
    let built = build(&[descriptor(DATA, 0x10_0000, 3)], &[], false, 16);
    for address in [0, 0xf_ffff, 0x10_3000, 0x30_0000, 0x4000_0000, 1 << 39, 1 << 47] {
        assert_eq!(built.walk(address), None);
    }
}

#[test]
fn page_at_address_zero_is_never_mapped() {
    let built = build(&[descriptor(DATA, 0, 2)], &[], false, 16);
    assert_eq!(built.walk(0), None);
    assert_eq!(built.walk(0x1000), Some((0x1000, true)));
    assert_eq!(built.pages(), 1);
}

#[test]
fn memory_is_executable_without_no_execute() {
    let built = build(&[descriptor(DATA, 0x10_0000, 1)], &[], false, 16);
    assert_eq!(built.walk(0x10_0000), Some((0x10_0000, true)));
    let tables = built.result.unwrap_or_else(|error| panic!("{error:?}"));
    assert!(!tables.nx_enabled());
}

#[test]
fn each_kind_of_code_is_executable() {
    for memory_type in 0..8 {
        let built = build(&[descriptor(memory_type, 0x10_0000, 1)], &[], true, 16);
        let code = matches!(memory_type, 1 | 3 | 5);
        assert_eq!(built.walk(0x10_0000), Some((0x10_0000, code)));
    }
}

#[test]
fn large_pages_are_used_where_they_fit() {
    let built = build(&[descriptor(DATA, 0x1f_f000, 1026)], &[], true, 16);
    assert_eq!(built.pages(), 1026);
    assert_eq!(built.walk(0x1f_f123), Some((0x1f_f123, false)));
    assert_eq!(built.walk(0x20_0000), Some((0x20_0000, false)));
    assert_eq!(built.walk(0x5f_ffff), Some((0x5f_ffff, false)));
    assert_eq!(built.walk(0x60_0fff), Some((0x60_0fff, false)));
    assert_eq!(built.walk(0x60_1000), None);
    // One table each for levels four to two, and two for the small pages.
    assert_eq!(built.left, 11);
}

#[test]
fn guard_pages_are_not_mapped() {
    let built = build(&[descriptor(DATA, 0x10_0000, 4)], &[0x10_1000, 0x10_3008], true, 16);
    assert_eq!(built.walk(0x10_0000), Some((0x10_0000, false)));
    assert_eq!(built.walk(0x10_1000), None);
    assert_eq!(built.walk(0x10_2000), Some((0x10_2000, false)));
    assert_eq!(built.walk(0x10_3000), None);
    assert_eq!(built.pages(), 2);
}

#[test]
fn guard_in_a_large_page_splits_it() {
    let built = build(&[descriptor(DATA, 0x20_0000, 512)], &[0x20_5000], true, 16);
    assert_eq!(built.pages(), 511);
    for page in 0..512 {
        let address = 0x20_0000 + page * 4096 + 8;
        let expected = if page == 5 { None } else { Some((address, false)) };
        assert_eq!(built.walk(address), expected);
    }
}

#[test]
fn guard_outside_the_memory_is_refused() {
    let built = build(&[descriptor(DATA, 0x10_0000, 4)], &[0x10_4000], true, 16);
    assert_eq!(built.error(), PagingError::MissingGuardMapping);
    let built = build(&[descriptor(DATA, 0x10_0000, 4)], &[1 << 45], true, 16);
    assert_eq!(built.error(), PagingError::MissingGuardMapping);
    let twice = build(&[descriptor(DATA, 0x10_0000, 4)], &[0x10_0000; 2], true, 16);
    assert_eq!(twice.error(), PagingError::MissingGuardMapping);
}

#[test]
fn first_guard_that_is_missing_decides() {
    let memory = [descriptor(DATA, 0x10_0000, 4)];
    let first = build(&memory, &[0x10_1000, 0x10_1800, 0x10_2000], true, 16);
    assert_eq!(first.error(), PagingError::MissingGuardMapping);
    let zero = build(&[descriptor(DATA, 0, 4)], &[0], true, 16);
    assert_eq!(zero.error(), PagingError::MissingGuardMapping);
    let exhausted = build(&[descriptor(DATA, 0x20_0000, 512)], &[0x20_0000, 0], true, 3);
    assert_eq!(exhausted.error(), PagingError::ArenaExhausted);
}

#[test]
fn count_is_the_described_pages_less_the_guards() {
    let described = [
        descriptor(DATA, 0, 3),
        descriptor(CODE, 0x10_0000, 16),
        descriptor(DATA, 0x3f_f000, 1026),
        descriptor(DATA, 0x100_0000, 0),
    ];
    let built = build(&described, &[0x1000, 0x10_0000, 0x40_1000], true, 32);
    assert_eq!(built.pages(), 2 + 16 + 1026 - 3);
    let off_the_pages = build(&[descriptor(DATA, 0x800, 3)], &[], true, 32);
    assert_eq!(off_the_pages.pages(), 3);
}

#[test]
fn conflict_before_memory_that_does_not_fit_decides() {
    let good = descriptor(DATA, 0x10_0000, 4);
    let wide = descriptor(DATA, (1 << 52) - 4096, 2);
    assert_eq!(build(&[good, good, wide], &[], true, 16).error(), PagingError::MappingConflict);
    assert_eq!(
        build(&[good, wide, good], &[], true, 16).error(),
        PagingError::PhysicalAddressTooWide
    );
}

#[test]
fn overlapping_memory_is_refused() {
    let small = build(
        &[descriptor(DATA, 0x10_0000, 4), descriptor(CODE, 0x10_3000, 1)],
        &[],
        true,
        16,
    );
    assert_eq!(small.error(), PagingError::MappingConflict);
    let large = build(
        &[descriptor(DATA, 0x20_0000, 512), descriptor(DATA, 0x20_3000, 1)],
        &[],
        true,
        16,
    );
    assert_eq!(large.error(), PagingError::MappingConflict);
    let under = build(
        &[descriptor(DATA, 0x20_3000, 1), descriptor(DATA, 0x20_0000, 512)],
        &[],
        true,
        16,
    );
    assert_eq!(under.error(), PagingError::MappingConflict);
}

#[test]
fn addresses_beyond_48_bits_meet_their_alias() {
    let built = build(
        &[descriptor(DATA, 0x10_0000, 1), descriptor(DATA, (1 << 48) + 0x10_0000, 1)],
        &[],
        true,
        16,
    );
    assert_eq!(built.error(), PagingError::MappingConflict);
}

#[test]
fn memory_past_physical_addresses_is_refused() {
    let wide = build(&[descriptor(DATA, (1 << 52) - 4096, 2)], &[], true, 16);
    assert_eq!(wide.error(), PagingError::PhysicalAddressTooWide);
    let overflow = build(&[descriptor(DATA, u64::MAX - 4095, 1)], &[], true, 16);
    assert_eq!(overflow.error(), PagingError::AddressOverflow);
    let product = build(&[descriptor(DATA, 0, 1 << 52)], &[], true, 16);
    assert_eq!(product.error(), PagingError::AddressOverflow);
}

#[test]
fn descriptor_without_pages_is_passed_over() {
    let built = build(
        &[descriptor(DATA, u64::MAX, 0), descriptor(DATA, 0x10_0000, 1)],
        &[],
        true,
        16,
    );
    assert_eq!(built.pages(), 1);
}

#[test]
fn tables_need_room_in_the_arena() {
    for pages in 1..4 {
        let built = build(&[descriptor(DATA, 0x10_0000, 1)], &[], true, pages);
        assert_eq!(built.error(), PagingError::ArenaExhausted);
        assert_eq!(built.left, 0);
    }
    assert_eq!(build(&[descriptor(DATA, 0x10_0000, 1)], &[], true, 4).pages(), 1);
    let split = build(&[descriptor(DATA, 0x20_0000, 512)], &[0x20_0000], true, 3);
    assert_eq!(split.error(), PagingError::ArenaExhausted);
}

#[test]
fn activation_sets_write_protection_and_the_root() {
    let built = build(&[descriptor(DATA, 0x10_0000, 1)], &[], true, 16);
    let root = built.root();
    let tables = built.result.unwrap_or_else(|error| panic!("{error:?}"));
    assert!(tables.nx_enabled());
    assert_eq!(tables.activate(0x8000_0011), (0x8001_0011, root));
    assert_eq!(tables.activate(0x8001_0011), (0x8001_0011, root));
}

#[test]
fn table_indices_are_nine_bits() {
    let address = 0xffff_8123_4567_89ab;
    assert_eq!(index(address, 39), 0x102);
    assert_eq!(index(address, 30), 0x08d);
    assert_eq!(index(address, 21), 0x02b);
    assert_eq!(index(address, 12), 0x078);
    assert_eq!(entry_pointer(0x5000, 3), 0x5018);
}

#[test]
fn paging_errors_have_their_numbers() {
    assert_eq!(PagingError::ArenaExhausted.code(), 0);
    assert_eq!(PagingError::AddressOverflow.code(), 1);
    assert_eq!(PagingError::PhysicalAddressTooWide.code(), 2);
    assert_eq!(PagingError::MappingConflict.code(), 3);
    assert_eq!(PagingError::MissingGuardMapping.code(), 4);
}

fn switch_on(maximum: u32, features: u32, efer: u64) -> (bool, Vec<Request>) {
    let mut asked = Vec::new();
    let mut step: EnableNxStep = enable_nx();
    loop {
        step = match step {
            Step::Ask { state, request } => {
                asked.push(request);
                let cpuid = |eax, edx| Reply::Cpuid {
                    result: CpuidResult { eax, ebx: 0, ecx: 0, edx },
                };
                state.next(match request {
                    Request::Cpuid { leaf: 0x8000_0000, .. } => cpuid(maximum, 0),
                    Request::Cpuid { .. } => cpuid(0, features),
                    Request::Rdmsr { .. } => Reply::Value { value: efer },
                    _ => Reply::Done,
                })
            }
            Step::Finished { result } => return (result, asked),
        };
    }
}

#[test]
fn no_execute_is_switched_on_where_it_is_there() {
    let (result, asked) = switch_on(0x8000_0008, 1 << 20, 0x500);
    assert!(result);
    assert_eq!(
        asked,
        vec![
            Request::Cpuid { leaf: 0x8000_0000, subleaf: 0 },
            Request::Cpuid { leaf: 0x8000_0001, subleaf: 0 },
            Request::Rdmsr { msr: 0xc000_0080 },
            Request::Wrmsr { msr: 0xc000_0080, value: 0xd00 },
        ]
    );
}

#[test]
fn no_execute_stays_off_where_it_is_not_there() {
    assert_eq!(switch_on(0x8000_0000, 1 << 20, 0).0, false);
    assert_eq!(switch_on(0x8000_0008, !(1 << 20), 0).0, false);
    assert_eq!(switch_on(0x8000_0008, !(1 << 20), 0).1.len(), 2);
}
