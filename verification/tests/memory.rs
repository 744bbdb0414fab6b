use hypewwisoww::memory::{FrameAllocator, MemoryError, MemoryMap, MAX_FREE_RANGES};
use hypewwisoww::uefi::{EfiMemoryDescriptor, Handoff};

const CONVENTIONAL: u32 = 7;

fn descriptor(memory_type: u32, start: u64, pages: u64) -> EfiMemoryDescriptor {
    EfiMemoryDescriptor {
        memory_type,
        _padding: 0,
        physical_start: start,
        virtual_start: 0,
        number_of_pages: pages,
        attributes: 0xf,
    }
}

fn encode(descriptors: &[EfiMemoryDescriptor], stride: usize) -> Vec<u8> {
    let mut bytes = Vec::new();
    for descriptor in descriptors {
        let start = bytes.len();
        bytes.extend(descriptor.memory_type.to_le_bytes());
        bytes.extend(descriptor._padding.to_le_bytes());
        bytes.extend(descriptor.physical_start.to_le_bytes());
        bytes.extend(descriptor.virtual_start.to_le_bytes());
        bytes.extend(descriptor.number_of_pages.to_le_bytes());
        bytes.extend(descriptor.attributes.to_le_bytes());
        bytes.resize(start + stride, 0xee);
    }
    bytes
}

fn handoff(size: usize, stride: usize) -> Handoff {
    Handoff {
        memory_map: 0x5000,
        memory_map_size: size,
        descriptor_size: stride,
        descriptor_version: 1,
        _padding: 0,
        stack_guard: 0,
        stack_base: 0,
        stack_top: 0,
        vmxon_region: 0,
        bootstrap_arena_base: 0,
        bootstrap_arena_size: 0,
    }
}

fn map(bytes: &[u8], stride: usize) -> MemoryMap<'_> {
    match MemoryMap::from_handoff(&handoff(bytes.len(), stride), bytes) {
        Ok(map) => map,
        Err(error) => panic!("{error:?}"),
    }
}

fn ledger(descriptors: &[EfiMemoryDescriptor]) -> Result<FrameAllocator, MemoryError> {
    let bytes = encode(descriptors, 48);
    FrameAllocator::from_memory_map(map(&bytes, 48))
}

fn frames(descriptors: &[EfiMemoryDescriptor]) -> FrameAllocator {
    match ledger(descriptors) {
        Ok(frames) => frames,
        Err(error) => panic!("{error:?}"),
    }
}

fn refusal(descriptors: &[EfiMemoryDescriptor]) -> Option<MemoryError> {
    ledger(descriptors).err()
}

fn map_refusal(handoff: &Handoff, bytes: &[u8]) -> Option<MemoryError> {
    MemoryMap::from_handoff(handoff, bytes).err()
}

#[test]
fn descriptors_are_read_at_their_stride() {
    let listed = [
        descriptor(CONVENTIONAL, 0x10_0000, 16),
        EfiMemoryDescriptor {
            memory_type: 0x0403_0201,
            _padding: 0x0807_0605,
            physical_start: 0x1122_3344_5566_7788,
            virtual_start: 0x99aa_bbcc_ddee_ff00,
            number_of_pages: 0x0102_0304_0506_0708,
            attributes: 0x8000_0000_0000_000f,
        },
    ];
    for stride in [40, 48, 64] {
        let bytes = encode(&listed, stride);
        let map = map(&bytes, stride);
        assert_eq!(map.descriptor_count(), 2);
        let mut iterator = map.descriptors();
        assert_eq!(iterator.next(), Some(listed[0]));
        assert_eq!(iterator.next(), Some(listed[1]));
        assert_eq!(iterator.next(), None);
        assert_eq!(iterator.next(), None);
    }
}

#[test]
fn missing_map_is_refused() {
    let mut handoff = handoff(48, 48);
    handoff.memory_map = 0;
    assert_eq!(map_refusal(&handoff, &[]), Some(MemoryError::NullMap));
}

#[test]
fn short_stride_is_refused() {
    assert_eq!(map_refusal(&handoff(78, 39), &[0; 78]), Some(MemoryError::InvalidStride));
    assert_eq!(map_refusal(&handoff(0, 0), &[]), Some(MemoryError::InvalidStride));
}

#[test]
fn map_of_no_whole_descriptors_is_refused() {
    assert_eq!(map_refusal(&handoff(0, 48), &[]), Some(MemoryError::InvalidLength));
    assert_eq!(map_refusal(&handoff(49, 48), &[0; 49]), Some(MemoryError::InvalidLength));
}

#[test]
fn only_conventional_memory_is_free() {
    let frames = frames(&[
        descriptor(1, 0x1000, 1),
        descriptor(CONVENTIONAL, 0x2000, 2),
        descriptor(4, 0x4000, 8),
        descriptor(CONVENTIONAL, 0x9000, 0),
        descriptor(CONVENTIONAL, 0x2_0000, 16),
    ]);
    assert_eq!(frames.range_count(), 2);
    assert_eq!(frames.total_pages(), 18);
}

#[test]
fn ranges_are_sorted_and_merged() {
    let mut frames = frames(&[
        descriptor(CONVENTIONAL, 0x9000, 1),
        descriptor(CONVENTIONAL, 0x3000, 2),
        descriptor(CONVENTIONAL, 0x1000, 2),
        descriptor(CONVENTIONAL, 0x4000, 3),
    ]);
    assert_eq!(frames.range_count(), 2);
    assert_eq!(frames.total_pages(), 7);
    assert_eq!(frames.allocate_pages(6), Some(0x1000));
}

#[test]
fn merged_ranges_stay_as_they_are() {
    let mut once = frames(&[
        descriptor(CONVENTIONAL, 0x3000, 1),
        descriptor(CONVENTIONAL, 0x1000, 2),
        descriptor(CONVENTIONAL, 0x9000, 3),
    ]);
    let mut again = frames(&[
        descriptor(CONVENTIONAL, 0x1000, 3),
        descriptor(CONVENTIONAL, 0x9000, 3),
    ]);
    assert_eq!((once.range_count(), again.range_count()), (2, 2));
    assert_eq!((once.total_pages(), again.total_pages()), (6, 6));
    for _ in 0..2 {
        assert_eq!(once.allocate_pages(3), again.allocate_pages(3));
    }
}

#[test]
fn order_of_descriptors_does_not_matter() {
    let listed = [
        descriptor(CONVENTIONAL, 0x1000, 2),
        descriptor(CONVENTIONAL, 0x8000, 4),
        descriptor(CONVENTIONAL, 0x3000, 1),
    ];
    let reversed = [listed[2], listed[1], listed[0]];
    let mut one = frames(&listed);
    let mut two = frames(&reversed);
    assert_eq!(one.range_count(), two.range_count());
    assert_eq!(one.total_pages(), two.total_pages());
    for count in [3, 1, 2, 4, 1] {
        assert_eq!(one.allocate_pages(count), two.allocate_pages(count));
    }
}

#[test]
fn pages_come_off_the_highest_range_that_holds_them() {
    let mut frames = frames(&[
        descriptor(CONVENTIONAL, 0x1000, 4),
        descriptor(CONVENTIONAL, 0x10_0000, 2),
    ]);
    assert_eq!(frames.allocate_pages(1), Some(0x10_1000));
    assert_eq!(frames.allocate_pages(3), Some(0x2000));
    assert_eq!(frames.allocate_pages(1), Some(0x10_0000));
    assert_eq!(frames.total_pages(), 1);
    assert_eq!(frames.allocate_pages(1), Some(0x1000));
    assert_eq!(frames.total_pages(), 0);
    assert_eq!(frames.allocate_pages(1), None);
    assert_eq!(frames.range_count(), 2);
}

#[test]
fn refused_pages_stay_on_the_ledger() {
    let mut frames = frames(&[
        descriptor(CONVENTIONAL, 0x1000, 2),
        descriptor(CONVENTIONAL, 0x10_0000, 2),
    ]);
    assert_eq!(frames.allocate_pages(3), None);
    assert_eq!(frames.allocate_pages(0), None);
    assert_eq!(frames.allocate_pages(usize::MAX), None);
    assert_eq!(frames.total_pages(), 4);
}

#[test]
fn taken_blocks_do_not_overlap() {
    let mut frames = frames(&[
        descriptor(CONVENTIONAL, 0x1000, 5),
        descriptor(CONVENTIONAL, 0x20_0000, 7),
    ]);
    let mut taken: Vec<(u64, u64)> = Vec::new();
    for count in [2usize, 3, 1, 4, 2] {
        if let Some(start) = frames.allocate_pages(count) {
            let end = start + count as u64 * 4096;
            assert!(taken.iter().all(|&(low, high)| end <= low || high <= start));
            taken.push((start, end));
        }
    }
    let pages: u64 = taken.iter().map(|(low, high)| (high - low) / 4096).sum();
    assert_eq!(pages + frames.total_pages(), 12);
}

#[test]
fn memory_past_the_address_space_is_refused() {
    assert_eq!(
        refusal(&[descriptor(CONVENTIONAL, 0xffff_ffff_ffff_f000, 1)]),
        Some(MemoryError::AddressOverflow)
    );
    assert_eq!(
        refusal(&[descriptor(CONVENTIONAL, 0x1000, 1 << 52)]),
        Some(MemoryError::AddressOverflow)
    );
    assert_eq!(refusal(&[descriptor(2, 0xffff_ffff_ffff_f000, 1)]), None);
}

#[test]
fn memory_off_the_pages_is_refused() {
    assert_eq!(
        refusal(&[descriptor(CONVENTIONAL, 0x1800, 1)]),
        Some(MemoryError::InvalidLength)
    );
}

#[test]
fn first_bad_descriptor_decides() {
    assert_eq!(
        refusal(&[
            descriptor(CONVENTIONAL, 0x1800, 1),
            descriptor(CONVENTIONAL, 0xffff_ffff_ffff_f000, 1),
        ]),
        Some(MemoryError::InvalidLength)
    );
}

#[test]
fn ledger_has_room_for_its_ranges_only() {
    let mut listed: Vec<EfiMemoryDescriptor> = (0..MAX_FREE_RANGES as u64)
        .map(|index| descriptor(CONVENTIONAL, 0x1000 + index * 0x2000, 1))
        .collect();
    assert_eq!(frames(&listed).range_count(), 256);
    listed.push(descriptor(CONVENTIONAL, 0x1000, 1));
    assert_eq!(refusal(&listed), Some(MemoryError::TooManyRanges));
}

#[test]
fn memory_errors_have_their_numbers() {
    assert_eq!(MemoryError::NullMap.code(), 0);
    assert_eq!(MemoryError::InvalidStride.code(), 1);
    assert_eq!(MemoryError::InvalidLength.code(), 2);
    assert_eq!(MemoryError::AddressOverflow.code(), 3);
    assert_eq!(MemoryError::TooManyRanges.code(), 4);
}
