//! The firmware's memory map, and the ledger of free page frames drawn from it.

use crate::uefi::{EfiMemoryDescriptor, Handoff, DESCRIPTOR_BYTES};
use vstd::prelude::*;

verus! {

/// Bytes in one page frame.
pub const PAGE_SIZE: u64 = 4096;

/// The memory type that the firmware gives to memory that is free for use.
pub const EFI_CONVENTIONAL_MEMORY: u32 = 7;

/// How many separate ranges the ledger holds.
pub const MAX_FREE_RANGES: usize = 256;

/// Why a memory map cannot be used.
#[derive(Clone, Copy, Debug, PartialEq, Eq, Structural)]
pub enum MemoryError {
    NullMap,
    InvalidStride,
    InvalidLength,
    AddressOverflow,
    TooManyRanges,
}

impl MemoryError {
    /// The number under which the error is logged.
    pub open spec fn number(self) -> u64 {
        match self {
            MemoryError::NullMap => 0u64,
            MemoryError::InvalidStride => 1u64,
            MemoryError::InvalidLength => 2u64,
            MemoryError::AddressOverflow => 3u64,
            MemoryError::TooManyRanges => 4u64,
        }
    }

    /// The number under which the error is logged.
    pub fn code(self) -> (number: u64)
        ensures
            number == self.number(),
    {
        match self {
            MemoryError::NullMap => 0,
            MemoryError::InvalidStride => 1,
            MemoryError::InvalidLength => 2,
            MemoryError::AddressOverflow => 3,
            MemoryError::TooManyRanges => 4,
        }
    }
}

/// The number whose little-endian form stands at `at`, over four bytes.
pub open spec fn u32_at(bytes: Seq<u8>, at: int) -> u32 {
    (bytes[at] + 0x100 * bytes[at + 1] + 0x1_0000 * bytes[at + 2] + 0x100_0000 * bytes[at
        + 3]) as u32
}

/// The number whose little-endian form stands at `at`, over eight bytes.
pub open spec fn u64_at(bytes: Seq<u8>, at: int) -> u64 {
    (u32_at(bytes, at) + 0x1_0000_0000 * u32_at(bytes, at + 4)) as u64
}

/// The memory descriptor whose bytes start at `at`.
pub open spec fn descriptor_at(bytes: Seq<u8>, at: int) -> EfiMemoryDescriptor {
    EfiMemoryDescriptor {
        memory_type: u32_at(bytes, at),
        _padding: u32_at(bytes, at + 4),
        physical_start: u64_at(bytes, at + 8),
        virtual_start: u64_at(bytes, at + 16),
        number_of_pages: u64_at(bytes, at + 24),
        attributes: u64_at(bytes, at + 32),
    }
}

fn read_u32(bytes: &[u8], at: usize) -> (value: u32)
    requires
        at + 4 <= bytes@.len(),
    ensures
        value == u32_at(bytes@, at as int),
{
    bytes[at] as u32 + 0x100 * (bytes[at + 1] as u32) + 0x1_0000 * (bytes[at + 2] as u32)
        + 0x100_0000 * (bytes[at + 3] as u32)
}

fn read_u64(bytes: &[u8], at: usize) -> (value: u64)
    requires
        at + 8 <= bytes@.len(),
    ensures
        value == u64_at(bytes@, at as int),
{
    assert(bytes.len() <= usize::MAX);
    read_u32(bytes, at) as u64 + 0x1_0000_0000 * (read_u32(bytes, at + 4) as u64)
}

fn read_descriptor(bytes: &[u8], at: usize) -> (descriptor: EfiMemoryDescriptor)
    requires
        at + DESCRIPTOR_BYTES <= bytes@.len(),
    ensures
        descriptor == descriptor_at(bytes@, at as int),
{
    assert(bytes.len() <= usize::MAX);
    EfiMemoryDescriptor {
        memory_type: read_u32(bytes, at),
        _padding: read_u32(bytes, at + 4),
        physical_start: read_u64(bytes, at + 8),
        virtual_start: read_u64(bytes, at + 16),
        number_of_pages: read_u64(bytes, at + 24),
        attributes: read_u64(bytes, at + 32),
    }
}

/// A memory map as the firmware wrote it: descriptors at a fixed distance,
/// which may be larger than a descriptor.
#[derive(Clone, Copy)]
pub struct MemoryMap<'a> {
    bytes: &'a [u8],
    stride: usize,
}

/// Why the hand-over holds no memory map that can be walked, if it holds none.
pub open spec fn map_error(handoff: Handoff) -> Option<MemoryError> {
    if handoff.memory_map == 0 {
        Some(MemoryError::NullMap)
    } else if handoff.descriptor_size < DESCRIPTOR_BYTES {
        Some(MemoryError::InvalidStride)
    } else if handoff.memory_map_size == 0 || handoff.memory_map_size % handoff.descriptor_size
        != 0 {
        Some(MemoryError::InvalidLength)
    } else {
        None
    }
}

/// The descriptors that stand every `stride` bytes in `bytes`.
pub open spec fn descriptors_in(bytes: Seq<u8>, stride: nat) -> Seq<EfiMemoryDescriptor> {
    Seq::new(
        (bytes.len() as int / stride as int) as nat,
        |index: int| descriptor_at(bytes, index * stride),
    )
}

impl<'a> MemoryMap<'a> {
    /// The descriptors of the map, in order.
    pub closed spec fn view(&self) -> Seq<EfiMemoryDescriptor> {
        descriptors_in(self.bytes@, self.stride as nat)
    }

    /// The map is a whole number of descriptors, and not empty.
    pub closed spec fn wf(&self) -> bool {
        &&& self.stride >= DESCRIPTOR_BYTES
        &&& self.bytes@.len() > 0
        &&& self.bytes@.len() % self.stride as nat == 0
    }

    /// The map that the hand-over speaks of. `bytes` is the memory that
    /// `handoff.memory_map` points to.
    pub fn from_handoff(handoff: &Handoff, bytes: &'a [u8]) -> (result: Result<Self, MemoryError>)
        requires
            handoff.memory_map != 0 ==> bytes@.len() == handoff.memory_map_size,
        ensures
            match result {
                Ok(map) => {
                    &&& map_error(*handoff) is None
                    &&& map.wf()
                    &&& map@ == descriptors_in(bytes@, handoff.descriptor_size as nat)
                },
                Err(error) => map_error(*handoff) == Some(error),
            },
    {
        if handoff.memory_map == 0 {
            return Err(MemoryError::NullMap);
        }
        if handoff.descriptor_size < DESCRIPTOR_BYTES {
            return Err(MemoryError::InvalidStride);
        }
        if handoff.memory_map_size == 0 || handoff.memory_map_size % handoff.descriptor_size != 0 {
            return Err(MemoryError::InvalidLength);
        }
        Ok(Self { bytes, stride: handoff.descriptor_size })
    }

    /// Walks the map from its first descriptor.
    pub fn descriptors(self) -> (iterator: MemoryMapIter<'a>)
        requires
            self.wf(),
        ensures
            iterator.wf(),
            iterator.remaining() == self@,
    {
        let iterator = MemoryMapIter { map: self, offset: 0 };
        proof {
            vstd::arithmetic::div_mod::lemma_small_mod(0, self.stride as nat);
            vstd::arithmetic::div_mod::lemma_div_of0(self.stride as int);
            assert(iterator.remaining() =~= self@);
        }
        iterator
    }

    /// How many descriptors the map holds.
    pub fn descriptor_count(self) -> (count: usize)
        requires
            self.wf(),
        ensures
            count == self@.len(),
    {
        self.bytes.len() / self.stride
    }
}

/// A walk over a memory map.
pub struct MemoryMapIter<'a> {
    map: MemoryMap<'a>,
    offset: usize,
}

impl<'a> MemoryMapIter<'a> {
    /// The walk stands at a descriptor, or at the end.
    pub closed spec fn wf(&self) -> bool {
        &&& self.map.wf()
        &&& self.offset <= self.map.bytes@.len()
        &&& self.offset as nat % self.map.stride as nat == 0
    }

    /// The descriptors that are still to come.
    pub closed spec fn remaining(&self) -> Seq<EfiMemoryDescriptor> {
        self.map@.skip(self.offset as int / self.map.stride as int)
    }

    /// The next descriptor, or `None` at the end of the map.
    pub fn next(&mut self) -> (descriptor: Option<EfiMemoryDescriptor>)
        requires
            old(self).wf(),
        ensures
            final(self).wf(),
            match descriptor {
                None => old(self).remaining().len() == 0 && *final(self) == *old(self),
                Some(found) => {
                    &&& old(self).remaining().len() > 0
                    &&& found == old(self).remaining()[0]
                    &&& final(self).remaining() == old(self).remaining().skip(1)
                },
            },
    {
        let ghost stride = self.map.stride as int;
        let ghost size = self.map.bytes@.len() as int;
        let ghost index = self.offset as int / stride;
        proof {
            vstd::arithmetic::div_mod::lemma_fundamental_div_mod(self.offset as int, stride);
            vstd::arithmetic::div_mod::lemma_fundamental_div_mod(size, stride);
            vstd::arithmetic::mul::lemma_mul_is_commutative(stride, index);
        }
        if self.offset >= self.map.bytes.len() {
            return None;
        }
        proof {
            assert(index < size / stride && (index + 1) * stride <= size) by (nonlinear_arith)
                requires
                    stride > 0,
                    index * stride < size,
                    size == stride * (size / stride),
            ;
            assert((index + 1) * stride == index * stride + stride) by (nonlinear_arith);
            vstd::arithmetic::div_mod::lemma_mod_multiples_basic(index + 1, stride);
            vstd::arithmetic::div_mod::lemma_div_multiples_vanish(index + 1, stride);
            vstd::arithmetic::mul::lemma_mul_is_commutative(stride, index + 1);
        }
        let at: usize = self.offset;
        self.offset = self.offset + self.map.stride;
        proof {
            assert(self.remaining() =~= old(self).remaining().skip(1));
        }
        Some(read_descriptor(self.map.bytes, at))
    }
}

/// A range of free memory: the addresses from `start` up to `end`.
#[derive(Clone, Copy, Debug, PartialEq, Eq, Structural)]
pub struct FrameRange {
    pub start: u64,
    pub end: u64,
}

/// The ledger of free page frames.
pub struct FrameAllocator {
    ranges: Vec<FrameRange>,
    total_pages: u64,
}

/// The descriptor stands for memory that the ledger takes in.
pub open spec fn is_usable(descriptor: EfiMemoryDescriptor) -> bool {
    descriptor.memory_type == EFI_CONVENTIONAL_MEMORY && descriptor.number_of_pages != 0
}

/// The address behind the last byte of the descriptor's memory.
pub open spec fn descriptor_end(descriptor: EfiMemoryDescriptor) -> int {
    descriptor.physical_start + descriptor.number_of_pages * PAGE_SIZE
}

/// What `ranges` become when a descriptor's memory is taken in behind them.
pub open spec fn take_in(ranges: Seq<FrameRange>, descriptor: EfiMemoryDescriptor) -> Result<
    Seq<FrameRange>,
    MemoryError,
> {
    if !is_usable(descriptor) {
        Ok(ranges)
    } else if descriptor_end(descriptor) > u64::MAX {
        Err(MemoryError::AddressOverflow)
    } else if descriptor.physical_start % 4096 != 0 {
        Err(MemoryError::InvalidLength)
    } else if ranges.len() == MAX_FREE_RANGES {
        Err(MemoryError::TooManyRanges)
    } else {
        Ok(
            ranges.push(
                FrameRange {
                    start: descriptor.physical_start,
                    end: descriptor_end(descriptor) as u64,
                },
            ),
        )
    }
}

/// The ranges that the usable descriptors give, in order, or the error of the
/// first descriptor that cannot be taken in.
pub open spec fn collect(descriptors: Seq<EfiMemoryDescriptor>) -> Result<
    Seq<FrameRange>,
    MemoryError,
>
    decreases descriptors.len(),
{
    if descriptors.len() == 0 {
        Ok(Seq::empty())
    } else {
        match collect(descriptors.drop_last()) {
            Err(error) => Err(error),
            Ok(ranges) => take_in(ranges, descriptors.last()),
        }
    }
}

/// The address lies in memory of type 7, which the firmware calls conventional.
pub open spec fn is_conventional(descriptors: Seq<EfiMemoryDescriptor>, address: int) -> bool {
    exists|index: int|
        0 <= index < descriptors.len() && (#[trigger] descriptors[index]).memory_type == 7
            && descriptors[index].physical_start <= address < descriptors[index].physical_start
            + 4096 * descriptors[index].number_of_pages
}

/// How many descriptors speak of conventional memory that is not empty.
pub open spec fn conventional_count(descriptors: Seq<EfiMemoryDescriptor>) -> int
    decreases descriptors.len(),
{
    if descriptors.len() == 0 {
        0
    } else {
        conventional_count(descriptors.drop_last()) + (if descriptors.last().memory_type == 7
            && descriptors.last().number_of_pages > 0 {
            1int
        } else {
            0int
        })
    }
}

/// All conventional memory starts at pages and ends in the address space, and there are
/// no more than 256 pieces of it.
pub open spec fn is_sound(descriptors: Seq<EfiMemoryDescriptor>) -> bool {
    &&& conventional_count(descriptors) <= 256
    &&& forall|index: int|
        0 <= index < descriptors.len() && (#[trigger] descriptors[index]).memory_type == 7
            && descriptors[index].number_of_pages > 0 ==> {
            &&& descriptors[index].physical_start % 4096 == 0
            &&& descriptors[index].physical_start + 4096 * descriptors[index].number_of_pages
                <= u64::MAX
        }
}

/// The address lies in one of the ranges.
pub open spec fn is_free(ranges: Seq<FrameRange>, address: int) -> bool {
    exists|index: int|
        0 <= index < ranges.len() && (#[trigger] ranges[index]).start <= address
            < ranges[index].end
}

/// The address lies in one of the ranges, or just behind its last byte.
pub open spec fn is_reached(ranges: Seq<FrameRange>, address: int) -> bool {
    exists|index: int|
        0 <= index < ranges.len() && (#[trigger] ranges[index]).start <= address
            <= ranges[index].end
}

/// No range ends before it starts.
pub open spec fn are_ranges(ranges: Seq<FrameRange>) -> bool {
    forall|index: int|
        0 <= index < ranges.len() ==> (#[trigger] ranges[index]).start <= ranges[index].end
}

/// Every range starts and ends at a page.
pub open spec fn are_at_pages(ranges: Seq<FrameRange>) -> bool {
    forall|index: int|
        0 <= index < ranges.len() ==> (#[trigger] ranges[index]).start % 4096 == 0
            && ranges[index].end % 4096 == 0
}

/// The ranges stand in ascending order, and neither overlap nor touch.
pub open spec fn is_separate(ranges: Seq<FrameRange>) -> bool {
    &&& are_ranges(ranges)
    &&& forall|low: int, high: int|
        0 <= low < high < ranges.len() ==> (#[trigger] ranges[low]).end < (
        #[trigger] ranges[high]).start
}

/// The ranges stand in ascending order, start and end at pages, and neither
/// overlap nor touch.
pub open spec fn is_ordered(ranges: Seq<FrameRange>) -> bool {
    is_separate(ranges) && are_at_pages(ranges)
}

/// `after` is `before` in ascending order, with ranges that overlap or touch made
/// one: it holds the same memory and reaches the same addresses.
pub open spec fn is_merged(before: Seq<FrameRange>, after: Seq<FrameRange>) -> bool {
    &&& is_separate(after)
    &&& after.len() <= before.len()
    &&& forall|address: int| is_free(after, address) <==> is_free(before, address)
    &&& forall|address: int| is_reached(after, address) <==> is_reached(before, address)
}

/// The ranges in ascending order, with those that overlap or touch made one.
pub open spec fn merged(ranges: Seq<FrameRange>) -> Seq<FrameRange> {
    choose|after: Seq<FrameRange>| is_merged(ranges, after)
}

/// No range is empty.
pub open spec fn has_no_empty_range(ranges: Seq<FrameRange>) -> bool {
    forall|index: int|
        0 <= index < ranges.len() ==> (#[trigger] ranges[index]).start < ranges[index].end
}

/// How many pages the ranges hold together.
pub open spec fn pages_in(ranges: Seq<FrameRange>) -> int
    decreases ranges.len(),
{
    if ranges.len() == 0 {
        0
    } else {
        pages_in(ranges.drop_last()) + (ranges.last().end - ranges.last().start) / 4096
    }
}

/// The last range that holds at least `bytes` bytes.
pub open spec fn highest_fit(ranges: Seq<FrameRange>, bytes: int) -> Option<int>
    decreases ranges.len(),
{
    if ranges.len() == 0 {
        None
    } else if ranges.last().end - ranges.last().start >= bytes {
        Some(ranges.len() - 1)
    } else {
        highest_fit(ranges.drop_last(), bytes)
    }
}

/// What the ledger becomes, and the address handed out, when `count` pages are
/// asked of it: they come off the end of the last range that holds them.
pub open spec fn take_pages(ranges: Seq<FrameRange>, count: nat) -> (Seq<FrameRange>, Option<u64>) {
    let bytes = count * 4096;
    match highest_fit(ranges, bytes as int) {
        Some(index) if count > 0 => {
            let range = ranges[index];
            let end = (range.end - bytes) as u64;
            (ranges.update(index, FrameRange { start: range.start, end }), Some(end))
        },
        _ => (ranges, None),
    }
}

impl View for FrameAllocator {
    type V = Seq<FrameRange>;

    closed spec fn view(&self) -> Seq<FrameRange> {
        self.ranges@
    }
}

impl FrameAllocator {
    /// The pages that are free, by the ledger's count.
    pub closed spec fn free_pages(&self) -> u64 {
        self.total_pages
    }

    /// The ledger's ranges are in order, and its count of pages is theirs.
    pub open spec fn wf(&self) -> bool {
        &&& is_ordered(self@)
        &&& self@.len() <= MAX_FREE_RANGES
        &&& self.free_pages() == pages_in(self@)
    }

    /// The ledger of the memory that the map calls free: the descriptors'
    /// ranges in order, those that overlap or touch made one.
    pub fn from_memory_map(map: MemoryMap<'_>) -> (result: Result<Self, MemoryError>)
        requires
            map.wf(),
        ensures
            result is Ok <==> is_sound(map@),
            result matches Ok(ledger) ==> forall|address: int|
                is_free(ledger@, address) <==> is_conventional(map@, address),
            match result {
                Ok(ledger) => {
                    &&& collect(map@) is Ok
                    &&& ledger.wf()
                    &&& ledger@ == merged(collect(map@)->Ok_0)
                    &&& has_no_empty_range(ledger@)
                    &&& forall|address: int|
                        is_free(ledger@, address) <==> is_free(collect(map@)->Ok_0, address)
                },
                Err(error) => collect(map@) == Err::<Seq<FrameRange>, MemoryError>(error),
            },
    {
        let mut allocator = Self { ranges: Vec::new(), total_pages: 0 };
        let mut iterator = map.descriptors();
        let ghost mut done: int = 0;
        proof {
            assert(map@.take(0) =~= Seq::empty());
            assert(map@.skip(0) =~= map@);
        }
        loop
            invariant
                iterator.wf(),
                0 <= done <= map@.len(),
                iterator.remaining() == map@.skip(done),
                collect(map@.take(done)) == Ok::<Seq<FrameRange>, MemoryError>(allocator.ranges@),
                allocator.ranges@.len() <= MAX_FREE_RANGES,
                are_ranges(allocator.ranges@),
                are_at_pages(allocator.ranges@),
                has_no_empty_range(allocator.ranges@),
            ensures
                done == map@.len(),
            decreases map@.len() - done,
        {
            let descriptor = match iterator.next() {
                Some(descriptor) => descriptor,
                None => break,
            };
            proof {
                assert(descriptor == map@[done]);
                assert(map@.skip(done).skip(1) =~= map@.skip(done + 1));
                assert(map@.take(done + 1).drop_last() =~= map@.take(done));
                assert(map@.take(done + 1).last() == descriptor);
                assert(collect(map@.take(done + 1)) == take_in(allocator.ranges@, descriptor));
                lemma_collect_stops(map@, done + 1);
                done = done + 1;
            }
            if descriptor.memory_type != EFI_CONVENTIONAL_MEMORY || descriptor.number_of_pages
                == 0 {
                continue ;
            }
            match allocator.take_in(descriptor) {
                Ok(()) => {},
                Err(error) => {
                    proof {
                        law_conventional_memory_is_free(map@);
                    }
                    return Err(error);
                },
            }
        }
        proof {
            law_conventional_memory_is_free(map@);
            assert(map@.take(done) =~= map@);
        }
        let ghost taken_in = allocator@;
        allocator.sort_and_merge();
        proof {
            law_merging_has_one_result(taken_in, allocator@, merged(taken_in));
        }
        allocator.total_pages = count_pages(&allocator.ranges);
        Ok(allocator)
    }

    /// How many pages are free.
    pub fn total_pages(&self) -> (pages: u64)
        ensures
            pages == self.free_pages(),
    {
        self.total_pages
    }

    /// How many ranges the ledger holds.
    pub fn range_count(&self) -> (count: usize)
        ensures
            count == self@.len(),
    {
        self.ranges.len()
    }

    /// Takes `page_count` pages that lie one after the other off the ledger
    /// and returns the address of the first.
    pub fn allocate_pages(&mut self, page_count: usize) -> (address: Option<u64>)
        requires
            old(self).wf(),
        ensures
            final(self).wf(),
            (final(self)@, address) == take_pages(old(self)@, page_count as nat),
    {
        let ghost before = self@;
        let bytes: u64 = match (page_count as u64).checked_mul(PAGE_SIZE) {
            Some(bytes) => bytes,
            None => {
                proof {
                    lemma_nothing_fits(before, page_count * 4096);
                }
                return None;
            },
        };
        if bytes == 0 {
            return None;
        }
        let mut index: usize = self.ranges.len();
        proof {
            assert(before.take(index as int) =~= before);
        }
        while index > 0
            invariant
                index <= before.len(),
                before == self@,
                self.wf(),
                self.free_pages() == pages_in(before),
                bytes == page_count * 4096,
                bytes > 0,
                highest_fit(before, bytes as int) == highest_fit(
                    before.take(index as int),
                    bytes as int,
                ),
                before == old(self)@,
            decreases index,
        {
            index = index - 1;
            proof {
                assert(before.take(index + 1).drop_last() =~= before.take(index as int));
            }
            let range = self.ranges[index];
            if range.end - range.start < bytes {
                continue ;
            }
            let end: u64 = range.end - bytes;
            proof {
                lemma_pages_in_update(
                    before,
                    index as int,
                    FrameRange { start: range.start, end },
                );
                assert((range.end - range.start) / 4096 - (end - range.start) / 4096
                    == page_count);
                lemma_pages_in_bound(before, before.len() as int);
            }
            self.ranges[index] = FrameRange { start: range.start, end };
            proof {
                lemma_pages_in_bound(self.ranges@, self.ranges@.len() as int);
            }
            self.total_pages = self.total_pages - page_count as u64;
            return Some(end);
        }
        None
    }

    fn take_in(&mut self, descriptor: EfiMemoryDescriptor) -> (result: Result<(), MemoryError>)
        requires
            is_usable(descriptor),
            old(self)@.len() <= MAX_FREE_RANGES,
            are_ranges(old(self)@),
            are_at_pages(old(self)@),
            has_no_empty_range(old(self)@),
        ensures
            match result {
                Ok(()) => take_in(old(self)@, descriptor) == Ok::<Seq<FrameRange>, MemoryError>(
                    final(self)@,
                ),
                Err(error) => take_in(old(self)@, descriptor) == Err::<
                    Seq<FrameRange>,
                    MemoryError,
                >(error),
            },
            final(self)@.len() <= MAX_FREE_RANGES,
            are_ranges(final(self)@),
            are_at_pages(final(self)@),
            has_no_empty_range(final(self)@),
    {
        let bytes: u64 = match descriptor.number_of_pages.checked_mul(PAGE_SIZE) {
            Some(bytes) => bytes,
            None => return Err(MemoryError::AddressOverflow),
        };
        let end: u64 = match descriptor.physical_start.checked_add(bytes) {
            Some(end) => end,
            None => return Err(MemoryError::AddressOverflow),
        };
        self.push(FrameRange { start: descriptor.physical_start, end })
    }

    fn push(&mut self, range: FrameRange) -> (result: Result<(), MemoryError>)
        requires
            old(self)@.len() <= MAX_FREE_RANGES,
        ensures
            match result {
                Ok(()) => {
                    &&& range.start % 4096 == 0 && range.end % 4096 == 0
                    &&& old(self)@.len() < MAX_FREE_RANGES
                    &&& final(self)@ == old(self)@.push(range)
                },
                Err(error) => {
                    &&& *final(self) == *old(self)
                    &&& error == if range.start % 4096 != 0 || range.end % 4096 != 0 {
                        MemoryError::InvalidLength
                    } else {
                        MemoryError::TooManyRanges
                    }
                    &&& error == MemoryError::TooManyRanges ==> old(self)@.len()
                        == MAX_FREE_RANGES
                },
            },
            final(self).free_pages() == old(self).free_pages(),
    {
        proof {
            crate::boot_alloc::lemma_page_mask(range.start);
            crate::boot_alloc::lemma_page_mask(range.end);
        }
        if range.start & (PAGE_SIZE - 1) != 0 || range.end & (PAGE_SIZE - 1) != 0 {
            return Err(MemoryError::InvalidLength);
        }
        if self.ranges.len() == MAX_FREE_RANGES {
            return Err(MemoryError::TooManyRanges);
        }
        self.ranges.push(range);
        Ok(())
    }

    /// Puts the ranges in ascending order and makes those one that overlap or
    /// touch.
    fn sort_and_merge(&mut self)
        requires
            are_ranges(old(self)@),
        ensures
            is_merged(old(self)@, final(self)@),
            is_separate(old(self)@) ==> final(self)@ == old(self)@,
            are_at_pages(old(self)@) ==> are_at_pages(final(self)@),
            has_no_empty_range(old(self)@) ==> has_no_empty_range(final(self)@),
            final(self).free_pages() == old(self).free_pages(),
    {
        sort_by_start(&mut self.ranges);
        let ghost sorted = self.ranges@;
        let count: usize = self.ranges.len();
        let mut output: usize = 0;
        let mut index: usize = 0;
        proof {
            lemma_same_ranges(old(self)@, sorted);
            assert(sorted.take(0) =~= Seq::empty());
            assert(self.ranges@.take(0) =~= Seq::empty());
        }
        while index < count
            invariant
                output <= index <= count == sorted.len() == self.ranges@.len(),
                are_ranges(sorted),
                is_sorted_by_start(sorted),
                forall|later: int|
                    index <= later < count ==> #[trigger] self.ranges@[later] == sorted[later],
                is_separate(self.ranges@.take(output as int)),
                are_at_pages(sorted) ==> are_at_pages(self.ranges@.take(output as int)),
                has_no_empty_range(sorted) ==> has_no_empty_range(
                    self.ranges@.take(output as int),
                ),
                output > 0 && index < count ==> self.ranges@[output - 1].start
                    <= sorted[index as int].start,
                forall|address: int|
                    is_free(self.ranges@.take(output as int), address) <==> is_free(
                        sorted.take(index as int),
                        address,
                    ),
                forall|address: int|
                    is_reached(self.ranges@.take(output as int), address) <==> is_reached(
                        sorted.take(index as int),
                        address,
                    ),
                self.free_pages() == old(self).free_pages(),
            decreases count - index,
        {
            let current = self.ranges[index];
            let ghost out = self.ranges@.take(output as int);
            let ghost done = sorted.take(index as int);
            if output != 0 && current.start <= self.ranges[output - 1].end {
                let last = self.ranges[output - 1];
                let end: u64 = if last.end > current.end {
                    last.end
                } else {
                    current.end
                };
                self.ranges[output - 1] = FrameRange { start: last.start, end };
                proof {
                    let longer = FrameRange { start: last.start, end };
                    let new_out = self.ranges@.take(output as int);
                    assert(new_out =~= out.drop_last().push(longer));
                    assert(out =~= out.drop_last().push(last));
                    assert forall|address: int|
                        is_free(new_out, address) <==> is_free(out, address) || current.start
                            <= address < current.end by {
                        lemma_push(out.drop_last(), last, address);
                        lemma_push(out.drop_last(), longer, address);
                    }
                    assert forall|address: int|
                        is_reached(new_out, address) <==> is_reached(out, address)
                            || current.start <= address <= current.end by {
                        lemma_push(out.drop_last(), last, address);
                        lemma_push(out.drop_last(), longer, address);
                    }
                    assert(last == out[output - 1]);
                    assert(is_separate(new_out));
                }
            } else {
                self.ranges[output] = current;
                proof {
                    let new_out = self.ranges@.take(output + 1);
                    assert(new_out =~= out.push(current));
                    assert forall|address: int|
                        is_free(new_out, address) <==> is_free(out, address) || current.start
                            <= address < current.end by {
                        lemma_push(out, current, address);
                    }
                    assert forall|address: int|
                        is_reached(new_out, address) <==> is_reached(out, address)
                            || current.start <= address <= current.end by {
                        lemma_push(out, current, address);
                    }
                    if output > 0 {
                        assert(out.last() == self.ranges@[output - 1]);
                        assert(out.last().end < current.start);
                    }
                    assert forall|low: int, high: int|
                        0 <= low < high < new_out.len() implies (#[trigger] new_out[low]).end < (
                    #[trigger] new_out[high]).start by {
                        if high == output {
                            assert(out[low].end <= out.last().end);
                        }
                    }
                    assert(is_separate(new_out));
                }
                output = output + 1;
            }
            index = index + 1;
            proof {
                let new_out = self.ranges@.take(output as int);
                assert(sorted.take(index as int) =~= done.push(current));
                assert forall|address: int|
                    is_free(new_out, address) <==> is_free(sorted.take(index as int), address) by {
                    lemma_push(done, current, address);
                    assert(is_free(out, address) <==> is_free(done, address));
                }
                assert forall|address: int|
                    is_reached(new_out, address) <==> is_reached(
                        sorted.take(index as int),
                        address,
                    ) by {
                    lemma_push(done, current, address);
                    assert(is_reached(out, address) <==> is_reached(done, address));
                }
            }
        }
        self.ranges.truncate(output);
        proof {
            assert(sorted.take(count as int) =~= sorted);
            if is_separate(old(self)@) {
                lemma_separate_ranges_agree(old(self)@, self@);
            }
        }
    }
}

spec fn is_sorted_by_start(ranges: Seq<FrameRange>) -> bool {
    forall|low: int, high: int|
        0 <= low < high < ranges.len() ==> (#[trigger] ranges[low]).start <= (
        #[trigger] ranges[high]).start
}

/// Insertion sort by the start of the ranges.
fn sort_by_start(ranges: &mut Vec<FrameRange>)
    ensures
        is_sorted_by_start(final(ranges)@),
        final(ranges)@.len() == old(ranges)@.len(),
        forall|range: FrameRange| #[trigger]
            final(ranges)@.contains(range) <==> old(ranges)@.contains(range),
{
    let ghost first = ranges@;
    let mut index: usize = 1;
    while index < ranges.len()
        invariant
            index >= 1,
            ranges@.len() == first.len(),
            is_sorted_by_start(ranges@.take(if index <= ranges@.len() {
                index as int
            } else {
                ranges@.len() as int
            })),
            forall|range: FrameRange| #[trigger]
                ranges@.contains(range) <==> first.contains(range),
        decreases ranges@.len() - index,
    {
        let ghost before = ranges@;
        let value = ranges[index];
        let mut cursor: usize = index;
        proof {
            assert forall|low: int, high: int| 0 <= low < high < index implies (
            #[trigger] before[low]).start <= (#[trigger] before[high]).start by {
                assert(before.take(index as int)[low] == before[low]);
                assert(before.take(index as int)[high] == before[high]);
            }
        }
        while cursor > 0 && ranges[cursor - 1].start > value.start
            invariant
                cursor <= index < ranges@.len() == before.len(),
                value == before[index as int],
                forall|low: int| 0 <= low < cursor ==> #[trigger] ranges@[low] == before[low],
                forall|moved: int|
                    cursor < moved <= index ==> #[trigger] ranges@[moved] == before[moved - 1],
                forall|high: int|
                    index < high < before.len() ==> #[trigger] ranges@[high] == before[high],
                forall|moved: int|
                    cursor <= moved < index ==> (#[trigger] before[moved]).start > value.start,
                forall|low: int, high: int|
                    0 <= low < high < index ==> (#[trigger] before[low]).start <= (
                    #[trigger] before[high]).start,
            decreases cursor,
        {
            ranges[cursor] = ranges[cursor - 1];
            cursor = cursor - 1;
        }
        ranges[cursor] = value;
        proof {
            assert forall|range: FrameRange| #[trigger]
                ranges@.contains(range) <==> before.contains(range) by {
                if before.contains(range) {
                    let at = choose|at: int| 0 <= at < before.len() && before[at] == range;
                    let to = if at == index {
                        cursor as int
                    } else if cursor <= at < index {
                        at + 1
                    } else {
                        at
                    };
                    assert(ranges@[to] == before[at]);
                }
                if ranges@.contains(range) {
                    let at = choose|at: int| 0 <= at < ranges@.len() && ranges@[at] == range;
                    let from = if at == cursor {
                        index as int
                    } else if cursor < at <= index {
                        at - 1
                    } else {
                        at
                    };
                    assert(before[from] == ranges@[at]);
                }
            }
            let sorted = ranges@.take(index + 1);
            assert forall|low: int, high: int| 0 <= low < high < sorted.len() implies (
            #[trigger] sorted[low]).start <= (#[trigger] sorted[high]).start by {
                let from_low = if low == cursor {
                    index as int
                } else if cursor < low {
                    low - 1
                } else {
                    low
                };
                let from_high = if high == cursor {
                    index as int
                } else if cursor < high {
                    high - 1
                } else {
                    high
                };
                assert(sorted[low] == before[from_low]);
                assert(sorted[high] == before[from_high]);
            }
        }
        index = index + 1;
    }
    proof {
        assert(ranges@.take(ranges@.len() as int) =~= ranges@);
    }
}

fn count_pages(ranges: &Vec<FrameRange>) -> (pages: u64)
    requires
        is_ordered(ranges@),
    ensures
        pages == pages_in(ranges@),
{
    let mut pages: u64 = 0;
    let mut index: usize = 0;
    proof {
        assert(ranges@.take(0) =~= Seq::empty());
    }
    while index < ranges.len()
        invariant
            index <= ranges@.len(),
            is_ordered(ranges@),
            pages == pages_in(ranges@.take(index as int)),
        decreases ranges@.len() - index,
    {
        proof {
            assert(ranges@.take(index + 1).drop_last() =~= ranges@.take(index as int));
            lemma_pages_in_bound(ranges@, index + 1);
        }
        pages = pages + (ranges[index].end - ranges[index].start) / PAGE_SIZE;
        index = index + 1;
    }
    proof {
        assert(ranges@.take(ranges@.len() as int) =~= ranges@);
    }
    pages
}

proof fn lemma_collect_stops(descriptors: Seq<EfiMemoryDescriptor>, upto: int)
    requires
        0 <= upto <= descriptors.len(),
    ensures
        collect(descriptors.take(upto)) is Err ==> collect(descriptors) == collect(
            descriptors.take(upto),
        ),
    decreases descriptors.len() - upto,
{
    if upto < descriptors.len() {
        lemma_collect_stops(descriptors, upto + 1);
        assert(descriptors.take(upto + 1).drop_last() =~= descriptors.take(upto));
    } else {
        assert(descriptors.take(upto) =~= descriptors);
    }
}

/// Sequences of the same ranges hold the same memory.
proof fn lemma_same_ranges(one: Seq<FrameRange>, two: Seq<FrameRange>)
    requires
        forall|range: FrameRange| #[trigger] two.contains(range) <==> one.contains(range),
    ensures
        forall|address: int| is_free(two, address) <==> is_free(one, address),
        forall|address: int| is_reached(two, address) <==> is_reached(one, address),
        are_ranges(one) ==> are_ranges(two),
        are_at_pages(one) ==> are_at_pages(two),
        has_no_empty_range(one) ==> has_no_empty_range(two),
{
    assert forall|at: int| 0 <= at < two.len() implies exists|from: int|
        0 <= from < one.len() && one[from] == #[trigger] two[at] by {
        assert(two.contains(two[at]));
    }
    assert forall|at: int| 0 <= at < one.len() implies exists|to: int|
        0 <= to < two.len() && two[to] == #[trigger] one[at] by {
        assert(one.contains(one[at]));
        assert(two.contains(one[at]));
    }
}

proof fn lemma_push(ranges: Seq<FrameRange>, range: FrameRange, address: int)
    ensures
        is_free(ranges.push(range), address) <==> is_free(ranges, address) || range.start <= address
            < range.end,
        is_reached(ranges.push(range), address) <==> is_reached(ranges, address) || range.start
            <= address <= range.end,
{
    let longer = ranges.push(range);
    assert(longer[ranges.len() as int] == range);
    assert forall|at: int| 0 <= at < ranges.len() implies #[trigger] longer[at] == ranges[at] by {}
    if is_free(ranges, address) {
        let at = choose|at: int|
            0 <= at < ranges.len() && (#[trigger] ranges[at]).start <= address < ranges[at].end;
        assert(longer[at] == ranges[at]);
    }
    if is_reached(ranges, address) {
        let at = choose|at: int|
            0 <= at < ranges.len() && (#[trigger] ranges[at]).start <= address <= ranges[at].end;
        assert(longer[at] == ranges[at]);
    }
    if is_free(longer, address) {
        let at = choose|at: int|
            0 <= at < longer.len() && (#[trigger] longer[at]).start <= address < longer[at].end;
        if at < ranges.len() {
            assert(ranges[at] == longer[at]);
        }
    }
    if is_reached(longer, address) {
        let at = choose|at: int|
            0 <= at < longer.len() && (#[trigger] longer[at]).start <= address <= longer[at].end;
        if at < ranges.len() {
            assert(ranges[at] == longer[at]);
        }
    }
}

/// The pages in ordered ranges are bounded by where the last one ends.
proof fn lemma_pages_in_bound(ranges: Seq<FrameRange>, upto: int)
    requires
        is_ordered(ranges),
        0 <= upto <= ranges.len(),
    ensures
        0 <= pages_in(ranges.take(upto)),
        upto == 0 ==> pages_in(ranges.take(upto)) == 0,
        upto > 0 ==> pages_in(ranges.take(upto)) * 4096 <= ranges[upto - 1].end,
        upto == ranges.len() ==> ranges.take(upto) == ranges,
    decreases upto,
{
    if upto > 0 {
        lemma_pages_in_bound(ranges, upto - 1);
        assert(ranges.take(upto).drop_last() =~= ranges.take(upto - 1));
        let range = ranges[upto - 1];
        if upto > 1 {
            assert(ranges[upto - 2].end < range.start);
        }
    }
    if upto == ranges.len() {
        assert(ranges.take(upto) =~= ranges);
    }
}

proof fn lemma_pages_in_update(ranges: Seq<FrameRange>, index: int, range: FrameRange)
    requires
        0 <= index < ranges.len(),
    ensures
        pages_in(ranges.update(index, range)) == pages_in(ranges) - (ranges[index].end
            - ranges[index].start) / 4096 + (range.end - range.start) / 4096,
    decreases ranges.len(),
{
    let updated = ranges.update(index, range);
    if index == ranges.len() - 1 {
        assert(updated.drop_last() =~= ranges.drop_last());
    } else {
        assert(updated.drop_last() =~= ranges.drop_last().update(index, range));
        lemma_pages_in_update(ranges.drop_last(), index, range);
    }
}

proof fn lemma_nothing_fits(ranges: Seq<FrameRange>, bytes: int)
    requires
        bytes > u64::MAX,
    ensures
        highest_fit(ranges, bytes) is None,
    decreases ranges.len(),
{
    if ranges.len() > 0 {
        lemma_nothing_fits(ranges.drop_last(), bytes);
    }
}

proof fn lemma_highest_fit(ranges: Seq<FrameRange>, bytes: int)
    ensures
        match highest_fit(ranges, bytes) {
            Some(index) => {
                &&& 0 <= index < ranges.len()
                &&& ranges[index].end - ranges[index].start >= bytes
                &&& forall|above: int|
                    index < above < ranges.len() ==> (#[trigger] ranges[above]).end
                        - ranges[above].start < bytes
            },
            None => forall|index: int|
                0 <= index < ranges.len() ==> (#[trigger] ranges[index]).end - ranges[index].start
                    < bytes,
        },
    decreases ranges.len(),
{
    if ranges.len() > 0 {
        let shorter = ranges.drop_last();
        lemma_highest_fit(shorter, bytes);
        if ranges.last().end - ranges.last().start < bytes {
            assert forall|index: int|
                0 <= index < ranges.len() && (highest_fit(ranges, bytes) is None || index
                    > highest_fit(ranges, bytes)->0) implies (#[trigger] ranges[index]).end
                - ranges[index].start < bytes by {
                if index < shorter.len() {
                    assert(shorter[index] == ranges[index]);
                }
            }
        }
    }
}

/// Pages are refused exactly where none were asked for or no single range
/// holds that many.
pub proof fn law_refusal_means_no_room(ranges: Seq<FrameRange>, count: nat)
    ensures
        take_pages(ranges, count).1 is None <==> count == 0 || forall|index: int|
            0 <= index < ranges.len() ==> (#[trigger] ranges[index]).end - ranges[index].start
                < count * 4096,
        take_pages(ranges, count).1 is None ==> take_pages(ranges, count).0 == ranges,
{
    lemma_highest_fit(ranges, (count * 4096) as int);
}

/// The pages handed out start at a page, were free, are free no longer, and
/// nothing else changes; the ledger stays in order.
pub proof fn law_taken_pages_leave_the_ledger(ranges: Seq<FrameRange>, count: nat)
    requires
        is_ordered(ranges),
        take_pages(ranges, count).1 is Some,
    ensures
        ({
            let (rest, address) = take_pages(ranges, count);
            let block = address->0;
            &&& block % 4096 == 0
            &&& is_ordered(rest)
            &&& pages_in(rest) + count == pages_in(ranges)
            &&& forall|at: int|
                block <= at < block + count * 4096 ==> #[trigger] is_free(ranges, at) && !is_free(
                    rest,
                    at,
                )
            &&& forall|at: int|
                !(block <= at < block + count * 4096) ==> (#[trigger] is_free(rest, at)
                    <==> is_free(ranges, at))
        }),
{
    let bytes = count * 4096;
    lemma_highest_fit(ranges, bytes as int);
    let index = highest_fit(ranges, bytes as int)->0;
    let (rest, address) = take_pages(ranges, count);
    let block = address->0;
    let range = ranges[index];
    assert(rest[index] == (FrameRange { start: range.start, end: block }));
    lemma_pages_in_update(ranges, index, rest[index]);
    assert((range.end - range.start) / 4096 - (block - range.start) / 4096 == count);
    assert forall|at: int| block <= at < block + bytes implies #[trigger] is_free(ranges, at)
        && !is_free(rest, at) by {
        assert(ranges[index].start <= at < ranges[index].end);
        if is_free(rest, at) {
            let other = choose|other: int|
                0 <= other < rest.len() && (#[trigger] rest[other]).start <= at < rest[other].end;
            assert(other != index);
            assert(rest[other] == ranges[other]);
        }
    }
    assert forall|at: int| !(block <= at < block + bytes) implies (#[trigger] is_free(rest, at)
        <==> is_free(ranges, at)) by {
        if is_free(rest, at) {
            let other = choose|other: int|
                0 <= other < rest.len() && (#[trigger] rest[other]).start <= at < rest[other].end;
            assert(ranges[other].start <= at < ranges[other].end);
        }
        if is_free(ranges, at) {
            let other = choose|other: int|
                0 <= other < ranges.len() && (#[trigger] ranges[other]).start <= at
                    < ranges[other].end;
            assert(rest[other].start <= at < rest[other].end);
        }
    }
}

/// Two blocks taken off the ledger one after the other do not overlap.
pub proof fn law_taken_blocks_are_disjoint(ranges: Seq<FrameRange>, first: nat, second: nat)
    requires
        is_ordered(ranges),
        take_pages(ranges, first).1 is Some,
        take_pages(take_pages(ranges, first).0, second).1 is Some,
    ensures
        ({
            let (rest, one) = take_pages(ranges, first);
            let (_, two) = take_pages(rest, second);
            one->0 + first * 4096 <= two->0 || two->0 + second * 4096 <= one->0
        }),
{
    let (rest, one) = take_pages(ranges, first);
    let (_, two) = take_pages(rest, second);
    law_taken_pages_leave_the_ledger(ranges, first);
    law_taken_pages_leave_the_ledger(rest, second);
    if one->0 <= two->0 {
        assert(is_free(rest, two->0 as int));
        if two->0 < one->0 + first * 4096 {
            assert(is_free(ranges, two->0 as int));
        }
    } else if two->0 + second * 4096 > one->0 {
        assert(is_free(rest, one->0 as int));
        assert(is_free(ranges, one->0 as int));
    }
}

/// Two ordered ledgers without empty ranges that call the same memory free are
/// the same ledger: what is free determines the ranges.
pub proof fn law_ledger_is_determined_by_what_is_free(one: Seq<FrameRange>, two: Seq<FrameRange>)
    requires
        is_ordered(one),
        is_ordered(two),
        has_no_empty_range(one),
        has_no_empty_range(two),
        forall|address: int| is_free(one, address) <==> is_free(two, address),
    ensures
        one == two,
{
    assert forall|address: int| is_reached(one, address) <==> is_reached(two, address) by {
        lemma_reached(one, address);
        lemma_reached(two, address);
        assert(is_free(one, address) <==> is_free(two, address));
        assert(is_free(one, address - 1) <==> is_free(two, address - 1));
    }
    lemma_separate_ranges_agree(one, two);
}

/// Merging has one result: what the ranges hold and reach determines it.
pub proof fn law_merging_has_one_result(
    ranges: Seq<FrameRange>,
    one: Seq<FrameRange>,
    two: Seq<FrameRange>,
)
    requires
        is_merged(ranges, one),
        is_merged(ranges, two),
    ensures
        one == two,
{
    assert forall|address: int| is_free(one, address) <==> is_free(two, address) by {
        assert(is_free(one, address) <==> is_free(ranges, address));
    }
    assert forall|address: int| is_reached(one, address) <==> is_reached(two, address) by {
        assert(is_reached(one, address) <==> is_reached(ranges, address));
    }
    lemma_separate_ranges_agree(one, two);
}

/// Merging what has been merged changes nothing.
pub proof fn law_merging_again_changes_nothing(
    ranges: Seq<FrameRange>,
    once: Seq<FrameRange>,
    twice: Seq<FrameRange>,
)
    requires
        is_merged(ranges, once),
        is_merged(once, twice),
    ensures
        twice == once,
{
    lemma_separate_ranges_agree(once, twice);
}

/// What non-empty ranges reach is what they hold, and the address behind it.
proof fn lemma_reached(ranges: Seq<FrameRange>, address: int)
    requires
        has_no_empty_range(ranges),
    ensures
        is_reached(ranges, address) <==> is_free(ranges, address) || is_free(ranges, address - 1),
{
    if is_reached(ranges, address) {
        let at = choose|at: int|
            0 <= at < ranges.len() && (#[trigger] ranges[at]).start <= address <= ranges[at].end;
        assert(ranges[at].start < ranges[at].end);
    }
    if is_free(ranges, address) {
        let at = choose|at: int|
            0 <= at < ranges.len() && (#[trigger] ranges[at]).start <= address < ranges[at].end;
        assert(ranges[at].start <= address <= ranges[at].end);
    }
    if is_free(ranges, address - 1) {
        let at = choose|at: int|
            0 <= at < ranges.len() && (#[trigger] ranges[at]).start <= address - 1
                < ranges[at].end;
        assert(ranges[at].start <= address <= ranges[at].end);
    }
}

/// Separate ranges that hold the same memory and reach the same addresses are
/// the same.
proof fn lemma_separate_ranges_agree(one: Seq<FrameRange>, two: Seq<FrameRange>)
    requires
        is_separate(one),
        is_separate(two),
        forall|address: int| is_free(one, address) <==> is_free(two, address),
        forall|address: int| is_reached(one, address) <==> is_reached(two, address),
    ensures
        one == two,
    decreases one.len(),
{
    if one.len() == 0 || two.len() == 0 {
        if one.len() > 0 {
            assert(one[0].start <= one[0].start <= one[0].end);
            assert(is_reached(one, one[0].start as int));
            assert(is_reached(two, one[0].start as int));
        }
        if two.len() > 0 {
            assert(two[0].start <= two[0].start <= two[0].end);
            assert(is_reached(two, two[0].start as int));
            assert(is_reached(one, two[0].start as int));
        }
        assert(one =~= two);
    } else {
        lemma_last_range_agrees(one, two);
        lemma_last_range_agrees(two, one);
        let a = one.last();
        let one_less = one.drop_last();
        let two_less = two.drop_last();
        assert(one =~= one_less.push(a));
        assert(two =~= two_less.push(a));
        assert forall|address: int| is_free(one_less, address) <==> is_free(two_less, address) by {
            lemma_push(one_less, a, address);
            lemma_push(two_less, a, address);
            lemma_below_last(one, address);
            lemma_below_last(two, address);
            assert(is_free(one, address) <==> is_free(two, address));
        }
        assert forall|address: int| is_reached(one_less, address) <==> is_reached(
            two_less,
            address,
        ) by {
            lemma_push(one_less, a, address);
            lemma_push(two_less, a, address);
            lemma_below_last(one, address);
            lemma_below_last(two, address);
            assert(is_reached(one, address) <==> is_reached(two, address));
        }
        lemma_separate_ranges_agree(one_less, two_less);
    }
}

/// All ranges but the last lie below it.
proof fn lemma_below_last(ranges: Seq<FrameRange>, address: int)
    requires
        is_separate(ranges),
        ranges.len() > 0,
    ensures
        is_free(ranges.drop_last(), address) ==> address < ranges.last().start,
        is_reached(ranges.drop_last(), address) ==> address < ranges.last().start,
{
    let shorter = ranges.drop_last();
    if is_free(shorter, address) {
        let at = choose|at: int|
            0 <= at < shorter.len() && (#[trigger] shorter[at]).start <= address < shorter[at].end;
        assert(ranges[at].end < ranges[ranges.len() - 1].start);
    }
    if is_reached(shorter, address) {
        let at = choose|at: int|
            0 <= at < shorter.len() && (#[trigger] shorter[at]).start <= address
                <= shorter[at].end;
        assert(ranges[at].end < ranges[ranges.len() - 1].start);
    }
}

/// The last range of `one` starts and ends no later than that of `two` does.
proof fn lemma_last_range_agrees(one: Seq<FrameRange>, two: Seq<FrameRange>)
    requires
        is_separate(one),
        is_separate(two),
        one.len() > 0,
        two.len() > 0,
        forall|address: int| is_free(one, address) <==> is_free(two, address),
        forall|address: int| is_reached(one, address) <==> is_reached(two, address),
    ensures
        one.last().end <= two.last().end,
        one.last().start <= two.last().start,
{
    let a = one.last();
    let b = two.last();
    assert(one[one.len() - 1].start <= a.end <= one[one.len() - 1].end);
    assert(is_reached(one, a.end as int));
    assert(is_reached(two, a.end as int));
    let at = choose|at: int|
        0 <= at < two.len() && (#[trigger] two[at]).start <= a.end <= two[at].end;
    assert(two[at].end <= b.end) by {
        if at < two.len() - 1 {
            assert(two[at].end < two[two.len() - 1].start);
        }
    }
    if a.start > b.start {
        // The address just below the last range of `one` is free in `two`.
        let gap = a.start - 1;
        assert(a.end <= b.end);
        assert(two[two.len() - 1].start <= gap < two[two.len() - 1].end);
        assert(is_free(two, gap));
        assert(is_free(one, gap));
        let other = choose|other: int|
            0 <= other < one.len() && (#[trigger] one[other]).start <= gap < one[other].end;
        assert(other < one.len() - 1);
        assert(one[other].end < one[one.len() - 1].start);
        assert(false);
    }
}

/// The ledger's count is the number of pages that are free.
pub proof fn law_count_is_the_number_of_free_pages(ranges: Seq<FrameRange>)
    requires
        is_ordered(ranges),
    ensures
        Set::new(|page: int| is_free(ranges, page * 4096)).finite(),
        Set::new(|page: int| is_free(ranges, page * 4096)).len() == pages_in(ranges),
    decreases ranges.len(),
{
    let all = Set::new(|page: int| is_free(ranges, page * 4096));
    if ranges.len() == 0 {
        assert(all =~= Set::empty());
    } else {
        let shorter = ranges.drop_last();
        let last = ranges.last();
        let below = Set::new(|page: int| is_free(shorter, page * 4096));
        let low = last.start as int / 4096;
        let high = last.end as int / 4096;
        law_count_is_the_number_of_free_pages(shorter);
        vstd::set_lib::lemma_int_range(low, high);
        let top = vstd::set_lib::set_int_range(low, high);
        assert(ranges =~= shorter.push(last));
        assert(last == ranges[ranges.len() - 1]);
        assert forall|page: int| all.contains(page) <==> (below + top).contains(page) by {
            lemma_push(shorter, last, page * 4096);
        }
        assert(all =~= below + top);
        assert forall|page: int| below.contains(page) implies !top.contains(page) by {
            lemma_below_last(ranges, page * 4096);
        }
        vstd::set_lib::lemma_set_disjoint_lens(below, top);
        assert((last.end - last.start) / 4096 == high - low);
    }
}

/// The ledger's ranges can be had just where all conventional memory is sound, and hold
/// just the conventional memory.
pub proof fn law_conventional_memory_is_free(descriptors: Seq<EfiMemoryDescriptor>)
    ensures
        collect(descriptors) is Ok <==> is_sound(descriptors),
        collect(descriptors) matches Ok(ranges) ==> {
            &&& ranges.len() == conventional_count(descriptors)
            &&& forall|address: int|
                is_free(ranges, address) <==> is_conventional(descriptors, address)
        },
    decreases descriptors.len(),
{
    if descriptors.len() > 0 {
        let shorter = descriptors.drop_last();
        let last = descriptors.last();
        let top = descriptors.len() - 1;
        law_conventional_memory_is_free(shorter);
        assert(descriptors[top] == last);
        assert forall|index: int| 0 <= index < shorter.len() implies #[trigger] shorter[index]
            == descriptors[index] by {}
        if is_sound(descriptors) {
            assert(is_sound(shorter));
        }
        if is_sound(shorter) && collect(descriptors) is Ok {
            assert(is_sound(descriptors)) by {
                assert forall|index: int|
                    0 <= index < descriptors.len() && (#[trigger] descriptors[index]).memory_type
                        == 7 && descriptors[index].number_of_pages > 0 implies {
                    &&& descriptors[index].physical_start % 4096 == 0
                    &&& descriptors[index].physical_start + 4096
                        * descriptors[index].number_of_pages <= u64::MAX
                } by {
                    if index < top {
                        assert(shorter[index] == descriptors[index]);
                    }
                }
            }
        }
        if let Ok(ranges) = collect(descriptors) {
            let before = collect(shorter)->Ok_0;
            assert forall|address: int| is_free(ranges, address) <==> is_conventional(
                descriptors,
                address,
            ) by {
                lemma_conventional_last(descriptors, address);
                assert(is_free(before, address) <==> is_conventional(shorter, address));
                if is_usable(last) {
                    lemma_push(
                        before,
                        FrameRange {
                            start: last.physical_start,
                            end: descriptor_end(last) as u64,
                        },
                        address,
                    );
                }
            }
        }
    }
}

proof fn lemma_conventional_last(descriptors: Seq<EfiMemoryDescriptor>, address: int)
    requires
        descriptors.len() > 0,
    ensures
        ({
            let last = descriptors.last();
            is_conventional(descriptors, address) <==> is_conventional(
                descriptors.drop_last(),
                address,
            ) || last.memory_type == 7 && last.physical_start <= address < last.physical_start
                + 4096 * last.number_of_pages
        }),
{
    let shorter = descriptors.drop_last();
    let top = descriptors.len() - 1;
    if is_conventional(descriptors, address) {
        let index = choose|index: int|
            0 <= index < descriptors.len() && (#[trigger] descriptors[index]).memory_type == 7
                && descriptors[index].physical_start <= address < descriptors[index].physical_start
                + 4096 * descriptors[index].number_of_pages;
        if index < top {
            assert(shorter[index] == descriptors[index]);
        }
    }
    if is_conventional(shorter, address) {
        let index = choose|index: int|
            0 <= index < shorter.len() && (#[trigger] shorter[index]).memory_type == 7
                && shorter[index].physical_start <= address < shorter[index].physical_start + 4096
                * shorter[index].number_of_pages;
        assert(descriptors[index] == shorter[index]);
    }
    assert(descriptors[top] == descriptors.last());
}

/// The first conventional descriptor that cannot be taken in decides about the error: one
/// that ends outside the address space, else one that does not start at a page, else the
/// one after 256 others.
pub proof fn law_first_unsound_descriptor_decides(
    descriptors: Seq<EfiMemoryDescriptor>,
    index: int,
)
    requires
        0 <= index < descriptors.len(),
        is_sound(descriptors.take(index)),
        !is_sound(descriptors.take(index + 1)),
    ensures
        ({
            let bad = descriptors[index];
            let end = bad.physical_start + 4096 * bad.number_of_pages;
            collect(descriptors) == Err::<Seq<FrameRange>, MemoryError>(
                if end > u64::MAX {
                    MemoryError::AddressOverflow
                } else if bad.physical_start % 4096 != 0 {
                    MemoryError::InvalidLength
                } else {
                    MemoryError::TooManyRanges
                },
            )
        }),
{
    let before = descriptors.take(index);
    let with = descriptors.take(index + 1);
    assert(with.drop_last() =~= before);
    assert(with.last() == descriptors[index]);
    law_conventional_memory_is_free(before);
    law_conventional_memory_is_free(with);
    lemma_collect_stops(descriptors, index + 1);
}

/// Pages come off the top: no block of free memory of that size lies above the one that is
/// handed out.
pub proof fn law_pages_come_off_the_top(ranges: Seq<FrameRange>, count: nat, other: int)
    requires
        is_ordered(ranges),
        take_pages(ranges, count).1 is Some,
        other > take_pages(ranges, count).1->0,
    ensures
        exists|at: int| other <= at < other + 4096 * count && !#[trigger] is_free(ranges, at),
{
    let bytes = (count * 4096) as int;
    lemma_highest_fit(ranges, bytes);
    let index = highest_fit(ranges, bytes)->0;
    let block = take_pages(ranges, count).1->0;
    let last = other + bytes - 1;
    if forall|at: int| other <= at < other + 4096 * count ==> #[trigger] is_free(ranges, at) {
        assert(is_free(ranges, other));
        assert(is_free(ranges, last));
        let low = choose|low: int|
            0 <= low < ranges.len() && (#[trigger] ranges[low]).start <= other < ranges[low].end;
        let high = choose|high: int|
            0 <= high < ranges.len() && (#[trigger] ranges[high]).start <= last < ranges[high].end;
        if low == high {
            assert(ranges[low].end - ranges[low].start >= bytes);
            assert(low <= index);
            if low < index {
                assert(ranges[low].end < ranges[index].start);
            }
        } else {
            if high < low {
                assert(ranges[high].end < ranges[low].start);
            }
            // The address behind the lower range is not free.
            let gap = ranges[low].end as int;
            assert(ranges[low].end < ranges[high].start);
            assert(is_free(ranges, gap));
            let holder = choose|holder: int|
                0 <= holder < ranges.len() && (#[trigger] ranges[holder]).start <= gap
                    < ranges[holder].end;
            if holder < low {
                assert(ranges[holder].end < ranges[low].start);
            } else if holder > low {
                assert(ranges[low].end < ranges[holder].start);
            }
        }
    }
}

/// A descriptor of the map, by its bytes, which stand in little-endian order: the type in
/// the first four, the start behind the eighth, the number of pages behind the
/// twenty-fourth. There are as many descriptors as fit.
pub proof fn law_descriptors_are_read_from_their_bytes(bytes: Seq<u8>, stride: nat, index: int)
    requires
        stride >= 40,
        0 <= index,
        (index + 1) * stride <= bytes.len(),
    ensures
        descriptors_in(bytes, stride).len() == bytes.len() as int / stride as int,
        index < descriptors_in(bytes, stride).len(),
        ({
            let found = descriptors_in(bytes, stride)[index];
            let at = index * stride;
            &&& found.memory_type == bytes[at] + 0x100 * bytes[at + 1] + 0x1_0000 * bytes[at + 2]
                + 0x100_0000 * bytes[at + 3]
            &&& found.physical_start == bytes[at + 8] + 0x100 * bytes[at + 9] + 0x1_0000
                * bytes[at + 10] + 0x100_0000 * bytes[at + 11] + 0x1_0000_0000 * bytes[at + 12]
                + 0x100_0000_0000 * bytes[at + 13] + 0x1_0000_0000_0000 * bytes[at + 14]
                + 0x100_0000_0000_0000 * bytes[at + 15]
            &&& found.number_of_pages == bytes[at + 24] + 0x100 * bytes[at + 25] + 0x1_0000
                * bytes[at + 26] + 0x100_0000 * bytes[at + 27] + 0x1_0000_0000 * bytes[at + 28]
                + 0x100_0000_0000 * bytes[at + 29] + 0x1_0000_0000_0000 * bytes[at + 30]
                + 0x100_0000_0000_0000 * bytes[at + 31]
            &&& found.virtual_start == u64_at(bytes, at + 16)
            &&& found.attributes == u64_at(bytes, at + 32)
        }),
{
    let size = bytes.len() as int;
    let step = stride as int;
    assert(index < size / step) by (nonlinear_arith)
        requires
            step >= 40,
            0 <= index,
            (index + 1) * step <= size,
    ;
}

/// A map can be walked just where it is there, its descriptors have at least forty bytes,
/// and it is a whole number of them, at least one; else the first of these that fails
/// decides.
pub proof fn law_map_is_checked(handoff: Handoff)
    ensures
        map_error(handoff) == if handoff.memory_map == 0 {
            Some(MemoryError::NullMap)
        } else if handoff.descriptor_size < 40 {
            Some(MemoryError::InvalidStride)
        } else if handoff.memory_map_size < handoff.descriptor_size || handoff.memory_map_size
            % handoff.descriptor_size != 0 {
            Some(MemoryError::InvalidLength)
        } else {
            None
        },
{
    if handoff.descriptor_size >= 40 && 0 < handoff.memory_map_size < handoff.descriptor_size {
        vstd::arithmetic::div_mod::lemma_small_mod(
            handoff.memory_map_size as nat,
            handoff.descriptor_size as nat,
        );
    }
}

/// Taking pages makes one range shorter at its end, and leaves all others; none goes away, even
/// where it becomes empty.
pub proof fn law_taken_pages_shorten_one_range(ranges: Seq<FrameRange>, count: nat)
    requires
        take_pages(ranges, count).1 is Some,
    ensures
        ({
            let (rest, address) = take_pages(ranges, count);
            &&& rest.len() == ranges.len()
            &&& exists|index: int|
                0 <= index < ranges.len() && (#[trigger] ranges[index]).end == address->0 + 4096
                    * count && rest == ranges.update(
                    index,
                    FrameRange { start: ranges[index].start, end: address->0 },
                )
        }),
{
    let bytes = (count * 4096) as int;
    lemma_highest_fit(ranges, bytes);
    let index = highest_fit(ranges, bytes)->0;
    assert(ranges[index].end == take_pages(ranges, count).1->0 + 4096 * count);
}

} // verus!
