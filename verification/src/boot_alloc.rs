//! The bootstrap arena: a bump allocator over one contiguous range of
//! physical memory.

use vstd::arithmetic::power2::{is_pow2, pow2};
use vstd::prelude::*;

verus! {

/// Bytes in one page.
pub const PAGE_SIZE: u64 = 4096;

/// The least multiple of `alignment` that is not below `address`.
pub open spec fn align_up(address: nat, alignment: nat) -> nat {
    ((address + alignment - 1) / (alignment as int) * alignment) as nat
}

/// What is left of an arena: the addresses from `next` up to `end`.
pub ghost struct ArenaView {
    pub next: nat,
    pub end: nat,
}

impl ArenaView {
    /// The arena still holds `size` bytes at an address aligned to `alignment`.
    pub open spec fn fits(self, size: nat, alignment: nat) -> bool {
        align_up(self.next, alignment) + size <= self.end
    }

    /// The state of the arena and the address handed out after a request for
    /// `size` bytes aligned to `alignment`. A request that fails leaves the
    /// arena as it was, except that a block at address zero is consumed
    /// without being handed out.
    pub open spec fn allocate(self, size: nat, alignment: nat) -> (ArenaView, Option<u64>) {
        if size == 0 || !is_pow2(alignment as int) || !self.fits(size, alignment) {
            (self, None)
        } else {
            let start = align_up(self.next, alignment);
            (
                ArenaView { next: start + size, end: self.end },
                if start == 0 {
                    None
                } else {
                    Some(start as u64)
                },
            )
        }
    }

    /// As `allocate`, for `count` whole pages.
    pub open spec fn allocate_pages(self, count: nat) -> (ArenaView, Option<u64>) {
        self.allocate(count * PAGE_SIZE as nat, PAGE_SIZE as nat)
    }
}

/// A bump allocator over a range of physical memory.
pub struct BootArena {
    next: u64,
    end: u64,
}

/// Why a range of memory cannot be an arena.
#[derive(Clone, Copy, Debug, PartialEq, Eq, Structural)]
pub enum BootAllocError {
    Empty,
    Misaligned,
    Overflow,
}

impl BootAllocError {
    /// The number under which the error is logged.
    pub open spec fn number(self) -> u64 {
        match self {
            BootAllocError::Empty => 0u64,
            BootAllocError::Misaligned => 1u64,
            BootAllocError::Overflow => 2u64,
        }
    }

    /// The number under which the error is logged.
    pub fn code(self) -> (number: u64)
        ensures
            number == self.number(),
    {
        match self {
            BootAllocError::Empty => 0,
            BootAllocError::Misaligned => 1,
            BootAllocError::Overflow => 2,
        }
    }
}

impl View for BootArena {
    type V = ArenaView;

    closed spec fn view(&self) -> ArenaView {
        ArenaView { next: self.next as nat, end: self.end as nat }
    }
}

/// Why `[base, base + length)` cannot be an arena, if it cannot.
pub open spec fn arena_error(base: u64, length: u64) -> Option<BootAllocError> {
    if length == 0 {
        Some(BootAllocError::Empty)
    } else if base % 4096 != 0 || length % 4096 != 0 {
        Some(BootAllocError::Misaligned)
    } else if base + length > u64::MAX {
        Some(BootAllocError::Overflow)
    } else {
        None
    }
}

impl BootArena {
    /// The arena's cursor has not run past its end.
    pub open spec fn wf(&self) -> bool {
        self@.next <= self@.end <= u64::MAX
    }

    /// An arena over the `length` bytes at `base`.
    pub fn new(base: u64, length: u64) -> (result: Result<Self, BootAllocError>)
        ensures
            match result {
                Ok(arena) => {
                    &&& arena_error(base, length) is None
                    &&& arena.wf()
                    &&& arena@ == (ArenaView { next: base as nat, end: (base + length) as nat })
                },
                Err(error) => arena_error(base, length) == Some(error),
            },
    {
        proof {
            lemma_page_mask(base);
            lemma_page_mask(length);
        }
        if length == 0 {
            return Err(BootAllocError::Empty);
        }
        if base & (PAGE_SIZE - 1) != 0 || length & (PAGE_SIZE - 1) != 0 {
            return Err(BootAllocError::Misaligned);
        }
        match base.checked_add(length) {
            Some(end) => Ok(Self { next: base, end }),
            None => Err(BootAllocError::Overflow),
        }
    }

    /// Hands out `page_count` whole pages and returns their address.
    pub fn allocate_pages(&mut self, page_count: usize) -> (address: Option<u64>)
        requires
            old(self).wf(),
        ensures
            final(self).wf(),
            (final(self)@, address) == old(self)@.allocate_pages(page_count as nat),
    {
        proof {
            lemma_page_size_is_pow2();
        }
        match (page_count as u64).checked_mul(PAGE_SIZE) {
            Some(bytes) => self.bump(bytes, PAGE_SIZE),
            None => None,
        }
    }

    /// Hands out `size` bytes at a multiple of `alignment`, which must be a
    /// power of two, and returns their address.
    pub fn allocate(&mut self, size: usize, alignment: usize) -> (address: Option<u64>)
        requires
            old(self).wf(),
        ensures
            final(self).wf(),
            (final(self)@, address) == old(self)@.allocate(size as nat, alignment as nat),
    {
        self.bump(size as u64, alignment as u64)
    }

    fn bump(&mut self, size: u64, alignment: u64) -> (address: Option<u64>)
        requires
            old(self).wf(),
        ensures
            final(self).wf(),
            (final(self)@, address) == old(self)@.allocate(size as nat, alignment as nat),
    {
        if size == 0 || !is_power_of_two(alignment) {
            return None;
        }
        proof {
            lemma_align_up_overflow(self.next, alignment);
        }
        let mask: u64 = alignment - 1;
        let start: u64 = match self.next.checked_add(mask) {
            Some(sum) => {
                proof {
                    lemma_clear_mask(sum, alignment);
                }
                sum & !mask
            },
            None => return None,
        };
        let next: u64 = match start.checked_add(size) {
            Some(next) => next,
            None => return None,
        };
        if next > self.end {
            return None;
        }
        self.next = next;
        if start == 0 {
            None
        } else {
            Some(start)
        }
    }

    /// Bytes between the cursor and the end.
    pub fn remaining_bytes(&self) -> (bytes: u64)
        requires
            self.wf(),
        ensures
            bytes == self@.end - self@.next,
    {
        self.end - self.next
    }
}

fn is_power_of_two(value: u64) -> (result: bool)
    ensures
        result == is_pow2(value as int),
{
    proof {
        lemma_pow2_bits(value);
    }
    value != 0 && value & (value - 1) == 0
}

proof fn lemma_pow2_bits(value: u64)
    ensures
        is_pow2(value as int) <==> value != 0 && value & ((value - 1) as u64) == 0,
    decreases value,
{
    reveal(is_pow2);
    if value > 1 {
        let half: u64 = value / 2;
        lemma_pow2_bits(half);
        assert(value % 2 == 1 ==> value & ((value - 1) as u64) != 0) by (bit_vector)
            requires
                value > 1,
        ;
        assert(value % 2 == 0 ==> (value & ((value - 1) as u64) == 0 <==> half & ((half
            - 1) as u64) == 0)) by (bit_vector)
            requires
                value > 1,
                half == value / 2,
        ;
    } else if value == 1 {
        assert(1u64 & 0u64 == 0) by (bit_vector);
    }
}

proof fn lemma_page_size_is_pow2()
    ensures
        is_pow2(PAGE_SIZE as int),
{
    reveal_with_fuel(is_pow2, 14);
}

/// A block that the arena hands out is aligned as asked, lies in what was left
/// of the arena, and is left out of what remains.
pub proof fn law_allocation_lies_in_the_arena(arena: ArenaView, size: nat, alignment: nat)
    requires
        arena.end <= u64::MAX,
        arena.allocate(size, alignment).1 is Some,
    ensures
        ({
            let (rest, address) = arena.allocate(size, alignment);
            let start = address->0 as nat;
            &&& start != 0
            &&& start % alignment == 0
            &&& arena.next <= start < arena.next + alignment
            &&& start + size == rest.next
            &&& rest.next <= rest.end == arena.end
        }),
{
    reveal(is_pow2);
    let sum = arena.next + alignment - 1;
    let a = alignment as int;
    vstd::arithmetic::div_mod::lemma_fundamental_div_mod(sum, a);
    vstd::arithmetic::mul::lemma_mul_is_commutative(sum / a, a);
    vstd::arithmetic::div_mod::lemma_mod_multiples_basic(sum / a, a);
}

/// Two blocks handed out one after the other, whatever other requests came
/// between them, do not overlap: the later one lies above the earlier one.
pub proof fn law_allocations_are_disjoint(
    arena: ArenaView,
    later: ArenaView,
    size: nat,
    alignment: nat,
    later_size: nat,
    later_alignment: nat,
)
    requires
        arena.end <= u64::MAX,
        arena.allocate(size, alignment).1 is Some,
        later.end == arena.end,
        later.next >= arena.allocate(size, alignment).0.next,
        later.allocate(later_size, later_alignment).1 is Some,
    ensures
        arena.allocate(size, alignment).1->0 + size <= later.allocate(
            later_size,
            later_alignment,
        ).1->0,
{
    law_allocation_lies_in_the_arena(arena, size, alignment);
    law_allocation_lies_in_the_arena(later, later_size, later_alignment);
}

/// No request moves the cursor of an arena back or past the end.
pub proof fn law_cursor_only_advances(arena: ArenaView, size: nat, alignment: nat)
    requires
        arena.next <= arena.end,
    ensures
        arena.next <= arena.allocate(size, alignment).0.next <= arena.end,
        arena.allocate(size, alignment).0.end == arena.end,
{
    if arena.allocate(size, alignment).0 != arena {
        reveal(is_pow2);
        let sum = arena.next + alignment - 1;
        let a = alignment as int;
        vstd::arithmetic::div_mod::lemma_fundamental_div_mod(sum, a);
        vstd::arithmetic::mul::lemma_mul_is_commutative(sum / a, a);
    }
}

/// The blocks of pages that an arena hands out when asked for `counts` in turn,
/// up to the first that it cannot.
pub open spec fn blocks(arena: ArenaView, counts: Seq<nat>) -> (ArenaView, Option<Seq<u64>>)
    decreases counts.len(),
{
    if counts.len() == 0 {
        (arena, Some(Seq::empty()))
    } else {
        match blocks(arena, counts.drop_last()) {
            (rest, None) => (rest, None),
            (rest, Some(pages)) => match rest.allocate_pages(counts.last()) {
                (rest, None) => (rest, None),
                (rest, Some(page)) => (rest, Some(pages.push(page))),
            },
        }
    }
}

/// The block at `page` lies between the addresses `low` and `high`.
pub open spec fn is_block(page: u64, count: nat, low: nat, high: nat) -> bool {
    &&& page % 4096 == 0
    &&& 0 < page
    &&& low <= page
    &&& page + count * 4096 <= high
}

/// The arena hands out whole pages, one block after the other.
pub proof fn lemma_blocks(arena: ArenaView, counts: Seq<nat>)
    requires
        arena.next <= arena.end <= u64::MAX,
    ensures
        ({
            let (rest, pages) = blocks(arena, counts);
            &&& arena.next <= rest.next <= rest.end == arena.end
            &&& pages matches Some(pages) ==> {
                &&& pages.len() == counts.len()
                &&& forall|i: int|
                    0 <= i < pages.len() ==> is_block(
                        #[trigger] pages[i],
                        counts[i],
                        arena.next,
                        rest.next,
                    )
                &&& forall|i: int, j: int|
                    0 <= i < j < pages.len() ==> #[trigger] pages[i] + counts[i] * 4096
                        <= #[trigger] pages[j]
            }
        }),
    decreases counts.len(),
{
    if counts.len() > 0 {
        lemma_blocks(arena, counts.drop_last());
        let (middle, taken) = blocks(arena, counts.drop_last());
        law_cursor_only_advances(middle, counts.last() * 4096, 4096);
        if taken is Some {
            let pages = blocks(arena, counts).1;
            if pages is Some {
                law_allocation_lies_in_the_arena(middle, counts.last() * 4096, 4096);
                let pages = pages->0;
                assert forall|i: int| 0 <= i < pages.len() implies is_block(
                    #[trigger] pages[i],
                    counts[i],
                    arena.next,
                    blocks(arena, counts).0.next,
                ) by {
                    if i < taken->0.len() {
                        assert(pages[i] == taken->0[i]);
                        assert(counts[i] == counts.drop_last()[i]);
                    }
                }
                assert forall|i: int, j: int| 0 <= i < j < pages.len() implies #[trigger] pages[i]
                    + counts[i] * 4096 <= #[trigger] pages[j] by {
                    assert(pages[i] == taken->0[i]);
                    assert(counts[i] == counts.drop_last()[i]);
                    if j < taken->0.len() {
                        assert(pages[j] == taken->0[j]);
                    }
                }
            }
        }
    }
}

/// A request that fails is the last.
pub proof fn lemma_blocks_stop(arena: ArenaView, counts: Seq<nat>, upto: int)
    requires
        0 <= upto <= counts.len(),
        blocks(arena, counts.take(upto)).1 is None,
    ensures
        blocks(arena, counts) == blocks(arena, counts.take(upto)),
    decreases counts.len() - upto,
{
    if upto < counts.len() {
        assert(counts.take(upto + 1).drop_last() =~= counts.take(upto));
        lemma_blocks_stop(arena, counts, upto + 1);
    } else {
        assert(counts.take(upto) =~= counts);
    }
}

/// Two runs of requests are one run.
pub proof fn lemma_blocks_join(arena: ArenaView, one: Seq<nat>, two: Seq<nat>)
    ensures
        blocks(arena, one + two) == match blocks(arena, one) {
            (rest, None) => (rest, None),
            (rest, Some(first)) => match blocks(rest, two) {
                (rest, None) => (rest, None),
                (rest, Some(second)) => (rest, Some(first + second)),
            },
        },
    decreases two.len(),
{
    if two.len() == 0 {
        assert(one + two =~= one);
        if blocks(arena, one).1 is Some {
            assert(blocks(arena, one).1->0 + Seq::<u64>::empty() =~= blocks(arena, one).1->0);
        }
    } else {
        assert((one + two).drop_last() =~= one + two.drop_last());
        lemma_blocks_join(arena, one, two.drop_last());
        if blocks(arena, one).1 is Some {
            let first = blocks(arena, one).1->0;
            let rest = blocks(arena, one).0;
            if blocks(rest, two).1 is Some {
                let second = blocks(rest, two.drop_last()).1->0;
                let page = blocks(rest, two).1->0.last();
                assert((first + second).push(page) =~= first + second.push(page));
            }
        }
    }
}

/// Clearing the low twelve bits is what page alignment tests.
pub proof fn lemma_page_mask(value: u64)
    ensures
        (value & 0xfff == 0) <==> value % 4096 == 0,
{
    assert((value & 0xfff == 0) <==> value % 4096 == 0) by (bit_vector);
}

proof fn lemma_pow2_exponent(value: u64) -> (exponent: u64)
    requires
        is_pow2(value as int),
    ensures
        exponent < 64,
        value == 1u64 << exponent,
        value == pow2(exponent as nat),
        value > 0,
{
    reveal(is_pow2);
    vstd::arithmetic::power2::is_pow2_equiv(value as int);
    let n = choose|n: nat| vstd::arithmetic::power::pow(2, n) == value as int;
    assert(pow2(n) == value);
    vstd::arithmetic::power2::lemma2_to64();
    vstd::arithmetic::power2::lemma2_to64_rest();
    if n >= 64 {
        if n > 64 {
            vstd::arithmetic::power2::lemma_pow2_strictly_increases(64, n);
        }
        assert(false);
    }
    vstd::bits::lemma_u64_shl_is_mul(1, n as u64);
    n as u64
}

proof fn lemma_clear_mask(value: u64, alignment: u64)
    requires
        is_pow2(alignment as int),
    ensures
        value & !((alignment - 1) as u64) == value as int / alignment as int * alignment as int,
{
    let k = lemma_pow2_exponent(alignment);
    let mask: u64 = (alignment - 1) as u64;
    assert(value & !mask == (value >> k) << k) by (bit_vector)
        requires
            k < 64,
            alignment == 1u64 << k,
            mask == alignment - 1,
    ;
    vstd::bits::lemma_u64_shr_is_div(value, k);
    let quotient = value >> k;
    assert(quotient * alignment <= value) by {
        vstd::arithmetic::div_mod::lemma_fundamental_div_mod(value as int, alignment as int);
        vstd::arithmetic::mul::lemma_mul_is_commutative(quotient as int, alignment as int);
    }
    vstd::bits::lemma_u64_shl_is_mul(quotient, k);
}

/// Where adding the mask overflows, the aligned address does too.
proof fn lemma_align_up_overflow(address: u64, alignment: u64)
    requires
        is_pow2(alignment as int),
    ensures
        alignment > 0,
        address + alignment - 1 > u64::MAX ==> align_up(address as nat, alignment as nat) > u64::MAX,
{
    let k = lemma_pow2_exponent(alignment);
    let a = alignment as int;
    if address + alignment - 1 > u64::MAX {
        vstd::arithmetic::power2::lemma_pow2_adds(k as nat, (64 - k) as nat);
        vstd::arithmetic::power2::lemma2_to64_rest();
        let whole = pow2((64 - k) as nat) as int;
        let sum = address + alignment - 1;
        assert(whole * a == 0x1_0000_0000_0000_0000int) by {
            vstd::arithmetic::mul::lemma_mul_is_commutative(whole, a);
        }
        assert(sum / a >= whole) by {
            vstd::arithmetic::div_mod::lemma_div_is_ordered(whole * a, sum, a);
            vstd::arithmetic::div_mod::lemma_div_multiples_vanish(whole, a);
            vstd::arithmetic::mul::lemma_mul_is_commutative(whole, a);
        }
        vstd::arithmetic::mul::lemma_mul_inequality(whole, sum / a, a);
    }
}

/// An arena that has room gives the lowest block of the size and the alignment: no other
/// lies below it. A block at address zero is taken, but not handed out.
pub proof fn law_arena_gives_the_lowest_block(
    arena: ArenaView,
    size: nat,
    alignment: nat,
    start: nat,
)
    requires
        size > 0,
        is_pow2(alignment as int),
        start % alignment == 0,
        arena.next <= start,
        start + size <= arena.end <= u64::MAX,
    ensures
        ({
            let (rest, address) = arena.allocate(size, alignment);
            let block = rest.next - size;
            &&& arena.next <= block <= start
            &&& block % alignment as int == 0
            &&& rest.end == arena.end
            &&& address == if block == 0 {
                None
            } else {
                Some(block as u64)
            }
        }),
{
    reveal(is_pow2);
    let sum = arena.next + alignment - 1;
    let a = alignment as int;
    vstd::arithmetic::div_mod::lemma_fundamental_div_mod(sum, a);
    vstd::arithmetic::mul::lemma_mul_is_commutative(sum / a, a);
    vstd::arithmetic::div_mod::lemma_mod_multiples_basic(sum / a, a);
    vstd::arithmetic::div_mod::lemma_fundamental_div_mod(start as int, a);
    vstd::arithmetic::mul::lemma_mul_is_commutative(start as int / a, a);
    let block = align_up(arena.next, alignment) as int;
    assert(block == sum / a * a);
    if block > start {
        let k = sum / a;
        let m = start as int / a;
        assert(m + 1 <= k) by (nonlinear_arith)
            requires
                k * a > m * a,
                a > 0,
        ;
        assert((m + 1) * a <= k * a) by (nonlinear_arith)
            requires
                m + 1 <= k,
                a > 0,
        ;
        assert((m + 1) * a == m * a + a) by (nonlinear_arith);
    }
}

/// An arena stays as it is, and gives nothing, where nothing is asked for, the alignment is
/// no power of two, or there is no room.
pub proof fn law_arena_refuses(arena: ArenaView, size: nat, alignment: nat)
    requires
        arena.end <= u64::MAX,
        size == 0 || !is_pow2(alignment as int) || forall|start: nat|
            #![trigger start % alignment]
            start % alignment == 0 && arena.next <= start ==> start + size > arena.end,
    ensures
        arena.allocate(size, alignment) == (arena, None::<u64>),
{
    if size > 0 && is_pow2(alignment as int) {
        reveal(is_pow2);
        let sum = arena.next + alignment - 1;
        let a = alignment as int;
        vstd::arithmetic::div_mod::lemma_fundamental_div_mod(sum, a);
        vstd::arithmetic::mul::lemma_mul_is_commutative(sum / a, a);
        vstd::arithmetic::div_mod::lemma_mod_multiples_basic(sum / a, a);
        let block = align_up(arena.next, alignment);
        assert(block % alignment == 0);
    }
}

/// Pages are blocks of 4096 bytes at multiples of 4096.
pub proof fn law_pages_are_blocks(arena: ArenaView, count: nat)
    ensures
        arena.allocate_pages(count) == arena.allocate(4096 * count, 4096),
        is_pow2(4096),
{
    lemma_page_size_is_pow2();
}

/// Memory can be an arena where it is not empty, starts and ends at pages, and ends in the
/// address space; else the first of these that fails decides.
pub proof fn law_arena_is_checked(base: u64, length: u64)
    ensures
        arena_error(base, length) == if length == 0 {
            Some(BootAllocError::Empty)
        } else if base % 4096 != 0 || (base + length) % 4096 != 0 {
            Some(BootAllocError::Misaligned)
        } else if base + length >= 0x1_0000_0000_0000_0000 {
            Some(BootAllocError::Overflow)
        } else {
            None
        },
{
}

/// How many pages there are in blocks of these sizes.
pub open spec fn total(counts: Seq<nat>) -> nat
    decreases counts.len(),
{
    if counts.len() == 0 {
        0
    } else {
        total(counts.drop_last()) + counts.last()
    }
}

/// Blocks taken from an arena that starts at a page follow each other without gaps, and can
/// be had just where all of them fit.
pub proof fn law_blocks_follow_each_other(arena: ArenaView, counts: Seq<nat>)
    requires
        0 < arena.next <= arena.end <= u64::MAX,
        arena.next % 4096 == 0,
        forall|index: int| 0 <= index < counts.len() ==> #[trigger] counts[index] > 0,
    ensures
        ({
            let (rest, pages) = blocks(arena, counts);
            &&& pages is Some <==> arena.next + 4096 * total(counts) <= arena.end
            &&& pages matches Some(pages) ==> {
                &&& pages.len() == counts.len()
                &&& rest.next == arena.next + 4096 * total(counts)
                &&& forall|index: int|
                    0 <= index < pages.len() ==> #[trigger] pages[index] == arena.next + 4096
                        * total(counts.take(index))
            }
        }),
    decreases counts.len(),
{
    lemma_page_size_is_pow2();
    if counts.len() > 0 {
        let fewer = counts.drop_last();
        assert forall|index: int| 0 <= index < fewer.len() implies #[trigger] fewer[index] > 0 by {
            assert(fewer[index] == counts[index]);
        }
        assert(counts[counts.len() - 1] > 0);
        law_blocks_follow_each_other(arena, fewer);
        lemma_blocks(arena, fewer);
        let (middle, taken) = blocks(arena, fewer);
        if taken is Some {
            let next = middle.next as int;
            assert(next % 4096 == 0);
            assert(align_up(middle.next, 4096) == middle.next);
            let (rest, pages) = blocks(arena, counts);
            if pages is Some {
                let pages = pages->0;
                assert forall|index: int| 0 <= index < pages.len() implies #[trigger] pages[index]
                    == arena.next + 4096 * total(counts.take(index)) by {
                    if index < fewer.len() {
                        assert(pages[index] == taken->0[index]);
                        assert(fewer.take(index) =~= counts.take(index));
                    } else {
                        assert(counts.take(index) =~= fewer);
                    }
                }
            }
        }
    }
}

} // verus!
