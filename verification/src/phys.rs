//! A window of physical memory, held as 64-bit words.

use vstd::prelude::*;

verus! {

/// The words of the physical addresses from `base` on.
pub struct PhysMemory {
    base: u64,
    words: Vec<u64>,
}

/// Every word between the addresses `low` and `high` is present in `memory`.
pub open spec fn covers(memory: Map<int, u64>, low: int, high: int) -> bool {
    forall|address: int|
        low <= address < high && address % 8 == 0 ==> #[trigger] memory.contains_key(address)
}

/// `after` has the words of `before`, and differs from it at most between the
/// addresses `low` and `high`.
pub open spec fn same_outside(
    before: Map<int, u64>,
    after: Map<int, u64>,
    low: int,
    high: int,
) -> bool {
    &&& after.dom() == before.dom()
    &&& forall|address: int|
        before.contains_key(address) && !(low <= address < high) ==> #[trigger] after[address]
            == before[address]
}

/// The words that `words` puts at the addresses from `base` on.
pub open spec fn words_at(base: int, words: Seq<u64>) -> Map<int, u64> {
    Map::new(
        |address: int| base <= address < base + 8 * words.len() && (address - base) % 8 == 0,
        |address: int| words[(address - base) / 8],
    )
}

/// The byte at `address`, in the processor's (little-endian) order.
pub open spec fn byte_at(memory: Map<int, u64>, address: int) -> u8 {
    (memory[address - address % 8] >> ((8 * (address % 8)) as u64)) as u8
}

impl View for PhysMemory {
    type V = Map<int, u64>;

    /// The word at each word address of the window.
    closed spec fn view(&self) -> Map<int, u64> {
        words_at(self.base as int, self.words@)
    }
}

impl PhysMemory {
    /// The window starts at a page and does not wrap round.
    pub closed spec fn wf(&self) -> bool {
        &&& self.base % 4096 == 0
        &&& self.base + 8 * self.words@.len() <= u64::MAX
    }

    /// A window over `words`, the first of which stands at `base`. `None` if
    /// the window does not start at a page or runs past the address space.
    pub fn new(base: u64, words: Vec<u64>) -> (window: Option<PhysMemory>)
        ensures
            window is Some <==> base % 4096 == 0 && base + 8 * words@.len() <= u64::MAX,
            window matches Some(memory) ==> memory.wf() && memory@ == words_at(
                base as int,
                words@,
            ),
    {
        if base % 4096 != 0 || words.len() as u128 * 8 + base as u128 > u64::MAX as u128 {
            return None;
        }
        Some(PhysMemory { base, words })
    }

    /// The first address of the window, and its words in order.
    pub fn into_parts(self) -> (parts: (u64, Vec<u64>))
        requires
            self.wf(),
        ensures
            self@ == words_at(parts.0 as int, parts.1@),
            parts.0 % 4096 == 0,
    {
        (self.base, self.words)
    }

    fn position(&self, address: u64) -> (index: usize)
        requires
            self.wf(),
            self@.contains_key(address as int),
        ensures
            index < self.words@.len(),
            address == self.base + 8 * index,
    {
        assert(self.words.len() <= usize::MAX);
        ((address - self.base) / 8) as usize
    }

    /// The word at `address`.
    pub fn read(&self, address: u64) -> (value: u64)
        requires
            self.wf(),
            self@.contains_key(address as int),
        ensures
            value == self@[address as int],
    {
        let index: usize = self.position(address);
        self.words[index]
    }

    /// Replaces the word at `address`.
    pub fn write(&mut self, address: u64, value: u64)
        requires
            old(self).wf(),
            old(self)@.contains_key(address as int),
        ensures
            final(self).wf(),
            final(self)@ == old(self)@.insert(address as int, value),
    {
        let index: usize = self.position(address);
        let ghost before = self@;
        self.words[index] = value;
        assert(self@ =~= before.insert(address as int, value));
    }

    /// Fills the page at `page` with zeros.
    pub fn zero_page(&mut self, page: u64)
        requires
            old(self).wf(),
            page % 8 == 0,
            page + 4096 <= u64::MAX,
            covers(old(self)@, page as int, page + 4096),
        ensures
            final(self).wf(),
            same_outside(old(self)@, final(self)@, page as int, page + 4096),
            forall|offset: int|
                0 <= offset < 512 ==> #[trigger] final(self)@[page + 8 * offset] == 0,
    {
        let ghost before = self@;
        let mut offset: u64 = 0;
        while offset < 512
            invariant
                offset <= 512,
                self.wf(),
                page % 8 == 0,
                page + 4096 <= u64::MAX,
                covers(before, page as int, page + 4096),
                same_outside(before, self@, page as int, page + 4096),
                forall|done: int| 0 <= done < offset ==> #[trigger] self@[page + 8 * done] == 0,
            decreases 512 - offset,
        {
            assert(before.contains_key(page + 8 * offset));
            assert(self@.dom().contains(page + 8 * offset));
            self.write(page + 8 * offset, 0);
            assert(self@.dom() =~= before.dom());
            offset = offset + 1;
        }
    }
}

/// Words stand one behind the other, eight bytes apart, and nothing else is there.
pub proof fn law_words_stand_in_order(base: int, words: Seq<u64>, index: int, address: int)
    requires
        0 <= index < words.len(),
    ensures
        words_at(base, words).contains_key(base + 8 * index),
        words_at(base, words)[base + 8 * index] == words[index],
        words_at(base, words).contains_key(address) <==> (address - base) % 8 == 0 && 0 <= address
            - base < 8 * words.len(),
{
    assert((base + 8 * index - base) / 8 == index);
}

} // verus!
