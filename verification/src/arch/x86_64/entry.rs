//! Page-table entries, and how the processor walks them.

use vstd::prelude::*;

verus! {

/// Entries in one table.
pub const ENTRY_COUNT: usize = 512;

/// The bits of an entry that hold a physical address.
pub const ADDRESS_MASK: u64 = 0x000f_ffff_ffff_f000;

pub const PRESENT: u64 = 0x1;

pub const WRITABLE: u64 = 0x2;

/// The entry maps a large page instead of naming a table.
pub const HUGE: u64 = 0x80;

pub const NO_EXECUTE: u64 = 0x8000_0000_0000_0000;

/// Physical addresses are below this.
pub const PHYSICAL_LIMIT: u64 = 0x10_0000_0000_0000;

/// The number of the 4 KiB page that a virtual address lies in. Only the low 48
/// bits of the address count.
pub open spec fn page_number(address: u64) -> int {
    (address as int / 4096) % 0x10_0000_0000
}

/// The flags of an entry that maps memory.
pub open spec fn leaf_flags(nx_enabled: bool, executable: bool) -> u64 {
    PRESENT | WRITABLE | (if nx_enabled && !executable {
        NO_EXECUTE
    } else {
        0
    })
}

/// The entry of the `index`th 4 KiB page of the large page that `huge` maps.
pub open spec fn split_entry(huge: u64, index: int) -> u64 {
    ((huge & ADDRESS_MASK) + index * 4096) as u64 | (huge & !ADDRESS_MASK & !HUGE)
}

/// Where an address leads, and what may be done there.
pub ghost struct Translation {
    pub physical: int,
    pub writable: bool,
    pub no_execute: bool,
}

/// Word `index` of the table at `table`.
pub open spec fn word(memory: Map<int, u64>, table: u64, index: int) -> u64 {
    memory[table + 8 * index]
}

/// What the entry at the end of a walk gives, for a page of `size` bytes.
pub open spec fn translation(
    entry: u64,
    size: int,
    address: u64,
    writable: bool,
    no_execute: bool,
) -> Translation {
    Translation {
        physical: (entry & ADDRESS_MASK) as int / size * size + address as int % size,
        writable: writable && entry & WRITABLE != 0,
        no_execute: no_execute || entry & NO_EXECUTE != 0,
    }
}

/// The processor's walk through four levels of tables: where `address` leads
/// when `root` is the top table, or `None` where the walk meets an entry that
/// is not present.
pub open spec fn walk(memory: Map<int, u64>, root: u64, address: u64) -> Option<Translation> {
    let page = page_number(address);
    let e4 = word(memory, root, page / 0x800_0000);
    if e4 & PRESENT == 0 {
        None
    } else {
        let w4 = e4 & WRITABLE != 0;
        let x4 = e4 & NO_EXECUTE != 0;
        let e3 = word(memory, e4 & ADDRESS_MASK, page / 0x4_0000 % 512);
        if e3 & PRESENT == 0 {
            None
        } else if e3 & HUGE != 0 {
            Some(translation(e3, 0x4000_0000, address, w4, x4))
        } else {
            let w3 = w4 && e3 & WRITABLE != 0;
            let x3 = x4 || e3 & NO_EXECUTE != 0;
            let e2 = word(memory, e3 & ADDRESS_MASK, page / 512 % 512);
            if e2 & PRESENT == 0 {
                None
            } else if e2 & HUGE != 0 {
                Some(translation(e2, 0x20_0000, address, w3, x3))
            } else {
                let w2 = w3 && e2 & WRITABLE != 0;
                let x2 = x3 || e2 & NO_EXECUTE != 0;
                let e1 = word(memory, e2 & ADDRESS_MASK, page % 512);
                if e1 & PRESENT == 0 {
                    None
                } else {
                    Some(translation(e1, 4096, address, w2, x2))
                }
            }
        }
    }
}

/// The bits of an entry that names the table at `table`.
pub proof fn lemma_table_entry(table: u64)
    requires
        table % 4096 == 0,
        table < PHYSICAL_LIMIT,
    ensures
        ({
            let entry = table | PRESENT | WRITABLE;
            &&& entry & PRESENT != 0
            &&& entry & WRITABLE != 0
            &&& entry & HUGE == 0
            &&& entry & NO_EXECUTE == 0
            &&& entry & ADDRESS_MASK == table
        }),
{
    let entry = table | 0x1 | 0x2;
    assert(entry & 0x1 != 0 && entry & 0x2 != 0 && entry & 0x80 == 0 && entry
        & 0x8000_0000_0000_0000 == 0 && entry & 0x000f_ffff_ffff_f000 == table) by (bit_vector)
        requires
            entry == table | 0x1 | 0x2,
            table % 4096 == 0,
            table < 0x10_0000_0000_0000,
    ;
}

/// An entry with leaf flags is present and writable, whatever the address.
pub proof fn lemma_leaf_is_present(address: u64, nx_enabled: bool, executable: bool)
    ensures
        (address | leaf_flags(nx_enabled, executable)) & PRESENT != 0,
        (address | leaf_flags(nx_enabled, executable)) & WRITABLE != 0,
{
    let nx: u64 = if nx_enabled && !executable {
        NO_EXECUTE
    } else {
        0
    };
    let flags = 0x1u64 | 0x2 | nx;
    assert((address | flags) & 0x1 != 0 && (address | flags) & 0x2 != 0) by (bit_vector)
        requires
            flags == 0x1u64 | 0x2 | nx,
    ;
}

/// The bits of an entry that maps the page at `address`.
pub proof fn lemma_leaf_entry(address: u64, nx_enabled: bool, executable: bool)
    requires
        address % 4096 == 0,
        address < PHYSICAL_LIMIT,
    ensures
        ({
            let entry = address | leaf_flags(nx_enabled, executable);
            &&& entry & ADDRESS_MASK == address
            &&& (entry & NO_EXECUTE != 0) == (nx_enabled && !executable)
        }),
{
    let nx: u64 = if nx_enabled && !executable {
        NO_EXECUTE
    } else {
        0
    };
    let flags = 0x1u64 | 0x2 | nx;
    let entry = address | flags;
    assert(entry & 0x000f_ffff_ffff_f000 == address && entry & 0x8000_0000_0000_0000 == nx)
        by (bit_vector)
        requires
            nx == 0 || nx == 0x8000_0000_0000_0000,
            flags == 0x1u64 | 0x2 | nx,
            entry == address | flags,
            address % 4096 == 0,
            address < 0x10_0000_0000_0000,
    ;
}

/// The bits of an entry that maps the large page at `address`.
pub proof fn lemma_huge_entry(address: u64, nx_enabled: bool, executable: bool)
    requires
        address % 0x20_0000 == 0,
        address < PHYSICAL_LIMIT,
    ensures
        ({
            let flags = leaf_flags(nx_enabled, executable);
            let entry = address | flags | HUGE;
            &&& entry & PRESENT != 0
            &&& entry & HUGE != 0
            &&& entry & ADDRESS_MASK == address
            &&& entry & !ADDRESS_MASK & !HUGE == flags
            &&& entry & WRITABLE != 0
            &&& (entry & NO_EXECUTE != 0) == (nx_enabled && !executable)
        }),
{
    let nx: u64 = if nx_enabled && !executable {
        NO_EXECUTE
    } else {
        0
    };
    let flags = 0x1u64 | 0x2 | nx;
    let entry = address | flags | 0x80;
    assert(entry & 0x1 != 0 && entry & 0x2 != 0 && entry & 0x80 != 0 && entry
        & 0x000f_ffff_ffff_f000 == address && entry & !0x000f_ffff_ffff_f000u64 & !0x80u64 == flags
        && entry & 0x8000_0000_0000_0000 == nx) by (bit_vector)
        requires
            nx == 0 || nx == 0x8000_0000_0000_0000,
            flags == 0x1u64 | 0x2 | nx,
            entry == address | flags | 0x80,
            address % 0x20_0000 == 0,
            address < 0x10_0000_0000_0000,
    ;
}

/// An entry of zeros is not present.
pub proof fn lemma_zero_entry()
    ensures
        0u64 & PRESENT == 0,
        0u64 & HUGE == 0,
{
    assert(0u64 & 0x1 == 0 && 0u64 & 0x80 == 0) by (bit_vector);
}

/// The four indices of a walk, taken from the bits of the address.
pub proof fn lemma_indices(address: u64)
    ensures
        (address >> 39) & 0x1ff == page_number(address) / 0x800_0000,
        (address >> 30) & 0x1ff == page_number(address) / 0x4_0000 % 512,
        (address >> 21) & 0x1ff == page_number(address) / 512 % 512,
        (address >> 12) & 0x1ff == page_number(address) % 512,
{
    let page: u64 = (address / 4096) % 0x10_0000_0000;
    assert((address >> 39) & 0x1ff == page / 0x800_0000 && (address >> 30) & 0x1ff == page
        / 0x4_0000 % 512 && (address >> 21) & 0x1ff == page / 512 % 512 && (address >> 12) & 0x1ff
        == page % 512) by (bit_vector)
        requires
            page == (address / 4096) % 0x10_0000_0000,
    ;
}

} // verus!
