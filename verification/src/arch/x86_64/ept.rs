//! What the guest can reach: the processor's walk through the extended page
//! tables, and what it finds in the memory of a virtual machine.

use crate::arch::x86_64::entry::{
    lemma_table_entry, lemma_zero_entry, page_number, walk, word, Translation, ADDRESS_MASK, HUGE,
    NO_EXECUTE, PHYSICAL_LIMIT, PRESENT, WRITABLE,
};
use crate::arch::x86_64::vm::{
    block_sizes, ept_index, ept_leaf, named, resources, with_ept, with_guest, VmPages, EPT_EXECUTE, EPT_READ,
    EPT_WRITE, EPT_WRITE_BACK, GUEST_CODE_GPA, GUEST_CODE_LAST, GUEST_CODE_WORD, GUEST_PDPT_GPA,
    GUEST_PD_GPA, GUEST_PML4_GPA,
};
use crate::boot_alloc::{
    blocks, is_block, law_blocks_follow_each_other, lemma_blocks, total, ArenaView,
};
use crate::phys::{byte_at, covers, same_outside};
use vstd::prelude::*;

verus! {

/// The bits of an entry that say what may be done. An entry without any of
/// them is not present.
pub const EPT_RIGHTS: u64 = 0x7;

/// Where a guest-physical address leads, and what may be done there.
pub ghost struct EptTranslation {
    pub host: int,
    pub rights: u64,
}

/// What the entry at the end of a walk gives, for a page of `size` bytes.
pub open spec fn ept_translation(
    entry: u64,
    size: int,
    guest: u64,
    rights: u64,
) -> EptTranslation {
    EptTranslation {
        host: (entry & ADDRESS_MASK) as int / size * size + guest as int % size,
        rights: rights & entry & EPT_RIGHTS,
    }
}

/// The processor's walk through four levels of extended page tables: where the
/// guest-physical address `guest` leads when `root` is the top table, or `None`
/// where the walk meets an entry that is not present.
pub open spec fn ept_walk(memory: Map<int, u64>, root: u64, guest: u64) -> Option<EptTranslation> {
    let page = page_number(guest);
    let e4 = word(memory, root, page / 0x800_0000);
    let e3 = word(memory, e4 & ADDRESS_MASK, page / 0x4_0000 % 512);
    let e2 = word(memory, e3 & ADDRESS_MASK, page / 512 % 512);
    let e1 = word(memory, e2 & ADDRESS_MASK, page % 512);
    if e4 & EPT_RIGHTS == 0 || e3 & EPT_RIGHTS == 0 {
        None
    } else if e3 & HUGE != 0 {
        Some(ept_translation(e3, 0x4000_0000, guest, e4))
    } else if e2 & EPT_RIGHTS == 0 {
        None
    } else if e2 & HUGE != 0 {
        Some(ept_translation(e2, 0x20_0000, guest, e4 & e3))
    } else if e1 & EPT_RIGHTS == 0 {
        None
    } else {
        Some(ept_translation(e1, 4096, guest, e4 & e3 & e2))
    }
}

/// The page that stands behind the guest's page number `page`, and what the
/// guest may do there.
pub open spec fn guest_page(pages: VmPages, page: int) -> Option<(u64, u64)> {
    if page == 1 {
        Some((pages.guest_pml4, EPT_READ | EPT_WRITE))
    } else if page == 2 {
        Some((pages.guest_pdpt, EPT_READ | EPT_WRITE))
    } else if page == 3 {
        Some((pages.guest_pd, EPT_READ | EPT_WRITE))
    } else if page == 4 {
        Some((pages.guest_code, EPT_READ | EPT_EXECUTE))
    } else if page == 5 {
        Some((pages.guest_stack, EPT_READ | EPT_WRITE))
    } else {
        None
    }
}

/// The memory of a virtual machine whose blocks are `pages`, made from memory
/// that held `before`.
pub open spec fn vm_memory(before: Map<int, u64>, pages: VmPages) -> Map<int, u64> {
    with_ept(with_guest(before, pages), pages)
}

/// The arena lies in physical memory that is all zeros, and the virtual
/// machine's blocks `pages` come from it.
pub open spec fn is_vm(arena: ArenaView, before: Map<int, u64>, pages: Seq<u64>) -> bool {
    &&& arena.next <= arena.end <= PHYSICAL_LIMIT
    &&& forall|address: int|
        arena.next <= address < arena.end && address % 8 == 0 ==> #[trigger] before[address] == 0
    &&& blocks(arena, block_sizes()).1 == Some(pages)
}

/// The blocks of a virtual machine follow one another.
pub open spec fn in_order(pages: VmPages) -> bool {
    &&& 0 < pages.vmcs
    &&& pages.vmcs + 4096 <= pages.vmexit_stack
    &&& pages.vmexit_stack + 17 * 4096 <= pages.guest_pml4
    &&& pages.guest_pml4 + 4096 <= pages.guest_pdpt
    &&& pages.guest_pdpt + 4096 <= pages.guest_pd
    &&& pages.guest_pd + 4096 <= pages.guest_code
    &&& pages.guest_code + 4096 <= pages.guest_stack
    &&& pages.guest_stack + 4096 <= pages.ept_pml4
    &&& pages.ept_pml4 + 4096 <= pages.ept_pdpt
    &&& pages.ept_pdpt + 4096 <= pages.ept_pd
    &&& pages.ept_pd + 4096 <= pages.ept_pt
    &&& pages.ept_pt + 4096 <= PHYSICAL_LIMIT
}

/// The blocks stand in order, and in zeros.
proof fn lemma_vm_pages(arena: ArenaView, before: Map<int, u64>, pages: Seq<u64>)
    requires
        is_vm(arena, before, pages),
    ensures
        pages.len() == 11,
        forall|i: int|
            0 <= i < 11 ==> (#[trigger] pages[i]) % 4096 == 0 && pages[i] + 4096 <= PHYSICAL_LIMIT,
        in_order(named(pages)),
        forall|i: int, index: int|
            0 <= i < 11 && 0 <= index < 512 ==> #[trigger] word(before, pages[i], index) == 0,
{
    lemma_blocks(arena, block_sizes());
    assert forall|i: int, index: int| 0 <= i < 11 && 0 <= index < 512 implies #[trigger] word(
        before,
        pages[i],
        index,
    ) == 0 by {
        assert(pages[i] % 4096 == 0);
        assert(before[pages[i] + 8 * index] == 0);
    }
}

/// The bits of an entry of the extended page tables.
proof fn lemma_ept_entry(page: u64, flags: u64)
    requires
        page % 4096 == 0,
        page < PHYSICAL_LIMIT,
        flags < 0x80,
    ensures
        (page | flags) & ADDRESS_MASK == page,
        (page | flags) & EPT_RIGHTS == flags & EPT_RIGHTS,
        (page | flags) & HUGE == 0,
{
    assert((page | flags) & 0x000f_ffff_ffff_f000 == page && (page | flags) & 0x7 == flags & 0x7
        && (page | flags) & 0x80 == 0) by (bit_vector)
        requires
            page % 4096 == 0,
            page < 0x10_0000_0000_0000,
            flags < 0x80,
    ;
}

/// The bits of the entries that the extended page tables are made of.
proof fn lemma_ept_entries(page: u64)
    requires
        page % 4096 == 0,
        page < PHYSICAL_LIMIT,
    ensures
        ({
            let table = page | (EPT_READ | EPT_WRITE | EPT_EXECUTE);
            let data = page | (EPT_READ | EPT_WRITE) | EPT_WRITE_BACK;
            let code = page | (EPT_READ | EPT_EXECUTE) | EPT_WRITE_BACK;
            &&& table & ADDRESS_MASK == page && table & EPT_RIGHTS == 7 && table & HUGE == 0
            &&& data & ADDRESS_MASK == page && data & EPT_RIGHTS == EPT_READ | EPT_WRITE
            &&& code & ADDRESS_MASK == page && code & EPT_RIGHTS == EPT_READ | EPT_EXECUTE
            &&& data & EPT_RIGHTS != 0 && code & EPT_RIGHTS != 0
        }),
{
    lemma_ept_entry(page, 0x7);
    lemma_ept_entry(page, 0x33);
    lemma_ept_entry(page, 0x35);
    assert(page | (0x1u64 | 0x2 | 0x4) == page | 0x7 && page | (0x1u64 | 0x2) | 0x30 == page | 0x33
        && page | (0x1u64 | 0x4) | 0x30 == page | 0x35 && 0x7u64 & 0x7 == 7 && 0x33u64 & 0x7
        == 0x1u64 | 0x2 && 0x35u64 & 0x7 == 0x1u64 | 0x4 && 0x33u64 & 0x7 != 0 && 0x35u64 & 0x7 != 0)
        by (bit_vector);
}

/// What the rights of the guest's pages are made of.
proof fn lemma_rights()
    ensures
        0u64 & EPT_RIGHTS == 0,
        (EPT_READ | EPT_WRITE) & EPT_EXECUTE == 0,
        (EPT_READ | EPT_EXECUTE) & EPT_WRITE == 0,
        (EPT_READ | EPT_WRITE) & EPT_READ != 0,
        (EPT_READ | EPT_EXECUTE) & EPT_READ != 0,
        EPT_READ | EPT_WRITE == 0x3,
        EPT_READ | EPT_EXECUTE == 0x5,
{
    assert(0u64 & 0x7 == 0 && (0x1u64 | 0x2) & 0x4 == 0 && (0x1u64 | 0x4) & 0x2 == 0 && (0x1u64
        | 0x2) & 0x1 != 0 && (0x1u64 | 0x4) & 0x1 != 0 && 0x1u64 | 0x2 == 0x3 && 0x1u64 | 0x4
        == 0x5) by (bit_vector);
}

/// The words of the extended page tables.
proof fn lemma_ept_words(arena: ArenaView, before: Map<int, u64>, pages: Seq<u64>, index: int)
    requires
        is_vm(arena, before, pages),
        0 <= index < 512,
    ensures
        ({
            let vm = named(pages);
            let memory = vm_memory(before, vm);
            let nonleaf = EPT_READ | EPT_WRITE | EPT_EXECUTE;
            &&& word(memory, vm.ept_pml4, index) == if index == 0 {
                vm.ept_pdpt | nonleaf
            } else {
                0
            }
            &&& word(memory, vm.ept_pdpt, index) == if index == 0 {
                vm.ept_pd | nonleaf
            } else {
                0
            }
            &&& word(memory, vm.ept_pd, index) == if index == 0 {
                vm.ept_pt | nonleaf
            } else {
                0
            }
            &&& word(memory, vm.ept_pt, index) == match guest_page(vm, index) {
                Some((page, rights)) => ept_leaf(page, rights),
                None => 0,
            }
        }),
{
    lemma_vm_pages(arena, before, pages);
    assert forall|i: int| 7 <= i < 11 implies word(
        with_guest(before, named(pages)),
        #[trigger] pages[i],
        index,
    ) == 0 by {
        assert(word(before, pages[i], index) == 0);
    }
    assert(word(with_guest(before, named(pages)), pages[7], index) == 0);
    assert(word(with_guest(before, named(pages)), pages[8], index) == 0);
    assert(word(with_guest(before, named(pages)), pages[9], index) == 0);
    assert(word(with_guest(before, named(pages)), pages[10], index) == 0);
}

/// The words of the guest's pages.
proof fn lemma_guest_words(arena: ArenaView, before: Map<int, u64>, pages: Seq<u64>, index: int)
    requires
        is_vm(arena, before, pages),
        0 <= index < 512,
    ensures
        ({
            let vm = named(pages);
            let memory = vm_memory(before, vm);
            &&& word(memory, vm.guest_pml4, index) == if index == 0 {
                GUEST_PDPT_GPA | 0x3
            } else {
                0
            }
            &&& word(memory, vm.guest_pdpt, index) == if index == 0 {
                GUEST_PD_GPA | 0x3
            } else {
                0
            }
            &&& word(memory, vm.guest_pd, index) == if index == 0 {
                0x83u64
            } else {
                0
            }
            &&& word(memory, vm.guest_code, index) == if index == 0 {
                GUEST_CODE_WORD
            } else if index == 1 {
                (0u64 & !0xffu64) | GUEST_CODE_LAST
            } else {
                0
            }
            &&& word(memory, vm.guest_stack, index) == 0
        }),
{
    lemma_vm_pages(arena, before, pages);
    let guest = with_guest(before, named(pages));
    assert forall|i: int| 2 <= i < 7 implies word(
        vm_memory(before, named(pages)),
        #[trigger] pages[i],
        index,
    ) == word(guest, pages[i], index) by {
    }
    assert(word(before, pages[2], index) == 0);
    assert(word(before, pages[3], index) == 0);
    assert(word(before, pages[4], index) == 0);
    assert(word(before, pages[5], index) == 0);
    assert(word(before, pages[5], 1) == 0);
    assert(word(before, pages[6], index) == 0);
}

/// The extended page tables map the five pages of the guest, with the rights
/// that each needs, and nothing else.
pub proof fn law_guest_reaches_its_pages_only(
    arena: ArenaView,
    before: Map<int, u64>,
    pages: Seq<u64>,
    guest: u64,
)
    requires
        is_vm(arena, before, pages),
    ensures
        ({
            let vm = named(pages);
            ept_walk(vm_memory(before, vm), vm.ept_pml4, guest) == match guest_page(
                vm,
                page_number(guest),
            ) {
                Some((page, rights)) => Some(
                    EptTranslation { host: page + guest as int % 4096, rights },
                ),
                None => None,
            }
        }),
{
    let vm = named(pages);
    let memory = vm_memory(before, vm);
    let page = page_number(guest);
    lemma_vm_pages(arena, before, pages);
    lemma_ept_words(arena, before, pages, page / 0x800_0000);
    lemma_ept_words(arena, before, pages, page / 0x4_0000 % 512);
    lemma_ept_words(arena, before, pages, page / 512 % 512);
    lemma_ept_words(arena, before, pages, page % 512);
    lemma_rights();
    let e4 = word(memory, vm.ept_pml4, page / 0x800_0000);
    if page / 0x800_0000 == 0 {
        assert(vm.ept_pdpt == pages[8] && vm.ept_pd == pages[9] && vm.ept_pt == pages[10]);
        lemma_ept_entries(vm.ept_pdpt);
        let e3 = word(memory, vm.ept_pdpt, page / 0x4_0000 % 512);
        if page / 0x4_0000 % 512 == 0 {
            lemma_ept_entries(vm.ept_pd);
            let e2 = word(memory, vm.ept_pd, page / 512 % 512);
            if page / 512 % 512 == 0 {
                lemma_ept_entries(vm.ept_pt);
                assert(page % 512 == page);
                let e1 = word(memory, vm.ept_pt, page);
                if let Some((host, _)) = guest_page(vm, page) {
                    assert(host == pages[2] || host == pages[3] || host == pages[4] || host
                        == pages[5] || host == pages[6]);
                    lemma_ept_entries(host);
                    assert(e4 & e3 & e2 & e1 & 0x7 == e1 & 0x7) by (bit_vector)
                        requires
                            e4 & 0x7 == 7,
                            e3 & 0x7 == 7,
                            e2 & 0x7 == 7,
                    ;
                }
            }
        }
    }
}

/// No page can be both written and executed by the guest.
pub proof fn law_guest_cannot_write_what_it_executes(
    arena: ArenaView,
    before: Map<int, u64>,
    pages: Seq<u64>,
    guest: u64,
)
    requires
        is_vm(arena, before, pages),
    ensures
        ({
            let vm = named(pages);
            ept_walk(vm_memory(before, vm), vm.ept_pml4, guest) matches Some(translation)
                ==> translation.rights & EPT_WRITE == 0 || translation.rights & EPT_EXECUTE == 0
        }),
{
    law_guest_reaches_its_pages_only(arena, before, pages, guest);
    lemma_rights();
}

/// The guest reaches neither its control structure, nor the host's exit stack
/// and its guard, nor the tables that confine it, nor anything outside the
/// arena that it was made from.
pub proof fn law_guest_is_confined(
    arena: ArenaView,
    before: Map<int, u64>,
    pages: Seq<u64>,
    guest: u64,
)
    requires
        is_vm(arena, before, pages),
    ensures
        ({
            let vm = named(pages);
            ept_walk(vm_memory(before, vm), vm.ept_pml4, guest) matches Some(translation) ==> {
                &&& arena.next <= translation.host < blocks(arena, block_sizes()).0.next
                &&& !(vm.vmcs <= translation.host < vm.vmcs + 4096)
                &&& !(vm.vmexit_stack <= translation.host < vm.vmexit_stack + 17 * 4096)
                &&& !(vm.ept_pml4 <= translation.host < vm.ept_pml4 + 4096)
                &&& !(vm.ept_pdpt <= translation.host < vm.ept_pdpt + 4096)
                &&& !(vm.ept_pd <= translation.host < vm.ept_pd + 4096)
                &&& !(vm.ept_pt <= translation.host < vm.ept_pt + 4096)
            }
        }),
{
    law_guest_reaches_its_pages_only(arena, before, pages, guest);
    lemma_vm_pages(arena, before, pages);
    lemma_blocks(arena, block_sizes());
    assert(arena.next <= pages[0]);
    assert(pages[10] < blocks(arena, block_sizes()).0.next);
}

/// Memory as the guest sees it: the word that stands behind each guest-physical
/// address that it may read.
pub open spec fn guest_memory(memory: Map<int, u64>, root: u64) -> Map<int, u64> {
    Map::new(
        |address: int|
            0 <= address <= u64::MAX && (ept_walk(memory, root, address as u64) matches Some(
                translation,
            ) && translation.rights & EPT_READ != 0),
        |address: int| memory[ept_walk(memory, root, address as u64)->0.host],
    )
}

/// What the guest sees in word `index` of its page number `page`.
proof fn lemma_guest_memory(
    arena: ArenaView,
    before: Map<int, u64>,
    pages: Seq<u64>,
    page: int,
    index: int,
)
    requires
        is_vm(arena, before, pages),
        1 <= page <= 5,
        0 <= index < 512,
    ensures
        ({
            let vm = named(pages);
            let memory = vm_memory(before, vm);
            word(guest_memory(memory, vm.ept_pml4), (page * 4096) as u64, index) == word(
                memory,
                (guest_page(vm, page)->0).0,
                index,
            )
        }),
{
    let vm = named(pages);
    let address = (page * 4096 + 8 * index) as u64;
    assert(page_number(address) == page);
    assert(address as int % 4096 == 8 * index);
    law_guest_reaches_its_pages_only(arena, before, pages, address);
    lemma_rights();
    assert(guest_memory(vm_memory(before, vm), vm.ept_pml4).contains_key(address as int));
}

/// Word `index` of a table that holds `entry` at its start and is empty
/// otherwise.
spec fn only_entry(entry: u64, index: int) -> u64 {
    if index == 0 {
        entry
    } else {
        0
    }
}

/// The walk through the guest's tables.
proof fn lemma_guest_walk(seen: Map<int, u64>, linear: u64)
    requires
        forall|index: int|
            0 <= index < 512 ==> #[trigger] word(seen, GUEST_PML4_GPA, index) == only_entry(
                GUEST_PDPT_GPA | 0x3,
                index,
            ),
        forall|index: int|
            0 <= index < 512 ==> #[trigger] word(seen, GUEST_PDPT_GPA, index) == only_entry(
                GUEST_PD_GPA | 0x3,
                index,
            ),
        forall|index: int|
            0 <= index < 512 ==> #[trigger] word(seen, GUEST_PD_GPA, index) == only_entry(
                0x83,
                index,
            ),
    ensures
        walk(seen, GUEST_PML4_GPA, linear) == if page_number(linear) < 512 {
            Some(
                Translation {
                    physical: linear as int % 0x20_0000,
                    writable: true,
                    no_execute: false,
                },
            )
        } else {
            None
        },
{
    lemma_zero_entry();
    lemma_guest_entries();
}

/// With the guest's own tables, each linear address below 2 MiB leads to the
/// guest-physical address of the same number, and no other leads anywhere.
pub proof fn law_guest_tables_are_an_identity(
    arena: ArenaView,
    before: Map<int, u64>,
    pages: Seq<u64>,
    linear: u64,
)
    requires
        is_vm(arena, before, pages),
    ensures
        ({
            let vm = named(pages);
            let seen = guest_memory(vm_memory(before, vm), vm.ept_pml4);
            walk(seen, GUEST_PML4_GPA, linear) == if page_number(linear) < 512 {
                Some(
                    Translation {
                        physical: linear as int % 0x20_0000,
                        writable: true,
                        no_execute: false,
                    },
                )
            } else {
                None
            }
        }),
{
    let vm = named(pages);
    let seen = guest_memory(vm_memory(before, vm), vm.ept_pml4);
    assert forall|index: int| 0 <= index < 512 implies #[trigger] word(
        seen,
        GUEST_PML4_GPA,
        index,
    ) == only_entry(GUEST_PDPT_GPA | 0x3, index) by {
        lemma_guest_memory(arena, before, pages, 1, index);
        lemma_guest_words(arena, before, pages, index);
    }
    assert forall|index: int| 0 <= index < 512 implies #[trigger] word(
        seen,
        GUEST_PDPT_GPA,
        index,
    ) == only_entry(GUEST_PD_GPA | 0x3, index) by {
        lemma_guest_memory(arena, before, pages, 2, index);
        lemma_guest_words(arena, before, pages, index);
    }
    assert forall|index: int| 0 <= index < 512 implies #[trigger] word(seen, GUEST_PD_GPA, index)
        == only_entry(0x83, index) by {
        lemma_guest_memory(arena, before, pages, 3, index);
        lemma_guest_words(arena, before, pages, index);
    }
    lemma_guest_walk(seen, linear);
}

/// The bits of the entries that the guest's tables are made of.
proof fn lemma_guest_entries()
    ensures
        ({
            let pdpt = GUEST_PDPT_GPA | 0x3;
            let pd = GUEST_PD_GPA | 0x3;
            &&& pdpt & ADDRESS_MASK == GUEST_PDPT_GPA && pdpt & PRESENT != 0
            &&& pdpt & WRITABLE != 0 && pdpt & HUGE == 0 && pdpt & NO_EXECUTE == 0
            &&& pd & ADDRESS_MASK == GUEST_PD_GPA && pd & PRESENT != 0
            &&& pd & WRITABLE != 0 && pd & HUGE == 0 && pd & NO_EXECUTE == 0
            &&& 0x83u64 & ADDRESS_MASK == 0 && 0x83u64 & PRESENT != 0
            &&& 0x83u64 & WRITABLE != 0 && 0x83u64 & HUGE != 0 && 0x83u64 & NO_EXECUTE == 0
        }),
{
    lemma_table_entry(GUEST_PDPT_GPA);
    lemma_table_entry(GUEST_PD_GPA);
    assert(0x2000u64 | 0x3 == 0x2000u64 | 0x1 | 0x2 && 0x3000u64 | 0x3 == 0x3000u64 | 0x1 | 0x2
        && 0x83u64 & 0x000f_ffff_ffff_f000 == 0 && 0x83u64 & 0x1 != 0 && 0x83u64 & 0x2 != 0
        && 0x83u64 & 0x80 != 0 && 0x83u64 & 0x8000_0000_0000_0000 == 0) by (bit_vector);
}

/// The guest's program: `mov eax, 0xf00dcafe; vmcall; hlt`.
pub open spec fn guest_program() -> Seq<u8> {
    seq![0xb8u8, 0xfeu8, 0xcau8, 0x0du8, 0xf0u8, 0x0fu8, 0x01u8, 0xc1u8, 0xf4u8]
}

/// The guest finds its program at the address where it starts.
pub proof fn law_guest_finds_its_program(
    arena: ArenaView,
    before: Map<int, u64>,
    pages: Seq<u64>,
    index: int,
)
    requires
        is_vm(arena, before, pages),
        0 <= index < 9,
    ensures
        ({
            let vm = named(pages);
            let seen = guest_memory(vm_memory(before, vm), vm.ept_pml4);
            byte_at(seen, GUEST_CODE_GPA + index) == guest_program()[index]
        }),
{
    let vm = named(pages);
    lemma_guest_memory(arena, before, pages, 4, 0);
    lemma_guest_memory(arena, before, pages, 4, 1);
    lemma_guest_words(arena, before, pages, 0);
    lemma_guest_words(arena, before, pages, 1);
    let seen = guest_memory(vm_memory(before, vm), vm.ept_pml4);
    assert(seen[0x4000] == GUEST_CODE_WORD);
    assert(seen[0x4008] == (0u64 & !0xffu64) | GUEST_CODE_LAST);
    let word: u64 = 0xc101_0ff0_0dca_feb8;
    assert((word >> 0) as u8 == 0xb8 && (word >> 8) as u8 == 0xfe && (word >> 16) as u8 == 0xca && (
    word >> 24) as u8 == 0x0d && (word >> 32) as u8 == 0xf0 && (word >> 40) as u8 == 0x0f && (word
        >> 48) as u8 == 0x01 && (word >> 56) as u8 == 0xc1 && (((0u64 & !0xffu64) | 0xf4) >> 0)
        as u8 == 0xf4) by (bit_vector)
        requires
            word == 0xc101_0ff0_0dca_feb8,
    ;
}

/// Work on memory above the virtual machine's blocks does not change what the
/// guest reaches.
pub proof fn law_later_work_leaves_the_guest_alone(
    arena: ArenaView,
    before: Map<int, u64>,
    pages: Seq<u64>,
    after: Map<int, u64>,
    low: int,
    high: int,
    guest: u64,
)
    requires
        is_vm(arena, before, pages),
        covers(before, arena.next as int, arena.end as int),
        low >= blocks(arena, block_sizes()).0.next,
        same_outside(vm_memory(before, named(pages)), after, low, high),
    ensures
        ({
            let vm = named(pages);
            ept_walk(after, vm.ept_pml4, guest) == ept_walk(
                vm_memory(before, vm),
                vm.ept_pml4,
                guest,
            )
        }),
{
    let vm = named(pages);
    let memory = vm_memory(before, vm);
    let page = page_number(guest);
    lemma_vm_pages(arena, before, pages);
    lemma_blocks(arena, block_sizes());
    assert forall|i: int, index: int| 7 <= i < 11 && 0 <= index < 512 implies #[trigger] word(
        after,
        pages[i],
        index,
    ) == word(memory, pages[i], index) by {
        let address = pages[i] + 8 * index;
        assert(is_block(
            pages[i],
            block_sizes()[i],
            arena.next,
            blocks(arena, block_sizes()).0.next,
        ));
        assert(before.contains_key(address));
        assert(memory.contains_key(address));
        assert(after[address] == memory[address]);
    }
    lemma_ept_words(arena, before, pages, page / 0x800_0000);
    lemma_ept_words(arena, before, pages, page / 0x4_0000 % 512);
    lemma_ept_words(arena, before, pages, page / 512 % 512);
    lemma_ept_entries(pages[8]);
    lemma_ept_entries(pages[9]);
    lemma_ept_entries(pages[10]);
    lemma_rights();
    assert(word(after, pages[7], page / 0x800_0000) == word(memory, pages[7], page / 0x800_0000));
    assert(word(after, pages[8], page / 0x4_0000 % 512) == word(
        memory,
        pages[8],
        page / 0x4_0000 % 512,
    ));
    assert(word(after, pages[9], page / 512 % 512) == word(memory, pages[9], page / 512 % 512));
    assert(word(after, pages[10], page % 512) == word(memory, pages[10], page % 512));
}

/// A table whose first word is `first`, and whose other words are zero.
pub open spec fn has_one_entry(memory: Map<int, u64>, table: u64, first: u64) -> bool {
    forall|index: int|
        0 <= index < 512 ==> #[trigger] memory[table + 8 * index] == if index == 0 {
            first
        } else {
            0
        }
}

/// The virtual machine's tables, word by word. Each of the upper three extended tables names
/// the next, with all rights; the last maps the guest's pages 1 to 5, as write-back memory, to
/// the pages that were made for them: all can be read, the fourth can be executed, the others
/// can be written. The guest's own tables map its first 2 MiB to themselves by one large page.
#[verifier::spinoff_prover]
pub proof fn law_tables_of_the_virtual_machine(
    arena: ArenaView,
    before: Map<int, u64>,
    pages: Seq<u64>,
)
    requires
        is_vm(arena, before, pages),
    ensures
        ({
            let memory = with_ept(with_guest(before, named(pages)), named(pages));
            &&& has_one_entry(memory, pages[7], (pages[8] + 0x7) as u64)
            &&& has_one_entry(memory, pages[8], (pages[9] + 0x7) as u64)
            &&& has_one_entry(memory, pages[9], (pages[10] + 0x7) as u64)
            &&& forall|index: int|
                0 <= index < 512 ==> #[trigger] memory[pages[10] + 8 * index] == if index == 1 {
                    pages[2] + 0x33
                } else if index == 2 {
                    pages[3] + 0x33
                } else if index == 3 {
                    pages[4] + 0x33
                } else if index == 4 {
                    pages[5] + 0x35
                } else if index == 5 {
                    pages[6] + 0x33
                } else {
                    0
                }
            &&& has_one_entry(memory, pages[2], 0x2003)
            &&& has_one_entry(memory, pages[3], 0x3003)
            &&& has_one_entry(memory, pages[4], 0x83)
        }),
{
    let vm = named(pages);
    let memory = vm_memory(before, vm);
    lemma_vm_pages(arena, before, pages);
    lemma_words(pages[8]);
    lemma_words(pages[9]);
    lemma_words(pages[10]);
    lemma_words(pages[2]);
    lemma_words(pages[3]);
    lemma_words(pages[4]);
    lemma_words(pages[5]);
    lemma_words(pages[6]);
    assert(has_one_entry(memory, pages[7], (pages[8] + 0x7) as u64)) by {
        assert forall|index: int| 0 <= index < 512 implies #[trigger] memory[pages[7] + 8 * index]
            == only_entry((pages[8] + 0x7) as u64, index) by {
            lemma_ept_words(arena, before, pages, index);
        }
    }
    assert(has_one_entry(memory, pages[8], (pages[9] + 0x7) as u64)) by {
        assert forall|index: int| 0 <= index < 512 implies #[trigger] memory[pages[8] + 8 * index]
            == only_entry((pages[9] + 0x7) as u64, index) by {
            lemma_ept_words(arena, before, pages, index);
        }
    }
    assert(has_one_entry(memory, pages[9], (pages[10] + 0x7) as u64)) by {
        assert forall|index: int| 0 <= index < 512 implies #[trigger] memory[pages[9] + 8 * index]
            == only_entry((pages[10] + 0x7) as u64, index) by {
            lemma_ept_words(arena, before, pages, index);
        }
    }
    assert(has_one_entry(memory, pages[2], 0x2003)) by {
        assert forall|index: int| 0 <= index < 512 implies #[trigger] memory[pages[2] + 8 * index]
            == only_entry(0x2003, index) by {
            lemma_guest_words(arena, before, pages, index);
        }
    }
    assert(has_one_entry(memory, pages[3], 0x3003)) by {
        assert forall|index: int| 0 <= index < 512 implies #[trigger] memory[pages[3] + 8 * index]
            == only_entry(0x3003, index) by {
            lemma_guest_words(arena, before, pages, index);
        }
    }
    assert(has_one_entry(memory, pages[4], 0x83)) by {
        assert forall|index: int| 0 <= index < 512 implies #[trigger] memory[pages[4] + 8 * index]
            == only_entry(0x83, index) by {
            lemma_guest_words(arena, before, pages, index);
        }
    }
    assert forall|index: int| 0 <= index < 512 implies #[trigger] memory[pages[10] + 8 * index]
        == if index == 1 {
        pages[2] + 0x33
    } else if index == 2 {
        pages[3] + 0x33
    } else if index == 3 {
        pages[4] + 0x33
    } else if index == 4 {
        pages[5] + 0x35
    } else if index == 5 {
        pages[6] + 0x33
    } else {
        0
    } by {
        lemma_ept_words(arena, before, pages, index);
    }
}

/// Entries of the virtual machine's tables as numbers.
proof fn lemma_words(page: u64)
    requires
        page % 4096 == 0,
        page < PHYSICAL_LIMIT,
    ensures
        page | (EPT_READ | EPT_WRITE | EPT_EXECUTE) == page + 0x7,
        ept_leaf(page, EPT_READ | EPT_WRITE) == page + 0x33,
        ept_leaf(page, EPT_READ | EPT_EXECUTE) == page + 0x35,
        GUEST_PDPT_GPA | 0x3 == 0x2003,
        GUEST_PD_GPA | 0x3 == 0x3003,
{
    assert(page | (0x1u64 | 0x2 | 0x4) == page + 0x7 && page | (0x1u64 | 0x2) | 0x30 == page + 0x33
        && page | (0x1u64 | 0x4) | 0x30 == page + 0x35 && 0x2000u64 | 0x3 == 0x2003 && 0x3000u64
        | 0x3 == 0x3003) by (bit_vector)
        requires
            page % 4096 == 0,
            page < 0x10_0000_0000_0000,
    ;
}

/// What the guest reaches, by the numbers of its pages: its three tables at 0x1000, 0x2000
/// and 0x3000, its program at 0x4000 and its stack at 0x5000. It can read all of them, execute
/// the program, and write the others. It reaches nothing else.
pub proof fn law_guest_reaches_five_pages(
    arena: ArenaView,
    before: Map<int, u64>,
    pages: Seq<u64>,
    guest: u64,
)
    requires
        is_vm(arena, before, pages),
        guest < 0x1_0000_0000_0000,
    ensures
        ({
            let memory = with_ept(with_guest(before, named(pages)), named(pages));
            let found = ept_walk(memory, pages[7], guest);
            let number = guest as int / 4096;
            &&& found is Some <==> 1 <= number <= 5
            &&& found is Some ==> {
                &&& found->0.host == pages[number + 1] + guest % 4096
                &&& found->0.rights == if number == 4 {
                    0x5u64
                } else {
                    0x3u64
                }
            }
        }),
{
    law_guest_reaches_its_pages_only(arena, before, pages, guest);
    lemma_rights();
    assert(page_number(guest) == guest as int / 4096);
}

/// The virtual machine takes 27 pages from an arena that starts at a page: its control
/// structure, a guard with sixteen pages of exit stack above it, the guest's three tables, its
/// program and its stack, and four extended tables. The host keeps the addresses of the control
/// structure, the guard, the top of the exit stack and the first extended table.
pub proof fn law_virtual_machine_takes_27_pages(arena: ArenaView)
    requires
        0 < arena.next <= arena.end <= u64::MAX,
        arena.next % 4096 == 0,
    ensures
        ({
            let (rest, pages) = blocks(arena, block_sizes());
            let kept = resources(named(pages->0));
            &&& pages is Some <==> arena.next + 27 * 4096 <= arena.end
            &&& pages is Some ==> {
                &&& rest.next == arena.next + 27 * 4096
                &&& kept.vmcs == arena.next
                &&& kept.vmexit_guard == arena.next + 4096
                &&& kept.vmexit_stack_top == arena.next + 18 * 4096
                &&& kept.ept_root == arena.next + 23 * 4096
                &&& forall|index: int|
                    2 <= index < 11 ==> #[trigger] (pages->0)[index] == arena.next + (16 + index)
                        * 4096
            }
        }),
{
    let counts = block_sizes();
    law_blocks_follow_each_other(arena, counts);
    lemma_totals();
    let pages = blocks(arena, counts).1;
    if pages is Some {
        let pages = pages->0;
        assert(pages[0] == arena.next + 4096 * total(counts.take(0)));
        assert(pages[1] == arena.next + 4096 * total(counts.take(1)));
        assert(pages[7] == arena.next + 4096 * total(counts.take(7)));
        assert forall|index: int| 2 <= index < 11 implies #[trigger] pages[index] == arena.next + (16
            + index) * 4096 by {
            assert(total(counts.take(index)) == 16 + index);
        }
    }
}

/// The pages before each block of a virtual machine.
proof fn lemma_totals()
    ensures
        total(block_sizes()) == 27,
        total(block_sizes().take(0)) == 0,
        total(block_sizes().take(1)) == 1,
        forall|index: int|
            2 <= index <= 11 ==> #[trigger] total(block_sizes().take(index)) == 16 + index,
{
    let counts = block_sizes();
    assert(counts.take(0) =~= Seq::empty());
    assert(counts.take(1).drop_last() =~= counts.take(0));
    assert(counts.take(2).drop_last() =~= counts.take(1));
    assert forall|index: int| 2 <= index <= 11 implies #[trigger] total(counts.take(index)) == 16
        + index by {
        lemma_total_from(index);
    }
    assert(counts.take(11) =~= counts);
}

proof fn lemma_total_from(index: int)
    requires
        2 <= index <= 11,
    ensures
        total(block_sizes().take(index)) == 16 + index,
    decreases index,
{
    let counts = block_sizes();
    assert(counts.take(index).drop_last() =~= counts.take(index - 1));
    assert(counts.take(index).last() == counts[index - 1]);
    if index > 2 {
        assert(counts[index - 1] == 1);
        lemma_total_from(index - 1);
    } else {
        reveal_with_fuel(total, 4);
        assert(counts.take(0) =~= Seq::empty());
        assert(counts.take(1).drop_last() =~= counts.take(0));
        assert(counts.take(1).last() == 1 && counts.take(2).last() == 17);
    }
}

/// An entry of the extended page tables holds its page and its rights, as write-back memory; its
/// place is the number of the guest's page, of which nine bits count.
pub proof fn law_extended_entry(host: u64, permissions: u64, guest: u64)
    ensures
        ept_leaf(host, permissions) == host | permissions | 0x30,
        ept_index(guest) == guest as int / 4096 % 512,
{
}

/// Making a virtual machine changes thirteen words of memory, whatever memory held. Of the word
/// with the last byte of the program the other seven bytes stay.
#[verifier::spinoff_prover]
pub proof fn law_virtual_machine_is_thirteen_words(
    before: Map<int, u64>,
    pages: VmPages,
    address: int,
)
    requires
        in_order(pages),
    ensures
        ({
            let memory = with_ept(with_guest(before, pages), pages);
            let nonleaf = 0x1u64 | 0x2 | 0x4;
            let data = 0x1u64 | 0x2;
            let code = 0x1u64 | 0x4;
            &&& memory[pages.guest_pml4 as int] == 0x2000u64 | 0x3
            &&& memory[pages.guest_pdpt as int] == 0x3000u64 | 0x3
            &&& memory[pages.guest_pd as int] == 0x83
            &&& memory[pages.guest_code as int] == 0xc101_0ff0_0dca_feb8
            &&& memory[pages.guest_code + 8] == (before[pages.guest_code + 8] & !0xffu64) | 0xf4
            &&& memory[pages.ept_pml4 as int] == pages.ept_pdpt | nonleaf
            &&& memory[pages.ept_pdpt as int] == pages.ept_pd | nonleaf
            &&& memory[pages.ept_pd as int] == pages.ept_pt | nonleaf
            &&& memory[pages.ept_pt + 8] == pages.guest_pml4 | data | 0x30
            &&& memory[pages.ept_pt + 16] == pages.guest_pdpt | data | 0x30
            &&& memory[pages.ept_pt + 24] == pages.guest_pd | data | 0x30
            &&& memory[pages.ept_pt + 32] == pages.guest_code | code | 0x30
            &&& memory[pages.ept_pt + 40] == pages.guest_stack | data | 0x30
            &&& address != pages.guest_pml4 && address != pages.guest_pdpt && address
                != pages.guest_pd && address != pages.guest_code && address != pages.guest_code + 8
                && address != pages.ept_pml4 && address != pages.ept_pdpt && address != pages.ept_pd
                && !(exists|index: int| 1 <= index <= 5 && address == #[trigger] (pages.ept_pt + 8
                * index)) ==> {
                &&& memory[address] == before[address]
                &&& memory.contains_key(address) == before.contains_key(address)
            }
        }),
{
    assert(pages.ept_pt + 8 * 1 == pages.ept_pt + 8 && pages.ept_pt + 8 * 2 == pages.ept_pt + 16
        && pages.ept_pt + 8 * 3 == pages.ept_pt + 24 && pages.ept_pt + 8 * 4 == pages.ept_pt + 32
        && pages.ept_pt + 8 * 5 == pages.ept_pt + 40);
}

/// What a virtual machine that cannot be made leaves in memory: with room for 23 pages its guest,
/// with less nothing.
pub proof fn law_virtual_machine_half_made(arena: ArenaView)
    requires
        0 < arena.next <= arena.end <= u64::MAX,
        arena.next % 4096 == 0,
    ensures
        ({
            let pages = blocks(arena, block_sizes().take(7)).1;
            &&& pages is Some <==> arena.next + 23 * 4096 <= arena.end
            &&& pages is Some ==> forall|index: int|
                2 <= index < 7 ==> #[trigger] (pages->0)[index] == arena.next + (16 + index) * 4096
        }),
{
    let counts = block_sizes().take(7);
    assert forall|index: int| 0 <= index < counts.len() implies #[trigger] counts[index] > 0 by {
        assert(counts[index] == block_sizes()[index]);
    }
    law_blocks_follow_each_other(arena, counts);
    lemma_totals();
    assert(total(block_sizes().take(7)) == 23);
    let pages = blocks(arena, counts).1;
    if pages is Some {
        assert forall|index: int| 2 <= index < 7 implies #[trigger] (pages->0)[index] == arena.next + (
        16 + index) * 4096 by {
            assert(counts.take(index) =~= block_sizes().take(index));
            assert(total(block_sizes().take(index)) == 16 + index);
        }
    }
}

} // verus!
