//! The virtual machine: the memory that it is made of, and its launch.

use crate::arch::x86_64::instructions::{answers, Procedure, Reply, Request, Step};
use crate::arch::x86_64::vmcs::{
    are_sufficient, check_ept, choose_controls, control_writes, controls_for, guest_writes, has_ept,
    host_writes, write_controls, write_guest_state, write_host_state, ControlCapabilities, Controls,
    GuestMsrs, HostMsrs, VmcsWrite, VM_INSTRUCTION_ERROR,
};
use crate::arch::x86_64::vmx::{
    VmxInfo, IA32_VMX_CR0_FIXED0, IA32_VMX_CR0_FIXED1, IA32_VMX_CR4_FIXED0, IA32_VMX_CR4_FIXED1,
};
use crate::boot_alloc::{
    blocks, is_block, lemma_blocks, lemma_blocks_join, lemma_blocks_stop, BootArena,
};
use crate::phys::{covers, PhysMemory};
use vstd::prelude::*;

verus! {

/// Pages of the stack on which the host handles exits of the guest.
pub const VMEXIT_STACK_PAGES: usize = 16;

pub const GUEST_PML4_GPA: u64 = 0x1000;

pub const GUEST_PDPT_GPA: u64 = 0x2000;

pub const GUEST_PD_GPA: u64 = 0x3000;

pub const GUEST_CODE_GPA: u64 = 0x4000;

pub const GUEST_STACK_GPA: u64 = 0x5000;

pub const GUEST_STACK_TOP: u64 = 0x6000;

/// The number that the guest shows to prove that it has run.
pub const GUEST_MAGIC: u32 = 0xf00d_cafe;

pub const IA32_VMX_PINBASED_CTLS: u32 = 0x481;

pub const IA32_VMX_PROCBASED_CTLS: u32 = 0x482;

pub const IA32_VMX_EXIT_CTLS: u32 = 0x483;

pub const IA32_VMX_ENTRY_CTLS: u32 = 0x484;

pub const IA32_VMX_PROCBASED_CTLS2: u32 = 0x48b;

pub const IA32_VMX_EPT_VPID_CAP: u32 = 0x48c;

pub const IA32_VMX_TRUE_PINBASED_CTLS: u32 = 0x48d;

pub const IA32_VMX_TRUE_PROCBASED_CTLS: u32 = 0x48e;

pub const IA32_VMX_TRUE_EXIT_CTLS: u32 = 0x48f;

pub const IA32_VMX_TRUE_ENTRY_CTLS: u32 = 0x490;

pub const IA32_EFER: u32 = 0xc000_0080;

pub const IA32_PAT: u32 = 0x277;

pub const IA32_FS_BASE: u32 = 0xc000_0100;

pub const IA32_GS_BASE: u32 = 0xc000_0101;

pub const IA32_SYSENTER_CS: u32 = 0x174;

pub const IA32_SYSENTER_ESP: u32 = 0x175;

pub const IA32_SYSENTER_EIP: u32 = 0x176;

pub const EPT_READ: u64 = 0x1;

pub const EPT_WRITE: u64 = 0x2;

pub const EPT_EXECUTE: u64 = 0x4;

pub const EPT_WRITE_BACK: u64 = 0x30;

/// The first eight bytes of the guest's program, and the ninth:
/// `mov eax, 0xf00dcafe; vmcall; hlt`.
pub const GUEST_CODE_WORD: u64 = 0xc101_0ff0_0dca_feb8;

pub const GUEST_CODE_LAST: u64 = 0xf4;

/// Why a virtual machine cannot be made or launched.
#[derive(Clone, Copy, Debug, PartialEq, Eq, Structural)]
pub enum VmError {
    ArenaExhausted,
    VmcsAddressWidth,
    VmclearFailed,
    VmptrldFailed,
    VmwriteFailed,
    ControlUnavailable,
    EptUnavailable,
    VmlaunchFailed,
    VmreadFailed,
}

impl VmError {
    /// The number under which the error is logged.
    pub open spec fn number(self) -> u64 {
        match self {
            VmError::ArenaExhausted => 0u64,
            VmError::VmcsAddressWidth => 1u64,
            VmError::VmclearFailed => 2u64,
            VmError::VmptrldFailed => 3u64,
            VmError::VmwriteFailed => 4u64,
            VmError::ControlUnavailable => 5u64,
            VmError::EptUnavailable => 6u64,
            VmError::VmlaunchFailed => 7u64,
            VmError::VmreadFailed => 8u64,
        }
    }

    /// The number under which the error is logged.
    pub fn code(self) -> (number: u64)
        ensures
            number == self.number(),
    {
        match self {
            VmError::ArenaExhausted => 0,
            VmError::VmcsAddressWidth => 1,
            VmError::VmclearFailed => 2,
            VmError::VmptrldFailed => 3,
            VmError::VmwriteFailed => 4,
            VmError::ControlUnavailable => 5,
            VmError::EptUnavailable => 6,
            VmError::VmlaunchFailed => 7,
            VmError::VmreadFailed => 8,
        }
    }
}

/// What the host keeps of the virtual machine's memory.
#[derive(Clone, Copy, Debug, PartialEq, Eq, Structural)]
pub struct VmResources {
    vmcs: u64,
    vmexit_stack_top: u64,
    vmexit_guard: u64,
    ept_root: u64,
}

/// The addresses in `VmResources`.
pub ghost struct VmResourcesView {
    pub vmcs: u64,
    pub vmexit_stack_top: u64,
    pub vmexit_guard: u64,
    pub ept_root: u64,
}

impl View for VmResources {
    type V = VmResourcesView;

    closed spec fn view(&self) -> VmResourcesView {
        VmResourcesView {
            vmcs: self.vmcs,
            vmexit_stack_top: self.vmexit_stack_top,
            vmexit_guard: self.vmexit_guard,
            ept_root: self.ept_root,
        }
    }
}

/// Numbers of pages.
pub open spec fn as_counts(sizes: Seq<usize>) -> Seq<nat> {
    Seq::new(sizes.len(), |index: int| sizes[index] as nat)
}

/// The sizes, in pages, of the blocks of a virtual machine, in order: the
/// control structure, the exit stack with its guard, the guest's three tables,
/// code and stack, and the four levels of extended page tables.
pub open spec fn block_sizes() -> Seq<nat> {
    seq![1nat, 17nat, 1nat, 1nat, 1nat, 1nat, 1nat, 1nat, 1nat, 1nat, 1nat]
}

/// The pages of a virtual machine.
pub ghost struct VmPages {
    pub vmcs: u64,
    pub vmexit_stack: u64,
    pub guest_pml4: u64,
    pub guest_pdpt: u64,
    pub guest_pd: u64,
    pub guest_code: u64,
    pub guest_stack: u64,
    pub ept_pml4: u64,
    pub ept_pdpt: u64,
    pub ept_pd: u64,
    pub ept_pt: u64,
}

/// The blocks of a virtual machine by name.
pub open spec fn named(pages: Seq<u64>) -> VmPages {
    VmPages {
        vmcs: pages[0],
        vmexit_stack: pages[1],
        guest_pml4: pages[2],
        guest_pdpt: pages[3],
        guest_pd: pages[4],
        guest_code: pages[5],
        guest_stack: pages[6],
        ept_pml4: pages[7],
        ept_pdpt: pages[8],
        ept_pd: pages[9],
        ept_pt: pages[10],
    }
}

/// Memory once the guest's own tables and program are in place.
pub open spec fn with_guest(memory: Map<int, u64>, pages: VmPages) -> Map<int, u64> {
    let tables = memory.insert(pages.guest_pml4 as int, GUEST_PDPT_GPA | 0x3).insert(
        pages.guest_pdpt as int,
        GUEST_PD_GPA | 0x3,
    ).insert(pages.guest_pd as int, 0x83);
    let start = tables.insert(pages.guest_code as int, GUEST_CODE_WORD);
    start.insert(
        pages.guest_code + 8,
        (start[pages.guest_code + 8] & !0xffu64) | GUEST_CODE_LAST,
    )
}

/// The entry of the extended page tables that maps the page at `host`.
pub open spec fn ept_leaf(host: u64, permissions: u64) -> u64 {
    host | permissions | EPT_WRITE_BACK
}

/// Memory once the extended page tables are in place too.
pub open spec fn with_ept(memory: Map<int, u64>, pages: VmPages) -> Map<int, u64> {
    let nonleaf = EPT_READ | EPT_WRITE | EPT_EXECUTE;
    memory.insert(pages.ept_pml4 as int, pages.ept_pdpt | nonleaf).insert(
        pages.ept_pdpt as int,
        pages.ept_pd | nonleaf,
    ).insert(pages.ept_pd as int, pages.ept_pt | nonleaf).insert(
        pages.ept_pt + 8 * 1,
        ept_leaf(pages.guest_pml4, EPT_READ | EPT_WRITE),
    ).insert(pages.ept_pt + 8 * 2, ept_leaf(pages.guest_pdpt, EPT_READ | EPT_WRITE)).insert(
        pages.ept_pt + 8 * 3,
        ept_leaf(pages.guest_pd, EPT_READ | EPT_WRITE),
    ).insert(pages.ept_pt + 8 * 4, ept_leaf(pages.guest_code, EPT_READ | EPT_EXECUTE)).insert(
        pages.ept_pt + 8 * 5,
        ept_leaf(pages.guest_stack, EPT_READ | EPT_WRITE),
    )
}

/// `count` pages of the arena.
pub fn pages(arena: &mut BootArena, count: usize) -> (result: Result<u64, VmError>)
    requires
        old(arena).wf(),
    ensures
        final(arena).wf(),
        final(arena)@ == old(arena)@.allocate_pages(count as nat).0,
        match result {
            Ok(page) => old(arena)@.allocate_pages(count as nat).1 == Some(page),
            Err(error) => error == VmError::ArenaExhausted && old(arena)@.allocate_pages(
                count as nat,
            ).1 is None,
        },
{
    match arena.allocate_pages(count) {
        Some(page) => Ok(page),
        None => Err(VmError::ArenaExhausted),
    }
}

/// Blocks of the arena with the given numbers of pages, in order.
fn allocate_blocks(arena: &mut BootArena, sizes: &[usize]) -> (result: Result<Vec<u64>, VmError>)
    requires
        old(arena).wf(),
    ensures
        final(arena).wf(),
        ({
            let (rest, pages) = blocks(old(arena)@, as_counts(sizes@));
            &&& final(arena)@ == rest
            &&& match result {
                Ok(addresses) => pages == Some(addresses@),
                Err(error) => pages is None && error == VmError::ArenaExhausted,
            }
        }),
{
    let ghost counts = as_counts(sizes@);
    let ghost before = arena@;
    let mut addresses: Vec<u64> = Vec::new();
    let mut index: usize = 0;
    assert(addresses@ =~= Seq::empty());
    while index < sizes.len()
        invariant
            index <= sizes@.len(),
            arena.wf(),
            before == old(arena)@,
            counts == as_counts(sizes@),
            blocks(before, counts.take(index as int)) == (arena@, Some(addresses@)),
        decreases sizes@.len() - index,
    {
        proof {
            assert(counts.take(index + 1).drop_last() =~= counts.take(index as int));
        }
        match pages(arena, sizes[index]) {
            Ok(address) => addresses.push(address),
            Err(error) => {
                proof {
                    lemma_blocks_stop(before, counts, index + 1);
                }
                return Err(error);
            },
        }
        index = index + 1;
    }
    assert(counts.take(index as int) =~= counts);
    Ok(addresses)
}

/// Replaces an entry of the table at `table`.
pub fn write_entry(memory: &mut PhysMemory, table: u64, index: usize, value: u64)
    requires
        old(memory).wf(),
        index < 512,
        old(memory)@.contains_key(table + 8 * index),
        table + 4096 <= u64::MAX,
    ensures
        final(memory).wf(),
        final(memory)@ == old(memory)@.insert(table + 8 * index, value),
{
    memory.write(table + 8 * (index as u64), value);
}

/// The index of a guest page in the last level of the extended page tables.
pub open spec fn ept_index(guest: u64) -> int {
    (guest as int / 4096) % 512
}

/// Maps the guest's page at `guest` to the page at `host`.
pub fn ept_map(memory: &mut PhysMemory, table: u64, guest: u64, host: u64, permissions: u64)
    requires
        old(memory).wf(),
        old(memory)@.contains_key(table + 8 * ept_index(guest)),
        table + 4096 <= u64::MAX,
    ensures
        final(memory).wf(),
        final(memory)@ == old(memory)@.insert(
            table + 8 * ept_index(guest),
            ept_leaf(host, permissions),
        ),
{
    let page_number: u64 = guest >> 12;
    proof {
        assert(page_number & 0x1ff == (guest / 4096) % 512 && page_number & 0x1ff < 512)
            by (bit_vector)
            requires
                page_number == guest >> 12,
        ;
    }
    let index: usize = (page_number & 0x1ff) as usize;
    write_entry(memory, table, index, host | permissions | EPT_WRITE_BACK);
}

/// There is a page of memory at `page`.
spec fn has_page(memory: Map<int, u64>, page: u64) -> bool {
    &&& page % 8 == 0
    &&& page + 4096 <= u64::MAX
    &&& covers(memory, page as int, page + 4096)
}

/// Puts the guest's tables and program in place.
fn write_guest(memory: &mut PhysMemory, blocks: &[u64])
    requires
        old(memory).wf(),
        blocks@.len() == 7,
        forall|i: int| 0 <= i < 7 ==> has_page(old(memory)@, #[trigger] blocks@[i]),
    ensures
        final(memory).wf(),
        final(memory)@ == with_guest(old(memory)@, named(blocks@)),
{
    let guest_pml4: u64 = blocks[2];
    let guest_pdpt: u64 = blocks[3];
    let guest_pd: u64 = blocks[4];
    let guest_code: u64 = blocks[5];
    write_entry(memory, guest_pml4, 0, GUEST_PDPT_GPA | 0x3);
    write_entry(memory, guest_pdpt, 0, GUEST_PD_GPA | 0x3);
    write_entry(memory, guest_pd, 0, 0x83);
    write_entry(memory, guest_code, 0, GUEST_CODE_WORD);
    let rest: u64 = memory.read(guest_code + 8);
    write_entry(memory, guest_code, 1, (rest & !0xffu64) | GUEST_CODE_LAST);
}

/// Puts the extended page tables in place.
fn write_ept(memory: &mut PhysMemory, guest: &[u64], ept: &[u64])
    requires
        old(memory).wf(),
        guest@.len() == 7,
        ept@.len() == 4,
        forall|i: int| 0 <= i < 4 ==> has_page(old(memory)@, #[trigger] ept@[i]),
    ensures
        final(memory).wf(),
        final(memory)@ == with_ept(old(memory)@, named(guest@ + ept@)),
{
    let ept_pml4: u64 = ept[0];
    let ept_pdpt: u64 = ept[1];
    let ept_pd: u64 = ept[2];
    let ept_pt: u64 = ept[3];
    let nonleaf: u64 = EPT_READ | EPT_WRITE | EPT_EXECUTE;
    write_entry(memory, ept_pml4, 0, ept_pdpt | nonleaf);
    write_entry(memory, ept_pdpt, 0, ept_pd | nonleaf);
    write_entry(memory, ept_pd, 0, ept_pt | nonleaf);
    ept_map(memory, ept_pt, GUEST_PML4_GPA, guest[2], EPT_READ | EPT_WRITE);
    ept_map(memory, ept_pt, GUEST_PDPT_GPA, guest[3], EPT_READ | EPT_WRITE);
    ept_map(memory, ept_pt, GUEST_PD_GPA, guest[4], EPT_READ | EPT_WRITE);
    ept_map(memory, ept_pt, GUEST_CODE_GPA, guest[5], EPT_READ | EPT_EXECUTE);
    ept_map(memory, ept_pt, GUEST_STACK_GPA, guest[6], EPT_READ | EPT_WRITE);
}

impl VmResources {
    /// Takes the memory of a virtual machine from the arena, and puts the
    /// guest's tables and program and the extended page tables into it.
    #[verifier::spinoff_prover]
    pub fn allocate(arena: &mut BootArena, memory: &mut PhysMemory) -> (result: Result<
        Self,
        VmError,
    >)
        requires
            old(arena).wf(),
            old(memory).wf(),
            covers(old(memory)@, old(arena)@.next as int, old(arena)@.end as int),
        ensures
            final(arena).wf(),
            final(memory).wf(),
            final(arena)@ == blocks(old(arena)@, block_sizes()).0,
            match blocks(old(arena)@, block_sizes()).1 {
                Some(pages) => {
                    &&& result is Ok
                    &&& result->Ok_0@ == resources(named(pages))
                    &&& final(memory)@ == with_ept(
                        with_guest(old(memory)@, named(pages)),
                        named(pages),
                    )
                },
                None => {
                    &&& result == Err::<Self, VmError>(VmError::ArenaExhausted)
                    &&& final(memory)@ == match blocks(old(arena)@, block_sizes().take(7)).1 {
                        Some(pages) => with_guest(old(memory)@, named(pages)),
                        None => old(memory)@,
                    }
                },
            },
    {
        let ghost before = arena@;
        let guest_sizes: [usize; 7] = [1, VMEXIT_STACK_PAGES + 1, 1, 1, 1, 1, 1];
        let ept_sizes: [usize; 4] = [1, 1, 1, 1];
        proof {
            assert(as_counts(guest_sizes@) =~= block_sizes().take(7));
            assert(as_counts(ept_sizes@) =~= block_sizes().skip(7));
            assert(block_sizes() =~= block_sizes().take(7) + block_sizes().skip(7));
            lemma_blocks_join(before, block_sizes().take(7), block_sizes().skip(7));
            lemma_blocks(before, block_sizes().take(7));
        }
        let guest: Vec<u64> = match allocate_blocks(arena, &guest_sizes) {
            Ok(addresses) => addresses,
            Err(error) => return Err(error),
        };
        proof {
            assert forall|i: int| 0 <= i < 7 implies has_page(memory@, #[trigger] guest@[i]) by {
                assert(is_block(guest@[i], block_sizes().take(7)[i], before.next, arena@.next));
            }
        }
        write_guest(memory, &guest);
        proof {
            lemma_blocks(arena@, block_sizes().skip(7));
        }
        let ghost middle = arena@;
        let ept: Vec<u64> = match allocate_blocks(arena, &ept_sizes) {
            Ok(addresses) => addresses,
            Err(error) => return Err(error),
        };
        proof {
            assert forall|i: int| 0 <= i < 4 implies has_page(memory@, #[trigger] ept@[i]) by {
                assert(is_block(ept@[i], block_sizes().skip(7)[i], middle.next, arena@.next));
                assert(covers(old(memory)@, ept@[i] as int, ept@[i] + 4096));
            }
        }
        write_ept(memory, &guest, &ept);
        Ok(
            VmResources {
                vmcs: guest[0],
                vmexit_stack_top: guest[1] + ((VMEXIT_STACK_PAGES + 1) * 4096) as u64,
                vmexit_guard: guest[1],
                ept_root: ept[0],
            },
        )
    }

    /// The page below the exit stack, which must not be mapped.
    pub fn guard_page(&self) -> (page: u64)
        ensures
            page == self@.vmexit_guard,
    {
        self.vmexit_guard
    }
}

/// What the host keeps of a virtual machine's pages.
pub open spec fn resources(pages: VmPages) -> VmResourcesView {
    VmResourcesView {
        vmcs: pages.vmcs,
        vmexit_stack_top: (pages.vmexit_stack + 17 * 4096) as u64,
        vmexit_guard: pages.vmexit_stack,
        ept_root: pages.ept_pml4,
    }
}

/// The outcome of VMCLEAR, by whether the processor reports that it failed.
pub fn vmclear(failed: u8) -> (result: Result<(), VmError>)
    ensures
        result == if failed == 0 {
            Ok::<(), VmError>(())
        } else {
            Err(VmError::VmclearFailed)
        },
{
    if failed == 0 {
        Ok(())
    } else {
        Err(VmError::VmclearFailed)
    }
}

/// The outcome of VMPTRLD, by whether the processor reports that it failed.
pub fn vmptrld(failed: u8) -> (result: Result<(), VmError>)
    ensures
        result == if failed == 0 {
            Ok::<(), VmError>(())
        } else {
            Err(VmError::VmptrldFailed)
        },
{
    if failed == 0 {
        Ok(())
    } else {
        Err(VmError::VmptrldFailed)
    }
}

/// The outcome of VMWRITE, by whether the processor reports that it failed.
pub fn vmwrite(failed: u8) -> (result: Result<(), VmError>)
    ensures
        result == if failed == 0 {
            Ok::<(), VmError>(())
        } else {
            Err(VmError::VmwriteFailed)
        },
{
    if failed == 0 {
        Ok(())
    } else {
        Err(VmError::VmwriteFailed)
    }
}

/// The outcome of VMREAD, by whether the processor reports that it failed and
/// what it read.
pub fn vmread(failed: u8, value: u64) -> (result: Result<u64, VmError>)
    ensures
        result == if failed == 0 {
            Ok::<u64, VmError>(value)
        } else {
            Err(VmError::VmreadFailed)
        },
{
    if failed == 0 {
        Ok(value)
    } else {
        Err(VmError::VmreadFailed)
    }
}

/// Asks why the last virtualisation instruction failed.
#[derive(Clone, Copy, Debug, PartialEq, Eq, Structural)]
pub struct InstructionError;

/// A step of asking for the reason of a failure.
pub type InstructionErrorStep = Step<InstructionError, Option<u64>>;

impl InstructionError {
    /// The reply is of the kind that the state waits for.
    pub open spec fn expects(self, reply: Reply) -> bool {
        reply is Read
    }

    /// Goes on with the reply to what was asked for.
    pub fn next(self, reply: Reply) -> (step: InstructionErrorStep)
        requires
            self.expects(reply),
        ensures
            step == self.advance(reply),
    {
        let (failed, value) = reply.read();
        Step::Finished { result: vmread(failed, value).ok() }
    }
}

impl Procedure for InstructionError {
    type Output = Option<u64>;

    open spec fn advance(self, reply: Reply) -> InstructionErrorStep {
        Step::Finished {
            result: if reply->Read_failed == 0 {
                Some(reply->Read_value)
            } else {
                None
            },
        }
    }
}

/// Starts to ask why the last virtualisation instruction failed.
pub fn instruction_error() -> (step: InstructionErrorStep)
    ensures
        step == (InstructionErrorStep::Ask {
            state: InstructionError,
            request: Request::Vmread { field: VM_INSTRUCTION_ERROR },
        }),
{
    Step::Ask {
        state: InstructionError,
        request: Request::Vmread { field: VM_INSTRUCTION_ERROR },
    }
}

/// What is being prepared for the launch.
#[derive(Clone, Copy, Debug, PartialEq, Eq, Structural)]
pub enum Phase {
    Controls,
    Guest,
    Host,
}

/// The model-specific registers that a phase needs, in the order in which they
/// are read.
pub open spec fn phase_msrs(phase: Phase, true_controls: bool) -> Seq<u32> {
    match phase {
        Phase::Controls => if true_controls {
            seq![
                IA32_VMX_TRUE_PINBASED_CTLS,
                IA32_VMX_TRUE_PROCBASED_CTLS,
                IA32_VMX_PROCBASED_CTLS2,
                IA32_VMX_TRUE_EXIT_CTLS,
                IA32_VMX_TRUE_ENTRY_CTLS,
            ]
        } else {
            seq![
                IA32_VMX_PINBASED_CTLS,
                IA32_VMX_PROCBASED_CTLS,
                IA32_VMX_PROCBASED_CTLS2,
                IA32_VMX_EXIT_CTLS,
                IA32_VMX_ENTRY_CTLS,
            ]
        },
        Phase::Guest => seq![
            IA32_VMX_CR0_FIXED0,
            IA32_VMX_CR0_FIXED1,
            IA32_VMX_CR4_FIXED0,
            IA32_VMX_CR4_FIXED1,
            IA32_EFER,
            IA32_PAT,
        ],
        Phase::Host => seq![
            IA32_FS_BASE,
            IA32_GS_BASE,
            IA32_PAT,
            IA32_EFER,
            IA32_SYSENTER_CS,
            IA32_SYSENTER_ESP,
            IA32_SYSENTER_EIP,
        ],
    }
}

fn msrs_of_phase(phase: Phase, true_controls: bool) -> (msrs: Vec<u32>)
    ensures
        msrs@ == phase_msrs(phase, true_controls),
{
    let mut msrs: Vec<u32> = Vec::new();
    match phase {
        Phase::Controls => {
            if true_controls {
                msrs.push(IA32_VMX_TRUE_PINBASED_CTLS);
                msrs.push(IA32_VMX_TRUE_PROCBASED_CTLS);
                msrs.push(IA32_VMX_PROCBASED_CTLS2);
                msrs.push(IA32_VMX_TRUE_EXIT_CTLS);
                msrs.push(IA32_VMX_TRUE_ENTRY_CTLS);
            } else {
                msrs.push(IA32_VMX_PINBASED_CTLS);
                msrs.push(IA32_VMX_PROCBASED_CTLS);
                msrs.push(IA32_VMX_PROCBASED_CTLS2);
                msrs.push(IA32_VMX_EXIT_CTLS);
                msrs.push(IA32_VMX_ENTRY_CTLS);
            }
        },
        Phase::Guest => {
            msrs.push(IA32_VMX_CR0_FIXED0);
            msrs.push(IA32_VMX_CR0_FIXED1);
            msrs.push(IA32_VMX_CR4_FIXED0);
            msrs.push(IA32_VMX_CR4_FIXED1);
            msrs.push(IA32_EFER);
            msrs.push(IA32_PAT);
        },
        Phase::Host => {
            msrs.push(IA32_FS_BASE);
            msrs.push(IA32_GS_BASE);
            msrs.push(IA32_PAT);
            msrs.push(IA32_EFER);
            msrs.push(IA32_SYSENTER_CS);
            msrs.push(IA32_SYSENTER_ESP);
            msrs.push(IA32_SYSENTER_EIP);
        },
    }
    msrs
}

/// How far a launch has come: what has been asked for, and what is known so
/// far.
#[derive(Debug)]
pub enum Launch {
    Storing { resources: VmResources, info: VmxInfo },
    Clearing { resources: VmResources, info: VmxInfo },
    Loading { resources: VmResources, info: VmxInfo },
    Reading { resources: VmResources, info: VmxInfo, phase: Phase, values: Vec<u64> },
    ReadingEpt { resources: VmResources, info: VmxInfo, controls: Controls },
    ReadingHost { resources: VmResources, info: VmxInfo, msrs: HostMsrs },
    Writing {
        resources: VmResources,
        info: VmxInfo,
        phase: Phase,
        writes: Vec<VmcsWrite>,
        written: usize,
    },
    Launching,
}

/// A launch, as far as statements about it are concerned.
pub ghost enum LaunchView {
    Storing { resources: VmResourcesView, info: VmxInfo },
    Clearing { resources: VmResourcesView, info: VmxInfo },
    Loading { resources: VmResourcesView, info: VmxInfo },
    Reading { resources: VmResourcesView, info: VmxInfo, phase: Phase, values: Seq<u64> },
    ReadingEpt { resources: VmResourcesView, info: VmxInfo, controls: Controls },
    ReadingHost { resources: VmResourcesView, info: VmxInfo, msrs: HostMsrs },
    Writing {
        resources: VmResourcesView,
        info: VmxInfo,
        phase: Phase,
        writes: Seq<VmcsWrite>,
        written: int,
    },
    Launching,
}

impl View for Launch {
    type V = LaunchView;

    open spec fn view(&self) -> LaunchView {
        match *self {
            Launch::Storing { resources, info } => LaunchView::Storing {
                resources: resources@,
                info,
            },
            Launch::Clearing { resources, info } => LaunchView::Clearing {
                resources: resources@,
                info,
            },
            Launch::Loading { resources, info } => LaunchView::Loading {
                resources: resources@,
                info,
            },
            Launch::Reading { resources, info, phase, values } => LaunchView::Reading {
                resources: resources@,
                info,
                phase,
                values: values@,
            },
            Launch::ReadingEpt { resources, info, controls } => LaunchView::ReadingEpt {
                resources: resources@,
                info,
                controls,
            },
            Launch::ReadingHost { resources, info, msrs } => LaunchView::ReadingHost {
                resources: resources@,
                info,
                msrs,
            },
            Launch::Writing { resources, info, phase, writes, written } => LaunchView::Writing {
                resources: resources@,
                info,
                phase,
                writes: writes@,
                written: written as int,
            },
            Launch::Launching => LaunchView::Launching,
        }
    }
}

/// A step of a launch.
pub type LaunchStep = Step<Launch, Result<(), VmError>>;

/// A step of a launch, as far as statements about it are concerned.
pub type LaunchViewStep = Step<LaunchView, Result<(), VmError>>;

/// A step of a launch, as far as statements about it are concerned.
pub open spec fn launch_step_view(step: LaunchStep) -> LaunchViewStep {
    match step {
        Step::Ask { state, request } => Step::Ask { state: state@, request },
        Step::Finished { result } => Step::Finished { result },
    }
}

/// The step that reads the first register of a phase, or the next.
pub open spec fn read_next(
    resources: VmResourcesView,
    info: VmxInfo,
    phase: Phase,
    values: Seq<u64>,
) -> LaunchViewStep {
    Step::Ask {
        state: LaunchView::Reading { resources, info, phase, values },
        request: Request::Rdmsr {
            msr: phase_msrs(phase, info.true_controls)[values.len() as int],
        },
    }
}

/// The step that makes write number `written`.
pub open spec fn write_next(
    resources: VmResourcesView,
    info: VmxInfo,
    phase: Phase,
    writes: Seq<VmcsWrite>,
    written: int,
) -> LaunchViewStep {
    Step::Ask {
        state: LaunchView::Writing { resources, info, phase, writes, written },
        request: Request::Vmwrite { field: writes[written].field, value: writes[written].value },
    }
}

/// The capabilities in the registers of the first phase.
pub open spec fn capabilities_in(values: Seq<u64>) -> ControlCapabilities {
    ControlCapabilities {
        pin: values[0],
        primary: values[1],
        secondary: values[2],
        exit: values[3],
        entry: values[4],
    }
}

/// The registers of the second phase by name.
pub open spec fn guest_msrs_in(values: Seq<u64>) -> GuestMsrs {
    GuestMsrs {
        cr0_fixed0: values[0],
        cr0_fixed1: values[1],
        cr4_fixed0: values[2],
        cr4_fixed1: values[3],
        efer: values[4],
        pat: values[5],
    }
}

/// The registers of the third phase by name.
pub open spec fn host_msrs_in(values: Seq<u64>) -> HostMsrs {
    HostMsrs {
        fs_base: values[0],
        gs_base: values[1],
        pat: values[2],
        efer: values[3],
        sysenter_cs: values[4],
        sysenter_esp: values[5],
        sysenter_eip: values[6],
    }
}

/// What comes after the last register of a phase has been read.
pub open spec fn after_reading(
    resources: VmResourcesView,
    info: VmxInfo,
    phase: Phase,
    values: Seq<u64>,
) -> LaunchViewStep {
    match phase {
        Phase::Controls => {
            let controls = controls_for(capabilities_in(values));
            if are_sufficient(controls) {
                Step::Ask {
                    state: LaunchView::ReadingEpt { resources, info, controls },
                    request: Request::Rdmsr { msr: IA32_VMX_EPT_VPID_CAP },
                }
            } else {
                Step::Finished { result: Err(VmError::ControlUnavailable) }
            }
        },
        Phase::Guest => write_next(
            resources,
            info,
            Phase::Guest,
            guest_writes(guest_msrs_in(values)),
            0,
        ),
        Phase::Host => Step::Ask {
            state: LaunchView::ReadingHost { resources, info, msrs: host_msrs_in(values) },
            request: Request::ReadHostRegisters,
        },
    }
}

/// What comes after the last write of a phase.
pub open spec fn after_writing(
    resources: VmResourcesView,
    info: VmxInfo,
    phase: Phase,
) -> LaunchViewStep {
    match phase {
        Phase::Controls => read_next(resources, info, Phase::Guest, Seq::empty()),
        Phase::Guest => read_next(resources, info, Phase::Host, Seq::empty()),
        Phase::Host => Step::Ask { state: LaunchView::Launching, request: Request::Vmlaunch },
    }
}

impl LaunchView {
    /// The reply is of the kind that the state waits for.
    pub open spec fn expects(self, reply: Reply) -> bool {
        match self {
            LaunchView::Storing { .. } => reply is Done,
            LaunchView::Reading { .. } | LaunchView::ReadingEpt { .. } => reply is Value,
            LaunchView::ReadingHost { .. } => reply is Host,
            _ => reply is Status,
        }
    }
}

impl Procedure for LaunchView {
    type Output = Result<(), VmError>;

    open spec fn advance(self, reply: Reply) -> LaunchViewStep {
        let value = reply->Value_value;
        let failed = reply->Status_failed != 0;
        match self {
            LaunchView::Storing { resources, info } => Step::Ask {
                state: LaunchView::Clearing { resources, info },
                request: Request::Vmclear { vmcs: resources.vmcs },
            },
            LaunchView::Clearing { resources, info } => if failed {
                Step::Finished { result: Err(VmError::VmclearFailed) }
            } else {
                Step::Ask {
                    state: LaunchView::Loading { resources, info },
                    request: Request::Vmptrld { vmcs: resources.vmcs },
                }
            },
            LaunchView::Loading { resources, info } => if failed {
                Step::Finished { result: Err(VmError::VmptrldFailed) }
            } else {
                read_next(resources, info, Phase::Controls, Seq::empty())
            },
            LaunchView::Reading { resources, info, phase, values } => if values.len() + 1
                < phase_msrs(phase, info.true_controls).len() {
                read_next(resources, info, phase, values.push(value))
            } else {
                after_reading(resources, info, phase, values.push(value))
            },
            LaunchView::ReadingEpt { resources, info, controls } => if has_ept(value) {
                write_next(
                    resources,
                    info,
                    Phase::Controls,
                    control_writes(controls, resources.ept_root),
                    0,
                )
            } else {
                Step::Finished { result: Err(VmError::EptUnavailable) }
            },
            LaunchView::ReadingHost { resources, info, msrs } => write_next(
                resources,
                info,
                Phase::Host,
                host_writes(reply->registers, msrs, resources.vmexit_stack_top),
                0,
            ),
            LaunchView::Writing { resources, info, phase, writes, written } => if failed {
                Step::Finished { result: Err(VmError::VmwriteFailed) }
            } else if written + 1 < writes.len() {
                write_next(resources, info, phase, writes, written + 1)
            } else {
                after_writing(resources, info, phase)
            },
            LaunchView::Launching => Step::Finished {
                result: if failed {
                    Err(VmError::VmlaunchFailed)
                } else {
                    Ok(())
                },
            },
        }
    }
}

/// The step that a launch begins with.
pub open spec fn launch_start(resources: VmResourcesView, info: VmxInfo) -> LaunchViewStep {
    if !info.wide_physical_addresses && resources.vmcs > u32::MAX {
        Step::Finished { result: Err(VmError::VmcsAddressWidth) }
    } else {
        Step::Ask {
            state: LaunchView::Storing { resources, info },
            request: Request::StoreU32 { address: resources.vmcs, word: info.revision_id },
        }
    }
}

/// Every answer to the request of a step is one that its state waits for.
pub open spec fn is_answerable(step: LaunchViewStep) -> bool {
    step matches Step::Ask { state, request } ==> forall|answer: Reply|
        answers(answer, request) ==> #[trigger] state.expects(answer)
}

/// Starts to launch the guest of a virtual machine.
pub fn launch(resources: &VmResources, info: VmxInfo) -> (step: LaunchStep)
    ensures
        launch_step_view(step) == launch_start(resources@, info),
        step matches Step::Ask { state, .. } ==> state.wf(),
        is_answerable(launch_step_view(step)),
{
    if !info.wide_physical_addresses && resources.vmcs > u32::MAX as u64 {
        return Step::Finished { result: Err(VmError::VmcsAddressWidth) };
    }
    Step::Ask {
        state: Launch::Storing { resources: *resources, info },
        request: Request::StoreU32 { address: resources.vmcs, word: info.revision_id },
    }
}

impl Launch {
    /// There is a register left to read, or a write left to make.
    pub open spec fn wf(&self) -> bool {
        match *self {
            Launch::Reading { info, phase, values, .. } => values@.len() < phase_msrs(
                phase,
                info.true_controls,
            ).len(),
            Launch::Writing { writes, written, .. } => written < writes@.len(),
            _ => true,
        }
    }

    fn read(resources: VmResources, info: VmxInfo, phase: Phase, values: Vec<u64>) -> (step:
        LaunchStep)
        requires
            values@.len() < phase_msrs(phase, info.true_controls).len(),
        ensures
            launch_step_view(step) == read_next(resources@, info, phase, values@),
            step matches Step::Ask { state, .. } && state.wf(),
    {
        let msr: u32 = msrs_of_phase(phase, info.true_controls)[values.len()];
        Step::Ask {
            state: Launch::Reading { resources, info, phase, values },
            request: Request::Rdmsr { msr },
        }
    }

    fn write(
        resources: VmResources,
        info: VmxInfo,
        phase: Phase,
        writes: Vec<VmcsWrite>,
        written: usize,
    ) -> (step: LaunchStep)
        requires
            written < writes@.len(),
        ensures
            launch_step_view(step) == write_next(
                resources@,
                info,
                phase,
                writes@,
                written as int,
            ),
            step matches Step::Ask { state, .. } && state.wf(),
    {
        let next: VmcsWrite = writes[written];
        Step::Ask {
            state: Launch::Writing { resources, info, phase, writes, written },
            request: Request::Vmwrite { field: next.field, value: next.value },
        }
    }

    fn finish_reading(
        resources: VmResources,
        info: VmxInfo,
        phase: Phase,
        values: Vec<u64>,
    ) -> (step: LaunchStep)
        requires
            values@.len() == phase_msrs(phase, info.true_controls).len(),
        ensures
            launch_step_view(step) == after_reading(resources@, info, phase, values@),
            step matches Step::Ask { state, .. } ==> state.wf(),
    {
        match phase {
            Phase::Controls => {
                let capabilities = ControlCapabilities {
                    pin: values[0],
                    primary: values[1],
                    secondary: values[2],
                    exit: values[3],
                    entry: values[4],
                };
                match choose_controls(capabilities) {
                    Ok(controls) => Step::Ask {
                        state: Launch::ReadingEpt { resources, info, controls },
                        request: Request::Rdmsr { msr: IA32_VMX_EPT_VPID_CAP },
                    },
                    Err(error) => Step::Finished { result: Err(error) },
                }
            },
            Phase::Guest => {
                let msrs = GuestMsrs {
                    cr0_fixed0: values[0],
                    cr0_fixed1: values[1],
                    cr4_fixed0: values[2],
                    cr4_fixed1: values[3],
                    efer: values[4],
                    pat: values[5],
                };
                let writes: Vec<VmcsWrite> = write_guest_state(msrs);
                Launch::write(resources, info, Phase::Guest, writes, 0)
            },
            Phase::Host => {
                let msrs = HostMsrs {
                    fs_base: values[0],
                    gs_base: values[1],
                    pat: values[2],
                    efer: values[3],
                    sysenter_cs: values[4],
                    sysenter_esp: values[5],
                    sysenter_eip: values[6],
                };
                Step::Ask {
                    state: Launch::ReadingHost { resources, info, msrs },
                    request: Request::ReadHostRegisters,
                }
            },
        }
    }

    fn finish_writing(resources: VmResources, info: VmxInfo, phase: Phase) -> (step: LaunchStep)
        ensures
            launch_step_view(step) == after_writing(resources@, info, phase),
            step matches Step::Ask { state, .. } ==> state.wf(),
    {
        match phase {
            Phase::Controls => Launch::read(resources, info, Phase::Guest, Vec::new()),
            Phase::Guest => Launch::read(resources, info, Phase::Host, Vec::new()),
            Phase::Host => Step::Ask { state: Launch::Launching, request: Request::Vmlaunch },
        }
    }

    /// Goes on with the reply to what was asked for.
    pub fn next(self, reply: Reply) -> (step: LaunchStep)
        requires
            self.wf(),
            self@.expects(reply),
        ensures
            launch_step_view(step) == self@.advance(reply),
            step matches Step::Ask { state, .. } ==> state.wf(),
            is_answerable(launch_step_view(step)),
    {
        match self {
            Launch::Storing { resources, info } => Step::Ask {
                state: Launch::Clearing { resources, info },
                request: Request::Vmclear { vmcs: resources.vmcs },
            },
            Launch::Clearing { resources, info } => match vmclear(reply.failed()) {
                Ok(()) => Step::Ask {
                    state: Launch::Loading { resources, info },
                    request: Request::Vmptrld { vmcs: resources.vmcs },
                },
                Err(error) => Step::Finished { result: Err(error) },
            },
            Launch::Loading { resources, info } => match vmptrld(reply.failed()) {
                Ok(()) => Launch::read(resources, info, Phase::Controls, Vec::new()),
                Err(error) => Step::Finished { result: Err(error) },
            },
            Launch::Reading { resources, info, phase, values } => {
                let mut values: Vec<u64> = values;
                values.push(reply.value());
                if values.len() < msrs_of_phase(phase, info.true_controls).len() {
                    Launch::read(resources, info, phase, values)
                } else {
                    Launch::finish_reading(resources, info, phase, values)
                }
            },
            Launch::ReadingEpt { resources, info, controls } => match check_ept(reply.value()) {
                Ok(()) => {
                    let writes: Vec<VmcsWrite> = write_controls(controls, resources.ept_root);
                    Launch::write(resources, info, Phase::Controls, writes, 0)
                },
                Err(error) => Step::Finished { result: Err(error) },
            },
            Launch::ReadingHost { resources, info, msrs } => {
                let writes: Vec<VmcsWrite> = write_host_state(
                    reply.host(),
                    msrs,
                    resources.vmexit_stack_top,
                );
                Launch::write(resources, info, Phase::Host, writes, 0)
            },
            Launch::Writing { resources, info, phase, writes, written } => match vmwrite(
                reply.failed(),
            ) {
                Ok(()) => {
                    if writes.len() - written > 1 {
                        Launch::write(resources, info, phase, writes, written + 1)
                    } else {
                        Launch::finish_writing(resources, info, phase)
                    }
                },
                Err(error) => Step::Finished { result: Err(error) },
            },
            Launch::Launching => {
                if reply.failed() != 0 {
                    return Step::Finished { result: Err(VmError::VmlaunchFailed) };
                }
                Step::Finished { result: Ok(()) }
            },
        }
    }
}

} // verus!
