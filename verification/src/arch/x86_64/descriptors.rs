//! The host's descriptor tables: segments, the task state with its interrupt
//! stacks, and the gates of the interrupts.

use crate::boot_alloc::{
    blocks, is_block, law_blocks_follow_each_other, lemma_blocks, lemma_blocks_stop, total, ArenaView,
    BootArena,
};
use crate::memory::u64_at;
use crate::serial::LogRecord;
use vstd::prelude::*;

verus! {

pub const GDT_ENTRIES: usize = 5;

pub const IDT_ENTRIES: usize = 256;

pub const EXCEPTION_COUNT: usize = 32;

pub const KERNEL_CODE_SELECTOR: u16 = 0x08;

pub const KERNEL_DATA_SELECTOR: u16 = 0x10;

pub const TSS_SELECTOR: u16 = 0x18;

pub const IST_STACK_PAGES: usize = 8;

pub const STACK_GUARD_PAGES: usize = 1;

/// Bytes in a task state.
pub const TSS_BYTES: u16 = 104;

/// Why the descriptor tables cannot be built.
#[derive(Clone, Copy, Debug, PartialEq, Eq, Structural)]
pub enum DescriptorError {
    ArenaExhausted,
}

impl DescriptorError {
    /// The number under which the error is logged.
    pub open spec fn number(self) -> u64 {
        0
    }

    /// The number under which the error is logged.
    pub fn code(self) -> (number: u64)
        ensures
            number == self.number(),
    {
        0
    }
}

/// What the host keeps of its descriptor tables: the pages below the interrupt
/// stacks, which must not be mapped.
#[derive(Clone, Copy, Debug, PartialEq, Eq)]
pub struct DescriptorState {
    pub ist_guard_pages: [u64; 3],
}

/// A gate: where the processor goes on an interrupt, and on which stack.
#[derive(Clone, Copy, Debug, PartialEq, Eq, Structural)]
pub struct IdtEntry {
    pub offset_low: u16,
    pub selector: u16,
    pub ist: u8,
    pub attributes: u8,
    pub offset_middle: u16,
    pub offset_high: u32,
    pub reserved: u32,
}

/// An interrupt gate that leads to `handler`, on interrupt stack `ist`.
pub open spec fn gate(handler: u64, ist: u8) -> IdtEntry {
    IdtEntry {
        offset_low: handler as u16,
        selector: KERNEL_CODE_SELECTOR,
        ist: ist & 0x07,
        attributes: 0x8e,
        offset_middle: (handler >> 16) as u16,
        offset_high: (handler >> 32) as u32,
        reserved: 0,
    }
}

/// The address that a gate leads to.
pub open spec fn gate_offset(entry: IdtEntry) -> int {
    entry.offset_low + 0x1_0000 * entry.offset_middle + 0x1_0000_0000 * entry.offset_high
}

impl IdtEntry {
    /// A gate that is not present.
    pub fn missing() -> (entry: Self)
        ensures
            entry == (IdtEntry {
                offset_low: 0,
                selector: 0,
                ist: 0,
                attributes: 0,
                offset_middle: 0,
                offset_high: 0,
                reserved: 0,
            }),
    {
        IdtEntry {
            offset_low: 0,
            selector: 0,
            ist: 0,
            attributes: 0,
            offset_middle: 0,
            offset_high: 0,
            reserved: 0,
        }
    }

    /// An interrupt gate that leads to `handler`, on interrupt stack `ist`.
    pub fn interrupt_gate(handler: u64, ist: u8) -> (entry: Self)
        ensures
            entry == gate(handler, ist),
    {
        IdtEntry {
            offset_low: #[verifier::truncate] (handler as u16),
            selector: KERNEL_CODE_SELECTOR,
            ist: ist & 0x07,
            attributes: 0x8e,
            offset_middle: #[verifier::truncate] ((handler >> 16) as u16),
            offset_high: #[verifier::truncate] ((handler >> 32) as u32),
            reserved: 0,
        }
    }
}

/// The task state, as the processor reads it.
#[derive(Clone, Copy, Debug, PartialEq, Eq)]
pub struct TaskStateSegment {
    pub bytes: [u8; 104],
}

/// The number whose little-endian form stands at `at`, over two bytes.
pub open spec fn u16_at(bytes: Seq<u8>, at: int) -> u16 {
    (bytes[at] + 0x100 * bytes[at + 1]) as u16
}

/// `after` differs from `before` at most between `low` and `high`.
pub open spec fn same_bytes_outside(before: Seq<u8>, after: Seq<u8>, low: int, high: int) -> bool {
    &&& after.len() == before.len()
    &&& forall|i: int|
        0 <= i < before.len() && !(low <= i < high) ==> #[trigger] after[i] == before[i]
}

impl TaskStateSegment {
    /// A task state of zeros.
    pub fn empty() -> (segment: Self)
        ensures
            forall|i: int| 0 <= i < 104 ==> #[trigger] segment.bytes@[i] == 0,
    {
        TaskStateSegment { bytes: [0;104] }
    }

    /// Sets the stack for interrupts that have no stack of their own.
    pub fn set_rsp0(&mut self, value: u64)
        ensures
            u64_at(final(self).bytes@, 4) == value,
            same_bytes_outside(old(self).bytes@, final(self).bytes@, 4, 12),
    {
        self.write_u64(4, value);
    }

    /// Sets interrupt stack number `index` + 1.
    pub fn set_ist(&mut self, index: usize, value: u64)
        requires
            index < 7,
        ensures
            u64_at(final(self).bytes@, 36 + 8 * index) == value,
            same_bytes_outside(
                old(self).bytes@,
                final(self).bytes@,
                36 + 8 * index,
                44 + 8 * index,
            ),
    {
        self.write_u64(36 + index * 8, value);
    }

    /// Says that there is no map of the ports, by placing it behind the end.
    pub fn disable_io_bitmap(&mut self)
        ensures
            u16_at(final(self).bytes@, 102) == TSS_BYTES,
            same_bytes_outside(old(self).bytes@, final(self).bytes@, 102, 104),
    {
        self.write_u16(102, TSS_BYTES);
    }

    fn write_u64(&mut self, offset: usize, value: u64)
        requires
            offset + 8 <= 104,
        ensures
            u64_at(final(self).bytes@, offset as int) == value,
            same_bytes_outside(
                old(self).bytes@,
                final(self).bytes@,
                offset as int,
                offset + 8,
            ),
    {
        let b0: u8 = #[verifier::truncate] (value as u8);
        let b1: u8 = #[verifier::truncate] ((value >> 8) as u8);
        let b2: u8 = #[verifier::truncate] ((value >> 16) as u8);
        let b3: u8 = #[verifier::truncate] ((value >> 24) as u8);
        let b4: u8 = #[verifier::truncate] ((value >> 32) as u8);
        let b5: u8 = #[verifier::truncate] ((value >> 40) as u8);
        let b6: u8 = #[verifier::truncate] ((value >> 48) as u8);
        let b7: u8 = #[verifier::truncate] ((value >> 56) as u8);
        self.bytes[offset] = b0;
        self.bytes[offset + 1] = b1;
        self.bytes[offset + 2] = b2;
        self.bytes[offset + 3] = b3;
        self.bytes[offset + 4] = b4;
        self.bytes[offset + 5] = b5;
        self.bytes[offset + 6] = b6;
        self.bytes[offset + 7] = b7;
        assert(value == b0 + 0x100 * b1 + 0x1_0000 * b2 + 0x100_0000 * b3 + 0x1_0000_0000 * (b4
            + 0x100 * b5 + 0x1_0000 * b6 + 0x100_0000 * b7)) by (bit_vector)
            requires
                b0 == value as u8,
                b1 == (value >> 8) as u8,
                b2 == (value >> 16) as u8,
                b3 == (value >> 24) as u8,
                b4 == (value >> 32) as u8,
                b5 == (value >> 40) as u8,
                b6 == (value >> 48) as u8,
                b7 == (value >> 56) as u8,
        ;
    }

    fn write_u16(&mut self, offset: usize, value: u16)
        requires
            offset + 2 <= 104,
        ensures
            u16_at(final(self).bytes@, offset as int) == value,
            same_bytes_outside(
                old(self).bytes@,
                final(self).bytes@,
                offset as int,
                offset + 2,
            ),
    {
        let b0: u8 = #[verifier::truncate] (value as u8);
        let b1: u8 = #[verifier::truncate] ((value >> 8) as u8);
        self.bytes[offset] = b0;
        self.bytes[offset + 1] = b1;
        assert(value == b0 + 0x100 * b1) by (bit_vector)
            requires
                b0 == value as u8,
                b1 == (value >> 8) as u8,
        ;
    }
}

/// The base address in the two words of a system descriptor.
pub open spec fn descriptor_base(low: u64, high: u64) -> u64 {
    ((low >> 16) & 0xff_ffff) | ((low >> 56) << 24) | (high << 32)
}

/// The limit in the first word of a descriptor.
pub open spec fn descriptor_limit(low: u64) -> u64 {
    (low & 0xffff) | (((low >> 48) & 0xf) << 16)
}

/// The words describe an available task state, present and privileged, at
/// `base`, whose last byte has the number `limit`, of which twenty bits count.
pub open spec fn describes_tss(words: (u64, u64), base: u64, limit: u32) -> bool {
    &&& descriptor_base(words.0, words.1) == base
    &&& words.1 < 0x1_0000_0000
    &&& descriptor_limit(words.0) == limit as u64 & 0xf_ffff
    &&& (words.0 >> 40) & 0xff == 0x89
    &&& (words.0 >> 52) & 0xf == 0
}

/// The two words that describe a task state.
pub fn tss_descriptor(base: u64, limit: u32) -> (words: (u64, u64))
    ensures
        describes_tss(words, base, limit),
{
    let low: u64 = (limit & 0xffff) as u64 | ((base & 0x00ff_ffff) << 16) | (0x9u64 << 40) | (1u64
        << 47) | (((limit >> 16) & 0x0f) as u64) << 48 | (((base >> 24) & 0xff) << 56);
    let high: u64 = base >> 32;
    assert(((low >> 16) & 0xff_ffff) | ((low >> 56) << 24) | (high << 32) == base && high
        < 0x1_0000_0000 && (low & 0xffff) | (((low >> 48) & 0xf) << 16) == limit as u64 & 0xf_ffff
        && (low >> 40) & 0xff == 0x89 && (low >> 52) & 0xf == 0) by (bit_vector)
        requires
            low == (limit & 0xffff) as u64 | ((base & 0x00ff_ffff) << 16) | (0x9u64 << 40) | (1u64
                << 47) | (((limit >> 16) & 0x0f) as u64) << 48 | (((base >> 24) & 0xff) << 56),
            high == base >> 32,
    ;
    (low, high)
}

/// Takes a stack with its guard from the arena, and gives its top and its guard.
pub fn stack_top(arena: &mut BootArena) -> (result: Result<(u64, u64), DescriptorError>)
    requires
        old(arena).wf(),
    ensures
        final(arena).wf(),
        final(arena)@ == old(arena)@.allocate_pages(9).0,
        match old(arena)@.allocate_pages(9).1 {
            Some(guard) => result is Ok && result->Ok_0.1 == guard && result->Ok_0.0 == guard + 9
                * 4096,
            None => result == Err::<(u64, u64), DescriptorError>(DescriptorError::ArenaExhausted),
        },
{
    let ghost before = arena@;
    match arena.allocate_pages(IST_STACK_PAGES + STACK_GUARD_PAGES) {
        Some(guard) => {
            proof {
                crate::boot_alloc::law_allocation_lies_in_the_arena(before, 9 * 4096, 4096);
            }
            let top: u64 = guard + ((IST_STACK_PAGES + STACK_GUARD_PAGES) * 4096) as u64;
            Ok((top, guard))
        },
        None => Err(DescriptorError::ArenaExhausted),
    }
}

/// The tables that the processor is made to use.
#[derive(Debug, PartialEq, Eq)]
pub struct DescriptorTables {
    pub tss: TaskStateSegment,
    pub gdt: [u64; 5],
    pub gdt_limit: u16,
    pub idt: Vec<IdtEntry>,
    pub idt_limit: u16,
    pub state: DescriptorState,
}

/// The sizes, in pages, of the interrupt stacks with their guards.
pub open spec fn ist_sizes() -> Seq<nat> {
    seq![9nat, 9nat, 9nat]
}

/// The interrupt stack of a vector: the double fault, the non-maskable
/// interrupt and the machine check have their own.
pub open spec fn ist_of(vector: int) -> u8 {
    if vector == 8 {
        1
    } else if vector == 2 {
        2
    } else if vector == 18 {
        3
    } else {
        0
    }
}

/// The gates of all interrupts: exceptions lead to their stubs, everything else
/// to `unhandled`.
pub open spec fn gates(stubs: Seq<u64>, unhandled: u64) -> Seq<IdtEntry> {
    Seq::new(
        256,
        |vector: int|
            gate(
                if vector < 32 {
                    stubs[vector]
                } else {
                    unhandled
                },
                ist_of(vector),
            ),
    )
}

/// The bytes are a task state with these stacks, and zeros elsewhere.
pub open spec fn is_tss(bytes: Seq<u8>, rsp0: u64, guards: Seq<u64>) -> bool {
    &&& bytes.len() == 104
    &&& u64_at(bytes, 4) == rsp0
    &&& u64_at(bytes, 36) == guards[0] + 9 * 4096
    &&& u64_at(bytes, 44) == guards[1] + 9 * 4096
    &&& u64_at(bytes, 52) == guards[2] + 9 * 4096
    &&& u16_at(bytes, 102) == TSS_BYTES
    &&& forall|i: int| 0 <= i < 4 || 12 <= i < 36 || 60 <= i < 102 ==> #[trigger] bytes[i] == 0
}

/// The tables are those of a host with these stacks and handlers, whose task
/// state stands at `tss_base`.
pub open spec fn are_host_tables(
    tables: DescriptorTables,
    guards: Seq<u64>,
    kernel_stack_top: u64,
    tss_base: u64,
    stubs: Seq<u64>,
    unhandled: u64,
) -> bool {
    &&& tables.state.ist_guard_pages@ == guards
    &&& is_tss(tables.tss.bytes@, kernel_stack_top, guards)
    &&& tables.gdt@[0] == 0
    &&& tables.gdt@[1] == 0x00af_9a00_0000_ffff
    &&& tables.gdt@[2] == 0x00cf_9200_0000_ffff
    &&& describes_tss((tables.gdt@[3], tables.gdt@[4]), tss_base, 103)
    &&& tables.gdt_limit == 39
    &&& tables.idt@ == gates(stubs, unhandled)
    &&& tables.idt_limit == 4095
}

fn build_tss(
    kernel_stack_top: u64,
    double_fault_stack: u64,
    nmi_stack: u64,
    machine_check_stack: u64,
) -> (tss: TaskStateSegment)
    ensures
        u64_at(tss.bytes@, 4) == kernel_stack_top,
        u64_at(tss.bytes@, 36) == double_fault_stack,
        u64_at(tss.bytes@, 44) == nmi_stack,
        u64_at(tss.bytes@, 52) == machine_check_stack,
        u16_at(tss.bytes@, 102) == TSS_BYTES,
        forall|i: int|
            0 <= i < 4 || 12 <= i < 36 || 60 <= i < 102 ==> #[trigger] tss.bytes@[i] == 0,
{
    let mut tss: TaskStateSegment = TaskStateSegment::empty();
    tss.set_rsp0(kernel_stack_top);
    tss.set_ist(0, double_fault_stack);
    tss.set_ist(1, nmi_stack);
    tss.set_ist(2, machine_check_stack);
    tss.disable_io_bitmap();
    tss
}

fn build_idt(stubs: &[u64; 32], unhandled: u64) -> (idt: Vec<IdtEntry>)
    ensures
        idt@ == gates(stubs@, unhandled),
{
    let mut idt: Vec<IdtEntry> = Vec::new();
    let mut vector: usize = 0;
    while vector < IDT_ENTRIES
        invariant
            vector <= 256,
            idt@ == gates(stubs@, unhandled).take(vector as int),
        decreases 256 - vector,
    {
        let handler: u64 = if vector < EXCEPTION_COUNT {
            stubs[vector]
        } else {
            unhandled
        };
        let ist: u8 = match vector {
            2 => 2,
            8 => 1,
            18 => 3,
            _ => 0,
        };
        idt.push(IdtEntry::interrupt_gate(handler, ist));
        vector = vector + 1;
        assert(idt@ =~= gates(stubs@, unhandled).take(vector as int));
    }
    assert(gates(stubs@, unhandled).take(256) =~= gates(stubs@, unhandled));
    idt
}

/// The interrupt stacks, each by its top and its guard.
struct InterruptStacks {
    double_fault: (u64, u64),
    nmi: (u64, u64),
    machine_check: (u64, u64),
}

impl InterruptStacks {
    spec fn guards(self) -> Seq<u64> {
        seq![self.double_fault.1, self.nmi.1, self.machine_check.1]
    }

    spec fn wf(self) -> bool {
        &&& self.double_fault.0 == self.double_fault.1 + 9 * 4096
        &&& self.nmi.0 == self.nmi.1 + 9 * 4096
        &&& self.machine_check.0 == self.machine_check.1 + 9 * 4096
    }

    fn allocate(arena: &mut BootArena) -> (result: Result<Self, DescriptorError>)
        requires
            old(arena).wf(),
        ensures
            final(arena).wf(),
            final(arena)@ == blocks(old(arena)@, ist_sizes()).0,
            match blocks(old(arena)@, ist_sizes()).1 {
                Some(guards) => result is Ok && result->Ok_0.wf() && result->Ok_0.guards()
                    == guards,
                None => result == Err::<Self, DescriptorError>(DescriptorError::ArenaExhausted),
            },
    {
        let ghost before = arena@;
        proof {
            assert(ist_sizes().take(0) =~= Seq::empty());
            assert(ist_sizes().take(1).drop_last() =~= ist_sizes().take(0));
            assert(ist_sizes().take(2).drop_last() =~= ist_sizes().take(1));
            assert(ist_sizes().drop_last() =~= ist_sizes().take(2));
            assert(blocks(before, ist_sizes().take(0)) == (before, Some(Seq::<u64>::empty())));
        }
        let double_fault: (u64, u64) = match stack_top(arena) {
            Ok(stack) => stack,
            Err(error) => {
                proof {
                    lemma_blocks_stop(before, ist_sizes(), 1);
                }
                return Err(error);
            },
        };
        let nmi: (u64, u64) = match stack_top(arena) {
            Ok(stack) => stack,
            Err(error) => {
                proof {
                    lemma_blocks_stop(before, ist_sizes(), 2);
                }
                return Err(error);
            },
        };
        let machine_check: (u64, u64) = stack_top(arena)?;
        let stacks = InterruptStacks { double_fault, nmi, machine_check };
        proof {
            assert(Seq::<u64>::empty().push(double_fault.1).push(nmi.1).push(machine_check.1)
                =~= stacks.guards());
        }
        Ok(stacks)
    }
}

/// Takes the interrupt stacks from the arena, and builds the host's tables.
pub fn install(
    arena: &mut BootArena,
    kernel_stack_top: u64,
    tss_base: u64,
    stubs: &[u64; 32],
    unhandled: u64,
) -> (result: Result<DescriptorTables, DescriptorError>)
    requires
        old(arena).wf(),
    ensures
        final(arena).wf(),
        final(arena)@ == blocks(old(arena)@, ist_sizes()).0,
        match blocks(old(arena)@, ist_sizes()).1 {
            Some(guards) => result is Ok && are_host_tables(
                result->Ok_0,
                guards,
                kernel_stack_top,
                tss_base,
                stubs@,
                unhandled,
            ),
            None => result == Err::<DescriptorTables, DescriptorError>(
                DescriptorError::ArenaExhausted,
            ),
        },
{
    let stacks: InterruptStacks = InterruptStacks::allocate(arena)?;
    let tss: TaskStateSegment = build_tss(
        kernel_stack_top,
        stacks.double_fault.0,
        stacks.nmi.0,
        stacks.machine_check.0,
    );
    let (tss_low, tss_high) = tss_descriptor(tss_base, (TSS_BYTES - 1) as u32);
    let ist_guard_pages: [u64; 3] = [stacks.double_fault.1, stacks.nmi.1, stacks.machine_check.1];
    assert(ist_guard_pages@ =~= stacks.guards());
    Ok(
        DescriptorTables {
            tss,
            gdt: [0, 0x00af_9a00_0000_ffff, 0x00cf_9200_0000_ffff, tss_low, tss_high],
            gdt_limit: (GDT_ENTRIES * 8 - 1) as u16,
            idt: build_idt(stubs, unhandled),
            idt_limit: (IDT_ENTRIES * 16 - 1) as u16,
            state: DescriptorState { ist_guard_pages },
        },
    )
}

/// The registers that were saved when the host raised an exception.
#[derive(Clone, Copy, Debug, PartialEq, Eq, Structural)]
pub struct ExceptionFrame {
    pub r15: u64,
    pub r14: u64,
    pub r13: u64,
    pub r12: u64,
    pub r11: u64,
    pub r10: u64,
    pub r9: u64,
    pub r8: u64,
    pub rdi: u64,
    pub rsi: u64,
    pub rbp: u64,
    pub rdx: u64,
    pub rcx: u64,
    pub rbx: u64,
    pub rax: u64,
    pub vector: u64,
    pub error_code: u64,
    pub rip: u64,
    pub cs: u64,
    pub rflags: u64,
}

/// What is logged before the processor halts on an exception of the host, whose
/// registers were saved in `frame`, if it is there.
pub fn exception_dispatch(frame: Option<ExceptionFrame>, cr2: u64) -> (records: Vec<LogRecord>)
    ensures
        records@ == match frame {
            None => seq![
                LogRecord::Line("hypewwisoww: host exception"),
                LogRecord::Line("hypewwisoww: missing exception frame"),
            ],
            Some(frame) => seq![
                LogRecord::Line("hypewwisoww: host exception"),
                LogRecord::Hex("hypewwisoww: vector=", frame.vector),
                LogRecord::Hex("hypewwisoww: error=", frame.error_code),
                LogRecord::Hex("hypewwisoww: rip=", frame.rip),
                LogRecord::Hex("hypewwisoww: rflags=", frame.rflags),
                LogRecord::Hex("hypewwisoww: cr2=", cr2),
            ],
        },
{
    let mut records: Vec<LogRecord> = Vec::new();
    records.push(LogRecord::Line("hypewwisoww: host exception"));
    match frame {
        None => records.push(LogRecord::Line("hypewwisoww: missing exception frame")),
        Some(frame) => {
            records.push(LogRecord::Hex("hypewwisoww: vector=", frame.vector));
            records.push(LogRecord::Hex("hypewwisoww: error=", frame.error_code));
            records.push(LogRecord::Hex("hypewwisoww: rip=", frame.rip));
            records.push(LogRecord::Hex("hypewwisoww: rflags=", frame.rflags));
            records.push(LogRecord::Hex("hypewwisoww: cr2=", cr2));
        },
    }
    records
}

/// A gate leads to the handler that it was made for.
pub proof fn law_gate_leads_to_its_handler(handler: u64, ist: u8)
    ensures
        gate_offset(gate(handler, ist)) == handler,
{
    let low = handler as u16;
    let middle = (handler >> 16) as u16;
    let high = (handler >> 32) as u32;
    assert(handler == low + 0x1_0000 * middle + 0x1_0000_0000 * high) by (bit_vector)
        requires
            low == handler as u16,
            middle == (handler >> 16) as u16,
            high == (handler >> 32) as u32,
    ;
}

/// The interrupt stacks, each with its guard below it, lie in what was left of
/// the arena and do not overlap.
pub proof fn law_interrupt_stacks_are_apart(arena: ArenaView, one: int, two: int)
    requires
        arena.next <= arena.end <= u64::MAX,
        blocks(arena, ist_sizes()).1 is Some,
        0 <= one < two < 3,
    ensures
        ({
            let (rest, guards) = blocks(arena, ist_sizes());
            &&& arena.next <= guards->0[one]
            &&& guards->0[one] % 4096 == 0
            &&& guards->0[one] + 9 * 4096 <= guards->0[two]
            &&& guards->0[two] + 9 * 4096 <= rest.next
        }),
{
    lemma_blocks(arena, ist_sizes());
    let (rest, guards) = blocks(arena, ist_sizes());
    assert(is_block(guards->0[one], ist_sizes()[one], arena.next, rest.next));
    assert(is_block(guards->0[two], ist_sizes()[two], arena.next, rest.next));
}

/// The number whose eight bytes, the lowest first, stand at `at`.
pub open spec fn number_at(bytes: Seq<u8>, at: int) -> int {
    bytes[at] + 0x100 * bytes[at + 1] + 0x1_0000 * bytes[at + 2] + 0x100_0000 * bytes[at + 3]
        + 0x1_0000_0000 * bytes[at + 4] + 0x100_0000_0000 * bytes[at + 5] + 0x1_0000_0000_0000
        * bytes[at + 6] + 0x100_0000_0000_0000 * bytes[at + 7]
}

/// An interrupt leads to the stub of its exception, and to the handler of all others from
/// vector 32 on; as an interrupt gate, privileged, in the host's code segment. The double
/// fault, the non-maskable interrupt and the machine check are handled on stacks of their
/// own, which start at the top of nine pages of which the lowest is the guard; all others on
/// the stack that is in use.
pub proof fn law_interrupts_reach_their_handlers(
    tables: DescriptorTables,
    guards: Seq<u64>,
    kernel_stack_top: u64,
    tss_base: u64,
    stubs: Seq<u64>,
    unhandled: u64,
    vector: int,
)
    requires
        are_host_tables(tables, guards, kernel_stack_top, tss_base, stubs, unhandled),
        0 <= vector < 256,
    ensures
        tables.idt@.len() == 256,
        ({
            let entry = tables.idt@[vector];
            let state = tables.tss.bytes@;
            let handler = if vector < 32 {
                stubs[vector]
            } else {
                unhandled
            };
            &&& entry.offset_low + 0x1_0000 * entry.offset_middle + 0x1_0000_0000
                * entry.offset_high == handler
            &&& entry.selector == 8
            &&& entry.attributes == 0x8e
            &&& entry.reserved == 0
            &&& vector != 2 && vector != 8 && vector != 18 ==> entry.ist == 0
            &&& vector == 2 || vector == 8 || vector == 18 ==> {
                let guard = if vector == 8 {
                    guards[0]
                } else if vector == 2 {
                    guards[1]
                } else {
                    guards[2]
                };
                &&& 1 <= entry.ist <= 7
                &&& number_at(state, 36 + 8 * (entry.ist - 1)) == guard + 9 * 4096
            }
        }),
{
    let ist = ist_of(vector);
    let handler = if vector < 32 {
        stubs[vector]
    } else {
        unhandled
    };
    assert(tables.idt@[vector] == gate(handler, ist));
    law_gate_leads_to_its_handler(handler, ist);
    law_gate_is_an_interrupt_gate(handler, ist);
}

/// A gate is an interrupt gate of the host's code segment, present and privileged, for one of
/// eight stacks.
pub proof fn law_gate_is_an_interrupt_gate(handler: u64, ist: u8)
    ensures
        gate(handler, ist).selector == 8,
        gate(handler, ist).attributes == 0x8e,
        gate(handler, ist).ist == ist % 8,
        gate(handler, ist).reserved == 0,
{
    assert(ist & 0x07 == ist % 8) by (bit_vector);
}

/// The two words of a task state's descriptor: its base, in four pieces, the twenty low bits of
/// its limit, in two, and its kind, which is an available task state, present and privileged.
pub proof fn law_task_state_descriptor(low: u64, high: u64, base: u64, limit: u32)
    requires
        describes_tss((low, high), base, limit),
    ensures
        low / 0x1_0000 % 0x100_0000 + 0x100_0000 * (low / 0x100_0000_0000_0000) + 0x1_0000_0000
            * high == base,
        low % 0x1_0000 + 0x1_0000 * (low / 0x1_0000_0000_0000 % 16) == limit % 0x10_0000,
        low / 0x100_0000_0000 % 0x100 == 0x89,
        low / 0x10_0000_0000_0000 % 16 == 0,
{
    assert(low / 0x1_0000 % 0x100_0000 + 0x100_0000 * (low / 0x100_0000_0000_0000) + 0x1_0000_0000
        * high == base && low % 0x1_0000 + 0x1_0000 * (low / 0x1_0000_0000_0000 % 16) == limit
        % 0x10_0000 && low / 0x100_0000_0000 % 0x100 == 0x89 && low / 0x10_0000_0000_0000 % 16 == 0)
        by (bit_vector)
        requires
            ((low >> 16) & 0xff_ffff) | ((low >> 56) << 24) | (high << 32) == base,
            high < 0x1_0000_0000,
            (low & 0xffff) | (((low >> 48) & 0xf) << 16) == limit as u64 & 0xf_ffff,
            (low >> 40) & 0xff == 0x89,
            (low >> 52) & 0xf == 0,
    ;
}

/// The processor starts from these tables: five words of segments, the first empty, then
/// 64-bit code and data, then the task state at its address; and 256 gates. The task state
/// has the core's stack for privileged code, and no map of the ports.
pub proof fn law_segments_and_task_state(
    tables: DescriptorTables,
    guards: Seq<u64>,
    kernel_stack_top: u64,
    tss_base: u64,
    stubs: Seq<u64>,
    unhandled: u64,
)
    requires
        are_host_tables(tables, guards, kernel_stack_top, tss_base, stubs, unhandled),
    ensures
        ({
            let low = tables.gdt@[3];
            let high = tables.gdt@[4];
            let state = tables.tss.bytes@;
            &&& tables.gdt@[0] == 0
            &&& tables.gdt@[1] == 0x00af_9a00_0000_ffff
            &&& tables.gdt@[2] == 0x00cf_9200_0000_ffff
            &&& low / 0x1_0000 % 0x100_0000 + 0x100_0000 * (low / 0x100_0000_0000_0000)
                + 0x1_0000_0000 * high == tss_base
            &&& low % 0x1_0000 + 0x1_0000 * (low / 0x1_0000_0000_0000 % 16) == 103
            &&& low / 0x100_0000_0000 % 0x100 == 0x89
            &&& low / 0x10_0000_0000_0000 % 16 == 0
            &&& tables.gdt_limit == 5 * 8 - 1
            &&& tables.idt_limit == 256 * 16 - 1
            &&& state.len() == 104
            &&& number_at(state, 4) == kernel_stack_top
            &&& state[102] + 0x100 * state[103] == 104
            &&& tables.state.ist_guard_pages@ == guards
        }),
{
    law_task_state_descriptor(tables.gdt@[3], tables.gdt@[4], tss_base, 103);
}

/// The interrupt stacks take 27 pages from an arena that starts at a page, nine for each, of
/// which the lowest is its guard.
pub proof fn law_interrupt_stacks_take_27_pages(arena: ArenaView)
    requires
        0 < arena.next <= arena.end <= u64::MAX,
        arena.next % 4096 == 0,
    ensures
        ({
            let (rest, guards) = blocks(arena, ist_sizes());
            &&& guards is Some <==> arena.next + 27 * 4096 <= arena.end
            &&& guards is Some ==> {
                &&& rest.next == arena.next + 27 * 4096
                &&& (guards->0).len() == 3
                &&& (guards->0)[0] == arena.next
                &&& (guards->0)[1] == arena.next + 9 * 4096
                &&& (guards->0)[2] == arena.next + 18 * 4096
            }
        }),
{
    let counts = ist_sizes();
    law_blocks_follow_each_other(arena, counts);
    reveal_with_fuel(total, 4);
    assert(counts.take(0) =~= Seq::empty());
    assert(counts.take(1).drop_last() =~= counts.take(0));
    assert(counts.take(2).drop_last() =~= counts.take(1));
    assert(counts.drop_last() =~= counts.take(2));
    assert(counts.take(1).last() == 9 && counts.take(2).last() == 9 && counts.last() == 9);
    let guards = blocks(arena, counts).1;
    if guards is Some {
        assert((guards->0)[0] == arena.next + 4096 * total(counts.take(0)));
        assert((guards->0)[1] == arena.next + 4096 * total(counts.take(1)));
        assert((guards->0)[2] == arena.next + 4096 * total(counts.take(2)));
    }
}

} // verus!
