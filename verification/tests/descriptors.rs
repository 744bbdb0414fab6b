use hypewwisoww::arch::x86_64::descriptors::{
    exception_dispatch, install, stack_top, tss_descriptor, DescriptorError, ExceptionFrame,
    IdtEntry, TaskStateSegment,
};
use hypewwisoww::boot_alloc::BootArena;
use hypewwisoww::serial::LogRecord;

fn arena(pages: u64) -> BootArena {
    BootArena::new(0x10_0000, pages * 4096).unwrap_or_else(|error| panic!("{error:?}"))
}

fn word(segment: &TaskStateSegment, offset: usize) -> u64 {
    let mut bytes = [0; 8];
    bytes.copy_from_slice(&segment.bytes[offset..offset + 8]);
    u64::from_le_bytes(bytes)
}

fn handler(entry: &IdtEntry) -> u64 {
    u64::from(entry.offset_low)
        | u64::from(entry.offset_middle) << 16
        | u64::from(entry.offset_high) << 32
}

#[test]
fn missing_gate_is_all_zeros() {
    let entry = IdtEntry::missing();
    assert_eq!(handler(&entry), 0);
    assert_eq!((entry.selector, entry.ist, entry.attributes, entry.reserved), (0, 0, 0, 0));
}

#[test]
fn gate_leads_to_its_handler() {
    let entry = IdtEntry::interrupt_gate(0x1122_3344_5566_7788, 2);
    assert_eq!(
        entry,
        IdtEntry {
            offset_low: 0x7788,
            selector: 0x08,
            ist: 2,
            attributes: 0x8e,
            offset_middle: 0x5566,
            offset_high: 0x1122_3344,
            reserved: 0,
        }
    );
    for address in [0, 0xffff, 0x1_0000, 0xffff_ffff_8000_1234, u64::MAX] {
        assert_eq!(handler(&IdtEntry::interrupt_gate(address, 0)), address);
    }
}

#[test]
fn interrupt_stack_of_a_gate_has_three_bits() {
    assert_eq!(IdtEntry::interrupt_gate(0, 0xff).ist, 7);
    assert_eq!(IdtEntry::interrupt_gate(0, 8).ist, 0);
}

#[test]
fn task_state_holds_its_stacks() {
    let mut segment = TaskStateSegment::empty();
    assert!(segment.bytes.iter().all(|&byte| byte == 0));
    segment.set_rsp0(0x0102_0304_0506_0708);
    assert_eq!(segment.bytes[4..12], [8, 7, 6, 5, 4, 3, 2, 1]);
    for index in 0..7 {
        segment.set_ist(index, 0x1000 + index as u64);
    }
    segment.disable_io_bitmap();
    assert_eq!(word(&segment, 4), 0x0102_0304_0506_0708);
    for index in 0..7 {
        assert_eq!(word(&segment, 36 + 8 * index), 0x1000 + index as u64);
    }
    assert_eq!(segment.bytes[102..], [104, 0]);
    assert_eq!(segment.bytes[..4], [0; 4]);
    assert_eq!(segment.bytes[12..36], [0; 24]);
    assert_eq!(segment.bytes[92..102], [0; 10]);
}

#[test]
fn task_descriptor_has_base_and_limit() {
    assert_eq!(
        tss_descriptor(0x1122_3344_5566_7788, 103),
        (0x5500_8966_7788_0067, 0x1122_3344)
    );
    assert_eq!(tss_descriptor(0, 0xf_ffff), (0x000f_8900_0000_ffff, 0));
    assert_eq!(tss_descriptor(0, 0xfff0_0001), (0x0000_8900_0000_0001, 0));
}

#[test]
fn stack_comes_with_a_guard() {
    let mut arena = arena(10);
    assert_eq!(stack_top(&mut arena), Ok((0x10_9000, 0x10_0000)));
    assert_eq!(stack_top(&mut arena), Err(DescriptorError::ArenaExhausted));
    assert_eq!(arena.remaining_bytes(), 0x1000);
}

#[test]
fn host_tables_are_built() {
    let mut arena = arena(27);
    let mut stubs = [0; 32];
    for (vector, stub) in stubs.iter_mut().enumerate() {
        *stub = 0xffff_8000_0000_0000 + vector as u64 * 16;
    }
    let tables = install(&mut arena, 0x7_0000, 0x1234_5678, &stubs, 0xdead).unwrap();
    assert_eq!(arena.remaining_bytes(), 0);
    assert_eq!(tables.state.ist_guard_pages, [0x10_0000, 0x10_9000, 0x11_2000]);
    assert_eq!(word(&tables.tss, 4), 0x7_0000);
    assert_eq!(word(&tables.tss, 36), 0x10_9000);
    assert_eq!(word(&tables.tss, 44), 0x11_2000);
    assert_eq!(word(&tables.tss, 52), 0x11_b000);
    assert_eq!(word(&tables.tss, 60), 0);
    assert_eq!(tables.tss.bytes[102..], [104, 0]);
    let (low, high) = tss_descriptor(0x1234_5678, 103);
    assert_eq!(tables.gdt, [0, 0x00af_9a00_0000_ffff, 0x00cf_9200_0000_ffff, low, high]);
    assert_eq!((tables.gdt_limit, tables.idt_limit), (39, 4095));
    assert_eq!(tables.idt.len(), 256);
    for (vector, entry) in tables.idt.iter().enumerate() {
        let expected = if vector < 32 { stubs[vector] } else { 0xdead };
        assert_eq!(handler(entry), expected);
        let stack = match vector {
            2 => 2,
            8 => 1,
            18 => 3,
            _ => 0,
        };
        assert_eq!(entry.ist, stack);
        assert_eq!((entry.selector, entry.attributes), (0x08, 0x8e));
    }
}

#[test]
fn host_tables_need_three_stacks() {
    for pages in [1, 9, 26] {
        let mut arena = arena(pages);
        assert_eq!(
            install(&mut arena, 0, 0, &[0; 32], 0).err(),
            Some(DescriptorError::ArenaExhausted)
        );
        assert_eq!(arena.remaining_bytes(), pages % 9 * 4096);
    }
}

#[test]
fn exception_is_reported() {
    let frame = ExceptionFrame {
        r15: 0,
        r14: 0,
        r13: 0,
        r12: 0,
        r11: 0,
        r10: 0,
        r9: 0,
        r8: 0,
        rdi: 0,
        rsi: 0,
        rbp: 0,
        rdx: 0,
        rcx: 0,
        rbx: 0,
        rax: 0,
        vector: 14,
        error_code: 2,
        rip: 0x4444,
        cs: 8,
        rflags: 0x46,
    };
    assert_eq!(
        exception_dispatch(Some(frame), 0x9000),
        vec![
            LogRecord::Line("hypewwisoww: host exception"),
            LogRecord::Hex("hypewwisoww: vector=", 14),
            LogRecord::Hex("hypewwisoww: error=", 2),
            LogRecord::Hex("hypewwisoww: rip=", 0x4444),
            LogRecord::Hex("hypewwisoww: rflags=", 0x46),
            LogRecord::Hex("hypewwisoww: cr2=", 0x9000),
        ]
    );
}

#[test]
fn exception_without_a_frame_is_reported() {
    assert_eq!(
        exception_dispatch(None, 0x9000),
        vec![
            LogRecord::Line("hypewwisoww: host exception"),
            LogRecord::Line("hypewwisoww: missing exception frame"),
        ]
    );
}

#[test]
fn descriptor_error_has_its_number() {
    assert_eq!(DescriptorError::ArenaExhausted.code(), 0);
}
