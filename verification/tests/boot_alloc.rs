use hypewwisoww::boot_alloc::{BootAllocError, BootArena};

fn arena(base: u64, length: u64) -> BootArena {
    BootArena::new(base, length).unwrap_or_else(|error| panic!("{error:?}"))
}

fn refused(base: u64, length: u64) -> BootAllocError {
    match BootArena::new(base, length) {
        Ok(_) => panic!("the range was accepted"),
        Err(error) => error,
    }
}

#[test]
fn arena_hands_out_pages_in_order() {
    let mut arena = arena(0x10_0000, 0x4000);
    assert_eq!(arena.allocate_pages(1), Some(0x10_0000));
    assert_eq!(arena.allocate_pages(2), Some(0x10_1000));
    assert_eq!(arena.remaining_bytes(), 0x1000);
    assert_eq!(arena.allocate_pages(1), Some(0x10_3000));
    assert_eq!(arena.remaining_bytes(), 0);
    assert_eq!(arena.allocate_pages(1), None);
}

#[test]
fn failed_request_leaves_the_arena_as_it_was() {
    let mut arena = arena(0x10_0000, 0x4000);
    assert_eq!(arena.allocate_pages(5), None);
    assert_eq!(arena.allocate_pages(0), None);
    assert_eq!(arena.allocate(64, 48), None);
    assert_eq!(arena.allocate(64, 0), None);
    assert_eq!(arena.allocate(0, 8), None);
    assert_eq!(arena.remaining_bytes(), 0x4000);
    assert_eq!(arena.allocate_pages(4), Some(0x10_0000));
}

#[test]
fn blocks_are_aligned_and_apart() {
    let mut arena = arena(0x10_0000, 0x4000);
    assert_eq!(arena.allocate(10, 1), Some(0x10_0000));
    assert_eq!(arena.allocate(3, 8), Some(0x10_0010));
    assert_eq!(arena.allocate(1, 1), Some(0x10_0013));
    assert_eq!(arena.allocate(32, 64), Some(0x10_0040));
    assert_eq!(arena.allocate_pages(1), Some(0x10_1000));
    assert_eq!(arena.remaining_bytes(), 0x2000);
}

#[test]
fn page_counts_beyond_the_address_space_are_refused() {
    let mut arena = arena(0x1000, 0x1000);
    assert_eq!(arena.allocate_pages(usize::MAX), None);
    assert_eq!(arena.allocate(usize::MAX, 4096), None);
    assert_eq!(arena.remaining_bytes(), 0x1000);
}

#[test]
fn alignment_beyond_the_end_is_refused() {
    let mut arena = arena(0xffff_ffff_ffff_e000, 0x1000);
    assert_eq!(arena.allocate(1, 1 << 40), None);
    assert_eq!(arena.allocate(1, 1), Some(0xffff_ffff_ffff_e000));
}

#[test]
fn block_at_address_zero_is_used_up_but_not_handed_out() {
    let mut arena = arena(0, 0x3000);
    assert_eq!(arena.allocate_pages(1), None);
    assert_eq!(arena.remaining_bytes(), 0x2000);
    assert_eq!(arena.allocate_pages(1), Some(0x1000));
}

#[test]
fn empty_range_is_no_arena() {
    assert_eq!(refused(0x1000, 0), BootAllocError::Empty);
    assert_eq!(refused(0x1001, 0), BootAllocError::Empty);
}

#[test]
fn range_off_the_pages_is_no_arena() {
    assert_eq!(refused(0x1008, 0x1000), BootAllocError::Misaligned);
    assert_eq!(refused(0x1000, 0x1008), BootAllocError::Misaligned);
}

#[test]
fn range_past_the_address_space_is_no_arena() {
    assert_eq!(refused(0xffff_ffff_ffff_f000, 0x1000), BootAllocError::Overflow);
    assert_eq!(refused(0xffff_ffff_ffff_f000, 0x2000), BootAllocError::Overflow);
}

#[test]
fn arena_errors_have_their_numbers() {
    assert_eq!(BootAllocError::Empty.code(), 0);
    assert_eq!(BootAllocError::Misaligned.code(), 1);
    assert_eq!(BootAllocError::Overflow.code(), 2);
}
