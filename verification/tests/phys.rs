use hypewwisoww::phys::PhysMemory;

#[test]
fn words_are_read_back() {
    let mut memory = PhysMemory::new(0x1000, vec![1, 2, 3]).unwrap();
    assert_eq!(memory.read(0x1008), 2);
    memory.write(0x1008, 7);
    assert_eq!(memory.read(0x1000), 1);
    assert_eq!(memory.read(0x1008), 7);
    assert_eq!(memory.read(0x1010), 3);
    assert_eq!(memory.into_parts(), (0x1000, vec![1, 7, 3]));
}

#[test]
fn zeroed_page_leaves_its_neighbours() {
    let mut memory = PhysMemory::new(0x1000, vec![5; 3 * 512]).unwrap();
    memory.zero_page(0x2000);
    let (base, words) = memory.into_parts();
    assert_eq!(base, 0x1000);
    assert!(words[..512].iter().all(|&word| word == 5));
    assert!(words[512..1024].iter().all(|&word| word == 0));
    assert!(words[1024..].iter().all(|&word| word == 5));
}

#[test]
fn window_starts_at_a_page_and_does_not_wrap() {
    assert!(PhysMemory::new(0x1008, vec![0]).is_none());
    assert!(PhysMemory::new(0xffff_ffff_ffff_f000, vec![0; 512]).is_none());
    assert!(PhysMemory::new(0xffff_ffff_ffff_f000, vec![0; 511]).is_some());
}
