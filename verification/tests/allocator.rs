use symstate::allocator::{Alloc, ALLOC_START};

#[test]
fn first_allocation_is_at_the_start() {
    let mut alloc = Alloc::new();
    assert_eq!(alloc.allocate(64), ALLOC_START);
}

#[test]
fn allocations_take_whole_words() {
    let mut alloc = Alloc::new();
    let a = alloc.allocate(1);
    let b = alloc.allocate(64);
    let c = alloc.allocate(65);
    let d = alloc.allocate(128);
    let e = alloc.allocate(8);
    assert_eq!(b - a, 8);
    assert_eq!(c - b, 8);
    assert_eq!(d - c, 16);
    assert_eq!(e - d, 16);
}

#[test]
fn zero_size_allocation_takes_one_word() {
    let mut alloc = Alloc::new();
    let a = alloc.allocate(0);
    let b = alloc.allocate(0);
    assert_eq!(b - a, 8);
    assert_eq!(alloc.get_allocation_size(a), Some(0));
}

#[test]
fn addresses_are_distinct_and_aligned() {
    let mut alloc = Alloc::new();
    let sizes: Vec<u64> = vec![3, 64, 1, 200, 0, 4096, 65, 7];
    let mut addrs: Vec<u64> = Vec::new();
    for s in &sizes {
        addrs.push(alloc.allocate(*s));
    }
    for i in 0..addrs.len() {
        assert_eq!(addrs[i] % 8, 0);
        for j in 0..i {
            assert_ne!(addrs[i], addrs[j]);
        }
    }
}

#[test]
fn allocation_sizes_are_recorded() {
    let mut alloc = Alloc::new();
    let a = alloc.allocate(24);
    let b = alloc.allocate(300);
    assert_eq!(alloc.get_allocation_size(a), Some(24));
    assert_eq!(alloc.get_allocation_size(b), Some(300));
    assert_eq!(alloc.get_allocation_size(a + 1), None);
    assert_eq!(alloc.get_allocation_size(0), None);
    assert_eq!(alloc.get_allocation_size(b + 4096), None);
}

#[test]
fn allocator_knows_when_the_space_is_used_up() {
    let mut alloc = Alloc::new();
    let mut count = 0;
    while alloc.can_alloc(u64::MAX) {
        alloc.allocate(u64::MAX);
        count += 1;
        assert!(count < 100);
    }
    assert_eq!(count, 7);
    assert!(alloc.can_alloc(64));
}

#[test]
fn duplicate_allocator_goes_on_from_the_same_state() {
    let mut alloc = Alloc::new();
    let a = alloc.allocate(64);
    let mut copy = alloc.duplicate();
    assert_eq!(copy.get_allocation_size(a), Some(64));
    assert_eq!(copy.allocate(8), alloc.allocate(16));
}
