use citybound::bump_alloc::{BumpAllocator, BUMP_SIZE};

#[test]
fn test_bump_allocate() {
    let mut bump = BumpAllocator::new();
    assert_eq!(bump.used(), 0);

    let ptr1 = bump.allocate(1024, 8);
    assert!(ptr1.is_some());
    assert!(bump.used() >= 1024);

    let ptr2 = bump.allocate(512, 8);
    assert!(ptr2.is_some());

    let addr1 = ptr1.unwrap();
    let addr2 = ptr2.unwrap();
    assert!(addr2 >= addr1 + 1024);
}

#[test]
fn test_bump_reset() {
    let mut bump = BumpAllocator::new();
    bump.allocate(1024 * 1024, 8);
    assert!(bump.used() >= 1024 * 1024);

    bump.reset();
    assert_eq!(bump.used(), 0);

    assert!(bump.allocate(1024, 8).is_some());
}

#[test]
fn test_bump_alignment() {
    let mut bump = BumpAllocator::new();
    for align in &[4usize, 8, 16, 32, 64, 128, 256, 512, 1024, 4096] {
        let offset = bump.allocate(128, *align).unwrap();
        assert_eq!(offset % align, 0, "alignment {}", align);
    }
}

#[test]
fn test_bump_exhaustion() {
    let mut bump = BumpAllocator::new();
    let result = bump.allocate(BUMP_SIZE + 1, 8);
    assert!(result.is_none());
}

#[test]
fn test_bump_large_allocation() {
    let mut bump = BumpAllocator::new();
    let result = bump.allocate(BUMP_SIZE - 4096, 8);
    assert!(result.is_some());

    let result2 = bump.allocate(8192, 8);
    assert!(result2.is_none());
}

#[test]
fn bump_offsets_are_exact() {
    let mut bump = BumpAllocator::new();
    assert_eq!(bump.allocate(10, 8), Some(0));
    assert_eq!(bump.used(), 10);
    assert_eq!(bump.allocate(4, 16), Some(16));
    assert_eq!(bump.used(), 20);
    assert_eq!(bump.free(), BUMP_SIZE - 20);
}

#[test]
fn bump_successive_blocks_do_not_overlap() {
    let mut bump = BumpAllocator::new();
    let a = bump.allocate(100, 64).unwrap();
    let b = bump.allocate(7, 32).unwrap();
    assert!(b >= a + 100);
    assert_eq!(b % 32, 0);
}

#[test]
fn bump_failure_leaves_state_unchanged() {
    let mut bump = BumpAllocator::new();
    bump.allocate(100, 8);
    assert_eq!(bump.allocate(BUMP_SIZE, 8), None);
    assert_eq!(bump.used(), 100);
}

#[test]
fn blocks_since_the_last_reset_never_overlap() {
    let mut a = BumpAllocator::new();
    let reqs = [(10usize, 1usize), (3, 8), (100, 64), (1, 4096), (7, 2), (16 * 1024 * 1024, 16), (5, 16)];
    let mut blocks: Vec<(usize, usize)> = Vec::new();
    for (size, align) in reqs {
        if let Some(off) = a.allocate(size, align) {
            assert_eq!(off % align, 0);
            blocks.push((off, size));
        }
    }
    assert_eq!(blocks.len(), 6);
    for j in 0..blocks.len() {
        for k in j + 1..blocks.len() {
            assert!(blocks[j].0 + blocks[j].1 <= blocks[k].0);
        }
    }
    assert!(a.used() <= 16 * 1024 * 1024);
}
