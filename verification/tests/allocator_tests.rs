use bump_alloc::align::align_up;
use bump_alloc::allocator::{AllocError, BumpAllocator};

#[test]
fn align_up_values() {
    assert_eq!(align_up(0x1004, 8), 0x1008);
    assert_eq!(align_up(0, 16), 0);
    assert_eq!(align_up(16, 16), 16);
    assert_eq!(align_up(5, 1), 5);
    assert_eq!(align_up(7, 4), 8);
    assert_eq!(align_up(9, 4), 12);
}

#[test]
fn concrete_scenario() {
    // Arena of 16 bytes at address 0x1000.
    let mut a = BumpAllocator::new(0x1000, 16);
    assert_eq!(a.heap_start, 0x1000);
    assert_eq!(a.heap_end, 0x1010);
    assert_eq!(a.next, 0x1000);

    assert_eq!(a.allocate(4, 4), Ok(0x1000));
    assert_eq!(a.next, 0x1004);

    // Rounds up from 0x1004 to 0x1008.
    assert_eq!(a.allocate(8, 8), Ok(0x1008));
    assert_eq!(a.next, 0x1010);

    // 0x1010 + 1 > 0x1010: the arena is spent.
    assert_eq!(a.allocate(1, 1), Err(AllocError::AllocationExhausted));
    assert_eq!(a.next, 0x1010);
}

#[test]
fn exhaustion_boundary() {
    // A request for the whole arena succeeds and returns its base...
    let mut a = BumpAllocator::new(0x2000, 32);
    assert_eq!(a.allocate(32, 1), Ok(0x2000));
    // ...and the very next byte is already out of reach.
    assert_eq!(a.allocate(1, 1), Err(AllocError::AllocationExhausted));
}

#[test]
fn invalid_alignment_is_rejected() {
    let mut a = BumpAllocator::new(0x1000, 64);
    assert_eq!(a.allocate(4, 0), Err(AllocError::InvalidAlignment));
    assert_eq!(a.allocate(4, 3), Err(AllocError::InvalidAlignment));
    assert_eq!(a.allocate(4, 6), Err(AllocError::InvalidAlignment));
    assert_eq!(a.allocate(4, usize::MAX), Err(AllocError::InvalidAlignment));
    // A rejected request has no side effect.
    assert_eq!(a.next, 0x1000);
    assert_eq!(a.allocate(4, 4), Ok(0x1000));
}

#[test]
fn dealloc_is_noop() {
    let mut with_dealloc = BumpAllocator::new(0x3000, 64);
    let mut without = BumpAllocator::new(0x3000, 64);

    let a0 = with_dealloc.allocate(5, 1).unwrap();
    with_dealloc.dealloc(a0, 5, 1);
    with_dealloc.dealloc(a0, 5, 1);
    with_dealloc.dealloc(a0, 5, 1);
    assert_eq!(with_dealloc.next, without.allocate(5, 1).map(|a| a + 5).unwrap());

    // A later allocation is unaffected by any number of dealloc calls.
    assert_eq!(with_dealloc.allocate(8, 8), without.allocate(8, 8));
    assert_eq!(with_dealloc.next, without.next);
}

#[test]
fn rejected_request_is_idempotent() {
    let mut a = BumpAllocator::new(100, 8);
    assert_eq!(a.allocate(16, 1), Err(AllocError::AllocationExhausted));
    assert_eq!(a.next, 100);
    // Repeating the exact same failing request gives the same failure.
    assert_eq!(a.allocate(16, 1), Err(AllocError::AllocationExhausted));
    assert_eq!(a.next, 100);
    // The arena itself is still untouched and usable.
    assert_eq!(a.allocate(8, 1), Ok(100));
}

#[test]
fn granted_blocks_are_aligned_monotone_and_disjoint() {
    let mut a = BumpAllocator::new(0x100, 64);
    let requests: [(usize, usize); 4] = [(1, 1), (1, 4), (3, 2), (8, 8)];
    let mut granted: Vec<(usize, usize)> = Vec::new();
    for &(size, align) in requests.iter() {
        let addr = a.allocate(size, align).unwrap();
        assert_eq!(addr % align, 0);
        granted.push((addr, size));
    }
    for w in granted.windows(2) {
        // Each block starts at or past the end of the previous one.
        assert!(w[0].0 + w[0].1 <= w[1].0);
    }
}

#[test]
fn zero_size_requests() {
    let mut a = BumpAllocator::new(0x1001, 7);
    // A zero-byte request still aligns the cursor and succeeds.
    assert_eq!(a.allocate(0, 4), Ok(0x1004));
    assert_eq!(a.next, 0x1004);

    // An empty arena still grants empty requests.
    let mut empty = BumpAllocator::new(0x5000, 0);
    assert_eq!(empty.allocate(0, 1), Ok(0x5000));
    assert_eq!(empty.allocate(1, 1), Err(AllocError::AllocationExhausted));
}

#[test]
fn top_of_address_space() {
    let mut a = BumpAllocator::new(usize::MAX - 16, 16);
    assert_eq!(a.heap_end, usize::MAX);
    // Aligning the cursor to a huge power of two would leave the address
    // space altogether.
    assert_eq!(
        a.allocate(1, 1usize << 62),
        Err(AllocError::AllocationExhausted)
    );
    // One byte more than the arena holds is refused...
    assert_eq!(a.allocate(17, 1), Err(AllocError::AllocationExhausted));
    // ...but the exact remainder is granted.
    assert_eq!(a.allocate(16, 1), Ok(usize::MAX - 16));
    assert_eq!(a.next, usize::MAX);
}
