use bump_region::bump::{AllocError, BumpAllocator};

#[test]
fn new_allocator_has_handed_out_nothing() {
    let heap = BumpAllocator::new(4096, 256);
    assert_eq!(heap.base(), 4096);
    assert_eq!(heap.capacity(), 256);
    assert_eq!(heap.cursor(), 0);
}

#[test]
fn first_block_starts_at_the_base() {
    let mut heap = BumpAllocator::new(4096, 256);
    assert_eq!(heap.allocate(8), Ok(4096));
    assert_eq!(heap.cursor(), 8);
}

#[test]
fn ten_then_twenty() {
    let mut heap = BumpAllocator::new(0x1_0000, 1024);
    let first = heap.allocate(10).unwrap();
    let second = heap.allocate(20).unwrap();
    assert_eq!(second, first + 10);
    assert_eq!(first, 0x1_0000);
    assert_eq!(second, 0x1_000a);
    assert_eq!(heap.cursor(), 30);
}

#[test]
fn zero_bytes_twice_gives_the_same_address() {
    let mut heap = BumpAllocator::new(0x1_0000, 1024);
    let first = heap.allocate(0).unwrap();
    let second = heap.allocate(0).unwrap();
    assert_eq!(first, second);
    assert_eq!(first, 0x1_0000);
    assert_eq!(heap.cursor(), 0);
}

#[test]
fn zero_bytes_between_blocks_does_not_move_the_cursor() {
    let mut heap = BumpAllocator::new(100, 50);
    assert_eq!(heap.allocate(7), Ok(100));
    assert_eq!(heap.allocate(0), Ok(107));
    assert_eq!(heap.allocate(0), Ok(107));
    assert_eq!(heap.allocate(5), Ok(107));
    assert_eq!(heap.allocate(1), Ok(112));
    assert_eq!(heap.cursor(), 13);
}

#[test]
fn each_block_starts_where_the_one_before_ends() {
    let sizes: [usize; 8] = [1, 16, 0, 3, 128, 64, 0, 5];
    let mut heap = BumpAllocator::new(0x2000, 217);
    let mut addresses: Vec<usize> = Vec::new();
    for size in sizes {
        addresses.push(heap.allocate(size).unwrap());
    }
    assert_eq!(addresses, vec![0x2000, 0x2001, 0x2011, 0x2011, 0x2014, 0x2094, 0x20d4, 0x20d4]);
    for i in 0..sizes.len() - 1 {
        assert_eq!(addresses[i + 1], addresses[i] + sizes[i]);
    }
    assert_eq!(heap.cursor(), 217);
}

#[test]
fn blocks_do_not_overlap_and_stay_inside_the_region() {
    let sizes: [usize; 6] = [24, 1, 40, 8, 8, 19];
    let base: usize = 0x8000;
    let capacity: usize = 100;
    let mut heap = BumpAllocator::new(base, capacity);
    let mut blocks: Vec<(usize, usize)> = Vec::new();
    for size in sizes {
        let addr = heap.allocate(size).unwrap();
        blocks.push((addr, addr + size));
    }
    for i in 0..blocks.len() {
        assert!(base <= blocks[i].0);
        assert!(blocks[i].1 <= base + capacity);
        for j in i + 1..blocks.len() {
            assert!(blocks[i].1 <= blocks[j].0);
        }
    }
}

#[test]
fn the_whole_region_can_be_handed_out() {
    let mut heap = BumpAllocator::new(512, 64);
    assert_eq!(heap.allocate(64), Ok(512));
    assert_eq!(heap.cursor(), 64);
    assert_eq!(heap.allocate(1), Err(AllocError::OutOfCapacity));
    assert_eq!(heap.allocate(0), Ok(576));
    assert_eq!(heap.cursor(), 64);
}

#[test]
fn a_request_beyond_the_region_fails() {
    let mut heap = BumpAllocator::new(512, 64);
    assert_eq!(heap.allocate(65), Err(AllocError::OutOfCapacity));
    assert_eq!(heap.allocate(usize::MAX), Err(AllocError::OutOfCapacity));
}

#[test]
fn a_failed_request_changes_nothing() {
    let mut heap = BumpAllocator::new(512, 64);
    assert_eq!(heap.allocate(40), Ok(512));
    assert_eq!(heap.allocate(25), Err(AllocError::OutOfCapacity));
    assert_eq!(heap.cursor(), 40);
    assert_eq!(heap.base(), 512);
    assert_eq!(heap.capacity(), 64);
    assert_eq!(heap.allocate(24), Ok(552));
    assert_eq!(heap.cursor(), 64);
}

#[test]
fn an_empty_region_serves_only_empty_requests() {
    let mut heap = BumpAllocator::new(77, 0);
    assert_eq!(heap.allocate(0), Ok(77));
    assert_eq!(heap.allocate(1), Err(AllocError::OutOfCapacity));
    assert_eq!(heap.cursor(), 0);
}

#[test]
fn a_region_may_end_at_the_highest_address() {
    let base = usize::MAX - 16;
    let mut heap = BumpAllocator::new(base, 16);
    assert_eq!(heap.allocate(10), Ok(base));
    assert_eq!(heap.allocate(7), Err(AllocError::OutOfCapacity));
    assert_eq!(heap.allocate(6), Ok(base + 10));
    assert_eq!(heap.allocate(0), Ok(usize::MAX));
    assert_eq!(heap.cursor(), 16);
}

#[test]
fn a_region_may_span_the_address_space() {
    let mut heap = BumpAllocator::new(0, usize::MAX);
    assert_eq!(heap.allocate(usize::MAX - 1), Ok(0));
    assert_eq!(heap.allocate(2), Err(AllocError::OutOfCapacity));
    assert_eq!(heap.allocate(1), Ok(usize::MAX - 1));
    assert_eq!(heap.cursor(), usize::MAX);
}

#[test]
fn release_leaves_the_cursor_alone() {
    let mut heap = BumpAllocator::new(1000, 100);
    let first = heap.allocate(10).unwrap();
    let second = heap.allocate(20).unwrap();
    heap.release(first);
    assert_eq!(heap.cursor(), 30);
    heap.release(second);
    assert_eq!(heap.cursor(), 30);
    heap.release(first);
    assert_eq!(heap.cursor(), 30);
    assert_eq!(heap.base(), 1000);
    assert_eq!(heap.capacity(), 100);
}

#[test]
fn release_takes_any_address() {
    let mut heap = BumpAllocator::new(1000, 100);
    heap.release(0);
    heap.release(999);
    heap.release(1000);
    heap.release(1100);
    heap.release(usize::MAX);
    assert_eq!(heap.cursor(), 0);
    assert_eq!(heap.allocate(4), Ok(1000));
    heap.release(1002);
    heap.release(5000);
    assert_eq!(heap.cursor(), 4);
}

#[test]
fn released_memory_is_not_handed_out_again() {
    let mut heap = BumpAllocator::new(1000, 30);
    let first = heap.allocate(10).unwrap();
    heap.release(first);
    assert_eq!(heap.allocate(10), Ok(1010));
    heap.release(1010);
    heap.release(first);
    assert_eq!(heap.allocate(10), Ok(1020));
    assert_eq!(heap.allocate(10), Err(AllocError::OutOfCapacity));
}

#[test]
fn the_cursor_never_goes_back() {
    let requests: [usize; 7] = [3, 0, 50, 200, 9, 0, 2];
    let mut heap = BumpAllocator::new(64, 64);
    let mut before = heap.cursor();
    for size in requests {
        let served = heap.allocate(size).is_ok();
        heap.release(64);
        let after = heap.cursor();
        assert!(before <= after);
        assert_eq!(after, if served { before + size } else { before });
        before = after;
    }
    assert_eq!(heap.cursor(), 64);
}

#[test]
fn out_of_capacity_is_its_own_value() {
    let e = AllocError::OutOfCapacity;
    let copy = e;
    assert_eq!(e, copy);
    assert_eq!(format!("{:?}", e), "OutOfCapacity");
}
