use bump_alloc::bump::{AllocError, BumpAllocator};

const HEAP_START: usize = 0x2000_0000;
const HEAP_SIZE: usize = 256;

#[test]
fn new_allocator_is_empty() {
    let heap = BumpAllocator::new(HEAP_START, HEAP_SIZE);
    assert_eq!(heap.start(), HEAP_START);
    assert_eq!(heap.end(), HEAP_START + HEAP_SIZE);
    assert_eq!(heap.cursor(), HEAP_START);
    assert_eq!(heap.capacity(), HEAP_SIZE);
    assert_eq!(heap.used(), 0);
    assert_eq!(heap.remaining(), HEAP_SIZE);
}

#[test]
fn first_block_starts_at_the_arena_start() {
    let mut heap = BumpAllocator::new(HEAP_START, HEAP_SIZE);
    assert_eq!(heap.allocate(8, 4), Ok(HEAP_START));
    assert_eq!(heap.cursor(), HEAP_START + 8);
    assert_eq!(heap.used(), 8);
    assert_eq!(heap.remaining(), HEAP_SIZE - 8);
}

#[test]
fn blocks_follow_one_another() {
    let mut heap = BumpAllocator::new(HEAP_START, HEAP_SIZE);
    assert_eq!(heap.allocate(8, 4), Ok(HEAP_START));
    assert_eq!(heap.allocate(1, 1), Ok(HEAP_START + 8));
    assert_eq!(heap.allocate(16, 1), Ok(HEAP_START + 9));
    assert_eq!(heap.cursor(), HEAP_START + 25);
}

#[test]
fn cursor_is_rounded_up_before_the_block() {
    let mut heap = BumpAllocator::new(HEAP_START, HEAP_SIZE);
    assert_eq!(heap.allocate(1, 1), Ok(HEAP_START));
    assert_eq!(heap.allocate(4, 4), Ok(HEAP_START + 4));
    assert_eq!(heap.cursor(), HEAP_START + 8);
    assert_eq!(heap.allocate(1, 1), Ok(HEAP_START + 8));
    assert_eq!(heap.allocate(8, 16), Ok(HEAP_START + 16));
    assert_eq!(heap.cursor(), HEAP_START + 24);
    assert_eq!(heap.used(), 24);
}

#[test]
fn unaligned_arena_start_is_padded() {
    let mut heap = BumpAllocator::new(3, 61);
    assert_eq!(heap.allocate(4, 8), Ok(8));
    assert_eq!(heap.cursor(), 12);
    assert_eq!(heap.allocate(2, 3), Ok(12));
    assert_eq!(heap.allocate(2, 3), Ok(15));
    assert_eq!(heap.allocate(1, 10), Ok(20));
    assert_eq!(heap.cursor(), 21);
}

#[test]
fn every_address_is_aligned() {
    let mut heap = BumpAllocator::new(HEAP_START + 1, HEAP_SIZE);
    let aligns: [usize; 8] = [1, 2, 4, 8, 16, 3, 5, 32];
    for align in aligns {
        let addr = heap.allocate(3, align).unwrap();
        assert_eq!(addr % align, 0);
    }
}

#[test]
fn too_large_a_request_fails_and_leaves_the_cursor() {
    let mut heap = BumpAllocator::new(HEAP_START, HEAP_SIZE);
    assert_eq!(heap.allocate(16, 8), Ok(HEAP_START));
    assert_eq!(heap.allocate(HEAP_SIZE, 1), Err(AllocError::OutOfMemory));
    assert_eq!(heap.cursor(), HEAP_START + 16);
    assert_eq!(heap.remaining(), HEAP_SIZE - 16);
    assert_eq!(heap.allocate(HEAP_SIZE - 15, 1), Err(AllocError::OutOfMemory));
    assert_eq!(heap.cursor(), HEAP_START + 16);
    assert_eq!(heap.allocate(8, 8), Ok(HEAP_START + 16));
}

#[test]
fn padding_counts_against_the_space_left() {
    let mut heap = BumpAllocator::new(HEAP_START, 16);
    assert_eq!(heap.allocate(1, 1), Ok(HEAP_START));
    assert_eq!(heap.allocate(9, 8), Err(AllocError::OutOfMemory));
    assert_eq!(heap.cursor(), HEAP_START + 1);
    assert_eq!(heap.allocate(8, 8), Ok(HEAP_START + 8));
    assert_eq!(heap.cursor(), HEAP_START + 16);
}

#[test]
fn arena_can_be_filled_to_the_last_byte() {
    let mut heap = BumpAllocator::new(HEAP_START, HEAP_SIZE);
    assert_eq!(heap.allocate(HEAP_SIZE, 1), Ok(HEAP_START));
    assert_eq!(heap.cursor(), HEAP_START + HEAP_SIZE);
    assert_eq!(heap.remaining(), 0);
    assert_eq!(heap.allocate(1, 1), Err(AllocError::OutOfMemory));
    assert_eq!(heap.cursor(), HEAP_START + HEAP_SIZE);
}

#[test]
fn empty_block_fits_even_at_the_end() {
    let mut heap = BumpAllocator::new(HEAP_START, 8);
    assert_eq!(heap.allocate(8, 1), Ok(HEAP_START));
    assert_eq!(heap.allocate(0, 1), Ok(HEAP_START + 8));
    assert_eq!(heap.allocate(0, 8), Ok(HEAP_START + 8));
    assert_eq!(heap.allocate(0, 16), Err(AllocError::OutOfMemory));
    assert_eq!(heap.cursor(), HEAP_START + 8);
}

#[test]
fn empty_arena_grants_only_empty_blocks() {
    let mut heap = BumpAllocator::new(HEAP_START, 0);
    assert_eq!(heap.capacity(), 0);
    assert_eq!(heap.allocate(1, 1), Err(AllocError::OutOfMemory));
    assert_eq!(heap.allocate(0, 1), Ok(HEAP_START));
    assert_eq!(heap.cursor(), HEAP_START);
}

#[test]
fn sizes_beyond_the_address_space_fail() {
    let mut heap = BumpAllocator::new(HEAP_START, HEAP_SIZE);
    assert_eq!(heap.allocate(4, 4), Ok(HEAP_START));
    assert_eq!(heap.allocate(usize::MAX, 1), Err(AllocError::OutOfMemory));
    assert_eq!(heap.allocate(usize::MAX - HEAP_START, 1), Err(AllocError::OutOfMemory));
    assert_eq!(heap.cursor(), HEAP_START + 4);
}

#[test]
fn alignment_beyond_the_address_space_fails() {
    let mut heap = BumpAllocator::new(usize::MAX - 10, 10);
    assert_eq!(heap.end(), usize::MAX);
    assert_eq!(heap.allocate(1, 64), Err(AllocError::OutOfMemory));
    assert_eq!(heap.cursor(), usize::MAX - 10);
    assert_eq!(heap.allocate(10, 1), Ok(usize::MAX - 10));
    assert_eq!(heap.cursor(), usize::MAX);
    assert_eq!(heap.allocate(0, 2), Err(AllocError::OutOfMemory));
}

#[test]
fn deallocate_leaves_the_allocator_alone() {
    let mut heap = BumpAllocator::new(HEAP_START, HEAP_SIZE);
    let first = heap.allocate(32, 8).unwrap();
    heap.deallocate(first, 32);
    assert_eq!(heap.start(), HEAP_START);
    assert_eq!(heap.end(), HEAP_START + HEAP_SIZE);
    assert_eq!(heap.cursor(), HEAP_START + 32);
    assert_eq!(heap.used(), 32);
    assert_eq!(heap.remaining(), HEAP_SIZE - 32);
}

#[test]
fn deallocate_does_not_change_later_allocations() {
    let mut plain = BumpAllocator::new(HEAP_START, HEAP_SIZE);
    let mut freeing = BumpAllocator::new(HEAP_START, HEAP_SIZE);
    let requests: [(usize, usize); 7] =
        [(8, 4), (3, 1), (16, 8), (200, 2), (1, 1), (250, 1), (24, 16)];
    for (size, align) in requests {
        let expected = plain.allocate(size, align);
        let got = freeing.allocate(size, align);
        assert_eq!(got, expected);
        assert_eq!(freeing.cursor(), plain.cursor());
        if let Ok(addr) = got {
            freeing.deallocate(addr, size);
        }
        freeing.deallocate(HEAP_START, HEAP_SIZE);
        assert_eq!(freeing.cursor(), plain.cursor());
    }
}

#[test]
fn deallocate_accepts_addresses_it_never_handed_out() {
    let mut heap = BumpAllocator::new(HEAP_START, HEAP_SIZE);
    heap.deallocate(0, 0);
    heap.deallocate(usize::MAX, usize::MAX);
    assert_eq!(heap.cursor(), HEAP_START);
    assert_eq!(heap.allocate(4, 4), Ok(HEAP_START));
}

#[test]
fn blocks_lie_inside_the_arena_and_do_not_overlap() {
    let mut heap = BumpAllocator::new(HEAP_START + 5, HEAP_SIZE);
    let requests: [(usize, usize); 9] =
        [(8, 4), (1, 1), (12, 8), (0, 2), (7, 3), (32, 32), (5, 1), (64, 16), (2, 2)];
    let mut blocks: Vec<(usize, usize)> = Vec::new();
    for (size, align) in requests {
        let addr = heap.allocate(size, align).unwrap();
        assert_eq!(addr % align, 0);
        assert!(heap.start() <= addr);
        assert!(addr + size <= heap.end());
        for (other, other_size) in &blocks {
            assert!(other + other_size <= addr);
        }
        blocks.push((addr, size));
    }
    assert_eq!(heap.cursor(), blocks[8].0 + blocks[8].1);
}

#[test]
fn cursor_never_moves_backwards() {
    let mut heap = BumpAllocator::new(HEAP_START, 64);
    let requests: [(usize, usize); 8] =
        [(8, 8), (100, 1), (8, 8), (0, 1), (40, 16), (20, 4), (16, 16), (1, 1)];
    let mut last = heap.cursor();
    for (size, align) in requests {
        let outcome = heap.allocate(size, align);
        let now = heap.cursor();
        assert!(last <= now);
        assert!(heap.start() <= now && now <= heap.end());
        if outcome.is_err() {
            assert_eq!(now, last);
        }
        last = now;
    }
}

#[test]
fn growing_a_vector_of_words() {
    let mut heap = BumpAllocator::new(HEAP_START, HEAP_SIZE);
    let two_words = heap.allocate(8, 4).unwrap();
    assert_eq!(two_words, HEAP_START);
    let four_words = heap.allocate(16, 4).unwrap();
    assert_eq!(four_words, HEAP_START + 8);
    heap.deallocate(two_words, 8);
    assert_eq!(heap.used(), 24);
    assert_eq!(heap.remaining(), HEAP_SIZE - 24);
}

#[test]
fn error_is_out_of_memory() {
    let mut heap = BumpAllocator::new(0, 4);
    let outcome = heap.allocate(5, 1);
    assert!(matches!(outcome, Err(AllocError::OutOfMemory)));
    assert_eq!(format!("{:?}", AllocError::OutOfMemory), "OutOfMemory");
}
