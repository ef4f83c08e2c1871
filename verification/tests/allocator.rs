use rustos::allocator::bin::{map_to_bin, power_of_two, size_for_bin, Allocator, MAX_BINS};
use rustos::allocator::util::{align_down, align_up};

#[test]
fn bins_are_ceil_log2_minus_three() {
    assert_eq!(map_to_bin(1), 0);
    assert_eq!(map_to_bin(8), 0);
    assert_eq!(map_to_bin(9), 1);
    assert_eq!(map_to_bin(16), 1);
    assert_eq!(map_to_bin(17), 2);
    assert_eq!(map_to_bin(64), 3);
    assert_eq!(map_to_bin(4096), 9);
    assert_eq!(map_to_bin(65536), 13);
    assert_eq!(map_to_bin(1 << 32), 29);
    assert_eq!(map_to_bin((1 << 32) + 1), 30);
    assert_eq!(map_to_bin(1 << 63), 60);
    assert_eq!(map_to_bin(u64::MAX), 61);
}

#[test]
fn bin_sizes_are_powers_of_two() {
    assert_eq!(size_for_bin(0), 8);
    assert_eq!(size_for_bin(1), 16);
    assert_eq!(size_for_bin(13), 65536);
    assert_eq!(size_for_bin(29), 1 << 32);
    assert_eq!(size_for_bin(31), 1 << 34);
}

#[test]
fn powers_of_two_are_told_apart() {
    assert!(power_of_two(1));
    assert!(power_of_two(2));
    assert!(power_of_two(1 << 63));
    assert!(!power_of_two(0));
    assert!(!power_of_two(3));
    assert!(!power_of_two(6));
    assert!(!power_of_two(u64::MAX));
}

#[test]
fn alignment_rounds_to_multiples() {
    assert_eq!(align_down(0x1234, 0x100), 0x1200);
    assert_eq!(align_down(0x1200, 0x100), 0x1200);
    assert_eq!(align_up(0x1234, 0x100), 0x1300);
    assert_eq!(align_up(0x1200, 0x100), 0x1200);
    assert_eq!(align_up(1, 1), 1);
}

#[test]
fn new_allocator_has_empty_lists() {
    let a = Allocator::new(0x1000, 0x2000);
    assert_eq!(a.current(), 0x1000);
    assert_eq!(a.end(), 0x2000);
    for bin in 0..MAX_BINS {
        assert!(a.free_list(bin).is_empty());
    }
}

#[test]
fn first_block_is_carved_at_the_start() {
    let mut a = Allocator::new(0x1000, 0x2000);
    assert_eq!(a.allocate(16, 16), Some(0x1000));
    assert_eq!(a.current(), 0x1010);
    assert_eq!(a.end(), 0x2000);
}

#[test]
fn block_is_as_large_as_its_class() {
    let mut a = Allocator::new(0x1000, 0x9000);
    assert_eq!(a.allocate(9, 1), Some(0x1000));
    assert_eq!(a.current(), 0x1010);
    assert_eq!(a.allocate(1, 1), Some(0x1010));
    assert_eq!(a.current(), 0x1018);
    assert_eq!(a.allocate(100, 4), Some(0x1018));
    assert_eq!(a.current(), 0x1098);
}

#[test]
fn new_block_is_aligned_up() {
    let mut a = Allocator::new(0x1001, 0x9000);
    assert_eq!(a.allocate(8, 0x100), Some(0x1100));
    assert_eq!(a.current(), 0x1200);
}

#[test]
fn alignment_alone_sets_the_class() {
    let mut a = Allocator::new(0x1000, 0x9000);
    assert_eq!(a.allocate(1, 64), Some(0x1000));
    assert_eq!(a.current(), 0x1040);
    a.dealloc(0x1000, 1, 64);
    assert_eq!(a.free_list(3), vec![0x1000]);
}

#[test]
fn alignment_equal_to_size_uses_the_class_of_the_size() {
    assert_eq!(map_to_bin(16), 1);
    let mut a = Allocator::new(0x1000, 0x9000);
    let with_align = a.allocate(16, 16).unwrap();
    let without = a.allocate(16, 1).unwrap();
    a.dealloc(with_align, 16, 16);
    a.dealloc(without, 16, 1);
    assert_eq!(a.free_list(1), vec![without, with_align]);
}

#[test]
fn freed_block_is_reused_before_new_memory() {
    let mut a = Allocator::new(0x1000, 0x2000);
    let first = a.allocate(64, 64).unwrap();
    let second = a.allocate(64, 64).unwrap();
    assert_eq!(first, 0x1000);
    assert_eq!(second, 0x1040);
    let mark = a.current();
    a.dealloc(first, 64, 64);
    assert_eq!(a.free_list(3), vec![first]);
    assert_eq!(a.allocate(64, 64), Some(first));
    assert_eq!(a.current(), mark);
    assert_eq!(a.free_list(3), Vec::<u64>::new());
}

#[test]
fn block_freed_last_is_reused_first() {
    let mut a = Allocator::new(0x1000, 0x2000);
    let first = a.allocate(32, 8).unwrap();
    let second = a.allocate(32, 8).unwrap();
    a.dealloc(first, 32, 8);
    a.dealloc(second, 32, 8);
    assert_eq!(a.free_list(2), vec![second, first]);
    assert_eq!(a.allocate(32, 8), Some(second));
    assert_eq!(a.allocate(32, 8), Some(first));
}

#[test]
fn unaligned_free_block_is_passed_over() {
    let mut a = Allocator::new(0x1008, 0x9000);
    let low = a.allocate(64, 8).unwrap();
    assert_eq!(low, 0x1008);
    let high = a.allocate(64, 64).unwrap();
    assert_eq!(high, 0x1080);
    a.dealloc(high, 64, 64);
    a.dealloc(low, 64, 8);
    assert_eq!(a.free_list(3), vec![low, high]);
    assert_eq!(a.allocate(64, 64), Some(high));
    assert_eq!(a.free_list(3), vec![low]);
    let mark = a.current();
    assert_eq!(a.allocate(64, 64), Some(0x10c0));
    assert_eq!(a.current(), mark + 64);
    assert_eq!(a.free_list(3), vec![low]);
}

#[test]
fn freed_block_serves_no_other_class() {
    let mut a = Allocator::new(0x1000, 0x10_0000);
    let small = a.allocate(64, 64).unwrap();
    let large = a.allocate(4096, 4096).unwrap();
    assert_eq!(small, 0x1000);
    assert_eq!(large, 0x2000);
    a.dealloc(large, 4096, 4096);
    let next_small = a.allocate(64, 64).unwrap();
    assert_eq!(next_small, 0x3000);
    assert_eq!(a.free_list(9), vec![large]);
    a.dealloc(small, 64, 64);
    let next_large = a.allocate(4096, 4096).unwrap();
    assert_eq!(next_large, large);
    assert_eq!(a.free_list(3), vec![small]);
    assert_eq!(a.allocate(4096, 4096), Some(0x4000));
}

#[test]
fn interleaved_requests_reuse_within_their_class() {
    let mut a = Allocator::new(0x1_0000, 0x100_0000);
    let mut small = Vec::new();
    let mut large = Vec::new();
    for _ in 0..8 {
        small.push(a.allocate(64, 64).unwrap());
        large.push(a.allocate(4096, 4096).unwrap());
    }
    for block in small.iter().chain(large.iter()) {
        for other in small.iter().chain(large.iter()) {
            assert!(block == other || block + 64 <= *other || other + 64 <= *block);
        }
    }
    let mark = a.current();
    for block in &small {
        a.dealloc(*block, 64, 64);
    }
    for block in &large {
        a.dealloc(*block, 4096, 4096);
    }
    for _ in 0..8 {
        let s = a.allocate(64, 64).unwrap();
        assert!(small.contains(&s));
        let l = a.allocate(4096, 4096).unwrap();
        assert!(large.contains(&l));
    }
    assert_eq!(a.current(), mark);
}

#[test]
fn request_that_ends_at_the_end_of_the_region_is_served() {
    let size: u64 = 1 << 32;
    assert_eq!(map_to_bin(size), 29);
    let mut a = Allocator::new(size, 2 * size);
    assert_eq!(a.allocate(size, 8), Some(size));
    assert_eq!(a.current(), 2 * size);
    assert_eq!(a.allocate(8, 8), None);
}

#[test]
fn request_that_ends_one_byte_past_the_region_is_refused() {
    let size: u64 = 1 << 32;
    let mut a = Allocator::new(size, 2 * size - 1);
    assert_eq!(a.allocate(size, 8), None);
    assert_eq!(a.current(), size);
    let mut b = Allocator::new(0x1000, 0x1010);
    assert_eq!(b.allocate(17, 1), None);
    assert_eq!(b.allocate(16, 1), Some(0x1000));
    assert_eq!(b.allocate(1, 1), None);
}

#[test]
fn request_of_a_class_beyond_the_last_is_refused() {
    let mut a = Allocator::new(0, u64::MAX);
    assert_eq!(map_to_bin(1 << 34), 31);
    assert_eq!(map_to_bin((1 << 34) + 1), 32);
    assert_eq!(a.allocate((1 << 34) + 1, 8), None);
    assert_eq!(a.allocate(8, 1 << 35), None);
    assert_eq!(a.current(), 0);
    assert_eq!(a.allocate(1 << 34, 8), Some(0));
}

#[test]
fn request_near_the_top_of_the_address_space_is_refused() {
    let mut a = Allocator::new(u64::MAX - 3, u64::MAX);
    assert_eq!(a.allocate(8, 8), None);
    assert_eq!(a.current(), u64::MAX - 3);
}

#[test]
fn high_water_mark_never_moves_down() {
    let mut a = Allocator::new(0x1000, 0x8000);
    let mut mark = a.current();
    for round in 0..20u64 {
        let size = 8 << (round % 5);
        if let Some(p) = a.allocate(size, 8) {
            assert!(a.current() >= mark);
            mark = a.current();
            if round % 2 == 0 {
                a.dealloc(p, size, 8);
                assert_eq!(a.current(), mark);
            }
        }
    }
}

#[test]
fn taking_a_block_and_giving_it_back_keeps_the_capacity() {
    fn capacity(a: &mut Allocator, size: u64, align: u64) -> usize {
        let mut taken = Vec::new();
        while let Some(p) = a.allocate(size, align) {
            taken.push(p);
        }
        let n = taken.len();
        for p in taken.into_iter().rev() {
            a.dealloc(p, size, align);
        }
        n
    }
    let mut a = Allocator::new(0x1004, 0x2000);
    let before = capacity(&mut a, 64, 64);
    assert_eq!(before, 63);
    let p = a.allocate(64, 64).unwrap();
    a.dealloc(p, 64, 64);
    assert_eq!(capacity(&mut a, 64, 64), before);

    let mut b = Allocator::new(0x1004, 0x2000);
    let p = b.allocate(64, 64).unwrap();
    b.dealloc(p, 64, 64);
    assert_eq!(capacity(&mut b, 64, 64), 63);
}

#[test]
fn blocks_are_aligned_and_lie_apart() {
    let mut a = Allocator::new(0x1003, 0x40_0000);
    let requests: [(u64, u64); 12] = [
        (1, 1),
        (24, 8),
        (64, 64),
        (4096, 4096),
        (3, 256),
        (100, 4),
        (65536, 65536),
        (8, 8),
        (1000, 16),
        (64, 8),
        (4096, 8),
        (17, 32),
    ];
    let mut live: Vec<(u64, u64, u64)> = Vec::new();
    for round in 0..6 {
        for (i, (size, align)) in requests.iter().enumerate() {
            let p = a.allocate(*size, *align).unwrap();
            assert_eq!(p % align, 0);
            let len = size_for_bin(map_to_bin(*size.max(align)));
            assert!(len >= *size);
            assert!(p >= 0x1003 && p + len <= a.current());
            for (q, qsize, qalign) in &live {
                let qlen = size_for_bin(map_to_bin(*qsize.max(qalign)));
                assert!(p + len <= *q || q + qlen <= p);
            }
            for bin in 0..MAX_BINS {
                for q in a.free_list(bin) {
                    assert!(p + len <= q || q + size_for_bin(bin) <= p);
                }
            }
            live.push((p, *size, *align));
            if (i + round) % 3 == 0 {
                let (q, qsize, qalign) = live.remove(live.len() / 2);
                a.dealloc(q, qsize, qalign);
            }
        }
    }
    assert!(live.len() > 40);
}
