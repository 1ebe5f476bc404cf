use qemu_timing_plugin::block::CacheBlock;
use qemu_timing_plugin::fifo::FIFOCacheSet;
use qemu_timing_plugin::lru::LRUCacheSet;
use qemu_timing_plugin::random::RandCacheSet;

#[test]
fn block_new_has_zero_priority() {
    let b = CacheBlock::new(7, true);
    assert_eq!(b.tag, 7);
    assert!(b.valid);
    assert_eq!(b.priority, 0);
}

#[test]
fn lru_fills_invalid_blocks_in_order() {
    let mut s = LRUCacheSet::new(4);
    assert!(!s.access(10));
    assert!(!s.access(11));
    assert_eq!(s.blocks[0].tag, 10);
    assert_eq!(s.blocks[1].tag, 11);
    assert!(!s.blocks[2].valid);
    assert_eq!(s.gen_counter, 2);
}

#[test]
fn lru_hit_restamps_and_counts() {
    let mut s = LRUCacheSet::new(2);
    assert!(!s.access(1));
    assert!(!s.access(2));
    assert!(s.access(1));
    assert_eq!(s.blocks[0].priority, 2);
    assert_eq!(s.gen_counter, 3);
    // 2 is now the least recently used
    assert!(!s.access(3));
    assert_eq!(s.blocks[1].tag, 3);
    assert!(s.access(1));
    assert!(!s.access(2));
}

#[test]
fn lru_cyclic_sequence_always_misses() {
    for k in 1..6usize {
        let mut s = LRUCacheSet::new(k);
        for round in 0..20u64 {
            for t in 0..(k as u64 + 1) {
                assert!(!s.access(1000 + t), "k={k} round={round} tag={t}");
            }
        }
        assert_eq!(s.gen_counter, 20 * (k as u64 + 1));
    }
}

#[test]
fn fifo_evicts_in_insertion_order() {
    let mut s = FIFOCacheSet::new(3);
    assert!(!s.access(1));
    assert!(!s.access(2));
    assert!(!s.access(3));
    // a hit does not reorder
    assert!(s.access(1));
    assert!(!s.access(4));
    assert_eq!(s.blocks[0].tag, 4);
    assert!(!s.access(5));
    assert_eq!(s.blocks[1].tag, 5);
    assert!(!s.access(6));
    assert_eq!(s.blocks[2].tag, 6);
    assert!(!s.access(1));
    assert_eq!(s.blocks[0].tag, 1);
    assert!(s.access(5));
    assert!(s.access(6));
}

#[test]
fn fifo_differs_from_lru_after_a_hit() {
    let mut f = FIFOCacheSet::new(2);
    let mut l = LRUCacheSet::new(2);
    for t in [1u64, 2, 1, 3] {
        f.access(t);
        l.access(t);
    }
    // FIFO evicted 1, the first installed; LRU evicted 2, the least recent
    assert!(f.access(2));
    assert!(l.access(1));
}

#[test]
fn random_fills_invalid_blocks_first() {
    let mut s = RandCacheSet::new(3);
    assert!(!s.access(1));
    assert!(!s.access(2));
    assert!(!s.access(3));
    assert_eq!(s.blocks[0].tag, 1);
    assert_eq!(s.blocks[1].tag, 2);
    assert_eq!(s.blocks[2].tag, 3);
    assert!(s.access(2));
}

#[test]
fn random_with_victim_replaces_that_block() {
    let mut s = RandCacheSet::new(4);
    for t in 0..4u64 {
        assert!(!s.access_with_victim(t, 0));
    }
    assert!(!s.access_with_victim(9, 2));
    assert_eq!(s.blocks[2].tag, 9);
    assert_eq!(s.blocks[0].tag, 0);
    assert!(s.access_with_victim(9, 1));
    assert_eq!(s.blocks[1].tag, 1);
}

#[test]
fn random_victims_are_roughly_uniform() {
    let k = 4usize;
    let trials = 8000usize;
    let mut counts = vec![0usize; k];
    for _ in 0..trials {
        let mut s = RandCacheSet::new(k);
        for t in 0..k as u64 {
            s.access(t);
        }
        assert!(!s.access(100));
        let replaced: Vec<usize> = (0..k).filter(|&i| s.blocks[i].tag == 100).collect();
        assert_eq!(replaced.len(), 1);
        counts[replaced[0]] += 1;
    }
    for c in counts {
        let expected = trials / k;
        assert!(c > expected * 8 / 10 && c < expected * 12 / 10, "count {c}");
    }
}
