use qemu_timing_plugin::cache::{Cache, ConfigError};
use qemu_timing_plugin::set::{CacheSet, Policy};

fn lru(blk: usize, assoc: usize, size: usize) -> Cache {
    Cache::new(blk, assoc, size, Policy::Lru).unwrap()
}

#[test]
fn check_params_accepts_power_of_two_geometry() {
    assert_eq!(Cache::checkParams(64, 4, 32768), Ok(()));
    assert_eq!(Cache::checkParams(32, 2, 256), Ok(()));
    assert_eq!(Cache::checkParams(64, 3, 64 * 3 * 8), Ok(()));
}

#[test]
fn check_params_rejects_zero() {
    assert_eq!(Cache::checkParams(0, 4, 32768), Err(ConfigError::ZeroSize));
    assert_eq!(Cache::checkParams(64, 0, 32768), Err(ConfigError::ZeroSize));
    assert_eq!(Cache::checkParams(64, 4, 0), Err(ConfigError::ZeroSize));
}

#[test]
fn check_params_rejects_uneven_sizes() {
    assert_eq!(Cache::checkParams(64, 4, 1000), Err(ConfigError::NotDivisible));
    assert_eq!(Cache::checkParams(64, 3, 256), Err(ConfigError::NotDivisible));
    assert_eq!(Cache::checkParams(usize::MAX / 2 + 1, 4, usize::MAX / 2 + 1), Err(ConfigError::NotDivisible));
}

#[test]
fn check_params_rejects_non_powers_of_two() {
    assert_eq!(Cache::checkParams(48, 1, 96), Err(ConfigError::NotPowerOfTwo));
    assert_eq!(Cache::checkParams(64, 4, 64 * 4 * 3), Err(ConfigError::NotPowerOfTwo));
}

#[test]
fn new_rejects_malformed_geometry() {
    assert_eq!(Cache::new(64, 4, 1000, Policy::Fifo).err(), Some(ConfigError::NotDivisible));
    assert_eq!(Cache::new(64, 4, 0, Policy::Random).err(), Some(ConfigError::ZeroSize));
}

#[test]
fn new_derives_masks() {
    let c = lru(64, 4, 32768);
    assert_eq!(c.sets.len(), 128);
    assert_eq!(c.block_shift, 6);
    assert_eq!(c.set_mask, 127 << 6);
    assert_eq!(c.tag_mask, !0x1fffu64);
    assert_eq!(c.accesses(), 0);
    assert_eq!(c.misses(), 0);
    assert!(c.sets.iter().all(|s| matches!(s, CacheSet::Lru(_))));
}

#[test]
fn extract_tag_and_set() {
    let c = lru(64, 4, 32768);
    let a = 0xdead_beefu64;
    assert_eq!(c.extractTag(a), a & !0x1fff);
    assert_eq!(c.extractSet(a), ((a >> 6) & 127) as usize);
    assert_eq!(c.extractSet(0x1fc0), 127);
    assert_eq!(c.extractSet(0x2000), 0);
}

#[test]
fn same_block_hits_other_tag_misses() {
    for policy in [Policy::Lru, Policy::Fifo, Policy::Random] {
        let mut c = Cache::new(64, 4, 32768, policy).unwrap();
        let a = 0x12345u64;
        assert!(!c.access(a));
        assert!(c.access((a & !63) + 63));
        assert!(c.access(a & !63));
        let b = a + 64 * 128;
        assert_eq!(c.extractSet(b), c.extractSet(a));
        assert_ne!(c.extractTag(b), c.extractTag(a));
        assert!(!c.access(b));
        assert_eq!(c.accesses(), 4);
        assert_eq!(c.misses(), 2);
    }
}

#[test]
fn end_to_end_lru_two_way() {
    let mut c = lru(32, 2, 256);
    assert_eq!(c.sets.len(), 4);
    let mut hits = Vec::new();
    for a in [0u64, 32, 64, 0, 96, 128] {
        hits.push(c.access(a));
    }
    assert_eq!(hits, vec![false, false, false, true, false, false]);
    assert_eq!(c.accesses(), 6);
    assert_eq!(c.misses(), 5);
    assert_eq!(c.accesses() - c.misses(), 1);
}

#[test]
fn accesses_equal_hits_plus_misses() {
    for policy in [Policy::Lru, Policy::Fifo, Policy::Random] {
        let mut c = Cache::new(16, 2, 128, policy).unwrap();
        let mut hits = 0u64;
        let mut x = 12345u64;
        for _ in 0..2000 {
            x = x.wrapping_mul(6364136223846793005).wrapping_add(1442695040888963407);
            if c.access((x >> 33) % 512) {
                hits += 1;
            }
        }
        assert_eq!(c.accesses(), 2000);
        assert_eq!(c.accesses(), hits + c.misses());
    }
}
