use qemu_timing_plugin::cache::ConfigError;
use qemu_timing_plugin::hierarchy::{CacheConfig, MemoryHierarchy};
use qemu_timing_plugin::set::Policy;

fn cfg(blk: usize, assoc: usize, size: usize) -> CacheConfig {
    CacheConfig { blk_size: blk, assoc, size, policy: Policy::Lru }
}

fn small(cores: usize) -> MemoryHierarchy {
    MemoryHierarchy::new(false, cores, cfg(32, 2, 256), cfg(32, 2, 256), cfg(64, 4, 2048)).unwrap()
}

#[test]
fn hierarchy_rejects_bad_configuration() {
    let bad = cfg(64, 4, 1000);
    assert_eq!(
        MemoryHierarchy::new(false, 1, cfg(32, 2, 256), bad, cfg(64, 4, 2048)).err(),
        Some(ConfigError::NotDivisible)
    );
    assert_eq!(
        MemoryHierarchy::new(true, 0, cfg(32, 2, 256), cfg(32, 2, 256), cfg(64, 4, 2048)).err(),
        Some(ConfigError::ZeroSize)
    );
}

#[test]
fn record_instruction_is_idempotent() {
    let mut h = small(2);
    let a = h.record_instruction(0x400000, "mov".to_string(), "main".to_string());
    let b = h.record_instruction(0x400004, "add".to_string(), "main".to_string());
    let c = h.record_instruction(0x400000, "other".to_string(), "other".to_string());
    assert_eq!(a, c);
    assert_ne!(a, b);
    assert_eq!(h.insns.len(), 2);
    assert_eq!(h.insns[a].disas, "mov");
    assert_eq!(h.insns[a].l1_imisses, 0);
}

#[test]
fn core_index_wraps_round_robin() {
    let h = small(3);
    assert_eq!(h.core_index(0), 0);
    assert_eq!(h.core_index(4), 1);
    assert_eq!(h.core_index(8), 2);
}

#[test]
fn fetch_counts_l1_instruction_misses() {
    let mut h = small(1);
    let i = h.record_instruction(0x1000, "nop".to_string(), "f".to_string());
    assert!(!h.on_fetch(0, 0x1000, i));
    assert!(h.on_fetch(0, 0x1000, i));
    assert_eq!(h.insns[i].l1_imisses, 1);
    assert_eq!(h.l1_i_caches[0].accesses(), 2);
    assert_eq!(h.l1_d_caches[0].accesses(), 0);
}

#[test]
fn data_access_probes_l2_only_on_l1_miss() {
    let mut h = small(2);
    let i = h.record_instruction(0x1000, "ld".to_string(), "f".to_string());
    assert_eq!(h.on_data_access(1, 0x8000, i), (false, Some(false)));
    assert_eq!(h.on_data_access(3, 0x8000, i), (true, None));
    assert_eq!(h.insns[i].l1_dmisses, 1);
    assert_eq!(h.insns[i].l2_misses, 1);
    assert_eq!(h.l2_u_caches[1].accesses(), 1);
    assert_eq!(h.l1_d_caches[0].accesses(), 0);
    // evict 0x8000 from L1 (set 0 of 4, two ways), keeping it in L2
    h.on_data_access(1, 0x8000 + 128, i);
    h.on_data_access(1, 0x8000 + 256, i);
    assert_eq!(h.on_data_access(1, 0x8000, i), (false, Some(true)));
    assert_eq!(h.insns[i].l1_dmisses, 4);
    assert_eq!(h.insns[i].l2_misses, 3);
}

#[test]
fn io_access_bypasses_caches() {
    let mut h = small(1);
    let i = h.record_instruction(0x1000, "st".to_string(), "f".to_string());
    assert_eq!(h.on_memory(0, 0x8000, i, true), None);
    assert_eq!(h.l1_d_caches[0].accesses(), 0);
    assert_eq!(h.insns[i].l1_dmisses, 0);
    assert_eq!(h.on_memory(0, 0x8000, i, false), Some((false, Some(false))));
}
