use vstd::prelude::*;

use std::collections::HashMap;

use crate::cache::{geometry_error, Cache, ConfigError};
use crate::set::Policy;

verus! {

broadcast use vstd::std_specs::hash::group_hash_axioms;

/// The geometry and policy of one cache level.
#[derive(Clone, Copy, Debug, PartialEq, Eq, Structural)]
pub struct CacheConfig {
    pub blk_size: usize,
    pub assoc: usize,
    pub size: usize,
    pub policy: Policy,
}

impl CacheConfig {
    pub open spec fn error(&self) -> Option<ConfigError> {
        geometry_error(self.blk_size as nat, self.assoc as nat, self.size as nat)
    }

    /// `c` is a cache as this configuration makes it, before any access.
    pub open spec fn made(&self, c: Cache) -> bool {
        &&& c.wf()
        &&& c.blk_size == self.blk_size
        &&& c.assoc == self.assoc
        &&& c.size == self.size
        &&& c.policy == self.policy
        &&& c.accesses == 0
        &&& c.misses == 0
    }
}

/// One instruction met during translation, with the misses it caused.
#[derive(Debug)]
pub struct InsnData {
    pub addr: u64,
    pub disas: String,
    pub symbol: String,
    pub l1_imisses: u64,
    pub l1_dmisses: u64,
    pub l2_misses: u64,
}

/// A miss count after one more miss; it wraps around as an atomic counter does.
pub open spec fn bump(n: u64) -> u64 {
    if n == u64::MAX {
        0
    } else {
        (n + 1) as u64
    }
}

fn bumped(n: u64) -> (r: u64)
    ensures
        r == bump(n),
{
    if n == u64::MAX {
        0
    } else {
        n + 1
    }
}

/// Per simulated core an L1 instruction, an L1 data and an L2 unified cache,
/// and the registry of instructions by address.
#[derive(Debug)]
pub struct MemoryHierarchy {
    /// Whether addresses are physical (whole-system emulation) or virtual.
    pub sys: bool,
    pub cores: usize,
    pub l1_i_caches: Vec<Cache>,
    pub l1_d_caches: Vec<Cache>,
    pub l2_u_caches: Vec<Cache>,
    pub insns: Vec<InsnData>,
    /// Maps an instruction address to its index in `insns`.
    pub index: HashMap<u64, usize>,
}

/// The record of a newly met instruction.
pub open spec fn new_insn(addr: u64, disas: String, symbol: String) -> InsnData {
    InsnData { addr, disas, symbol, l1_imisses: 0, l1_dmisses: 0, l2_misses: 0 }
}

/// `r` is `i` with one more miss at the levels that missed.
pub open spec fn with_misses(i: InsnData, r: InsnData, imiss: bool, dmiss: bool, l2miss: bool) -> bool {
    &&& r.addr == i.addr
    &&& r.disas == i.disas
    &&& r.symbol == i.symbol
    &&& r.l1_imisses == if imiss { bump(i.l1_imisses) } else { i.l1_imisses }
    &&& r.l1_dmisses == if dmiss { bump(i.l1_dmisses) } else { i.l1_dmisses }
    &&& r.l2_misses == if l2miss { bump(i.l2_misses) } else { i.l2_misses }
}

impl MemoryHierarchy {
    /// The core whose caches serve virtual CPU `vcpu`.
    pub open spec fn core_of(&self, vcpu: u32) -> int {
        (vcpu as int) % (self.cores as int)
    }

    pub open spec fn caches_wf(v: Seq<Cache>, n: usize) -> bool {
        &&& v.len() == n
        &&& forall|i: int| 0 <= i < n ==> (#[trigger] v[i]).wf()
    }

    pub open spec fn registry_wf(&self) -> bool {
        &&& forall|a: u64|
            #[trigger] self.index@.contains_key(a) ==> self.index@[a] < self.insns@.len()
                && self.insns@[self.index@[a] as int].addr == a
        &&& forall|i: int|
            0 <= i < self.insns@.len() ==> self.index@.contains_key(#[trigger] self.insns@[i].addr)
                && self.index@[self.insns@[i].addr] == i
    }

    pub open spec fn wf(&self) -> bool {
        &&& self.cores > 0
        &&& Self::caches_wf(self.l1_i_caches@, self.cores)
        &&& Self::caches_wf(self.l1_d_caches@, self.cores)
        &&& Self::caches_wf(self.l2_u_caches@, self.cores)
        &&& self.registry_wf()
    }

    /// Makes `cores` caches of each level; rejects the configuration, before any
    /// cache is made, when `cores` is zero or a geometry is malformed.
    pub fn new(sys: bool, cores: usize, l1_i: CacheConfig, l1_d: CacheConfig, l2_u: CacheConfig) -> (r: Result<MemoryHierarchy, ConfigError>)
        ensures
            r is Ok <==> cores > 0 && l1_i.error() is None && l1_d.error() is None && l2_u.error() is None,
            r matches Err(e) ==> (cores == 0 && e == ConfigError::ZeroSize) || (cores > 0 && (
                Some(e) == l1_i.error() || (l1_i.error() is None && Some(e) == l1_d.error()) || (
                l1_i.error() is None && l1_d.error() is None && Some(e) == l2_u.error()))),
            r matches Ok(h) ==> {
                &&& h.wf()
                &&& h.sys == sys
                &&& h.cores == cores
                &&& h.insns@.len() == 0
                &&& forall|i: int| 0 <= i < cores ==> l1_i.made(#[trigger] h.l1_i_caches@[i])
                &&& forall|i: int| 0 <= i < cores ==> l1_d.made(#[trigger] h.l1_d_caches@[i])
                &&& forall|i: int| 0 <= i < cores ==> l2_u.made(#[trigger] h.l2_u_caches@[i])
            },
    {
        if cores == 0 {
            return Err(ConfigError::ZeroSize);
        }
        if let Err(e) = Cache::checkParams(l1_i.blk_size, l1_i.assoc, l1_i.size) {
            return Err(e);
        }
        if let Err(e) = Cache::checkParams(l1_d.blk_size, l1_d.assoc, l1_d.size) {
            return Err(e);
        }
        if let Err(e) = Cache::checkParams(l2_u.blk_size, l2_u.assoc, l2_u.size) {
            return Err(e);
        }
        let l1_i_caches = Self::make_caches(cores, l1_i);
        let l1_d_caches = Self::make_caches(cores, l1_d);
        let l2_u_caches = Self::make_caches(cores, l2_u);
        let h = MemoryHierarchy {
            sys,
            cores,
            l1_i_caches,
            l1_d_caches,
            l2_u_caches,
            insns: Vec::new(),
            index: HashMap::new(),
        };
        Ok(h)
    }

    fn make_caches(n: usize, cfg: CacheConfig) -> (r: Vec<Cache>)
        requires
            cfg.error() is None,
        ensures
            Self::caches_wf(r@, n),
            forall|i: int| 0 <= i < n ==> cfg.made(#[trigger] r@[i]),
    {
        let mut v: Vec<Cache> = Vec::new();
        let mut i: usize = 0;
        while i < n
            invariant
                i <= n,
                cfg.error() is None,
                v@.len() == i,
                forall|k: int| 0 <= k < i ==> cfg.made(#[trigger] v@[k]),
            decreases n - i,
        {
            match Cache::new(cfg.blk_size, cfg.assoc, cfg.size, cfg.policy) {
                Ok(c) => v.push(c),
                Err(_) => {},
            }
            i += 1;
        }
        v
    }

    /// The core whose caches serve virtual CPU `vcpu`: CPUs are spread round-robin over the cores.
    pub fn core_index(&self, vcpu: u32) -> (r: usize)
        requires
            self.cores > 0,
        ensures
            r == self.core_of(vcpu),
            r < self.cores,
    {
        (vcpu as usize) % self.cores
    }

    /// Recording `addr` with its text takes this hierarchy to `next`, handing
    /// out `h`: a known address keeps its record, a new one gets a record with
    /// no misses at the end; no cache changes.
    pub open spec fn recorded(&self, next: &MemoryHierarchy, addr: u64, disas: String, symbol: String, h: usize) -> bool {
        &&& next.wf()
        &&& next.sys == self.sys
        &&& next.cores == self.cores
        &&& next.l1_i_caches@ == self.l1_i_caches@
        &&& next.l1_d_caches@ == self.l1_d_caches@
        &&& next.l2_u_caches@ == self.l2_u_caches@
        &&& h < next.insns@.len()
        &&& next.insns@[h as int].addr == addr
        &&& self.index@.contains_key(addr) ==> h == self.index@[addr] && next.insns@ == self.insns@
            && next.index@ == self.index@
        &&& !self.index@.contains_key(addr) ==> h == self.insns@.len() && next.insns@ == self.insns@.push(
            new_insn(addr, disas, symbol),
        ) && next.index@ == self.index@.insert(addr, h)
    }

    /// The handle of the instruction at `addr`, registering it with zero
    /// misses if it is new; a known instruction keeps its record unchanged.
    pub fn record_instruction(&mut self, addr: u64, disas: String, symbol: String) -> (h: usize)
        requires
            old(self).wf(),
        ensures
            final(self).wf(),
            old(self).recorded(final(self), addr, disas, symbol, h),
    {
        match self.index.get(&addr) {
            Some(h) => *h,
            None => {
                let h = self.insns.len();
                self.insns.push(
                    InsnData { addr, disas, symbol, l1_imisses: 0, l1_dmisses: 0, l2_misses: 0 },
                );
                self.index.insert(addr, h);
                h
            },
        }
    }

    /// Simulates the fetch of the instruction `h` at `addr` by `vcpu`: the
    /// core's L1 instruction cache is probed and a miss is counted against `h`.
    pub fn on_fetch(&mut self, vcpu: u32, addr: u64, h: usize) -> (hit: bool)
        requires
            old(self).wf(),
            h < old(self).insns@.len(),
            old(self).l1_i_caches@[old(self).core_of(vcpu)].accesses < u64::MAX,
        ensures
            final(self).wf(),
            final(self).sys == old(self).sys,
            final(self).cores == old(self).cores,
            old(self).l1_i_caches@[old(self).core_of(vcpu)].accessed(
                &final(self).l1_i_caches@[old(self).core_of(vcpu)],
                addr,
                hit,
            ),
            final(self).l1_i_caches@ == old(self).l1_i_caches@.update(
                old(self).core_of(vcpu),
                final(self).l1_i_caches@[old(self).core_of(vcpu)],
            ),
            final(self).l1_d_caches@ == old(self).l1_d_caches@,
            final(self).l2_u_caches@ == old(self).l2_u_caches@,
            final(self).index@ == old(self).index@,
            final(self).insns@.len() == old(self).insns@.len(),
            with_misses(old(self).insns@[h as int], final(self).insns@[h as int], !hit, false, false),
            forall|j: int|
                0 <= j < old(self).insns@.len() && j != h ==> final(self).insns@[j] == old(
                    self,
                ).insns@[j],
    {
        let c = self.core_index(vcpu);
        let hit = self.l1_i_caches[c].access(addr);
        if !hit {
            let n = bumped(self.insns[h].l1_imisses);
            self.insns[h].l1_imisses = n;
        }
        hit
    }
    /// The effect of a data access to `addr` by instruction `h` on `vcpu`,
    /// answering `r` (the L1 result, and the L2 result when L2 was probed).
    pub open spec fn data_accessed(
        &self,
        next: &MemoryHierarchy,
        vcpu: u32,
        addr: u64,
        h: usize,
        r: (bool, Option<bool>),
    ) -> bool {
        let c = self.core_of(vcpu);
        &&& next.sys == self.sys
        &&& next.cores == self.cores
        &&& self.l1_d_caches@[c].accessed(&next.l1_d_caches@[c], addr, r.0)
        &&& next.l1_d_caches@ == self.l1_d_caches@.update(c, next.l1_d_caches@[c])
        &&& r.0 ==> r.1 is None && next.l2_u_caches@ == self.l2_u_caches@
        &&& !r.0 ==> r.1 is Some && self.l2_u_caches@[c].accessed(&next.l2_u_caches@[c], addr, r.1->0)
            && next.l2_u_caches@ == self.l2_u_caches@.update(c, next.l2_u_caches@[c])
        &&& next.l1_i_caches@ == self.l1_i_caches@
        &&& next.index@ == self.index@
        &&& next.insns@.len() == self.insns@.len()
        &&& with_misses(self.insns@[h as int], next.insns@[h as int], false, !r.0, r.1 == Some(false))
        &&& forall|j: int| 0 <= j < self.insns@.len() && j != h ==> next.insns@[j] == self.insns@[j]
    }

    /// Simulates a data access to `addr` by instruction `h` on `vcpu`. The
    /// core's L1 data cache is probed; on a miss it is counted against `h` and
    /// the core's L2 cache is probed, a miss there counted too. Returns the L1
    /// result and, when L2 was probed, its result.
    pub fn on_data_access(&mut self, vcpu: u32, addr: u64, h: usize) -> (r: (bool, Option<bool>))
        requires
            old(self).wf(),
            h < old(self).insns@.len(),
            old(self).l1_d_caches@[old(self).core_of(vcpu)].accesses < u64::MAX,
            old(self).l2_u_caches@[old(self).core_of(vcpu)].accesses < u64::MAX,
        ensures
            final(self).wf(),
            old(self).data_accessed(final(self), vcpu, addr, h, r),
    {
        let c = self.core_index(vcpu);
        let hit = self.l1_d_caches[c].access(addr);
        if hit {
            return (true, None);
        }
        let n = bumped(self.insns[h].l1_dmisses);
        self.insns[h].l1_dmisses = n;
        let l2_hit = self.l2_u_caches[c].access(addr);
        if !l2_hit {
            let n = bumped(self.insns[h].l2_misses);
            self.insns[h].l2_misses = n;
        }
        (false, Some(l2_hit))
    }

    /// A memory callback: an access that the host classed as I/O bypasses the
    /// caches and changes nothing; any other goes through `on_data_access`.
    pub fn on_memory(&mut self, vcpu: u32, addr: u64, h: usize, is_io: bool) -> (r: Option<(bool, Option<bool>)>)
        requires
            old(self).wf(),
            h < old(self).insns@.len(),
            old(self).l1_d_caches@[old(self).core_of(vcpu)].accesses < u64::MAX,
            old(self).l2_u_caches@[old(self).core_of(vcpu)].accesses < u64::MAX,
        ensures
            final(self).wf(),
            is_io ==> r is None && *final(self) == *old(self),
            !is_io ==> (r matches Some(d) && old(self).data_accessed(final(self), vcpu, addr, h, d)),
    {
        if is_io {
            None
        } else {
            Some(self.on_data_access(vcpu, addr, h))
        }
    }
}

} // verus!
