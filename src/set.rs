use vstd::prelude::*;

use crate::block::{all_invalid, contains_tag, CacheBlock};
use crate::fifo::{fifo_step, FIFOCacheSet};
use crate::lru::{lru_step, LRUCacheSet};
use crate::random::{rand_step, RandCacheSet};

verus! {

/// The block-replacement policy of a cache.
#[derive(Clone, Copy, Debug, PartialEq, Eq, Structural)]
pub enum Policy {
    Lru,
    Fifo,
    Random,
}

/// One set of a cache, governed by one of the three policies.
#[derive(Debug)]
pub enum CacheSet {
    Lru(LRUCacheSet),
    Fifo(FIFOCacheSet),
    Rand(RandCacheSet),
}

impl CacheSet {
    pub open spec fn policy(&self) -> Policy {
        match self {
            CacheSet::Lru(_) => Policy::Lru,
            CacheSet::Fifo(_) => Policy::Fifo,
            CacheSet::Rand(_) => Policy::Random,
        }
    }

    pub open spec fn blocks(&self) -> Seq<CacheBlock> {
        match self {
            CacheSet::Lru(s) => s.blocks@,
            CacheSet::Fifo(s) => s.blocks@,
            CacheSet::Rand(s) => s.blocks@,
        }
    }

    pub open spec fn assoc(&self) -> usize {
        match self {
            CacheSet::Lru(s) => s.assoc,
            CacheSet::Fifo(s) => s.assoc,
            CacheSet::Rand(s) => s.assoc,
        }
    }

    /// How many accesses the set has counted (only the LRU policy counts them).
    pub open spec fn uses(&self) -> nat {
        match self {
            CacheSet::Lru(s) => s.gen_counter as nat,
            _ => 0,
        }
    }

    pub open spec fn wf(&self) -> bool {
        match self {
            CacheSet::Lru(s) => s.wf(),
            CacheSet::Fifo(s) => s.wf(),
            CacheSet::Rand(s) => s.wf(),
        }
    }

    /// The set as it is made: no valid block, no access counted, nothing queued.
    pub open spec fn is_fresh(&self) -> bool {
        &&& all_invalid(self.blocks())
        &&& self.uses() == 0
        &&& (self matches CacheSet::Fifo(f) ==> f.order() == Seq::<usize>::empty())
    }

    /// One access of `tag` takes this set to `next`, answering `hit`.
    pub open spec fn step(&self, next: CacheSet, tag: u64, hit: bool) -> bool {
        match (self, next) {
            (CacheSet::Lru(a), CacheSet::Lru(b)) => {
                &&& b.gen_counter == a.gen_counter + 1
                &&& lru_step(a.blocks@, a.gen_counter, tag, b.blocks@, hit)
            },
            (CacheSet::Fifo(a), CacheSet::Fifo(b)) => fifo_step(
                a.blocks@,
                a.order(),
                tag,
                b.blocks@,
                b.order(),
                hit,
            ),
            (CacheSet::Rand(a), CacheSet::Rand(b)) => exists|r: int|
                0 <= r < a.assoc && #[trigger] rand_step(a.blocks@, r, tag, b.blocks@, hit),
            _ => false,
        }
    }

    pub fn new(policy: Policy, assoc: usize) -> (r: Self)
        requires
            assoc > 0,
        ensures
            r.wf(),
            r.policy() == policy,
            r.assoc() == assoc,
            r.is_fresh(),
    {
        match policy {
            Policy::Lru => CacheSet::Lru(LRUCacheSet::new(assoc)),
            Policy::Fifo => CacheSet::Fifo(FIFOCacheSet::new(assoc)),
            Policy::Random => CacheSet::Rand(RandCacheSet::new(assoc)),
        }
    }

    /// Looks `tag` up, installing it on a miss; returns whether it hit.
    pub fn access(&mut self, tag: u64) -> (hit: bool)
        requires
            old(self).wf(),
            old(self).uses() < u64::MAX,
        ensures
            final(self).wf(),
            final(self).policy() == old(self).policy(),
            final(self).assoc() == old(self).assoc(),
            final(self).uses() <= old(self).uses() + 1,
            old(self).step(*final(self), tag, hit),
            contains_tag(final(self).blocks(), tag),
    {
        match self {
            CacheSet::Lru(s) => s.access(tag),
            CacheSet::Fifo(s) => s.access(tag),
            CacheSet::Rand(s) => s.access(tag),
        }
    }
}

} // verus!
