use vstd::prelude::*;

use vstd::arithmetic::div_mod::{lemma_div_denominator, lemma_fundamental_div_mod};
use vstd::arithmetic::power2::{
    is_pow2, lemma2_to64, lemma_pow2_strictly_increases, lemma_pow2_unfold, pow2,
};

use crate::set::{CacheSet, Policy};

verus! {

/// Why a cache geometry was rejected.
#[derive(Clone, Copy, Debug, PartialEq, Eq, Structural)]
pub enum ConfigError {
    /// The block size, the associativity or the total size is zero.
    ZeroSize,
    /// The total size is not a multiple of the block size, or of block size times associativity.
    NotDivisible,
    /// The block size or the number of sets is not a power of two.
    NotPowerOfTwo,
}

/// The number of sets of a cache of the given geometry.
pub open spec fn num_sets(blk_size: nat, assoc: nat, cache_size: nat) -> nat {
    cache_size / (blk_size * assoc)
}

/// The error that a geometry is rejected with, if any.
pub open spec fn geometry_error(blk_size: nat, assoc: nat, cache_size: nat) -> Option<ConfigError> {
    if blk_size == 0 || assoc == 0 || cache_size == 0 {
        Some(ConfigError::ZeroSize)
    } else if cache_size % blk_size != 0 || cache_size % (blk_size * assoc) != 0 {
        Some(ConfigError::NotDivisible)
    } else if !is_pow2(blk_size as int) || !is_pow2(num_sets(blk_size, assoc, cache_size) as int) {
        Some(ConfigError::NotPowerOfTwo)
    } else {
        None
    }
}

proof fn lemma_divides_product(size: int, blk: int, assoc: int)
    requires
        size >= 0,
        blk > 0,
        assoc > 0,
        size % blk == 0,
    ensures
        (size % (blk * assoc) == 0) <==> ((size / blk) % assoc == 0),
        size / (blk * assoc) == (size / blk) / assoc,
{
    let q = size / blk;
    lemma_div_denominator(size, blk, assoc);
    lemma_fundamental_div_mod(size, blk);
    lemma_fundamental_div_mod(size, blk * assoc);
    lemma_fundamental_div_mod(q, assoc);
    let d = size / (blk * assoc);
    assert(size % (blk * assoc) == blk * (q % assoc)) by (nonlinear_arith)
        requires
            size == blk * q,
            size == (blk * assoc) * d + size % (blk * assoc),
            q == assoc * (q / assoc) + q % assoc,
            d == q / assoc,
    ;
    assert((blk * (q % assoc) == 0) <==> (q % assoc == 0)) by (nonlinear_arith)
        requires
            blk > 0,
    ;
}

/// The exponent `s` with `2^s == n`, if `n` is a power of two.
fn exact_log2(n: usize) -> (r: Option<u64>)
    ensures
        r matches Some(s) ==> s < 64 && pow2(s as nat) == n,
        r is None <==> !is_pow2(n as int),
{
    reveal(is_pow2);
    if n == 0 {
        return None;
    }
    let mut m: usize = n;
    let mut s: u64 = 0;
    proof {
        lemma2_to64();
    }
    while m > 1 && m % 2 == 0
        invariant
            m > 0,
            s < 64,
            m * pow2(s as nat) == n,
            is_pow2(n as int) == is_pow2(m as int),
        decreases m,
    {
        proof {
            lemma2_to64();
            lemma_pow2_unfold((s + 1) as nat);
            assert((m / 2) * pow2((s + 1) as nat) == n) by (nonlinear_arith)
                requires
                    m % 2 == 0,
                    m * pow2(s as nat) == n,
                    pow2((s + 1) as nat) == 2 * pow2(s as nat),
            ;
            assert(pow2((s + 1) as nat) <= n) by (nonlinear_arith)
                requires
                    m >= 2,
                    m * pow2(s as nat) == n,
                    pow2((s + 1) as nat) == 2 * pow2(s as nat),
            ;
            reveal_with_fuel(is_pow2, 2);
            assert(is_pow2(m as int) == is_pow2((m / 2) as int));
            assert(n <= u64::MAX);
            if s + 1 >= 64 {
                if s + 1 > 64 {
                    lemma_pow2_strictly_increases(64, (s + 1) as nat);
                }
            }
        }
        m = m / 2;
        s = s + 1;
    }
    if m == 1 {
        Some(s)
    } else {
        None
    }
}

/// A set-associative cache with running access and miss counts.
#[derive(Debug)]
pub struct Cache {
    pub sets: Vec<CacheSet>,
    pub policy: Policy,
    pub blk_size: usize,
    pub assoc: usize,
    pub size: usize,
    /// log2 of the block size.
    pub block_shift: u64,
    /// Selects the set-index bits of an address.
    pub set_mask: u64,
    /// Selects the tag bits of an address: all bits above the set index.
    pub tag_mask: u64,
    pub accesses: u64,
    pub misses: u64,
}

proof fn lemma_set_bits(a: u64, m: u64, s: u64)
    requires
        s < 64,
    ensures
        (a & (m << s)) >> s <= m,
{
    assert((a & (m << s)) >> s <= m) by (bit_vector)
        requires
            s < 64,
    ;
}

impl Cache {
    pub open spec fn num_sets(&self) -> nat {
        num_sets(self.blk_size as nat, self.assoc as nat, self.size as nat)
    }

    pub open spec fn tag_of(&self, addr: u64) -> u64 {
        addr & self.tag_mask
    }

    pub open spec fn set_of(&self, addr: u64) -> int {
        ((addr & self.set_mask) >> self.block_shift) as int
    }

    pub open spec fn wf(&self) -> bool {
        &&& geometry_error(self.blk_size as nat, self.assoc as nat, self.size as nat) is None
        &&& self.sets@.len() == self.num_sets()
        &&& self.num_sets() >= 1
        &&& self.block_shift < 64
        &&& pow2(self.block_shift as nat) == self.blk_size
        &&& self.set_mask == ((self.num_sets() - 1) as u64) << self.block_shift
        &&& self.tag_mask == !(self.set_mask | ((self.blk_size - 1) as u64))
        &&& self.misses <= self.accesses
        &&& forall|i: int|
            0 <= i < self.sets@.len() ==> {
                &&& (#[trigger] self.sets@[i]).wf()
                &&& self.sets@[i].assoc() == self.assoc
                &&& self.sets@[i].policy() == self.policy
                &&& self.sets@[i].uses() <= self.accesses
            }
    }

    /// One access of `addr` takes this cache to `next`, answering `hit`: the
    /// counts move on, the set that `addr` maps to takes one step of its
    /// policy and ends up holding the tag of `addr`, and no other set changes.
    pub open spec fn accessed(&self, next: &Cache, addr: u64, hit: bool) -> bool {
        &&& next.same_geometry(self)
        &&& next.accesses == self.accesses + 1
        &&& next.misses == self.misses + if hit { 0int } else { 1int }
        &&& self.sets@[self.set_of(addr)].step(next.sets@[self.set_of(addr)], self.tag_of(addr), hit)
        &&& crate::block::contains_tag(next.sets@[self.set_of(addr)].blocks(), self.tag_of(addr))
        &&& forall|j: int|
            0 <= j < self.sets@.len() && j != self.set_of(addr) ==> next.sets@[j] == self.sets@[j]
    }

    /// The two caches have the same geometry and masks.
    pub open spec fn same_geometry(&self, o: &Cache) -> bool {
        &&& self.sets@.len() == o.sets@.len()
        &&& self.policy == o.policy
        &&& self.blk_size == o.blk_size
        &&& self.assoc == o.assoc
        &&& self.size == o.size
        &&& self.block_shift == o.block_shift
        &&& self.set_mask == o.set_mask
        &&& self.tag_mask == o.tag_mask
    }

    /// Checks that the total size is a multiple of the block size and of the
    /// set size, and that the block size and the number of sets are powers of two.
    #[allow(non_snake_case)]
    pub fn checkParams(blk_size: usize, assoc: usize, cache_size: usize) -> (r: Result<(), ConfigError>)
        ensures
            r matches Err(e) ==> geometry_error(blk_size as nat, assoc as nat, cache_size as nat) == Some(e),
            r is Ok <==> geometry_error(blk_size as nat, assoc as nat, cache_size as nat) is None,
    {
        if blk_size == 0 || assoc == 0 || cache_size == 0 {
            return Err(ConfigError::ZeroSize);
        }
        if cache_size % blk_size != 0 {
            return Err(ConfigError::NotDivisible);
        }
        proof {
            lemma_divides_product(cache_size as int, blk_size as int, assoc as int);
        }
        if (cache_size / blk_size) % assoc != 0 {
            return Err(ConfigError::NotDivisible);
        }
        let n = cache_size / blk_size / assoc;
        if exact_log2(blk_size).is_none() || exact_log2(n).is_none() {
            return Err(ConfigError::NotPowerOfTwo);
        }
        Ok(())
    }

    /// Makes a cache of `cache_size` bytes in blocks of `blk_size` bytes,
    /// `assoc` blocks to a set, every block invalid; rejects a malformed geometry.
    pub fn new(blk_size: usize, assoc: usize, cache_size: usize, policy: Policy) -> (r: Result<Cache, ConfigError>)
        ensures
            r matches Err(e) ==> geometry_error(blk_size as nat, assoc as nat, cache_size as nat) == Some(e),
            r matches Ok(c) ==> {
                &&& geometry_error(blk_size as nat, assoc as nat, cache_size as nat) is None
                &&& c.wf()
                &&& c.blk_size == blk_size
                &&& c.assoc == assoc
                &&& c.size == cache_size
                &&& c.policy == policy
                &&& c.accesses == 0
                &&& c.misses == 0
                &&& forall|i: int| 0 <= i < c.sets@.len() ==> (#[trigger] c.sets@[i]).is_fresh()
            },
            r is Ok <==> geometry_error(blk_size as nat, assoc as nat, cache_size as nat) is None,
    {
        match Cache::checkParams(blk_size, assoc, cache_size) {
            Err(e) => {
                return Err(e);
            },
            Ok(()) => {},
        }
        proof {
            lemma_divides_product(cache_size as int, blk_size as int, assoc as int);
        }
        let n = cache_size / blk_size / assoc;
        let block_shift = match exact_log2(blk_size) {
            Some(s) => s,
            None => {
                return Err(ConfigError::NotPowerOfTwo);
            },
        };
        proof {
            reveal(is_pow2);
        }
        let blk_mask = (blk_size - 1) as u64;
        let set_mask = ((n - 1) as u64) << block_shift;
        let tag_mask = !(set_mask | blk_mask);
        let mut sets: Vec<CacheSet> = Vec::with_capacity(n);
        let mut i: usize = 0;
        while i < n
            invariant
                i <= n,
                assoc > 0,
                sets@.len() == i,
                forall|k: int|
                    0 <= k < i ==> {
                        &&& (#[trigger] sets@[k]).wf()
                        &&& sets@[k].assoc() == assoc
                        &&& sets@[k].policy() == policy
                        &&& sets@[k].is_fresh()
                    },
            decreases n - i,
        {
            sets.push(CacheSet::new(policy, assoc));
            i += 1;
        }
        Ok(
            Cache {
                sets,
                policy,
                blk_size,
                assoc,
                size: cache_size,
                block_shift,
                set_mask,
                tag_mask,
                accesses: 0,
                misses: 0,
            },
        )
    }

    /// The tag bits of `addr`.
    #[allow(non_snake_case)]
    pub fn extractTag(&self, addr: u64) -> (r: u64)
        ensures
            r == self.tag_of(addr),
    {
        addr & self.tag_mask
    }

    /// The index of the set that `addr` maps to.
    #[allow(non_snake_case)]
    pub fn extractSet(&self, addr: u64) -> (r: usize)
        requires
            self.wf(),
        ensures
            r == self.set_of(addr),
            r < self.sets@.len(),
    {
        let len = self.sets.len();
        proof {
            let m = (self.num_sets() - 1) as u64;
            assert(m as int == self.num_sets() - 1);
            lemma_set_bits(addr, m, self.block_shift);
        }
        ((addr & self.set_mask) >> self.block_shift) as usize
    }

    /// Simulates one access of `addr`; returns whether it hit.
    pub fn access(&mut self, addr: u64) -> (hit: bool)
        requires
            old(self).wf(),
            old(self).accesses < u64::MAX,
        ensures
            final(self).wf(),
            old(self).accessed(final(self), addr, hit),
    {
        let tag = self.extractTag(addr);
        let set = self.extractSet(addr);
        self.accesses = self.accesses + 1;
        assert(self.sets@[set as int].wf());
        let hit = self.sets[set].access(tag);
        if !hit {
            self.misses = self.misses + 1;
        }
        hit
    }

    pub fn accesses(&self) -> (r: u64)
        ensures
            r == self.accesses,
    {
        self.accesses
    }

    pub fn misses(&self) -> (r: u64)
        ensures
            r == self.misses,
    {
        self.misses
    }
}

} // verus!
