use vstd::prelude::*;

use vstd::arithmetic::div_mod::{lemma_fundamental_div_mod, lemma_small_mod};
use vstd::arithmetic::power2::{lemma2_to64, lemma_pow2_strictly_increases};

use crate::block::{all_invalid, contains_tag, fresh_block, holds_tag, CacheBlock};
use crate::cache::Cache;
use crate::hierarchy::MemoryHierarchy;
use crate::fifo::{fifo_step, is_fifo_victim, FIFOCacheSet};
use crate::lru::{is_lru_victim, lru_step, LRUCacheSet};
use crate::random::{is_rand_victim, rand_step};
use crate::set::CacheSet;

verus! {

/// The number of `true` entries of `s`.
pub open spec fn count_hits(s: Seq<bool>) -> nat
    decreases s.len(),
{
    if s.len() == 0 {
        0
    } else {
        count_hits(s.drop_last()) + if s.last() { 1nat } else { 0nat }
    }
}

/// Over any run of accesses on a cache that has counted none yet, the number
/// of accesses equals the number of accesses that hit plus the number of misses.
pub proof fn lemma_accesses_are_hits_plus_misses(run: Seq<Cache>, addrs: Seq<u64>, hits: Seq<bool>)
    requires
        run.len() == addrs.len() + 1,
        hits.len() == addrs.len(),
        run[0].accesses == 0,
        run[0].misses == 0,
        forall|i: int| 0 <= i < addrs.len() ==> #[trigger] run[i].accessed(&run[i + 1], addrs[i], hits[i]),
    ensures
        run.last().accesses == count_hits(hits) + run.last().misses,
    decreases addrs.len(),
{
    if addrs.len() > 0 {
        let n = addrs.len() - 1;
        assert(run[n].accessed(&run[n + 1], addrs[n], hits[n]));
        lemma_accesses_are_hits_plus_misses(run.drop_last(), addrs.drop_last(), hits.drop_last());
        assert(run.drop_last().last() == run[n]);
    }
}

/// One step of any policy answers a hit exactly when the set held the tag.
pub proof fn lemma_step_hits_iff_present(s: CacheSet, t: CacheSet, tag: u64, hit: bool)
    requires
        s.step(t, tag, hit),
    ensures
        hit == contains_tag(s.blocks(), tag),
{
    if let CacheSet::Rand(a) = s {
        if let CacheSet::Rand(b) = t {
            let r = choose|r: int| 0 <= r < a.assoc && #[trigger] rand_step(a.blocks@, r, tag, b.blocks@, hit);
        }
    }
}

/// After a set with no valid block takes one step on `tag`, the only tag it holds is `tag`.
proof fn lemma_first_fill(s: CacheSet, t: CacheSet, tag: u64, hit: bool, other: u64)
    requires
        s.step(t, tag, hit),
        s.wf(),
        all_invalid(s.blocks()),
        other != tag,
    ensures
        !contains_tag(t.blocks(), other),
{
    lemma_step_hits_iff_present(s, t, tag, hit);
    let sb = s.blocks();
    assert(!contains_tag(sb, tag)) by {
        assert(forall|i: int| 0 <= i < sb.len() ==> !#[trigger] holds_tag(sb[i], tag));
    }
    assert(!sb[0].valid);
    match (s, t) {
        (CacheSet::Lru(a), CacheSet::Lru(b)) => {
            let v = choose|v: int|
                #[trigger] is_lru_victim(a.blocks@, v) && b.blocks@ == a.blocks@.update(
                    v,
                    CacheBlock { tag, valid: true, priority: a.gen_counter },
                );
            lemma_update_invalid(a.blocks@, v, CacheBlock { tag, valid: true, priority: a.gen_counter }, other);
        },
        (CacheSet::Fifo(a), CacheSet::Fifo(b)) => {
            let v = choose|v: int|
                #[trigger] is_fifo_victim(a.blocks@, a.order(), v) && b.blocks@ == a.blocks@.update(
                    v,
                    fresh_block(tag),
                );
            lemma_update_invalid(a.blocks@, v, fresh_block(tag), other);
        },
        (CacheSet::Rand(a), CacheSet::Rand(b)) => {
            let r = choose|r: int| 0 <= r < a.assoc && #[trigger] rand_step(a.blocks@, r, tag, b.blocks@, hit);
            let v = choose|v: int|
                #[trigger] is_rand_victim(a.blocks@, r, v) && b.blocks@ == a.blocks@.update(v, fresh_block(tag));
            lemma_update_invalid(a.blocks@, v, fresh_block(tag), other);
        },
        _ => {},
    }
}

proof fn lemma_update_invalid(s: Seq<CacheBlock>, v: int, x: CacheBlock, other: u64)
    requires
        all_invalid(s),
        0 <= v < s.len(),
        x.tag != other,
    ensures
        !contains_tag(s.update(v, x), other),
{
    let t = s.update(v, x);
    assert forall|i: int| 0 <= i < t.len() implies !#[trigger] holds_tag(t[i], other) by {
        if i != v {
            assert(t[i] == s[i]);
        }
    }
}

/// Facts of the geometry of 64-byte blocks, 4 ways and 32768 bytes.
proof fn lemma_geometry_64_4_32768(c: Cache)
    requires
        c.wf(),
        c.blk_size == 64,
        c.assoc == 4,
        c.size == 32768,
    ensures
        c.num_sets() == 128,
        c.block_shift == 6,
        c.set_mask == 127u64 << 6u64,
        c.tag_mask == !((127u64 << 6u64) | 63u64),
{
    lemma2_to64();
    if c.block_shift < 6 {
        lemma_pow2_strictly_increases(c.block_shift as nat, 6);
    } else if c.block_shift > 6 {
        lemma_pow2_strictly_increases(6, c.block_shift as nat);
    }
    assert(64nat * 4nat == 256nat);
    assert(32768nat / 256nat == 128nat);
}

/// With 64-byte blocks, 4 ways and 32768 bytes the cache has 128 sets; two
/// addresses in one block have the same tag and set, and adding block size
/// times set count to an address keeps its set and changes its tag.
pub proof fn lemma_decomposition_64_4_32768(c: Cache, a: u64, b: u64)
    requires
        c.wf(),
        c.blk_size == 64,
        c.assoc == 4,
        c.size == 32768,
    ensures
        c.num_sets() == 128,
        c.set_of(a) < 128,
        a / 64 == b / 64 ==> c.tag_of(a) == c.tag_of(b) && c.set_of(a) == c.set_of(b),
        a < u64::MAX - 8192 ==> c.set_of((a + 64 * 128) as u64) == c.set_of(a) && c.tag_of(
            (a + 64 * 128) as u64,
        ) != c.tag_of(a),
{
    lemma_geometry_64_4_32768(c);
    assert(a / 64 == b / 64 ==> (a & !((127u64 << 6u64) | 63u64)) == (b & !((127u64 << 6u64) | 63u64))
        && (a & (127u64 << 6u64)) >> 6u64 == (b & (127u64 << 6u64)) >> 6u64) by (bit_vector);
    assert((a & (127u64 << 6u64)) >> 6u64 <= 127u64) by (bit_vector);
    let a2 = (a + 8192) as u64;
    assert(a < 0xffff_ffff_ffff_dfffu64 && a2 == (a + 8192u64) as u64 ==> (a2 & (127u64 << 6u64)) >> 6u64
        == (a & (127u64 << 6u64)) >> 6u64 && (a2 & !((127u64 << 6u64) | 63u64)) != (a & !((127u64
        << 6u64) | 63u64))) by (bit_vector);
}

/// In a cache of 64-byte blocks, 4 ways and 32768 bytes whose sets are all
/// empty, accessing `a` and then an address `b` in the same block hits, while
/// accessing `a` and then `a` plus block size times set count misses.
pub proof fn lemma_same_block_hits_other_tag_misses(
    c0: Cache,
    c1: Cache,
    c2: Cache,
    a: u64,
    b: u64,
    h1: bool,
    h2: bool,
)
    requires
        c0.wf(),
        c0.blk_size == 64,
        c0.assoc == 4,
        c0.size == 32768,
        forall|i: int| 0 <= i < c0.sets@.len() ==> (#[trigger] c0.sets@[i]).is_fresh(),
        c0.accessed(&c1, a, h1),
        c1.accessed(&c2, b, h2),
    ensures
        a / 64 == b / 64 ==> h2,
        a < u64::MAX - 8192 && b == a + 64 * 128 ==> !h2,
{
    lemma_decomposition_64_4_32768(c0, a, b);
    lemma_step_hits_iff_present(c1.sets@[c1.set_of(b)], c2.sets@[c1.set_of(b)], c1.tag_of(b), h2);
    if a < u64::MAX - 8192 && b == a + 64 * 128 {
        lemma_first_fill(c0.sets@[c0.set_of(a)], c1.sets@[c0.set_of(a)], c0.tag_of(a), h1, c0.tag_of(b));
    }
}

/// Recording one address twice, whatever text comes with each call, hands
/// back the same handle and adds no second record: the registry then holds
/// exactly one record for the address.
pub proof fn lemma_record_once(
    m0: MemoryHierarchy,
    m1: MemoryHierarchy,
    m2: MemoryHierarchy,
    addr: u64,
    d1: String,
    s1: String,
    d2: String,
    s2: String,
    h1: usize,
    h2: usize,
)
    requires
        m0.wf(),
        m0.recorded(&m1, addr, d1, s1, h1),
        m1.recorded(&m2, addr, d2, s2, h2),
    ensures
        h1 == h2,
        m2.insns@ == m1.insns@,
        forall|i: int| 0 <= i < m2.insns@.len() ==> (#[trigger] m2.insns@[i].addr == addr <==> i == h2),
{
    assert(m1.index@.contains_key(m1.insns@[h1 as int].addr));
}

/// After `n` installs into an empty set, block `j` holds the `j`-th tag for
/// `j < n`, the rest are invalid, and the order is `0, 1, ..., n - 1`.
spec fn fifo_filled(b: Seq<CacheBlock>, o: Seq<usize>, tags: Seq<u64>, k: int, n: int) -> bool {
    &&& b.len() == k
    &&& o.len() == n
    &&& forall|j: int| 0 <= j < n ==> #[trigger] b[j] == fresh_block(tags[j]) && o[j] == j
    &&& forall|j: int| n <= j < k ==> !(#[trigger] b[j]).valid
}

/// The requirements shared by the FIFO lemmas: a run of FIFO steps on
/// distinct tags from a set of `k` ways that starts empty.
spec fn fifo_run(run: Seq<FIFOCacheSet>, tags: Seq<u64>, hits: Seq<bool>) -> bool {
    &&& run.len() == tags.len() + 1
    &&& hits.len() == tags.len()
    &&& run[0].wf()
    &&& all_invalid(run[0].blocks@)
    &&& run[0].order() == Seq::<usize>::empty()
    &&& forall|i: int, j: int| 0 <= i < tags.len() && 0 <= j < tags.len() && i != j ==> tags[i] != tags[j]
    &&& forall|i: int|
        0 <= i < tags.len() ==> #[trigger] fifo_step(
            run[i].blocks@,
            run[i].order(),
            tags[i],
            run[i + 1].blocks@,
            run[i + 1].order(),
            hits[i],
        )
}

proof fn lemma_fifo_fill(run: Seq<FIFOCacheSet>, tags: Seq<u64>, hits: Seq<bool>, n: int)
    requires
        fifo_run(run, tags, hits),
        0 <= n <= run[0].assoc,
        n <= tags.len(),
    ensures
        fifo_filled(run[n].blocks@, run[n].order(), tags, run[0].assoc as int, n),
        forall|i: int| 0 <= i < n ==> !hits[i],
    decreases n,
{
    let k = run[0].assoc as int;
    if n > 0 {
        lemma_fifo_fill(run, tags, hits, n - 1);
        let m = n - 1;
        let s = run[m].blocks@;
        let o = run[m].order();
        let t = tags[m];
        assert(fifo_step(s, o, t, run[m + 1].blocks@, run[m + 1].order(), hits[m]));
        assert(run[m + 1] == run[n]);
        assert forall|i: int| 0 <= i < s.len() implies !#[trigger] holds_tag(s[i], t) by {
            if i < m {
                assert(s[i] == fresh_block(tags[i]));
            }
        }
        assert(!s[m].valid);
        let v = choose|v: int|
            #[trigger] is_fifo_victim(s, o, v) && run[n].blocks@ == s.update(v, fresh_block(t))
                && run[n].order() == o.push(v as usize);
        if v < m {
            assert(s[v] == fresh_block(tags[v]));
        }
        assert(v == m);
        let b2 = run[n].blocks@;
        let o2 = run[n].order();
        assert forall|j: int| 0 <= j < n implies #[trigger] b2[j] == fresh_block(tags[j]) && o2[j] == j by {
            if j < m {
                assert(b2[j] == s[j]);
                assert(o2[j] == o[j]);
            }
        }
        assert forall|j: int| n <= j < k implies !(#[trigger] b2[j]).valid by {
            assert(b2[j] == s[j]);
        }
    }
}

/// A FIFO set of `k` ways that starts empty and is handed `k + 1` distinct
/// tags misses on each; the `k + 1`-th miss evicts the first tag installed,
/// and every other tag stays.
pub proof fn lemma_fifo_evicts_first_installed(run: Seq<FIFOCacheSet>, tags: Seq<u64>, hits: Seq<bool>)
    requires
        run.len() == tags.len() + 1,
        hits.len() == tags.len(),
        run[0].wf(),
        all_invalid(run[0].blocks@),
        run[0].order() == Seq::<usize>::empty(),
        tags.len() == run[0].assoc + 1,
        forall|i: int, j: int| 0 <= i < tags.len() && 0 <= j < tags.len() && i != j ==> tags[i] != tags[j],
        forall|i: int|
            0 <= i < tags.len() ==> #[trigger] fifo_step(
                run[i].blocks@,
                run[i].order(),
                tags[i],
                run[i + 1].blocks@,
                run[i + 1].order(),
                hits[i],
            ),
    ensures
        forall|i: int| 0 <= i < hits.len() ==> !hits[i],
        !contains_tag(run.last().blocks@, tags[0]),
        forall|j: int| 1 <= j < tags.len() ==> contains_tag(run.last().blocks@, #[trigger] tags[j]),
{
    let k = run[0].assoc as int;
    assert(fifo_run(run, tags, hits));
    lemma_fifo_fill(run, tags, hits, k);
    let s = run[k].blocks@;
    let o = run[k].order();
    let t = tags[k];
    assert(fifo_step(s, o, t, run[k + 1].blocks@, run[k + 1].order(), hits[k]));
    assert forall|i: int| 0 <= i < s.len() implies !#[trigger] holds_tag(s[i], t) by {
        assert(s[i] == fresh_block(tags[i]));
    }
    assert forall|j: int| 0 <= j < s.len() implies #[trigger] s[j].valid by {
        assert(s[j] == fresh_block(tags[j]));
    }
    assert(s[0] == fresh_block(tags[0]));
    assert(o[0] == 0);
    let b2 = run[k + 1].blocks@;
    assert(b2 == s.update(0, fresh_block(t)));
    assert(run.last() == run[k + 1]);
    assert forall|i: int| 0 <= i < b2.len() implies !#[trigger] holds_tag(b2[i], tags[0]) by {
        if i != 0 {
            assert(b2[i] == fresh_block(tags[i]));
        }
    }
    assert forall|j: int| 1 <= j < tags.len() implies contains_tag(b2, #[trigger] tags[j]) by {
        if j < k {
            assert(b2[j] == fresh_block(tags[j]));
            assert(holds_tag(b2[j], tags[j]));
        } else {
            assert(holds_tag(b2[0], tags[j]));
        }
    }
}

proof fn lemma_cycle_distinct(p: int, g: int, k: int)
    requires
        k >= 1,
        0 <= p,
        g - k <= p < g,
    ensures
        p % (k + 1) != g % (k + 1),
{
    let n = k + 1;
    lemma_fundamental_div_mod(p, n);
    lemma_fundamental_div_mod(g, n);
    if p % n == g % n {
        let d = g / n - p / n;
        assert(g - p == n * d) by (nonlinear_arith)
            requires
                p == n * (p / n) + p % n,
                g == n * (g / n) + g % n,
                p % n == g % n,
                d == g / n - p / n,
        ;
        if d >= 1 {
            assert(n * d >= n) by (nonlinear_arith)
                requires
                    d >= 1,
                    n >= 2,
            ;
        } else {
            assert(n * d <= 0) by (nonlinear_arith)
                requires
                    d <= 0,
                    n >= 2,
            ;
        }
    }
}

/// The requirements shared by the LRU lemmas: a run of LRU steps from an
/// empty set of `k` ways over a cycle of `k + 1` distinct tags.
spec fn lru_run(run: Seq<LRUCacheSet>, cyc: Seq<u64>, hits: Seq<bool>) -> bool {
    let k = run[0].assoc as int;
    &&& run.len() == hits.len() + 1
    &&& forall|i: int| 0 <= i < run.len() ==> (#[trigger] run[i]).wf()
    &&& run[0].gen_counter == 0
    &&& all_invalid(run[0].blocks@)
    &&& cyc.len() == k + 1
    &&& forall|a: int, b: int| 0 <= a < cyc.len() && 0 <= b < cyc.len() && a != b ==> cyc[a] != cyc[b]
    &&& forall|i: int| 0 <= i < hits.len() ==> #[trigger] lru_tick(run, cyc, hits, i)
}

/// Access `i` of the run is one LRU step on the tag of the cycle it is at.
spec fn lru_tick(run: Seq<LRUCacheSet>, cyc: Seq<u64>, hits: Seq<bool>, i: int) -> bool {
    &&& run[i + 1].gen_counter == run[i].gen_counter + 1
    &&& lru_step(
        run[i].blocks@,
        run[i].gen_counter,
        cyc[i % (run[0].assoc + 1)],
        run[i + 1].blocks@,
        hits[i],
    )
}

/// After the first `n` accesses, block `j < n` holds the `j`-th tag stamped
/// `j`, and the rest are invalid.
spec fn lru_filling(b: Seq<CacheBlock>, cyc: Seq<u64>, k: int, n: int) -> bool {
    &&& b.len() == k
    &&& forall|j: int| 0 <= j < n ==> #[trigger] b[j] == (CacheBlock { tag: cyc[j], valid: true, priority: j as u64 })
    &&& forall|j: int| n <= j < k ==> !(#[trigger] b[j]).valid
}

/// After `g >= k` accesses, every block is valid, its stamp is one of the
/// last `k`, its tag is the one accessed at that stamp, and each of the last
/// `k` stamps is on some block.
spec fn lru_steady(b: Seq<CacheBlock>, cyc: Seq<u64>, k: int, g: int) -> bool {
    &&& b.len() == k
    &&& forall|j: int|
        0 <= j < k ==> (#[trigger] b[j]).valid && g - k <= b[j].priority < g && b[j].tag == cyc[(b[j].priority as int) % (k + 1)]
    &&& forall|p: int| g - k <= p < g ==> #[trigger] stamped(b, p)
}

/// Some block of `b` carries the stamp `p`.
spec fn stamped(b: Seq<CacheBlock>, p: int) -> bool {
    exists|j: int| 0 <= j < b.len() && (#[trigger] b[j]).priority == p
}

proof fn lemma_lru_fill(run: Seq<LRUCacheSet>, cyc: Seq<u64>, hits: Seq<bool>, n: int)
    requires
        lru_run(run, cyc, hits),
        0 <= n <= run[0].assoc,
        n <= hits.len(),
    ensures
        lru_filling(run[n].blocks@, cyc, run[0].assoc as int, n),
        run[n].gen_counter == n,
        forall|i: int| 0 <= i < n ==> !hits[i],
    decreases n,
{
    let k = run[0].assoc as int;
    if n > 0 {
        let m = n - 1;
        lemma_lru_fill(run, cyc, hits, m);
        let s = run[m].blocks@;
        lemma_small_mod(m as nat, (k + 1) as nat);
        let t = cyc[m];
        assert(lru_tick(run, cyc, hits, m));
        assert(lru_step(s, run[m].gen_counter, cyc[m % (k + 1)], run[m + 1].blocks@, hits[m]));
        assert(run[m + 1] == run[n]);
        assert forall|i: int| 0 <= i < s.len() implies !#[trigger] holds_tag(s[i], t) by {
            if i < m {
                assert(s[i].tag == cyc[i]);
            }
        }
        assert(!s[m].valid);
        let v = choose|v: int|
            #[trigger] is_lru_victim(s, v) && run[n].blocks@ == s.update(
                v,
                CacheBlock { tag: t, valid: true, priority: m as u64 },
            );
        if v < m {
            assert(s[v].valid);
        }
        assert(v == m);
        let b2 = run[n].blocks@;
        assert forall|j: int| 0 <= j < n implies #[trigger] b2[j] == (CacheBlock { tag: cyc[j], valid: true, priority: j as u64 }) by {
            if j < m {
                assert(b2[j] == s[j]);
            }
        }
        assert forall|j: int| n <= j < k implies !(#[trigger] b2[j]).valid by {
            assert(b2[j] == s[j]);
        }
    }
}

proof fn lemma_lru_steady(run: Seq<LRUCacheSet>, cyc: Seq<u64>, hits: Seq<bool>, n: int)
    requires
        lru_run(run, cyc, hits),
        run[0].assoc <= n <= hits.len(),
    ensures
        lru_steady(run[n].blocks@, cyc, run[0].assoc as int, n),
        run[n].gen_counter == n,
        forall|i: int| 0 <= i < n ==> !hits[i],
    decreases n,
{
    let k = run[0].assoc as int;
    if n == k {
        lemma_lru_fill(run, cyc, hits, k);
        let b = run[n].blocks@;
        assert forall|j: int| 0 <= j < k implies (#[trigger] b[j]).valid && n - k <= b[j].priority < n
            && b[j].tag == cyc[(b[j].priority as int) % (k + 1)] by {
            assert(b[j] == (CacheBlock { tag: cyc[j], valid: true, priority: j as u64 }));
            lemma_small_mod(j as nat, (k + 1) as nat);
        }
        assert forall|p: int| n - k <= p < n implies #[trigger] stamped(b, p) by {
            assert(b[p] == (CacheBlock { tag: cyc[p], valid: true, priority: p as u64 }));
        }
    } else {
        let m = n - 1;
        lemma_lru_steady(run, cyc, hits, m);
        let s = run[m].blocks@;
        let g = m;
        assert(run[0].wf());
        assert(k >= 1);
        let t = cyc[m % (k + 1)];
        assert(lru_tick(run, cyc, hits, m));
        assert(lru_step(s, run[m].gen_counter, t, run[m + 1].blocks@, hits[m]));
        assert(run[m + 1] == run[n]);
        assert(run[m].wf());
        assert forall|i: int| 0 <= i < s.len() implies !#[trigger] holds_tag(s[i], t) by {
            let p = s[i].priority as int;
            lemma_cycle_distinct(p, g, k);
            lemma_fundamental_div_mod(p, k + 1);
            lemma_fundamental_div_mod(g, k + 1);
        }
        assert(!contains_tag(s, t));
        assert(crate::block::all_valid(s)) by {
            assert forall|j: int| 0 <= j < s.len() implies #[trigger] s[j].valid by {
                assert(s[j].valid);
            }
        }
        let v = choose|v: int|
            #[trigger] is_lru_victim(s, v) && run[n].blocks@ == s.update(
                v,
                CacheBlock { tag: t, valid: true, priority: m as u64 },
            );
        assert(stamped(s, g - k));
        let j0 = choose|j: int| 0 <= j < s.len() && (#[trigger] s[j]).priority == g - k;
        assert(s[v].priority <= s[j0].priority);
        assert(s[v].priority == g - k);
        let b2 = run[n].blocks@;
        assert forall|j: int| 0 <= j < k implies (#[trigger] b2[j]).valid && n - k <= b2[j].priority < n
            && b2[j].tag == cyc[(b2[j].priority as int) % (k + 1)] by {
            if j != v {
                assert(b2[j] == s[j]);
                assert(s[j].valid && s[v].valid);
                if s[j].priority == g - k {
                    assert(s[j].tag == s[v].tag);
                }
            }
        }
        assert forall|p: int| n - k <= p < n implies #[trigger] stamped(b2, p) by {
            if p == g {
                assert(b2[v].priority == p);
            } else {
                assert(stamped(s, p));
                let j = choose|j: int| 0 <= j < s.len() && (#[trigger] s[j]).priority == p;
                assert(j != v);
                assert(b2[j] == s[j]);
            }
        }
    }
}

/// An LRU set of `k` ways that starts empty and is handed a cycle of `k + 1`
/// distinct tags, over and over, misses on every access: in each full cycle
/// each tag misses exactly once.
pub proof fn lemma_lru_cycle_always_misses(run: Seq<LRUCacheSet>, cyc: Seq<u64>, hits: Seq<bool>)
    requires
        run.len() == hits.len() + 1,
        forall|i: int| 0 <= i < run.len() ==> (#[trigger] run[i]).wf(),
        run[0].gen_counter == 0,
        all_invalid(run[0].blocks@),
        cyc.len() == run[0].assoc + 1,
        forall|a: int, b: int| 0 <= a < cyc.len() && 0 <= b < cyc.len() && a != b ==> cyc[a] != cyc[b],
        forall|i: int|
            0 <= i < hits.len() ==> run[i + 1].gen_counter == run[i].gen_counter + 1 && #[trigger] lru_step(
                run[i].blocks@,
                run[i].gen_counter,
                cyc[i % (run[0].assoc + 1)],
                run[i + 1].blocks@,
                hits[i],
            ),
    ensures
        forall|i: int| 0 <= i < hits.len() ==> !hits[i],
{
    assert forall|i: int| 0 <= i < hits.len() implies #[trigger] lru_tick(run, cyc, hits, i) by {
        assert(lru_step(run[i].blocks@, run[i].gen_counter, cyc[i % (run[0].assoc + 1)], run[i + 1].blocks@, hits[i]));
    }
    assert(lru_run(run, cyc, hits));
    if hits.len() >= run[0].assoc {
        lemma_lru_steady(run, cyc, hits, hits.len() as int);
    } else {
        lemma_lru_fill(run, cyc, hits, hits.len() as int);
    }
}

} // verus!
