use vstd::prelude::*;

use rand::rngs::SmallRng;
use rand::RngExt;

use crate::block::{
    all_valid, contains_tag, empty_blocks, find_invalid, find_tag, fresh_block, holds_tag,
    is_first_invalid, tags_unique, CacheBlock,
};

verus! {

#[verifier::external_type_specification]
#[verifier::external_body]
pub struct ExSmallRng(SmallRng);

/// Relies on rand::make_rng: a generator seeded afresh from the thread-local one.
#[verifier::external_body]
fn seeded_rng() -> (r: SmallRng) {
    rand::make_rng::<SmallRng>()
}

/// Relies on RngExt::random_range over `0..n`: a value in that range; it panics when the range is empty.
#[verifier::external_body]
fn draw_index(rng: &mut SmallRng, n: usize) -> (r: usize)
    requires
        n > 0,
    ensures
        r < n,
{
    rng.random_range(0..n)
}

/// A cache set that evicts a block chosen uniformly at random.
#[derive(Debug)]
pub struct RandCacheSet {
    pub blocks: Vec<CacheBlock>,
    pub assoc: usize,
    pub rng: SmallRng,
}

/// `v` is the block that the random policy replaces on a miss when `r` was
/// drawn: the first invalid block, or when all are valid block `r`.
pub open spec fn is_rand_victim(s: Seq<CacheBlock>, r: int, v: int) -> bool {
    if all_valid(s) {
        v == r
    } else {
        is_first_invalid(s, v)
    }
}

/// One access of `tag`, with `r` drawn, takes blocks `s` to `t`, answering `hit`.
pub open spec fn rand_step(s: Seq<CacheBlock>, r: int, tag: u64, t: Seq<CacheBlock>, hit: bool) -> bool {
    &&& hit == contains_tag(s, tag)
    &&& hit ==> t == s
    &&& !hit ==> exists|v: int| #[trigger] is_rand_victim(s, r, v) && t == s.update(v, fresh_block(tag))
}

impl RandCacheSet {
    pub open spec fn wf(&self) -> bool {
        &&& self.assoc > 0
        &&& self.blocks@.len() == self.assoc
        &&& tags_unique(self.blocks@)
    }

    pub fn new(assoc: usize) -> (r: Self)
        requires
            assoc > 0,
        ensures
            r.wf(),
            r.assoc == assoc,
            crate::block::all_invalid(r.blocks@),
    {
        RandCacheSet { blocks: empty_blocks(assoc), assoc, rng: seeded_rng() }
    }

    /// Looks `tag` up, installing it on a miss; when the set is full the block
    /// at index `r` is the one replaced.
    pub fn access_with_victim(&mut self, tag: u64, r: usize) -> (hit: bool)
        requires
            old(self).wf(),
            r < old(self).assoc,
        ensures
            final(self).wf(),
            final(self).assoc == old(self).assoc,
            rand_step(old(self).blocks@, r as int, tag, final(self).blocks@, hit),
            contains_tag(final(self).blocks@, tag),
    {
        if find_tag(&self.blocks, tag).is_some() {
            return true;
        }
        let ghost s = self.blocks@;
        let v = match find_invalid(&self.blocks) {
            Some(v) => v,
            None => r,
        };
        self.install(tag, v);
        assert(is_rand_victim(s, r as int, v as int));
        false
    }

    /// Looks `tag` up, installing it on a miss; when the set is full the
    /// replaced block is drawn uniformly at random.
    pub fn access(&mut self, tag: u64) -> (hit: bool)
        requires
            old(self).wf(),
        ensures
            final(self).wf(),
            final(self).assoc == old(self).assoc,
            exists|r: int|
                0 <= r < old(self).assoc && #[trigger] rand_step(
                    old(self).blocks@,
                    r,
                    tag,
                    final(self).blocks@,
                    hit,
                ),
            contains_tag(final(self).blocks@, tag),
    {
        if find_tag(&self.blocks, tag).is_some() {
            assert(rand_step(self.blocks@, 0, tag, self.blocks@, true));
            return true;
        }
        let ghost s = self.blocks@;
        let v = match find_invalid(&self.blocks) {
            Some(v) => v,
            None => draw_index(&mut self.rng, self.blocks.len()),
        };
        self.install(tag, v);
        assert(is_rand_victim(s, v as int, v as int));
        assert(rand_step(s, v as int, tag, self.blocks@, false));
        false
    }

    fn install(&mut self, tag: u64, v: usize)
        requires
            old(self).wf(),
            v < old(self).assoc,
            !contains_tag(old(self).blocks@, tag),
        ensures
            final(self).wf(),
            final(self).assoc == old(self).assoc,
            final(self).blocks@ == old(self).blocks@.update(v as int, fresh_block(tag)),
            contains_tag(final(self).blocks@, tag),
    {
        let ghost s = self.blocks@;
        self.blocks.set(v, CacheBlock::new(tag, true));
        assert(forall|j: int| 0 <= j < s.len() && j != v ==> #[trigger] self.blocks@[j] == s[j]);
        assert(forall|j: int| 0 <= j < s.len() && j != v ==> !holds_tag(#[trigger] self.blocks@[j], tag));
        assert(holds_tag(self.blocks@[v as int], tag));
    }
}

} // verus!
