use vstd::prelude::*;

use crate::block::{
    all_valid, contains_tag, empty_blocks, find_invalid, find_tag, holds_tag, is_first_invalid,
    tags_unique, CacheBlock,
};

verus! {

/// A cache set that evicts the least recently used block.
#[derive(Debug)]
pub struct LRUCacheSet {
    pub blocks: Vec<CacheBlock>,
    /// Counts the accesses made to this set; its value is the stamp of the next access.
    pub gen_counter: u64,
    pub assoc: usize,
}

/// `v` is the block that the LRU policy replaces on a miss: the first invalid
/// block, or when all are valid the first block with the smallest stamp.
pub open spec fn is_lru_victim(s: Seq<CacheBlock>, v: int) -> bool {
    if all_valid(s) {
        &&& 0 <= v < s.len()
        &&& forall|j: int| 0 <= j < s.len() ==> s[v].priority <= #[trigger] s[j].priority
        &&& forall|j: int| 0 <= j < v ==> s[v].priority < #[trigger] s[j].priority
    } else {
        is_first_invalid(s, v)
    }
}

/// One access of `tag` takes the blocks `s` with generation `g` to `t`, answering `hit`.
pub open spec fn lru_step(s: Seq<CacheBlock>, g: u64, tag: u64, t: Seq<CacheBlock>, hit: bool) -> bool {
    &&& hit == contains_tag(s, tag)
    &&& hit ==> exists|i: int|
        0 <= i < s.len() && #[trigger] holds_tag(s[i], tag) && t == s.update(
            i,
            CacheBlock { priority: g, ..s[i] },
        )
    &&& !hit ==> exists|v: int|
        #[trigger] is_lru_victim(s, v) && t == s.update(
            v,
            CacheBlock { tag, valid: true, priority: g },
        )
}

impl LRUCacheSet {
    pub open spec fn wf(&self) -> bool {
        &&& self.assoc > 0
        &&& self.blocks@.len() == self.assoc
        &&& tags_unique(self.blocks@)
    }

    pub fn new(assoc: usize) -> (r: Self)
        requires
            assoc > 0,
        ensures
            r.wf(),
            r.assoc == assoc,
            r.gen_counter == 0,
            crate::block::all_invalid(r.blocks@),
    {
        LRUCacheSet { blocks: empty_blocks(assoc), gen_counter: 0, assoc }
    }

    /// Looks `tag` up, installing it on a miss; returns whether it hit.
    pub fn access(&mut self, tag: u64) -> (hit: bool)
        requires
            old(self).wf(),
            old(self).gen_counter < u64::MAX,
        ensures
            final(self).wf(),
            final(self).assoc == old(self).assoc,
            final(self).gen_counter == old(self).gen_counter + 1,
            lru_step(old(self).blocks@, old(self).gen_counter, tag, final(self).blocks@, hit),
            contains_tag(final(self).blocks@, tag),
    {
        let stamp = self.gen_counter;
        self.gen_counter = stamp + 1;
        match find_tag(&self.blocks, tag) {
            Some(i) => {
                let b = self.blocks[i];
                let ghost s = self.blocks@;
                self.blocks.set(i, CacheBlock { priority: stamp, ..b });
                assert(forall|j: int| 0 <= j < s.len() ==> #[trigger] self.blocks@[j].valid == s[j].valid && self.blocks@[j].tag == s[j].tag);
                assert(holds_tag(self.blocks@[i as int], tag));
                true
            },
            None => {
                let v = match find_invalid(&self.blocks) {
                    Some(v) => v,
                    None => self.oldest(),
                };
                let ghost s = self.blocks@;
                self.blocks.set(v, CacheBlock { tag, valid: true, priority: stamp });
                assert(is_lru_victim(s, v as int));
                assert(forall|j: int| 0 <= j < s.len() && j != v ==> #[trigger] self.blocks@[j] == s[j]);
                assert(forall|j: int| 0 <= j < s.len() && j != v ==> !holds_tag(#[trigger] self.blocks@[j], tag));
                assert(holds_tag(self.blocks@[v as int], tag));
                false
            },
        }
    }

    /// The first block with the smallest stamp.
    fn oldest(&self) -> (v: usize)
        requires
            self.wf(),
            all_valid(self.blocks@),
        ensures
            is_lru_victim(self.blocks@, v as int),
    {
        let mut v: usize = 0;
        let mut i: usize = 1;
        while i < self.blocks.len()
            invariant
                self.wf(),
                1 <= i <= self.blocks@.len(),
                v < i,
                forall|j: int| 0 <= j < i ==> self.blocks@[v as int].priority <= #[trigger] self.blocks@[j].priority,
                forall|j: int| 0 <= j < v ==> self.blocks@[v as int].priority < #[trigger] self.blocks@[j].priority,
            decreases self.blocks@.len() - i,
        {
            if self.blocks[i].priority < self.blocks[v].priority {
                v = i;
            }
            i += 1;
        }
        v
    }
}

} // verus!
