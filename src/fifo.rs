use vstd::prelude::*;

use queues::{IsQueue, Queue};

use crate::block::{
    all_valid, contains_tag, empty_blocks, find_invalid, find_tag, fresh_block, holds_tag,
    is_first_invalid, tags_unique, CacheBlock,
};

verus! {

#[verifier::external_type_specification]
#[verifier::external_body]
#[verifier::reject_recursive_types(T)]
pub struct ExQueue<T: Clone>(Queue<T>);

/// The elements of a queue of block indices, oldest first.
pub uninterp spec fn queue_items(q: Queue<usize>) -> Seq<usize>;

/// Relies on queues::Queue::new: the queue starts empty.
#[verifier::external_body]
fn empty_queue() -> (q: Queue<usize>)
    ensures
        queue_items(q) == Seq::<usize>::empty(),
{
    Queue::new()
}

/// Relies on IsQueue::add for Queue: the value is pushed at the tail, and the call always succeeds.
#[verifier::external_body]
fn enqueue(q: &mut Queue<usize>, x: usize)
    ensures
        queue_items(*final(q)) == queue_items(*old(q)).push(x),
{
    let _ = q.add(x);
}

/// Relies on IsQueue::remove for Queue: takes out the oldest value, or fails on an empty queue.
#[verifier::external_body]
fn dequeue(q: &mut Queue<usize>) -> (r: Option<usize>)
    ensures
        queue_items(*old(q)).len() > 0 ==> r == Some(queue_items(*old(q))[0])
            && queue_items(*final(q)) == queue_items(*old(q)).drop_first(),
        queue_items(*old(q)).len() == 0 ==> r is None && queue_items(*final(q)) == queue_items(*old(q)),
{
    q.remove().ok()
}

/// A cache set that evicts blocks in the order they were installed.
#[derive(Debug)]
pub struct FIFOCacheSet {
    pub blocks: Vec<CacheBlock>,
    /// Indices of the valid blocks, in installation order.
    pub queue: Queue<usize>,
    pub assoc: usize,
}

/// `v` is the block that the FIFO policy replaces on a miss: the first invalid
/// block, or when all are valid the oldest installed one.
pub open spec fn is_fifo_victim(s: Seq<CacheBlock>, order: Seq<usize>, v: int) -> bool {
    if all_valid(s) {
        order.len() > 0 && v == order[0]
    } else {
        is_first_invalid(s, v)
    }
}

/// One access of `tag` takes blocks `s` and order `o` to `t` and `p`, answering `hit`.
pub open spec fn fifo_step(
    s: Seq<CacheBlock>,
    o: Seq<usize>,
    tag: u64,
    t: Seq<CacheBlock>,
    p: Seq<usize>,
    hit: bool,
) -> bool {
    &&& hit == contains_tag(s, tag)
    &&& hit ==> t == s && p == o
    &&& !hit ==> exists|v: int|
        #[trigger] is_fifo_victim(s, o, v) && t == s.update(v, fresh_block(tag)) && p == (if all_valid(
            s,
        ) {
            o.drop_first()
        } else {
            o
        }).push(v as usize)
}

impl FIFOCacheSet {
    pub open spec fn order(&self) -> Seq<usize> {
        queue_items(self.queue)
    }

    pub open spec fn wf(&self) -> bool {
        &&& self.assoc > 0
        &&& self.blocks@.len() == self.assoc
        &&& tags_unique(self.blocks@)
        &&& self.order().no_duplicates()
        &&& forall|k: int| 0 <= k < self.order().len() ==> #[trigger] self.order()[k] < self.assoc
        &&& forall|i: int|
            0 <= i < self.assoc ==> (#[trigger] self.blocks@[i].valid <==> self.order().contains(
                i as usize,
            ))
    }

    pub fn new(assoc: usize) -> (r: Self)
        requires
            assoc > 0,
        ensures
            r.wf(),
            r.assoc == assoc,
            r.order() == Seq::<usize>::empty(),
            crate::block::all_invalid(r.blocks@),
    {
        FIFOCacheSet { blocks: empty_blocks(assoc), queue: empty_queue(), assoc }
    }

    /// Looks `tag` up, installing it on a miss; returns whether it hit.
    pub fn access(&mut self, tag: u64) -> (hit: bool)
        requires
            old(self).wf(),
        ensures
            final(self).wf(),
            final(self).assoc == old(self).assoc,
            fifo_step(
                old(self).blocks@,
                old(self).order(),
                tag,
                final(self).blocks@,
                final(self).order(),
                hit,
            ),
            contains_tag(final(self).blocks@, tag),
    {
        if find_tag(&self.blocks, tag).is_some() {
            return true;
        }
        let ghost s = self.blocks@;
        let ghost o = self.order();
        let v = match find_invalid(&self.blocks) {
            Some(v) => {
                assert(!o.contains(v));
                v
            },
            None => {
                assert(self.blocks@[0].valid);
                assert(o.contains(0usize));
                match dequeue(&mut self.queue) {
                    Some(h) => h,
                    None => {
                        // a full set has every block index queued
                        assert(false);
                        0
                    },
                }
            },
        };
        assert(is_fifo_victim(s, o, v as int));
        self.blocks.set(v, CacheBlock::new(tag, true));
        enqueue(&mut self.queue, v);
        proof {
            let p = self.order();
            let m = if all_valid(s) { o.drop_first() } else { o };
            assert(p == m.push(v));
            assert(forall|j: int| 0 <= j < s.len() && j != v ==> #[trigger] self.blocks@[j] == s[j]);
            assert(forall|j: int| 0 <= j < s.len() && j != v ==> !holds_tag(#[trigger] self.blocks@[j], tag));
            assert(holds_tag(self.blocks@[v as int], tag));
            assert(!m.contains(v)) by {
                if all_valid(s) {
                    assert(o[0] == v);
                    assert forall|k: int| 0 <= k < m.len() implies m[k] != v by {
                        assert(m[k] == o[k + 1]);
                    }
                }
            }
            assert forall|i: int| 0 <= i < self.assoc implies (#[trigger] self.blocks@[i].valid <==> p.contains(i as usize)) by {
                if i != v {
                    if s[i].valid {
                        let k = choose|k: int| 0 <= k < o.len() && o[k] == i as usize;
                        if all_valid(s) {
                            assert(k != 0);
                            assert(p[k - 1] == i as usize);
                        } else {
                            assert(p[k] == i as usize);
                        }
                    }
                    if p.contains(i as usize) {
                        let k = choose|k: int| 0 <= k < p.len() && p[k] == i as usize;
                        if all_valid(s) {
                            assert(o[k + 1] == i as usize);
                        } else {
                            assert(o[k] == i as usize);
                        }
                    }
                } else {
                    assert(p[p.len() - 1] == v);
                }
            }
            assert forall|k: int| 0 <= k < p.len() implies #[trigger] p[k] < self.assoc by {
                if k < p.len() - 1 {
                    if all_valid(s) {
                        assert(p[k] == o[k + 1]);
                    } else {
                        assert(p[k] == o[k]);
                    }
                }
            }
            assert(m.no_duplicates()) by {
                if all_valid(s) {
                    assert forall|a: int, b: int| 0 <= a < m.len() && 0 <= b < m.len() && a != b implies m[a] != m[b] by {
                        assert(m[a] == o[a + 1] && m[b] == o[b + 1]);
                    }
                }
            }
            assert(p.no_duplicates()) by {
                assert forall|a: int, b: int| 0 <= a < p.len() && 0 <= b < p.len() && a != b implies p[a] != p[b] by {
                    if a < m.len() && b < m.len() {
                        assert(p[a] == m[a] && p[b] == m[b]);
                    } else if a < m.len() {
                        assert(p[a] == m[a]);
                    } else if b < m.len() {
                        assert(p[b] == m[b]);
                    }
                }
            }
        }
        false
    }
}

} // verus!
