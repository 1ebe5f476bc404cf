use vstd::prelude::*;

verus! {

/// Metadata of one simulated cache line.
#[derive(Clone, Copy, Debug, PartialEq, Eq)]
pub struct CacheBlock {
    /// The address bits that identify the cached line; meaningless while `valid` is false.
    pub tag: u64,
    pub valid: bool,
    /// Recency stamp used by the least-recently-used policy; zero under the other policies.
    pub priority: u64,
}

impl CacheBlock {
    pub fn new(tag: u64, valid: bool) -> (r: Self)
        ensures
            r == (CacheBlock { tag, valid, priority: 0 }),
    {
        CacheBlock { tag, valid, priority: 0 }
    }
}

/// The block that holds `tag` right after it was installed by the FIFO or random policy.
pub open spec fn fresh_block(tag: u64) -> CacheBlock {
    CacheBlock { tag, valid: true, priority: 0 }
}

pub open spec fn holds_tag(b: CacheBlock, tag: u64) -> bool {
    b.valid && b.tag == tag
}

/// Some block of `s` holds `tag`.
pub open spec fn contains_tag(s: Seq<CacheBlock>, tag: u64) -> bool {
    exists|i: int| 0 <= i < s.len() && #[trigger] holds_tag(s[i], tag)
}

/// No two valid blocks of `s` hold the same tag.
pub open spec fn tags_unique(s: Seq<CacheBlock>) -> bool {
    forall|i: int, j: int|
        0 <= i < s.len() && 0 <= j < s.len() && s[i].valid && s[j].valid && s[i].tag == s[j].tag
            ==> i == j
}

pub open spec fn all_valid(s: Seq<CacheBlock>) -> bool {
    forall|j: int| 0 <= j < s.len() ==> #[trigger] s[j].valid
}

/// `v` is the lowest index of an invalid block of `s`.
pub open spec fn is_first_invalid(s: Seq<CacheBlock>, v: int) -> bool {
    &&& 0 <= v < s.len()
    &&& !s[v].valid
    &&& forall|j: int| 0 <= j < v ==> #[trigger] s[j].valid
}

/// Every block of `s` is invalid.
pub open spec fn all_invalid(s: Seq<CacheBlock>) -> bool {
    forall|j: int| 0 <= j < s.len() ==> !#[trigger] s[j].valid
}

/// The index of the block that holds `tag`, if any.
pub fn find_tag(blocks: &Vec<CacheBlock>, tag: u64) -> (r: Option<usize>)
    ensures
        r matches Some(i) ==> i < blocks@.len() && holds_tag(blocks@[i as int], tag),
        r is None <==> !contains_tag(blocks@, tag),
{
    let mut i: usize = 0;
    while i < blocks.len()
        invariant
            i <= blocks@.len(),
            forall|j: int| 0 <= j < i ==> !#[trigger] holds_tag(blocks@[j], tag),
        decreases blocks@.len() - i,
    {
        if blocks[i].valid && blocks[i].tag == tag {
            assert(holds_tag(blocks@[i as int], tag));
            return Some(i);
        }
        i += 1;
    }
    None
}

/// The lowest index of an invalid block, if any.
pub fn find_invalid(blocks: &Vec<CacheBlock>) -> (r: Option<usize>)
    ensures
        r matches Some(v) ==> is_first_invalid(blocks@, v as int),
        r is None <==> all_valid(blocks@),
{
    let mut i: usize = 0;
    while i < blocks.len()
        invariant
            i <= blocks@.len(),
            forall|j: int| 0 <= j < i ==> #[trigger] blocks@[j].valid,
        decreases blocks@.len() - i,
    {
        if !blocks[i].valid {
            return Some(i);
        }
        i += 1;
    }
    None
}

/// `n` invalid blocks.
pub fn empty_blocks(n: usize) -> (r: Vec<CacheBlock>)
    ensures
        r@.len() == n,
        all_invalid(r@),
        tags_unique(r@),
        forall|j: int| 0 <= j < n ==> (#[trigger] r@[j]).priority == 0,
{
    let mut blocks: Vec<CacheBlock> = Vec::with_capacity(n);
    let mut i: usize = 0;
    while i < n
        invariant
            i <= n,
            blocks@.len() == i,
            forall|j: int| 0 <= j < i ==> !(#[trigger] blocks@[j]).valid && blocks@[j].priority == 0,
        decreases n - i,
    {
        blocks.push(CacheBlock::new(0, false));
        i += 1;
    }
    blocks
}

} // verus!
