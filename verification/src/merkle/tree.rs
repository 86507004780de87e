//! The binary Merkle tree over the key-value data: a leaf per entry in key
//! order, each inner node hashing its two children, built by halving.

use vstd::prelude::*;

use crate::kv::{
    key_bytes, keys_sorted, lemma_sorted_determined, OrderedEntries, pairs_to_map,
};
use crate::std_hash::pairs_view;

verus! {

/// The BLAKE3 digest of a byte string.
pub uninterp spec fn blake3_digest(data: Seq<u8>) -> Seq<u8>;

/// `blake3::hash` of `data`, as its 32 bytes: the digest of `data`.
#[verifier::external_body]
fn blake3_hash(data: &[u8]) -> (res: [u8; 32])
    ensures
        res@ == blake3_digest(data@),
{
    *blake3::hash(data).as_bytes()
}

/// Appends `src` to `out`.
pub fn extend_bytes(out: &mut Vec<u8>, src: &[u8])
    ensures
        final(out)@ == old(out)@ + src@,
{
    let ghost start = out@;
    let mut i: usize = 0;
    while i < src.len()
        invariant
            i <= src@.len(),
            out@ == start + src@.subrange(0, i as int),
        decreases src@.len() - i,
    {
        out.push(src[i]);
        i = i + 1;
        assert(out@ =~= start + src@.subrange(0, i as int));
    }
    assert(src@.subrange(0, i as int) =~= src@);
}

/// A node of the tree. Leaves carry the key they hash; inner nodes carry none.
#[derive(Debug)]
pub struct MerkleNode {
    pub hash: [u8; 32],
    pub left: Option<Box<MerkleNode>>,
    pub right: Option<Box<MerkleNode>>,
    pub key: Option<String>,
}

/// The mathematical content of a node.
pub struct NodeModel {
    pub hash: Seq<u8>,
    pub left: Option<Box<NodeModel>>,
    pub right: Option<Box<NodeModel>>,
    pub key: Option<Seq<char>>,
}

pub open spec fn boxed(o: Option<NodeModel>) -> Option<Box<NodeModel>> {
    match o {
        Some(n) => Some(Box::new(n)),
        None => None,
    }
}

/// The model of an optional subtree.
pub open spec fn opt_view(o: Option<Box<MerkleNode>>) -> Option<NodeModel>
    decreases o,
{
    match o {
        Some(b) => Some(
            NodeModel {
                hash: b.hash@,
                left: boxed(opt_view(b.left)),
                right: boxed(opt_view(b.right)),
                key: match b.key {
                    Some(k) => Some(k@),
                    None => None,
                },
            },
        ),
        None => None,
    }
}

/// The hash a parent folds in for an optional child: its hash, or nothing.
pub open spec fn child_hash(o: Option<NodeModel>) -> Seq<u8> {
    match o {
        Some(n) => n.hash,
        None => Seq::empty(),
    }
}

/// The hash of a leaf: BLAKE3 of the key bytes followed by the value bytes.
pub open spec fn leaf_hash(k: Seq<char>, v: Seq<char>) -> Seq<u8> {
    blake3_digest(key_bytes(k) + key_bytes(v))
}

/// The tree over entries in key order: one leaf per entry, the lower half of the
/// entries on the left and the upper half on the right.
pub open spec fn spec_build(s: Seq<(Seq<char>, Seq<char>)>) -> Option<NodeModel>
    decreases s.len(),
{
    if s.len() == 0 {
        None
    } else if s.len() == 1 {
        Some(NodeModel { hash: leaf_hash(s[0].0, s[0].1), left: None, right: None, key: Some(s[0].0) })
    } else {
        let mid = s.len() / 2;
        let l = spec_build(s.subrange(0, mid as int));
        let r = spec_build(s.subrange(mid as int, s.len() as int));
        Some(
            NodeModel {
                hash: blake3_digest(child_hash(l) + child_hash(r)),
                left: boxed(l),
                right: boxed(r),
                key: None,
            },
        )
    }
}

/// The root hash reported for a tree: the root's hash, or 32 zero bytes when empty.
pub open spec fn spec_root_hash(root: Option<NodeModel>) -> Seq<u8> {
    match root {
        Some(n) => n.hash,
        None => Seq::new(32, |i: int| 0u8),
    }
}

impl MerkleNode {
    /// A deep copy of the node.
    pub fn copy(&self) -> (res: MerkleNode)
        ensures
            res == *self,
        decreases self,
    {
        let left = match &self.left {
            Some(b) => Some(Box::new(b.copy())),
            None => None,
        };
        let right = match &self.right {
            Some(b) => Some(Box::new(b.copy())),
            None => None,
        };
        let key = match &self.key {
            Some(k) => Some(k.clone()),
            None => None,
        };
        MerkleNode { hash: self.hash, left, right, key }
    }
}

/// A deep copy of an optional subtree.
fn copy_opt(o: &Option<Box<MerkleNode>>) -> (res: Option<Box<MerkleNode>>)
    ensures
        res == *o,
{
    match o {
        Some(b) => Some(Box::new(b.copy())),
        None => None,
    }
}

/// Builds the tree over `entries[lo..hi]`.
fn build_range(entries: &Vec<(String, String)>, lo: usize, hi: usize) -> (res: Option<Box<MerkleNode>>)
    requires
        lo <= hi <= entries@.len(),
    ensures
        opt_view(res) == spec_build(pairs_view(entries@).subrange(lo as int, hi as int)),
    decreases hi - lo,
{
    let ghost s = pairs_view(entries@).subrange(lo as int, hi as int);
    if lo == hi {
        return None;
    }
    if hi - lo == 1 {
        let k = &entries[lo].0;
        let v = &entries[lo].1;
        let mut buf: Vec<u8> = Vec::new();
        extend_bytes(&mut buf, k.as_str().as_bytes());
        extend_bytes(&mut buf, v.as_str().as_bytes());
        assert(buf@ =~= key_bytes(k@) + key_bytes(v@));
        let hash = blake3_hash(buf.as_slice());
        assert(s[0] == (k@, v@));
        let kc = k.clone();
        let res = Some(Box::new(MerkleNode { hash, left: None, right: None, key: Some(kc) }));
        assert(opt_view(res) == spec_build(s));
        return res;
    }
    let mid = lo + (hi - lo) / 2;
    let left = build_range(entries, lo, mid);
    let right = build_range(entries, mid, hi);
    proof {
        let half = s.len() / 2;
        assert(mid - lo == half);
        assert(s.subrange(0, half as int) =~= pairs_view(entries@).subrange(lo as int, mid as int));
        assert(s.subrange(half as int, s.len() as int) =~= pairs_view(entries@).subrange(
            mid as int,
            hi as int,
        ));
    }
    let mut buf: Vec<u8> = Vec::new();
    match &left {
        Some(l) => {
            extend_bytes(&mut buf, l.hash.as_slice());
        },
        None => {},
    }
    match &right {
        Some(r) => {
            extend_bytes(&mut buf, r.hash.as_slice());
        },
        None => {},
    }
    assert(buf@ =~= child_hash(opt_view(left)) + child_hash(opt_view(right)));
    let hash = blake3_hash(buf.as_slice());
    Some(Box::new(MerkleNode { hash, left, right, key: None }))
}

/// The ASCII bytes of `root`.
pub open spec fn word_root() -> Seq<u8> {
    seq![114u8, 111u8, 111u8, 116u8]
}

/// The ASCII bytes of `left`.
pub open spec fn word_left() -> Seq<u8> {
    seq![108u8, 101u8, 102u8, 116u8]
}

/// The ASCII bytes of `right`.
pub open spec fn word_right() -> Seq<u8> {
    seq![114u8, 105u8, 103u8, 104u8, 116u8]
}

/// The ASCII bytes of `0`.
pub open spec fn word_zero() -> Seq<u8> {
    seq![48u8]
}

/// The ASCII bytes of `1`.
pub open spec fn word_one() -> Seq<u8> {
    seq![49u8]
}

/// The parts of a path split at each `-` (byte 45), as `str::split` yields them.
pub open spec fn split_dash(b: Seq<u8>) -> Seq<Seq<u8>>
    decreases b.len(),
{
    if b.len() == 0 {
        seq![Seq::empty()]
    } else {
        let r = split_dash(b.drop_last());
        if b.last() == 45u8 {
            r.push(Seq::empty())
        } else {
            r.update(r.len() - 1, r.last().push(b.last()))
        }
    }
}

pub proof fn lemma_split_nonempty(b: Seq<u8>)
    ensures
        split_dash(b).len() >= 1,
    decreases b.len(),
{
    if b.len() > 0 {
        lemma_split_nonempty(b.drop_last());
    }
}

/// One step of a path walk: `root` stays, `0`/`left` and `1`/`right` descend
/// (recording the parent's hash), anything else fails.
pub open spec fn walk_step(cur: MerkleNode, parent: Option<[u8; 32]>, part: Seq<u8>) -> Option<
    (MerkleNode, Option<[u8; 32]>),
> {
    if part == word_root() {
        Some((cur, parent))
    } else if part == word_zero() || part == word_left() {
        match cur.left {
            Some(b) => Some((*b, Some(cur.hash))),
            None => None,
        }
    } else if part == word_one() || part == word_right() {
        match cur.right {
            Some(b) => Some((*b, Some(cur.hash))),
            None => None,
        }
    } else {
        None
    }
}

/// The node reached from `root` along `parts`, with its parent's hash.
pub open spec fn walk(root: MerkleNode, parts: Seq<Seq<u8>>) -> Option<(MerkleNode, Option<[u8; 32]>)>
    decreases parts.len(),
{
    if parts.len() == 0 {
        Some((root, None))
    } else {
        match walk(root, parts.drop_last()) {
            Some((cur, parent)) => walk_step(cur, parent, parts.last()),
            None => None,
        }
    }
}

/// The node a path names, with its parent's hash (none for the root).
pub open spec fn spec_get_node(root: Option<Box<MerkleNode>>, path: Seq<u8>) -> Option<
    (MerkleNode, Option<[u8; 32]>),
> {
    match root {
        None => None,
        Some(r) => if path == word_root() {
            Some((*r, None))
        } else {
            walk(*r, split_dash(path))
        },
    }
}

/// Whether `b[start..end]` spells `word`.
fn range_is(b: &[u8], start: usize, end: usize, word: &[u8]) -> (res: bool)
    requires
        start <= end <= b@.len(),
    ensures
        res == (b@.subrange(start as int, end as int) == word@),
{
    if end - start != word.len() {
        return false;
    }
    let mut i: usize = 0;
    while i < word.len()
        invariant
            end - start == word@.len(),
            start <= end <= b@.len(),
            i <= word@.len(),
            forall|j: int| 0 <= j < i ==> b@[start + j] == word@[j],
        decreases word@.len() - i,
    {
        if b[start + i] != word[i] {
            assert(b@.subrange(start as int, end as int)[i as int] != word@[i as int]);
            return false;
        }
        i = i + 1;
    }
    assert(b@.subrange(start as int, end as int) =~= word@);
    true
}

/// Applies one path part to the walk state.
fn step_part<'a>(cur: &'a MerkleNode, parent: Option<[u8; 32]>, b: &[u8], start: usize, end: usize) -> (res:
    Option<(&'a MerkleNode, Option<[u8; 32]>)>)
    requires
        start <= end <= b@.len(),
    ensures
        match walk_step(*cur, parent, b@.subrange(start as int, end as int)) {
            Some((n, p)) => res matches Some((r, q)) && *r == n && q == p,
            None => res is None,
        },
{
    let w_root: [u8; 4] = [114u8, 111u8, 111u8, 116u8];
    let w_left: [u8; 4] = [108u8, 101u8, 102u8, 116u8];
    let w_right: [u8; 5] = [114u8, 105u8, 103u8, 104u8, 116u8];
    let w_zero: [u8; 1] = [48u8];
    let w_one: [u8; 1] = [49u8];
    assert(w_root@ =~= word_root());
    assert(w_left@ =~= word_left());
    assert(w_right@ =~= word_right());
    assert(w_zero@ =~= word_zero());
    assert(w_one@ =~= word_one());
    if range_is(b, start, end, w_root.as_slice()) {
        Some((cur, parent))
    } else if range_is(b, start, end, w_zero.as_slice()) || range_is(b, start, end, w_left.as_slice()) {
        match &cur.left {
            Some(l) => Some((&**l, Some(cur.hash))),
            None => None,
        }
    } else if range_is(b, start, end, w_one.as_slice()) || range_is(b, start, end, w_right.as_slice()) {
        match &cur.right {
            Some(r) => Some((&**r, Some(cur.hash))),
            None => None,
        }
    } else {
        None
    }
}

/// Finds the node a path names, with its parent's hash, and copies it out.
fn find_node(root: &Option<Box<MerkleNode>>, path: &str) -> (res: Option<(MerkleNode, Option<[u8; 32]>)>)
    ensures
        res == spec_get_node(*root, key_bytes(path@)),
{
    let r: &MerkleNode = match root {
        Some(b) => &**b,
        None => {
            return None;
        },
    };
    let b = path.as_bytes();
    let w_root: [u8; 4] = [114u8, 111u8, 111u8, 116u8];
    assert(w_root@ =~= word_root());
    if range_is(b, 0, b.len(), w_root.as_slice()) {
        assert(b@.subrange(0, b@.len() as int) =~= b@);
        return Some((r.copy(), None));
    }
    assert(b@.subrange(0, b@.len() as int) =~= b@);
    let mut cur: &MerkleNode = r;
    let mut parent: Option<[u8; 32]> = None;
    let mut failed = false;
    let mut start: usize = 0;
    let mut i: usize = 0;
    let ghost mut done: Seq<Seq<u8>> = Seq::empty();
    proof {
        assert(b@.subrange(0, 0) =~= Seq::<u8>::empty());
        assert(b@.subrange(0, 0) =~= b@.subrange(0, 0));
    }
    while i < b.len()
        invariant
            b@ == key_bytes(path@),
            start <= i <= b@.len(),
            split_dash(b@.subrange(0, i as int)) == done.push(b@.subrange(start as int, i as int)),
            failed ==> walk(*r, done) is None,
            !failed ==> walk(*r, done) == Some((*cur, parent)),
        decreases b@.len() - i,
    {
        assert(b@.subrange(0, i + 1).drop_last() =~= b@.subrange(0, i as int));
        assert(b@.subrange(0, i + 1).last() == b@[i as int]);
        if b[i] == 45u8 {
            let ghost part = b@.subrange(start as int, i as int);
            if !failed {
                match step_part(cur, parent, b, start, i) {
                    Some((n, p)) => {
                        cur = n;
                        parent = p;
                    },
                    None => {
                        failed = true;
                    },
                }
            }
            proof {
                assert(done.push(part).drop_last() =~= done);
                done = done.push(part);
            }
            start = i + 1;
            i = i + 1;
            assert(b@.subrange(start as int, i as int) =~= Seq::<u8>::empty());
        } else {
            proof {
                assert(b@.subrange(start as int, i + 1) =~= b@.subrange(start as int, i as int).push(
                    b@[i as int],
                ));
                assert(done.push(b@.subrange(start as int, i as int)).update(
                    done.len() as int,
                    b@.subrange(start as int, i + 1),
                ) =~= done.push(b@.subrange(start as int, i + 1)));
            }
            i = i + 1;
        }
    }
    assert(b@.subrange(0, i as int) =~= b@);
    let ghost parts = done.push(b@.subrange(start as int, i as int));
    assert(parts.drop_last() =~= done);
    if failed {
        return None;
    }
    match step_part(cur, parent, b, start, i) {
        Some((n, p)) => Some((n.copy(), p)),
        None => None,
    }
}

/// A frozen view of the tree taken at one point in time, so that a session sees
/// one tree throughout while the live tree changes.
pub struct MerkleTreeSnapshot {
    root: Option<Box<MerkleNode>>,
}

impl MerkleTreeSnapshot {
    pub closed spec fn spec_root(&self) -> Option<Box<MerkleNode>> {
        self.root
    }

    /// The root's hash, or 32 zero bytes for an empty tree.
    pub fn get_root_hash(&self) -> (res: [u8; 32])
        ensures
            res@ == spec_root_hash(opt_view(self.spec_root())),
    {
        match &self.root {
            Some(n) => n.hash,
            None => {
                let z = [0u8; 32];
                assert(z@ =~= Seq::new(32, |i: int| 0u8));
                z
            },
        }
    }

    /// The node a path such as `root`, `0-1` or `root-left-right` names, with the
    /// hash of its parent (none for the root).
    pub fn get_node(&self, path: &str) -> (res: Option<(MerkleNode, Option<[u8; 32]>)>)
        ensures
            res == spec_get_node(self.spec_root(), key_bytes(path@)),
    {
        find_node(&self.root, path)
    }

    /// The hash and leaf key of the node a path names.
    pub fn get_node_summary(&self, path: &str) -> (res: Option<([u8; 32], Option<String>)>)
        ensures
            match spec_get_node(self.spec_root(), key_bytes(path@)) {
                Some((n, _)) => res == Some((n.hash, n.key)),
                None => res is None,
            },
    {
        match find_node(&self.root, path) {
            Some((n, _)) => Some((n.hash, n.key)),
            None => None,
        }
    }
}

/// The key-value data and the Merkle tree over it.
pub struct BinaryMerkleTree {
    data: OrderedEntries,
    root: Option<Box<MerkleNode>>,
}

impl BinaryMerkleTree {
    /// The data, as a map.
    pub open spec fn view(&self) -> Map<Seq<char>, Seq<char>> {
        self.spec_data()@
    }

    pub closed spec fn spec_data(&self) -> OrderedEntries {
        self.data
    }

    pub closed spec fn spec_root(&self) -> Option<Box<MerkleNode>> {
        self.root
    }

    /// The tree that the data determines.
    pub open spec fn model(&self) -> Option<NodeModel> {
        spec_build(self.spec_data().spec_entries())
    }

    pub closed spec fn wf(&self) -> bool {
        &&& self.data.wf()
        &&& opt_view(self.root) == spec_build(self.data.spec_entries())
    }

    pub proof fn lemma_wf(&self)
        requires
            self.wf(),
        ensures
            keys_sorted(self.spec_data().spec_entries()),
            pairs_to_map(self.spec_data().spec_entries()) == self@,
            opt_view(self.spec_root()) == self.model(),
    {
        self.data.lemma_wf();
    }

    pub fn new() -> (res: Self)
        ensures
            res.wf(),
            res@ == Map::<Seq<char>, Seq<char>>::empty(),
            res.model() is None,
    {
        BinaryMerkleTree { data: OrderedEntries::new(), root: None }
    }

    fn rebuild_tree(&mut self)
        requires
            old(self).data.wf(),
        ensures
            final(self).wf(),
            final(self).data == old(self).data,
    {
        let n = self.data.len();
        let es = self.data.entries();
        assert(pairs_view(es@).subrange(0, n as int) =~= self.data.spec_entries());
        self.root = build_range(es, 0, n);
    }

    /// A frozen copy of the current tree.
    pub fn snapshot(&self) -> (res: MerkleTreeSnapshot)
        ensures
            res.spec_root() == self.spec_root(),
    {
        MerkleTreeSnapshot { root: copy_opt(&self.root) }
    }

    /// The root's hash, or 32 zero bytes for an empty tree.
    pub fn get_root_hash(&self) -> (res: [u8; 32])
        requires
            self.wf(),
        ensures
            res@ == spec_root_hash(self.model()),
    {
        match &self.root {
            Some(n) => n.hash,
            None => {
                let z = [0u8; 32];
                assert(z@ =~= Seq::new(32, |i: int| 0u8));
                z
            },
        }
    }

    /// The node a path names, with the hash of its parent (none for the root).
    pub fn get_node(&self, path: &str) -> (res: Option<(MerkleNode, Option<[u8; 32]>)>)
        ensures
            res == spec_get_node(self.spec_root(), key_bytes(path@)),
    {
        find_node(&self.root, path)
    }

    /// Stores a pair and rebuilds the tree.
    pub fn insert(&mut self, key: String, value: String)
        requires
            old(self).wf(),
        ensures
            final(self).wf(),
            final(self)@ == old(self)@.insert(key@, value@),
    {
        self.data.insert(key, value);
        self.rebuild_tree();
    }

    /// Removes a key and rebuilds the tree.
    pub fn remove(&mut self, key: &str)
        requires
            old(self).wf(),
        ensures
            final(self).wf(),
            final(self)@ == old(self)@.remove(key@),
    {
        self.data.remove(key);
        self.rebuild_tree();
    }

    /// Replaces the whole data set (a later pair overriding an earlier one with
    /// the same key) and rebuilds the tree once.
    pub fn replace_all(&mut self, entries: Vec<(String, String)>)
        requires
            old(self).wf(),
        ensures
            final(self).wf(),
            final(self)@ == pairs_to_map(pairs_view(entries@)),
    {
        let mut data = OrderedEntries::new();
        let ghost all = pairs_view(entries@);
        let n = entries.len();
        let mut i: usize = 0;
        while i < n
            invariant
                all == pairs_view(entries@),
                n == all.len(),
                i <= n,
                data.wf(),
                data@ == pairs_to_map(all.subrange(0, i as int)),
            decreases n - i,
        {
            proof {
                assert(all.subrange(0, i + 1).drop_last() =~= all.subrange(0, i as int));
                assert(all.subrange(0, i + 1).last() == all[i as int]);
            }
            data.insert(entries[i].0.clone(), entries[i].1.clone());
            i = i + 1;
        }
        assert(all.subrange(0, n as int) =~= all);
        self.data = data;
        self.rebuild_tree();
    }

    /// The stored pairs for those of `keys` that are present, in the order asked.
    pub fn lookup_pairs(&self, keys: &[String]) -> (res: Vec<(String, String)>)
        requires
            self.wf(),
        ensures
            pairs_view(res@) == spec_present_pairs(self@, keys@.map_values(|k: String| k@)),
    {
        let mut out: Vec<(String, String)> = Vec::new();
        let ghost ks = keys@.map_values(|k: String| k@);
        let mut i: usize = 0;
        while i < keys.len()
            invariant
                self.wf(),
                ks == keys@.map_values(|k: String| k@),
                i <= keys@.len(),
                pairs_view(out@) == spec_present_pairs(self@, ks.subrange(0, i as int)),
            decreases keys@.len() - i,
        {
            proof {
                assert(ks.subrange(0, i + 1).drop_last() =~= ks.subrange(0, i as int));
                assert(ks.subrange(0, i + 1).last() == keys@[i as int]@);
            }
            match self.data.get(keys[i].as_str()) {
                Some(v) => {
                    out.push((keys[i].clone(), v.clone()));
                    assert(pairs_view(out@) =~= spec_present_pairs(self@, ks.subrange(0, i + 1)));
                },
                None => {
                },
            }
            i = i + 1;
        }
        assert(ks.subrange(0, i as int) =~= ks);
        out
    }
}

/// The pairs of `m` for those of `keys` it holds, in the order of `keys`.
pub open spec fn spec_present_pairs(m: Map<Seq<char>, Seq<char>>, keys: Seq<Seq<char>>) -> Seq<
    (Seq<char>, Seq<char>),
>
    decreases keys.len(),
{
    if keys.len() == 0 {
        Seq::empty()
    } else {
        let prev = spec_present_pairs(m, keys.drop_last());
        let k = keys.last();
        if m.contains_key(k) {
            prev.push((k, m[k]))
        } else {
            prev
        }
    }
}

/// Two trees that hold the same data have the same shape and hashes, so the same
/// root hash: replicas in sync always agree on the root.
pub proof fn lemma_same_data_same_tree(a: BinaryMerkleTree, b: BinaryMerkleTree)
    requires
        a.wf(),
        b.wf(),
        a@ == b@,
    ensures
        a.model() == b.model(),
        spec_root_hash(a.model()) == spec_root_hash(b.model()),
{
    a.lemma_wf();
    b.lemma_wf();
    lemma_sorted_determined(a.spec_data().spec_entries(), b.spec_data().spec_entries());
}

} // verus!
