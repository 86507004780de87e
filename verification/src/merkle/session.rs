//! The decisions of a Merkle reconciliation session: answering node and data
//! requests from a snapshot, descending where fingerprints differ, and merging
//! fetched pairs last-writer-wins.

use rand::RngExt;
use vstd::prelude::*;
use vstd::string::StringExecFns;

use crate::bytes::{
    bytes_lt, compare_bytes, lemma_bytes_lt_asymmetric, lemma_bytes_lt_irreflexive, lemma_bytes_lt_total,
    lemma_bytes_lt_transitive, Cmp,
};
use crate::kv::{key_bytes, pairs_to_map, OrderedEntries};
use crate::kv::str_eq;
use crate::merkle::tree::{spec_get_node, spec_root_hash, BinaryMerkleTree, MerkleNode, MerkleTreeSnapshot};
use crate::std_hash::pairs_view;

verus! {

/// One node's fingerprint in a batched answer: node id, hash, and the key for a
/// leaf. An all-zero hash means the node is absent on the responder's tree.
pub type MerkleNodeAnswer = (String, [u8; 32], Option<String>);

/// Most node ids carried by one node request.
pub const FRONTIER_CHUNK: usize = 2048;

/// Most keys carried by one data request.
pub const DATA_CHUNK: usize = 2048;

/// Thirty-two zero bytes.
pub open spec fn zero_hash() -> Seq<u8> {
    Seq::new(32, |i: int| 0u8)
}

/// Whether two 32-byte hashes are equal.
pub fn hashes_equal(a: &[u8; 32], b: &[u8; 32]) -> (res: bool)
    ensures
        res == (a@ == b@),
{
    let mut i: usize = 0;
    while i < 32
        invariant
            i <= 32,
            a@.len() == 32,
            b@.len() == 32,
            forall|j: int| 0 <= j < i ==> a@[j] == b@[j],
        decreases 32 - i,
    {
        if a[i] != b[i] {
            return false;
        }
        i = i + 1;
    }
    assert(a@ =~= b@);
    true
}

/// Whether a hash is all zeros.
pub fn is_zero_hash(h: &[u8; 32]) -> (res: bool)
    ensures
        res == (h@ == zero_hash()),
{
    let z = [0u8; 32];
    assert(z@ =~= zero_hash());
    hashes_equal(h, &z)
}

/// `a` followed by `b`.
fn concat_str(a: &str, b: &str) -> (res: String)
    ensures
        res@ == a@ + b@,
{
    let mut s = a.to_owned();
    s.append(b);
    s
}

/// The hash a snapshot holds for a node id, or zeros when it has no such node.
pub open spec fn local_hash(root: Option<Box<MerkleNode>>, id: Seq<char>) -> Seq<u8> {
    match spec_get_node(root, key_bytes(id)) {
        Some((n, _)) => n.hash@,
        None => zero_hash(),
    }
}

/// The id of the left child of node `id`.
#[verifier::opaque]
pub open spec fn left_child_id(id: Seq<char>) -> Seq<char> {
    id + "-left"@
}

/// The id of the right child of node `id`.
#[verifier::opaque]
pub open spec fn right_child_id(id: Seq<char>) -> Seq<char> {
    id + "-right"@
}

/// The node ids to probe next for one answer: both children of a differing
/// inner node.
pub open spec fn answer_children(root: Option<Box<MerkleNode>>, a: (Seq<char>, Seq<u8>, Option<Seq<char>>)) -> Seq<
    Seq<char>,
> {
    if local_hash(root, a.0) == a.1 {
        Seq::empty()
    } else if a.2 is Some {
        Seq::empty()
    } else if a.1 != zero_hash() {
        seq![left_child_id(a.0), right_child_id(a.0)]
    } else {
        Seq::empty()
    }
}

/// The keys to fetch for one answer: the key of a differing leaf.
pub open spec fn answer_fetch(root: Option<Box<MerkleNode>>, a: (Seq<char>, Seq<u8>, Option<Seq<char>>)) -> Seq<
    Seq<char>,
> {
    if local_hash(root, a.0) == a.1 {
        Seq::empty()
    } else {
        match a.2 {
            Some(k) => seq![k],
            None => Seq::empty(),
        }
    }
}

pub open spec fn answers_view(answers: Seq<MerkleNodeAnswer>) -> Seq<(Seq<char>, Seq<u8>, Option<Seq<char>>)> {
    answers.map_values(
        |a: MerkleNodeAnswer|
            (
                a.0@,
                a.1@,
                match a.2 {
                    Some(k) => Some(k@),
                    None => None,
                },
            ),
    )
}

/// The node ids to probe next after a batch of answers.
pub open spec fn spec_next_frontier(root: Option<Box<MerkleNode>>, answers: Seq<(Seq<char>, Seq<u8>, Option<Seq<char>>)>) -> Seq<
    Seq<char>,
>
    decreases answers.len(),
{
    if answers.len() == 0 {
        Seq::empty()
    } else {
        spec_next_frontier(root, answers.drop_last()) + answer_children(root, answers.last())
    }
}

/// The keys to fetch after a batch of answers.
pub open spec fn spec_keys_to_fetch(root: Option<Box<MerkleNode>>, answers: Seq<(Seq<char>, Seq<u8>, Option<Seq<char>>)>) -> Seq<
    Seq<char>,
>
    decreases answers.len(),
{
    if answers.len() == 0 {
        Seq::empty()
    } else {
        spec_keys_to_fetch(root, answers.drop_last()) + answer_fetch(root, answers.last())
    }
}

pub open spec fn strings_view(s: Seq<String>) -> Seq<Seq<char>> {
    s.map_values(|x: String| x@)
}

/// Compares a batch of remote fingerprints with the local snapshot: identical
/// ranges are pruned, differing leaves are queued for fetching, and differing
/// inner nodes have both children queued for the next level.
pub fn process_node_answers(
    snapshot: &MerkleTreeSnapshot,
    answers: &[MerkleNodeAnswer],
    next: &mut Vec<String>,
    keys_to_fetch: &mut Vec<String>,
)
    ensures
        strings_view(final(next)@) == strings_view(old(next)@) + spec_next_frontier(
            snapshot.spec_root(),
            answers_view(answers@),
        ),
        strings_view(final(keys_to_fetch)@) == strings_view(old(keys_to_fetch)@) + spec_keys_to_fetch(
            snapshot.spec_root(),
            answers_view(answers@),
        ),
{
    let ghost root = snapshot.spec_root();
    let ghost av = answers_view(answers@);
    let ghost next0 = strings_view(next@);
    let ghost keys0 = strings_view(keys_to_fetch@);
    let mut i: usize = 0;
    while i < answers.len()
        invariant
            root == snapshot.spec_root(),
            av == answers_view(answers@),
            i <= answers@.len(),
            strings_view(next@) == next0 + spec_next_frontier(root, av.subrange(0, i as int)),
            strings_view(keys_to_fetch@) == keys0 + spec_keys_to_fetch(root, av.subrange(0, i as int)),
        decreases answers@.len() - i,
    {
        let ghost before_next = strings_view(next@);
        let ghost before_keys = strings_view(keys_to_fetch@);
        proof {
            assert(av.subrange(0, i + 1).drop_last() =~= av.subrange(0, i as int));
            assert(av.subrange(0, i + 1).last() == av[i as int]);
        }
        let (node_id, remote_hash, remote_key) = &answers[i];
        let lh: [u8; 32] = match snapshot.get_node_summary(node_id.as_str()) {
            Some((h, _)) => h,
            None => {
                let z = [0u8; 32];
                assert(z@ =~= zero_hash());
                z
            },
        };
        assert(lh@ == local_hash(root, av[i as int].0));
        if hashes_equal(&lh, remote_hash) {
            assert(strings_view(next@) =~= before_next + answer_children(root, av[i as int]));
            assert(strings_view(keys_to_fetch@) =~= before_keys + answer_fetch(root, av[i as int]));
        } else {
            match remote_key {
                Some(k) => {
                    keys_to_fetch.push(k.clone());
                    assert(strings_view(next@) =~= before_next + answer_children(root, av[i as int]));
                    assert(strings_view(keys_to_fetch@) =~= before_keys + answer_fetch(root, av[i as int]));
                },
                None => {
                    if !is_zero_hash(remote_hash) {
                        let l = concat_str(node_id.as_str(), "-left");
                        let r = concat_str(node_id.as_str(), "-right");
                        next.push(l);
                        next.push(r);
                        proof {
                            reveal(left_child_id);
                            reveal(right_child_id);
                        }
                    }
                    assert(strings_view(next@) =~= before_next + answer_children(root, av[i as int]));
                    assert(strings_view(keys_to_fetch@) =~= before_keys + answer_fetch(root, av[i as int]));
                },
            }
        }
        i = i + 1;
    }
    assert(av.subrange(0, i as int) =~= av);
}

/// The hash the snapshot rooted at `root` holds at node id `id`, with a missing
/// node read as thirty-two zero bytes.
pub open spec fn snapshot_hash_at(root: Option<Box<MerkleNode>>, id: Seq<char>) -> Seq<u8> {
    match spec_get_node(root, key_bytes(id)) {
        Some((n, _)) => n.hash@,
        None => Seq::new(32, |i: int| 0u8),
    }
}

/// Every differing remote leaf is fetched, and nothing else is: the keys to
/// fetch after a batch of answers are exactly the leaf keys of the answers
/// whose remote hash differs from the snapshot's hash at that node id. In
/// particular a remote leaf at a node id the snapshot lacks (a key present
/// remotely and missing locally) is fetched unless its hash is all zeros.
pub proof fn lemma_differing_leaves_fetched(
    root: Option<Box<MerkleNode>>,
    answers: Seq<(Seq<char>, Seq<u8>, Option<Seq<char>>)>,
)
    ensures
        forall|i: int|
            0 <= i < answers.len() && #[trigger] answers[i].2 is Some && answers[i].1 != snapshot_hash_at(
                root,
                answers[i].0,
            ) ==> spec_keys_to_fetch(root, answers).contains(answers[i].2->0),
        forall|i: int|
            0 <= i < answers.len() && #[trigger] answers[i].2 is Some && spec_get_node(root, key_bytes(answers[i].0))
                is None && answers[i].1 != Seq::new(32, |j: int| 0u8) ==> spec_keys_to_fetch(root, answers).contains(
                answers[i].2->0,
            ),
        forall|k: Seq<char>|
            #[trigger] spec_keys_to_fetch(root, answers).contains(k) ==> exists|i: int|
                0 <= i < answers.len() && #[trigger] answers[i].2 == Some(k) && answers[i].1 != snapshot_hash_at(
                    root,
                    answers[i].0,
                ),
    decreases answers.len(),
{
    assert(zero_hash() =~= Seq::new(32, |j: int| 0u8));
    if answers.len() > 0 {
        let a0 = answers.drop_last();
        let last = answers.last();
        lemma_differing_leaves_fetched(root, a0);
        let prev = spec_keys_to_fetch(root, a0);
        let cur = spec_keys_to_fetch(root, answers);
        assert(cur == prev + answer_fetch(root, last));
        assert(local_hash(root, last.0) == snapshot_hash_at(root, last.0));
        assert forall|i: int|
            0 <= i < answers.len() && #[trigger] answers[i].2 is Some && answers[i].1 != snapshot_hash_at(
                root,
                answers[i].0,
            ) implies cur.contains(answers[i].2->0) by {
            if i < answers.len() - 1 {
                assert(a0[i] == answers[i]);
                assert(a0[i].2 is Some);
                let j = choose|j: int| 0 <= j < prev.len() && prev[j] == a0[i].2->0;
                assert(cur[j] == prev[j]);
            } else {
                assert(answers[i] == last);
                assert(cur[prev.len() as int] == answer_fetch(root, last)[0]);
            }
        }
        assert forall|k: Seq<char>| #[trigger] cur.contains(k) implies exists|i: int|
            0 <= i < answers.len() && #[trigger] answers[i].2 == Some(k) && answers[i].1 != snapshot_hash_at(
                root,
                answers[i].0,
            ) by {
            let j = choose|j: int| 0 <= j < cur.len() && cur[j] == k;
            if j < prev.len() {
                assert(prev[j] == k);
                assert(prev.contains(k));
                let i = choose|i: int|
                    0 <= i < a0.len() && #[trigger] a0[i].2 == Some(k) && a0[i].1 != snapshot_hash_at(root, a0[i].0);
                assert(answers[i] == a0[i]);
            } else {
                let i = answers.len() - 1;
                assert(answers[i] == last);
            }
        }
    }
}

/// A nonzero remote hash that differs from the snapshot's hash at an inner node.
pub open spec fn inner_differs(root: Option<Box<MerkleNode>>, a: (Seq<char>, Seq<u8>, Option<Seq<char>>)) -> bool {
    &&& a.2 is None
    &&& a.1 != snapshot_hash_at(root, a.0)
    &&& a.1 != Seq::new(32, |j: int| 0u8)
}

/// Every differing inner node is descended into: both children of each answer
/// without a leaf key whose nonzero remote hash differs from the snapshot's hash
/// there are among the ids to probe next.
pub proof fn lemma_differing_inner_nodes_descended(
    root: Option<Box<MerkleNode>>,
    answers: Seq<(Seq<char>, Seq<u8>, Option<Seq<char>>)>,
)
    ensures
        forall|i: int|
            0 <= i < answers.len() && #[trigger] inner_differs(root, answers[i]) ==> spec_next_frontier(
                root,
                answers,
            ).contains(left_child_id(answers[i].0)) && spec_next_frontier(root, answers).contains(
                right_child_id(answers[i].0),
            ),
    decreases answers.len(),
{
    if answers.len() > 0 {
        let a0 = answers.drop_last();
        let last = answers.last();
        lemma_differing_inner_nodes_descended(root, a0);
        let prev = spec_next_frontier(root, a0);
        let cur = spec_next_frontier(root, answers);
        assert(cur == prev + answer_children(root, last));
        assert forall|i: int|
            0 <= i < answers.len() && #[trigger] inner_differs(root, answers[i]) implies cur.contains(
                left_child_id(answers[i].0),
            ) && cur.contains(right_child_id(answers[i].0)) by {
            if i < answers.len() - 1 {
                assert(a0[i] == answers[i]);
                assert(inner_differs(root, a0[i]));
                let j1 = choose|j: int| 0 <= j < prev.len() && prev[j] == left_child_id(a0[i].0);
                let j2 = choose|j: int| 0 <= j < prev.len() && prev[j] == right_child_id(a0[i].0);
                assert(cur[j1] == prev[j1]);
                assert(cur[j2] == prev[j2]);
            } else {
                assert(answers[i] == last);
                assert(zero_hash() =~= Seq::new(32, |j: int| 0u8));
                assert(local_hash(root, last.0) == snapshot_hash_at(root, last.0));
                assert(answer_children(root, last) == seq![left_child_id(last.0), right_child_id(last.0)]);
                assert(cur[prev.len() as int] == left_child_id(last.0));
                assert(cur[prev.len() as int + 1] == right_child_id(last.0));
            }
        }
    }
}

/// Nothing but differing inner nodes is descended into: every id to probe next
/// is a child of an answer without a leaf key whose nonzero remote hash differs
/// from the snapshot's hash there.
pub proof fn lemma_descent_only_into_differing(
    root: Option<Box<MerkleNode>>,
    answers: Seq<(Seq<char>, Seq<u8>, Option<Seq<char>>)>,
)
    ensures
        forall|c: Seq<char>|
            #[trigger] spec_next_frontier(root, answers).contains(c) ==> exists|i: int|
                0 <= i < answers.len() && #[trigger] inner_differs(root, answers[i]) && (c == left_child_id(
                    answers[i].0,
                ) || c == right_child_id(answers[i].0)),
    decreases answers.len(),
{
    if answers.len() > 0 {
        let a0 = answers.drop_last();
        let last = answers.last();
        lemma_descent_only_into_differing(root, a0);
        let prev = spec_next_frontier(root, a0);
        let cur = spec_next_frontier(root, answers);
        assert(cur == prev + answer_children(root, last));
        assert forall|c: Seq<char>| #[trigger] cur.contains(c) implies exists|i: int|
            0 <= i < answers.len() && #[trigger] inner_differs(root, answers[i]) && (c == left_child_id(
                answers[i].0,
            ) || c == right_child_id(answers[i].0)) by {
            let j = choose|j: int| 0 <= j < cur.len() && cur[j] == c;
            if j < prev.len() {
                assert(prev[j] == c);
                assert(prev.contains(c));
                let i = choose|i: int|
                    0 <= i < a0.len() && #[trigger] inner_differs(root, a0[i]) && (c == left_child_id(a0[i].0)
                        || c == right_child_id(a0[i].0));
                assert(answers[i] == a0[i]);
            } else {
                let i = answers.len() - 1;
                assert(answers[i] == last);
                assert(zero_hash() =~= Seq::new(32, |j: int| 0u8));
                assert(local_hash(root, last.0) == snapshot_hash_at(root, last.0));
                assert(inner_differs(root, last));
            }
        }
    }
}

/// The answer a snapshot gives for one node id: its hash and leaf key, or a zero
/// hash and no key when it has no such node.
pub open spec fn spec_answer(root: Option<Box<MerkleNode>>, id: Seq<char>) -> (Seq<char>, Seq<u8>, Option<Seq<char>>) {
    match spec_get_node(root, key_bytes(id)) {
        Some((n, _)) => (
            id,
            n.hash@,
            match n.key {
                Some(k) => Some(k@),
                None => None,
            },
        ),
        None => (id, zero_hash(), None),
    }
}

/// Answers a batch of node ids from a session's snapshot.
pub fn answer_node_request(snapshot: &MerkleTreeSnapshot, node_ids: &[String]) -> (res: Vec<MerkleNodeAnswer>)
    ensures
        res@.len() == node_ids@.len(),
        forall|i: int|
            0 <= i < node_ids@.len() ==> #[trigger] answers_view(res@)[i] == spec_answer(
                snapshot.spec_root(),
                node_ids@[i]@,
            ),
{
    let mut out: Vec<MerkleNodeAnswer> = Vec::new();
    let mut i: usize = 0;
    while i < node_ids.len()
        invariant
            i <= node_ids@.len(),
            out@.len() == i,
            forall|j: int|
                0 <= j < i ==> #[trigger] answers_view(out@)[j] == spec_answer(
                    snapshot.spec_root(),
                    node_ids@[j]@,
                ),
        decreases node_ids@.len() - i,
    {
        let id = &node_ids[i];
        let answer: MerkleNodeAnswer = match snapshot.get_node_summary(id.as_str()) {
            Some((hash, key)) => (id.clone(), hash, key),
            None => {
                let z = [0u8; 32];
                assert(z@ =~= zero_hash());
                (id.clone(), z, None)
            },
        };
        let ghost prev = out@;
        out.push(answer);
        proof {
            assert forall|j: int| 0 <= j < i + 1 implies #[trigger] answers_view(out@)[j] == spec_answer(
                snapshot.spec_root(),
                node_ids@[j]@,
            ) by {
                if j < i {
                    assert(out@[j] == prev[j]);
                    assert(answers_view(prev)[j] == spec_answer(snapshot.spec_root(), node_ids@[j]@));
                } else {
                    assert(out@[j] == answer);
                }
            }
        }
        i = i + 1;
    }
    out
}

/// A list cut into consecutive chunks of `size` items, the last one shorter.
pub open spec fn spec_chunks(s: Seq<Seq<char>>, size: nat) -> Seq<Seq<Seq<char>>>
    decreases s.len(),
{
    if s.len() == 0 {
        Seq::empty()
    } else if size == 0 || s.len() <= size {
        seq![s]
    } else {
        seq![s.take(size as int)] + spec_chunks(s.skip(size as int), size)
    }
}

/// The wire id of Merkle reconciliation.
pub const MERKLE_TREE_PROTOCOL_ID: u64 = 2;

/// Whether the neighbour's root hash equals ours: then the replicas are in sync.
pub fn in_sync(tree: &BinaryMerkleTree, remote_root: &[u8; 32]) -> (res: bool)
    requires
        tree.wf(),
    ensures
        res == (spec_root_hash(tree.model()) == remote_root@),
{
    let local = tree.get_root_hash();
    hashes_equal(&local, remote_root)
}

/// A uniformly drawn index below `n`, from `rand`'s thread-local generator
/// (`random_range(0..n)`).
#[verifier::external_body]
fn random_below(n: usize) -> (res: usize)
    requires
        n > 0,
    ensures
        res < n,
{
    rand::rng().random_range(0..n)
}

/// The neighbour a periodic sync goes to: a random one, or none without neighbours.
pub fn pick_sync_target(count: usize) -> (res: Option<usize>)
    ensures
        count == 0 <==> res is None,
        res matches Some(i) ==> i < count,
{
    if count == 0 {
        None
    } else {
        Some(random_below(count))
    }
}

/// The snapshots a responder answers from, one per session: the first request
/// of a session freezes the tree, so the session sees one tree throughout.
pub struct SessionSnapshots {
    snapshots: Vec<(String, MerkleTreeSnapshot)>,
}

impl SessionSnapshots {
    /// The snapshot root of each session.
    pub closed spec fn view(&self) -> Map<Seq<char>, Option<Box<MerkleNode>>> {
        Map::new(
            |k: Seq<char>| exists|i: int| 0 <= i < self.snapshots@.len() && #[trigger] self.snapshots@[i].0@ == k,
            |k: Seq<char>| {
                let i = choose|i: int| 0 <= i < self.snapshots@.len() && #[trigger] self.snapshots@[i].0@ == k;
                self.snapshots@[i].1.spec_root()
            },
        )
    }

    pub closed spec fn wf(&self) -> bool {
        forall|i: int, j: int|
            0 <= i < j < self.snapshots@.len() ==> #[trigger] self.snapshots@[i].0@ != #[trigger] self.snapshots@[j].0@
    }

    pub fn new() -> (res: Self)
        ensures
            res.wf(),
            res@ == Map::<Seq<char>, Option<Box<MerkleNode>>>::empty(),
    {
        let res = SessionSnapshots { snapshots: Vec::new() };
        assert(res@ =~= Map::<Seq<char>, Option<Box<MerkleNode>>>::empty());
        res
    }

    fn find(&self, session_id: &str) -> (res: Option<usize>)
        ensures
            match res {
                Some(i) => i < self.snapshots@.len() && self.snapshots@[i as int].0@ == session_id@,
                None => forall|i: int| 0 <= i < self.snapshots@.len() ==> #[trigger] self.snapshots@[i].0@ != session_id@,
            },
    {
        let mut i: usize = 0;
        while i < self.snapshots.len()
            invariant
                i <= self.snapshots@.len(),
                forall|j: int| 0 <= j < i ==> #[trigger] self.snapshots@[j].0@ != session_id@,
            decreases self.snapshots@.len() - i,
        {
            if str_eq(self.snapshots[i].0.as_str(), session_id) {
                return Some(i);
            }
            i = i + 1;
        }
        None
    }

    /// Answers a batch of node ids for a session from its snapshot, freezing
    /// the current tree as the session's snapshot on its first request.
    pub fn answer(&mut self, session_id: &str, tree: &BinaryMerkleTree, node_ids: &[String]) -> (res: Vec<
        MerkleNodeAnswer,
    >)
        requires
            old(self).wf(),
        ensures
            final(self).wf(),
            old(self)@.contains_key(session_id@) ==> final(self)@ == old(self)@,
            !old(self)@.contains_key(session_id@) ==> final(self)@ == old(self)@.insert(
                session_id@,
                tree.spec_root(),
            ),
            res@.len() == node_ids@.len(),
            forall|i: int|
                0 <= i < node_ids@.len() ==> #[trigger] answers_view(res@)[i] == spec_answer(
                    final(self)@[session_id@],
                    node_ids@[i]@,
                ),
    {
        let idx = match self.find(session_id) {
            Some(i) => {
                proof {
                    let j = choose|j: int| 0 <= j < self.snapshots@.len() && #[trigger] self.snapshots@[j].0@ == session_id@;
                    assert(j == i as int);
                }
                i
            },
            None => {
                let snap = tree.snapshot();
                let ghost old_snaps = self.snapshots@;
                self.snapshots.push((session_id.to_owned(), snap));
                proof {
                    let n = old_snaps.len() as int;
                    let k = session_id@;
                    assert forall|i: int, j: int|
                        0 <= i < j < self.snapshots@.len() implies #[trigger] self.snapshots@[i].0@ != #[trigger] self.snapshots@[j].0@ by {
                        if j < n {
                            assert(self.snapshots@[i] == old_snaps[i] && self.snapshots@[j] == old_snaps[j]);
                        } else {
                            assert(self.snapshots@[i] == old_snaps[i]);
                        }
                    }
                    assert forall|k2: Seq<char>| #[trigger] self@.contains_key(k2) == old(self)@.insert(k, tree.spec_root()).contains_key(k2) by {
                        if self@.contains_key(k2) && k2 != k {
                            let j = choose|j: int| 0 <= j < self.snapshots@.len() && #[trigger] self.snapshots@[j].0@ == k2;
                            assert(self.snapshots@[j] == old_snaps[j]);
                        }
                        if old(self)@.contains_key(k2) {
                            let j = choose|j: int| 0 <= j < old_snaps.len() && #[trigger] old_snaps[j].0@ == k2;
                            assert(self.snapshots@[j] == old_snaps[j]);
                        }
                        if k2 == k {
                            assert(self.snapshots@[n].0@ == k);
                        }
                    }
                    assert forall|k2: Seq<char>| #[trigger] self@.contains_key(k2) implies self@[k2] == old(self)@.insert(k, tree.spec_root())[k2] by {
                        let j = choose|j: int| 0 <= j < self.snapshots@.len() && #[trigger] self.snapshots@[j].0@ == k2;
                        if j < n {
                            assert(self.snapshots@[j] == old_snaps[j]);
                            let j0 = choose|j0: int| 0 <= j0 < old_snaps.len() && #[trigger] old_snaps[j0].0@ == k2;
                            assert(j0 == j);
                        }
                    }
                    assert(self@ =~= old(self)@.insert(k, tree.spec_root()));
                }
                self.snapshots.len() - 1
            },
        };
        proof {
            let j = choose|j: int| 0 <= j < self.snapshots@.len() && #[trigger] self.snapshots@[j].0@ == session_id@;
            assert(self.snapshots@[idx as int].0@ == session_id@);
            assert(j == idx as int);
        }
        answer_node_request(&self.snapshots[idx].1, node_ids)
    }

    /// Forgets a session's snapshot.
    pub fn remove(&mut self, session_id: &str)
        requires
            old(self).wf(),
        ensures
            final(self).wf(),
            final(self)@ == old(self)@.remove(session_id@),
    {
        match self.find(session_id) {
            Some(i) => {
                let ghost old_snaps = self.snapshots@;
                let _gone = self.snapshots.remove(i);
                proof {
                    let k = session_id@;
                    assert forall|a: int, b: int|
                        0 <= a < b < self.snapshots@.len() implies #[trigger] self.snapshots@[a].0@ != #[trigger] self.snapshots@[b].0@ by {
                        let oa = if a < i { a } else { a + 1 };
                        let ob = if b < i { b } else { b + 1 };
                        assert(self.snapshots@[a] == old_snaps[oa] && self.snapshots@[b] == old_snaps[ob]);
                    }
                    assert forall|k2: Seq<char>| #[trigger] self@.contains_key(k2) == old(self)@.remove(k).contains_key(k2) by {
                        if self@.contains_key(k2) {
                            let j = choose|j: int| 0 <= j < self.snapshots@.len() && #[trigger] self.snapshots@[j].0@ == k2;
                            let oj = if j < i { j } else { j + 1 };
                            assert(self.snapshots@[j] == old_snaps[oj]);
                        }
                        if old(self)@.contains_key(k2) && k2 != k {
                            let j = choose|j: int| 0 <= j < old_snaps.len() && #[trigger] old_snaps[j].0@ == k2;
                            if j < i {
                                assert(self.snapshots@[j] == old_snaps[j]);
                            } else {
                                assert(j != i);
                                assert(self.snapshots@[j - 1] == old_snaps[j]);
                            }
                        }
                    }
                    assert forall|k2: Seq<char>| #[trigger] self@.contains_key(k2) implies self@[k2] == old(self)@.remove(k)[k2] by {
                        let j = choose|j: int| 0 <= j < self.snapshots@.len() && #[trigger] self.snapshots@[j].0@ == k2;
                        let oj = if j < i { j } else { j + 1 };
                        assert(self.snapshots@[j] == old_snaps[oj]);
                        let j0 = choose|j0: int| 0 <= j0 < old_snaps.len() && #[trigger] old_snaps[j0].0@ == k2;
                        assert(j0 == oj);
                    }
                    assert(self@ =~= old(self)@.remove(k));
                }
            },
            None => {
                assert(old(self)@.remove(session_id@) =~= old(self)@);
            },
        }
    }
}

/// Splits a list into consecutive chunks of at most `size` items.
pub fn split_into_chunks(items: &[String], size: usize) -> (res: Vec<Vec<String>>)
    requires
        size > 0,
    ensures
        res@.map_values(|c: Vec<String>| strings_view(c@)) == spec_chunks(strings_view(items@), size as nat),
{
    let ghost all = strings_view(items@);
    let mut out: Vec<Vec<String>> = Vec::new();
    let mut start: usize = 0;
    let n = items.len();
    assert(all.skip(0) =~= all);
    assert(out@.map_values(|c: Vec<String>| strings_view(c@)) =~= Seq::<Seq<Seq<char>>>::empty());
    while start < n
        invariant
            n == items@.len(),
            all == strings_view(items@),
            size > 0,
            start <= n,
            spec_chunks(all, size as nat) == out@.map_values(|c: Vec<String>| strings_view(c@))
                + spec_chunks(all.skip(start as int), size as nat),
        decreases n - start,
    {
        let end = if n - start > size {
            start + size
        } else {
            n
        };
        let mut chunk: Vec<String> = Vec::new();
        let mut j: usize = start;
        while j < end
            invariant
                start <= j <= end <= n,
                n == items@.len(),
                all == strings_view(items@),
                strings_view(chunk@) == all.subrange(start as int, j as int),
            decreases end - j,
        {
            let ghost pc = chunk@;
            let item = items[j].clone();
            assert(item@ == all[j as int]);
            chunk.push(item);
            assert(strings_view(chunk@) =~= strings_view(pc).push(item@));
            j = j + 1;
            assert(strings_view(chunk@) =~= all.subrange(start as int, j as int));
        }
        proof {
            let rest = all.skip(start as int);
            if n - start > size {
                assert(rest.take(size as int) =~= all.subrange(start as int, end as int));
                assert(rest.skip(size as int) =~= all.skip(end as int));
            } else {
                assert(rest =~= all.subrange(start as int, end as int));
                assert(all.skip(end as int) =~= Seq::<Seq<char>>::empty());
            }
        }
        let ghost prev = out@;
        out.push(chunk);
        assert(out@.map_values(|c: Vec<String>| strings_view(c@)) =~= prev.map_values(
            |c: Vec<String>| strings_view(c@),
        ).push(all.subrange(start as int, end as int)));
        start = end;
    }
    assert(all.skip(n as int) =~= Seq::<Seq<char>>::empty());
    out
}

/// The map after applying fetched pairs last-writer-wins: a pair is taken when its
/// key is new or its value is greater (in byte order) than the current one.
pub open spec fn spec_lww(m: Map<Seq<char>, Seq<char>>, fetched: Seq<(Seq<char>, Seq<char>)>) -> Map<
    Seq<char>,
    Seq<char>,
>
    decreases fetched.len(),
{
    if fetched.len() == 0 {
        m
    } else {
        let m0 = spec_lww(m, fetched.drop_last());
        let (k, v) = fetched.last();
        if !m0.contains_key(k) || bytes_lt(key_bytes(m0[k]), key_bytes(v)) {
            m0.insert(k, v)
        } else {
            m0
        }
    }
}

/// The fetched pairs that are taken, in order.
pub open spec fn spec_lww_taken(m: Map<Seq<char>, Seq<char>>, fetched: Seq<(Seq<char>, Seq<char>)>) -> Seq<
    (Seq<char>, Seq<char>),
>
    decreases fetched.len(),
{
    if fetched.len() == 0 {
        Seq::empty()
    } else {
        let m0 = spec_lww(m, fetched.drop_last());
        let prev = spec_lww_taken(m, fetched.drop_last());
        let (k, v) = fetched.last();
        if !m0.contains_key(k) || bytes_lt(key_bytes(m0[k]), key_bytes(v)) {
            prev.push((k, v))
        } else {
            prev
        }
    }
}

/// Applies fetched pairs to the current contents, last-writer-wins, and returns
/// the pairs that were taken (those to store).
pub fn apply_fetched(current: &mut OrderedEntries, fetched: &[(String, String)]) -> (res: Vec<
    (String, String),
>)
    requires
        old(current).wf(),
    ensures
        final(current).wf(),
        final(current)@ == spec_lww(old(current)@, pairs_view(fetched@)),
        pairs_view(res@) == spec_lww_taken(old(current)@, pairs_view(fetched@)),
{
    let ghost m = current@;
    let ghost fv = pairs_view(fetched@);
    let mut taken: Vec<(String, String)> = Vec::new();
    let mut i: usize = 0;
    while i < fetched.len()
        invariant
            m == old(current)@,
            fv == pairs_view(fetched@),
            i <= fetched@.len(),
            current.wf(),
            current@ == spec_lww(m, fv.subrange(0, i as int)),
            pairs_view(taken@) == spec_lww_taken(m, fv.subrange(0, i as int)),
        decreases fetched@.len() - i,
    {
        proof {
            assert(fv.subrange(0, i + 1).drop_last() =~= fv.subrange(0, i as int));
            assert(fv.subrange(0, i + 1).last() == fv[i as int]);
        }
        let (key, value) = &fetched[i];
        let should_store = match current.get(key.as_str()) {
            Some(existing) => {
                match compare_bytes(existing.as_str().as_bytes(), value.as_str().as_bytes()) {
                    Cmp::Less => true,
                    _ => false,
                }
            },
            None => true,
        };
        if should_store {
            current.insert(key.clone(), value.clone());
            taken.push((key.clone(), value.clone()));
            assert(pairs_view(taken@) =~= spec_lww_taken(m, fv.subrange(0, i + 1)));
        }
        i = i + 1;
    }
    assert(fv.subrange(0, i as int) =~= fv);
    taken
}

/// `a` is at least `b` in byte order.
pub open spec fn bytes_ge(a: Seq<u8>, b: Seq<u8>) -> bool {
    !bytes_lt(a, b)
}

proof fn lemma_ge_transitive(a: Seq<u8>, b: Seq<u8>, c: Seq<u8>)
    requires
        bytes_ge(a, b),
        bytes_ge(b, c),
    ensures
        bytes_ge(a, c),
{
    if bytes_lt(a, c) {
        if a == b {
        } else {
            lemma_bytes_lt_total(a, b);
            lemma_bytes_lt_transitive(b, a, c);
        }
    }
}

/// Last-writer-wins keeps every key and never lowers a value, and afterwards each
/// fetched key holds a value at least as great as every value fetched for it.
pub proof fn lemma_lww_dominates(m: Map<Seq<char>, Seq<char>>, fetched: Seq<(Seq<char>, Seq<char>)>)
    ensures
        forall|k: Seq<char>|
            #![trigger spec_lww(m, fetched).contains_key(k)]
            m.contains_key(k) ==> spec_lww(m, fetched).contains_key(k) && bytes_ge(
                key_bytes(spec_lww(m, fetched)[k]),
                key_bytes(m[k]),
            ),
        forall|i: int|
            0 <= i < fetched.len() ==> spec_lww(m, fetched).contains_key(#[trigger] fetched[i].0)
                && bytes_ge(key_bytes(spec_lww(m, fetched)[fetched[i].0]), key_bytes(fetched[i].1)),
    decreases fetched.len(),
{
    if fetched.len() > 0 {
        let f0 = fetched.drop_last();
        lemma_lww_dominates(m, f0);
        let m0 = spec_lww(m, f0);
        let m1 = spec_lww(m, fetched);
        let (k, v) = fetched.last();
        let take = !m0.contains_key(k) || bytes_lt(key_bytes(m0[k]), key_bytes(v));
        // every key of m0 keeps a value at least its m0 value
        assert forall|x: Seq<char>| #[trigger] m0.contains_key(x) implies m1.contains_key(x) && bytes_ge(
            key_bytes(m1[x]),
            key_bytes(m0[x]),
        ) by {
            if take && x == k {
                lemma_bytes_lt_asymmetric(key_bytes(m0[k]), key_bytes(v));
            } else {
                lemma_bytes_lt_irreflexive(key_bytes(m0[x]));
            }
        }
        assert forall|x: Seq<char>|
            #![trigger m1.contains_key(x)]
            m.contains_key(x) implies m1.contains_key(x) && bytes_ge(key_bytes(m1[x]), key_bytes(m[x])) by {
            assert(m0.contains_key(x));
            lemma_ge_transitive(key_bytes(m1[x]), key_bytes(m0[x]), key_bytes(m[x]));
        }
        assert forall|i: int| 0 <= i < fetched.len() implies m1.contains_key(#[trigger] fetched[i].0)
            && bytes_ge(key_bytes(m1[fetched[i].0]), key_bytes(fetched[i].1)) by {
            if i < fetched.len() - 1 {
                assert(f0[i] == fetched[i]);
                assert(m0.contains_key(f0[i].0));
                lemma_ge_transitive(key_bytes(m1[fetched[i].0]), key_bytes(m0[fetched[i].0]), key_bytes(fetched[i].1));
            } else {
                if take {
                    lemma_bytes_lt_irreflexive(key_bytes(v));
                } else {
                }
            }
        }
    } else {
        assert forall|x: Seq<char>|
            #![trigger spec_lww(m, fetched).contains_key(x)]
            m.contains_key(x) implies spec_lww(m, fetched).contains_key(x) && bytes_ge(
            key_bytes(spec_lww(m, fetched)[x]),
            key_bytes(m[x]),
        ) by {
            lemma_bytes_lt_irreflexive(key_bytes(m[x]));
        }
    }
}

/// Last-writer-wins invents nothing: afterwards a key is present exactly when
/// it was before or was fetched, and its value is its old value or one of the
/// values fetched for it.
pub proof fn lemma_lww_values_from_inputs(m: Map<Seq<char>, Seq<char>>, fetched: Seq<(Seq<char>, Seq<char>)>)
    ensures
        forall|k: Seq<char>|
            #[trigger] spec_lww(m, fetched).contains_key(k) <==> (m.contains_key(k) || exists|i: int|
                0 <= i < fetched.len() && #[trigger] fetched[i].0 == k),
        forall|k: Seq<char>|
            #[trigger] spec_lww(m, fetched).contains_key(k) ==> (m.contains_key(k) && spec_lww(m, fetched)[k]
                == m[k]) || exists|i: int|
                0 <= i < fetched.len() && #[trigger] fetched[i].0 == k && spec_lww(m, fetched)[k] == fetched[i].1,
    decreases fetched.len(),
{
    if fetched.len() > 0 {
        let f0 = fetched.drop_last();
        lemma_lww_values_from_inputs(m, f0);
        let m0 = spec_lww(m, f0);
        let m1 = spec_lww(m, fetched);
        let (kl, v) = fetched.last();
        let n = fetched.len() - 1;
        assert(fetched[n].0 == kl && fetched[n].1 == v);
        assert forall|k: Seq<char>| #[trigger] m1.contains_key(k) <==> (m.contains_key(k) || exists|i: int|
            0 <= i < fetched.len() && #[trigger] fetched[i].0 == k) by {
            if m0.contains_key(k) {
                if !m.contains_key(k) {
                    let i = choose|i: int| 0 <= i < f0.len() && #[trigger] f0[i].0 == k;
                    assert(fetched[i] == f0[i]);
                }
            }
            if exists|i: int| 0 <= i < fetched.len() && #[trigger] fetched[i].0 == k {
                let i = choose|i: int| 0 <= i < fetched.len() && #[trigger] fetched[i].0 == k;
                if i < n {
                    assert(f0[i] == fetched[i]);
                }
            }
        }
        assert forall|k: Seq<char>| #[trigger] m1.contains_key(k) implies (m.contains_key(k) && m1[k] == m[k])
            || exists|i: int| 0 <= i < fetched.len() && #[trigger] fetched[i].0 == k && m1[k] == fetched[i].1 by {
            if k == kl && m1[k] == v {
            } else {
                assert(m0.contains_key(k) && m1[k] == m0[k]);
                if !(m.contains_key(k) && m0[k] == m[k]) {
                    let i = choose|i: int| 0 <= i < f0.len() && #[trigger] f0[i].0 == k && m0[k] == f0[i].1;
                    assert(fetched[i] == f0[i]);
                }
            }
        }
    }
}

} // verus!
