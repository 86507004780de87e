use replication_engine::kv::OrderedEntries;
use replication_engine::merkle::messages::{
    MerkleTreeDeserializer, MerkleTreeMessage, MerkleTreeMessageType, MerkleTreeMessageTypeValues,
    MerkleTreeMessageWrapper,
};
use replication_engine::merkle::session::{
    answer_node_request, apply_fetched, hashes_equal, process_node_answers, split_into_chunks,
    MerkleNodeAnswer,
};
use replication_engine::merkle::tree::BinaryMerkleTree;
use replication_engine::wire::MessageType;

fn leaf(k: &str, v: &str) -> [u8; 32] {
    let mut h = blake3::Hasher::new();
    h.update(k.as_bytes());
    h.update(v.as_bytes());
    *h.finalize().as_bytes()
}

fn inner(l: &[u8; 32], r: &[u8; 32]) -> [u8; 32] {
    let mut h = blake3::Hasher::new();
    h.update(l);
    h.update(r);
    *h.finalize().as_bytes()
}

fn s(x: &str) -> String {
    x.to_string()
}

#[test]
fn empty_tree_has_zero_root() {
    let t = BinaryMerkleTree::new();
    assert_eq!(t.get_root_hash(), [0u8; 32]);
    assert!(t.get_node("root").is_none());
    assert_eq!(t.snapshot().get_root_hash(), [0u8; 32]);
}

#[test]
fn single_leaf_root() {
    let mut t = BinaryMerkleTree::new();
    t.insert(s("k"), s("v"));
    assert_eq!(t.get_root_hash(), leaf("k", "v"));
    let (n, parent) = t.get_node("root").unwrap();
    assert_eq!(n.key, Some(s("k")));
    assert!(parent.is_none());
    assert!(n.left.is_none() && n.right.is_none());
}

#[test]
fn tree_shape_and_hashes() {
    let mut t = BinaryMerkleTree::new();
    t.insert(s("c"), s("3"));
    t.insert(s("a"), s("1"));
    t.insert(s("b"), s("2"));
    // sorted: a, b, c; left = [a], right = [b, c]
    let la = leaf("a", "1");
    let lb = leaf("b", "2");
    let lc = leaf("c", "3");
    let right = inner(&lb, &lc);
    let root = inner(&la, &right);
    assert_eq!(t.get_root_hash(), root);

    let (l, p) = t.get_node("root-left").unwrap();
    assert_eq!(l.hash, la);
    assert_eq!(l.key, Some(s("a")));
    assert_eq!(p, Some(root));
    let (r, p) = t.get_node("1").unwrap();
    assert_eq!(r.hash, right);
    assert_eq!(r.key, None);
    assert_eq!(p, Some(root));
    let (rl, p) = t.get_node("root-1-0").unwrap();
    assert_eq!(rl.hash, lb);
    assert_eq!(p, Some(right));
    let (rr, _) = t.get_node("right-right").unwrap();
    assert_eq!(rr.key, Some(s("c")));
    assert!(t.get_node("left-left").is_none());
    assert!(t.get_node("middle").is_none());
    assert!(t.get_node("").is_none());
    assert!(t.get_node("root-").is_none());
    let (rt, p) = t.get_node("root-root").unwrap();
    assert_eq!(rt.hash, root);
    assert!(p.is_none());
}

#[test]
fn same_data_same_root() {
    let mut a = BinaryMerkleTree::new();
    let mut b = BinaryMerkleTree::new();
    for i in 0..20 {
        a.insert(format!("key{}", i), format!("value{}", i));
    }
    for i in (0..20).rev() {
        b.insert(format!("key{}", i), format!("old{}", i));
    }
    assert_ne!(a.get_root_hash(), b.get_root_hash());
    for i in 0..20 {
        b.insert(format!("key{}", i), format!("value{}", i));
    }
    assert_eq!(a.get_root_hash(), b.get_root_hash());
    b.insert(s("extra"), s("x"));
    assert_ne!(a.get_root_hash(), b.get_root_hash());
    b.remove("extra");
    assert_eq!(a.get_root_hash(), b.get_root_hash());
    b.remove("absent");
    assert_eq!(a.get_root_hash(), b.get_root_hash());
}

#[test]
fn replace_all_later_pair_wins() {
    let mut t = BinaryMerkleTree::new();
    t.insert(s("z"), s("gone"));
    t.replace_all(vec![(s("b"), s("1")), (s("a"), s("2")), (s("b"), s("3"))]);
    let mut u = BinaryMerkleTree::new();
    u.insert(s("a"), s("2"));
    u.insert(s("b"), s("3"));
    assert_eq!(t.get_root_hash(), u.get_root_hash());
    let pairs = t.lookup_pairs(&[s("b"), s("z"), s("a")]);
    assert_eq!(pairs, vec![(s("b"), s("3")), (s("a"), s("2"))]);
}

#[test]
fn snapshot_is_frozen() {
    let mut t = BinaryMerkleTree::new();
    t.insert(s("a"), s("1"));
    let snap = t.snapshot();
    let before = t.get_root_hash();
    t.insert(s("b"), s("2"));
    assert_eq!(snap.get_root_hash(), before);
    assert_ne!(t.get_root_hash(), before);
    assert_eq!(snap.get_node_summary("root"), Some((leaf("a", "1"), Some(s("a")))));
}

#[test]
fn node_answers_and_descent() {
    let mut remote = BinaryMerkleTree::new();
    let mut local = BinaryMerkleTree::new();
    for k in ["a", "b", "c", "d"] {
        remote.insert(s(k), s("r"));
        local.insert(s(k), s("r"));
    }
    remote.insert(s("d"), s("changed"));
    let rsnap = remote.snapshot();
    let lsnap = local.snapshot();

    let answers: Vec<MerkleNodeAnswer> = answer_node_request(&rsnap, &[s("root"), s("nope")]);
    assert_eq!(answers.len(), 2);
    assert_eq!(answers[0].1, remote.get_root_hash());
    assert_eq!(answers[1], (s("nope"), [0u8; 32], None));

    let mut next = Vec::new();
    let mut fetch = Vec::new();
    process_node_answers(&lsnap, &answers, &mut next, &mut fetch);
    assert_eq!(next, vec![s("root-left"), s("root-right")]);
    assert!(fetch.is_empty());

    let level = answer_node_request(&rsnap, &next);
    let mut next2 = Vec::new();
    process_node_answers(&lsnap, &level, &mut next2, &mut fetch);
    // only the right half differs
    assert_eq!(next2, vec![s("root-right-left"), s("root-right-right")]);
    let leaves = answer_node_request(&rsnap, &next2);
    let mut next3 = Vec::new();
    process_node_answers(&lsnap, &leaves, &mut next3, &mut fetch);
    assert!(next3.is_empty());
    assert_eq!(fetch, vec![s("d")]);
}

#[test]
fn chunks_split_lists() {
    let items: Vec<String> = (0..7).map(|i| i.to_string()).collect();
    let chunks = split_into_chunks(&items, 3);
    assert_eq!(chunks.len(), 3);
    assert_eq!(chunks[0], vec![s("0"), s("1"), s("2")]);
    assert_eq!(chunks[2], vec![s("6")]);
    assert!(split_into_chunks(&[], 5).is_empty());
    assert_eq!(split_into_chunks(&items, 7).len(), 1);
}

#[test]
fn last_writer_wins() {
    let mut current = OrderedEntries::new();
    current.insert(s("a"), s("5"));
    current.insert(s("b"), s("5"));
    let fetched = vec![(s("a"), s("3")), (s("b"), s("7")), (s("c"), s("1")), (s("c"), s("0"))];
    let taken = apply_fetched(&mut current, &fetched);
    assert_eq!(taken, vec![(s("b"), s("7")), (s("c"), s("1"))]);
    assert_eq!(current.get("a"), Some(&s("5")));
    assert_eq!(current.get("b"), Some(&s("7")));
    assert_eq!(current.get("c"), Some(&s("1")));
    // applying again changes nothing
    let again = apply_fetched(&mut current, &fetched);
    assert!(again.is_empty());
}

#[test]
fn hash_equality() {
    let a = [1u8; 32];
    let mut b = [1u8; 32];
    assert!(hashes_equal(&a, &b));
    b[31] = 2;
    assert!(!hashes_equal(&a, &b));
}

#[test]
fn merkle_messages() {
    let msg = MerkleTreeMessage::new(
        Some(2),
        MerkleTreeMessageType::new(MerkleTreeMessageTypeValues::DataRequest),
        s("session"),
        MerkleTreeMessageWrapper::DataRequest(7, vec![s("k")]),
    );
    assert_eq!(msg.session_id(), "session");
    assert_eq!(msg.protocol(), Some(2));
    assert!(matches!(msg.wrapper(), MerkleTreeMessageWrapper::DataRequest(7, _)));
    let d = MerkleTreeDeserializer::new();
    let t = d.message_type(&MerkleTreeMessageWrapper::SyncRoot([0; 32]));
    assert_eq!(t.value(), MerkleTreeMessageTypeValues::SyncRoot);
}
