use replication_engine::bloom::BloomFilter;
use replication_engine::kv::OrderedEntries;
use replication_engine::rbf::messages::RbfRibltBloomFilterSliceMessage;
use replication_engine::rbf::session::{
    build_bloom_slice, compute_fingerprint, partition_by_filter, select_fetch_entries,
    BloomReceivingState, BloomSendingState, RbfPeerSession, SliceOutcome, BLOOM_HASHES,
    RBF_RIBLT_PROTOCOL_ID,
};
use replication_engine::rf::session::{
    RfFilterReceivingState, RfPeerSession, SComReconciliationState, RF_RIBLT_PROTOCOL_ID,
};
use replication_engine::std_hash::hash_pairs;
use std::hash::{Hash, Hasher};

fn s(x: &str) -> String {
    x.to_string()
}

fn strings(v: &[&str]) -> Vec<String> {
    v.iter().map(|x| x.to_string()).collect()
}

#[test]
fn protocol_ids() {
    assert_eq!(RBF_RIBLT_PROTOCOL_ID, 3);
    assert_eq!(RF_RIBLT_PROTOCOL_ID, 4);
}

#[test]
fn send_window() {
    let mut st = BloomSendingState::new(s("x"), 64);
    assert!(!st.window_full());
    st.next_slice_index = 1;
    assert!(st.window_full());
    st.acked = 1;
    assert!(!st.window_full());
    st.acked = 5;
    assert!(!st.window_full());
}

#[test]
fn partition_moves_rejected_keys() {
    let mut f = BloomFilter::from_raw_parts_with_seeds(4096, 2, [1, 2]);
    f.insert("a");
    f.insert("c");
    let mut st = BloomReceivingState::new(s("sess"), 10);
    st.s_com = strings(&["a", "b", "c", "d"]);
    st.s_tn = strings(&["z"]);
    let moved = partition_by_filter(&mut st, &f);
    let kept: Vec<String> = st.s_com.clone();
    for k in &kept {
        assert!(f.contains(k));
    }
    assert!(kept.contains(&s("a")) && kept.contains(&s("c")));
    assert_eq!(moved, 4 - kept.len());
    assert_eq!(st.s_tn.len(), 1 + moved);
    assert_eq!(st.s_tn[0], s("z"));
}

#[test]
fn session_ack_and_stop() {
    let mut p = RbfPeerSession::new();
    assert!(!p.is_session_active(false));
    assert!(p.is_session_active(true));
    let sid = p.begin_as_initiator(128);
    assert_eq!(p.sending.as_ref().unwrap().session_id, sid);
    assert!(p.is_session_active(false));
    assert!(!p.on_bloom_slice_ack("other", 3));
    assert!(p.on_bloom_slice_ack(&sid, 3));
    assert_eq!(p.sending.as_ref().unwrap().acked, 3);
    assert!(p.on_bloom_slice_ack(&sid, 2));
    assert_eq!(p.sending.as_ref().unwrap().acked, 3);
    p.on_slice_sent();
    assert_eq!(p.sending.as_ref().unwrap().next_slice_index, 1);
    assert!(p.on_stop_signal());
    assert!(!p.on_stop_signal());
    p.clear_session_state();
    assert!(!p.is_session_active(false));
    assert!(!p.initiated);
}

#[test]
fn handshake_rules() {
    let mut p = RbfPeerSession::new();
    // without storage nothing happens
    assert!(!p.on_handshake("h1", false, None, 64));
    assert!(p.receiving.is_none());
    assert!(p.on_handshake("h1", false, Some(7), 64));
    assert_eq!(p.receiving.as_ref().unwrap().m_bits, 64);
    // same session: kept
    assert!(!p.on_handshake("h1", false, Some(7), 99));
    assert_eq!(p.receiving.as_ref().unwrap().m_bits, 64);
    // busy while the RIBLT engine runs
    assert!(!p.on_handshake("h2", true, Some(7), 64));
    // unchanged data since the last round
    p.finish_round(Some(7));
    assert_eq!(p.last_fingerprint, Some(7));
    assert!(!p.on_handshake("h3", false, Some(7), 64));
    assert!(p.on_handshake("h3", false, Some(8), 64));
}

#[test]
fn bloom_slice_flow() {
    let local = strings(&["k1", "k2", "k3", "k4", "k5", "k6"]);
    let remote = strings(&["k1", "k2", "k3"]);
    let (seeds, bits) = build_bloom_slice(&remote, 512, 0);
    let msg = RbfRibltBloomFilterSliceMessage::new(
        Some(3),
        s("sess"),
        0,
        512,
        BLOOM_HASHES,
        seeds,
        bits,
    );
    let mut p = RbfPeerSession::new();
    // no receiving state and no storage: ignored
    assert!(matches!(p.on_bloom_slice(&msg, None), SliceOutcome::Ignored));
    let out = p.on_bloom_slice(&msg, Some(local.clone()));
    let r = p.receiving.as_ref().unwrap();
    assert_eq!(r.slices_received, 1);
    for k in &remote {
        assert!(r.s_com.contains(k));
    }
    assert_eq!(r.s_com.len() + r.s_tn.len(), local.len());
    match out {
        SliceOutcome::Ack { session_id, processed_count } => {
            assert_eq!(session_id, s("sess"));
            assert_eq!(processed_count, 1);
        }
        SliceOutcome::Stabilized { session_id, initiator } => {
            assert_eq!(session_id, s("sess"));
            assert!(!initiator);
        }
        SliceOutcome::Ignored => panic!("slice was not applied"),
    }
    // moving to the RIBLT phase happens once
    let first = p.begin_scom();
    assert!(first.is_some());
    assert!(p.begin_scom().is_none());
    assert!(p.is_session_busy(false));
    assert_eq!(p.captured_stn.as_ref().unwrap(), &p.receiving.as_ref().unwrap().s_tn);
}

#[test]
fn reverse_stream_guard() {
    let mut p = RbfPeerSession::new();
    assert!(p.begin_reverse_stream(10).is_none());
    p.on_handshake("h", false, Some(1), 32);
    p.receiving.as_mut().unwrap().s_com = strings(&["a"]);
    let (keys, sid) = p.begin_reverse_stream(10).unwrap();
    assert_eq!(keys, strings(&["a"]));
    assert!(p.begin_reverse_stream(10).is_none());
    assert_eq!(p.sending.as_ref().unwrap().session_id, sid);
    assert_eq!(p.sending.as_ref().unwrap().m_bits, 10);
}

#[test]
fn scom_completion_and_fetch() {
    let mut p = RbfPeerSession::new();
    p.on_handshake("h", false, Some(1), 32);
    p.receiving.as_mut().unwrap().s_tn = strings(&["t1"]);
    let seeded = p.on_seed();
    assert!(seeded.is_empty());
    p.on_remote_symbols(strings(&["r1"]));
    p.on_remote_symbols(strings(&["r2"]));
    let (for_sender, missing) = p.on_complete(s("scom"), strings(&["l1"]));
    assert_eq!(for_sender, strings(&["l1", "t1"]));
    assert_eq!(missing, strings(&["r1", "r2"]));
    assert!(p.accepts_fetch_response("scom"));
    assert!(!p.accepts_fetch_response("other"));
    assert!(!p.on_scom_decoded_all(false, s("x")));
    assert!(p.on_scom_decoded_all(true, s("y")));
    assert!(p.accepts_fetch_response("y"));
}

#[test]
fn fetch_selection() {
    let items = vec![(s("a"), s("1")), (s("b"), s("2")), (s("c"), s("3")), (s("d"), s("4"))];
    let picked = select_fetch_entries(&items, &strings(&["c", "x"]), &strings(&["a"]));
    let got: Vec<(String, String)> =
        picked.iter().map(|e| (e.key().to_string(), e.value().to_string())).collect();
    assert_eq!(got, vec![(s("a"), s("1")), (s("c"), s("3"))]);
    let mut p = RbfPeerSession::new();
    assert_eq!(p.fetch_entries(&items, &strings(&["d"])).len(), 1);
    p.captured_stn = Some(strings(&["b"]));
    assert_eq!(p.fetch_entries(&items, &strings(&["d"])).len(), 2);
}

#[test]
fn fingerprint_is_hash_of_sorted_pairs() {
    let mut e = OrderedEntries::new();
    e.insert(s("b"), s("2"));
    e.insert(s("a"), s("1"));
    let fp = compute_fingerprint(&e);
    assert_eq!(fp, hash_pairs(&[(s("a"), s("1")), (s("b"), s("2"))]));
    let mut h = std::collections::hash_map::DefaultHasher::new();
    let pairs = vec![(s("a"), s("1")), (s("b"), s("2"))];
    pairs.len().hash(&mut h);
    for (k, v) in &pairs {
        k.hash(&mut h);
        v.hash(&mut h);
    }
    assert_eq!(fp, h.finish());
}

#[test]
fn rf_session_flow() {
    let st = RfFilterReceivingState::new(s("x"));
    assert!(st.s_com.is_empty() && st.s_tn.is_empty() && !st.riblt_started);
    let mut p = RfPeerSession::new();
    assert!(!p.is_session_active());
    p.filter_receiving = Some(RfFilterReceivingState::new(s("sess")));
    p.filter_receiving.as_mut().unwrap().s_com = strings(&["c1"]);
    p.filter_receiving.as_mut().unwrap().s_tn = strings(&["t1"]);
    assert!(!p.is_session_busy());
    let (keys, scom) = p.begin_scom(true).unwrap();
    assert_eq!(keys, strings(&["c1"]));
    assert!(p.is_session_busy());
    assert!(p.begin_scom(true).is_none());
    assert_eq!(p.captured_stn, Some(strings(&["t1"])));
    assert_eq!(p.on_batch_sent(), Some(scom.clone()));
    assert_eq!(
        p.scom_sending.as_ref().unwrap().state,
        SComReconciliationState::AwaitingConfirmation
    );
    p.on_request_more("other");
    assert_eq!(
        p.scom_sending.as_ref().unwrap().state,
        SComReconciliationState::AwaitingConfirmation
    );
    p.on_request_more(&scom);
    assert_eq!(p.scom_sending.as_ref().unwrap().state, SComReconciliationState::SendingSymbols);
    assert!(!p.on_scom_decoded_all(s("nope")));
    assert!(p.on_scom_decoded_all(scom.clone()));
    assert!(p.scom_sending.is_none());
    assert!(p.accepts_fetch_response(&scom));
    p.finish_round(Some(11));
    assert!(!p.is_session_active());
    assert_eq!(p.last_fingerprint, Some(11));
}

#[test]
fn rf_decoding_outcomes() {
    let mut p = RfPeerSession::new();
    p.filter_receiving = Some(RfFilterReceivingState::new(s("sess")));
    p.filter_receiving.as_mut().unwrap().s_com = strings(&["c1", "c2"]);
    p.filter_receiving.as_mut().unwrap().s_tn = strings(&["t1"]);
    assert_eq!(p.init_scom_receiving("d1"), Some(strings(&["c1", "c2"])));
    assert_eq!(p.init_scom_receiving("d1"), None);
    assert!(p.on_decode_result(s("d1"), false, vec![], vec![]).is_none());
    let (for_sender, missing) =
        p.on_decode_result(s("d1"), true, strings(&["l"]), strings(&["r"])).unwrap();
    assert_eq!(for_sender, strings(&["l", "t1"]));
    assert_eq!(missing, strings(&["r"]));
    assert!(p.scom_receiving.is_none());
    assert!(p.accepts_fetch_response("d1"));
}

fn assert_session_id_text(sid: &str) {
    let chars: Vec<char> = sid.chars().collect();
    assert_eq!(chars.len(), 36);
    for (i, c) in chars.iter().enumerate() {
        if i == 8 || i == 13 || i == 18 || i == 23 {
            assert_eq!(*c, '-');
        } else {
            assert!(c.is_ascii_digit() || ('a'..='f').contains(c));
        }
    }
    assert_eq!(chars[14], '4');
    assert!(['8', '9', 'a', 'b'].contains(&chars[19]));
}

#[test]
fn session_ids_are_uuid_text() {
    let mut p = RbfPeerSession::new();
    let a = p.begin_as_initiator(128);
    assert_session_id_text(&a);
    let mut q = RbfPeerSession::new();
    let b = q.begin_as_initiator(128);
    assert_session_id_text(&b);
    assert_ne!(a, b);
}

#[test]
fn bloom_slice_answer_follows_new_true_negatives() {
    // An empty slice rejects every candidate: 40 new true negatives, 40 * 32 >= 64 bits.
    let local: Vec<String> = (0..40).map(|i| format!("key-{}", i)).collect();
    let (seeds, bits) = build_bloom_slice(&[], 64, 0);
    let msg = RbfRibltBloomFilterSliceMessage::new(Some(3), s("a"), 0, 64, BLOOM_HASHES, seeds, bits);
    let mut p = RbfPeerSession::new();
    let out = p.on_bloom_slice(&msg, Some(local.clone()));
    assert!(matches!(out, SliceOutcome::Ack { processed_count: 1, .. }));
    let r = p.receiving.as_ref().unwrap();
    assert!(r.s_com.is_empty());
    assert_eq!(r.s_tn, local);
    // A slice holding every candidate drops none: the Bloom phase is stable.
    let (seeds, bits) = build_bloom_slice(&local, 4096, 1);
    let msg = RbfRibltBloomFilterSliceMessage::new(Some(3), s("b"), 1, 4096, BLOOM_HASHES, seeds, bits);
    let mut q = RbfPeerSession::new();
    let out = q.on_bloom_slice(&msg, Some(local.clone()));
    assert!(matches!(out, SliceOutcome::Stabilized { initiator: false, .. }));
    assert_eq!(q.receiving.as_ref().unwrap().s_com, local);
}
