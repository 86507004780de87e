use replication_engine::rf::codec::{build_filter_bytes, decode_fits, encode_filter, reconstruct_filter_from_bytes};
use replication_engine::rf::messages::RfRibltHandshakeMessage;
use replication_engine::rf::session::{split_by_ribbon, RfHandshakeOutcome, RfPeerSession};
use replication_engine::ribbon::builder::RibbonBuilder;
use replication_engine::ribbon::error::{BuildError, ConstructionFailure, ParamError};
use replication_engine::ribbon::hashing::{derive_attempt_seed, fastrange_u64, low_mask, SplitMix64};
use replication_engine::ribbon::params::{Mode, Params};

fn keys(n: usize) -> Vec<String> {
    (0..n).map(|i| format!("item-{}", i)).collect()
}

#[test]
fn params_validation() {
    assert_eq!(Params::new(0, 8, 8, Mode::Standard), Err(ParamError::ZeroM));
    assert_eq!(Params::new(10, 0, 8, Mode::Standard), Err(ParamError::ZeroWidth));
    assert_eq!(
        Params::new(200, 129, 8, Mode::Standard),
        Err(ParamError::WidthTooLarge { w: 129, max: 128 })
    );
    assert_eq!(Params::new(10, 8, 0, Mode::Standard), Err(ParamError::ZeroFingerprintBits));
    assert_eq!(Params::new(4, 8, 8, Mode::Standard), Err(ParamError::WidthExceedsM { m: 4, w: 8 }));
    let p = Params::new(100, 64, 8, Mode::Homogeneous).unwrap();
    assert_eq!(p.seed, 0);
    assert_eq!(p.retry_limit, 1);
    assert_eq!(p.with_seed(7).seed, 7);
    assert_eq!(p.with_retry_policy(0, 0), Err(ParamError::ZeroRetryLimit));
    assert_eq!(p.start_range(), 37);
    assert_eq!(p.fingerprint_words(), 1);
    assert_eq!(p.fingerprint_last_word_mask(), 0xff);
    let wide = Params::new(100, 64, 70, Mode::Standard).unwrap();
    assert_eq!(wide.fingerprint_words(), 2);
    assert_eq!(wide.fingerprint_last_word_mask(), 0x3f);
}

#[test]
fn hashing_helpers() {
    assert_eq!(low_mask(0), 0);
    assert_eq!(low_mask(3), 7);
    assert_eq!(low_mask(64), u64::MAX);
    assert_eq!(fastrange_u64(u64::MAX, 10), 9);
    assert_eq!(fastrange_u64(0, 10), 0);
    let mut a = SplitMix64::new(1);
    let mut b = SplitMix64::new(1);
    assert_eq!(a.next_u64(), b.next_u64());
    assert_ne!(derive_attempt_seed(1, 0), derive_attempt_seed(1, 1));
}

#[test]
fn build_has_no_false_negatives() {
    let ks = keys(200);
    let p = Params::new(260, 64, 8, Mode::Standard).unwrap().with_seed(42).with_retry_policy(8, 4).unwrap();
    let builder = RibbonBuilder::new(p).unwrap();
    assert_eq!(builder.params(), p);
    let f = builder.build(&ks).unwrap();
    for k in &ks {
        assert!(f.contains(k));
    }
    let mut scratch = f.new_scratch();
    for k in &ks {
        assert!(f.contains_in(k, &mut scratch));
    }
}

#[test]
fn build_rejects_invalid_params() {
    let p = Params { m: 0, w: 8, r: 8, mode: Mode::Standard, seed: 0, retry_limit: 1, grow_limit: 0 };
    assert!(matches!(RibbonBuilder::new(p), Err(BuildError::InvalidParams(ParamError::ZeroM))));
}

#[test]
fn filter_roundtrip_through_bytes() {
    let ks = keys(150);
    let p = Params::new(200, 64, 8, Mode::Homogeneous).unwrap().with_seed(99);
    let f = RibbonBuilder::new(p).unwrap().build(&ks).unwrap();
    let bytes = encode_filter(&f);
    assert_eq!(bytes.len(), 41 + 200);
    let g = reconstruct_filter_from_bytes(&bytes).unwrap();
    assert_eq!(g.params().m, f.params().m);
    assert_eq!(g.params().seed, f.params().seed);
    assert_eq!(g.params().r, 8);
    assert_eq!(g.z_raw(), f.z_raw());
    for k in &ks {
        assert!(g.contains(k));
    }
    for i in 0..300 {
        let probe = format!("probe-{}", i);
        assert_eq!(f.contains(&probe), g.contains(&probe));
    }
    assert!(reconstruct_filter_from_bytes(&bytes[..40]).is_none());
    assert!(reconstruct_filter_from_bytes(&bytes[..100]).is_none());
}

#[test]
fn rf_handshake_splits_local_keys() {
    let remote = keys(100);
    let p = Params::new(140, 64, 8, Mode::Homogeneous).unwrap().with_seed(5);
    let f = RibbonBuilder::new(p).unwrap().build(&remote).unwrap();
    let bytes = encode_filter(&f);
    let mut local = keys(50);
    local.push("local-only-1".to_string());
    local.push("local-only-2".to_string());
    let (s_com, s_tn) = split_by_ribbon(&f, &local);
    assert_eq!(s_com.len() + s_tn.len(), local.len());
    for k in keys(50) {
        assert!(s_com.contains(&k));
    }

    let msg = RfRibltHandshakeMessage::new(Some(4), "h".to_string(), 5, bytes);
    let mut peer = RfPeerSession::new();
    match peer.on_handshake(&msg, Some(1), &local) {
        RfHandshakeOutcome::Processed { send_reverse, start_scom } => {
            assert!(send_reverse);
            assert!(!start_scom);
        }
        _ => panic!("handshake not processed"),
    }
    let r = peer.filter_receiving.as_ref().unwrap();
    assert_eq!(r.s_com, s_com);
    assert_eq!(r.s_tn, s_tn);
    // same session again: no reverse filter
    match peer.on_handshake(&msg, Some(1), &local) {
        RfHandshakeOutcome::Processed { send_reverse, .. } => assert!(!send_reverse),
        _ => panic!("handshake not processed"),
    }
    let bad = RfRibltHandshakeMessage::new(Some(4), "h2".to_string(), 5, vec![1, 2, 3]);
    assert!(matches!(peer.on_handshake(&bad, Some(1), &local), RfHandshakeOutcome::BadFilter));
}

#[test]
fn decode_size_bound() {
    let ks = keys(20);
    let p = Params::new(40, 32, 8, Mode::Standard).unwrap().with_seed(5);
    let f = RibbonBuilder::new(p).unwrap().build(&ks).unwrap();
    let bytes = encode_filter(&f);
    assert!(decode_fits(&bytes));
    assert!(decode_fits(&bytes[..10]));
    let mut huge_rows = bytes.clone();
    huge_rows[..8].copy_from_slice(&u64::MAX.to_le_bytes());
    huge_rows[33..41].copy_from_slice(&0u64.to_le_bytes());
    assert!(!decode_fits(&huge_rows));
    let mut huge_packed = bytes.clone();
    huge_packed[33..41].copy_from_slice(&u64::MAX.to_le_bytes());
    assert!(!decode_fits(&huge_packed));
}

#[test]
fn overfull_build_reports_inconsistency() {
    let ks = keys(100);
    let p = Params::new(16, 16, 8, Mode::Standard).unwrap().with_seed(3);
    match RibbonBuilder::new(p).unwrap().build(&ks) {
        Err(BuildError::ConstructionFailed { final_m, attempts, last_failure }) => {
            assert_eq!(final_m, 16);
            assert_eq!(attempts, 1);
            assert!(matches!(last_failure, ConstructionFailure::InconsistentEquation { .. }));
        }
        _ => panic!("100 keys cannot fit 16 rows"),
    }
}

#[test]
fn homogeneous_build_succeeds_on_first_attempt() {
    let ks = keys(100);
    let p = Params::new(16, 16, 8, Mode::Homogeneous).unwrap().with_seed(3);
    let f = RibbonBuilder::new(p).unwrap().build(&ks).unwrap();
    assert_eq!(f.params().m, 16);
    assert_eq!(f.params().seed, derive_attempt_seed(3, 0));
    for k in &ks {
        assert!(f.contains(k));
    }
}

#[test]
fn homogeneous_free_rows_hold_the_fill_stream() {
    let none: Vec<String> = Vec::new();
    let p = Params::new(16, 16, 8, Mode::Homogeneous).unwrap().with_seed(3);
    let f = RibbonBuilder::new(p).unwrap().build(&none).unwrap();
    let mut rng = SplitMix64::new(f.params().seed ^ 0xD1B5_4A32_D192_ED03);
    for j in 0..16 {
        assert_eq!(f.z_raw()[j], rng.next_u64() & 0xff);
    }
}

#[test]
fn homogeneous_filter_rejects_most_non_members() {
    let ks = keys(100);
    let p = Params::new(128, 64, 8, Mode::Homogeneous).unwrap().with_seed(11);
    let f = RibbonBuilder::new(p).unwrap().build(&ks).unwrap();
    for k in &ks {
        assert!(f.contains(k));
    }
    let admitted = (0..1000).filter(|i| f.contains(&format!("absent-{}", i))).count();
    assert!(admitted < 50, "admitted {} of 1000 non-members", admitted);
}

#[test]
fn building_twice_gives_the_same_words() {
    let ks = keys(60);
    let p = Params::new(96, 32, 12, Mode::Standard).unwrap().with_seed(5).with_retry_policy(4, 2).unwrap();
    let a = RibbonBuilder::new(p).unwrap().build(&ks).unwrap();
    let b = RibbonBuilder::new(p).unwrap().build(&ks).unwrap();
    assert_eq!(a.params(), b.params());
    assert_eq!(a.z_raw(), b.z_raw());
}

#[test]
fn sent_filter_bytes_read_back_with_every_key() {
    let ks = keys(120);
    let base = Params::new(160, 64, 8, Mode::Homogeneous).unwrap();
    let (bytes, seed) = build_filter_bytes(base, &ks).unwrap();
    assert!(decode_fits(&bytes));
    let g = reconstruct_filter_from_bytes(&bytes).unwrap();
    assert_eq!(g.params().w, 64);
    assert_eq!(g.params().r, 8);
    assert_eq!(g.params().mode, Mode::Homogeneous);
    assert_eq!(g.params().m, 160);
    assert_eq!(g.params().seed, derive_attempt_seed(seed, 0));
    assert_eq!(bytes.len(), 41 + g.params().m);
    for k in &ks {
        assert!(g.contains(k));
    }
}
