use replication_engine::bloom::BloomFilter;
use replication_engine::rbf::session::{build_bloom_slice, BloomReceivingState, BLOOM_HASHES};

fn pack(bits: &[bool]) -> Vec<u8> {
    let mut out = Vec::new();
    let mut start = 0;
    while start < bits.len() {
        let end = (start + 8).min(bits.len());
        let mut b = 0u8;
        for i in start..end {
            if bits[i] {
                b |= 1 << (i - start);
            }
        }
        out.push(b);
        start += 8;
    }
    out
}

#[test]
fn test_membership_and_no_false_positives() {
    // BloomFilter::new(100, 0.01) sizes the filter from the capacity and rate.
    let capacity = 100usize;
    let fpr = 0.01f64;
    let ln2 = std::f64::consts::LN_2;
    let m = (-1.0f64 * capacity as f64 * fpr.ln() / (ln2 * ln2)).ceil() as usize;
    let k = (-1.0f64 * fpr.ln() / ln2).ceil() as u64;
    let mut bloom = BloomFilter::from_raw_parts(m.max(1), k);

    assert!(!bloom.contains("1"));
    assert!(!bloom.contains("2"));

    bloom.insert("1");
    assert!(bloom.contains("1"));
}

#[test]
fn test_cross_reconstruction() {
    let seeds = [42u64, 99u64];
    let mut sender = BloomFilter::from_raw_parts_with_seeds(128, 1, seeds);
    sender.insert("hello");
    sender.insert("world");

    let bits = pack(&sender.bitslice());

    let receiver = BloomFilter::from_raw_bits(128, 1, &bits, seeds);
    assert!(receiver.contains("hello"));
    assert!(receiver.contains("world"));
    assert!(!receiver.contains("other"));
}

#[test]
fn bloom_sizes_match_capacity_formula() {
    let ln2 = std::f64::consts::LN_2;
    let m = (-1.0f64 * 100f64 * 0.01f64.ln() / (ln2 * ln2)).ceil() as usize;
    let k = (-1.0f64 * 0.01f64.ln() / ln2).ceil() as u64;
    assert_eq!(m, 959);
    assert_eq!(k, 7);
    let bloom = BloomFilter::from_raw_parts(m, k);
    assert_eq!(bloom.num_bits(), 959);
    assert_eq!(bloom.hashes(), 7);
    assert_eq!(bloom.seeds(), [0, 1]);
}

#[test]
fn bloom_to_bytes_matches_manual_packing() {
    let mut f = BloomFilter::from_raw_parts_with_seeds(77, 3, [5, 6]);
    for key in ["a", "bb", "ccc", "dddd"] {
        f.insert(key);
    }
    let bits = f.bitslice();
    assert_eq!(bits.len(), 77);
    assert_eq!(f.to_bytes(), pack(&bits));
    assert_eq!(f.to_bytes().len(), 10);
    let back = BloomFilter::from_raw_bits(77, 3, &f.to_bytes(), [5, 6]);
    assert_eq!(back.bitslice(), bits);
}

#[test]
fn bloom_insert_sets_bits_and_is_monotone() {
    let mut f = BloomFilter::from_raw_parts(64, 2);
    assert!(f.bitslice().iter().all(|b| !*b));
    f.insert("x");
    let after_x = f.bitslice();
    assert!(after_x.iter().any(|b| *b));
    f.insert("y");
    let after_y = f.bitslice();
    for i in 0..64 {
        assert!(!after_x[i] || after_y[i]);
    }
    assert!(f.contains("x"));
    assert!(f.contains("y"));
}

#[test]
fn bloom_slice_contains_every_sender_key() {
    let keys: Vec<String> = (0..40).map(|i| format!("key-{}", i)).collect();
    let (seeds, bits) = build_bloom_slice(&keys, 57, 9);
    assert_eq!(seeds, [9, 10]);
    assert_eq!(bits.len(), 8);
    let receiver = BloomFilter::from_raw_bits(57, BLOOM_HASHES, &bits, seeds);
    for k in &keys {
        assert!(receiver.contains(k));
    }
    let mut direct = BloomFilter::from_raw_parts_with_seeds(57, BLOOM_HASHES, [9, 10]);
    for k in &keys {
        direct.insert(k);
    }
    assert_eq!(direct.to_bytes(), bits);
}

#[test]
fn bloom_slice_seeds_wrap() {
    let (seeds, _) = build_bloom_slice(&[], 8, u64::MAX);
    assert_eq!(seeds, [u64::MAX, 0]);
}

#[test]
fn stop_slicing_threshold() {
    let st = BloomReceivingState::new("s".to_string(), 100);
    // 3 * 32 = 96 < 100, 4 * 32 = 128 >= 100
    assert!(st.should_stop_slicing(3));
    assert!(!st.should_stop_slicing(4));
    assert!(st.should_stop_slicing(0));
    let small = BloomReceivingState::new("s".to_string(), 0);
    assert!(!small.should_stop_slicing(0));
}
