use cortex::fingerprint::{duplicate_threshold, hamming, simhash_str};
use cortex::cluster::ClusterData;

#[test]
fn distance_to_self_is_zero() {
    let texts = ["", "a", "hello world", "A launches product"];
    for t in texts {
        let f1 = simhash_str(t);
        let f2 = simhash_str(t);
        assert_eq!(hamming(f1, f2), 0);
    }
}

#[test]
fn distance_is_symmetric() {
    let a = simhash_str("first text about a topic");
    let b = simhash_str("second text about something else");
    assert_eq!(hamming(a, b), hamming(b, a));
    assert_eq!(hamming(0x1234, 0xffff_0000), hamming(0xffff_0000, 0x1234));
}

#[test]
fn fingerprint_is_deterministic() {
    assert_eq!(simhash_str("stable input"), simhash_str("stable input"));
    assert_eq!(
        ClusterData::calculate_simhash("title", "body"),
        ClusterData::calculate_simhash("title", "body"),
    );
}

#[test]
fn empty_text_fingerprints_to_zero() {
    assert_eq!(simhash_str(""), 0);
}

#[test]
fn hamming_exact_values() {
    assert_eq!(hamming(0, 0), 0);
    assert_eq!(hamming(0b1011, 0b0010), 2);
    assert_eq!(hamming(u64::MAX, 0), 64);
    assert_eq!(ClusterData::hamming_distance(0b1, 0b10), 2);
}

#[test]
fn near_duplicates_are_close() {
    let a = simhash_str("A launches product with a long shared description of the event");
    let b = simhash_str("A launches product with a long shared description of the event!");
    assert!(hamming(a, b) < 10);
}

#[test]
fn threshold_depends_on_length() {
    assert_eq!(duplicate_threshold(0), 1);
    assert_eq!(duplicate_threshold(49), 1);
    assert_eq!(duplicate_threshold(50), 3);
    assert_eq!(duplicate_threshold(500), 3);
}
