use keyspace_search::{hash_md5, hash_sha1, verify_bcrypt, Verifier, VerifyStrategy};

#[test]
fn sha1_known_digest() {
    assert_eq!(hash_sha1("abc"), "a9993e364706816aba3e25717850c26c9cd0d89d");
    assert_eq!(hash_sha1(""), "da39a3ee5e6b4b0d3255bfef95601890afd80709");
}

#[test]
fn md5_known_digest() {
    assert_eq!(hash_md5("abc"), "900150983cd24fb0d6963f7d28e17f72");
    assert_eq!(hash_md5(""), "d41d8cd98f00b204e9800998ecf8427e");
}

#[test]
fn matches_is_deterministic() {
    let v = Verifier::new(VerifyStrategy::FastSha1, hash_sha1("ab")).expect("valid digest");
    let first = v.matches("ab");
    let second = v.matches("ab");
    assert_eq!(first, second);
    assert!(first);
    let miss_first = v.matches("ba");
    let miss_second = v.matches("ba");
    assert_eq!(miss_first, miss_second);
    assert!(!miss_first);
}

#[test]
fn md5_strategy_matches() {
    let v = Verifier::new(VerifyStrategy::FastMd5, hash_md5("ba")).expect("valid digest");
    assert!(v.matches("ba"));
    assert!(!v.matches("ab"));
}

#[test]
fn malformed_fast_targets_rejected() {
    // Wrong length.
    assert!(Verifier::new(VerifyStrategy::FastSha1, "abc123".to_string()).is_none());
    // Right length, non-hex character.
    let mut t = "a".repeat(39);
    t.push('g');
    assert!(Verifier::new(VerifyStrategy::FastSha1, t).is_none());
    // Uppercase digits are not the canonical form digests are emitted in.
    let upper = "A9993E364706816ABA3E25717850C26C9CD0D89D".to_string();
    assert!(Verifier::new(VerifyStrategy::FastSha1, upper).is_none());
    // An MD5-length digest is not a SHA-1 target.
    assert!(Verifier::new(VerifyStrategy::FastSha1, hash_md5("abc")).is_none());
    assert!(Verifier::new(VerifyStrategy::FastMd5, hash_sha1("abc")).is_none());
}

#[test]
fn bcrypt_verify_roundtrip() {
    let record = bcrypt::hash("pw", 4).expect("hashing succeeds");
    assert!(verify_bcrypt("pw", &record));
    assert!(!verify_bcrypt("qw", &record));
    // An unparseable record is "no match", never an error.
    assert!(!verify_bcrypt("pw", "not-a-record"));
}

#[test]
fn bcrypt_targets_validated() {
    let record = bcrypt::hash("pw", 4).expect("hashing succeeds");
    assert!(Verifier::new(VerifyStrategy::SlowBcrypt, record.clone()).is_some());
    assert!(Verifier::new(VerifyStrategy::SlowBcrypt, "not-a-record".to_string()).is_none());
    let v = Verifier::new(VerifyStrategy::SlowBcrypt, record).expect("valid record");
    assert!(v.matches("pw"));
    assert!(!v.matches("pq"));
}
