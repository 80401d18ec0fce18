use keyspace_search::{
    check_index, hash_md5, hash_sha1, search, search_batch, search_indices, Alphabet, Batch,
    ConfigError, SearchConfig, SearchResult, Verifier, VerifyStrategy,
};

fn config(
    alphabet: Vec<u8>,
    target: String,
    strategy: VerifyStrategy,
    max_length: usize,
) -> SearchConfig {
    SearchConfig {
        target,
        alphabet,
        max_length,
        batch_size: 1024,
        strategy,
        worker_count: 0,
        use_device_assist: false,
    }
}

fn lowercase() -> Vec<u8> {
    (b'a'..=b'z').collect()
}

#[test]
fn finds_sha1_of_ab_in_lowercase_keyspace() {
    let cfg = config(lowercase(), hash_sha1("ab"), VerifyStrategy::FastSha1, 2);
    assert_eq!(search(&cfg), Ok(SearchResult::Found("ab".to_string())));
}

#[test]
fn exhausts_binary_keyspace_without_match() {
    let cfg = config(
        vec![b'0', b'1'],
        hash_sha1("xyz"),
        VerifyStrategy::FastSha1,
        3,
    );
    assert_eq!(search(&cfg), Ok(SearchResult::Exhausted));
}

#[test]
fn malformed_bcrypt_target_fails_fast() {
    let cfg = config(
        lowercase(),
        "not-a-valid-record".to_string(),
        VerifyStrategy::SlowBcrypt,
        2,
    );
    assert_eq!(search(&cfg), Err(ConfigError::MalformedTarget));
}

#[test]
fn worker_count_does_not_change_the_outcome() {
    for workers in [1usize, 4, 16] {
        let mut cfg = config(lowercase(), hash_sha1("ab"), VerifyStrategy::FastSha1, 2);
        cfg.worker_count = workers;
        assert_eq!(search(&cfg), Ok(SearchResult::Found("ab".to_string())));
    }
}

#[test]
fn finds_md5_target() {
    let cfg = config(vec![b'a', b'b'], hash_md5("ba"), VerifyStrategy::FastMd5, 2);
    assert_eq!(search(&cfg), Ok(SearchResult::Found("ba".to_string())));
}

#[test]
fn finds_bcrypt_password() {
    let record = bcrypt::hash("pw", 4).expect("hashing succeeds");
    let cfg = config(vec![b'p', b'w'], record, VerifyStrategy::SlowBcrypt, 2);
    assert_eq!(search(&cfg), Ok(SearchResult::Found("pw".to_string())));
}

#[test]
fn shortest_match_wins_across_lengths() {
    // "a" matches at length 1; nothing shorter exists.
    let cfg = config(lowercase(), hash_sha1("a"), VerifyStrategy::FastSha1, 3);
    assert_eq!(search(&cfg), Ok(SearchResult::Found("a".to_string())));
}

#[test]
fn invalid_alphabet_reported() {
    let cfg = config(vec![], hash_sha1("ab"), VerifyStrategy::FastSha1, 2);
    assert_eq!(search(&cfg), Err(ConfigError::InvalidAlphabet));
    let cfg = config(vec![b'a', b'a'], hash_sha1("ab"), VerifyStrategy::FastSha1, 2);
    assert_eq!(search(&cfg), Err(ConfigError::InvalidAlphabet));
}

#[test]
fn zero_max_length_reported() {
    let cfg = config(lowercase(), hash_sha1("ab"), VerifyStrategy::FastSha1, 0);
    assert_eq!(search(&cfg), Err(ConfigError::ZeroMaxLength));
}

#[test]
fn zero_batch_size_reported() {
    let mut cfg = config(lowercase(), hash_sha1("ab"), VerifyStrategy::FastSha1, 2);
    cfg.batch_size = 0;
    assert_eq!(search(&cfg), Err(ConfigError::ZeroBatchSize));
}

#[test]
fn oversized_keyspace_reported() {
    // 2^64 does not fit the 64-bit index space.
    let cfg = config(
        vec![b'0', b'1'],
        hash_sha1("ab"),
        VerifyStrategy::FastSha1,
        64,
    );
    assert_eq!(search(&cfg), Err(ConfigError::KeyspaceTooLarge));
}

#[test]
fn malformed_target_beats_search_for_fast_digest_too() {
    let cfg = config(
        lowercase(),
        "0123".to_string(),
        VerifyStrategy::FastSha1,
        2,
    );
    assert_eq!(search(&cfg), Err(ConfigError::MalformedTarget));
}

#[test]
fn config_errors_carry_a_descriptive_cause() {
    assert_eq!(
        ConfigError::MalformedTarget.describe(),
        "target does not have the form its strategy requires"
    );
    assert_eq!(
        ConfigError::InvalidAlphabet.describe(),
        "alphabet must hold at least two distinct ASCII symbols"
    );
}

#[test]
fn check_index_decodes_then_tests() {
    let a = Alphabet::new(lowercase()).expect("valid alphabet");
    let v = Verifier::new(VerifyStrategy::FastSha1, hash_sha1("ab")).expect("valid digest");
    // "ab" is index 0 * 26 + 1 of the length-2 keyspace.
    assert_eq!(check_index(&a, &v, 1, 2), Some(b"ab".to_vec()));
    assert_eq!(check_index(&a, &v, 0, 2), None);
}

#[test]
fn batch_executor_finds_match_only_inside_its_batch() {
    let a = Alphabet::new(lowercase()).expect("valid alphabet");
    let v = Verifier::new(VerifyStrategy::FastSha1, hash_sha1("ab")).expect("valid digest");
    let hit = search_batch(&a, &v, Batch { offset: 0, count: 676 }, 2, 4);
    assert_eq!(hit, Some(b"ab".to_vec()));
    // A batch that starts past the matching index reports no match.
    let miss = search_batch(&a, &v, Batch { offset: 2, count: 100 }, 2, 4);
    assert_eq!(miss, None);
}

#[test]
fn device_generated_indices_verified_host_side() {
    let a = Alphabet::new(lowercase()).expect("valid alphabet");
    let v = Verifier::new(VerifyStrategy::FastSha1, hash_sha1("ab")).expect("valid digest");
    // Stage one of the device pipeline emits batch-relative offsets;
    // stage two (here) decodes and verifies them on the host.
    let raw: Vec<u64> = (0..676).collect();
    assert_eq!(search_indices(&a, &v, &raw, 0, 2, 0), Some("ab".to_string()));
    // Offsets past the keyspace are ignored rather than trusted.
    let stray: Vec<u64> = vec![10_000, 20_000];
    assert_eq!(search_indices(&a, &v, &stray, 0, 2, 0), None);
}
