use keyspace_search::Alphabet;

fn abc() -> Alphabet {
    Alphabet::new(vec![b'a', b'b', b'c']).expect("three distinct ASCII symbols")
}

#[test]
fn decode_most_significant_first() {
    let a = abc();
    // 5 in base 3 is 12: symbols 'b' then 'c'.
    assert_eq!(a.decode(5, 2), b"bc".to_vec());
    assert_eq!(a.decode(0, 3), b"aaa".to_vec());
    assert_eq!(a.decode(26, 3), b"ccc".to_vec());
    assert_eq!(a.decode(0, 0), Vec::<u8>::new());
}

#[test]
fn decode_pads_with_leading_first_symbol() {
    let a = abc();
    assert_eq!(a.decode(1, 3), b"aab".to_vec());
}

#[test]
fn encode_is_inverse_of_decode() {
    let a = abc();
    for index in 0u64..27 {
        let w = a.decode(index, 3);
        assert_eq!(a.encode(&w), index);
    }
}

#[test]
fn decode_is_injective_over_keyspace() {
    let a = abc();
    let mut seen = Vec::new();
    for index in 0u64..27 {
        let w = a.decode(index, 3);
        assert!(!seen.contains(&w), "two indices decoded to the same string");
        seen.push(w);
    }
}

#[test]
fn encode_known_values() {
    let a = abc();
    assert_eq!(a.encode(&b"bc".to_vec()), 5);
    assert_eq!(a.encode(&b"aaa".to_vec()), 0);
    assert_eq!(a.encode(&b"ccc".to_vec()), 26);
    assert_eq!(a.encode(&Vec::new()), 0);
}

#[test]
fn alphabet_rejects_bad_inputs() {
    assert!(Alphabet::new(vec![]).is_none());
    assert!(Alphabet::new(vec![b'a']).is_none());
    assert!(Alphabet::new(vec![b'a', b'a']).is_none());
    assert!(Alphabet::new(vec![b'a', 0xC3]).is_none());
    assert!(Alphabet::new(vec![b'a', b'b']).is_some());
}

#[test]
fn digit_positions() {
    let a = abc();
    assert_eq!(a.digit(b'a'), 0);
    assert_eq!(a.digit(b'c'), 2);
    assert_eq!(a.len(), 3);
}
