use dedupe_utils::identity::{
    hash_file_blake2, hash_file_city128, hash_file_murmur128, Blake2Hasher,
};

#[test]
fn blake2_identity_is_the_digest_in_hexadecimal() {
    assert_eq!(
        hash_file_blake2(b"hello world"),
        "9aec6806794561107e594b1f6a8a6b0c92a0cba9acf5e5e93cca06f781813b0b"
    );
    assert_eq!(
        hash_file_blake2(b""),
        "69217a3079908094e11121d042354a7c1f55b6482ca1a51e1b250dfd1ed0eef9"
    );
}

#[test]
fn blake2_identity_has_sixty_four_lower_case_digits() {
    for content in [&b""[..], &b"a"[..], &b"hello world"[..], &[0u8; 1000][..]] {
        let identity = hash_file_blake2(content);
        assert_eq!(identity.len(), 64);
        assert!(identity.chars().all(|c| c.is_ascii_digit() || ('a'..='f').contains(&c)));
    }
}

#[test]
fn city_identity_is_the_hash_as_a_decimal_number() {
    assert_eq!(hash_file_city128(b"hello"), "321050694807308650239948771137913318383");
    assert_eq!(hash_file_city128(b"helloworld"), "137438709495761624905137796394169174828");
}

#[test]
fn murmur_identity_is_the_hash_as_a_decimal_number() {
    assert_eq!(hash_file_murmur128(b"hello"), "121118445609844952839898260755277781762");
    assert_eq!(hash_file_murmur128(b"helloworld"), "216280293825344914020777844322685271162");
}

#[test]
fn decimal_identities_hold_digits_only() {
    for content in [&b""[..], &b"a"[..], &b"hello world"[..], &[7u8; 5000][..]] {
        for identity in [hash_file_city128(content), hash_file_murmur128(content)] {
            assert!(!identity.is_empty());
            assert!(identity.len() <= 39);
            assert!(identity.chars().all(|c| c.is_ascii_digit()));
            assert!(identity == "0" || !identity.starts_with('0'));
            assert_eq!(identity.parse::<u128>().unwrap().to_string(), identity);
        }
    }
}

#[test]
fn same_bytes_give_the_same_identity() {
    let first = vec![1u8, 2, 3, 4, 5, 6, 7, 8, 9, 10];
    let second = first.clone();
    assert_eq!(hash_file_blake2(&first), hash_file_blake2(&second));
    assert_eq!(hash_file_city128(&first), hash_file_city128(&second));
    assert_eq!(hash_file_murmur128(&first), hash_file_murmur128(&second));
}

#[test]
fn other_bytes_give_another_identity() {
    let first = b"the quick brown fox";
    let second = b"the quick brown fix";
    assert_ne!(hash_file_blake2(first), hash_file_blake2(second));
    assert_ne!(hash_file_city128(first), hash_file_city128(second));
    assert_ne!(hash_file_murmur128(first), hash_file_murmur128(second));
}

#[test]
fn long_content_is_hashed_whole() {
    let mut content = vec![0u8; 100_000];
    let before = hash_file_city128(&content);
    let before_blake = hash_file_blake2(&content);
    let before_murmur = hash_file_murmur128(&content);
    content[99_999] = 1;
    assert_ne!(hash_file_city128(&content), before);
    assert_ne!(hash_file_blake2(&content), before_blake);
    assert_ne!(hash_file_murmur128(&content), before_murmur);
}

#[test]
fn pieces_give_the_identity_of_the_whole() {
    let content: Vec<u8> = (0..10_000u32).map(|i| (i % 251) as u8).collect();
    let whole = hash_file_blake2(&content);
    for cut in [0usize, 1, 63, 64, 65, 4096, 9_999, 10_000] {
        let mut hasher = Blake2Hasher::new();
        hasher.update(&content[..cut]);
        hasher.update(&content[cut..]);
        assert_eq!(hasher.finish(), whole);
    }
    let mut hasher = Blake2Hasher::new();
    for chunk in content.chunks(97) {
        hasher.update(chunk);
    }
    assert_eq!(hasher.finish(), whole);
}

#[test]
fn hasher_without_input_gives_the_identity_of_nothing() {
    assert_eq!(Blake2Hasher::new().finish(), hash_file_blake2(b""));
    assert_eq!(
        Blake2Hasher::new().finish(),
        "69217a3079908094e11121d042354a7c1f55b6482ca1a51e1b250dfd1ed0eef9"
    );
}
