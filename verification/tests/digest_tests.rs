use claude_sync_watch::digest::{sha256_bytes, sha256_chunks, ContentHasher};

#[test]
fn sha256_of_empty_input() {
    assert_eq!(
        sha256_bytes(b""),
        "e3b0c44298fc1c149afbf4c8996fb92427ae41e4649b934ca495991b7852b855"
    );
}

#[test]
fn sha256_of_abc() {
    assert_eq!(
        sha256_bytes(b"abc"),
        "ba7816bf8f01cfea414140de5dae2223b00361a396177a9cb410ff61f20015ad"
    );
}

#[test]
fn chunked_hash_equals_whole_hash() {
    let chunks = vec![b"a".to_vec(), Vec::new(), b"bc".to_vec()];
    assert_eq!(sha256_chunks(&chunks), sha256_bytes(b"abc"));
    let mut hasher = ContentHasher::new();
    hasher.update(b"ab");
    hasher.update(b"c");
    assert_eq!(hasher.finish(), sha256_bytes(b"abc"));
}

#[test]
fn different_content_hashes_differently() {
    assert_ne!(sha256_bytes(b"abc"), sha256_bytes(b"abd"));
    assert_eq!(sha256_bytes(b"abc"), sha256_bytes(b"abc"));
    assert_eq!(sha256_bytes(b"abc").len(), 64);
}

#[test]
fn digest_is_sixty_four_lowercase_hex_digits() {
    let mut hasher = ContentHasher::new();
    hasher.update(&[0xff, 0x00, 0xab]);
    for hex in [sha256_bytes(b""), sha256_bytes(&[0u8; 1000]), hasher.finish()] {
        assert_eq!(hex.chars().count(), 64);
        assert!(hex.chars().all(|c| ('0'..='9').contains(&c) || ('a'..='f').contains(&c)));
    }
}
