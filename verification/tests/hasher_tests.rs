use dupfinder::hasher::{full_hash_of, partial_hash_of, ContentHasher, PARTIAL_HASH_SIZE};

#[test]
fn test_full_hash_deterministic() {
    let hash1 = full_hash_of(b"hello world");
    let hash2 = full_hash_of(b"hello world");
    assert_eq!(hash1, hash2);
}

#[test]
fn test_partial_hash_equals_full_for_small_files() {
    let content = b"small content";
    // For files smaller than PARTIAL_HASH_SIZE, partial and full hash should be identical
    assert_eq!(partial_hash_of(content), full_hash_of(content));
}

#[test]
fn test_different_content_different_hash() {
    assert_ne!(full_hash_of(b"content A"), full_hash_of(b"content B"));
}

#[test]
fn test_same_content_same_hash() {
    assert_eq!(full_hash_of(b"identical content"), full_hash_of(b"identical content"));
}

#[test]
fn known_blake3_digests() {
    assert_eq!(full_hash_of(b""), "af1349b9f5f9a1a6a0404dea36dcc9499bcb25c9adc112b7cc9a93cae41f3262");
    assert_eq!(partial_hash_of(b""), "af1349b9f5f9a1a6a0404dea36dcc9499bcb25c9adc112b7cc9a93cae41f3262");
    let h = full_hash_of(b"hello world");
    assert_eq!(h.len(), 64);
    assert!(h.chars().all(|c| c.is_ascii_hexdigit() && !c.is_ascii_uppercase()));
}

#[test]
fn partial_hash_covers_first_block_only() {
    let mut a = vec![7u8; PARTIAL_HASH_SIZE + 100];
    let mut b = a.clone();
    b[PARTIAL_HASH_SIZE + 50] = 8;
    assert_eq!(partial_hash_of(&a), partial_hash_of(&b));
    assert_ne!(full_hash_of(&a), full_hash_of(&b));
    assert_eq!(partial_hash_of(&a), full_hash_of(&a[..PARTIAL_HASH_SIZE]));
    a[0] = 1;
    assert_ne!(partial_hash_of(&a), partial_hash_of(&b));
}

#[test]
fn incremental_hash_equals_whole() {
    let data: Vec<u8> = (0..20000u32).map(|i| (i % 251) as u8).collect();
    let mut h = ContentHasher::new();
    for chunk in data.chunks(4096) {
        h.update(chunk);
    }
    assert_eq!(h.finalize_hex(), full_hash_of(&data));
}
