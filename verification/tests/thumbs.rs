use crema::thumbs::{content_hash_hex, thumbnail_cache_key, ThumbnailCache};

#[test]
fn subdirectory_bucketing() {
    let cache = ThumbnailCache::new("/tmp/thumbs".to_string());
    let path = cache.thumbnail_path("ff1234");
    assert!(path.contains("/ff/"));
    assert!(path.ends_with("ff1234.jpg"));
    assert_eq!(path, "/tmp/thumbs/ff/ff1234.jpg");
}

#[test]
fn short_digest_uses_whole_digest_as_bucket() {
    let cache = ThumbnailCache::new("c".to_string());
    assert_eq!(cache.thumbnail_path("a"), "c/a/a.jpg");
    assert_eq!(cache.cache_dir(), "c");
}

#[test]
fn content_hash_matches_reference_digest() {
    // The digest must be the real BLAKE3 of the bytes, not anything
    // derived from the input alone.
    let ours = content_hash_hex(b"abc");
    let reference = blake3::hash(b"abc").to_hex();
    assert_eq!(ours, reference.as_str());
    assert_eq!(ours.len(), 64);
    assert_ne!(content_hash_hex(b""), content_hash_hex(b"abc"));
}

#[test]
fn cache_key_depends_on_path_and_mtime() {
    let a = thumbnail_cache_key("/photos/a.jpg", None);
    let b = thumbnail_cache_key("/photos/a.jpg", Some(1_000_000_000));
    let c = thumbnail_cache_key("/photos/a.jpg", Some(2_000_000_000));
    let d = thumbnail_cache_key("/photos/b.jpg", None);
    assert_eq!(a.len(), 64);
    assert_ne!(a, b);
    assert_ne!(b, c);
    assert_ne!(a, d);
}

#[test]
fn cache_key_mixes_mtime_little_endian() {
    // The key with a modification time is the digest of the path bytes
    // followed by the time's 16 little-endian bytes.
    let mut expected_input = b"/p/x.png".to_vec();
    let nanos: u128 = 0x0102_0304_0506_0708_090a_0b0c_0d0e_0f10;
    expected_input.extend_from_slice(&nanos.to_le_bytes());
    let expected = blake3::hash(&expected_input).to_hex();
    assert_eq!(thumbnail_cache_key("/p/x.png", Some(nanos)), expected.as_str());
}
