use rcompare::binary_diff::hex_encode;
use rcompare::comparison::{ComparisonEngine, ContentVerdict};
use rcompare::content_hash::{content_hash, partial_hash_ranges, ContentHasher, PARTIAL_CHUNK};
use rcompare::hash_cache::HashCache;
use rcompare::types::Blake3Hash;

#[test]
fn content_hash_is_blake3_of_the_bytes() {
    assert_eq!(content_hash(b"foobarbaz").0, *blake3::hash(b"foobarbaz").as_bytes());
    assert_eq!(content_hash(b"").0, *blake3::hash(b"").as_bytes());
}

#[test]
fn hashing_in_chunks_hashes_the_concatenation() {
    let mut h = ContentHasher::new();
    h.update(b"foo");
    h.update(b"");
    h.update(b"barbaz");
    assert_eq!(h.finalize(), content_hash(b"foobarbaz"));
    assert_ne!(h.finalize(), content_hash(b"foo"));
}

#[test]
fn partial_ranges_cover_small_files_whole() {
    assert_eq!(partial_hash_ranges(0), vec![(0, 0)]);
    assert_eq!(partial_hash_ranges(100), vec![(0, 100)]);
    assert_eq!(partial_hash_ranges(3 * PARTIAL_CHUNK), vec![(0, 3 * PARTIAL_CHUNK)]);
}

#[test]
fn partial_ranges_take_first_middle_and_last_pieces() {
    let len = 3 * PARTIAL_CHUNK + 1;
    assert_eq!(
        partial_hash_ranges(len),
        vec![(0, 16384), (len / 2 - 8192, 16384), (len - 16384, 16384)]
    );
    assert_eq!(partial_hash_ranges(1_000_000), vec![(0, 16384), (491808, 16384), (983616, 16384)]);
}

#[test]
fn partial_hashes_decide_only_when_they_differ() {
    let engine = ComparisonEngine::new(HashCache::disabled());
    let a = Blake3Hash([1; 32]);
    let b = Blake3Hash([2; 32]);
    assert!(matches!(engine.partial_verdict(&a, &b), Some(ContentVerdict::Different)));
    assert!(engine.partial_verdict(&a, &a).is_none());
}

#[test]
fn hex_encode_gives_two_lowercase_digits_per_byte() {
    assert_eq!(hex_encode(&[0x0f, 0xa0, 0xff, 0x00]), "0fa0ff00");
    assert_eq!(hex_encode(&[]), "");
    assert_eq!(hex_encode(&[0xde, 0xad]), hex::encode([0xde, 0xad]));
}
