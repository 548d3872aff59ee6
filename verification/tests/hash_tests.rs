use swhid::git_objects::{format_git_object_from_parts, hash_git_object_from_parts};
use swhid::hash::{git_object_header, hash_git_object, sha1_git_hash, sha1_hash, sha256_hash};

#[test]
fn test_sha1_git_hash() {
    let data = b"Hello, World!";
    let hash = sha1_git_hash(data);

    // The hash should be different from a regular SHA1
    let regular_hash = sha1_hash(data);
    assert_ne!(hash, regular_hash);

    // Hash should be 20 bytes
    assert_eq!(hash.len(), 20);
}

#[test]
fn test_git_object_header() {
    let header = git_object_header("blob", 1234);
    assert_eq!(header, b"blob 1234\0");
}

#[test]
fn test_hash_git_object() {
    let data = b"test data";
    let hash = hash_git_object("blob", data);

    // Should be same as sha1_git_hash for blob type
    let expected = sha1_git_hash(data);
    assert_eq!(hash, expected);
}

#[test]
fn test_format_git_object_from_parts() {
    let parts = b"test data";
    let formatted = format_git_object_from_parts("blob", parts);

    assert_eq!(formatted, b"blob 9\0test data");
}

#[test]
fn test_hash_git_object_from_parts() {
    let parts = b"test data";
    let hash = hash_git_object_from_parts("blob", parts);

    assert_eq!(hash.len(), 20);
}

#[test]
fn test_known_blob_hash() {
    let hash = sha1_git_hash(b"Hello, World!");
    assert_eq!(hash, hex::decode("b45ef6fec89518d314f546fd6c3025367b721684").unwrap());
}

#[test]
fn test_empty_blob_hash() {
    let hash = sha1_git_hash(b"");
    assert_eq!(hash, hex::decode("e69de29bb2d1d6434b8b29ae775ad8c2e48c5391").unwrap());
}

#[test]
fn test_content_hash_deterministic_and_differs_from_plain_sha1() {
    // The envelope makes the content hash differ from the plain digest of
    // the same payload, and repeated calls agree.
    let payloads: [&[u8]; 3] = [b"", b"a", b"some payload"];
    for p in payloads {
        assert_eq!(sha1_git_hash(p), sha1_git_hash(p));
        assert_eq!(sha1_git_hash(p).len(), 20);
        assert_ne!(sha1_git_hash(p), sha1_hash(p));
    }
}

#[test]
fn test_sha256_width() {
    let h = sha256_hash(b"abc");
    assert_eq!(h.len(), 32);
    assert_eq!(
        h,
        hex::decode("ba7816bf8f01cfea414140de5dae2223b00361a396177a9cb410ff61f20015ad").unwrap()
    );
}

#[test]
fn test_header_zero_length() {
    assert_eq!(git_object_header("tree", 0), b"tree 0\0");
}
