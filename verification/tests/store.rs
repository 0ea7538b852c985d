use mini_git::errors::ObjectError;
use mini_git::fs_utils::FsUtils;
use sha1::{Digest, Sha1};

fn shard_names() -> Vec<String> {
    vec![
        "34567890abcdef1234567890abcdef12345678".to_string(),
        "3456ffff000000000000000000000000000000".to_string(),
        "99990000000000000000000000000000000000".to_string(),
    ]
}

#[test]
fn short_prefixes_are_invalid_hashes() {
    let names = shard_names();
    for p in ["", "a", "ab", "abc", "abcd", "abcde"] {
        let r = FsUtils::find_name_for_hash(p, &names);
        assert!(matches!(r, Err(ObjectError::InvalidHash)), "prefix {:?}", p);
    }
    let r = FsUtils::find_name_for_hash("abcde", &Vec::new());
    assert!(matches!(r, Err(ObjectError::InvalidHash)));
}

#[test]
fn unique_prefix_finds_the_stored_name() {
    let names = shard_names();
    let r = FsUtils::find_name_for_hash("12345678", &names).unwrap();
    assert_eq!(r, 0);
    let r = FsUtils::find_name_for_hash("129999", &names).unwrap();
    assert_eq!(r, 2);
}

#[test]
fn unmatched_prefix_is_an_invalid_hash() {
    let names = shard_names();
    let r = FsUtils::find_name_for_hash("12000000", &names);
    assert!(matches!(r, Err(ObjectError::InvalidHash)));
}

#[test]
fn ambiguous_prefix_is_reported() {
    let names = shard_names();
    let r = FsUtils::find_name_for_hash("123456", &names);
    assert!(matches!(r, Err(ObjectError::AmbiguousHash)));
}

#[test]
fn full_hash_resolves_too() {
    let names = shard_names();
    let full = "1234567890abcdef1234567890abcdef12345678";
    let r = FsUtils::find_name_for_hash(full, &names).unwrap();
    assert_eq!(r, 0);
}

#[test]
fn hash_prefix_splits_into_shard_and_file_name() {
    let (shard, rest) = FsUtils::split_hash_prefix("abcdef012345");
    assert_eq!(shard, "ab");
    assert_eq!(rest, "cdef012345");
}

#[test]
fn writing_the_same_content_twice_gives_the_same_bytes() {
    let (h1, c1) = FsUtils::encode_object("blob", b"same file content");
    let (h2, c2) = FsUtils::encode_object("blob", b"same file content");
    assert_eq!(h1, h2);
    assert_eq!(c1, c2);
    let (h3, _) = FsUtils::encode_object("blob", b"other content");
    assert_ne!(h1, h3);
}

#[test]
fn encode_object_hash_matches_reference_digest() {
    let (hash, _) = FsUtils::encode_object("blob", b"hello");
    let mut hasher = Sha1::new();
    hasher.update(b"blob 5\0hello");
    assert_eq!(hash, hasher.finalize().to_vec());
}
