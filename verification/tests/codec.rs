use mini_git::errors::ObjectError;
use mini_git::git_object::{encode_frame, GitObject};
use sha1::{Digest, Sha1};
use std::io::{Read, Write};

fn frame(tag: &str, payload: &[u8]) -> Vec<u8> {
    let mut f = Vec::new();
    f.extend_from_slice(tag.as_bytes());
    f.push(b' ');
    f.extend_from_slice(payload.len().to_string().as_bytes());
    f.push(0);
    f.extend_from_slice(payload);
    f
}

#[test]
fn encode_frame_exact_bytes() {
    assert_eq!(encode_frame("blob", b"hello"), b"blob 5\0hello".to_vec());
    assert_eq!(encode_frame("tree", b""), b"tree 0\0".to_vec());
    let big = vec![7u8; 1234];
    assert_eq!(encode_frame("blob", &big), frame("blob", &big));
}

#[test]
fn object_round_trip_blob() {
    let o = GitObject::new("blob", "hello").unwrap();
    let (hash, compressed) = o.to_raw();
    assert_eq!(hash.len(), 40);
    let back = GitObject::from_bytes(&compressed).unwrap();
    match back {
        GitObject::Blob(content) => assert_eq!(content, "hello"),
        GitObject::Tree(_) => panic!("expected a blob"),
    }
}

#[test]
fn object_round_trip_tree() {
    let o = GitObject::new("tree", "payload text").unwrap();
    let (_, compressed) = o.to_raw();
    let back = GitObject::from_bytes(&compressed).unwrap();
    match back {
        GitObject::Tree(content) => assert_eq!(content, "payload text"),
        GitObject::Blob(_) => panic!("expected a tree"),
    }
}

#[test]
fn hash_matches_reference_digest() {
    let o = GitObject::new("blob", "hello").unwrap();
    let (hash, _) = o.to_raw();
    let mut hasher = Sha1::new();
    hasher.update(b"blob 5\0hello");
    let expected = hex::encode(hasher.finalize());
    assert_eq!(hash, expected);
}

#[test]
fn empty_tree_has_the_known_hash() {
    let o = GitObject::new("tree", "").unwrap();
    let (hash, _) = o.to_raw();
    assert_eq!(hash, "4b825dc642cb6eb9a060e54bf8d69288fbee4904");
}

#[test]
fn compressed_bytes_decompress_to_the_frame() {
    let o = GitObject::new("blob", "hello").unwrap();
    let (_, compressed) = o.to_raw();
    let mut decoder = flate2::read::ZlibDecoder::new(compressed.as_slice());
    let mut out = Vec::new();
    decoder.read_to_end(&mut out).unwrap();
    assert_eq!(out, b"blob 5\0hello".to_vec());
}

#[test]
fn hash_is_stable_across_repeated_calls() {
    let o = GitObject::new("blob", "same content").unwrap();
    let (h1, c1) = o.to_raw();
    let (h2, c2) = o.to_raw();
    assert_eq!(h1, h2);
    assert_eq!(c1, c2);
}

#[test]
fn unknown_object_type_is_rejected() {
    let r = GitObject::new("commit", "x");
    assert!(matches!(r, Err(ObjectError::UnknownObjectType)));
    let r = GitObject::new("", "x");
    assert!(matches!(r, Err(ObjectError::UnknownObjectType)));
}

#[test]
fn object_type_names_the_variant() {
    let b = GitObject::new("blob", "x").unwrap();
    assert_eq!(b.object_type(), "blob");
    let t = GitObject::new("tree", "x").unwrap();
    assert_eq!(t.object_type(), "tree");
}

#[test]
fn corrupt_data_is_reported() {
    let r = GitObject::from_bytes(b"this is not a zlib stream");
    assert!(matches!(r, Err(ObjectError::CorruptData)));
    let r = GitObject::from_bytes(b"");
    assert!(matches!(r, Err(ObjectError::CorruptData)));
}

#[test]
fn truncated_stream_is_corrupt_data() {
    let o = GitObject::new("blob", "hello").unwrap();
    let (_, compressed) = o.to_raw();
    let r = GitObject::from_bytes(&compressed[..compressed.len() - 3]);
    assert!(matches!(r, Err(ObjectError::CorruptData)));
}

#[test]
fn missing_space_is_a_malformed_header() {
    let mut data = Vec::new();
    {
        let mut enc =
            flate2::write::ZlibEncoder::new(&mut data, flate2::Compression::default());
        enc.write_all(b"blobnospace\0payload").unwrap();
        enc.finish().unwrap();
    }
    let r = GitObject::from_bytes(&data);
    assert!(matches!(r, Err(ObjectError::MalformedHeader)));
}

#[test]
fn missing_nul_is_a_malformed_header() {
    let mut data = Vec::new();
    {
        let mut enc =
            flate2::write::ZlibEncoder::new(&mut data, flate2::Compression::default());
        enc.write_all(b"blob 5 payload without a nul").unwrap();
        enc.finish().unwrap();
    }
    let r = GitObject::from_bytes(&data);
    assert!(matches!(r, Err(ObjectError::MalformedHeader)));
}

#[test]
fn unknown_tag_in_stored_bytes_is_rejected() {
    let mut data = Vec::new();
    {
        let mut enc =
            flate2::write::ZlibEncoder::new(&mut data, flate2::Compression::default());
        enc.write_all(b"commit 2\0xy").unwrap();
        enc.finish().unwrap();
    }
    let r = GitObject::from_bytes(&data);
    assert!(matches!(r, Err(ObjectError::UnknownObjectType)));
}
