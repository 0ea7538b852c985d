use mini_git::errors::ObjectError;
use std::io::Read;
use mini_git::fs_utils::{FsUtils, WalkEntry};
use mini_git::git_object::tree_line::{
    TreeLine, TreeLines, TREE_LINE_MODE_FILE, TREE_LINE_MODE_FOLDER,
};


#[test]
fn single_entry_decodes_exactly() {
    let mut payload = b"100644 a.txt\0".to_vec();
    let hash_bytes: Vec<u8> = (0u8..20).collect();
    payload.extend_from_slice(&hash_bytes);
    let lines = TreeLines::from_bytes(&payload).unwrap();
    assert_eq!(lines.0.len(), 1);
    assert_eq!(lines.0[0].mode, "100644");
    assert_eq!(lines.0[0].path, "a.txt");
    assert_eq!(lines.0[0].hash, "000102030405060708090a0b0c0d0e0f10111213");
    assert_eq!(lines.0[0].hash, hex::encode(&hash_bytes));
}

#[test]
fn two_entries_decode_in_order() {
    let mut payload = Vec::new();
    payload.extend_from_slice(b"100644 a.txt\0");
    payload.extend_from_slice(&[1u8; 20]);
    payload.extend_from_slice(b"40000 sub\0");
    payload.extend_from_slice(&[2u8; 20]);
    let lines = TreeLines::from_bytes(&payload).unwrap();
    assert_eq!(lines.0.len(), 2);
    assert_eq!(lines.0[0].path, "a.txt");
    assert_eq!(lines.0[0].mode, TREE_LINE_MODE_FILE);
    assert_eq!(lines.0[1].path, "sub");
    assert_eq!(lines.0[1].mode, TREE_LINE_MODE_FOLDER);
    assert_eq!(lines.0[1].hash, hex::encode([2u8; 20]));
}

#[test]
fn truncated_payload_is_an_invalid_tree_line() {
    let mut payload = b"100644 a.txt\0".to_vec();
    payload.extend_from_slice(&[9u8; 19]);
    let r = TreeLines::from_bytes(&payload);
    assert!(matches!(r, Err(ObjectError::InvalidTreeLine)));
}

#[test]
fn missing_separators_are_invalid_tree_lines() {
    assert!(matches!(
        TreeLines::from_bytes(b""),
        Err(ObjectError::InvalidTreeLine)
    ));
    assert!(matches!(
        TreeLines::from_bytes(b"100644a.txt"),
        Err(ObjectError::InvalidTreeLine)
    ));
    assert!(matches!(
        TreeLines::from_bytes(b"100644 a.txt no nul here"),
        Err(ObjectError::InvalidTreeLine)
    ));
}

#[test]
fn to_bytes_writes_the_exact_layout() {
    let line = TreeLine::new("100644", "a.txt", "000102030405060708090a0b0c0d0e0f10111213");
    let lines = TreeLines::new(&[line]);
    let bytes = lines.to_bytes();
    let mut expected = b"100644 a.txt\0".to_vec();
    expected.extend_from_slice(&(0u8..20).collect::<Vec<u8>>());
    assert_eq!(bytes, expected);
}

#[test]
fn tree_payload_round_trips_through_both_codecs() {
    let a = TreeLine::new("100644", "a.txt", &hex::encode([3u8; 20]));
    let b = TreeLine::new("40000", "sub", &hex::encode([4u8; 20]));
    let lines = TreeLines::new(&[a, b]);
    let bytes = lines.to_bytes();
    let back = TreeLines::from_bytes(&bytes).unwrap();
    assert_eq!(back.0.len(), 2);
    assert_eq!(back.0[0].mode, lines.0[0].mode);
    assert_eq!(back.0[0].path, lines.0[0].path);
    assert_eq!(back.0[0].hash, lines.0[0].hash);
    assert_eq!(back.0[1].mode, lines.0[1].mode);
    assert_eq!(back.0[1].path, lines.0[1].path);
    assert_eq!(back.0[1].hash, lines.0[1].hash);
}

#[test]
fn tree_built_from_sorted_walk_entries() {
    // A directory holding one file "a.txt" with content "hello" and one
    // empty subdirectory "sub", walked out of order on purpose.
    let mut entries = vec![
        WalkEntry { name: "sub".to_string(), is_dir: true },
        WalkEntry { name: "a.txt".to_string(), is_dir: false },
    ];
    FsUtils::sort_entries(&mut entries);
    assert_eq!(entries[0].name, "a.txt");
    assert_eq!(entries[1].name, "sub");

    let (blob_hash, _) = FsUtils::encode_object("blob", b"hello");
    let (empty_tree_hash, _) = FsUtils::encode_object("tree", b"");

    let mut tree_bytes: Vec<u8> = Vec::new();
    for e in &entries {
        if e.is_dir {
            FsUtils::push_tree_entry(
                &mut tree_bytes,
                TREE_LINE_MODE_FOLDER,
                e.name.as_str(),
                &empty_tree_hash,
            );
        } else {
            FsUtils::push_tree_entry(
                &mut tree_bytes,
                TREE_LINE_MODE_FILE,
                e.name.as_str(),
                &blob_hash,
            );
        }
    }

    let decoded = TreeLines::from_bytes(&tree_bytes).unwrap();
    assert_eq!(decoded.0.len(), 2);
    assert_eq!(decoded.0[0].mode, TREE_LINE_MODE_FILE);
    assert_eq!(decoded.0[0].path, "a.txt");
    assert_eq!(decoded.0[0].hash, hex::encode(&blob_hash));
    assert_eq!(decoded.0[1].mode, TREE_LINE_MODE_FOLDER);
    assert_eq!(decoded.0[1].path, "sub");
    assert_eq!(decoded.0[1].hash, hex::encode(&empty_tree_hash));
    assert_eq!(decoded.0[1].hash, "4b825dc642cb6eb9a060e54bf8d69288fbee4904");

    // Stored as a tree object, the payload is framed under the tree tag.
    let (tree_hash, compressed) = FsUtils::encode_object("tree", &tree_bytes);
    assert_eq!(tree_hash.len(), 20);
    let mut decoder = flate2::read::ZlibDecoder::new(compressed.as_slice());
    let mut frame = Vec::new();
    decoder.read_to_end(&mut frame).unwrap();
    let mut expected_frame = format!("tree {}\0", tree_bytes.len()).into_bytes();
    expected_frame.extend_from_slice(&tree_bytes);
    assert_eq!(frame, expected_frame);
}

#[test]
fn sort_entries_orders_names_codepoint_wise() {
    let mut entries = vec![
        WalkEntry { name: "b".to_string(), is_dir: false },
        WalkEntry { name: "a".to_string(), is_dir: false },
        WalkEntry { name: "ab".to_string(), is_dir: true },
        WalkEntry { name: "a".to_string(), is_dir: true },
    ];
    FsUtils::sort_entries(&mut entries);
    let names: Vec<&str> = entries.iter().map(|e| e.name.as_str()).collect();
    assert_eq!(names, vec!["a", "a", "ab", "b"]);
}
