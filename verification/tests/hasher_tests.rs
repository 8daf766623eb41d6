//! The hasher, the hex encoding, the wire translation, the conflict-file
//! naming, and the index store's failure case, on concrete values.

use syncdir::dir::SyncDir;
use syncdir::hasher::hash_file;
use syncdir::index::{Error, FileDetail, FileKind, IndexFile, IndexStore, BLOCK_SIZE};
use syncdir::rumors::conflict_filename;
use syncdir::transfer::{hex_encode, DownloadBlockRequest, GrpcClient};

#[test]
fn hash_known_value() {
    let (hash_sum, block_chain) = hash_file(&b"test".to_vec());
    assert_eq!(
        hex_encode(&hash_sum),
        "9f86d081884c7d659a2feaa0c55ad015a3bf4f1b2b0b822cd15d6c15b0f00a08".to_string(),
    );
    assert_eq!(block_chain.block_size, BLOCK_SIZE as u64);
    assert_eq!(block_chain.blocks.len(), 1);
    assert_eq!(block_chain.blocks[0].offset, 0);
    assert_eq!(block_chain.blocks[0].len, 4);
    // One short block: its digest is the whole-file digest.
    assert_eq!(block_chain.blocks[0].hash_sum, hash_sum);
}

#[test]
fn hash_empty_content() {
    let (hash_sum, block_chain) = hash_file(&Vec::new());
    assert_eq!(
        hex_encode(&hash_sum),
        "e3b0c44298fc1c149afbf4c8996fb92427ae41e4649b934ca495991b7852b855".to_string(),
    );
    // A zero-length file still yields a single block of length 0.
    assert_eq!(block_chain.blocks.len(), 1);
    assert_eq!(block_chain.blocks[0].offset, 0);
    assert_eq!(block_chain.blocks[0].len, 0);
    assert_eq!(block_chain.blocks[0].hash_sum, hash_sum);
}

#[test]
fn rehash_yields_identical_result() {
    let content = b"some file content".to_vec();
    let (h1, c1) = hash_file(&content);
    let (h2, c2) = hash_file(&content);
    assert_eq!(h1, h2);
    assert_eq!(c1.block_size, c2.block_size);
    assert_eq!(c1.blocks.len(), c2.blocks.len());
    let mut i = 0;
    while i < c1.blocks.len() {
        assert_eq!(c1.blocks[i].offset, c2.blocks[i].offset);
        assert_eq!(c1.blocks[i].len, c2.blocks[i].len);
        assert_eq!(c1.blocks[i].hash_sum, c2.blocks[i].hash_sum);
        i += 1;
    }
}

#[test]
fn hex_encodes_all_nibbles() {
    let bytes = vec![0x00u8, 0x19, 0x2a, 0x3b, 0x4c, 0x5d, 0x6e, 0x7f, 0x80, 0xff];
    assert_eq!(hex_encode(&bytes), "00192a3b4c5d6e7f80ff".to_string());
    assert_eq!(hex_encode(&Vec::new()), String::new());
}

#[test]
fn conflict_name_carries_timestamp() {
    // Epoch second 0 rendered in UTC+8.
    let name = conflict_filename(&"test.txt".to_string(), 0);
    assert_eq!(name, "test.txt.1970-01-01-08-00-00.conflict".to_string());
    // A later instant renders differently: the wrapper really formats.
    let other = conflict_filename(&"test.txt".to_string(), 3600);
    assert_eq!(other, "test.txt.1970-01-01-09-00-00.conflict".to_string());
}

#[test]
fn wire_requests_hex_encode_digests() {
    let (hash_sum, _) = hash_file(&b"test".to_vec());
    let client = GrpcClient::new(());
    let wire = client.wire_requests(&vec![DownloadBlockRequest {
        dir_id: "dir-1".to_string(),
        filename: "test.txt".to_string(),
        offset: 0,
        len: 4,
        hash_sum,
    }]);
    assert_eq!(wire.len(), 1);
    assert_eq!(wire[0].dir_id, "dir-1".to_string());
    assert_eq!(wire[0].filename, "test.txt".to_string());
    assert_eq!(wire[0].offset, 0);
    assert_eq!(wire[0].len, 4);
    assert_eq!(
        wire[0].hash_sum,
        "9f86d081884c7d659a2feaa0c55ad015a3bf4f1b2b0b822cd15d6c15b0f00a08".to_string(),
    );
}

#[test]
fn create_refuses_duplicate_name() {
    let (hash_sum, block_chain) = hash_file(&b"test".to_vec());
    let file = IndexFile {
        filename: "test.txt".to_string(),
        kind: FileKind::File,
        detail: FileDetail { gen: 1, hash_sum, block_chain: Some(block_chain), deleted: false },
        previous_details: vec![],
        update_time: 100,
        update_by: "user-1".to_string(),
    };
    let mut index = IndexStore::new();
    let mut guard = index.begin();
    assert!(guard.create_file(&file).is_ok());
    assert_eq!(guard.create_file(&file), Err(Error::AlreadyExists));
    index.commit(guard);
}

#[test]
fn uncommitted_guard_changes_nothing() {
    let (hash_sum, block_chain) = hash_file(&b"test".to_vec());
    let file = IndexFile {
        filename: "test.txt".to_string(),
        kind: FileKind::File,
        detail: FileDetail { gen: 1, hash_sum, block_chain: Some(block_chain), deleted: false },
        previous_details: vec![],
        update_time: 100,
        update_by: "user-1".to_string(),
    };
    let index = IndexStore::new();
    let mut guard = index.begin();
    guard.create_file(&file).unwrap();
    drop(guard);
    let fresh = index.begin();
    assert!(fresh.get_file(&"test.txt".to_string()).is_none());
}

#[test]
fn directory_model_round_trip() {
    let mut dir = SyncDir::new();
    assert!(!dir.contains(&"a.txt".to_string()));
    dir.write(&"a.txt".to_string(), b"one".to_vec());
    dir.write(&"b.txt".to_string(), b"two".to_vec());
    assert_eq!(dir.read(&"a.txt".to_string()), Some(b"one".to_vec()));
    dir.write(&"a.txt".to_string(), b"three".to_vec());
    assert_eq!(dir.read(&"a.txt".to_string()), Some(b"three".to_vec()));
    dir.remove(&"a.txt".to_string());
    assert!(!dir.contains(&"a.txt".to_string()));
    dir.remove(&"a.txt".to_string());
    assert_eq!(dir.read(&"b.txt".to_string()), Some(b"two".to_vec()));
    let names = dir.names();
    assert_eq!(names, vec!["b.txt".to_string()]);
}

#[test]
fn hash_multi_block_content() {
    // One full block plus three bytes: two blocks, the last one short.
    let mut content = vec![7u8; BLOCK_SIZE + 3];
    content[BLOCK_SIZE] = 1;
    content[BLOCK_SIZE + 1] = 2;
    content[BLOCK_SIZE + 2] = 3;
    let (_, chain) = hash_file(&content);
    assert_eq!(chain.blocks.len(), 2);
    assert_eq!(chain.blocks[0].offset, 0);
    assert_eq!(chain.blocks[0].len, BLOCK_SIZE as u64);
    assert_eq!(chain.blocks[1].offset, BLOCK_SIZE as u64);
    assert_eq!(chain.blocks[1].len, 3);
    // Each block digest is over its own bytes alone.
    let (first_hash, _) = hash_file(&vec![7u8; BLOCK_SIZE]);
    assert_eq!(chain.blocks[0].hash_sum, first_hash);
    let (second_hash, _) = hash_file(&vec![1u8, 2, 3]);
    assert_eq!(chain.blocks[1].hash_sum, second_hash);

    // An exact multiple of the block size yields full blocks only.
    let (_, exact) = hash_file(&vec![7u8; BLOCK_SIZE]);
    assert_eq!(exact.blocks.len(), 1);
    assert_eq!(exact.blocks[0].len, BLOCK_SIZE as u64);
}

#[test]
fn file_kind_names_round_trip() {
    assert_eq!(FileKind::File.name(), "File".to_string());
    assert_eq!(FileKind::Symlink.name(), "Symlink".to_string());
    assert_eq!(FileKind::from_name(&"File".to_string()), Ok(FileKind::File));
    assert_eq!(FileKind::from_name(&"Symlink".to_string()), Ok(FileKind::Symlink));
    assert_eq!(
        FileKind::from_name(&"Other".to_string()),
        Err("invalid file kind 'Other'".to_string()),
    );
}
