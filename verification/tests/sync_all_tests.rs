//! Scenarios for the sync-all handler: full reconciliation of the directory
//! against the index, with its unconditional broadcast.

use syncdir::dir::SyncDir;
use syncdir::hasher::hash_file;
use syncdir::index::{FileDetail, FileKind, IndexFile, IndexStore};
use syncdir::sync_all::SyncAllHandler;

fn live_file(name: &str, content: &[u8], gen: u32, time: u64, by: &str) -> IndexFile {
    let (hash_sum, block_chain) = hash_file(&content.to_vec());
    IndexFile {
        filename: name.to_string(),
        kind: FileKind::File,
        detail: FileDetail { gen, hash_sum, block_chain: Some(block_chain), deleted: false },
        previous_details: vec![],
        update_time: time,
        update_by: by.to_string(),
    }
}

fn handler() -> SyncAllHandler {
    SyncAllHandler::new(&"user-1".to_string(), &"dir-1".to_string())
}

#[test]
fn all_empty() {
    let mut index = IndexStore::new();
    let dir = SyncDir::new();

    // An empty share still emits an (empty) unconditional broadcast.
    let sent = handler().handle_sync_all_event(&mut index, &dir, 100);
    assert_eq!(sent.except, None);
    assert_eq!(sent.dir_id, "dir-1".to_string());
    assert!(sent.rumors.is_empty());
}

#[test]
fn empty_index() {
    let mut index = IndexStore::new();
    let mut dir = SyncDir::new();
    dir.write(&"test.txt".to_string(), b"test".to_vec());

    let sent = handler().handle_sync_all_event(&mut index, &dir, 100);
    assert_eq!(sent.except, None);
    assert_eq!(sent.rumors.len(), 1);
    let rumor = &sent.rumors[0];
    assert_eq!(rumor.filename, "test.txt".to_string());
    assert_eq!(rumor.detail.gen, 1);
    assert!(!rumor.detail.deleted);
    assert!(rumor.previous_details.is_empty());
    assert_eq!(rumor.update_time, 100);
    assert_eq!(rumor.update_by, "user-1".to_string());

    let (hash_sum, _) = hash_file(&b"test".to_vec());
    assert_eq!(rumor.detail.hash_sum, hash_sum);
}

#[test]
fn empty_dir_with_index() {
    let mut index = IndexStore::new();
    let dir = SyncDir::new();

    let local = live_file("test.txt", b"test", 1, 50, "user-1");
    let mut guard = index.begin();
    guard.create_file(&local).unwrap();
    index.commit(guard);

    // The file is gone from disk: its entry is bumped to a deletion at gen 2,
    // the prior detail retired with its chain cleared.
    let sent = handler().handle_sync_all_event(&mut index, &dir, 100);
    assert_eq!(sent.except, None);
    assert_eq!(sent.rumors.len(), 1);
    let rumor = &sent.rumors[0];
    assert_eq!(rumor.filename, "test.txt".to_string());
    assert_eq!(rumor.detail.gen, 2);
    assert!(rumor.detail.deleted);
    assert_eq!(rumor.detail.hash_sum, vec![0u8; 32]);
    assert!(rumor.detail.block_chain.is_none());
    assert_eq!(rumor.previous_details.len(), 1);
    assert_eq!(rumor.previous_details[0].gen, 1);
    assert!(rumor.previous_details[0].block_chain.is_none());

    let guard = index.begin();
    let stored = guard.get_file(&"test.txt".to_string()).unwrap();
    assert!(stored.detail.deleted);
    assert_eq!(stored.detail.gen, 2);
}

#[test]
fn index_old() {
    let mut index = IndexStore::new();
    let mut dir = SyncDir::new();
    dir.write(&"test.txt".to_string(), b"new".to_vec());

    let local = live_file("test.txt", b"old", 1, 50, "user-1");
    let mut guard = index.begin();
    guard.create_file(&local).unwrap();
    index.commit(guard);

    // The on-disk content changed: the entry is bumped with the fresh hash.
    let sent = handler().handle_sync_all_event(&mut index, &dir, 100);
    assert_eq!(sent.rumors.len(), 1);
    let rumor = &sent.rumors[0];
    assert_eq!(rumor.detail.gen, 2);
    assert!(!rumor.detail.deleted);
    let (new_hash, _) = hash_file(&b"new".to_vec());
    assert_eq!(rumor.detail.hash_sum, new_hash);
    assert_eq!(rumor.previous_details.len(), 1);
    assert_eq!(rumor.previous_details[0].gen, 1);
}

#[test]
fn no_changed() {
    let mut index = IndexStore::new();
    let mut dir = SyncDir::new();
    dir.write(&"test.txt".to_string(), b"test".to_vec());

    let local = live_file("test.txt", b"test", 1, 50, "user-1");
    let mut guard = index.begin();
    guard.create_file(&local).unwrap();
    index.commit(guard);

    // Nothing changed on disk: the entry stays at gen 1, and the broadcast
    // still carries the whole index.
    let sent = handler().handle_sync_all_event(&mut index, &dir, 100);
    assert_eq!(sent.rumors.len(), 1);
    let rumor = &sent.rumors[0];
    assert_eq!(rumor.detail.gen, 1);
    assert!(!rumor.detail.deleted);
    assert_eq!(rumor.update_time, 50);
}

#[test]
fn deleted_pending_file_reappears() {
    let mut index = IndexStore::new();
    let mut dir = SyncDir::new();
    dir.write(&"test.txt".to_string(), b"back".to_vec());

    let mut local = live_file("test.txt", b"old", 1, 50, "user-1");
    local.detail = FileDetail {
        gen: 2,
        hash_sum: vec![0u8; 32],
        block_chain: None,
        deleted: true,
    };
    let (old_hash, _) = hash_file(&b"old".to_vec());
    local.previous_details.push(FileDetail {
        gen: 1,
        hash_sum: old_hash,
        block_chain: None,
        deleted: false,
    });
    let mut guard = index.begin();
    guard.create_file(&local).unwrap();
    index.commit(guard);

    // A file on disk whose entry is deleted counts as new: revived at gen 3.
    let sent = handler().handle_sync_all_event(&mut index, &dir, 100);
    assert_eq!(sent.rumors.len(), 1);
    let rumor = &sent.rumors[0];
    assert_eq!(rumor.detail.gen, 3);
    assert!(!rumor.detail.deleted);
    assert_eq!(rumor.previous_details.len(), 2);
}
