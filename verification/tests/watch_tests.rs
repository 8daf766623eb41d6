//! Scenarios for the watch event handler: local filesystem deltas applied to
//! the index, one transaction per event, one broadcast per batch.

use syncdir::dir::SyncDir;
use syncdir::events::WatchEvent;
use syncdir::hasher::hash_file;
use syncdir::index::{FileDetail, FileKind, IndexFile, IndexStore};
use syncdir::watch::WatchEventHandler;

fn live_file(name: &str, content: &[u8], gen: u32, time: u64, by: &str) -> IndexFile {
    let (hash_sum, block_chain) = hash_file(&content.to_vec());
    IndexFile {
        filename: name.to_string(),
        kind: FileKind::File,
        detail: FileDetail { gen, hash_sum, block_chain: Some(block_chain), deleted: false },
        previous_details: vec![],
        update_time: time,
        update_by: by.to_string(),
    }
}

fn deleted_file(name: &str, old_content: &[u8], time: u64, by: &str) -> IndexFile {
    let (old_hash, _) = hash_file(&old_content.to_vec());
    IndexFile {
        filename: name.to_string(),
        kind: FileKind::File,
        detail: FileDetail {
            gen: 2,
            hash_sum: vec![0u8; 32],
            block_chain: None,
            deleted: true,
        },
        previous_details: vec![FileDetail {
            gen: 1,
            hash_sum: old_hash,
            block_chain: None,
            deleted: false,
        }],
        update_time: time,
        update_by: by.to_string(),
    }
}

fn handler() -> WatchEventHandler {
    WatchEventHandler::new(&"user-1".to_string(), &"dir-1".to_string())
}

fn seed(index: &mut IndexStore, file: &IndexFile) {
    let mut guard = index.begin();
    guard.create_file(file).unwrap();
    index.commit(guard);
}

#[test]
fn add_event() {
    let mut index = IndexStore::new();
    let mut dir = SyncDir::new();
    dir.write(&"test.txt".to_string(), b"test".to_vec());

    let events = vec![WatchEvent::Add { name: "test.txt".to_string() }];
    let sent = handler()
        .handle_watch_events(&mut index, &dir, &events, 100)
        .expect("a created entry must be broadcast");

    assert_eq!(sent.except, None);
    assert_eq!(sent.rumors.len(), 1);
    let rumor = &sent.rumors[0];
    assert_eq!(rumor.filename, "test.txt".to_string());
    assert_eq!(rumor.detail.gen, 1);
    assert!(!rumor.detail.deleted);
    let (hash_sum, _) = hash_file(&b"test".to_vec());
    assert_eq!(rumor.detail.hash_sum, hash_sum);
    assert!(rumor.previous_details.is_empty());
}

#[test]
fn add_event_with_deleted_index() {
    let mut index = IndexStore::new();
    let mut dir = SyncDir::new();
    dir.write(&"test.txt".to_string(), b"test".to_vec());
    seed(&mut index, &deleted_file("test.txt", b"old", 50, "user-1"));

    let events = vec![WatchEvent::Add { name: "test.txt".to_string() }];
    let sent = handler().handle_watch_events(&mut index, &dir, &events, 100).unwrap();

    assert_eq!(sent.rumors.len(), 1);
    let rumor = &sent.rumors[0];
    assert_eq!(rumor.detail.gen, 3);
    assert!(!rumor.detail.deleted);
    assert_eq!(rumor.previous_details.len(), 2);
    assert!(rumor.previous_details[1].deleted);
}

#[test]
fn add_event_with_exists_index() {
    let mut index = IndexStore::new();
    let mut dir = SyncDir::new();
    dir.write(&"test.txt".to_string(), b"new".to_vec());
    seed(&mut index, &live_file("test.txt", b"old", 1, 50, "user-1"));

    let events = vec![WatchEvent::Add { name: "test.txt".to_string() }];
    let sent = handler().handle_watch_events(&mut index, &dir, &events, 100).unwrap();

    assert_eq!(sent.rumors.len(), 1);
    let rumor = &sent.rumors[0];
    assert_eq!(rumor.detail.gen, 2);
    let (new_hash, _) = hash_file(&b"new".to_vec());
    assert_eq!(rumor.detail.hash_sum, new_hash);
    assert_eq!(rumor.previous_details.len(), 1);
    assert!(rumor.previous_details[0].block_chain.is_none());
    assert_eq!(rumor.update_time, 100);
}

#[test]
fn add_event_with_same_index() {
    let mut index = IndexStore::new();
    let mut dir = SyncDir::new();
    dir.write(&"test.txt".to_string(), b"test".to_vec());
    seed(&mut index, &live_file("test.txt", b"test", 1, 50, "user-1"));

    // Unchanged content: no index change, and nothing to broadcast.
    let events = vec![WatchEvent::Add { name: "test.txt".to_string() }];
    let sent = handler().handle_watch_events(&mut index, &dir, &events, 100);
    assert!(sent.is_none());

    let guard = index.begin();
    let stored = guard.get_file(&"test.txt".to_string()).unwrap();
    assert_eq!(stored.detail.gen, 1);
}

#[test]
fn modify_event_missing_file_marks_deleted() {
    let mut index = IndexStore::new();
    let dir = SyncDir::new();
    seed(&mut index, &live_file("test.txt", b"old", 1, 50, "user-1"));

    // The file is gone by the time the event is handled: deletion bump.
    let events = vec![WatchEvent::Modify { name: "test.txt".to_string() }];
    let sent = handler().handle_watch_events(&mut index, &dir, &events, 100).unwrap();

    assert_eq!(sent.rumors.len(), 1);
    let rumor = &sent.rumors[0];
    assert_eq!(rumor.detail.gen, 2);
    assert!(rumor.detail.deleted);
    assert_eq!(rumor.detail.hash_sum, vec![0u8; 32]);
}

#[test]
fn delete_event() {
    let mut index = IndexStore::new();
    let dir = SyncDir::new();

    // No index entry: nothing to record, nothing to broadcast.
    let events = vec![WatchEvent::Delete { name: "test.txt".to_string() }];
    let sent = handler().handle_watch_events(&mut index, &dir, &events, 100);
    assert!(sent.is_none());
}

#[test]
fn delete_event_with_exist_file() {
    let mut index = IndexStore::new();
    let dir = SyncDir::new();
    seed(&mut index, &live_file("test.txt", b"test", 1, 50, "user-1"));

    let events = vec![WatchEvent::Delete { name: "test.txt".to_string() }];
    let sent = handler().handle_watch_events(&mut index, &dir, &events, 100).unwrap();

    assert_eq!(sent.rumors.len(), 1);
    let rumor = &sent.rumors[0];
    assert_eq!(rumor.detail.gen, 2);
    assert!(rumor.detail.deleted);
    assert_eq!(rumor.previous_details.len(), 1);
    assert_eq!(rumor.previous_details[0].gen, 1);
    assert!(rumor.previous_details[0].block_chain.is_none());
    assert_eq!(rumor.update_time, 100);
    assert_eq!(rumor.update_by, "user-1".to_string());
}

#[test]
fn delete_event_with_deleted_file() {
    let mut index = IndexStore::new();
    let dir = SyncDir::new();
    seed(&mut index, &deleted_file("test.txt", b"old", 50, "user-1"));

    // Already recorded as deleted: no further bump.
    let events = vec![WatchEvent::Delete { name: "test.txt".to_string() }];
    let sent = handler().handle_watch_events(&mut index, &dir, &events, 100);
    assert!(sent.is_none());

    let guard = index.begin();
    let stored = guard.get_file(&"test.txt".to_string()).unwrap();
    assert_eq!(stored.detail.gen, 2);
}

#[test]
fn rename_event() {
    let mut index = IndexStore::new();
    let mut dir = SyncDir::new();
    dir.write(&"new.txt".to_string(), b"test".to_vec());
    seed(&mut index, &live_file("old.txt", b"test", 1, 50, "user-1"));

    let events = vec![WatchEvent::Rename {
        old_name: "old.txt".to_string(),
        new_name: "new.txt".to_string(),
    }];
    let sent = handler().handle_watch_events(&mut index, &dir, &events, 100).unwrap();

    assert_eq!(sent.rumors.len(), 2);
    let old_rumor = &sent.rumors[0];
    assert_eq!(old_rumor.filename, "old.txt".to_string());
    assert_eq!(old_rumor.detail.gen, 2);
    assert!(old_rumor.detail.deleted);

    let new_rumor = &sent.rumors[1];
    assert_eq!(new_rumor.filename, "new.txt".to_string());
    assert_eq!(new_rumor.detail.gen, 1);
    assert!(!new_rumor.detail.deleted);
}

#[test]
fn rename_event_with_old_file() {
    // The old name has no index entry: only the new file is recorded.
    let mut index = IndexStore::new();
    let mut dir = SyncDir::new();
    dir.write(&"new.txt".to_string(), b"test".to_vec());

    let events = vec![WatchEvent::Rename {
        old_name: "old.txt".to_string(),
        new_name: "new.txt".to_string(),
    }];
    let sent = handler().handle_watch_events(&mut index, &dir, &events, 100).unwrap();

    assert_eq!(sent.rumors.len(), 1);
    assert_eq!(sent.rumors[0].filename, "new.txt".to_string());
    assert_eq!(sent.rumors[0].detail.gen, 1);
}

#[test]
fn rename_event_with_old_deleted_file() {
    // The old name is already recorded as deleted: only the new file bumps.
    let mut index = IndexStore::new();
    let mut dir = SyncDir::new();
    dir.write(&"new.txt".to_string(), b"test".to_vec());
    seed(&mut index, &deleted_file("old.txt", b"old", 50, "user-1"));

    let events = vec![WatchEvent::Rename {
        old_name: "old.txt".to_string(),
        new_name: "new.txt".to_string(),
    }];
    let sent = handler().handle_watch_events(&mut index, &dir, &events, 100).unwrap();

    assert_eq!(sent.rumors.len(), 1);
    assert_eq!(sent.rumors[0].filename, "new.txt".to_string());

    let guard = index.begin();
    let old_stored = guard.get_file(&"old.txt".to_string()).unwrap();
    assert_eq!(old_stored.detail.gen, 2);
}

#[test]
fn rename_event_with_exist_new_file() {
    // The new name already has a live entry: it is bumped with the new hash.
    let mut index = IndexStore::new();
    let mut dir = SyncDir::new();
    dir.write(&"new.txt".to_string(), b"test".to_vec());
    seed(&mut index, &live_file("old.txt", b"test", 1, 50, "user-1"));
    seed(&mut index, &live_file("new.txt", b"other", 1, 50, "user-1"));

    let events = vec![WatchEvent::Rename {
        old_name: "old.txt".to_string(),
        new_name: "new.txt".to_string(),
    }];
    let sent = handler().handle_watch_events(&mut index, &dir, &events, 100).unwrap();

    assert_eq!(sent.rumors.len(), 2);
    let new_rumor = &sent.rumors[1];
    assert_eq!(new_rumor.filename, "new.txt".to_string());
    assert_eq!(new_rumor.detail.gen, 2);
    let (hash_sum, _) = hash_file(&b"test".to_vec());
    assert_eq!(new_rumor.detail.hash_sum, hash_sum);
}

#[test]
fn rename_event_with_deleted_new_file() {
    // The new name is recorded as deleted: it is revived with the new hash.
    let mut index = IndexStore::new();
    let mut dir = SyncDir::new();
    dir.write(&"new.txt".to_string(), b"test".to_vec());
    seed(&mut index, &live_file("old.txt", b"test", 1, 50, "user-1"));
    seed(&mut index, &deleted_file("new.txt", b"other", 50, "user-1"));

    let events = vec![WatchEvent::Rename {
        old_name: "old.txt".to_string(),
        new_name: "new.txt".to_string(),
    }];
    let sent = handler().handle_watch_events(&mut index, &dir, &events, 100).unwrap();

    assert_eq!(sent.rumors.len(), 2);
    let new_rumor = &sent.rumors[1];
    assert_eq!(new_rumor.filename, "new.txt".to_string());
    assert_eq!(new_rumor.detail.gen, 3);
    assert!(!new_rumor.detail.deleted);
}

#[test]
fn rename_event_missing_new_file_deletes_both() {
    // The new path is missing too: both names are bumped to deletions.
    let mut index = IndexStore::new();
    let dir = SyncDir::new();
    seed(&mut index, &live_file("old.txt", b"a", 1, 50, "user-1"));
    seed(&mut index, &live_file("new.txt", b"b", 1, 50, "user-1"));

    let events = vec![WatchEvent::Rename {
        old_name: "old.txt".to_string(),
        new_name: "new.txt".to_string(),
    }];
    let sent = handler().handle_watch_events(&mut index, &dir, &events, 100).unwrap();

    assert_eq!(sent.rumors.len(), 2);
    assert!(sent.rumors[0].detail.deleted);
    assert!(sent.rumors[1].detail.deleted);
    assert_eq!(sent.rumors[0].filename, "old.txt".to_string());
    assert_eq!(sent.rumors[1].filename, "new.txt".to_string());
}
