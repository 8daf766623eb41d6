//! Scenarios for the rumors event handler: adopting unknown files,
//! fast-forwarding, conflicts, ties, and canceled downloads.

use syncdir::dir::SyncDir;
use syncdir::hasher::hash_file;
use syncdir::index::{index_files_equal, FileDetail, FileKind, IndexFile, IndexStore, BLOCK_SIZE};
use syncdir::rumors::{conflict_filename, RumorAction, RumorsEventHandler};
use syncdir::transfer::DownloadBlock;

fn live_file(name: &str, content: &[u8], gen: u32, time: u64, by: &str) -> IndexFile {
    let (hash_sum, block_chain) = hash_file(&content.to_vec());
    IndexFile {
        filename: name.to_string(),
        kind: FileKind::File,
        detail: FileDetail { gen, hash_sum, block_chain: Some(block_chain), deleted: false },
        previous_details: vec![],
        update_time: time,
        update_by: by.to_string(),
    }
}

fn with_history(mut file: IndexFile, old_content: &[u8], old_gen: u32) -> IndexFile {
    let (hash_sum, _) = hash_file(&old_content.to_vec());
    file.previous_details.push(FileDetail {
        gen: old_gen,
        hash_sum,
        block_chain: None,
        deleted: false,
    });
    file
}

fn handler() -> RumorsEventHandler {
    RumorsEventHandler::new("user-1".to_string(), "dir-1".to_string())
}

#[test]
fn local_not_exist() {
    let mut index = IndexStore::new();
    let mut dir = SyncDir::new();
    let rumor = live_file("test.txt", b"test", 1, 100, "user-2");
    let downloads = vec![vec![Some(DownloadBlock { offset: 0, data: b"test".to_vec() })]];

    let sent = handler()
        .handle_rumors_event(
            &mut index,
            &mut dir,
            &"user-2".to_string(),
            &vec![live_file("test.txt", b"test", 1, 100, "user-2")],
            &downloads,
            100,
        )
        .expect("a new rumor must be rebroadcast");

    assert_eq!(sent.except, Some("user-2".to_string()));
    assert_eq!(sent.dir_id, "dir-1".to_string());
    assert_eq!(sent.rumors.len(), 1);
    assert!(index_files_equal(&sent.rumors[0], &rumor));

    assert_eq!(dir.read(&"test.txt".to_string()), Some(b"test".to_vec()));

    let guard = index.begin();
    let stored = guard.get_file(&"test.txt".to_string()).expect("index entry must exist");
    assert!(index_files_equal(&stored, &rumor));
}

#[test]
fn local_is_latest() {
    let mut index = IndexStore::new();
    let mut dir = SyncDir::new();
    dir.write(&"test.txt".to_string(), b"test".to_vec());

    let local = with_history(live_file("test.txt", b"test", 2, 50, "user-1"), b"test", 1);
    let mut guard = index.begin();
    guard.create_file(&local).unwrap();
    index.commit(guard);

    let rumor = live_file("test.txt", b"test", 1, 100, "user-2");
    let sent = handler().handle_rumors_event(
        &mut index,
        &mut dir,
        &"user-2".to_string(),
        &vec![rumor],
        &vec![vec![]],
        100,
    );

    assert!(sent.is_none());
    assert_eq!(dir.read(&"test.txt".to_string()), Some(b"test".to_vec()));
    let guard = index.begin();
    let stored = guard.get_file(&"test.txt".to_string()).unwrap();
    assert!(index_files_equal(&stored, &local));
}

#[test]
fn remote_is_latest() {
    let mut index = IndexStore::new();
    let mut dir = SyncDir::new();
    dir.write(&"test.txt".to_string(), b"old".to_vec());

    let local = live_file("test.txt", b"old", 1, 50, "user-1");
    let mut guard = index.begin();
    guard.create_file(&local).unwrap();
    index.commit(guard);

    // The remote peer edited our version: its history holds our gen 1.
    let rumor = with_history(live_file("test.txt", b"new", 2, 100, "user-2"), b"old", 1);

    // The delta selection asks exactly for the one differing block.
    let guard = index.begin();
    let plan = handler().plan_rumor(&guard, &rumor);
    match &plan {
        RumorAction::Fetch { requests, base_local, conflict } => {
            assert_eq!(requests.len(), 1);
            assert_eq!(requests[0].offset, 0);
            assert_eq!(requests[0].len, 3);
            assert!(*base_local);
            assert!(!*conflict);
        }
        _ => panic!("a fast-forward must fetch"),
    }

    let downloads = vec![vec![Some(DownloadBlock { offset: 0, data: b"new".to_vec() })]];
    let sent = handler()
        .handle_rumors_event(
            &mut index,
            &mut dir,
            &"user-2".to_string(),
            &vec![with_history(live_file("test.txt", b"new", 2, 100, "user-2"), b"old", 1)],
            &downloads,
            100,
        )
        .expect("a new rumor must be rebroadcast");

    assert_eq!(sent.rumors.len(), 1);
    assert_eq!(dir.read(&"test.txt".to_string()), Some(b"new".to_vec()));
    let guard = index.begin();
    let stored = guard.get_file(&"test.txt".to_string()).unwrap();
    assert!(index_files_equal(&stored, &rumor));
}

#[test]
fn local_remote_same() {
    let mut index = IndexStore::new();
    let mut dir = SyncDir::new();
    dir.write(&"test.txt".to_string(), b"test".to_vec());

    let local = live_file("test.txt", b"test", 1, 100, "user-2");
    let mut guard = index.begin();
    guard.create_file(&local).unwrap();
    index.commit(guard);

    let sent = handler().handle_rumors_event(
        &mut index,
        &mut dir,
        &"user-2".to_string(),
        &vec![live_file("test.txt", b"test", 1, 100, "user-2")],
        &vec![vec![]],
        100,
    );

    assert!(sent.is_none());
    assert_eq!(dir.read(&"test.txt".to_string()), Some(b"test".to_vec()));
}

#[test]
fn eq_gen_local_latest() {
    let mut index = IndexStore::new();
    let mut dir = SyncDir::new();
    dir.write(&"test.txt".to_string(), b"local".to_vec());

    let local = live_file("test.txt", b"local", 1, 200, "user-1");
    let mut guard = index.begin();
    guard.create_file(&local).unwrap();
    index.commit(guard);

    // Same generation, older remote timestamp: the local version wins.
    let sent = handler().handle_rumors_event(
        &mut index,
        &mut dir,
        &"user-2".to_string(),
        &vec![live_file("test.txt", b"remote", 1, 100, "user-2")],
        &vec![vec![]],
        300,
    );

    assert!(sent.is_none());
    assert_eq!(dir.read(&"test.txt".to_string()), Some(b"local".to_vec()));
    let guard = index.begin();
    let stored = guard.get_file(&"test.txt".to_string()).unwrap();
    assert!(index_files_equal(&stored, &local));
}

#[test]
fn eq_gen_remote_latest() {
    let mut index = IndexStore::new();
    let mut dir = SyncDir::new();
    dir.write(&"test.txt".to_string(), b"local".to_vec());

    let local = live_file("test.txt", b"local", 1, 100, "user-1");
    let mut guard = index.begin();
    guard.create_file(&local).unwrap();
    index.commit(guard);

    // Same generation, newer remote timestamp: the remote version wins, and
    // the pre-update bytes are preserved as a conflict file.
    let rumor = live_file("test.txt", b"remote", 1, 200, "user-2");
    let now: u64 = 500;
    let downloads = vec![vec![Some(DownloadBlock { offset: 0, data: b"remote".to_vec() })]];
    let sent = handler()
        .handle_rumors_event(
            &mut index,
            &mut dir,
            &"user-2".to_string(),
            &vec![live_file("test.txt", b"remote", 1, 200, "user-2")],
            &downloads,
            now,
        )
        .expect("the remote win must be rebroadcast");

    assert_eq!(sent.rumors.len(), 1);
    assert_eq!(dir.read(&"test.txt".to_string()), Some(b"remote".to_vec()));

    let conflict_name = conflict_filename(&"test.txt".to_string(), now);
    assert_eq!(dir.read(&conflict_name), Some(b"local".to_vec()));

    let guard = index.begin();
    let stored = guard.get_file(&"test.txt".to_string()).unwrap();
    assert!(index_files_equal(&stored, &rumor));
}

#[test]
fn no_require_block() {
    let mut index = IndexStore::new();
    let mut dir = SyncDir::new();

    // The source peer no longer has the block: the file sync is canceled,
    // nothing is written and nothing is rebroadcast.
    let sent = handler().handle_rumors_event(
        &mut index,
        &mut dir,
        &"user-2".to_string(),
        &vec![live_file("test.txt", b"test", 1, 100, "user-2")],
        &vec![vec![None]],
        100,
    );

    assert!(sent.is_none());
    assert!(!dir.contains(&"test.txt".to_string()));
    let guard = index.begin();
    assert!(guard.get_file(&"test.txt".to_string()).is_none());
}

#[test]
fn deleted_rumor_removes_file() {
    let mut index = IndexStore::new();
    let mut dir = SyncDir::new();
    dir.write(&"test.txt".to_string(), b"old".to_vec());

    let local = live_file("test.txt", b"old", 1, 50, "user-1");
    let mut guard = index.begin();
    guard.create_file(&local).unwrap();
    index.commit(guard);

    // A deletion at gen 2 whose history holds our gen 1: fast-forward.
    let (old_hash, _) = hash_file(&b"old".to_vec());
    let rumor = IndexFile {
        filename: "test.txt".to_string(),
        kind: FileKind::File,
        detail: FileDetail {
            gen: 2,
            hash_sum: vec![0u8; 32],
            block_chain: None,
            deleted: true,
        },
        previous_details: vec![FileDetail {
            gen: 1,
            hash_sum: old_hash,
            block_chain: None,
            deleted: false,
        }],
        update_time: 100,
        update_by: "user-2".to_string(),
    };

    let sent = handler()
        .handle_rumors_event(
            &mut index,
            &mut dir,
            &"user-2".to_string(),
            &vec![rumor],
            &vec![vec![]],
            100,
        )
        .expect("an adopted deletion must be rebroadcast");

    assert_eq!(sent.rumors.len(), 1);
    assert!(!dir.contains(&"test.txt".to_string()));
    let guard = index.begin();
    let stored = guard.get_file(&"test.txt".to_string()).unwrap();
    assert!(stored.detail.deleted);
    assert_eq!(stored.detail.gen, 2);
}

#[test]
fn reapplying_applied_rumor_is_noop() {
    let mut index = IndexStore::new();
    let mut dir = SyncDir::new();
    let downloads = vec![vec![Some(DownloadBlock { offset: 0, data: b"test".to_vec() })]];
    let rumors = vec![live_file("test.txt", b"test", 1, 100, "user-2")];

    let first = handler().handle_rumors_event(
        &mut index,
        &mut dir,
        &"user-2".to_string(),
        &rumors,
        &downloads,
        100,
    );
    assert!(first.is_some());

    // The same rumor again: local state matches it exactly, so nothing
    // changes and nothing is rebroadcast.
    let second = handler().handle_rumors_event(
        &mut index,
        &mut dir,
        &"user-2".to_string(),
        &rumors,
        &downloads,
        200,
    );
    assert!(second.is_none());
    assert_eq!(dir.read(&"test.txt".to_string()), Some(b"test".to_vec()));
}

#[test]
fn delta_fetches_only_changed_trailing_block() {
    // Two-block file: the first block is unchanged, only the short trailing
    // block differs between the local and the remote version.
    let mut old_content = vec![7u8; BLOCK_SIZE + 3];
    old_content[BLOCK_SIZE] = 1;
    let mut new_content = vec![7u8; BLOCK_SIZE + 3];
    new_content[BLOCK_SIZE] = 2;

    let mut index = IndexStore::new();
    let mut dir = SyncDir::new();
    dir.write(&"big.bin".to_string(), old_content.clone());
    let local = live_file("big.bin", &old_content, 1, 50, "user-1");
    let mut guard = index.begin();
    guard.create_file(&local).unwrap();
    index.commit(guard);

    let rumor = with_history(live_file("big.bin", &new_content, 2, 100, "user-2"), &old_content, 1);

    let guard = index.begin();
    let plan = handler().plan_rumor(&guard, &rumor);
    let requests = match &plan {
        RumorAction::Fetch { requests, base_local, .. } => {
            assert!(*base_local);
            requests
        }
        _ => panic!("a fast-forward must fetch"),
    };
    assert_eq!(requests.len(), 1);
    assert_eq!(requests[0].offset, BLOCK_SIZE as u64);
    assert_eq!(requests[0].len, 3);
    drop(guard);

    // Only the trailing block travels; the first block comes from local bytes.
    let downloads = vec![vec![Some(DownloadBlock {
        offset: BLOCK_SIZE as u64,
        data: vec![2u8, 7, 7],
    })]];
    let sent = handler()
        .handle_rumors_event(
            &mut index,
            &mut dir,
            &"user-2".to_string(),
            &vec![with_history(
                live_file("big.bin", &new_content, 2, 100, "user-2"),
                &old_content,
                1,
            )],
            &downloads,
            100,
        )
        .expect("a fast-forward must be rebroadcast");
    assert_eq!(sent.rumors.len(), 1);
    assert_eq!(dir.read(&"big.bin".to_string()), Some(new_content));
}
