//! The translation of raw watcher notifications into watch events, including
//! the pairing of rename halves.

use syncdir::events::WatchEvent;
use syncdir::file_event_produce::{
    handle_events, RawCreateKind, RawEvent, RawEventKind, RawModifyKind, RawRemoveKind,
    RawRenameMode,
};

fn raw(kind: RawEventKind, paths: &[&str]) -> RawEvent {
    RawEvent { kind, paths: paths.iter().map(|p| p.to_string()).collect() }
}

#[test]
fn test_create() {
    let events = handle_events(vec![raw(
        RawEventKind::Create(RawCreateKind::File),
        &["test.txt"],
    )]);
    assert_eq!(events, vec![WatchEvent::Add { name: "test.txt".to_string() }]);
}

#[test]
fn test_modify() {
    let events = handle_events(vec![raw(
        RawEventKind::Modify(RawModifyKind::Data),
        &["test.txt"],
    )]);
    assert_eq!(events, vec![WatchEvent::Modify { name: "test.txt".to_string() }]);
}

#[test]
fn test_rename() {
    let events = handle_events(vec![raw(
        RawEventKind::Modify(RawModifyKind::Name(RawRenameMode::Both)),
        &["old.txt", "new.txt"],
    )]);
    assert_eq!(
        events,
        vec![WatchEvent::Rename {
            old_name: "old.txt".to_string(),
            new_name: "new.txt".to_string(),
        }],
    );
}

#[test]
fn test_delete() {
    let events = handle_events(vec![raw(
        RawEventKind::Remove(RawRemoveKind::File),
        &["test.txt"],
    )]);
    assert_eq!(events, vec![WatchEvent::Delete { name: "test.txt".to_string() }]);
}

#[test]
fn test_move_in() {
    // A rename whose source lies outside the watched directory arrives as a
    // lone "to" half and composes to an addition.
    let events = handle_events(vec![raw(
        RawEventKind::Modify(RawModifyKind::Name(RawRenameMode::To)),
        &["test.txt"],
    )]);
    assert_eq!(events, vec![WatchEvent::Add { name: "test.txt".to_string() }]);
}

#[test]
fn test_move_out() {
    // A rename whose target lies outside the watched directory arrives as a
    // lone "from" half and composes to a deletion.
    let events = handle_events(vec![raw(
        RawEventKind::Modify(RawModifyKind::Name(RawRenameMode::From)),
        &["test.txt"],
    )]);
    assert_eq!(events, vec![WatchEvent::Delete { name: "test.txt".to_string() }]);
}

#[test]
fn rename_halves_pair_into_whole_event() {
    // A "both" notification replaces previously parked halves for its paths.
    let events = handle_events(vec![
        raw(RawEventKind::Modify(RawModifyKind::Name(RawRenameMode::From)), &["old.txt"]),
        raw(RawEventKind::Modify(RawModifyKind::Name(RawRenameMode::To)), &["new.txt"]),
        raw(
            RawEventKind::Modify(RawModifyKind::Name(RawRenameMode::Both)),
            &["old.txt", "new.txt"],
        ),
    ]);
    assert_eq!(
        events,
        vec![WatchEvent::Rename {
            old_name: "old.txt".to_string(),
            new_name: "new.txt".to_string(),
        }],
    );
}

#[test]
fn access_and_folder_events_are_ignored() {
    let events = handle_events(vec![
        raw(RawEventKind::Access, &["test.txt"]),
        raw(RawEventKind::Create(RawCreateKind::Folder), &["sub"]),
        raw(RawEventKind::Remove(RawRemoveKind::Folder), &["sub"]),
    ]);
    assert_eq!(events, Vec::<WatchEvent>::new());
}

#[test]
fn direct_events_precede_composed_renames() {
    let events = handle_events(vec![
        raw(RawEventKind::Modify(RawModifyKind::Name(RawRenameMode::To)), &["moved.txt"]),
        raw(RawEventKind::Create(RawCreateKind::File), &["made.txt"]),
    ]);
    assert_eq!(
        events,
        vec![
            WatchEvent::Add { name: "made.txt".to_string() },
            WatchEvent::Add { name: "moved.txt".to_string() },
        ],
    );
}
