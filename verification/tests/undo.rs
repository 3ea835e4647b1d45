use true_code::checkpoint::{last_undoable, Checkpoints, LogEntry};

fn checkpointed(seq: u64, path: &str, backup: Option<&str>) -> LogEntry {
    LogEntry::Checkpointed { seq, path: path.to_owned(), backup: backup.map(str::to_owned) }
}

#[test]
fn two_captures_of_one_file_produce_two_backups() {
    let mut store = Checkpoints::new("/tmp/session");
    assert!(store.can_name());
    let first = store.next_name();
    assert!(store.can_name());
    let second = store.next_name();

    assert_ne!(first, second, "undoing twice must reach two different states");
    assert_eq!(first, "0000.bak");
    assert_eq!(second, "0001.bak");
}

#[test]
fn the_newest_unreverted_checkpoint_is_the_one_to_undo() {
    let log = vec![checkpointed(0, "a.rs", Some("0000.bak")), checkpointed(1, "b.rs", Some("0001.bak"))];

    let entry = last_undoable(&log).expect("something to undo");

    assert_eq!(entry.path, "b.rs");
    assert_eq!(entry.seq, 1);
}

#[test]
fn an_already_reverted_checkpoint_is_skipped() {
    let log = vec![
        checkpointed(0, "a.rs", Some("0000.bak")),
        checkpointed(1, "b.rs", Some("0001.bak")),
        LogEntry::Reverted { checkpoint_seq: 1 },
    ];

    let entry = last_undoable(&log).expect("something to undo");

    assert_eq!(entry.path, "a.rs", "undo must walk backwards, not repeat itself");
}

#[test]
fn repeated_edits_to_one_file_undo_one_step_at_a_time() {
    let log = vec![
        checkpointed(0, "a.rs", Some("0000.bak")),
        checkpointed(1, "a.rs", Some("0001.bak")),
        LogEntry::Reverted { checkpoint_seq: 1 },
    ];

    let entry = last_undoable(&log).expect("something to undo");

    assert_eq!(entry.backup.as_deref(), Some("0000.bak"), "the older state comes next");
}

#[test]
fn a_log_with_no_changes_has_nothing_to_undo() {
    let log = vec![LogEntry::Other];

    assert_eq!(last_undoable(&log), None);
}
