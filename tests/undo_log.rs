use rat_text::position::TextPosition;
use rat_text::undo_buffer::{TextPositionChange, UndoEntry, UndoVec};
use std::ops::Range;

fn entry(i: usize) -> UndoEntry {
    let p = TextPosition::new(0, 0);
    UndoEntry::InsertChar {
        bytes: Range { start: i, end: i + 1 },
        cursor: TextPositionChange { before: p, after: p },
        anchor: TextPositionChange { before: p, after: p },
        txt: "x".to_string(),
    }
}

fn start_of(e: &UndoEntry) -> usize {
    match e {
        UndoEntry::InsertChar { bytes, .. } => bytes.start,
        _ => usize::MAX,
    }
}

#[test]
fn capacity_keeps_most_recent() {
    let mut u = UndoVec::new(3);
    for i in 0..4 {
        u.append(entry(i));
    }
    assert_eq!(u.len(), 3);
    assert_eq!(start_of(&u.undo().unwrap()), 3);
    assert_eq!(start_of(&u.undo().unwrap()), 2);
    assert_eq!(start_of(&u.undo().unwrap()), 1);
    assert!(u.undo().is_none());
}

#[test]
fn markers_only_go_to_replay() {
    let mut u = UndoVec::new(5);
    u.set_replay_log(true);
    u.append(entry(0));
    u.append(UndoEntry::Undo);
    u.append(UndoEntry::Redo);
    assert_eq!(u.len(), 1);
    let log = u.recent_replay_log();
    assert_eq!(log.len(), 3);
    assert!(matches!(log[1], UndoEntry::Undo));
    assert!(u.recent_replay_log().is_empty());
}

#[test]
fn append_no_replay_skips_record() {
    let mut u = UndoVec::new(5);
    u.set_replay_log(true);
    u.append_no_replay(entry(0));
    assert_eq!(u.len(), 1);
    assert!(u.recent_replay_log().is_empty());
}

#[test]
fn undo_redo_walk_the_log() {
    let mut u = UndoVec::new(5);
    assert!(u.undo().is_none());
    assert!(u.redo().is_none());
    u.append(entry(0));
    u.append(entry(1));
    assert_eq!(start_of(&u.undo().unwrap()), 1);
    assert_eq!(start_of(&u.redo().unwrap()), 1);
    assert!(u.redo().is_none());
    assert_eq!(u.position(), 2);
}

#[test]
fn entry_that_does_not_fit_is_an_error() {
    let mut log = UndoVec::new(5);
    log.append(entry(40));
    let mut core = rat_text::text_core::TextCore::new();
    core.set_undo_buffer(Some(log));
    assert_eq!(core.undo(), Err(rat_text::error::TextError::EntryMismatch));
    assert_eq!(core.string(), "");
    assert_eq!(core.undo(), Ok(rat_text::text_core::TextOutcome::Continue));
}
