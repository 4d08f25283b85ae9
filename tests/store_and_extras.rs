use rat_text::clipboard::LocalClipboard;
use rat_text::error::TextError;
use rat_text::position::{TextPosition, TextRange};
use rat_text::text_core::{TextCore, TextOutcome};
use rat_text::text_store::TextString;
use std::ops::Range;

#[test]
fn byte_edits_need_grapheme_boundaries() {
    let mut t = TextString::new_text("a\u{e9}b").unwrap();
    assert_eq!(t.remove_b(Range { start: 2, end: 3 }), Err(TextError::ByteIndexNotCharBoundary(2)));
    assert_eq!(t.insert_b(9, "x"), Err(TextError::ByteIndexOutOfBounds(9, 4)));
    assert_eq!(t.insert_b(3, "xy"), Ok(()));
    assert_eq!(t.string(), "a\u{e9}xyb");
    assert_eq!(t.remove_b(Range { start: 1, end: 3 }), Ok(()));
    assert_eq!(t.string(), "axyb");
    assert_eq!(t.byte_len(), 4);
}

#[test]
fn store_insert_reports_ranges() {
    let mut t = TextString::new_text("\u{e9}z").unwrap();
    let (r, b) = t.insert_str(TextPosition::new(1, 0), "\u{6f22}q").unwrap();
    assert_eq!(r, TextRange::new((1, 0), (3, 0)));
    assert_eq!(b, Range { start: 2, end: 6 });
    let (txt, (range, bytes)) = t.remove(TextRange::new((0, 0), (2, 0))).unwrap();
    assert_eq!(txt, "\u{e9}\u{6f22}");
    assert_eq!(range, TextRange::new((0, 0), (2, 0)));
    assert_eq!(bytes, Range { start: 0, end: 5 });
    assert_eq!(t.string(), "qz");
}

#[test]
fn clipboard_holds_text() {
    let mut c = LocalClipboard::new();
    assert_eq!(c.get_string(), Ok(String::new()));
    assert_eq!(c.set_string("copy me"), Ok(()));
    assert_eq!(c.get_string(), Ok("copy me".to_string()));
}

#[test]
fn settings_round_trip() {
    let mut core = TextCore::new();
    assert_eq!(core.newline(), "\n");
    assert_eq!(core.tab_width(), 8);
    assert!(core.expand_tabs());
    assert!(!core.show_ctrl());
    core.set_newline("\r\n".to_string());
    core.set_tab_width(2);
    core.set_expand_tabs(false);
    core.set_show_ctrl(true);
    assert_eq!(core.newline(), "\r\n");
    assert_eq!(core.tab_width(), 2);
    assert!(!core.expand_tabs());
    assert!(core.show_ctrl());
    assert_eq!(core.undo_buffer().unwrap().undo_count(), 40);
    core.set_undo_buffer(None);
    assert!(core.undo_buffer().is_none());
    assert_eq!(core.undo(), Ok(TextOutcome::Continue));
    assert!(core.clipboard().is_some());
}

#[test]
fn duplicate_is_independent() {
    let mut a = TextCore::new();
    a.insert_str(TextPosition::new(0, 0), "abc").unwrap();
    let mut b = a.duplicate();
    b.insert_char(TextPosition::new(3, 0), 'd').unwrap();
    assert_eq!(a.string(), "abc");
    assert_eq!(b.string(), "abcd");
    assert_eq!(b.undo(), Ok(TextOutcome::TextChanged));
    assert_eq!(b.undo(), Ok(TextOutcome::TextChanged));
    assert_eq!(b.string(), "");
}

#[test]
fn lines_and_graphemes() {
    let mut core = TextCore::new();
    core.insert_str(TextPosition::new(0, 0), "xy").unwrap();
    assert_eq!(core.line_at(0).unwrap(), "xy");
    assert_eq!(core.lines_at(0).unwrap(), vec!["xy".to_string()]);
    assert!(core.lines_at(1).unwrap().is_empty());
    assert_eq!(core.lines_at(2), Err(TextError::LineIndexOutOfBounds(2, 1)));
    assert_eq!(core.len_lines(), 1);
    let g = core.text_graphemes(TextPosition::new(1, 0)).unwrap();
    assert_eq!(g.len(), 1);
    assert_eq!(g[0].grapheme, "y");
    assert_eq!(g[0].pos, TextPosition::new(1, 0));
    assert!(core.graphemes(TextRange::new((0, 0), (1, 0)), TextPosition::new(2, 0)).is_err());
    assert!(core.is_empty() == false);
}

#[test]
fn replayed_undo_marker_takes_back() {
    let mut a = TextCore::new();
    let mut b = TextCore::new();
    a.set_undo_modes(false, true);
    a.insert_str(TextPosition::new(0, 0), "hi").unwrap();
    let _ = a.undo();
    let log = a.recent_replay_log();
    assert_eq!(log.len(), 2);
    b.replay_log(&log);
    assert_eq!(b.string(), "");
    assert_eq!(a.string(), "");
}

#[test]
fn select_all_and_set_selection() {
    let mut core = TextCore::new();
    core.insert_str(TextPosition::new(0, 0), "abcd").unwrap();
    core.set_cursor(TextPosition::new(1, 0), false);
    assert!(core.select_all());
    assert_eq!(core.anchor(), TextPosition::new(0, 0));
    assert_eq!(core.cursor(), TextPosition::new(4, 0));
    assert!(!core.select_all());
    assert!(core.set_selection(TextRange::new((1, 0), (3, 0))));
    assert_eq!(core.str_slice(core.selection()).unwrap(), "bc");
}

#[test]
fn full_log_drops_oldest_edit() {
    let mut core = TextCore::new();
    core.set_undo_buffer(Some(rat_text::undo_buffer::UndoVec::new(3)));
    for (i, c) in "abcd".chars().enumerate() {
        assert_eq!(core.insert_char(TextPosition::new(i as u32, 0), c), Ok(true));
    }
    for _ in 0..3 {
        assert_eq!(core.undo(), Ok(TextOutcome::TextChanged));
    }
    assert_eq!(core.string(), "a");
    assert_eq!(core.cursor(), TextPosition::new(1, 0));
    assert_eq!(core.undo(), Ok(TextOutcome::Continue));
    assert_eq!(core.string(), "a");
}

#[test]
fn undo_log_changed_in_place() {
    let mut core = TextCore::new();
    if let Some(u) = core.undo_buffer_mut() {
        u.set_undo_styles(true);
    }
    assert!(core.undo_buffer().unwrap().undo_styles_enabled());
    core.insert_str(TextPosition::new(0, 0), "ab").unwrap();
    core.add_style(Range { start: 0, end: 1 }, 2);
    assert_eq!(core.undo(), Ok(TextOutcome::Changed));
    assert!(core.styles().is_empty());
}

#[test]
fn input_forwards_clipboard_and_log() {
    let mut s = rat_text::text_input::TextInputState::new();
    assert_eq!(s.undo_buffer().unwrap().undo_count(), 99);
    s.set_undo_buffer(None);
    assert!(s.undo_buffer().is_none());
    assert!(s.clipboard().is_some());
    s.set_clipboard(None);
    assert!(s.clipboard().is_none());
    assert!(!s.paste_from_clip());
}
