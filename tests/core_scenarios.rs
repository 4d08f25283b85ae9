use rat_text::position::{TextPosition, TextRange};
use rat_text::text_core::{TextCore, TextOutcome};
use rat_text::text_store::TextString;
use std::ops::Range;

fn core_with(text: &str) -> TextCore {
    let mut core = TextCore::new();
    core.set_text(TextString::new_text(text).unwrap());
    core
}

fn pos(x: u32) -> TextPosition {
    TextPosition::new(x, 0)
}

#[test]
fn insert_then_undo_restores_empty() {
    let mut core = TextCore::new();
    assert_eq!(core.insert_str(pos(0), "hello"), Ok(true));
    assert_eq!(core.cursor(), pos(5));
    assert_eq!(core.string(), "hello");
    assert_eq!(core.undo(), Ok(TextOutcome::TextChanged));
    assert_eq!(core.string(), "");
    assert_eq!(core.cursor(), pos(0));
}

#[test]
fn insert_char_moves_style() {
    let mut core = core_with("abc");
    core.add_style(Range { start: 0, end: 1 }, 5);
    assert_eq!(core.insert_char(pos(0), 'X'), Ok(true));
    assert_eq!(core.styles(), vec![(Range { start: 1, end: 2 }, 5)]);
    assert_eq!(core.string(), "Xabc");
    let mut tags = Vec::new();
    core.styles_at(1, &mut tags);
    assert_eq!(tags, vec![5]);
}

#[test]
fn replay_mirrors_text_and_styles() {
    let mut a = core_with("base");
    let mut b = core_with("base");
    a.set_undo_modes(true, true);
    a.recent_replay_log();
    a.insert_str(pos(4), " text").unwrap();
    a.add_style(Range { start: 0, end: 4 }, 2);
    a.remove_str_range(TextRange::new((0, 0), (1, 0))).unwrap();
    a.insert_char(pos(0), 'B').unwrap();
    let log = a.recent_replay_log();
    assert!(!log.is_empty());
    b.set_cursor(pos(2), false);
    b.replay_log(&log);
    assert_eq!(b.string(), a.string());
    assert_eq!(b.styles(), a.styles());
    assert_eq!(b.cursor(), pos(2));
    assert_eq!(b.anchor(), pos(2));
}

#[test]
fn undo_each_edit_back_to_start() {
    let mut core = core_with("one two");
    core.add_style(Range { start: 0, end: 3 }, 1);
    core.add_style(Range { start: 4, end: 7 }, 2);
    core.set_cursor(pos(3), false);
    let before_styles = core.styles();
    core.insert_str(pos(3), "xyz").unwrap();
    core.remove_str_range(TextRange::new((1, 0), (5, 0))).unwrap();
    core.insert_char(pos(0), 'Q').unwrap();
    core.remove_char_range(TextRange::new((2, 0), (3, 0))).unwrap();
    for _ in 0..4 {
        assert_eq!(core.undo(), Ok(TextOutcome::TextChanged));
    }
    assert_eq!(core.string(), "one two");
    assert_eq!(core.cursor(), pos(3));
    assert_eq!(core.anchor(), pos(3));
    let mut after = core.styles();
    let mut before = before_styles.clone();
    after.sort_by_key(|p| (p.0.start, p.0.end, p.1));
    before.sort_by_key(|p| (p.0.start, p.0.end, p.1));
    assert_eq!(after, before);
    assert_eq!(core.undo(), Ok(TextOutcome::Continue));
}

#[test]
fn redo_after_full_undo_reproduces() {
    let mut core = core_with("abc def");
    core.add_style(Range { start: 1, end: 6 }, 3);
    core.insert_str(pos(7), "!!").unwrap();
    core.remove_str_range(TextRange::new((0, 0), (2, 0))).unwrap();
    core.insert_char(pos(1), 'Z').unwrap();
    let text = core.string();
    let cursor = core.cursor();
    let mut styles = core.styles();
    for _ in 0..3 {
        let _ = core.undo();
    }
    assert_eq!(core.string(), "abc def");
    for _ in 0..3 {
        assert_eq!(core.redo(), Ok(TextOutcome::TextChanged));
    }
    assert_eq!(core.redo(), Ok(TextOutcome::Continue));
    assert_eq!(core.string(), text);
    assert_eq!(core.cursor(), cursor);
    let mut again = core.styles();
    styles.sort_by_key(|p| (p.0.start, p.0.end, p.1));
    again.sort_by_key(|p| (p.0.start, p.0.end, p.1));
    assert_eq!(again, styles);
}

#[test]
fn new_edit_after_undo_drops_redo() {
    let mut core = core_with("ab");
    core.insert_char(pos(2), 'c').unwrap();
    let _ = core.undo();
    core.insert_char(pos(0), 'x').unwrap();
    assert_eq!(core.redo(), Ok(TextOutcome::Continue));
    assert_eq!(core.string(), "xab");
}

#[test]
fn straddling_style_grows_at_end() {
    let mut core = core_with("abcdef");
    core.add_style(Range { start: 1, end: 4 }, 1);
    core.add_style(Range { start: 3, end: 5 }, 2);
    core.add_style(Range { start: 0, end: 2 }, 3);
    core.insert_str(pos(3), "XY").unwrap();
    assert_eq!(
        core.styles(),
        vec![(Range { start: 1, end: 6 }, 1), (Range { start: 5, end: 7 }, 2), (Range { start: 0, end: 2 }, 3)]
    );
}

#[test]
fn removal_drops_inner_styles_and_shrinks_others() {
    let mut core = core_with("abcdefgh");
    core.add_style(Range { start: 3, end: 5 }, 1);
    core.add_style(Range { start: 1, end: 4 }, 2);
    core.add_style(Range { start: 6, end: 8 }, 3);
    core.add_style(Range { start: 0, end: 1 }, 4);
    core.remove_str_range(TextRange::new((2, 0), (6, 0))).unwrap();
    assert_eq!(core.string(), "abgh");
    assert_eq!(
        core.styles(),
        vec![(Range { start: 1, end: 2 }, 2), (Range { start: 2, end: 4 }, 3), (Range { start: 0, end: 1 }, 4)]
    );
    let _ = core.undo();
    let mut s = core.styles();
    s.sort_by_key(|p| p.1);
    assert_eq!(
        s,
        vec![
            (Range { start: 3, end: 5 }, 1),
            (Range { start: 1, end: 4 }, 2),
            (Range { start: 6, end: 8 }, 3),
            (Range { start: 0, end: 1 }, 4)
        ]
    );
}

#[test]
fn word_start_after_previous_word_end() {
    let core = core_with("foo   bar baz");
    let p = pos(6);
    let q = core.prev_word_end(p).unwrap();
    assert_eq!(q, pos(3));
    assert_eq!(core.next_word_start(q).unwrap(), p);
    assert_eq!(core.prev_word_start(p).unwrap(), pos(0));
    assert_eq!(core.next_word_end(pos(3)).unwrap(), pos(9));
    assert_eq!(core.word_start(pos(8)).unwrap(), pos(6));
    assert_eq!(core.word_end(pos(7)).unwrap(), pos(9));
    assert_eq!(core.is_word_boundary(pos(6)), Ok(true));
    assert_eq!(core.is_word_boundary(pos(7)), Ok(false));
}

#[test]
fn selection_ordered_either_way() {
    let mut core = core_with("hello world");
    core.set_cursor(pos(8), false);
    core.set_cursor(pos(2), true);
    let s = core.selection();
    assert_eq!(s.start, pos(2));
    assert_eq!(s.end, pos(8));
    core.set_cursor(pos(1), false);
    core.set_cursor(pos(9), true);
    let s = core.selection();
    assert_eq!(s.start, pos(1));
    assert_eq!(s.end, pos(9));
    assert!(core.has_selection());
}

#[test]
fn set_cursor_clamps_and_reports_change() {
    let mut core = core_with("abc");
    assert!(core.set_cursor(TextPosition::new(10, 4), false));
    assert_eq!(core.cursor(), pos(3));
    assert_eq!(core.anchor(), pos(3));
    assert!(!core.set_cursor(pos(3), false));
}

#[test]
fn set_text_caps_cursor_and_clears_styles() {
    let mut core = core_with("abcdef");
    core.set_cursor(pos(6), false);
    core.add_style(Range { start: 0, end: 2 }, 1);
    core.set_text(TextString::new_text("ab").unwrap());
    assert_eq!(core.cursor(), pos(2));
    assert!(core.styles().is_empty());
    assert_eq!(core.undo(), Ok(TextOutcome::Continue));
}

#[test]
fn out_of_bounds_positions_fail() {
    let mut core = core_with("abc");
    assert_eq!(core.insert_char(pos(4), 'x'), Err(rat_text::error::TextError::ColumnIndexOutOfBounds(4, 3)));
    assert_eq!(
        core.insert_str(TextPosition::new(0, 1), "x"),
        Err(rat_text::error::TextError::LineIndexOutOfBounds(1, 1))
    );
    assert_eq!(core.byte_pos(9), Err(rat_text::error::TextError::ByteIndexOutOfBounds(9, 3)));
    assert_eq!(core.line_width(2), Err(rat_text::error::TextError::LineIndexOutOfBounds(2, 1)));
    assert_eq!(core.string(), "abc");
}

#[test]
fn empty_range_removal_is_no_change() {
    let mut core = core_with("abc");
    assert_eq!(core.remove_str_range(TextRange::new((1, 0), (1, 0))), Ok(false));
    assert_eq!(core.undo(), Ok(TextOutcome::Continue));
}

#[test]
fn bytes_and_graphemes_agree() {
    let core = core_with("a\u{e9}\u{6f22}b");
    assert_eq!(core.byte_at(pos(0)), Ok(Range { start: 0, end: 1 }));
    assert_eq!(core.byte_at(pos(1)), Ok(Range { start: 1, end: 3 }));
    assert_eq!(core.byte_at(pos(2)), Ok(Range { start: 3, end: 6 }));
    assert_eq!(core.byte_at(pos(4)), Ok(Range { start: 7, end: 7 }));
    assert_eq!(core.byte_pos(4), Ok(pos(2)));
    assert_eq!(core.byte_pos(7), Ok(pos(4)));
    assert_eq!(core.bytes_at_range(TextRange::new((1, 0), (3, 0))), Ok(Range { start: 1, end: 6 }));
    let r = core.byte_range(Range { start: 2, end: 6 }).unwrap();
    assert_eq!(r.start, pos(1));
    assert_eq!(r.end, pos(3));
    assert_eq!(core.str_slice(TextRange::new((1, 0), (3, 0))).unwrap(), "\u{e9}\u{6f22}");
    let g = core.line_graphemes(0).unwrap();
    assert_eq!(g.len(), 4);
    assert_eq!(g[2].grapheme, "\u{6f22}");
    assert_eq!(g[2].text_bytes, Range { start: 3, end: 6 });
}

#[test]
fn expanded_tab_fills_to_stop_one_space_at_a_time() {
    let mut core = core_with("ab");
    core.set_tab_width(4);
    assert_eq!(core.insert_tab(pos(1)), Ok(true));
    assert_eq!(core.string(), "a   b");
    let _ = core.undo();
    assert_eq!(core.string(), "a  b");
    core.set_expand_tabs(false);
    core.insert_tab(pos(0)).unwrap();
    assert_eq!(core.string(), "\ta  b");
}

#[test]
fn newline_refused_by_single_line_text() {
    let mut core = core_with("ab");
    assert_eq!(core.insert_newline(pos(1)), Ok(false));
    assert_eq!(core.string(), "ab");
}

#[test]
fn remove_neighbour_characters() {
    let mut core = core_with("abc");
    assert_eq!(core.remove_prev_char(pos(0)), Ok(false));
    assert_eq!(core.remove_prev_char(pos(2)), Ok(true));
    assert_eq!(core.string(), "ac");
    assert_eq!(core.remove_next_char(pos(2)), Ok(false));
    assert_eq!(core.remove_next_char(pos(0)), Ok(true));
    assert_eq!(core.string(), "c");
}

#[test]
fn glyph_widths_for_tabs_and_control() {
    let mut core = core_with("a\tb\u{1}c");
    core.set_tab_width(4);
    let g = core.glyphs(Range { start: 0, end: 1 }, 0, 20).unwrap();
    assert_eq!(g.len(), 5);
    assert_eq!(g[1].screen_width, 3);
    assert_eq!(g[1].glyph, " ");
    assert_eq!(g[2].screen_pos, (4, 0));
    assert_eq!(g[3].screen_width, 0);
    assert_eq!(g[3].glyph, "");
    assert_eq!(g[4].screen_pos, (5, 0));
    core.set_show_ctrl(true);
    let g = core.glyphs(Range { start: 0, end: 1 }, 0, 20).unwrap();
    assert_eq!(g[3].screen_width, 1);
    assert_eq!(g[3].glyph, "\u{2401}");
    assert_eq!(g[1].glyph, "\u{2409}");
    let w = core.glyphs(Range { start: 0, end: 1 }, 4, 2).unwrap();
    assert_eq!(w.len(), 2);
    assert_eq!(w[0].pos, pos(2));
    assert_eq!(w[0].screen_pos, (0, 0));
}

#[test]
fn replay_of_new_text_clears_styles() {
    let mut a = core_with("first");
    a.set_undo_modes(false, true);
    a.set_text(TextString::new_text("second").unwrap());
    let log = a.recent_replay_log();
    let mut b = core_with("other");
    b.add_style(Range { start: 0, end: 2 }, 9);
    b.replay_log(&log);
    assert_eq!(b.string(), "second");
    assert!(b.styles().is_empty());
}

#[test]
fn style_queries() {
    let mut core = core_with("abcdef");
    core.add_style(Range { start: 1, end: 4 }, 7);
    core.add_style(Range { start: 2, end: 3 }, 8);
    assert_eq!(core.style_match(2, 7), Some(Range { start: 1, end: 4 }));
    assert_eq!(core.style_match(5, 7), None);
    let mut buf = Vec::new();
    core.styles_at(2, &mut buf);
    assert_eq!(buf, vec![7, 8]);
    core.remove_style(Range { start: 1, end: 4 }, 7);
    core.remove_style(Range { start: 1, end: 4 }, 7);
    assert_eq!(core.styles(), vec![(Range { start: 2, end: 3 }, 8)]);
}

#[test]
fn style_only_edits_undo_when_recorded() {
    let mut core = core_with("abc");
    core.set_undo_modes(true, false);
    core.add_style(Range { start: 0, end: 2 }, 1);
    assert_eq!(core.undo(), Ok(TextOutcome::Changed));
    assert!(core.styles().is_empty());
    assert_eq!(core.redo(), Ok(TextOutcome::Changed));
    assert_eq!(core.styles(), vec![(Range { start: 0, end: 2 }, 1)]);
    core.set_styles(vec![(Range { start: 1, end: 3 }, 4)]);
    let _ = core.undo();
    assert_eq!(core.styles(), vec![(Range { start: 0, end: 2 }, 1)]);
}

#[test]
fn glyph_widths_follow_display_width() {
    let core = core_with("\u{6f22}e\u{301}x\u{85}y");
    let g = core.glyphs(Range { start: 0, end: 1 }, 0, 20).unwrap();
    assert_eq!(g.len(), 6);
    assert_eq!(g[0].screen_width, 2);
    assert_eq!(g[1].screen_pos, (2, 0));
    assert_eq!(g[2].screen_width, 0);
    assert_eq!(g[3].screen_pos, (3, 0));
    assert_eq!(g[4].screen_width, 0);
    assert_eq!(g[4].glyph, "");
    assert_eq!(g[5].screen_pos, (4, 0));
    let mut shown = core_with("\u{85}");
    shown.set_show_ctrl(true);
    let g = shown.glyphs(Range { start: 0, end: 1 }, 0, 5).unwrap();
    assert_eq!(g[0].glyph, "\u{fffd}");
    assert_eq!(g[0].screen_width, 1);
}

#[test]
fn removal_shrinks_cursor_and_anchor_each() {
    let mut core = core_with("abcdef");
    core.set_cursor(pos(1), false);
    core.set_cursor(pos(5), true);
    core.remove_str_range(TextRange::new((2, 0), (4, 0))).unwrap();
    assert_eq!(core.string(), "abef");
    assert_eq!(core.anchor(), pos(1));
    assert_eq!(core.cursor(), pos(3));
    let _ = core.undo();
    assert_eq!(core.anchor(), pos(1));
    assert_eq!(core.cursor(), pos(5));
}

#[test]
fn punctuation_breaks_words() {
    let core = core_with("foo.bar, baz");
    assert_eq!(core.next_word_end(pos(0)).unwrap(), pos(3));
    assert_eq!(core.next_word_start(pos(3)).unwrap(), pos(4));
    assert_eq!(core.prev_word_end(pos(9)).unwrap(), pos(7));
    assert_eq!(core.prev_word_start(pos(7)).unwrap(), pos(4));
    assert_eq!(core.is_word_boundary(pos(3)), Ok(true));
}

#[test]
fn replay_leaves_cursor_past_shorter_text() {
    let mut a = core_with("ab");
    a.set_undo_modes(false, true);
    a.recent_replay_log();
    a.remove_str_range(TextRange::new((0, 0), (2, 0))).unwrap();
    let log = a.recent_replay_log();
    let mut b = core_with("ab");
    b.set_cursor(pos(2), false);
    b.replay_log(&log);
    assert_eq!(b.string(), "");
    assert_eq!(b.cursor(), pos(2));
    assert_eq!(b.anchor(), pos(2));
    assert_eq!(b.insert_char(b.cursor(), 'x'), Err(rat_text::error::TextError::ColumnIndexOutOfBounds(2, 0)));
    assert_eq!(b.insert_char(pos(0), 'x'), Ok(true));
    assert_eq!(b.cursor(), pos(1));
}

#[test]
fn replay_skips_entries_that_do_not_fit() {
    let mut a = core_with("abcdef");
    a.set_undo_modes(false, true);
    a.recent_replay_log();
    a.remove_str_range(TextRange::new((4, 0), (6, 0))).unwrap();
    let log = a.recent_replay_log();
    let mut b = core_with("ab");
    b.replay_log(&log);
    assert_eq!(b.string(), "ab");
    assert_eq!(b.undo(), Ok(TextOutcome::Continue));
}

#[test]
fn replayed_set_text_keeps_cursor() {
    let mut a = core_with("ab");
    a.set_undo_modes(false, true);
    a.set_text(TextString::new_text("").unwrap());
    let log = a.recent_replay_log();
    let mut b = core_with("ab");
    b.set_cursor(pos(2), false);
    b.replay_log(&log);
    assert_eq!(b.string(), "");
    assert_eq!(b.cursor(), pos(2));
    assert_eq!(b.undo(), Ok(TextOutcome::Continue));
}

#[test]
fn removing_absent_style_records_nothing() {
    let mut core = TextCore::new();
    core.set_undo_modes(true, false);
    assert!(!core.remove_style(Range { start: 0, end: 1 }, 5));
    assert_eq!(core.undo(), Ok(TextOutcome::Continue));
    assert!(core.styles().is_empty());
    assert!(!core.remove_style(Range { start: 3, end: 1 }, 5));
    assert_eq!(core.undo(), Ok(TextOutcome::Continue));
    core.add_style(Range { start: 0, end: 1 }, 5);
    assert!(core.remove_style(Range { start: 0, end: 1 }, 5));
    assert_eq!(core.undo(), Ok(TextOutcome::Changed));
    assert_eq!(core.styles(), vec![(Range { start: 0, end: 1 }, 5)]);
}

#[test]
fn empty_insert_is_no_change() {
    let mut core = core_with("ab");
    assert_eq!(core.insert_str(pos(1), ""), Ok(false));
    assert_eq!(core.undo(), Ok(TextOutcome::Continue));
    assert_eq!(core.insert_str(pos(3), ""), Err(rat_text::error::TextError::ColumnIndexOutOfBounds(3, 2)));
}

#[test]
fn zero_tab_width_inserts_nothing() {
    let mut core = core_with("ab");
    core.set_tab_width(0);
    assert_eq!(core.insert_tab(pos(1)), Ok(false));
    assert_eq!(core.string(), "ab");
    assert_eq!(core.undo(), Ok(TextOutcome::Continue));
}

#[test]
fn undo_restores_cursor_past_end_after_replay() {
    let mut a = core_with("abcd");
    a.set_undo_modes(false, true);
    a.recent_replay_log();
    a.remove_str_range(TextRange::new((0, 0), (4, 0))).unwrap();
    let log = a.recent_replay_log();
    let mut b = core_with("abcd");
    b.set_cursor(pos(3), false);
    b.replay_log(&log);
    assert_eq!(b.cursor(), pos(3));
    b.insert_str(pos(0), "xy").unwrap();
    assert_eq!(b.cursor(), pos(2));
    assert_eq!(b.undo(), Ok(TextOutcome::TextChanged));
    assert_eq!(b.string(), "");
    assert_eq!(b.cursor(), pos(3));
}

#[test]
fn empty_styles_come_back_after_undo() {
    let mut core = core_with("abcd");
    core.add_style(Range { start: 1, end: 1 }, 1);
    core.add_style(Range { start: 3, end: 3 }, 2);
    core.add_style(Range { start: 2, end: 2 }, 3);
    core.remove_str_range(TextRange::new((1, 0), (3, 0))).unwrap();
    assert_eq!(core.styles(), vec![(Range { start: 1, end: 1 }, 2)]);
    let _ = core.undo();
    let mut s = core.styles();
    s.sort_by_key(|p| p.1);
    assert_eq!(
        s,
        vec![(Range { start: 1, end: 1 }, 1), (Range { start: 3, end: 3 }, 2), (Range { start: 2, end: 2 }, 3)]
    );
}
