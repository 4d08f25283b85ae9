use rat_text::text_input::{ScreenArea, TextInputState};

fn input_with(text: &str) -> TextInputState {
    let mut s = TextInputState::new();
    assert!(s.set_text(text));
    s
}

#[test]
fn delete_next_word_then_undo() {
    let mut s = input_with("hello world");
    s.set_cursor(6, false);
    assert!(s.delete_next_word());
    assert_eq!(s.text(), "hello ");
    assert!(s.undo());
    assert_eq!(s.text(), "hello world");
    assert_eq!(s.cursor(), 6);
}

#[test]
fn delete_next_word_skips_space_first() {
    let mut s = input_with("ab   cd");
    s.set_cursor(2, false);
    assert!(s.delete_next_word());
    assert_eq!(s.text(), "abcd");
}

#[test]
fn delete_prev_word_removes_word_before() {
    let mut s = input_with("one two");
    s.set_cursor(7, false);
    assert!(s.delete_prev_word());
    assert_eq!(s.text(), "one ");
    assert!(s.delete_prev_word());
    assert_eq!(s.text(), "one");
    assert!(s.delete_prev_word());
    assert_eq!(s.text(), "");
    assert!(!s.delete_prev_word());
}

#[test]
fn typing_replaces_selection() {
    let mut s = input_with("abcdef");
    s.set_selection(4, 1);
    assert_eq!(s.selected_text(), "bcd");
    assert!(s.insert_char('X'));
    assert_eq!(s.text(), "aXef");
    assert_eq!(s.cursor(), 2);
    assert!(!s.insert_char('\n'));
}

#[test]
fn clipboard_copy_cut_paste() {
    let mut s = input_with("hello");
    s.set_selection(0, 2);
    assert!(s.copy_to_clip());
    assert!(s.cut_to_clip());
    assert_eq!(s.text(), "llo");
    s.set_cursor(3, false);
    assert!(s.paste_from_clip());
    assert_eq!(s.text(), "llohe");
}

#[test]
fn moves_and_scrolling() {
    let mut s = input_with("abcdefghij");
    s.inner = ScreenArea { x: 2, y: 1, width: 4, height: 1 };
    s.focused = true;
    s.move_to_line_end(false);
    assert_eq!(s.cursor(), 10);
    assert_eq!(s.offset(), 6);
    s.move_left(false);
    assert_eq!(s.cursor(), 9);
    s.move_to_line_start(true);
    assert_eq!(s.cursor(), 0);
    assert_eq!(s.anchor(), 9);
    assert_eq!(s.offset(), 0);
    s.move_right(false);
    assert_eq!(s.cursor(), 1);
    assert_eq!(s.screen_cursor(), Some((3, 1)));
    assert_eq!(s.screen_to_col(2), 2);
    assert_eq!(s.screen_to_col(-3), 0);
    assert_eq!(s.screen_to_col(9), 9);
    assert_eq!(s.col_to_screen(3), Ok(3));
}

#[test]
fn word_moves() {
    let mut s = input_with("ab cd ef");
    s.set_cursor(0, false);
    s.move_to_next_word(false);
    assert_eq!(s.cursor(), 2);
    s.move_to_next_word(false);
    assert_eq!(s.cursor(), 5);
    s.move_to_prev_word(false);
    assert_eq!(s.cursor(), 3);
}

#[test]
fn range_styles_by_column() {
    let mut s = input_with("a\u{e9}c");
    assert!(s.add_range_style(1..3, 4).is_ok());
    assert_eq!(s.styles(), vec![(1..4, 4)]);
    assert!(s.add_range_style(1..9, 4).is_err());
    assert!(s.remove_range_style(1..3, 4).is_ok());
    assert!(s.styles().is_empty());
}

#[test]
fn clear_resets() {
    let mut s = input_with("abc");
    assert!(s.clear());
    assert!(s.is_empty());
    assert!(!s.clear());
}

#[test]
fn typing_nothing_reports_selection_removal() {
    let mut s = input_with("abc");
    assert!(!s.insert_str(""));
    s.set_selection(0, 2);
    assert!(s.insert_str(""));
    assert_eq!(s.text(), "c");
}
