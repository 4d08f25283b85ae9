//! State of a single-line text input: the editing core plus scrolling and
//! the operations that keyboard and mouse handling call.

use crate::error::TextError;
use crate::grapheme::{
    Glyph, GlyphView, glyph_ok, is_next_word_end, is_next_word_start, is_prev_word_end,
    is_prev_word_start, visible_upto,
};
use crate::range_map::{entry_of, first_match, remove_first, tags_at};
use crate::undo_buffer::{EntryView, UndoEntry, entries_view, styles_view};
use crate::text_core::{
    remove_style_spec, clear_spec, insert_spaces, logged_style, replay_all, set_text_spec, spaces, tab_spaces,
};
use crate::grapheme::{Grapheme, grapheme_ok, is_word_end, is_word_start, word_boundary};
use crate::text_store::bytes_len;
use std::ops::Range;
use crate::position::{TextPosition, TextRange, ordered_range, upos_type};
use crate::text_core::{
    CoreView, TextCore, TextOutcome, clamp_pos, insert_error, insert_spec, redo_spec, remove_spec,
    undo_spec,
};
use crate::text_store::{TextString, byte_off, range_error, text_fits};
use vstd::prelude::*;

verus! {

/// Screen area inside the widget's border.
#[derive(Clone, Copy, Debug, PartialEq, Eq, Structural)]
pub struct ScreenArea {
    pub x: u16,
    pub y: u16,
    pub width: u16,
    pub height: u16,
}

/// State of a text input.
#[derive(Debug)]
pub struct TextInputState {
    /// Editing core.
    pub value: TextCore,
    /// Display as invalid.
    pub invalid: bool,
    /// First column shown.
    pub offset: upos_type,
    /// Area inside a possible border.
    pub inner: ScreenArea,
    /// The widget has the input focus.
    pub focused: bool,
}

/// The selection lies in the text; a replay may have left cursor or anchor
/// past its end.
pub open spec fn selection_ok(v: CoreView) -> bool {
    range_error(v.text, ordered_range(v.anchor, v.cursor)).is_none()
}

/// The selected text, or nothing where the selection is not in the text.
pub open spec fn selected(v: CoreView) -> Seq<char> {
    if selection_ok(v) {
        v.text.subrange(
            ordered_range(v.anchor, v.cursor).start.x as int,
            ordered_range(v.anchor, v.cursor).end.x as int,
        )
    } else {
        Seq::empty()
    }
}

/// The state after the selection, if any, was removed.
pub open spec fn without_selection(v: CoreView) -> CoreView {
    if v.anchor != v.cursor && selection_ok(v) {
        remove_spec(v, ordered_range(v.anchor, v.cursor), false)
    } else {
        v
    }
}

/// The offset that shows column `c` in a window of `w` columns that now
/// starts at `o`: unchanged where `c` is visible, else just enough to show it.
pub open spec fn visible_offset(c: int, o: int, w: int) -> int {
    if c < o {
        c
    } else if c >= o + w {
        if c >= w {
            c - w
        } else {
            0
        }
    } else {
        o
    }
}

/// `e` is where deleting the next word from column `c` stops: the next
/// word start, or where `c` is one, the end of that word.
pub open spec fn next_word_cut(t: Seq<char>, c: int, e: int) -> bool {
    (is_next_word_start(t, c, e) && e != c) || (is_next_word_start(t, c, c) && is_next_word_end(
        t,
        c,
        e,
    ))
}

/// `b` is where deleting the previous word up to column `c` starts: the
/// previous word end, or where that is `c`, the previous word start.
pub open spec fn prev_word_cut(t: Seq<char>, c: int, b: int) -> bool {
    (is_prev_word_end(t, c, b) && b != c) || (is_prev_word_end(t, c, c) && is_prev_word_start(
        t,
        c,
        b,
    ))
}

/// The state after setting the cursor to column `x`, capped.
pub open spec fn moved(v: CoreView, x: int, extend_selection: bool) -> CoreView {
    let c = clamp_pos(v.text, TextPosition { x: x as u32, y: 0 });
    CoreView {
        cursor: c,
        anchor: if extend_selection {
            v.anchor
        } else {
            c
        },
        ..v
    }
}

/// The column under screen column `scx` among the glyphs `gs`: that of the
/// first glyph whose cells reach past `scx`, else that of the last glyph,
/// else `col`.
pub open spec fn pick_col(gs: Seq<GlyphView>, scx: int, col: u32) -> u32
    decreases gs.len(),
{
    if gs.len() == 0 {
        col
    } else if scx < gs[0].3.0 + gs[0].4 {
        gs[0].2.x
    } else {
        pick_col(gs.drop_first(), scx, gs[0].2.x)
    }
}

/// The screen column after the glyphs `gs` up to the one for column `pos`:
/// the right edge of the glyph before it, or `x` where there is none.
pub open spec fn screen_of(gs: Seq<GlyphView>, pos: u32, x: int) -> int
    decreases gs.len(),
{
    if gs.len() == 0 || gs[0].2.x == pos {
        x
    } else {
        screen_of(gs.drop_first(), pos, gs[0].3.0 + gs[0].4)
    }
}

/// `gs` are the glyphs of row 0 shown from screen column `offset` in a
/// window `width` columns wide.
pub open spec fn glyphs_of(v: CoreView, gs: Seq<GlyphView>, offset: nat, width: nat) -> bool {
    let vis = visible_upto(v.text, v.text.len() as int, v.tabs, v.show_ctrl, offset, width);
    &&& gs.len() == vis.len()
    &&& forall|k: int| 0 <= k < vis.len() ==> glyph_ok(#[trigger] gs[k], v.text, vis[k], v.tabs, v.show_ctrl, offset)
}

/// `w` is `v` with a tab typed at the cursor, and `r` says whether anything
/// changed, counting a selection removed before: expanded to spaces up to
/// the next tab stop, or a tab character.
pub open spec fn tab_inserted(v: CoreView, w: CoreView, r: bool, removed: bool) -> bool {
    let payload = if v.expand_tabs {
        spaces(tab_spaces(v, v.cursor))
    } else {
        seq!['\t']
    };
    match insert_error(v, v.cursor, payload) {
        Some(_) => r == removed && w == v,
        None => r == (removed || payload.len() > 0) && w == (if v.expand_tabs {
            insert_spaces(v, v.cursor, tab_spaces(v, v.cursor))
        } else {
            insert_spec(v, v.cursor, seq!['\t'], true)
        }),
    }
}

/// `w` is `v` with the text `t` typed at the cursor in place of the
/// selection, and `r` says whether anything changed. `char_level` says
/// how the insert is recorded.
pub open spec fn typed(v: CoreView, t: Seq<char>, char_level: bool, w: CoreView, r: bool) -> bool {
    let ws = without_selection(v);
    let removed = selection_removed(v);
    match insert_error(ws, ws.cursor, t) {
        None => if t.len() == 0 {
            r == removed && w == ws
        } else {
            r && w == insert_spec(ws, ws.cursor, t, char_level)
        },
        Some(_) => r == removed && w == ws,
    }
}

/// Typing removes the selection: there is one, and it lies in the text.
pub open spec fn selection_removed(v: CoreView) -> bool {
    v.anchor != v.cursor && selection_ok(v)
}

/// `r` is the column under screen column `scx` of a window `width` columns
/// wide whose first column is `offset`: left of the window the offset moves
/// back by as much, right of it the column is capped to the text, inside it
/// the glyphs decide.
pub open spec fn screen_col_ok(v: CoreView, offset: u32, width: u16, scx: i16, r: u32) -> bool {
    &&& scx < 0 ==> r == (if offset as int + scx as int >= 0 {
        offset + scx
    } else {
        0
    })
    &&& scx >= 0 && scx >= width ==> r == (if offset + scx <= v.text.len() {
        offset + scx
    } else {
        v.text.len() as int
    })
    &&& 0 <= scx < width ==> exists|gs: Seq<GlyphView>|
        #[trigger] glyphs_of(v, gs, (offset % 0x10000) as nat, width as nat) && r == pick_col(
            gs,
            scx as int,
            offset,
        )
}

/// `r` is the screen column of text column `pos` in a window whose first
/// column is `offset`: 0 left of it, else the right edge of the glyph before.
pub open spec fn screen_x_ok(v: CoreView, offset: u32, width: u16, pos: u32, r: u16) -> bool {
    &&& pos < offset ==> r == 0
    &&& pos >= offset ==> exists|gs: Seq<GlyphView>|
        #[trigger] glyphs_of(v, gs, (offset % 0x10000) as nat, width as nat) && r == screen_of(
            gs,
            pos,
            0,
        ) % 0x10000
}

/// A range of columns on the single row.
pub open spec fn col_range(start: upos_type, end: upos_type) -> TextRange {
    TextRange { start: TextPosition { x: start, y: 0 }, end: TextPosition { x: end, y: 0 } }
}

impl TextInputState {
    pub open spec fn wf(&self) -> bool {
        self.value.wf()
    }

    /// Empty input, with an undo log of 99 entries.
    pub fn new() -> (r: TextInputState)
        ensures
            r.wf(),
            r.value@ == (CoreView {
                undo: Some(
                    crate::undo_buffer::UndoView {
                        entries: Seq::empty(),
                        idx: 0,
                        replay: Seq::empty(),
                        capacity: 99,
                        undo_styles: false,
                        track_replay: false,
                    },
                ),
                ..TextCore::new_view()
            }),
            !r.invalid,
            r.offset == 0,
            !r.focused,
    {
        let mut value = TextCore::new();
        value.set_undo_buffer(Some(crate::undo_buffer::UndoVec::new(99)));
        TextInputState {
            value,
            invalid: false,
            offset: 0,
            inner: ScreenArea { x: 0, y: 0, width: 0, height: 0 },
            focused: false,
        }
    }

    /// Show as invalid.
    pub fn set_invalid(&mut self, invalid: bool)
        ensures
            final(self).invalid == invalid,
            final(self).value == old(self).value,
            final(self).offset == old(self).offset,
    {
        self.invalid = invalid;
    }

    /// Shown as invalid.
    pub fn get_invalid(&self) -> (r: bool)
        ensures
            r == self.invalid,
    {
        self.invalid
    }

    /// First column shown.
    pub fn offset(&self) -> (r: upos_type)
        ensures
            r == self.offset,
    {
        self.offset
    }

    /// Set the first column shown.
    pub fn set_offset(&mut self, offset: upos_type)
        ensures
            final(self).offset == offset,
            final(self).value == old(self).value,
    {
        self.offset = offset;
    }

    /// Cursor column.
    pub fn cursor(&self) -> (r: upos_type)
        ensures
            r == self.value@.cursor.x,
    {
        self.value.cursor().x
    }

    /// Anchor column.
    pub fn anchor(&self) -> (r: upos_type)
        ensures
            r == self.value@.anchor.x,
    {
        self.value.anchor().x
    }

    /// Set the cursor, capped to the text. Returns whether it changed.
    pub fn set_cursor(&mut self, cursor: upos_type, extend_selection: bool) -> (r: bool)
        requires
            old(self).wf(),
        ensures
            final(self).wf(),
            final(self).value@ == (CoreView {
                cursor: clamp_pos(old(self).value@.text, TextPosition { x: cursor, y: 0 }),
                anchor: if extend_selection {
                    old(self).value@.anchor
                } else {
                    clamp_pos(old(self).value@.text, TextPosition { x: cursor, y: 0 })
                },
                ..old(self).value@
            }),
            final(self).offset == old(self).offset,
    {
        self.value.set_cursor(TextPosition::new(cursor, 0), extend_selection)
    }

    /// Anything selected.
    pub fn has_selection(&self) -> (r: bool)
        ensures
            r == (self.value@.anchor != self.value@.cursor),
    {
        self.value.has_selection()
    }

    /// The selected columns, in order.
    pub fn selection(&self) -> (r: std::ops::Range<upos_type>)
        ensures
            r.start == ordered_range(self.value@.anchor, self.value@.cursor).start.x,
            r.end == ordered_range(self.value@.anchor, self.value@.cursor).end.x,
    {
        let s = self.value.selection();
        std::ops::Range { start: s.start.x, end: s.end.x }
    }

    /// The text.
    pub fn text(&self) -> (r: String)
        ensures
            r@ == self.value@.text,
    {
        self.value.string()
    }

    /// Length in graphemes.
    pub fn len(&self) -> (r: upos_type)
        requires
            self.wf(),
        ensures
            r == self.value@.text.len(),
    {
        match self.value.line_width(0) {
            Ok(w) => w,
            Err(_) => 0,
        }
    }

    /// Nothing entered.
    pub fn is_empty(&self) -> (r: bool)
        ensures
            r == (self.value@.text.len() == 0),
    {
        self.value.is_empty()
    }

    /// Replace the text; false where it is too long to hold.
    pub fn set_text(&mut self, s: &str) -> (r: bool)
        requires
            old(self).wf(),
        ensures
            final(self).wf(),
            r == text_fits(s@),
            r ==> final(self).value@ == set_text_spec(old(self).value@, s@) && final(self).offset == 0,
            !r ==> final(self).value@ == old(self).value@,
    {
        match TextString::new_text(s) {
            Ok(t) => {
                self.offset = 0;
                self.value.set_text(t);
                true
            },
            Err(_) => false,
        }
    }

    /// Make the cursor visible by moving the offset. Returns whether the
    /// offset changed.
    pub fn scroll_cursor_to_visible(&mut self) -> (r: bool)
        ensures
            final(self).offset == visible_offset(
                old(self).value@.cursor.x as int,
                old(self).offset as int,
                old(self).inner.width as int,
            ),
            final(self).value == old(self).value,
            final(self).inner == old(self).inner,
            r == (final(self).offset != old(self).offset),
    {
        let old_offset = self.offset;
        let c = self.value.cursor().x;
        let o = self.offset;
        let w = self.inner.width as u32;
        let no = if c < o {
            c
        } else if c as u64 >= o as u64 + w as u64 {
            if c >= w {
                c - w
            } else {
                0
            }
        } else {
            o
        };
        self.offset = no;
        self.offset != old_offset
    }

    /// Delete a range of columns; an empty one is no change.
    pub fn delete_range(&mut self, range: std::ops::Range<upos_type>) -> (r: Result<bool, TextError>)
        requires
            old(self).wf(),
            range.start <= range.end,
        ensures
            final(self).wf(),
            range.start == range.end ==> r == Ok::<bool, TextError>(false) && final(self).value@
                == old(self).value@,
            range.start < range.end ==> match range_error(
                old(self).value@.text,
                col_range(range.start, range.end),
            ) {
                Some(e) => r == Err::<bool, TextError>(e) && final(self).value@ == old(self).value@,
                None => r == Ok::<bool, TextError>(true) && final(self).value@ == remove_spec(
                    old(self).value@,
                    col_range(range.start, range.end),
                    false,
                ),
            },
    {
        if range.start < range.end {
            match self.value.remove_str_range(TextRange::new((range.start, 0), (range.end, 0))) {
                Ok(_) => {},
                Err(e) => return Err(e),
            }
            self.scroll_cursor_to_visible();
            Ok(true)
        } else {
            Ok(false)
        }
    }

    /// Remove the selection, if any.
    fn remove_selection(&mut self) -> (r: bool)
        requires
            old(self).wf(),
        ensures
            final(self).wf(),
            final(self).value@ == without_selection(old(self).value@),
            r == selection_removed(old(self).value@),
            final(self).offset == old(self).offset,
            final(self).inner == old(self).inner,
    {
        if self.value.has_selection() {
            let s = self.value.selection();
            match self.value.remove_str_range(s) {
                Ok(b) => b,
                Err(_) => false,
            }
        } else {
            false
        }
    }

    /// Insert a string at the cursor, in place of the selection.
    pub fn insert_str(&mut self, t: &str) -> (r: bool)
        requires
            old(self).wf(),
        ensures
            final(self).wf(),
            typed(old(self).value@, t@, false, final(self).value@, r),
    {
        let removed = self.remove_selection();
        let c = self.value.cursor();
        let inserted = match self.value.insert_str(c, t) {
            Ok(b) => b,
            Err(_) => false,
        };
        self.scroll_cursor_to_visible();
        removed || inserted
    }

    /// Type a character at the cursor, in place of the selection. A line
    /// break is refused; a tab goes through `insert_tab`.
    pub fn insert_char(&mut self, c: char) -> (r: bool)
        requires
            old(self).wf(),
        ensures
            final(self).wf(),
            c == '\n' ==> !r && final(self).value@ == without_selection(old(self).value@),
            c == '\t' ==> tab_inserted(
                without_selection(old(self).value@),
                final(self).value@,
                r,
                selection_removed(old(self).value@),
            ),
            c != '\n' && c != '\t' ==> typed(old(self).value@, seq![c], true, final(self).value@, r),
    {
        let removed = self.remove_selection();
        if c == '\n' {
            return false;
        }
        let p = self.value.cursor();
        let inserted = if c == '\t' {
            match self.value.insert_tab(p) {
                Ok(b) => b,
                Err(_) => false,
            }
        } else {
            match self.value.insert_char(p, c) {
                Ok(b) => b,
                Err(_) => false,
            }
        };
        self.scroll_cursor_to_visible();
        removed || inserted
    }

    /// Insert a tab at the cursor, in place of the selection.
    pub fn insert_tab(&mut self) -> (r: bool)
        requires
            old(self).wf(),
        ensures
            final(self).wf(),
            tab_inserted(
                without_selection(old(self).value@),
                final(self).value@,
                r,
                selection_removed(old(self).value@),
            ),
    {
        let removed = self.remove_selection();
        let p = self.value.cursor();
        let inserted = match self.value.insert_tab(p) {
            Ok(b) => b,
            Err(_) => false,
        };
        self.scroll_cursor_to_visible();
        removed || inserted
    }

    /// Delete the grapheme after the cursor, or the selection.
    pub fn delete_next_char(&mut self) -> (r: bool)
        requires
            old(self).wf(),
        ensures
            final(self).wf(),
            old(self).value@.anchor != old(self).value@.cursor ==> r == selection_ok(old(self).value@)
                && final(self).value@ == without_selection(old(self).value@),
            old(self).value@.anchor == old(self).value@.cursor && old(self).value@.cursor.x > old(
                self,
            ).value@.text.len() ==> final(self).value@ == old(self).value@,
            old(self).value@.anchor == old(self).value@.cursor && old(self).value@.cursor.x < old(
                self,
            ).value@.text.len() ==> final(self).value@ == remove_spec(
                old(self).value@,
                col_range(old(self).value@.cursor.x, (old(self).value@.cursor.x + 1) as u32),
                true,
            ),
            old(self).value@.anchor == old(self).value@.cursor && old(self).value@.cursor.x == old(
                self,
            ).value@.text.len() ==> final(self).value@ == old(self).value@,
    {
        if self.value.has_selection() {
            let s = self.selection();
            match self.delete_range(s) {
                Ok(b) => b,
                Err(_) => false,
            }
        } else {
            let r = match self.value.remove_next_char(self.value.cursor()) {
                Ok(b) => b,
                Err(_) => false,
            };
            let s = self.scroll_cursor_to_visible();
            r || s
        }
    }

    /// Delete the grapheme before the cursor, or the selection.
    pub fn delete_prev_char(&mut self) -> (r: bool)
        requires
            old(self).wf(),
        ensures
            final(self).wf(),
            old(self).value@.anchor != old(self).value@.cursor ==> r == selection_ok(old(self).value@)
                && final(self).value@ == without_selection(old(self).value@),
            old(self).value@.anchor == old(self).value@.cursor && old(self).value@.cursor.x > old(
                self,
            ).value@.text.len() ==> final(self).value@ == old(self).value@,
            old(self).value@.anchor == old(self).value@.cursor && 0 < old(self).value@.cursor.x
                <= old(self).value@.text.len() ==> final(self).value@ == remove_spec(
                old(self).value@,
                col_range((old(self).value@.cursor.x - 1) as u32, old(self).value@.cursor.x),
                true,
            ),
            old(self).value@.anchor == old(self).value@.cursor && old(self).value@.cursor.x == 0
                ==> final(self).value@ == old(self).value@,
    {
        if self.value.has_selection() {
            let s = self.selection();
            match self.delete_range(s) {
                Ok(b) => b,
                Err(_) => false,
            }
        } else {
            let r = match self.value.remove_prev_char(self.value.cursor()) {
                Ok(b) => b,
                Err(_) => false,
            };
            let s = self.scroll_cursor_to_visible();
            r || s
        }
    }

    /// Start of the next word from column `pos` on.
    pub fn next_word_start(&self, pos: upos_type) -> (r: Result<upos_type, TextError>)
        requires
            self.wf(),
        ensures
            pos <= self.value@.text.len() ==> r.is_ok() && is_next_word_start(
                self.value@.text,
                pos as int,
                r.unwrap() as int,
            ),
            pos > self.value@.text.len() ==> r.is_err(),
    {
        match self.value.next_word_start(TextPosition::new(pos, 0)) {
            Ok(p) => Ok(p.x),
            Err(e) => Err(e),
        }
    }

    /// End of the next word from column `pos` on.
    pub fn next_word_end(&self, pos: upos_type) -> (r: Result<upos_type, TextError>)
        requires
            self.wf(),
        ensures
            pos <= self.value@.text.len() ==> r.is_ok() && is_next_word_end(
                self.value@.text,
                pos as int,
                r.unwrap() as int,
            ),
            pos > self.value@.text.len() ==> r.is_err(),
    {
        match self.value.next_word_end(TextPosition::new(pos, 0)) {
            Ok(p) => Ok(p.x),
            Err(e) => Err(e),
        }
    }

    /// Start of the previous word before column `pos`.
    pub fn prev_word_start(&self, pos: upos_type) -> (r: Result<upos_type, TextError>)
        requires
            self.wf(),
        ensures
            pos <= self.value@.text.len() ==> r.is_ok() && is_prev_word_start(
                self.value@.text,
                pos as int,
                r.unwrap() as int,
            ),
            pos > self.value@.text.len() ==> r.is_err(),
    {
        match self.value.prev_word_start(TextPosition::new(pos, 0)) {
            Ok(p) => Ok(p.x),
            Err(e) => Err(e),
        }
    }

    /// End of the previous word before column `pos`.
    pub fn prev_word_end(&self, pos: upos_type) -> (r: Result<upos_type, TextError>)
        requires
            self.wf(),
        ensures
            pos <= self.value@.text.len() ==> r.is_ok() && is_prev_word_end(
                self.value@.text,
                pos as int,
                r.unwrap() as int,
            ),
            pos > self.value@.text.len() ==> r.is_err(),
    {
        match self.value.prev_word_end(TextPosition::new(pos, 0)) {
            Ok(p) => Ok(p.x),
            Err(e) => Err(e),
        }
    }

    /// Delete the selection; else from the cursor to the next word start,
    /// or where the cursor is at a word start, to the end of that word.
    pub fn delete_next_word(&mut self) -> (r: bool)
        requires
            old(self).wf(),
        ensures
            final(self).wf(),
            old(self).value@.anchor != old(self).value@.cursor ==> r == selection_ok(old(self).value@)
                && final(self).value@ == without_selection(old(self).value@),
            old(self).value@.anchor == old(self).value@.cursor && old(self).value@.cursor.x > old(
                self,
            ).value@.text.len() ==> final(self).value@ == old(self).value@,
            old(self).value@.anchor == old(self).value@.cursor && old(self).value@.cursor.x <= old(
                self,
            ).value@.text.len() ==> exists|e: int|
                {
                    let c = old(self).value@.cursor.x as int;
                    let t = old(self).value@.text;
                    &&& #[trigger] next_word_cut(old(self).value@.text, old(self).value@.cursor.x as int, e)
                    &&& (e == c ==> !r && final(self).value@ == old(self).value@)
                    &&& (e != c ==> r && final(self).value@ == remove_spec(
                        old(self).value@,
                        col_range(c as u32, e as u32),
                        false,
                    ))
                },
    {
        if self.value.has_selection() {
            let s = self.selection();
            match self.delete_range(s) {
                Ok(b) => b,
                Err(_) => false,
            }
        } else {
            let ghost v = self.value@;
            let cursor = self.cursor();
            let start = match self.next_word_start(cursor) {
                Ok(s) => s,
                Err(_) => return false,
            };
            if start != cursor {
                let r = match self.delete_range(std::ops::Range { start: cursor, end: start }) {
                    Ok(b) => b,
                    Err(_) => false,
                };
                assert(next_word_cut(v.text, cursor as int, start as int));
                r
            } else {
                let end = match self.next_word_end(cursor) {
                    Ok(e) => e,
                    Err(_) => return false,
                };
                let r = match self.delete_range(std::ops::Range { start: cursor, end }) {
                    Ok(b) => b,
                    Err(_) => false,
                };
                assert(next_word_cut(v.text, cursor as int, end as int));
                r
            }
        }
    }

    /// Delete the selection; else from the previous word end to the cursor,
    /// or where that is the cursor, from the previous word start.
    pub fn delete_prev_word(&mut self) -> (r: bool)
        requires
            old(self).wf(),
        ensures
            final(self).wf(),
            old(self).value@.anchor != old(self).value@.cursor ==> r == selection_ok(old(self).value@)
                && final(self).value@ == without_selection(old(self).value@),
            old(self).value@.anchor == old(self).value@.cursor && old(self).value@.cursor.x > old(
                self,
            ).value@.text.len() ==> final(self).value@ == old(self).value@,
            old(self).value@.anchor == old(self).value@.cursor && old(self).value@.cursor.x <= old(
                self,
            ).value@.text.len() ==> exists|b: int|
                {
                    let c = old(self).value@.cursor.x as int;
                    let t = old(self).value@.text;
                    &&& #[trigger] prev_word_cut(old(self).value@.text, old(self).value@.cursor.x as int, b)
                    &&& (b == c ==> !r && final(self).value@ == old(self).value@)
                    &&& (b != c ==> r && final(self).value@ == remove_spec(
                        old(self).value@,
                        col_range(b as u32, c as u32),
                        false,
                    ))
                },
    {
        if self.value.has_selection() {
            let s = self.selection();
            match self.delete_range(s) {
                Ok(b) => b,
                Err(_) => false,
            }
        } else {
            let ghost v = self.value@;
            let cursor = self.cursor();
            let end = match self.prev_word_end(cursor) {
                Ok(e) => e,
                Err(_) => return false,
            };
            if end != cursor {
                let r = match self.delete_range(std::ops::Range { start: end, end: cursor }) {
                    Ok(b) => b,
                    Err(_) => false,
                };
                assert(prev_word_cut(v.text, cursor as int, end as int));
                r
            } else {
                let start = match self.prev_word_start(cursor) {
                    Ok(s) => s,
                    Err(_) => return false,
                };
                let r = match self.delete_range(std::ops::Range { start, end: cursor }) {
                    Ok(b) => b,
                    Err(_) => false,
                };
                assert(prev_word_cut(v.text, cursor as int, start as int));
                r
            }
        }
    }

    /// Undo; true where anything changed.
    pub fn undo(&mut self) -> (r: bool)
        requires
            old(self).wf(),
        ensures
            final(self).wf(),
            final(self).value@ == undo_spec(old(self).value@).0,
            r == (undo_spec(old(self).value@).1 == TextOutcome::TextChanged || undo_spec(
                old(self).value@,
            ).1 == TextOutcome::Changed),
    {
        match self.value.undo() {
            Ok(o) => o == TextOutcome::TextChanged || o == TextOutcome::Changed,
            Err(_) => false,
        }
    }

    /// Redo; true where anything changed.
    pub fn redo(&mut self) -> (r: bool)
        requires
            old(self).wf(),
        ensures
            final(self).wf(),
            final(self).value@ == redo_spec(old(self).value@).0,
            r == (redo_spec(old(self).value@).1 == TextOutcome::TextChanged || redo_spec(
                old(self).value@,
            ).1 == TextOutcome::Changed),
    {
        match self.value.redo() {
            Ok(o) => o == TextOutcome::TextChanged || o == TextOutcome::Changed,
            Err(_) => false,
        }
    }

    /// Set the cursor to a column and scroll it into view. Returns whether
    /// cursor, anchor or offset changed.
    fn move_to(&mut self, x: upos_type, extend_selection: bool) -> (r: bool)
        requires
            old(self).wf(),
        ensures
            final(self).wf(),
            final(self).value@ == moved(old(self).value@, x as int, extend_selection),
            final(self).offset == visible_offset(
                final(self).value@.cursor.x as int,
                old(self).offset as int,
                old(self).inner.width as int,
            ),
            final(self).inner == old(self).inner,
            r == (final(self).value@.cursor != old(self).value@.cursor || final(self).value@.anchor
                != old(self).value@.anchor || final(self).offset != old(self).offset),
    {
        let c = self.value.set_cursor(TextPosition::new(x, 0), extend_selection);
        let s = self.scroll_cursor_to_visible();
        c || s
    }

    /// Move one grapheme right.
    pub fn move_right(&mut self, extend_selection: bool) -> (r: bool)
        requires
            old(self).wf(),
        ensures
            final(self).wf(),
            final(self).value@ == moved(
                old(self).value@,
                if old(self).value@.cursor.x < old(self).value@.text.len() {
                    old(self).value@.cursor.x + 1
                } else {
                    old(self).value@.text.len() as int
                },
                extend_selection,
            ),
            final(self).offset == visible_offset(
                final(self).value@.cursor.x as int,
                old(self).offset as int,
                old(self).inner.width as int,
            ),
            r == (final(self).value@.cursor != old(self).value@.cursor || final(self).value@.anchor
                != old(self).value@.anchor || final(self).offset != old(self).offset),
    {
        let len = self.len();
        let c = self.cursor();
        let x = if c < len { c + 1 } else { len };
        self.move_to(x, extend_selection)
    }

    /// Move one grapheme left.
    pub fn move_left(&mut self, extend_selection: bool) -> (r: bool)
        requires
            old(self).wf(),
        ensures
            final(self).wf(),
            final(self).value@ == moved(
                old(self).value@,
                if old(self).value@.cursor.x > 0 {
                    old(self).value@.cursor.x - 1
                } else {
                    0
                },
                extend_selection,
            ),
            final(self).offset == visible_offset(
                final(self).value@.cursor.x as int,
                old(self).offset as int,
                old(self).inner.width as int,
            ),
            r == (final(self).value@.cursor != old(self).value@.cursor || final(self).value@.anchor
                != old(self).value@.anchor || final(self).offset != old(self).offset),
    {
        let c = self.cursor();
        let x = if c > 0 { c - 1 } else { 0 };
        self.move_to(x, extend_selection)
    }

    /// Move to the start of the line.
    pub fn move_to_line_start(&mut self, extend_selection: bool) -> (r: bool)
        requires
            old(self).wf(),
        ensures
            final(self).wf(),
            final(self).value@ == moved(old(self).value@, 0, extend_selection),
            final(self).offset == visible_offset(
                final(self).value@.cursor.x as int,
                old(self).offset as int,
                old(self).inner.width as int,
            ),
            r == (final(self).value@.cursor != old(self).value@.cursor || final(self).value@.anchor
                != old(self).value@.anchor || final(self).offset != old(self).offset),
    {
        self.move_to(0, extend_selection)
    }

    /// Move to the end of the line.
    pub fn move_to_line_end(&mut self, extend_selection: bool) -> (r: bool)
        requires
            old(self).wf(),
        ensures
            final(self).wf(),
            final(self).value@ == moved(
                old(self).value@,
                old(self).value@.text.len() as int,
                extend_selection,
            ),
            final(self).offset == visible_offset(
                final(self).value@.cursor.x as int,
                old(self).offset as int,
                old(self).inner.width as int,
            ),
            r == (final(self).value@.cursor != old(self).value@.cursor || final(self).value@.anchor
                != old(self).value@.anchor || final(self).offset != old(self).offset),
    {
        let len = self.len();
        self.move_to(len, extend_selection)
    }

    /// Move to the end of the next word.
    pub fn move_to_next_word(&mut self, extend_selection: bool) -> (r: bool)
        requires
            old(self).wf(),
        ensures
            final(self).wf(),
            old(self).value@.cursor.x <= old(self).value@.text.len() ==> exists|e: int|
                #[trigger] is_next_word_end(old(self).value@.text, old(self).value@.cursor.x as int, e)
                    && final(self).value@ == moved(old(self).value@, e, extend_selection),
            old(self).value@.cursor.x > old(self).value@.text.len() ==> final(self).value@ == moved(
                old(self).value@,
                old(self).value@.cursor.x as int,
                extend_selection,
            ),
            final(self).offset == visible_offset(
                final(self).value@.cursor.x as int,
                old(self).offset as int,
                old(self).inner.width as int,
            ),
            r == (final(self).value@.cursor != old(self).value@.cursor || final(self).value@.anchor
                != old(self).value@.anchor || final(self).offset != old(self).offset),
    {
        let cursor = self.cursor();
        let end = match self.next_word_end(cursor) {
            Ok(e) => e,
            Err(_) => cursor,
        };
        self.move_to(end, extend_selection)
    }

    /// Move to the start of the previous word.
    pub fn move_to_prev_word(&mut self, extend_selection: bool) -> (r: bool)
        requires
            old(self).wf(),
        ensures
            final(self).wf(),
            old(self).value@.cursor.x <= old(self).value@.text.len() ==> exists|b: int|
                #[trigger] is_prev_word_start(old(self).value@.text, old(self).value@.cursor.x as int, b)
                    && final(self).value@ == moved(old(self).value@, b, extend_selection),
            old(self).value@.cursor.x > old(self).value@.text.len() ==> final(self).value@ == moved(
                old(self).value@,
                old(self).value@.cursor.x as int,
                extend_selection,
            ),
            final(self).offset == visible_offset(
                final(self).value@.cursor.x as int,
                old(self).offset as int,
                old(self).inner.width as int,
            ),
            r == (final(self).value@.cursor != old(self).value@.cursor || final(self).value@.anchor
                != old(self).value@.anchor || final(self).offset != old(self).offset),
    {
        let cursor = self.cursor();
        let start = match self.prev_word_start(cursor) {
            Ok(s) => s,
            Err(_) => cursor,
        };
        self.move_to(start, extend_selection)
    }

    /// Select from column `anchor` to column `cursor`, both capped.
    pub fn set_selection(&mut self, anchor: upos_type, cursor: upos_type) -> (r: bool)
        requires
            old(self).wf(),
        ensures
            final(self).wf(),
            final(self).value@ == (CoreView {
                cursor: clamp_pos(old(self).value@.text, TextPosition { x: cursor, y: 0 }),
                anchor: clamp_pos(old(self).value@.text, TextPosition { x: anchor, y: 0 }),
                ..old(self).value@
            }),
    {
        self.value.set_selection(
            TextRange { start: TextPosition::new(anchor, 0), end: TextPosition::new(cursor, 0) },
        )
    }

    /// Select everything.
    pub fn select_all(&mut self) -> (r: bool)
        requires
            old(self).wf(),
        ensures
            final(self).wf(),
            final(self).value@ == (CoreView {
                cursor: TextPosition { x: old(self).value@.text.len() as u32, y: 0 },
                anchor: TextPosition { x: 0, y: 0 },
                ..old(self).value@
            }),
    {
        self.value.select_all()
    }

    /// The selected text; empty where the selection is not in the text.
    pub fn selected_text(&self) -> (r: String)
        requires
            self.wf(),
        ensures
            r@ == selected(self.value@),
    {
        match self.value.str_slice(self.value.selection()) {
            Ok(s) => s,
            Err(_) => String::new(),
        }
    }

    /// Empty the input; false where it was empty already.
    pub fn clear(&mut self) -> (r: bool)
        requires
            old(self).wf(),
        ensures
            final(self).wf(),
            r == (old(self).value@.text.len() != 0),
            r ==> final(self).value@ == clear_spec(old(self).value@) && final(self).offset == 0,
            !r ==> final(self).value@ == old(self).value@,
    {
        if self.is_empty() {
            false
        } else {
            self.offset = 0;
            self.value.clear();
            true
        }
    }

    /// Scroll left by `delta` columns.
    pub fn scroll_left(&mut self, delta: upos_type) -> (r: bool)
        ensures
            r,
            final(self).offset == (if old(self).offset >= delta {
                old(self).offset - delta
            } else {
                0
            }),
            final(self).value == old(self).value,
    {
        self.offset = if self.offset >= delta { self.offset - delta } else { 0 };
        true
    }

    /// Scroll right by `delta` columns.
    pub fn scroll_right(&mut self, delta: upos_type) -> (r: bool)
        ensures
            r,
            final(self).offset == (if old(self).offset as int + delta <= u32::MAX {
                old(self).offset + delta
            } else {
                u32::MAX as int
            }),
            final(self).value == old(self).value,
    {
        self.offset = self.offset.saturating_add(delta);
        true
    }

    /// Copy the selection to the clipboard; false where there is none.
    pub fn copy_to_clip(&mut self) -> (r: bool)
        requires
            old(self).wf(),
        ensures
            final(self).wf(),
            r == old(self).value@.clip.is_some(),
            r ==> final(self).value@ == (CoreView {
                clip: Some(selected(old(self).value@)),
                ..old(self).value@
            }),
            !r ==> final(self).value@ == old(self).value@,
    {
        let t = self.selected_text();
        self.value.set_clipboard_text(t.as_str())
    }

    /// Move the selection to the clipboard; false where there is none.
    pub fn cut_to_clip(&mut self) -> (r: bool)
        requires
            old(self).wf(),
        ensures
            final(self).wf(),
            old(self).value@.clip.is_none() ==> !r && final(self).value@ == old(self).value@,
            old(self).value@.clip.is_some() ==> final(self).value@ == without_selection(
                CoreView { clip: Some(selected(old(self).value@)), ..old(self).value@ },
            ) && r == (old(self).value@.anchor != old(self).value@.cursor && selection_ok(
                old(self).value@,
            )),
    {
        let t = self.selected_text();
        if !self.value.set_clipboard_text(t.as_str()) {
            return false;
        }
        let s = self.selection();
        match self.delete_range(s) {
            Ok(b) => b,
            Err(_) => false,
        }
    }

    /// Insert the clipboard's text at the cursor, in place of the selection;
    /// false where there is no clipboard.
    pub fn paste_from_clip(&mut self) -> (r: bool)
        requires
            old(self).wf(),
        ensures
            final(self).wf(),
            old(self).value@.clip.is_none() ==> !r && final(self).value@ == old(self).value@,
            old(self).value@.clip.is_some() ==> typed(
                old(self).value@,
                old(self).value@.clip.unwrap(),
                false,
                final(self).value@,
                r,
            ),
    {
        let text = match self.value.clipboard() {
            None => return false,
            Some(c) => match c.get_string() {
                Ok(t) => t,
                Err(_) => return false,
            },
        };
        self.insert_str(text.as_str())
    }

    /// Glyphs of the text in a window of `screen_width` columns from
    /// `screen_offset` on.
    pub fn glyphs(&self, screen_offset: u16, screen_width: u16) -> (r: Result<Vec<Glyph>, TextError>)
        requires
            self.wf(),
        ensures
            r.is_ok() && glyphs_of(
                self.value@,
                r.unwrap()@.map_values(|g: Glyph| g.view_tuple()),
                screen_offset as nat,
                screen_width as nat,
            ),
    {
        let r = self.value.glyphs(Range { start: 0, end: 1 }, screen_offset, screen_width);
        proof {
            let g = r.unwrap()@;
            let gv = g.map_values(|g: Glyph| g.view_tuple());
            assert forall|k: int| 0 <= k < gv.len() implies gv[k] == #[trigger] g[k].view_tuple() by {}
        }
        r
    }

    /// Column under a screen column relative to the widget; left of it the
    /// offset moves back by as much, right of it the column is capped to the
    /// text.
    pub fn screen_to_col(&self, scx: i16) -> (r: upos_type)
        requires
            self.wf(),
        ensures
            screen_col_ok(self.value@, self.offset, self.inner.width, scx, r),
    {
        let ox = self.offset;
        if scx < 0 {
            let d = (0 - (scx as i32)) as u32;
            if ox >= d { ox - d } else { 0 }
        } else if scx as u16 >= self.inner.width {
            let len = self.len();
            let x = ox as u64 + scx as u64;
            if x <= len as u64 { x as u32 } else { len }
        } else {
            let off16 = (ox % 0x10000) as u16;
            let line = match self.glyphs(off16, self.inner.width) {
                Ok(l) => l,
                Err(_) => return ox,
            };
            let ghost gs = line@.map_values(|g: Glyph| g.view_tuple());
            let sx = scx as u32;
            let mut col = ox;
            let mut i: usize = 0;
            proof {
                assert(gs.skip(0) =~= gs);
            }
            while i < line.len()
                invariant
                    0 <= i <= line@.len(),
                    0 <= scx < self.inner.width,
                    sx == scx,
                    off16 == ox % 0x10000,
                    glyphs_of(self.value@, gs, (self.offset % 0x10000) as nat, self.inner.width as nat),
                    gs == line@.map_values(|g: Glyph| g.view_tuple()),
                    pick_col(gs, scx as int, ox) == pick_col(gs.skip(i as int), scx as int, col),
                decreases line@.len() - i,
            {
                let g = &line[i];
                proof {
                    assert(gs.skip(i as int)[0] == g.view_tuple());
                    assert(gs.skip(i as int).drop_first() == gs.skip(i + 1));
                }
                if sx < g.screen_pos.0 as u32 + g.screen_width as u32 {
                    proof {
                        assert(glyphs_of(self.value@, gs, (self.offset % 0x10000) as nat, self.inner.width as nat));
                    }
                    return g.pos.x;
                }
                col = g.pos.x;
                i += 1;
            }
            proof {
                assert(gs.skip(line@.len() as int).len() == 0);
                assert(glyphs_of(self.value@, gs, (self.offset % 0x10000) as nat, self.inner.width as nat));
            }
            col
        }
    }

    /// Screen column, relative to the widget, of text column `pos`; 0 left
    /// of the offset.
    pub fn col_to_screen(&self, pos: upos_type) -> (r: Result<u16, TextError>)
        requires
            self.wf(),
        ensures
            r.is_ok() && screen_x_ok(self.value@, self.offset, self.inner.width, pos, r.unwrap()),
    {
        let ox = self.offset;
        if pos < ox {
            return Ok(0);
        }
        let off16 = (ox % 0x10000) as u16;
        let line = match self.glyphs(off16, self.inner.width) {
            Ok(l) => l,
            Err(e) => return Err(e),
        };
        let ghost gs = line@.map_values(|g: Glyph| g.view_tuple());
        let mut screen_x: u32 = 0;
        let mut i: usize = 0;
        proof {
            assert(gs.skip(0) =~= gs);
        }
        while i < line.len()
            invariant
                0 <= i <= line@.len(),
                pos >= self.offset,
                screen_x <= 0x20000,
                off16 == ox % 0x10000,
                glyphs_of(self.value@, gs, (self.offset % 0x10000) as nat, self.inner.width as nat),
                gs == line@.map_values(|g: Glyph| g.view_tuple()),
                screen_of(gs, pos, 0) == screen_of(gs.skip(i as int), pos, screen_x as int),
            decreases line@.len() - i,
        {
            let g = &line[i];
            proof {
                assert(gs.skip(i as int)[0] == g.view_tuple());
                assert(gs.skip(i as int).drop_first() == gs.skip(i + 1));
            }
            if g.pos.x == pos {
                proof {
                    assert(glyphs_of(self.value@, gs, (self.offset % 0x10000) as nat, self.inner.width as nat));
                }
                return Ok((screen_x % 0x10000) as u16);
            }
            screen_x = g.screen_pos.0 as u32 + g.screen_width as u32;
            i += 1;
        }
        proof {
            if i == line@.len() {
                assert(gs.skip(i as int).len() == 0);
            }
            assert(glyphs_of(self.value@, gs, (self.offset % 0x10000) as nat, self.inner.width as nat));
        }
        Ok((screen_x % 0x10000) as u16)
    }

    /// Set the cursor from a screen column relative to the widget, and scroll
    /// it into view.
    pub fn set_screen_cursor(&mut self, cursor: i16, extend_selection: bool) -> (r: bool)
        requires
            old(self).wf(),
        ensures
            final(self).wf(),
            exists|x: u32|
                #[trigger] screen_col_ok(old(self).value@, old(self).offset, old(self).inner.width, cursor, x)
                    && final(self).value@ == moved(old(self).value@, x as int, extend_selection)
                    && final(self).offset == visible_offset(
                    final(self).value@.cursor.x as int,
                    old(self).offset as int,
                    old(self).inner.width as int,
                ),
    {
        let cx = self.screen_to_col(cursor);
        self.move_to(cx, extend_selection)
    }

    /// Absolute screen position of the cursor, where the widget has the focus
    /// and the cursor is in view.
    pub fn screen_cursor(&self) -> (r: Option<(u16, u16)>)
        requires
            self.wf(),
        ensures
            !self.focused ==> r.is_none(),
            self.focused && (self.value@.cursor.x < self.offset || self.value@.cursor.x > self.offset
                + self.inner.width) ==> r.is_none(),
            self.focused && self.offset <= self.value@.cursor.x <= self.offset + self.inner.width
                ==> r.is_some() && r.unwrap().1 == self.inner.y && exists|sc: u16|
                #[trigger] screen_x_ok(self.value@, self.offset, self.inner.width, self.value@.cursor.x, sc)
                    && r.unwrap().0 == (self.inner.x + sc) % 0x10000,
    {
        if !self.focused {
            return None;
        }
        let cx = self.cursor();
        let ox = self.offset;
        if cx < ox {
            None
        } else if cx as u64 > ox as u64 + self.inner.width as u64 {
            None
        } else {
            let sc = match self.col_to_screen(cx) {
                Ok(s) => s,
                Err(_) => 0,
            };
            proof {
                assert(screen_x_ok(self.value@, self.offset, self.inner.width, cx, sc));
            }
            Some((self.inner.x.wrapping_add(sc), self.inner.y))
        }
    }

    /// Replace all styles.
    pub fn set_styles(&mut self, styles: Vec<(Range<usize>, usize)>)
        requires
            old(self).wf(),
            forall|i: int| 0 <= i < styles@.len() ==> #[trigger] styles@[i].0.start <= styles@[i].0.end,
        ensures
            final(self).wf(),
            final(self).value@ == (CoreView {
                styles: styles_view(styles@),
                undo: logged_style(
                    old(self).value@.undo,
                    EntryView::SetStyles { before: old(self).value@.styles, after: styles_view(styles@) },
                ),
                ..old(self).value@
            }),
    {
        self.value.set_styles(styles)
    }

    /// Add a style for a byte range.
    pub fn add_style(&mut self, range: Range<usize>, style: usize)
        requires
            old(self).wf(),
            range.start <= range.end,
        ensures
            final(self).wf(),
            final(self).value@ == (CoreView {
                styles: old(self).value@.styles.push(entry_of(range, style)),
                undo: logged_style(
                    old(self).value@.undo,
                    EntryView::AddStyle { entry: entry_of(range, style) },
                ),
                ..old(self).value@
            }),
    {
        self.value.add_style(range, style)
    }

    /// Add a style for a range of columns.
    pub fn add_range_style(&mut self, range: Range<upos_type>, style: usize) -> (r: Result<(), TextError>)
        requires
            old(self).wf(),
            range.start <= range.end,
        ensures
            final(self).wf(),
            match range_error(old(self).value@.text, col_range(range.start, range.end)) {
                Some(e) => r == Err::<(), TextError>(e) && final(self).value@ == old(self).value@,
                None => r.is_ok() && final(self).value@.styles == old(self).value@.styles.push(
                    (
                        byte_off(old(self).value@.text, range.start as int) as usize,
                        byte_off(old(self).value@.text, range.end as int) as usize,
                        style,
                    ),
                ),
            },
    {
        let r = match self.value.bytes_at_range(TextRange::new((range.start, 0), (range.end, 0))) {
            Ok(r) => r,
            Err(e) => return Err(e),
        };
        proof {
            crate::text_store::lemma_byte_off_mono(self.value@.text, range.start as int, range.end as int);
        }
        self.value.add_style(r, style);
        Ok(())
    }

    /// Remove a style for a byte range; range and tag must match. Returns
    /// whether a style was removed.
    pub fn remove_style(&mut self, range: Range<usize>, style: usize) -> (r: bool)
        requires
            old(self).wf(),
        ensures
            final(self).wf(),
            r == old(self).value@.styles.contains(entry_of(range, style)),
            final(self).value@ == remove_style_spec(old(self).value@, entry_of(range, style)),
    {
        self.value.remove_style(range, style)
    }

    /// Remove a style for a range of columns; range and tag must match.
    pub fn remove_range_style(&mut self, range: Range<upos_type>, style: usize) -> (r: Result<(), TextError>)
        requires
            old(self).wf(),
            range.start <= range.end,
        ensures
            final(self).wf(),
            match range_error(old(self).value@.text, col_range(range.start, range.end)) {
                Some(e) => r == Err::<(), TextError>(e) && final(self).value@ == old(self).value@,
                None => r.is_ok() && final(self).value@ == remove_style_spec(
                    old(self).value@,
                    (
                        byte_off(old(self).value@.text, range.start as int) as usize,
                        byte_off(old(self).value@.text, range.end as int) as usize,
                        style,
                    ),
                ),
            },
    {
        let r = match self.value.bytes_at_range(TextRange::new((range.start, 0), (range.end, 0))) {
            Ok(r) => r,
            Err(e) => return Err(e),
        };
        self.value.remove_style(r, style);
        Ok(())
    }

    /// Append the tags of the styles that hold byte `byte_pos`.
    pub fn styles_at(&self, byte_pos: usize, buf: &mut Vec<usize>)
        ensures
            final(buf)@ == old(buf)@ + tags_at(self.value@.styles, byte_pos),
    {
        self.value.styles_at(byte_pos, buf)
    }

    /// The range of the first style with this tag that holds `byte_pos`.
    pub fn style_match(&self, byte_pos: usize, style: usize) -> (r: Option<Range<usize>>)
        ensures
            match first_match(self.value@.styles, byte_pos, style) {
                None => r.is_none(),
                Some(t) => r.is_some() && r.unwrap().start == t.0 && r.unwrap().end == t.1,
            },
    {
        self.value.style_match(byte_pos, style)
    }

    /// All styles.
    pub fn styles(&self) -> (r: Vec<(Range<usize>, usize)>)
        ensures
            styles_view(r@) == self.value@.styles,
    {
        self.value.styles()
    }

    /// Take the entries recorded for replay.
    pub fn recent_replay_log(&mut self) -> (r: Vec<UndoEntry>)
        requires
            old(self).wf(),
        ensures
            final(self).wf(),
            match old(self).value@.undo {
                Some(u) => entries_view(r@) == u.replay && final(self).value@ == (CoreView {
                    undo: Some(crate::undo_buffer::UndoView { replay: Seq::empty(), ..u }),
                    ..old(self).value@
                }),
                None => r@.len() == 0 && final(self).value@ == old(self).value@,
            },
    {
        self.value.recent_replay_log()
    }

    /// Apply entries recorded by another instance.
    pub fn replay_log(&mut self, replay: &[UndoEntry])
        requires
            old(self).wf(),
        ensures
            final(self).wf(),
            final(self).value@ == replay_all(old(self).value@, entries_view(replay@)),
    {
        self.value.replay_log(replay)
    }

    /// Width of the line in graphemes.
    pub fn line_width(&self) -> (r: upos_type)
        requires
            self.wf(),
        ensures
            r == self.value@.text.len(),
    {
        self.len()
    }

    /// The text of a range of columns.
    pub fn str_slice(&self, range: Range<upos_type>) -> (r: Result<String, TextError>)
        requires
            self.wf(),
            range.start <= range.end,
        ensures
            match range_error(self.value@.text, col_range(range.start, range.end)) {
                Some(e) => r == Err::<String, TextError>(e),
                None => r.is_ok() && r.unwrap()@ == self.value@.text.subrange(
                    range.start as int,
                    range.end as int,
                ),
            },
    {
        self.value.str_slice(TextRange::new((range.start, 0), (range.end, 0)))
    }

    /// Byte range of the grapheme at column `pos`.
    pub fn byte_at(&self, pos: upos_type) -> (r: Result<Range<usize>, TextError>)
        requires
            self.wf(),
        ensures
            pos <= self.value@.text.len() ==> r.is_ok() && r.unwrap().start == byte_off(
                self.value@.text,
                pos as int,
            ),
            pos > self.value@.text.len() ==> r == Err::<Range<usize>, TextError>(
                TextError::ColumnIndexOutOfBounds(pos, self.value@.text.len() as u32),
            ),
    {
        self.value.byte_at(TextPosition::new(pos, 0))
    }

    /// Byte range of a range of columns.
    pub fn bytes_at_range(&self, range: Range<upos_type>) -> (r: Result<Range<usize>, TextError>)
        requires
            self.wf(),
        ensures
            match range_error(self.value@.text, col_range(range.start, range.end)) {
                Some(e) => r == Err::<Range<usize>, TextError>(e),
                None => r.is_ok() && r.unwrap().start == byte_off(self.value@.text, range.start as int)
                    && r.unwrap().end == byte_off(self.value@.text, range.end as int),
            },
    {
        self.value.bytes_at_range(
            TextRange { start: TextPosition::new(range.start, 0), end: TextPosition::new(range.end, 0) },
        )
    }

    /// Column of the grapheme that holds `byte`.
    pub fn byte_pos(&self, byte: usize) -> (r: Result<upos_type, TextError>)
        requires
            self.wf(),
        ensures
            match r {
                Ok(x) => byte <= bytes_len(self.value@.text) && x <= self.value@.text.len() && byte_off(
                    self.value@.text,
                    x as int,
                ) <= byte && (x == self.value@.text.len() || byte < byte_off(self.value@.text, x + 1)),
                Err(e) => byte > bytes_len(self.value@.text),
            },
    {
        match self.value.byte_pos(byte) {
            Ok(p) => Ok(p.x),
            Err(e) => Err(e),
        }
    }

    /// Columns of the graphemes that hold the bytes.
    pub fn byte_range(&self, bytes: Range<usize>) -> (r: Result<Range<upos_type>, TextError>)
        requires
            self.wf(),
        ensures
            match r {
                Ok(c) => {
                    let t = self.value@.text;
                    &&& bytes.start <= bytes.end <= bytes_len(t)
                    &&& c.start <= c.end <= t.len()
                    &&& byte_off(t, c.start as int) <= bytes.start
                    &&& (c.start == t.len() || bytes.start < byte_off(t, c.start + 1))
                    &&& byte_off(t, c.end as int) <= bytes.end
                    &&& (c.end == t.len() || bytes.end < byte_off(t, c.end + 1))
                },
                Err(_) => bytes.start > bytes.end || bytes.end > bytes_len(self.value@.text),
            },
    {
        match self.value.byte_range(bytes) {
            Ok(t) => Ok(Range { start: t.start.x, end: t.end.x }),
            Err(e) => Err(e),
        }
    }

    /// The graphemes of the text from column `pos` on.
    pub fn text_graphemes(&self, pos: upos_type) -> (r: Result<Vec<Grapheme>, TextError>)
        requires
            self.wf(),
        ensures
            pos <= self.value@.text.len() ==> r.is_ok() && r.unwrap()@.len() == self.value@.text.len()
                - pos && (forall|k: int|
                0 <= k < r.unwrap()@.len() ==> grapheme_ok(
                    #[trigger] &r.unwrap()@[k],
                    self.value@.text,
                    pos + k,
                )),
            pos > self.value@.text.len() ==> r.is_err(),
    {
        self.value.text_graphemes(TextPosition::new(pos, 0))
    }

    /// The graphemes of a range of columns from column `pos` on.
    pub fn graphemes(&self, range: Range<upos_type>, pos: upos_type) -> (r: Result<Vec<Grapheme>, TextError>)
        requires
            self.wf(),
            range.start <= range.end,
        ensures
            range.end <= self.value@.text.len() && range.start <= pos <= range.end ==> r.is_ok()
                && r.unwrap()@.len() == range.end - pos && (forall|k: int|
                0 <= k < r.unwrap()@.len() ==> grapheme_ok(
                    #[trigger] &r.unwrap()@[k],
                    self.value@.text,
                    pos + k,
                )),
            !(range.end <= self.value@.text.len() && range.start <= pos <= range.end) ==> r.is_err(),
    {
        self.value.graphemes(
            TextRange::new((range.start, 0), (range.end, 0)),
            TextPosition::new(pos, 0),
        )
    }

    /// A break and a word meet at column `pos`.
    pub fn is_word_boundary(&self, pos: upos_type) -> (r: Result<bool, TextError>)
        requires
            self.wf(),
        ensures
            pos <= self.value@.text.len() ==> r == Ok::<bool, TextError>(
                word_boundary(self.value@.text, pos as int),
            ),
            pos > self.value@.text.len() ==> r.is_err(),
    {
        self.value.is_word_boundary(TextPosition::new(pos, 0))
    }

    /// Start of the word run that reaches column `pos`.
    pub fn word_start(&self, pos: upos_type) -> (r: Result<upos_type, TextError>)
        requires
            self.wf(),
        ensures
            pos <= self.value@.text.len() ==> r.is_ok() && is_word_start(
                self.value@.text,
                pos as int,
                r.unwrap() as int,
            ),
            pos > self.value@.text.len() ==> r.is_err(),
    {
        match self.value.word_start(TextPosition::new(pos, 0)) {
            Ok(p) => Ok(p.x),
            Err(e) => Err(e),
        }
    }

    /// End of the word run that starts at column `pos`.
    pub fn word_end(&self, pos: upos_type) -> (r: Result<upos_type, TextError>)
        requires
            self.wf(),
        ensures
            pos <= self.value@.text.len() ==> r.is_ok() && is_word_end(
                self.value@.text,
                pos as int,
                r.unwrap() as int,
            ),
            pos > self.value@.text.len() ==> r.is_err(),
    {
        match self.value.word_end(TextPosition::new(pos, 0)) {
            Ok(p) => Ok(p.x),
            Err(e) => Err(e),
        }
    }

    /// Set or remove the clipboard.
    pub fn set_clipboard(&mut self, clip: Option<crate::clipboard::LocalClipboard>)
        requires
            old(self).wf(),
        ensures
            final(self).wf(),
            final(self).value@ == (CoreView {
                clip: match clip {
                    Some(c) => Some(c@),
                    None => None,
                },
                ..old(self).value@
            }),
            final(self).offset == old(self).offset,
    {
        self.value.set_clipboard(clip)
    }

    /// The clipboard.
    pub fn clipboard(&self) -> (r: Option<&crate::clipboard::LocalClipboard>)
        ensures
            match self.value@.clip {
                Some(c) => r.is_some() && r.unwrap()@ == c,
                None => r.is_none(),
            },
    {
        self.value.clipboard()
    }

    /// Set or remove the undo log.
    pub fn set_undo_buffer(&mut self, undo: Option<crate::undo_buffer::UndoVec>)
        requires
            old(self).wf(),
            undo is Some ==> undo.unwrap().wf(),
        ensures
            final(self).wf(),
            final(self).value@ == (CoreView {
                undo: match undo {
                    Some(u) => Some(u@),
                    None => None,
                },
                ..old(self).value@
            }),
            final(self).offset == old(self).offset,
    {
        self.value.set_undo_buffer(undo)
    }

    /// The undo log.
    pub fn undo_buffer(&self) -> (r: Option<&crate::undo_buffer::UndoVec>)
        ensures
            match self.value@.undo {
                Some(u) => r.is_some() && r.unwrap()@ == u,
                None => r.is_none(),
            },
    {
        self.value.undo_buffer()
    }
}

} // verus!
