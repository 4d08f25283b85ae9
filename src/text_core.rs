//! The editing core: text, cursor and anchor, styles and the undo log,
//! changed together by each operation.

use crate::clipboard::LocalClipboard;
use crate::error::TextError;
use crate::grapheme::{
    Glyph, Grapheme, all_word, all_break, glyph_col, glyph_ok, glyph_text, glyph_width_of, grapheme_ok,
    is_next_word_end, is_next_word_start, is_prev_word_end, is_prev_word_start, is_word_break,
    is_word_end, is_word_start, visible_upto, word_boundary,
};
use crate::position::{
    TextPosition, TextRange, expand_pos_spec, ordered_range, shrink_pos_spec, to_pos, upos_type,
};
use crate::range_map::{
    RangeMap, StyleChange, StyleEntry, changes_view, cut_changes, cut_entries, entry_of,
    expand_entry, first_match, remove_first, shrink_entry, tags_at,
};
use crate::text_store::{
    TextString, boundary_index, byte_off, bytes_len, cut_text, is_boundary, pos_error, push_char,
    range_error, spliced, text_fits, utf8_len,
};
use crate::undo_buffer::{
    EntryView, TextPositionChange, UndoEntry, UndoVec, UndoView, append_spec, entries_view,
    is_marker, styles_view, undo_view_ok,
};
use std::ops::Range;
use vstd::prelude::*;

verus! {

/// What an operation did.
#[derive(Clone, Copy, Debug, PartialEq, Eq, Structural)]
pub enum TextOutcome {
    /// Nothing to do.
    Continue,
    /// Tried, but nothing changed; for a log entry, it did not fit.
    Unchanged,
    /// Styles or other state changed.
    Changed,
    /// The text changed.
    TextChanged,
}

/// The state of the editing core.
pub struct CoreView {
    pub text: Seq<char>,
    pub cursor: TextPosition,
    pub anchor: TextPosition,
    pub styles: Seq<StyleEntry>,
    pub undo: Option<UndoView>,
    pub clip: Option<Seq<char>>,
    pub newline: Seq<char>,
    pub tabs: u16,
    pub expand_tabs: bool,
    pub show_ctrl: bool,
}

/// A valid position of a single-line text.
pub open spec fn valid_pos(s: Seq<char>, p: TextPosition) -> bool {
    p.y == 0 && p.x <= s.len()
}

/// A recorded position, on the text's single row.
pub open spec fn on_row(p: TextPosition) -> TextPosition {
    TextPosition { x: p.x, y: 0 }
}

/// A position capped to a single-line text.
pub open spec fn clamp_pos(s: Seq<char>, p: TextPosition) -> TextPosition {
    TextPosition { y: 0, x: if p.x <= s.len() { p.x } else { s.len() as u32 } }
}

/// The log after recording `e`, where there is a log.
pub open spec fn logged(u: Option<UndoView>, e: EntryView) -> Option<UndoView> {
    match u {
        Some(v) => Some(append_spec(v, e, true)),
        None => None,
    }
}

/// The log after recording a style-only operation, where that is switched on.
pub open spec fn logged_style(u: Option<UndoView>, e: EntryView) -> Option<UndoView> {
    match u {
        Some(v) => if v.undo_styles || v.track_replay {
            Some(append_spec(v, e, true))
        } else {
            u
        },
        None => None,
    }
}

/// The state after inserting `t` at `pos`, where the position is valid and
/// the text does not grow too long. Cursor and anchor, capped to the text,
/// move with the inserted text.
pub open spec fn insert_spec(v: CoreView, pos: TextPosition, t: Seq<char>, char_level: bool) -> CoreView {
    let ins = TextRange { start: pos, end: TextPosition { x: (pos.x + t.len()) as u32, y: 0 } };
    let b0 = byte_off(v.text, pos.x as int);
    let b1 = b0 + bytes_len(t);
    let cursor = to_pos(expand_pos_spec(ins, clamp_pos(v.text, v.cursor)));
    let anchor = to_pos(expand_pos_spec(ins, clamp_pos(v.text, v.anchor)));
    CoreView {
        text: spliced(v.text, pos.x as int, t),
        styles: v.styles.map_values(|e: StyleEntry| expand_entry(b0 as usize, bytes_len(t) as usize, e)),
        cursor,
        anchor,
        undo: logged(
            v.undo,
            EntryView::Insert {
                char_level,
                bytes: (b0 as usize, b1 as usize),
                cursor: TextPositionChange { before: v.cursor, after: cursor },
                anchor: TextPositionChange { before: v.anchor, after: anchor },
                txt: t,
            },
        ),
        ..v
    }
}

/// The error of an insert, if any.
pub open spec fn insert_error(v: CoreView, pos: TextPosition, t: Seq<char>) -> Option<TextError> {
    match pos_error(v.text, pos) {
        Some(e) => Some(e),
        None => if text_fits(spliced(v.text, pos.x as int, t)) {
            None
        } else {
            Some(TextError::TextTooLong)
        },
    }
}

/// The state after removing the non-empty, valid range `r`.
pub open spec fn remove_spec(v: CoreView, r: TextRange, char_level: bool) -> CoreView {
    let b0 = byte_off(v.text, r.start.x as int);
    let b1 = byte_off(v.text, r.end.x as int);
    let cursor = to_pos(shrink_pos_spec(r, v.cursor));
    let anchor = to_pos(shrink_pos_spec(r, v.anchor));
    CoreView {
        text: cut_text(v.text, r.start.x as int, r.end.x as int),
        styles: cut_entries(v.styles, b0 as usize, b1 as usize),
        cursor,
        anchor,
        undo: logged(
            v.undo,
            EntryView::Remove {
                char_level,
                bytes: (b0 as usize, b1 as usize),
                cursor: TextPositionChange { before: v.cursor, after: cursor },
                anchor: TextPositionChange { before: v.anchor, after: anchor },
                txt: v.text.subrange(r.start.x as int, r.end.x as int),
                styles: cut_changes(v.styles, b0 as usize, b1 as usize),
            },
        ),
        ..v
    }
}

/// Text with the bytes `b.0..b.1` removed, where both start graphemes.
pub open spec fn text_remove_b(s: Seq<char>, b: (usize, usize)) -> Option<Seq<char>> {
    if b.0 <= b.1 && is_boundary(s, b.0 as int) && is_boundary(s, b.1 as int) {
        Some(cut_text(s, boundary_index(s, b.0 as int), boundary_index(s, b.1 as int)))
    } else {
        None
    }
}

/// Text with `t` inserted at byte `b`, where it starts a grapheme and the
/// text does not grow too long.
pub open spec fn text_insert_b(s: Seq<char>, b: usize, t: Seq<char>) -> Option<Seq<char>> {
    if is_boundary(s, b as int) && text_fits(spliced(s, boundary_index(s, b as int), t)) {
        Some(spliced(s, boundary_index(s, b as int), t))
    } else {
        None
    }
}

/// Styles without one copy of each non-empty range after a change.
pub open spec fn drop_afters(m: Seq<StyleEntry>, ch: Seq<(StyleEntry, StyleEntry)>) -> Seq<StyleEntry>
    decreases ch.len(),
{
    if ch.len() == 0 {
        m
    } else {
        let rest = drop_afters(m, ch.drop_last());
        let a = ch.last().1;
        if a.0 < a.1 {
            remove_first(rest, a)
        } else {
            rest
        }
    }
}

/// Styles without one copy of each range before a change.
pub open spec fn drop_befores(m: Seq<StyleEntry>, ch: Seq<(StyleEntry, StyleEntry)>) -> Seq<StyleEntry>
    decreases ch.len(),
{
    if ch.len() == 0 {
        m
    } else {
        remove_first(drop_befores(m, ch.drop_last()), ch.last().0)
    }
}

/// Styles with each ordered range before a change added.
pub open spec fn add_befores(m: Seq<StyleEntry>, ch: Seq<(StyleEntry, StyleEntry)>) -> Seq<StyleEntry>
    decreases ch.len(),
{
    if ch.len() == 0 {
        m
    } else {
        let rest = add_befores(m, ch.drop_last());
        let b = ch.last().0;
        if b.0 <= b.1 {
            rest.push(b)
        } else {
            rest
        }
    }
}

/// Styles with each non-empty range after a change added.
pub open spec fn add_afters(m: Seq<StyleEntry>, ch: Seq<(StyleEntry, StyleEntry)>) -> Seq<StyleEntry>
    decreases ch.len(),
{
    if ch.len() == 0 {
        m
    } else {
        let rest = add_afters(m, ch.drop_last());
        let a = ch.last().1;
        if a.0 < a.1 {
            rest.push(a)
        } else {
            rest
        }
    }
}

/// Styles with the removal of the bytes `b` taken back.
pub open spec fn unremove_styles(m: Seq<StyleEntry>, b: (usize, usize), ch: Seq<(StyleEntry, StyleEntry)>) -> Seq<StyleEntry> {
    add_befores(
        drop_afters(m, ch).map_values(|e: StyleEntry| expand_entry(b.0, (b.1 - b.0) as usize, e)),
        ch,
    )
}

/// Styles with the removal of the bytes `b` done again.
pub open spec fn reremove_styles(m: Seq<StyleEntry>, b: (usize, usize), ch: Seq<(StyleEntry, StyleEntry)>) -> Seq<StyleEntry> {
    add_afters(drop_befores(m, ch).map_values(|e: StyleEntry| shrink_entry(b.0, b.1, e)), ch)
}

/// Taking back one entry: the text, styles, cursor and anchor it changed
/// return to what they were before it. Cursor and anchor are set as
/// recorded, even where that lies past the end of the text.
pub open spec fn undo_apply(v: CoreView, e: EntryView) -> (CoreView, TextOutcome) {
    match e {
        EntryView::Insert { bytes, cursor, anchor, .. } => match text_remove_b(v.text, bytes) {
            Some(t) => (
                CoreView {
                    text: t,
                    styles: v.styles.map_values(|x: StyleEntry| shrink_entry(bytes.0, bytes.1, x)),
                    cursor: on_row(cursor.before),
                    anchor: on_row(anchor.before),
                    ..v
                },
                TextOutcome::TextChanged,
            ),
            None => (v, TextOutcome::Unchanged),
        },
        EntryView::Remove { bytes, cursor, anchor, txt, styles, .. } => if bytes.0 <= bytes.1 {
            match text_insert_b(v.text, bytes.0, txt) {
                Some(t) => (
                    CoreView {
                        text: t,
                        styles: unremove_styles(v.styles, bytes, styles),
                        cursor: on_row(cursor.before),
                        anchor: on_row(anchor.before),
                        ..v
                    },
                    TextOutcome::TextChanged,
                ),
                None => (v, TextOutcome::Unchanged),
            }
        } else {
            (v, TextOutcome::Unchanged)
        },
        EntryView::SetStyles { before, .. } => if styles_ok(before) {
            (CoreView { styles: before, ..v }, TextOutcome::Changed)
        } else {
            (v, TextOutcome::Unchanged)
        },
        EntryView::AddStyle { entry } => (
            CoreView { styles: remove_first(v.styles, entry), ..v },
            TextOutcome::Changed,
        ),
        EntryView::RemoveStyle { entry } => if entry.0 <= entry.1 {
            (CoreView { styles: v.styles.push(entry), ..v }, TextOutcome::Changed)
        } else {
            (v, TextOutcome::Unchanged)
        },
        _ => (v, TextOutcome::Continue),
    }
}

/// Doing one entry again: text, styles, cursor and anchor become what they
/// were after it.
pub open spec fn redo_apply(v: CoreView, e: EntryView) -> (CoreView, TextOutcome) {
    match e {
        EntryView::Insert { bytes, cursor, anchor, txt, .. } => if bytes.0 <= bytes.1 {
            match text_insert_b(v.text, bytes.0, txt) {
                Some(t) => (
                    CoreView {
                        text: t,
                        styles: v.styles.map_values(
                            |x: StyleEntry| expand_entry(bytes.0, (bytes.1 - bytes.0) as usize, x),
                        ),
                        cursor: on_row(cursor.after),
                        anchor: on_row(anchor.after),
                        ..v
                    },
                    TextOutcome::TextChanged,
                ),
                None => (v, TextOutcome::Unchanged),
            }
        } else {
            (v, TextOutcome::Unchanged)
        },
        EntryView::Remove { bytes, cursor, anchor, styles, .. } => match text_remove_b(v.text, bytes) {
            Some(t) => (
                CoreView {
                    text: t,
                    styles: reremove_styles(v.styles, bytes, styles),
                    cursor: on_row(cursor.after),
                    anchor: on_row(anchor.after),
                    ..v
                },
                TextOutcome::TextChanged,
            ),
            None => (v, TextOutcome::Unchanged),
        },
        EntryView::SetStyles { after, .. } => if styles_ok(after) {
            (CoreView { styles: after, ..v }, TextOutcome::Changed)
        } else {
            (v, TextOutcome::Unchanged)
        },
        EntryView::AddStyle { entry } => if entry.0 <= entry.1 {
            (CoreView { styles: v.styles.push(entry), ..v }, TextOutcome::Changed)
        } else {
            (v, TextOutcome::Unchanged)
        },
        EntryView::RemoveStyle { entry } => (
            CoreView { styles: remove_first(v.styles, entry), ..v },
            TextOutcome::Changed,
        ),
        _ => (v, TextOutcome::Continue),
    }
}

/// Step the log back and take back the entry there, if any.
pub open spec fn undo_step(v: CoreView) -> (CoreView, TextOutcome) {
    match v.undo {
        None => (v, TextOutcome::Continue),
        Some(u) => if u.idx == 0 {
            (v, TextOutcome::Continue)
        } else {
            undo_apply(
                CoreView { undo: Some(UndoView { idx: (u.idx - 1) as nat, ..u }), ..v },
                u.entries[u.idx - 1],
            )
        },
    }
}

/// Step the log forward and do the entry there again, if any.
pub open spec fn redo_step(v: CoreView) -> (CoreView, TextOutcome) {
    match v.undo {
        None => (v, TextOutcome::Continue),
        Some(u) => if u.idx >= u.entries.len() {
            (v, TextOutcome::Continue)
        } else {
            redo_apply(
                CoreView { undo: Some(UndoView { idx: u.idx + 1, ..u }), ..v },
                u.entries[u.idx as int],
            )
        },
    }
}

/// The result that `undo()` and `redo()` report for an outcome of
/// `undo_step` or `redo_step`: an entry that did not fit is an error.
pub open spec fn outcome_result(o: TextOutcome) -> Result<TextOutcome, TextError> {
    if o == TextOutcome::Unchanged {
        Err(TextError::EntryMismatch)
    } else {
        Ok(o)
    }
}

/// `undo()`: record the marker for replay, then step back.
pub open spec fn undo_spec(v: CoreView) -> (CoreView, TextOutcome) {
    match v.undo {
        None => (v, TextOutcome::Continue),
        Some(u) => undo_step(CoreView { undo: Some(append_spec(u, EntryView::Undo, true)), ..v }),
    }
}

/// `redo()`: record the marker for replay, then step forward.
pub open spec fn redo_spec(v: CoreView) -> (CoreView, TextOutcome) {
    match v.undo {
        None => (v, TextOutcome::Continue),
        Some(u) => redo_step(CoreView { undo: Some(append_spec(u, EntryView::Redo, true)), ..v }),
    }
}

/// The content change of one replayed entry, and whether it applied to this
/// text. Inserts and removals leave cursor and anchor where they are; a new
/// text clears styles and log.
pub open spec fn replay_content(v: CoreView, e: EntryView) -> (CoreView, bool) {
    match e {
        EntryView::SetText { txt } => if text_fits(txt) {
            (
                CoreView {
                    text: txt,
                    styles: Seq::empty(),
                    undo: match v.undo {
                        Some(u) => Some(UndoView { entries: Seq::empty(), idx: 0, ..u }),
                        None => None,
                    },
                    ..v
                },
                true,
            )
        } else {
            (v, false)
        },
        EntryView::Insert { bytes, txt, .. } => if bytes.0 <= bytes.1 {
            match text_insert_b(v.text, bytes.0, txt) {
                Some(t) => (
                    CoreView {
                        text: t,
                        styles: v.styles.map_values(
                            |x: StyleEntry| expand_entry(bytes.0, (bytes.1 - bytes.0) as usize, x),
                        ),
                        ..v
                    },
                    true,
                ),
                None => (v, false),
            }
        } else {
            (v, false)
        },
        EntryView::Remove { bytes, styles, .. } => match text_remove_b(v.text, bytes) {
            Some(t) => (
                CoreView { text: t, styles: reremove_styles(v.styles, bytes, styles), ..v },
                true,
            ),
            None => (v, false),
        },
        EntryView::SetStyles { after, .. } => if styles_ok(after) {
            (CoreView { styles: after, ..v }, true)
        } else {
            (v, false)
        },
        EntryView::AddStyle { entry } => if entry.0 <= entry.1 {
            (CoreView { styles: v.styles.push(entry), ..v }, true)
        } else {
            (v, false)
        },
        EntryView::RemoveStyle { entry } => if v.styles.contains(entry) {
            (CoreView { styles: remove_first(v.styles, entry), ..v }, true)
        } else {
            (v, false)
        },
        EntryView::Undo => (undo_step(v).0, true),
        EntryView::Redo => (redo_step(v).0, true),
    }
}

/// One replayed entry: its change, and, where it applied, the entry
/// recorded in the log but not again for replay. Cursor and anchor stay
/// where they are, even where the text is now shorter; only undo and redo
/// markers move them, as undo and redo do.
pub open spec fn replay_apply(v: CoreView, e: EntryView) -> CoreView {
    let (w, applied) = replay_content(v, e);
    if applied {
        CoreView {
            undo: match w.undo {
                Some(u) => Some(append_spec(u, e, false)),
                None => None,
            },
            ..w
        }
    } else {
        w
    }
}

/// An entry that marks a user's undo or redo.
pub open spec fn is_undo_redo(e: EntryView) -> bool {
    e is Undo || e is Redo
}

/// Replaying entries that hold no undo or redo marker leaves cursor and
/// anchor where they were.
pub proof fn lemma_replay_keeps_cursor(v: CoreView, es: Seq<EntryView>)
    requires
        forall|i: int| 0 <= i < es.len() ==> !is_undo_redo(#[trigger] es[i]),
    ensures
        replay_all(v, es).cursor == v.cursor,
        replay_all(v, es).anchor == v.anchor,
    decreases es.len(),
{
    if es.len() > 0 {
        let e0 = es.drop_last();
        assert forall|i: int| 0 <= i < e0.len() implies !is_undo_redo(#[trigger] e0[i]) by {
            assert(e0[i] == es[i]);
        }
        assert(!is_undo_redo(es[es.len() - 1]));
        lemma_replay_keeps_cursor(v, e0);
    }
}

/// A sequence of entries replayed in order.
pub open spec fn replay_all(v: CoreView, es: Seq<EntryView>) -> CoreView
    decreases es.len(),
{
    if es.len() == 0 {
        v
    } else {
        replay_apply(replay_all(v, es.drop_last()), es.last())
    }
}

/// The state after the text is replaced by `t`: styles and log cleared,
/// cursor and anchor capped, the new text recorded for replay where that is
/// switched on.
pub open spec fn set_text_spec(v: CoreView, t: Seq<char>) -> CoreView {
    CoreView {
        text: t,
        cursor: clamp_pos(t, v.cursor),
        anchor: clamp_pos(t, v.anchor),
        styles: Seq::empty(),
        undo: match v.undo {
            Some(u) => Some(
                append_spec(
                    UndoView { entries: Seq::empty(), idx: 0, ..u },
                    EntryView::SetText { txt: t },
                    u.track_replay,
                ),
            ),
            None => None,
        },
        ..v
    }
}

/// The state after `clear()`.
pub open spec fn clear_spec(v: CoreView) -> CoreView {
    CoreView {
        text: Seq::empty(),
        cursor: TextPosition { x: 0, y: 0 },
        anchor: TextPosition { x: 0, y: 0 },
        styles: Seq::empty(),
        undo: match v.undo {
            Some(u) => Some(UndoView { entries: Seq::empty(), idx: 0, ..u }),
            None => None,
        },
        ..v
    }
}

/// The state after removing the style `e`: where it is there, one copy goes
/// and the removal is recorded where style operations are; else nothing
/// changes.
pub open spec fn remove_style_spec(v: CoreView, e: StyleEntry) -> CoreView {
    if v.styles.contains(e) {
        CoreView {
            styles: remove_first(v.styles, e),
            undo: logged_style(v.undo, EntryView::RemoveStyle { entry: e }),
            ..v
        }
    } else {
        v
    }
}

/// `n` spaces.
pub open spec fn spaces(n: nat) -> Seq<char> {
    Seq::new(n, |i: int| ' ')
}

/// Spaces that an expanded tab at `pos` inserts: up to the next tab stop.
pub open spec fn tab_spaces(v: CoreView, pos: TextPosition) -> nat {
    if v.tabs == 0 {
        0
    } else {
        (v.tabs as int - (pos.x as int) % (v.tabs as int)) as nat
    }
}

/// The state after inserting `n` spaces one by one from `pos` on.
pub open spec fn insert_spaces(v: CoreView, pos: TextPosition, n: nat) -> CoreView
    decreases n,
{
    if n == 0 {
        v
    } else {
        insert_spec(
            insert_spaces(v, pos, (n - 1) as nat),
            TextPosition { x: (pos.x + n - 1) as u32, y: pos.y },
            seq![' '],
            true,
        )
    }
}

proof fn lemma_bytes_len_spaces(n: nat)
    ensures
        bytes_len(spaces(n)) == n,
    decreases n,
{
    if n > 0 {
        lemma_bytes_len_spaces((n - 1) as nat);
        assert(spaces(n).drop_last() =~= spaces((n - 1) as nat));
    }
}

/// A position capped to the text.
fn clamp_in(text: &TextString, p: TextPosition) -> (r: TextPosition)
    requires
        text.wf(),
    ensures
        r == clamp_pos(text@, p),
{
    let w = text.len() as u32;
    TextPosition::new(if p.x <= w { p.x } else { w }, 0)
}

/// Every range in the list has `start <= end`.
fn all_ordered(v: &Vec<(Range<usize>, usize)>) -> (r: bool)
    ensures
        r == styles_ok(styles_view(v@)),
        r == (forall|i: int| 0 <= i < v@.len() ==> #[trigger] v@[i].0.start <= v@[i].0.end),
{
    let mut i: usize = 0;
    while i < v.len()
        invariant
            0 <= i <= v@.len(),
            forall|j: int| 0 <= j < i ==> #[trigger] v@[j].0.start <= v@[j].0.end,
        decreases v@.len() - i,
    {
        if v[i].0.start > v[i].0.end {
            proof {
                assert(styles_view(v@)[i as int].0 > styles_view(v@)[i as int].1);
            }
            return false;
        }
        i += 1;
    }
    proof {
        assert forall|j: int| 0 <= j < styles_view(v@).len() implies #[trigger] styles_view(v@)[j].0
            <= styles_view(v@)[j].1 by {
            assert(v@[j].0.start <= v@[j].0.end);
        }
    }
    true
}

fn drop_afters_in(m: &mut RangeMap, ch: &Vec<StyleChange>)
    requires
        old(m).wf(),
    ensures
        final(m).wf(),
        final(m)@ == drop_afters(old(m)@, changes_view(ch@)),
{
    let ghost m0 = m@;
    let mut i: usize = 0;
    while i < ch.len()
        invariant
            0 <= i <= ch@.len(),
            m.wf(),
            m@ == drop_afters(m0, changes_view(ch@.take(i as int))),
        decreases ch@.len() - i,
    {
        proof {
            assert(changes_view(ch@.take(i + 1)).drop_last() =~= changes_view(ch@.take(i as int)));
        }
        let c = &ch[i];
        if c.after.start < c.after.end {
            m.remove(Range { start: c.after.start, end: c.after.end }, c.style);
        }
        i += 1;
    }
    proof {
        assert(ch@.take(ch@.len() as int) == ch@);
    }
}

fn drop_befores_in(m: &mut RangeMap, ch: &Vec<StyleChange>)
    requires
        old(m).wf(),
    ensures
        final(m).wf(),
        final(m)@ == drop_befores(old(m)@, changes_view(ch@)),
{
    let ghost m0 = m@;
    let mut i: usize = 0;
    while i < ch.len()
        invariant
            0 <= i <= ch@.len(),
            m.wf(),
            m@ == drop_befores(m0, changes_view(ch@.take(i as int))),
        decreases ch@.len() - i,
    {
        proof {
            assert(changes_view(ch@.take(i + 1)).drop_last() =~= changes_view(ch@.take(i as int)));
        }
        let c = &ch[i];
        m.remove(Range { start: c.before.start, end: c.before.end }, c.style);
        i += 1;
    }
    proof {
        assert(ch@.take(ch@.len() as int) == ch@);
    }
}

fn add_befores_in(m: &mut RangeMap, ch: &Vec<StyleChange>)
    requires
        old(m).wf(),
    ensures
        final(m).wf(),
        final(m)@ == add_befores(old(m)@, changes_view(ch@)),
{
    let ghost m0 = m@;
    let mut i: usize = 0;
    while i < ch.len()
        invariant
            0 <= i <= ch@.len(),
            m.wf(),
            m@ == add_befores(m0, changes_view(ch@.take(i as int))),
        decreases ch@.len() - i,
    {
        proof {
            assert(changes_view(ch@.take(i + 1)).drop_last() =~= changes_view(ch@.take(i as int)));
        }
        let c = &ch[i];
        if c.before.start <= c.before.end {
            m.add(Range { start: c.before.start, end: c.before.end }, c.style);
        }
        i += 1;
    }
    proof {
        assert(ch@.take(ch@.len() as int) == ch@);
    }
}

fn add_afters_in(m: &mut RangeMap, ch: &Vec<StyleChange>)
    requires
        old(m).wf(),
    ensures
        final(m).wf(),
        final(m)@ == add_afters(old(m)@, changes_view(ch@)),
{
    let ghost m0 = m@;
    let mut i: usize = 0;
    while i < ch.len()
        invariant
            0 <= i <= ch@.len(),
            m.wf(),
            m@ == add_afters(m0, changes_view(ch@.take(i as int))),
        decreases ch@.len() - i,
    {
        proof {
            assert(changes_view(ch@.take(i + 1)).drop_last() =~= changes_view(ch@.take(i as int)));
        }
        let c = &ch[i];
        if c.after.start < c.after.end {
            m.add(Range { start: c.after.start, end: c.after.end }, c.style);
        }
        i += 1;
    }
    proof {
        assert(ch@.take(ch@.len() as int) == ch@);
    }
}

/// Editing core over a single-line text.
#[derive(Debug)]
pub struct TextCore {
    text: TextString,
    cursor: TextPosition,
    anchor: TextPosition,
    styles: RangeMap,
    undo: Option<UndoVec>,
    clip: Option<LocalClipboard>,
    newline: String,
    tabs: u16,
    expand_tabs: bool,
    show_ctrl: bool,
}

impl View for TextCore {
    type V = CoreView;

    closed spec fn view(&self) -> CoreView {
        CoreView {
            text: self.text@,
            cursor: self.cursor,
            anchor: self.anchor,
            styles: self.styles@,
            undo: match self.undo {
                Some(u) => Some(u@),
                None => None,
            },
            clip: match self.clip {
                Some(c) => Some(c@),
                None => None,
            },
            newline: self.newline@,
            tabs: self.tabs,
            expand_tabs: self.expand_tabs,
            show_ctrl: self.show_ctrl,
        }
    }
}

/// All style ranges have `start <= end`.
pub open spec fn styles_ok(s: Seq<StyleEntry>) -> bool {
    forall|i: int| 0 <= i < s.len() ==> #[trigger] s[i].0 <= s[i].1
}

/// The core's invariant: the text fits its position types, cursor and
/// anchor lie on its row (a replay may leave them past its end), style
/// ranges are ordered and the log is consistent.
pub open spec fn core_ok(v: CoreView) -> bool {
    &&& text_fits(v.text)
    &&& v.cursor.y == 0
    &&& v.anchor.y == 0
    &&& styles_ok(v.styles)
    &&& match v.undo {
        Some(u) => undo_view_ok(u),
        None => true,
    }
}

impl TextCore {
    pub open spec fn wf(&self) -> bool {
        core_ok(self@)
    }

    proof fn lemma_wf(&self)
        requires
            self.wf(),
        ensures
            self.text.wf(),
            self.styles.wf(),
            self.undo is Some ==> self.undo.unwrap().wf(),
    {
    }

    /// The state of a new core.
    pub open spec fn new_view() -> CoreView {
        CoreView {
            text: Seq::empty(),
            cursor: TextPosition { x: 0, y: 0 },
            anchor: TextPosition { x: 0, y: 0 },
            styles: Seq::empty(),
            undo: Some(
                UndoView {
                    entries: Seq::empty(),
                    idx: 0,
                    replay: Seq::empty(),
                    capacity: 40,
                    undo_styles: false,
                    track_replay: false,
                },
            ),
            clip: Some(Seq::empty()),
            newline: seq!['\n'],
            tabs: 8,
            expand_tabs: true,
            show_ctrl: false,
        }
    }

    /// Empty text, an undo log of 40 entries, a local clipboard, newline
    /// `"\n"`, tab width 8 with tabs expanded, control characters hidden.
    pub fn new() -> (r: TextCore)
        ensures
            r.wf(),
            r@ == TextCore::new_view(),
            r@.text == Seq::<char>::empty(),
            r@.cursor == (TextPosition { x: 0, y: 0 }),
            r@.anchor == (TextPosition { x: 0, y: 0 }),
            r@.styles == Seq::<StyleEntry>::empty(),
            r@.undo == Some(
                UndoView {
                    entries: Seq::empty(),
                    idx: 0,
                    replay: Seq::empty(),
                    capacity: 40,
                    undo_styles: false,
                    track_replay: false,
                },
            ),
            r@.clip == Some(Seq::<char>::empty()),
            r@.newline == seq!['\n'],
            r@.tabs == 8,
            r@.expand_tabs,
            !r@.show_ctrl,
    {
        let mut newline = String::new();
        push_char(&mut newline, '\n');
        TextCore {
            text: TextString::new(),
            cursor: TextPosition::new(0, 0),
            anchor: TextPosition::new(0, 0),
            styles: RangeMap::new(),
            undo: Some(UndoVec::new(40)),
            clip: Some(LocalClipboard::new()),
            newline,
            tabs: 8,
            expand_tabs: true,
            show_ctrl: false,
        }
    }

    /// A copy of the core, with its own copies of log and clipboard.
    pub fn duplicate(&self) -> (r: TextCore)
        ensures
            r@ == self@,
    {
        TextCore {
            text: self.text.duplicate(),
            cursor: self.cursor,
            anchor: self.anchor,
            styles: self.styles.duplicate(),
            undo: match &self.undo {
                Some(u) => Some(u.duplicate()),
                None => None,
            },
            clip: match &self.clip {
                Some(c) => Some(c.duplicate()),
                None => None,
            },
            newline: self.newline.clone(),
            tabs: self.tabs,
            expand_tabs: self.expand_tabs,
            show_ctrl: self.show_ctrl,
        }
    }

    /// Sets the line ending used by `insert_newline`.
    pub fn set_newline(&mut self, br: String)
        requires
            old(self).wf(),
        ensures
            final(self).wf(),
            final(self)@ == (CoreView { newline: br@, ..old(self)@ }),
    {
        self.newline = br;
    }

    /// Line ending used by `insert_newline`.
    pub fn newline(&self) -> (r: &str)
        ensures
            r@ == self@.newline,
    {
        self.newline.as_str()
    }

    /// Set the tab width.
    pub fn set_tab_width(&mut self, tabs: u16)
        requires
            old(self).wf(),
        ensures
            final(self).wf(),
            final(self)@ == (CoreView { tabs, ..old(self)@ }),
    {
        self.tabs = tabs;
    }

    /// Tab width.
    pub fn tab_width(&self) -> (r: u16)
        ensures
            r == self@.tabs,
    {
        self.tabs
    }

    /// Expand tabs to spaces on input.
    pub fn set_expand_tabs(&mut self, expand: bool)
        requires
            old(self).wf(),
        ensures
            final(self).wf(),
            final(self)@ == (CoreView { expand_tabs: expand, ..old(self)@ }),
    {
        self.expand_tabs = expand;
    }

    /// Tabs are expanded to spaces on input.
    pub fn expand_tabs(&self) -> (r: bool)
        ensures
            r == self@.expand_tabs,
    {
        self.expand_tabs
    }

    /// Show control characters.
    pub fn set_show_ctrl(&mut self, show_ctrl: bool)
        requires
            old(self).wf(),
        ensures
            final(self).wf(),
            final(self)@ == (CoreView { show_ctrl, ..old(self)@ }),
    {
        self.show_ctrl = show_ctrl;
    }

    /// Control characters are shown.
    pub fn show_ctrl(&self) -> (r: bool)
        ensures
            r == self@.show_ctrl,
    {
        self.show_ctrl
    }

    /// Set or remove the clipboard.
    pub fn set_clipboard(&mut self, clip: Option<LocalClipboard>)
        requires
            old(self).wf(),
        ensures
            final(self).wf(),
            final(self)@ == (CoreView {
                clip: match clip {
                    Some(c) => Some(c@),
                    None => None,
                },
                ..old(self)@
            }),
    {
        self.clip = clip;
    }

    /// The clipboard.
    pub fn clipboard(&self) -> (r: Option<&LocalClipboard>)
        ensures
            match self@.clip {
                Some(c) => r.is_some() && r.unwrap()@ == c,
                None => r.is_none(),
            },
    {
        match &self.clip {
            None => None,
            Some(v) => Some(v),
        }
    }

    /// Set the text held by the clipboard; false where there is none.
    pub fn set_clipboard_text(&mut self, s: &str) -> (r: bool)
        requires
            old(self).wf(),
        ensures
            final(self).wf(),
            r == old(self)@.clip.is_some(),
            r ==> final(self)@ == (CoreView { clip: Some(s@), ..old(self)@ }),
            !r ==> final(self)@ == old(self)@,
    {
        match &mut self.clip {
            None => false,
            Some(c) => {
                let _ = c.set_string(s);
                true
            },
        }
    }

    /// Set or remove the undo log.
    pub fn set_undo_buffer(&mut self, undo: Option<UndoVec>)
        requires
            old(self).wf(),
            undo is Some ==> undo.unwrap().wf(),
        ensures
            final(self).wf(),
            final(self)@ == (CoreView {
                undo: match undo {
                    Some(u) => Some(u@),
                    None => None,
                },
                ..old(self)@
            }),
    {
        self.undo = undo;
    }

    /// The undo log.
    pub fn undo_buffer(&self) -> (r: Option<&UndoVec>)
        ensures
            match self@.undo {
                Some(u) => r.is_some() && r.unwrap()@ == u,
                None => r.is_none(),
            },
    {
        match &self.undo {
            None => None,
            Some(v) => Some(v),
        }
    }

    /// The undo log, to change in place. Whatever the caller does with it
    /// through its methods becomes the core's log.
    pub fn undo_buffer_mut(&mut self) -> (r: Option<&mut UndoVec>)
        ensures
            match old(self)@.undo {
                Some(u) => r is Some && (*r.unwrap())@ == u && final(self)@ == (CoreView {
                    undo: Some((*final(r.unwrap()))@),
                    ..old(self)@
                }),
                None => r is None && final(self)@ == old(self)@,
            },
    {
        match &mut self.undo {
            None => None,
            Some(v) => Some(v),
        }
    }

    /// Switch recording of style-only operations and of replay entries.
    pub fn set_undo_modes(&mut self, undo_styles: bool, replay: bool)
        requires
            old(self).wf(),
        ensures
            final(self).wf(),
            final(self)@ == (CoreView {
                undo: match old(self)@.undo {
                    Some(u) => Some(UndoView { undo_styles, track_replay: replay, ..u }),
                    None => None,
                },
                ..old(self)@
            }),
    {
        match &mut self.undo {
            None => {},
            Some(u) => {
                u.set_undo_styles(undo_styles);
                u.set_replay_log(replay);
            },
        }
    }

    /// Set the cursor, capped to the text. Unless the selection is extended
    /// the anchor moves along. Returns whether cursor or anchor changed.
    pub fn set_cursor(&mut self, cursor: TextPosition, extend_selection: bool) -> (r: bool)
        requires
            old(self).wf(),
        ensures
            final(self).wf(),
            final(self)@ == (CoreView {
                cursor: clamp_pos(old(self)@.text, cursor),
                anchor: if extend_selection {
                    old(self)@.anchor
                } else {
                    clamp_pos(old(self)@.text, cursor)
                },
                ..old(self)@
            }),
            r == (final(self)@.cursor != old(self)@.cursor || final(self)@.anchor != old(
                self,
            )@.anchor),
    {
        let old_cursor = self.cursor;
        let old_anchor = self.anchor;
        let w = self.text.len() as u32;
        let c = TextPosition::new(if cursor.x <= w { cursor.x } else { w }, 0);
        self.cursor = c;
        if !extend_selection {
            self.anchor = c;
        }
        old_cursor != self.cursor || old_anchor != self.anchor
    }

    /// Cursor position.
    pub fn cursor(&self) -> (r: TextPosition)
        ensures
            r == self@.cursor,
    {
        self.cursor
    }

    /// Selection anchor.
    pub fn anchor(&self) -> (r: TextPosition)
        ensures
            r == self@.anchor,
    {
        self.anchor
    }

    /// Cursor and anchor differ.
    pub fn has_selection(&self) -> (r: bool)
        ensures
            r == (self@.anchor != self@.cursor),
    {
        self.anchor != self.cursor
    }

    /// The selection from anchor to cursor, in (row, column) order.
    pub fn selection(&self) -> (r: TextRange)
        ensures
            r == ordered_range(self@.anchor, self@.cursor),
            r.wf(),
            r.start == self@.anchor || r.start == self@.cursor,
            r.end == (if r.start == self@.anchor {
                self@.cursor
            } else {
                self@.anchor
            }),
    {
        if self.cursor.before(&self.anchor) {
            TextRange { start: self.cursor, end: self.anchor }
        } else {
            TextRange { start: self.anchor, end: self.cursor }
        }
    }

    /// Select a range: anchor at its start, cursor at its end, both capped.
    /// Returns whether the selection changed.
    pub fn set_selection(&mut self, range: TextRange) -> (r: bool)
        requires
            old(self).wf(),
        ensures
            final(self).wf(),
            final(self)@ == (CoreView {
                cursor: clamp_pos(old(self)@.text, range.end),
                anchor: clamp_pos(old(self)@.text, range.start),
                ..old(self)@
            }),
            r == (ordered_range(final(self)@.anchor, final(self)@.cursor) != ordered_range(
                old(self)@.anchor,
                old(self)@.cursor,
            )),
    {
        let old_selection = self.selection();
        self.set_cursor(range.start, false);
        self.set_cursor(range.end, true);
        let new_selection = self.selection();
        old_selection != new_selection
    }

    /// Select the whole text. Returns whether the selection changed.
    pub fn select_all(&mut self) -> (r: bool)
        requires
            old(self).wf(),
        ensures
            final(self).wf(),
            final(self)@ == (CoreView {
                cursor: TextPosition { x: old(self)@.text.len() as u32, y: 0 },
                anchor: TextPosition { x: 0, y: 0 },
                ..old(self)@
            }),
            r == (ordered_range(final(self)@.anchor, final(self)@.cursor) != ordered_range(
                old(self)@.anchor,
                old(self)@.cursor,
            )),
    {
        let old_selection = self.selection();
        self.set_cursor(TextPosition::new(0, 0), false);
        let w = self.text.len() as u32;
        self.set_cursor(TextPosition::new(w, 0), true);
        let new_selection = self.selection();
        old_selection != new_selection
    }

    /// The text is empty.
    pub fn is_empty(&self) -> (r: bool)
        ensures
            r == (self@.text.len() == 0),
    {
        self.text.len() == 0
    }

    /// Byte range of the grapheme at `pos`.
    pub fn byte_at(&self, pos: TextPosition) -> (r: Result<Range<usize>, TextError>)
        requires
            self.wf(),
        ensures
            match pos_error(self@.text, pos) {
                Some(e) => r == Err::<Range<usize>, TextError>(e),
                None => r.is_ok() && r.unwrap().start == byte_off(self@.text, pos.x as int) && (
                if pos.x < self@.text.len() {
                    r.unwrap().end == byte_off(self@.text, pos.x + 1)
                } else {
                    r.unwrap().end == byte_off(self@.text, pos.x as int)
                }),
            },
    {
        self.text.byte_range_at(pos)
    }

    /// Byte range of a range of graphemes.
    pub fn bytes_at_range(&self, range: TextRange) -> (r: Result<Range<usize>, TextError>)
        requires
            self.wf(),
        ensures
            match range_error(self@.text, range) {
                Some(e) => r == Err::<Range<usize>, TextError>(e),
                None => r.is_ok() && r.unwrap().start == byte_off(self@.text, range.start.x as int)
                    && r.unwrap().end == byte_off(self@.text, range.end.x as int),
            },
    {
        self.text.byte_range(range)
    }

    /// Position of the grapheme that holds `byte`.
    pub fn byte_pos(&self, byte: usize) -> (r: Result<TextPosition, TextError>)
        requires
            self.wf(),
        ensures
            match r {
                Ok(p) => byte <= bytes_len(self@.text) && p.y == 0 && p.x <= self@.text.len()
                    && byte_off(self@.text, p.x as int) <= byte && (p.x == self@.text.len() || byte
                    < byte_off(self@.text, p.x + 1)),
                Err(e) => byte > bytes_len(self@.text) && e == TextError::ByteIndexOutOfBounds(
                    byte,
                    bytes_len(self@.text) as usize,
                ),
            },
    {
        self.text.byte_to_pos(byte)
    }

    /// Range of the graphemes that hold the bytes.
    pub fn byte_range(&self, bytes: Range<usize>) -> (r: Result<TextRange, TextError>)
        requires
            self.wf(),
        ensures
            match r {
                Ok(t) => bytes.start <= bytes.end <= bytes_len(self@.text) && t.wf() && t.start.y
                    == 0 && t.end.y == 0 && t.end.x <= self@.text.len() && byte_off(self@.text, t.start.x as int) <= bytes.start
                    && (t.start.x == self@.text.len() || bytes.start < byte_off(
                    self@.text,
                    t.start.x + 1,
                )) && byte_off(self@.text, t.end.x as int) <= bytes.end && (t.end.x
                    == self@.text.len() || bytes.end < byte_off(self@.text, t.end.x + 1)),
                Err(e) => bytes.start > bytes.end || bytes.end > bytes_len(self@.text),
            },
    {
        self.text.bytes_to_range(bytes)
    }

    /// The text of a range.
    pub fn str_slice(&self, range: TextRange) -> (r: Result<String, TextError>)
        requires
            self.wf(),
            range.wf(),
        ensures
            match range_error(self@.text, range) {
                Some(e) => r == Err::<String, TextError>(e),
                None => r.is_ok() && r.unwrap()@ == self@.text.subrange(
                    range.start.x as int,
                    range.end.x as int,
                ),
            },
    {
        self.text.str_slice(range)
    }

    /// The text of a row.
    pub fn line_at(&self, row: upos_type) -> (r: Result<String, TextError>)
        requires
            self.wf(),
        ensures
            row == 0 ==> r.is_ok() && r.unwrap()@ == self@.text,
            row != 0 ==> r == Err::<String, TextError>(TextError::LineIndexOutOfBounds(row, 1)),
    {
        self.text.line_at(row)
    }

    /// The texts of the rows from `row` on.
    pub fn lines_at(&self, row: upos_type) -> (r: Result<Vec<String>, TextError>)
        requires
            self.wf(),
        ensures
            row == 0 ==> r.is_ok() && r.unwrap()@.len() == 1 && r.unwrap()@[0]@ == self@.text,
            row == 1 ==> r.is_ok() && r.unwrap()@.len() == 0,
            row > 1 ==> r == Err::<Vec<String>, TextError>(TextError::LineIndexOutOfBounds(row, 1)),
    {
        if row == 0 {
            let mut v: Vec<String> = Vec::new();
            v.push(self.text.string());
            Ok(v)
        } else if row == 1 {
            Ok(Vec::new())
        } else {
            Err(TextError::LineIndexOutOfBounds(row, 1))
        }
    }

    /// Width of a row in graphemes.
    pub fn line_width(&self, row: upos_type) -> (r: Result<upos_type, TextError>)
        requires
            self.wf(),
        ensures
            row == 0 ==> r == Ok::<upos_type, TextError>(self@.text.len() as u32),
            row != 0 ==> r == Err::<upos_type, TextError>(TextError::LineIndexOutOfBounds(row, 1)),
    {
        self.text.line_width(row)
    }

    /// Number of rows.
    pub fn len_lines(&self) -> (r: upos_type)
        ensures
            r == 1,
    {
        self.text.len_lines()
    }

    /// The text store.
    pub fn text(&self) -> (r: &TextString)
        ensures
            r@ == self@.text,
            r.wf() == text_fits(self@.text),
    {
        &self.text
    }

    /// The whole text as a string.
    pub fn string(&self) -> (r: String)
        ensures
            r@ == self@.text,
    {
        self.text.string()
    }

    /// All styles as (byte range, tag).
    pub fn styles(&self) -> (r: Vec<(Range<usize>, usize)>)
        ensures
            styles_view(r@) == self@.styles,
    {
        let r = self.styles.values();
        proof {
            assert(styles_view(r@) =~= self@.styles);
        }
        r
    }

    /// Append the tags of all styles whose range holds byte `byte_pos`.
    pub fn styles_at(&self, byte_pos: usize, buf: &mut Vec<usize>)
        ensures
            final(buf)@ == old(buf)@ + tags_at(self@.styles, byte_pos),
    {
        self.styles.values_at(byte_pos, buf)
    }

    /// The range of the first style with this tag that holds `byte_pos`.
    pub fn style_match(&self, byte_pos: usize, style: usize) -> (r: Option<Range<usize>>)
        ensures
            match first_match(self@.styles, byte_pos, style) {
                None => r.is_none(),
                Some(t) => r.is_some() && r.unwrap().start == t.0 && r.unwrap().end == t.1,
            },
    {
        self.styles.value_match(byte_pos, style)
    }

    /// Replace all styles. Recorded where style operations are recorded.
    pub fn set_styles(&mut self, styles: Vec<(Range<usize>, usize)>)
        requires
            old(self).wf(),
            forall|i: int| 0 <= i < styles@.len() ==> #[trigger] styles@[i].0.start <= styles@[i].0.end,
        ensures
            final(self).wf(),
            final(self)@ == (CoreView {
                styles: styles_view(styles@),
                undo: logged_style(
                    old(self)@.undo,
                    EntryView::SetStyles { before: old(self)@.styles, after: styles_view(styles@) },
                ),
                ..old(self)@
            }),
    {
        proof {
            self.lemma_wf();
        }
        match &mut self.undo {
            Some(undo) => {
                if undo.undo_styles_enabled() || undo.replay_log() {
                    let before = self.styles.values();
                    proof {
                        assert(styles_view(before@) =~= self.styles@);
                    }
                    undo.append(
                        UndoEntry::SetStyles {
                            styles_before: before,
                            styles_after: crate::undo_buffer::duplicate_styles(&styles),
                        },
                    );
                }
            },
            None => {},
        }
        self.styles.set(&styles);
    }

    /// Add a style for a byte range. Recorded where style operations are
    /// recorded.
    pub fn add_style(&mut self, range: Range<usize>, style: usize)
        requires
            old(self).wf(),
            range.start <= range.end,
        ensures
            final(self).wf(),
            final(self)@ == (CoreView {
                styles: old(self)@.styles.push(entry_of(range, style)),
                undo: logged_style(old(self)@.undo, EntryView::AddStyle { entry: entry_of(range, style) }),
                ..old(self)@
            }),
    {
        proof {
            self.lemma_wf();
        }
        let r2 = Range { start: range.start, end: range.end };
        self.styles.add(range, style);
        match &mut self.undo {
            Some(undo) => {
                if undo.undo_styles_enabled() || undo.replay_log() {
                    undo.append(UndoEntry::AddStyle { range: r2, style });
                }
            },
            None => {},
        }
    }

    /// Remove the first style with exactly this range and tag. Where there
    /// is none nothing happens and nothing is recorded; else the removal is
    /// recorded where style operations are recorded. Returns whether a style
    /// was removed.
    pub fn remove_style(&mut self, range: Range<usize>, style: usize) -> (r: bool)
        requires
            old(self).wf(),
        ensures
            final(self).wf(),
            r == old(self)@.styles.contains(entry_of(range, style)),
            final(self)@ == remove_style_spec(old(self)@, entry_of(range, style)),
    {
        proof {
            self.lemma_wf();
        }
        let ghost v = self@;
        let r2 = Range { start: range.start, end: range.end };
        let removed = self.styles.remove(range, style);
        if !removed {
            proof {
                crate::lemmas::lemma_remove_absent(v.styles, entry_of(r2, style));
            }
            return false;
        }
        match &mut self.undo {
            Some(undo) => {
                if undo.undo_styles_enabled() || undo.replay_log() {
                    undo.append(UndoEntry::RemoveStyle { range: r2, style });
                }
            },
            None => {},
        }
        true
    }

    /// Empty text, cursor and anchor at the start, no styles, empty log.
    pub fn clear(&mut self)
        requires
            old(self).wf(),
        ensures
            final(self).wf(),
            final(self)@ == clear_spec(old(self)@),
    {
        proof {
            self.lemma_wf();
        }
        self.text = TextString::new();
        self.cursor = TextPosition::new(0, 0);
        self.anchor = TextPosition::new(0, 0);
        self.styles.clear();
        match &mut self.undo {
            Some(undo) => undo.clear(),
            None => {},
        }
    }

    /// Replace the text. Clears the styles and the log, caps cursor and
    /// anchor; where replay is recorded the new text is recorded for it.
    pub fn set_text(&mut self, t: TextString) -> (r: bool)
        requires
            old(self).wf(),
            t.wf(),
        ensures
            r,
            final(self).wf(),
            final(self)@ == set_text_spec(old(self)@, t@),
    {
        proof {
            self.lemma_wf();
        }
        self.text = t;
        self.styles.clear();
        let w = self.text.len() as u32;
        self.cursor = TextPosition::new(if self.cursor.x <= w { self.cursor.x } else { w }, 0);
        self.anchor = TextPosition::new(if self.anchor.x <= w { self.anchor.x } else { w }, 0);
        match &mut self.undo {
            Some(undo) => {
                undo.clear();
                if undo.replay_log() {
                    undo.append(UndoEntry::SetText { txt: self.text.string() });
                }
            },
            None => {},
        }
        true
    }

    /// Insert a character at a position.
    pub fn insert_char(&mut self, pos: TextPosition, c: char) -> (r: Result<bool, TextError>)
        requires
            old(self).wf(),
        ensures
            final(self).wf(),
            match insert_error(old(self)@, pos, seq![c]) {
                Some(e) => r == Err::<bool, TextError>(e) && final(self)@ == old(self)@,
                None => r == Ok::<bool, TextError>(true) && final(self)@ == insert_spec(
                    old(self)@,
                    pos,
                    seq![c],
                    true,
                ),
            },
    {
        let mut txt = String::new();
        push_char(&mut txt, c);
        proof {
            assert(seq![c].drop_last() == Seq::<char>::empty());
            assert(seq![c].len() == 1 && seq![c].last() == c);
            assert(bytes_len(Seq::<char>::empty()) == 0);
            assert(bytes_len(seq![c]) == utf8_len(c));
            assert(txt@ == seq![c]);
        }
        self.insert_entry(pos, txt, true)
    }

    /// Insert a string at a position. An empty string is no change.
    pub fn insert_str(&mut self, pos: TextPosition, t: &str) -> (r: Result<bool, TextError>)
        requires
            old(self).wf(),
        ensures
            final(self).wf(),
            match insert_error(old(self)@, pos, t@) {
                Some(e) => r == Err::<bool, TextError>(e) && final(self)@ == old(self)@,
                None => if t@.len() == 0 {
                    r == Ok::<bool, TextError>(false) && final(self)@ == old(self)@
                } else {
                    r == Ok::<bool, TextError>(true) && final(self)@ == insert_spec(
                        old(self)@,
                        pos,
                        t@,
                        false,
                    )
                },
            },
    {
        if t.is_empty() {
            if pos.y != 0 {
                return Err(TextError::LineIndexOutOfBounds(pos.y, 1));
            }
            if pos.x as usize > self.text.len() {
                return Err(TextError::ColumnIndexOutOfBounds(pos.x, self.text.len() as u32));
            }
            proof {
                assert(spliced(self@.text, pos.x as int, t@) =~= self@.text);
            }
            return Ok(false);
        }
        let txt = t.to_string();
        proof {
            assert(txt@ == t@);
        }
        self.insert_entry(pos, txt, false)
    }

    fn insert_entry(&mut self, pos: TextPosition, txt: String, char_level: bool) -> (r: Result<bool, TextError>)
        requires
            old(self).wf(),
        ensures
            final(self).wf(),
            match insert_error(old(self)@, pos, txt@) {
                Some(e) => r == Err::<bool, TextError>(e) && final(self)@ == old(self)@,
                None => r == Ok::<bool, TextError>(true) && final(self)@ == insert_spec(
                    old(self)@,
                    pos,
                    txt@,
                    char_level,
                ),
            },
    {
        proof {
            self.lemma_wf();
        }
        let ghost v = self@;
        let old_cursor = self.cursor;
        let old_anchor = self.anchor;
        let capped_cursor = clamp_in(&self.text, self.cursor);
        let capped_anchor = clamp_in(&self.text, self.anchor);
        let (inserted_range, inserted_bytes) = match self.text.insert_str(pos, txt.as_str()) {
            Ok(x) => x,
            Err(e) => return Err(e),
        };
        self.styles.expand(inserted_bytes.start, inserted_bytes.end - inserted_bytes.start);
        self.cursor = inserted_range.expand_pos(capped_cursor);
        self.anchor = inserted_range.expand_pos(capped_anchor);
        match &mut self.undo {
            Some(undo) => {
                let cursor = TextPositionChange { before: old_cursor, after: self.cursor };
                let anchor = TextPositionChange { before: old_anchor, after: self.anchor };
                let bytes = Range { start: inserted_bytes.start, end: inserted_bytes.end };
                if char_level {
                    undo.append(UndoEntry::InsertChar { bytes, cursor, anchor, txt });
                } else {
                    undo.append(UndoEntry::InsertStr { bytes, cursor, anchor, txt });
                }
            },
            None => {},
        }
        proof {
            assert(self@.styles =~= insert_spec(v, pos, txt@, char_level).styles);
            assert(self@ == insert_spec(v, pos, txt@, char_level));
        }
        Ok(true)
    }

    /// Remove a range, recorded as removed characters. An empty range is no
    /// change.
    pub fn remove_char_range(&mut self, range: TextRange) -> (r: Result<bool, TextError>)
        requires
            old(self).wf(),
            range.wf(),
        ensures
            final(self).wf(),
            range.start == range.end ==> r == Ok::<bool, TextError>(false) && final(self)@ == old(
                self,
            )@,
            range.start != range.end ==> match range_error(old(self)@.text, range) {
                Some(e) => r == Err::<bool, TextError>(e) && final(self)@ == old(self)@,
                None => r == Ok::<bool, TextError>(true) && final(self)@ == remove_spec(
                    old(self)@,
                    range,
                    true,
                ),
            },
    {
        self.remove_range(range, true)
    }

    /// Remove a range, recorded as a removed string. An empty range is no
    /// change.
    pub fn remove_str_range(&mut self, range: TextRange) -> (r: Result<bool, TextError>)
        requires
            old(self).wf(),
            range.wf(),
        ensures
            final(self).wf(),
            range.start == range.end ==> r == Ok::<bool, TextError>(false) && final(self)@ == old(
                self,
            )@,
            range.start != range.end ==> match range_error(old(self)@.text, range) {
                Some(e) => r == Err::<bool, TextError>(e) && final(self)@ == old(self)@,
                None => r == Ok::<bool, TextError>(true) && final(self)@ == remove_spec(
                    old(self)@,
                    range,
                    false,
                ),
            },
    {
        self.remove_range(range, false)
    }

    fn remove_range(&mut self, range: TextRange, char_range: bool) -> (r: Result<bool, TextError>)
        requires
            old(self).wf(),
            range.wf(),
        ensures
            final(self).wf(),
            range.start == range.end ==> r == Ok::<bool, TextError>(false) && final(self)@ == old(
                self,
            )@,
            range.start != range.end ==> match range_error(old(self)@.text, range) {
                Some(e) => r == Err::<bool, TextError>(e) && final(self)@ == old(self)@,
                None => r == Ok::<bool, TextError>(true) && final(self)@ == remove_spec(
                    old(self)@,
                    range,
                    char_range,
                ),
            },
    {
        proof {
            self.lemma_wf();
        }
        let ghost v = self@;
        let old_cursor = self.cursor;
        let old_anchor = self.anchor;
        if range.is_empty() {
            return Ok(false);
        }
        let (old_text, (_removed_range, removed_bytes)) = match self.text.remove(range) {
            Ok(x) => x,
            Err(e) => return Err(e),
        };
        proof {
            crate::text_store::lemma_byte_off_mono(v.text, range.start.x as int, range.end.x as int);
        }
        let changed_style = self.styles.cut(removed_bytes.start, removed_bytes.end);
        self.anchor = range.shrink_pos(self.anchor);
        self.cursor = range.shrink_pos(self.cursor);
        match &mut self.undo {
            Some(undo) => {
                let cursor = TextPositionChange { before: old_cursor, after: self.cursor };
                let anchor = TextPositionChange { before: old_anchor, after: self.anchor };
                let bytes = Range { start: removed_bytes.start, end: removed_bytes.end };
                if char_range {
                    undo.append(
                        UndoEntry::RemoveChar { bytes, cursor, anchor, txt: old_text, styles: changed_style },
                    );
                } else {
                    undo.append(
                        UndoEntry::RemoveStr { bytes, cursor, anchor, txt: old_text, styles: changed_style },
                    );
                }
            },
            None => {},
        }
        proof {
            assert(self@ == remove_spec(v, range, char_range));
        }
        Ok(true)
    }

    /// Remove the grapheme before `pos`; at the start of the text nothing.
    pub fn remove_prev_char(&mut self, pos: TextPosition) -> (r: Result<bool, TextError>)
        requires
            old(self).wf(),
        ensures
            final(self).wf(),
            pos.y != 0 ==> final(self)@ == old(self)@ && r == Err::<bool, TextError>(
                if pos.x == 0 && pos.y > 1 {
                    TextError::LineIndexOutOfBounds((pos.y - 1) as u32, 1)
                } else {
                    TextError::LineIndexOutOfBounds(pos.y, 1)
                },
            ),
            pos.y == 0 && pos.x == 0 ==> r == Ok::<bool, TextError>(false) && final(self)@ == old(
                self,
            )@,
            pos.y == 0 && pos.x > old(self)@.text.len() ==> final(self)@ == old(self)@ && r == Err::<
                bool,
                TextError,
            >(
                if pos.x - 1 > old(self)@.text.len() {
                    TextError::ColumnIndexOutOfBounds((pos.x - 1) as u32, old(self)@.text.len() as u32)
                } else {
                    TextError::ColumnIndexOutOfBounds(pos.x, old(self)@.text.len() as u32)
                },
            ),
            pos.y == 0 && 0 < pos.x <= old(self)@.text.len() ==> r == Ok::<bool, TextError>(true)
                && final(self)@ == remove_spec(
                old(self)@,
                TextRange {
                    start: TextPosition { x: (pos.x - 1) as u32, y: 0 },
                    end: pos,
                },
                true,
            ),
    {
        let range = if pos.y == 0 && pos.x == 0 {
            TextRange::new((0, 0), (0, 0))
        } else if pos.y != 0 && pos.x == 0 {
            let prev_line_width = match self.line_width(pos.y - 1) {
                Ok(w) => w,
                Err(e) => return Err(e),
            };
            TextRange::new((prev_line_width, pos.y - 1), (pos.x, pos.y))
        } else {
            TextRange::new((pos.x - 1, pos.y), (pos.x, pos.y))
        };
        self.remove_char_range(range)
    }

    /// Remove the grapheme after `pos`; at the end of the text nothing.
    pub fn remove_next_char(&mut self, pos: TextPosition) -> (r: Result<bool, TextError>)
        requires
            old(self).wf(),
        ensures
            final(self).wf(),
            pos.y != 0 ==> final(self)@ == old(self)@ && r == Err::<bool, TextError>(
                TextError::LineIndexOutOfBounds(pos.y, 1),
            ),
            pos.y == 0 && pos.x == old(self)@.text.len() ==> r == Ok::<bool, TextError>(false)
                && final(self)@ == old(self)@,
            pos.y == 0 && pos.x > old(self)@.text.len() ==> final(self)@ == old(self)@ && r == Err::<
                bool,
                TextError,
            >(TextError::ColumnIndexOutOfBounds(pos.x, old(self)@.text.len() as u32)),
            pos.y == 0 && pos.x < old(self)@.text.len() ==> r == Ok::<bool, TextError>(true)
                && final(self)@ == remove_spec(
                old(self)@,
                TextRange {
                    start: pos,
                    end: TextPosition { x: (pos.x + 1) as u32, y: 0 },
                },
                true,
            ),
    {
        let c_line_width = match self.line_width(pos.y) {
            Ok(w) => w,
            Err(e) => return Err(e),
        };
        if pos.x > c_line_width {
            return Err(TextError::ColumnIndexOutOfBounds(pos.x, c_line_width));
        }
        let range = if pos.x == c_line_width {
            TextRange::new((pos.x, pos.y), (pos.x, pos.y))
        } else {
            TextRange::new((pos.x, pos.y), (pos.x + 1, pos.y))
        };
        self.remove_char_range(range)
    }

    /// Insert a line break; this store holds a single line, so nothing is
    /// inserted.
    pub fn insert_newline(&mut self, pos: TextPosition) -> (r: Result<bool, TextError>)
        requires
            old(self).wf(),
        ensures
            final(self).wf(),
            r == Ok::<bool, TextError>(false),
            final(self)@ == old(self)@,
    {
        if self.text.is_multi_line() {
            Ok(true)
        } else {
            Ok(false)
        }
    }

    /// Insert a tab: with tabs expanded, spaces up to the next tab stop, one
    /// by one (none with a tab width of 0, which is no change); else a tab
    /// character.
    pub fn insert_tab(&mut self, pos: TextPosition) -> (r: Result<bool, TextError>)
        requires
            old(self).wf(),
        ensures
            final(self).wf(),
            !old(self)@.expand_tabs ==> match insert_error(old(self)@, pos, seq!['\t']) {
                Some(e) => r == Err::<bool, TextError>(e) && final(self)@ == old(self)@,
                None => r == Ok::<bool, TextError>(true) && final(self)@ == insert_spec(
                    old(self)@,
                    pos,
                    seq!['\t'],
                    true,
                ),
            },
            old(self)@.expand_tabs ==> match insert_error(
                old(self)@,
                pos,
                spaces(tab_spaces(old(self)@, pos)),
            ) {
                Some(e) => r == Err::<bool, TextError>(e) && final(self)@ == old(self)@,
                None => r == Ok::<bool, TextError>(tab_spaces(old(self)@, pos) > 0) && final(self)@
                    == insert_spaces(old(self)@, pos, tab_spaces(old(self)@, pos)),
            },
    {
        if !self.expand_tabs {
            return self.insert_char(pos, '\t');
        }
        proof {
            self.lemma_wf();
        }
        let ghost v = self@;
        let n: u32 = if self.tabs == 0 {
            0
        } else {
            self.tabs as u32 - (pos.x % self.tabs as u32)
        };
        if pos.y != 0 {
            return Err(TextError::LineIndexOutOfBounds(pos.y, 1));
        }
        let len = self.text.len();
        if pos.x as usize > len {
            return Err(TextError::ColumnIndexOutOfBounds(pos.x, len as u32));
        }
        let total = self.text.byte_len();
        proof {
            let sp = spaces(n as nat);
            let s = v.text;
            let x = pos.x as int;
            assert(s == s.take(x) + s.skip(x));
            crate::text_store::lemma_bytes_len_concat(s.take(x), s.skip(x));
            crate::text_store::lemma_bytes_len_concat(s.take(x), sp);
            crate::text_store::lemma_bytes_len_concat(s.take(x) + sp, s.skip(x));
            lemma_bytes_len_spaces(n as nat);
        }
        if n as usize > u32::MAX as usize - len || n as usize > usize::MAX - total {
            return Err(TextError::TextTooLong);
        }
        let mut i: u32 = 0;
        while i < n
            invariant
                0 <= i <= n,
                v.tabs == self@.tabs,
                pos.y == 0,
                pos.x <= v.text.len(),
                self.wf(),
                self@ == insert_spaces(v, pos, i as nat),
                self@.text == spliced(v.text, pos.x as int, spaces(i as nat)),
                v.text.len() + n <= u32::MAX,
                bytes_len(v.text) + n <= usize::MAX,
            decreases n - i,
        {
            let ghost w = self@;
            let p = TextPosition::new(pos.x + i, 0);
            proof {
                let s = v.text;
                let x = pos.x as int;
                let sp = spaces(i as nat);
                assert(spliced(w.text, p.x as int, seq![' ']) =~= spliced(s, x, spaces((i + 1) as nat)));
                let sp1 = spaces((i + 1) as nat);
                assert(s == s.take(x) + s.skip(x));
                crate::text_store::lemma_bytes_len_concat(s.take(x), s.skip(x));
                crate::text_store::lemma_bytes_len_concat(s.take(x), sp1);
                crate::text_store::lemma_bytes_len_concat(s.take(x) + sp1, s.skip(x));
                lemma_bytes_len_spaces((i + 1) as nat);
            }
            match self.insert_char(p, ' ') {
                Ok(_) => {},
                Err(e) => return Err(e),
            }
            i += 1;
        }
        Ok(n > 0)
    }


    /// Undo the last operation. Records the marker for replay. With nothing
    /// to undo the outcome is `Continue`; an entry that does not fit the
    /// text is an error, and the log has stepped past it.
    pub fn undo(&mut self) -> (r: Result<TextOutcome, TextError>)
        requires
            old(self).wf(),
        ensures
            final(self).wf(),
            final(self)@ == undo_spec(old(self)@).0,
            r == outcome_result(undo_spec(old(self)@).1),
    {
        match &mut self.undo {
            None => return Ok(TextOutcome::Continue),
            Some(undo) => undo.append(UndoEntry::Undo),
        }
        let o = self.undo_step();
        if o == TextOutcome::Unchanged {
            Err(TextError::EntryMismatch)
        } else {
            Ok(o)
        }
    }

    /// Redo the last undone operation. Records the marker for replay. With
    /// nothing to redo the outcome is `Continue`; an entry that does not fit
    /// the text is an error, and the log has stepped past it.
    pub fn redo(&mut self) -> (r: Result<TextOutcome, TextError>)
        requires
            old(self).wf(),
        ensures
            final(self).wf(),
            final(self)@ == redo_spec(old(self)@).0,
            r == outcome_result(redo_spec(old(self)@).1),
    {
        match &mut self.undo {
            None => return Ok(TextOutcome::Continue),
            Some(undo) => undo.append(UndoEntry::Redo),
        }
        let o = self.redo_step();
        if o == TextOutcome::Unchanged {
            Err(TextError::EntryMismatch)
        } else {
            Ok(o)
        }
    }

    fn undo_step(&mut self) -> (r: TextOutcome)
        requires
            old(self).wf(),
        ensures
            final(self).wf(),
            (final(self)@, r) == undo_step(old(self)@),
    {
        let op = match &mut self.undo {
            None => return TextOutcome::Continue,
            Some(undo) => undo.undo(),
        };
        match op {
            None => TextOutcome::Continue,
            Some(e) => {
                proof {
                    let u = old(self)@.undo.unwrap();
                    assert(!is_marker(u.entries[u.idx - 1]));
                }
                self.apply_undo(&e)
            },
        }
    }

    fn redo_step(&mut self) -> (r: TextOutcome)
        requires
            old(self).wf(),
        ensures
            final(self).wf(),
            (final(self)@, r) == redo_step(old(self)@),
    {
        let op = match &mut self.undo {
            None => return TextOutcome::Continue,
            Some(undo) => undo.redo(),
        };
        match op {
            None => TextOutcome::Continue,
            Some(e) => self.apply_redo(&e),
        }
    }

    fn apply_undo(&mut self, e: &UndoEntry) -> (r: TextOutcome)
        requires
            old(self).wf(),
        ensures
            final(self).wf(),
            (final(self)@, r) == undo_apply(old(self)@, e@),
    {
        proof {
            self.lemma_wf();
        }
        let ghost v = self@;
        match e {
            UndoEntry::InsertChar { bytes, cursor, anchor, .. } | UndoEntry::InsertStr {
                bytes,
                cursor,
                anchor,
                ..
            } => {
                match self.text.remove_b(Range { start: bytes.start, end: bytes.end }) {
                    Ok(_) => {},
                    Err(_) => return TextOutcome::Unchanged,
                }
                self.styles.shrink(bytes.start, bytes.end);
                self.anchor = TextPosition::new(anchor.before.x, 0);
                self.cursor = TextPosition::new(cursor.before.x, 0);
                proof {
                    assert(self@ == undo_apply(v, e@).0);
                }
                TextOutcome::TextChanged
            },
            UndoEntry::RemoveChar { bytes, cursor, anchor, txt, styles } | UndoEntry::RemoveStr {
                bytes,
                cursor,
                anchor,
                txt,
                styles,
            } => {
                if bytes.start > bytes.end {
                    return TextOutcome::Unchanged;
                }
                match self.text.insert_b(bytes.start, txt.as_str()) {
                    Ok(_) => {},
                    Err(_) => return TextOutcome::Unchanged,
                }
                drop_afters_in(&mut self.styles, styles);
                self.styles.expand(bytes.start, bytes.end - bytes.start);
                add_befores_in(&mut self.styles, styles);
                self.anchor = TextPosition::new(anchor.before.x, 0);
                self.cursor = TextPosition::new(cursor.before.x, 0);
                proof {
                    assert(self@ == undo_apply(v, e@).0);
                }
                TextOutcome::TextChanged
            },
            UndoEntry::SetStyles { styles_before, .. } => {
                if !all_ordered(styles_before) {
                    return TextOutcome::Unchanged;
                }
                self.styles.set(styles_before);
                TextOutcome::Changed
            },
            UndoEntry::AddStyle { range, style } => {
                self.styles.remove(Range { start: range.start, end: range.end }, *style);
                TextOutcome::Changed
            },
            UndoEntry::RemoveStyle { range, style } => {
                if range.start > range.end {
                    return TextOutcome::Unchanged;
                }
                self.styles.add(Range { start: range.start, end: range.end }, *style);
                TextOutcome::Changed
            },
            _ => TextOutcome::Continue,
        }
    }

    fn apply_redo(&mut self, e: &UndoEntry) -> (r: TextOutcome)
        requires
            old(self).wf(),
        ensures
            final(self).wf(),
            (final(self)@, r) == redo_apply(old(self)@, e@),
    {
        proof {
            self.lemma_wf();
        }
        let ghost v = self@;
        match e {
            UndoEntry::InsertChar { bytes, cursor, anchor, txt } | UndoEntry::InsertStr {
                bytes,
                cursor,
                anchor,
                txt,
            } => {
                if bytes.start > bytes.end {
                    return TextOutcome::Unchanged;
                }
                match self.text.insert_b(bytes.start, txt.as_str()) {
                    Ok(_) => {},
                    Err(_) => return TextOutcome::Unchanged,
                }
                self.styles.expand(bytes.start, bytes.end - bytes.start);
                self.anchor = TextPosition::new(anchor.after.x, 0);
                self.cursor = TextPosition::new(cursor.after.x, 0);
                proof {
                    assert(self@ == redo_apply(v, e@).0);
                }
                TextOutcome::TextChanged
            },
            UndoEntry::RemoveChar { bytes, cursor, anchor, styles, .. } | UndoEntry::RemoveStr {
                bytes,
                cursor,
                anchor,
                styles,
                ..
            } => {
                match self.text.remove_b(Range { start: bytes.start, end: bytes.end }) {
                    Ok(_) => {},
                    Err(_) => return TextOutcome::Unchanged,
                }
                drop_befores_in(&mut self.styles, styles);
                self.styles.shrink(bytes.start, bytes.end);
                add_afters_in(&mut self.styles, styles);
                self.anchor = TextPosition::new(anchor.after.x, 0);
                self.cursor = TextPosition::new(cursor.after.x, 0);
                proof {
                    assert(self@ == redo_apply(v, e@).0);
                }
                TextOutcome::TextChanged
            },
            UndoEntry::SetStyles { styles_after, .. } => {
                if !all_ordered(styles_after) {
                    return TextOutcome::Unchanged;
                }
                self.styles.set(styles_after);
                TextOutcome::Changed
            },
            UndoEntry::AddStyle { range, style } => {
                if range.start > range.end {
                    return TextOutcome::Unchanged;
                }
                self.styles.add(Range { start: range.start, end: range.end }, *style);
                TextOutcome::Changed
            },
            UndoEntry::RemoveStyle { range, style } => {
                self.styles.remove(Range { start: range.start, end: range.end }, *style);
                TextOutcome::Changed
            },
            _ => TextOutcome::Continue,
        }
    }

    /// Take the entries recorded for replay since the last call.
    pub fn recent_replay_log(&mut self) -> (r: Vec<UndoEntry>)
        requires
            old(self).wf(),
        ensures
            final(self).wf(),
            match old(self)@.undo {
                Some(u) => entries_view(r@) == u.replay && final(self)@ == (CoreView {
                    undo: Some(UndoView { replay: Seq::empty(), ..u }),
                    ..old(self)@
                }),
                None => r@.len() == 0 && final(self)@ == old(self)@,
            },
    {
        match &mut self.undo {
            Some(undo) => undo.recent_replay_log(),
            None => Vec::new(),
        }
    }

    /// Apply entries recorded by another instance. Inserts and removals
    /// change text and styles but leave cursor and anchor untouched; style
    /// operations and undo/redo markers are applied in full. Each entry that
    /// applied goes into the log, but not again into the replay record; one
    /// that does not fit this text changes nothing.
    pub fn replay_log(&mut self, replay: &[UndoEntry])
        requires
            old(self).wf(),
        ensures
            final(self).wf(),
            final(self)@ == replay_all(old(self)@, entries_view(replay@)),
            (forall|i: int| 0 <= i < replay@.len() ==> !is_undo_redo(#[trigger] replay@[i]@)) ==> (
            final(self)@.cursor == old(self)@.cursor && final(self)@.anchor == old(self)@.anchor),
    {
        let ghost v = self@;
        let mut i: usize = 0;
        while i < replay.len()
            invariant
                0 <= i <= replay@.len(),
                self.wf(),
                self@ == replay_all(v, entries_view(replay@.take(i as int))),
            decreases replay@.len() - i,
        {
            proof {
                assert(entries_view(replay@.take(i + 1)).drop_last() =~= entries_view(
                    replay@.take(i as int),
                ));
            }
            self.apply_replay(&replay[i]);
            i += 1;
        }
        proof {
            assert(replay@.take(replay@.len() as int) == replay@);
            let es = entries_view(replay@);
            if forall|i: int| 0 <= i < replay@.len() ==> !is_undo_redo(#[trigger] replay@[i]@) {
                assert forall|i: int| 0 <= i < es.len() implies !is_undo_redo(#[trigger] es[i]) by {
                    assert(es[i] == replay@[i]@);
                }
                lemma_replay_keeps_cursor(v, es);
            }
        }
    }

    fn apply_replay(&mut self, e: &UndoEntry)
        requires
            old(self).wf(),
        ensures
            final(self).wf(),
            final(self)@ == replay_apply(old(self)@, e@),
    {
        proof {
            self.lemma_wf();
        }
        let ghost v = self@;
        let applied = match e {
            UndoEntry::SetText { txt } => {
                if self.text.set_string(txt.as_str()) {
                    self.styles.clear();
                    match &mut self.undo {
                        Some(undo) => undo.clear(),
                        None => {},
                    }
                    true
                } else {
                    false
                }
            },
            UndoEntry::InsertChar { bytes, txt, .. } | UndoEntry::InsertStr { bytes, txt, .. } => {
                if bytes.start <= bytes.end {
                    match self.text.insert_b(bytes.start, txt.as_str()) {
                        Ok(_) => {
                            self.styles.expand(bytes.start, bytes.end - bytes.start);
                            true
                        },
                        Err(_) => false,
                    }
                } else {
                    false
                }
            },
            UndoEntry::RemoveChar { bytes, styles, .. } | UndoEntry::RemoveStr { bytes, styles, .. } => {
                match self.text.remove_b(Range { start: bytes.start, end: bytes.end }) {
                    Ok(_) => {
                        drop_befores_in(&mut self.styles, styles);
                        self.styles.shrink(bytes.start, bytes.end);
                        add_afters_in(&mut self.styles, styles);
                        true
                    },
                    Err(_) => false,
                }
            },
            UndoEntry::SetStyles { styles_after, .. } => {
                if all_ordered(styles_after) {
                    self.styles.set(styles_after);
                    true
                } else {
                    false
                }
            },
            UndoEntry::AddStyle { range, style } => {
                if range.start <= range.end {
                    self.styles.add(Range { start: range.start, end: range.end }, *style);
                    true
                } else {
                    false
                }
            },
            UndoEntry::RemoveStyle { range, style } => {
                let removed = self.styles.remove(Range { start: range.start, end: range.end }, *style);
                proof {
                    if !removed {
                        crate::lemmas::lemma_remove_absent(v.styles, entry_of(*range, *style));
                    }
                }
                removed
            },
            UndoEntry::Undo => {
                self.undo_step();
                true
            },
            UndoEntry::Redo => {
                self.redo_step();
                true
            },
        };
        proof {
            assert((self@, applied) == replay_content(v, e@));
        }
        if applied {
            match &mut self.undo {
                Some(undo) => undo.append_no_replay(e.duplicate()),
                None => {},
            }
        }
    }

    /// First index from `p` on that is no break, or the end.
    fn skip_ws_fwd(&self, p: usize) -> (r: usize)
        requires
            self.wf(),
            p <= self@.text.len(),
        ensures
            is_next_word_start(self@.text, p as int, r as int),
    {
        let mut i = p;
        while i < self.text.len() && is_word_break(self.text.char_at(i))
            invariant
                self.wf(),
                p <= i <= self@.text.len(),
                all_break(self@.text, p as int, i as int),
            decreases self@.text.len() - i,
        {
            i += 1;
        }
        i
    }

    /// First index from `p` on that is a break, or the end.
    fn skip_word_fwd(&self, p: usize) -> (r: usize)
        requires
            self.wf(),
            p <= self@.text.len(),
        ensures
            is_word_end(self@.text, p as int, r as int),
    {
        let mut i = p;
        while i < self.text.len() && !is_word_break(self.text.char_at(i))
            invariant
                self.wf(),
                p <= i <= self@.text.len(),
                all_word(self@.text, p as int, i as int),
            decreases self@.text.len() - i,
        {
            i += 1;
        }
        i
    }

    /// Smallest index up to `p` such that everything between breaks words.
    fn skip_ws_back(&self, p: usize) -> (r: usize)
        requires
            self.wf(),
            p <= self@.text.len(),
        ensures
            is_prev_word_end(self@.text, p as int, r as int),
    {
        let mut i = p;
        while i > 0 && is_word_break(self.text.char_at(i - 1))
            invariant
                self.wf(),
                0 <= i <= p <= self@.text.len(),
                all_break(self@.text, i as int, p as int),
            decreases i,
        {
            i -= 1;
        }
        i
    }

    /// Smallest index up to `p` such that everything between is word.
    fn skip_word_back(&self, p: usize) -> (r: usize)
        requires
            self.wf(),
            p <= self@.text.len(),
        ensures
            is_word_start(self@.text, p as int, r as int),
    {
        let mut i = p;
        while i > 0 && !is_word_break(self.text.char_at(i - 1))
            invariant
                self.wf(),
                0 <= i <= p <= self@.text.len(),
                all_word(self@.text, i as int, p as int),
            decreases i,
        {
            i -= 1;
        }
        i
    }

    /// Start of the next word: breaks from `pos` on are skipped.
    pub fn next_word_start(&self, pos: TextPosition) -> (r: Result<TextPosition, TextError>)
        requires
            self.wf(),
        ensures
            match pos_error(self@.text, pos) {
                Some(e) => r == Err::<TextPosition, TextError>(e),
                None => r.is_ok() && r.unwrap().y == 0 && is_next_word_start(
                    self@.text,
                    pos.x as int,
                    r.unwrap().x as int,
                ),
            },
    {
        if pos.y != 0 {
            return Err(TextError::LineIndexOutOfBounds(pos.y, 1));
        }
        if pos.x as usize > self.text.len() {
            return Err(TextError::ColumnIndexOutOfBounds(pos.x, self.text.len() as u32));
        }
        let i = self.skip_ws_fwd(pos.x as usize);
        Ok(TextPosition::new(i as u32, 0))
    }

    /// End of the next word: breaks from `pos` on are skipped, then the
    /// word.
    pub fn next_word_end(&self, pos: TextPosition) -> (r: Result<TextPosition, TextError>)
        requires
            self.wf(),
        ensures
            match pos_error(self@.text, pos) {
                Some(e) => r == Err::<TextPosition, TextError>(e),
                None => r.is_ok() && r.unwrap().y == 0 && is_next_word_end(
                    self@.text,
                    pos.x as int,
                    r.unwrap().x as int,
                ),
            },
    {
        if pos.y != 0 {
            return Err(TextError::LineIndexOutOfBounds(pos.y, 1));
        }
        if pos.x as usize > self.text.len() {
            return Err(TextError::ColumnIndexOutOfBounds(pos.x, self.text.len() as u32));
        }
        let m = self.skip_ws_fwd(pos.x as usize);
        let i = self.skip_word_fwd(m);
        Ok(TextPosition::new(i as u32, 0))
    }

    /// Start of the previous word: breaks before `pos` are skipped
    /// backwards, then the word. The result lies at or before `pos`.
    pub fn prev_word_start(&self, pos: TextPosition) -> (r: Result<TextPosition, TextError>)
        requires
            self.wf(),
        ensures
            match pos_error(self@.text, pos) {
                Some(e) => r == Err::<TextPosition, TextError>(e),
                None => r.is_ok() && r.unwrap().y == 0 && is_prev_word_start(
                    self@.text,
                    pos.x as int,
                    r.unwrap().x as int,
                ),
            },
    {
        if pos.y != 0 {
            return Err(TextError::LineIndexOutOfBounds(pos.y, 1));
        }
        if pos.x as usize > self.text.len() {
            return Err(TextError::ColumnIndexOutOfBounds(pos.x, self.text.len() as u32));
        }
        let m = self.skip_ws_back(pos.x as usize);
        let i = self.skip_word_back(m);
        Ok(TextPosition::new(i as u32, 0))
    }

    /// End of the previous word: breaks before `pos` are skipped
    /// backwards. The result lies at or before `pos`.
    pub fn prev_word_end(&self, pos: TextPosition) -> (r: Result<TextPosition, TextError>)
        requires
            self.wf(),
        ensures
            match pos_error(self@.text, pos) {
                Some(e) => r == Err::<TextPosition, TextError>(e),
                None => r.is_ok() && r.unwrap().y == 0 && is_prev_word_end(
                    self@.text,
                    pos.x as int,
                    r.unwrap().x as int,
                ),
            },
    {
        if pos.y != 0 {
            return Err(TextError::LineIndexOutOfBounds(pos.y, 1));
        }
        if pos.x as usize > self.text.len() {
            return Err(TextError::ColumnIndexOutOfBounds(pos.x, self.text.len() as u32));
        }
        let i = self.skip_ws_back(pos.x as usize);
        Ok(TextPosition::new(i as u32, 0))
    }

    /// A break and a word meet at `pos`.
    pub fn is_word_boundary(&self, pos: TextPosition) -> (r: Result<bool, TextError>)
        requires
            self.wf(),
        ensures
            match pos_error(self@.text, pos) {
                Some(e) => r == Err::<bool, TextError>(e),
                None => r == Ok::<bool, TextError>(word_boundary(self@.text, pos.x as int)),
            },
    {
        if pos.y != 0 {
            return Err(TextError::LineIndexOutOfBounds(pos.y, 1));
        }
        if pos.x as usize > self.text.len() {
            return Err(TextError::ColumnIndexOutOfBounds(pos.x, self.text.len() as u32));
        }
        let x = pos.x as usize;
        if x == 0 || x >= self.text.len() {
            return Ok(false);
        }
        Ok(is_word_break(self.text.char_at(x - 1)) != is_word_break(self.text.char_at(x)))
    }

    /// Start of the word run that reaches `pos`.
    pub fn word_start(&self, pos: TextPosition) -> (r: Result<TextPosition, TextError>)
        requires
            self.wf(),
        ensures
            match pos_error(self@.text, pos) {
                Some(e) => r == Err::<TextPosition, TextError>(e),
                None => r.is_ok() && r.unwrap().y == 0 && is_word_start(
                    self@.text,
                    pos.x as int,
                    r.unwrap().x as int,
                ),
            },
    {
        if pos.y != 0 {
            return Err(TextError::LineIndexOutOfBounds(pos.y, 1));
        }
        if pos.x as usize > self.text.len() {
            return Err(TextError::ColumnIndexOutOfBounds(pos.x, self.text.len() as u32));
        }
        let i = self.skip_word_back(pos.x as usize);
        Ok(TextPosition::new(i as u32, 0))
    }

    /// End of the word run that starts at `pos`.
    pub fn word_end(&self, pos: TextPosition) -> (r: Result<TextPosition, TextError>)
        requires
            self.wf(),
        ensures
            match pos_error(self@.text, pos) {
                Some(e) => r == Err::<TextPosition, TextError>(e),
                None => r.is_ok() && r.unwrap().y == 0 && is_word_end(
                    self@.text,
                    pos.x as int,
                    r.unwrap().x as int,
                ),
            },
    {
        if pos.y != 0 {
            return Err(TextError::LineIndexOutOfBounds(pos.y, 1));
        }
        if pos.x as usize > self.text.len() {
            return Err(TextError::ColumnIndexOutOfBounds(pos.x, self.text.len() as u32));
        }
        let i = self.skip_word_fwd(pos.x as usize);
        Ok(TextPosition::new(i as u32, 0))
    }

    /// Glyphs of the rows in `rows` that lie in the window of `screen_width`
    /// columns from `screen_offset` on: each grapheme with what is drawn,
    /// its screen column relative to the window and its width.
    pub fn glyphs(&self, rows: Range<upos_type>, screen_offset: u16, screen_width: u16) -> (r: Result<
        Vec<Glyph>,
        TextError,
    >)
        requires
            self.wf(),
        ensures
            rows.end > 1 ==> r == Err::<Vec<Glyph>, TextError>(
                TextError::LineIndexOutOfBounds(rows.end, 1),
            ),
            rows.end <= 1 && rows.start > rows.end ==> r == Err::<Vec<Glyph>, TextError>(
                TextError::LineIndexOutOfBounds(rows.start, 1),
            ),
            rows.end <= 1 && rows.start == rows.end ==> r.is_ok() && r.unwrap()@.len() == 0,
            rows.start == 0 && rows.end == 1 ==> r.is_ok() && ({
                let vis = visible_upto(
                    self@.text,
                    self@.text.len() as int,
                    self@.tabs,
                    self@.show_ctrl,
                    screen_offset as nat,
                    screen_width as nat,
                );
                &&& r.unwrap()@.len() == vis.len()
                &&& forall|k: int|
                    0 <= k < vis.len() ==> glyph_ok(
                        #[trigger] r.unwrap()@[k].view_tuple(),
                        self@.text,
                        vis[k],
                        self@.tabs,
                        self@.show_ctrl,
                        screen_offset as nat,
                    )
            }),
    {
        if rows.end > 1 {
            return Err(TextError::LineIndexOutOfBounds(rows.end, 1));
        }
        if rows.start > rows.end {
            return Err(TextError::LineIndexOutOfBounds(rows.start, 1));
        }
        let mut out: Vec<Glyph> = Vec::new();
        if rows.start == rows.end {
            return Ok(out);
        }
        let ghost s = self@.text;
        let tabs = self.tabs;
        let show = self.show_ctrl;
        let offset = screen_offset as u64;
        let width = screen_width as u64;
        let mut col: u64 = 0;
        let mut off: usize = 0;
        let mut i: usize = 0;
        while i < self.text.len()
            invariant
                self.wf(),
                s == self@.text,
                tabs == self@.tabs,
                show == self@.show_ctrl,
                offset == screen_offset,
                width == screen_width,
                0 <= i <= s.len(),
                col == glyph_col(s, i as int, tabs, show),
                col <= i * 65535,
                off == byte_off(s, i as int),
                out@.len() == visible_upto(s, i as int, tabs, show, offset as nat, width as nat).len(),
                forall|k: int|
                    0 <= k < out@.len() ==> glyph_ok(
                        #[trigger] out@[k].view_tuple(),
                        s,
                        visible_upto(s, i as int, tabs, show, offset as nat, width as nat)[k],
                        tabs,
                        show,
                        offset as nat,
                    ),
            decreases s.len() - i,
        {
            proof {
                crate::text_store::lemma_byte_off_step(s, i as int);
                crate::text_store::lemma_byte_off_mono(s, i + 1, s.len() as int);
                assert(s.take(s.len() as int) == s);
            }
            let c = self.text.char_at(i);
            let w = glyph_width_of(c, col, tabs, show);
            let next = off + crate::text_store::char_len(c);
            let ghost vis0 = visible_upto(s, i as int, tabs, show, offset as nat, width as nat);
            if offset <= col && col < offset + width {
                let g = Glyph {
                    glyph: glyph_text(c, show),
                    text_bytes: Range { start: off, end: next },
                    pos: TextPosition::new(i as u32, 0),
                    screen_pos: ((col - offset) as u16, 0),
                    screen_width: w as u16,
                };
                let ghost out0 = out@;
                out.push(g);
                proof {
                    assert(visible_upto(s, i + 1, tabs, show, offset as nat, width as nat) == vis0.push(
                        i as int,
                    ));
                    assert forall|k: int| 0 <= k < out@.len() implies glyph_ok(
                        #[trigger] out@[k].view_tuple(),
                        s,
                        visible_upto(s, i + 1, tabs, show, offset as nat, width as nat)[k],
                        tabs,
                        show,
                        offset as nat,
                    ) by {
                        if k < out@.len() - 1 {
                            assert(out@[k] == out0[k]);
                        }
                    }
                }
            } else {
                proof {
                    assert(visible_upto(s, i + 1, tabs, show, offset as nat, width as nat) == vis0);
                }
            }
            col = col + w;
            off = next;
            i += 1;
        }
        Ok(out)
    }

    fn graphemes_from(&self, from: usize, to: usize) -> (r: Vec<Grapheme>)
        requires
            self.wf(),
            from <= to <= self@.text.len(),
        ensures
            r@.len() == to - from,
            forall|k: int| 0 <= k < r@.len() ==> grapheme_ok(#[trigger] &r@[k], self@.text, from + k),
    {
        let ghost s = self@.text;
        let mut out: Vec<Grapheme> = Vec::new();
        let mut off = self.text.offset(from);
        let mut i = from;
        while i < to
            invariant
                self.wf(),
                s == self@.text,
                from <= i <= to <= s.len(),
                off == byte_off(s, i as int),
                out@.len() == i - from,
                forall|k: int| 0 <= k < out@.len() ==> grapheme_ok(#[trigger] &out@[k], s, from + k),
            decreases to - i,
        {
            proof {
                crate::text_store::lemma_byte_off_step(s, i as int);
                crate::text_store::lemma_byte_off_mono(s, i + 1, s.len() as int);
                assert(s.take(s.len() as int) == s);
            }
            let c = self.text.char_at(i);
            let next = off + crate::text_store::char_len(c);
            let mut t = String::new();
            push_char(&mut t, c);
            proof {
                assert(Seq::<char>::empty().push(c) == seq![c]);
            }
            let ghost out0 = out@;
            out.push(Grapheme { grapheme: t, text_bytes: Range { start: off, end: next }, pos: TextPosition::new(i as u32, 0) });
            proof {
                assert forall|k: int| 0 <= k < out@.len() implies grapheme_ok(#[trigger] &out@[k], s, from + k) by {
                    if k < out@.len() - 1 {
                        assert(out@[k] == out0[k]);
                    }
                }
            }
            off = next;
            i += 1;
        }
        out
    }

    /// The graphemes of `range` from `pos` on, which must lie in the range.
    pub fn graphemes(&self, range: TextRange, pos: TextPosition) -> (r: Result<Vec<Grapheme>, TextError>)
        requires
            self.wf(),
            range.wf(),
        ensures
            range_error(self@.text, range).is_some() ==> r == Err::<Vec<Grapheme>, TextError>(
                range_error(self@.text, range).unwrap(),
            ),
            range_error(self@.text, range).is_none() && (pos.y != 0 || pos.x < range.start.x || pos.x
                > range.end.x) ==> r.is_err(),
            range_error(self@.text, range).is_none() && pos.y == 0 && range.start.x <= pos.x
                <= range.end.x ==> r.is_ok() && r.unwrap()@.len() == range.end.x - pos.x && (forall|
                k: int,
            |
                0 <= k < r.unwrap()@.len() ==> grapheme_ok(#[trigger] &r.unwrap()@[k], self@.text, pos.x + k)),
    {
        let len = self.text.len() as u32;
        if range.start.y != 0 {
            return Err(TextError::LineIndexOutOfBounds(range.start.y, 1));
        }
        if range.start.x > len {
            return Err(TextError::ColumnIndexOutOfBounds(range.start.x, len));
        }
        if range.end.y != 0 {
            return Err(TextError::LineIndexOutOfBounds(range.end.y, 1));
        }
        if range.end.x > len {
            return Err(TextError::ColumnIndexOutOfBounds(range.end.x, len));
        }
        if pos.y != 0 {
            return Err(TextError::LineIndexOutOfBounds(pos.y, 1));
        }
        if pos.x < range.start.x || pos.x > range.end.x {
            return Err(TextError::ColumnIndexOutOfBounds(pos.x, range.end.x));
        }
        Ok(self.graphemes_from(pos.x as usize, range.end.x as usize))
    }

    /// The graphemes of the whole text from `pos` on.
    pub fn text_graphemes(&self, pos: TextPosition) -> (r: Result<Vec<Grapheme>, TextError>)
        requires
            self.wf(),
        ensures
            match pos_error(self@.text, pos) {
                Some(e) => r == Err::<Vec<Grapheme>, TextError>(e),
                None => r.is_ok() && r.unwrap()@.len() == self@.text.len() - pos.x && (forall|k: int|
                    0 <= k < r.unwrap()@.len() ==> grapheme_ok(#[trigger] &r.unwrap()@[k], self@.text, pos.x + k)),
            },
    {
        if pos.y != 0 {
            return Err(TextError::LineIndexOutOfBounds(pos.y, 1));
        }
        if pos.x as usize > self.text.len() {
            return Err(TextError::ColumnIndexOutOfBounds(pos.x, self.text.len() as u32));
        }
        Ok(self.graphemes_from(pos.x as usize, self.text.len()))
    }

    /// The graphemes of a row.
    pub fn line_graphemes(&self, row: upos_type) -> (r: Result<Vec<Grapheme>, TextError>)
        requires
            self.wf(),
        ensures
            row != 0 ==> r == Err::<Vec<Grapheme>, TextError>(TextError::LineIndexOutOfBounds(row, 1)),
            row == 0 ==> r.is_ok() && r.unwrap()@.len() == self@.text.len() && (forall|k: int|
                0 <= k < r.unwrap()@.len() ==> grapheme_ok(#[trigger] &r.unwrap()@[k], self@.text, k)),
    {
        if row != 0 {
            return Err(TextError::LineIndexOutOfBounds(row, 1));
        }
        Ok(self.graphemes_from(0, self.text.len()))
    }
}

} // verus!
