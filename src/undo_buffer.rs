//! A bounded, linear undo/redo log, with a separate record of every entry
//! for replay on another instance.

use crate::position::TextPosition;
use crate::range_map::{StyleChange, StyleEntry, changes_view, duplicate_changes, entry_of};
use std::ops::Range;
use vstd::prelude::*;

verus! {

/// A position before and after an operation.
#[derive(Clone, Copy, Debug, PartialEq, Eq, Structural)]
pub struct TextPositionChange {
    pub before: TextPosition,
    pub after: TextPosition,
}

/// One recorded operation.
#[derive(Debug)]
pub enum UndoEntry {
    /// The whole text was replaced.
    SetText { txt: String },
    /// A character was inserted at the bytes.
    InsertChar {
        bytes: Range<usize>,
        cursor: TextPositionChange,
        anchor: TextPositionChange,
        txt: String,
    },
    /// A string was inserted at the bytes.
    InsertStr {
        bytes: Range<usize>,
        cursor: TextPositionChange,
        anchor: TextPositionChange,
        txt: String,
    },
    /// Characters were removed from the bytes.
    RemoveChar {
        bytes: Range<usize>,
        cursor: TextPositionChange,
        anchor: TextPositionChange,
        txt: String,
        styles: Vec<StyleChange>,
    },
    /// A string was removed from the bytes.
    RemoveStr {
        bytes: Range<usize>,
        cursor: TextPositionChange,
        anchor: TextPositionChange,
        txt: String,
        styles: Vec<StyleChange>,
    },
    /// All styles were replaced.
    SetStyles { styles_before: Vec<(Range<usize>, usize)>, styles_after: Vec<(Range<usize>, usize)> },
    /// A style was added.
    AddStyle { range: Range<usize>, style: usize },
    /// A style was removed.
    RemoveStyle { range: Range<usize>, style: usize },
    /// The user invoked undo.
    Undo,
    /// The user invoked redo.
    Redo,
}

/// The meaning of an entry, over mathematical values.
pub enum EntryView {
    SetText { txt: Seq<char> },
    Insert {
        char_level: bool,
        bytes: (usize, usize),
        cursor: TextPositionChange,
        anchor: TextPositionChange,
        txt: Seq<char>,
    },
    Remove {
        char_level: bool,
        bytes: (usize, usize),
        cursor: TextPositionChange,
        anchor: TextPositionChange,
        txt: Seq<char>,
        styles: Seq<(StyleEntry, StyleEntry)>,
    },
    SetStyles { before: Seq<StyleEntry>, after: Seq<StyleEntry> },
    AddStyle { entry: StyleEntry },
    RemoveStyle { entry: StyleEntry },
    Undo,
    Redo,
}

/// A list of (range, tag) pairs as style entries.
pub open spec fn styles_view(v: Seq<(Range<usize>, usize)>) -> Seq<StyleEntry> {
    v.map_values(|p: (Range<usize>, usize)| entry_of(p.0, p.1))
}

/// Entries that only mark an event and are never undone themselves.
pub open spec fn is_marker(e: EntryView) -> bool {
    e is SetText || e is Undo || e is Redo
}

pub open spec fn entries_view(v: Seq<UndoEntry>) -> Seq<EntryView> {
    v.map_values(|e: UndoEntry| e.view())
}

impl View for UndoEntry {
    type V = EntryView;

    open spec fn view(&self) -> EntryView {
        match self {
            UndoEntry::SetText { txt } => EntryView::SetText { txt: txt@ },
            UndoEntry::InsertChar { bytes, cursor, anchor, txt } => EntryView::Insert {
                char_level: true,
                bytes: (bytes.start, bytes.end),
                cursor: *cursor,
                anchor: *anchor,
                txt: txt@,
            },
            UndoEntry::InsertStr { bytes, cursor, anchor, txt } => EntryView::Insert {
                char_level: false,
                bytes: (bytes.start, bytes.end),
                cursor: *cursor,
                anchor: *anchor,
                txt: txt@,
            },
            UndoEntry::RemoveChar { bytes, cursor, anchor, txt, styles } => EntryView::Remove {
                char_level: true,
                bytes: (bytes.start, bytes.end),
                cursor: *cursor,
                anchor: *anchor,
                txt: txt@,
                styles: changes_view(styles@),
            },
            UndoEntry::RemoveStr { bytes, cursor, anchor, txt, styles } => EntryView::Remove {
                char_level: false,
                bytes: (bytes.start, bytes.end),
                cursor: *cursor,
                anchor: *anchor,
                txt: txt@,
                styles: changes_view(styles@),
            },
            UndoEntry::SetStyles { styles_before, styles_after } => EntryView::SetStyles {
                before: styles_view(styles_before@),
                after: styles_view(styles_after@),
            },
            UndoEntry::AddStyle { range, style } => EntryView::AddStyle {
                entry: entry_of(*range, *style),
            },
            UndoEntry::RemoveStyle { range, style } => EntryView::RemoveStyle {
                entry: entry_of(*range, *style),
            },
            UndoEntry::Undo => EntryView::Undo,
            UndoEntry::Redo => EntryView::Redo,
        }
    }
}

/// A copy of a list of (range, tag) pairs.
pub fn duplicate_styles(v: &Vec<(Range<usize>, usize)>) -> (r: Vec<(Range<usize>, usize)>)
    ensures
        styles_view(r@) == styles_view(v@),
{
    let mut r: Vec<(Range<usize>, usize)> = Vec::new();
    let mut i: usize = 0;
    while i < v.len()
        invariant
            0 <= i <= v@.len(),
            styles_view(r@) == styles_view(v@.take(i as int)),
        decreases v@.len() - i,
    {
        let ghost r0 = r@;
        let p = &v[i];
        r.push((Range { start: p.0.start, end: p.0.end }, p.1));
        i += 1;
        proof {
            assert(v@.take(i as int) == v@.take(i - 1).push(v@[i - 1]));
            assert(styles_view(r@) =~= styles_view(r0).push(entry_of(v@[i - 1].0, v@[i - 1].1)));
            assert(styles_view(v@.take(i as int)) =~= styles_view(v@.take(i - 1)).push(
                entry_of(v@[i - 1].0, v@[i - 1].1),
            ));
        }
    }
    proof {
        assert(v@.take(v@.len() as int) == v@);
    }
    r
}

impl UndoEntry {
    /// A copy of the entry.
    pub fn duplicate(&self) -> (r: UndoEntry)
        ensures
            r@ == self@,
    {
        match self {
            UndoEntry::SetText { txt } => UndoEntry::SetText { txt: txt.clone() },
            UndoEntry::InsertChar { bytes, cursor, anchor, txt } => UndoEntry::InsertChar {
                bytes: Range { start: bytes.start, end: bytes.end },
                cursor: *cursor,
                anchor: *anchor,
                txt: txt.clone(),
            },
            UndoEntry::InsertStr { bytes, cursor, anchor, txt } => UndoEntry::InsertStr {
                bytes: Range { start: bytes.start, end: bytes.end },
                cursor: *cursor,
                anchor: *anchor,
                txt: txt.clone(),
            },
            UndoEntry::RemoveChar { bytes, cursor, anchor, txt, styles } => UndoEntry::RemoveChar {
                bytes: Range { start: bytes.start, end: bytes.end },
                cursor: *cursor,
                anchor: *anchor,
                txt: txt.clone(),
                styles: duplicate_changes(styles),
            },
            UndoEntry::RemoveStr { bytes, cursor, anchor, txt, styles } => UndoEntry::RemoveStr {
                bytes: Range { start: bytes.start, end: bytes.end },
                cursor: *cursor,
                anchor: *anchor,
                txt: txt.clone(),
                styles: duplicate_changes(styles),
            },
            UndoEntry::SetStyles { styles_before, styles_after } => UndoEntry::SetStyles {
                styles_before: duplicate_styles(styles_before),
                styles_after: duplicate_styles(styles_after),
            },
            UndoEntry::AddStyle { range, style } => UndoEntry::AddStyle {
                range: Range { start: range.start, end: range.end },
                style: *style,
            },
            UndoEntry::RemoveStyle { range, style } => UndoEntry::RemoveStyle {
                range: Range { start: range.start, end: range.end },
                style: *style,
            },
            UndoEntry::Undo => UndoEntry::Undo,
            UndoEntry::Redo => UndoEntry::Redo,
        }
    }

    /// Entries that only mark an event: `SetText`, `Undo`, `Redo`.
    pub fn is_marker(&self) -> (r: bool)
        ensures
            r == is_marker(self@),
    {
        match self {
            UndoEntry::SetText { .. } | UndoEntry::Undo | UndoEntry::Redo => true,
            _ => false,
        }
    }
}


/// The state of an undo log.
pub struct UndoView {
    /// Entries that can be undone, oldest first.
    pub entries: Seq<EntryView>,
    /// Entries before this index are done; from it on they can be redone.
    pub idx: nat,
    /// Entries recorded for replay since the last time they were taken.
    pub replay: Seq<EntryView>,
    /// Most entries kept.
    pub capacity: nat,
    /// Style-only operations are recorded.
    pub undo_styles: bool,
    /// Entries are recorded for replay.
    pub track_replay: bool,
}

/// The log is consistent: the index is in bounds, the capacity holds, and no
/// marker entry stands among the entries that can be undone.
pub open spec fn undo_view_ok(v: UndoView) -> bool {
    &&& v.idx <= v.entries.len()
    &&& v.entries.len() <= v.capacity
    &&& forall|i: int| 0 <= i < v.entries.len() ==> !is_marker(#[trigger] v.entries[i])
}

/// The undoable entries after recording `e`: a marker leaves them as they
/// are; anything else drops what could be redone, is added last, and pushes
/// out the oldest entry where the capacity would be exceeded.
pub open spec fn appended(v: UndoView, e: EntryView) -> Seq<EntryView> {
    if is_marker(e) {
        v.entries
    } else {
        let b = v.entries.take(v.idx as int).push(e);
        if b.len() > v.capacity {
            b.drop_first()
        } else {
            b
        }
    }
}

/// The log after recording `e`; `replay` says whether it is also recorded
/// for replay (where that is switched on).
pub open spec fn append_spec(v: UndoView, e: EntryView, replay: bool) -> UndoView {
    UndoView {
        entries: appended(v, e),
        idx: if is_marker(e) {
            v.idx
        } else {
            appended(v, e).len()
        },
        replay: if replay && v.track_replay {
            v.replay.push(e)
        } else {
            v.replay
        },
        ..v
    }
}

/// Bounded linear undo log.
#[derive(Debug)]
pub struct UndoVec {
    undo_styles: bool,
    track_replay: bool,
    undo_count: u32,
    buf: Vec<UndoEntry>,
    replay: Vec<UndoEntry>,
    idx: usize,
}

impl View for UndoVec {
    type V = UndoView;

    closed spec fn view(&self) -> UndoView {
        UndoView {
            entries: entries_view(self.buf@),
            idx: self.idx as nat,
            replay: entries_view(self.replay@),
            capacity: self.undo_count as nat,
            undo_styles: self.undo_styles,
            track_replay: self.track_replay,
        }
    }
}

fn duplicate_entries(v: &Vec<UndoEntry>) -> (r: Vec<UndoEntry>)
    ensures
        entries_view(r@) == entries_view(v@),
{
    let mut r: Vec<UndoEntry> = Vec::new();
    let mut i: usize = 0;
    while i < v.len()
        invariant
            0 <= i <= v@.len(),
            entries_view(r@) == entries_view(v@.take(i as int)),
        decreases v@.len() - i,
    {
        let ghost r0 = r@;
        r.push(v[i].duplicate());
        i += 1;
        proof {
            assert(v@.take(i as int) == v@.take(i - 1).push(v@[i - 1]));
            assert(entries_view(r@) =~= entries_view(r0).push(v@[i - 1]@));
            assert(entries_view(v@.take(i as int)) =~= entries_view(v@.take(i - 1)).push(
                v@[i - 1]@,
            ));
        }
    }
    proof {
        assert(v@.take(v@.len() as int) == v@);
    }
    r
}

impl UndoVec {
    pub open spec fn wf(&self) -> bool {
        undo_view_ok(self@)
    }

    /// Empty log that keeps at most `undo_count` entries.
    pub fn new(undo_count: u32) -> (r: UndoVec)
        ensures
            r.wf(),
            r@.entries == Seq::<EntryView>::empty(),
            r@.idx == 0,
            r@.replay == Seq::<EntryView>::empty(),
            r@.capacity == undo_count,
            !r@.undo_styles,
            !r@.track_replay,
    {
        UndoVec {
            undo_styles: false,
            track_replay: false,
            undo_count,
            buf: Vec::new(),
            replay: Vec::new(),
            idx: 0,
        }
    }

    /// A copy of the log.
    pub fn duplicate(&self) -> (r: UndoVec)
        ensures
            r@ == self@,
    {
        UndoVec {
            undo_styles: self.undo_styles,
            track_replay: self.track_replay,
            undo_count: self.undo_count,
            buf: duplicate_entries(&self.buf),
            replay: duplicate_entries(&self.replay),
            idx: self.idx,
        }
    }

    /// Most entries kept.
    pub fn undo_count(&self) -> (r: u32)
        ensures
            r == self@.capacity,
    {
        self.undo_count
    }

    /// Record style-only operations.
    pub fn set_undo_styles(&mut self, undo_styles: bool)
        requires
            old(self).wf(),
        ensures
            final(self)@ == (UndoView { undo_styles, ..old(self)@ }),
            final(self).wf(),
    {
        self.undo_styles = undo_styles;
    }

    /// Style-only operations are recorded.
    pub fn undo_styles_enabled(&self) -> (r: bool)
        ensures
            r == self@.undo_styles,
    {
        self.undo_styles
    }

    /// Record entries for replay.
    pub fn set_replay_log(&mut self, replay: bool)
        requires
            old(self).wf(),
        ensures
            final(self)@ == (UndoView { track_replay: replay, ..old(self)@ }),
            final(self).wf(),
    {
        self.track_replay = replay;
    }

    /// Entries are recorded for replay.
    pub fn replay_log(&self) -> (r: bool)
        ensures
            r == self@.track_replay,
    {
        self.track_replay
    }

    /// Entries recorded so far that can be undone or redone.
    pub fn len(&self) -> (r: usize)
        ensures
            r == self@.entries.len(),
    {
        self.buf.len()
    }

    /// Number of entries that can be undone.
    pub fn position(&self) -> (r: usize)
        ensures
            r == self@.idx,
    {
        self.idx
    }

    /// Forget all undoable entries; the replay record stays.
    pub fn clear(&mut self)
        requires
            old(self).wf(),
        ensures
            final(self)@ == (UndoView {
                entries: Seq::<EntryView>::empty(),
                idx: 0,
                ..old(self)@
            }),
            final(self).wf(),
    {
        self.buf = Vec::new();
        self.idx = 0;
        proof {
            assert(entries_view(self.buf@) =~= Seq::<EntryView>::empty());
        }
    }

    /// Record an entry, also for replay.
    pub fn append(&mut self, undo: UndoEntry)
        requires
            old(self).wf(),
        ensures
            final(self)@ == append_spec(old(self)@, undo@, true),
            final(self).wf(),
    {
        if self.track_replay {
            let ghost r0 = self.replay@;
            self.replay.push(undo.duplicate());
            proof {
                assert(entries_view(self.replay@) =~= entries_view(r0).push(undo@));
            }
        }
        self.append_no_replay(undo);
    }

    /// Record an entry that was already applied, without recording it for
    /// replay.
    pub fn append_no_replay(&mut self, undo: UndoEntry)
        requires
            old(self).wf(),
        ensures
            final(self)@ == append_spec(old(self)@, undo@, false),
            final(self).wf(),
    {
        if undo.is_marker() {
            return;
        }
        let ghost v = self@;
        self.buf.truncate(self.idx);
        proof {
            assert(entries_view(self.buf@) =~= v.entries.take(v.idx as int));
        }
        let ghost b0 = self.buf@;
        self.buf.push(undo);
        proof {
            assert(entries_view(self.buf@) =~= entries_view(b0).push(self.buf@.last()@));
        }
        if self.buf.len() > self.undo_count as usize {
            let ghost b1 = self.buf@;
            self.buf.remove(0);
            proof {
                assert(self.buf@ == b1.drop_first());
                assert(entries_view(self.buf@) =~= entries_view(b1).drop_first());
            }
        }
        self.idx = self.buf.len();
        proof {
            let a = appended(v, undo@);
            assert(entries_view(self.buf@) == a);
            assert forall|i: int| 0 <= i < a.len() implies !is_marker(#[trigger] a[i]) by {
                let b = v.entries.take(v.idx as int).push(undo@);
                if b.len() > v.capacity {
                    assert(a[i] == b[i + 1]);
                    if i + 1 < v.idx {
                        assert(b[i + 1] == v.entries[i + 1]);
                    }
                } else {
                    if i < v.idx {
                        assert(b[i] == v.entries[i]);
                    }
                }
            }
        }
    }

    /// Step back: hand out the last done entry for undoing it.
    pub fn undo(&mut self) -> (r: Option<UndoEntry>)
        requires
            old(self).wf(),
        ensures
            final(self).wf(),
            old(self)@.idx == 0 ==> r.is_none() && final(self)@ == old(self)@,
            old(self)@.idx > 0 ==> r.is_some() && r.unwrap()@ == old(self)@.entries[old(self)@.idx
                - 1] && final(self)@ == (UndoView { idx: (old(self)@.idx - 1) as nat, ..old(self)@ }),
    {
        if self.idx > 0 {
            self.idx -= 1;
            Some(self.buf[self.idx].duplicate())
        } else {
            None
        }
    }

    /// Step forward: hand out the next undone entry for doing it again.
    pub fn redo(&mut self) -> (r: Option<UndoEntry>)
        requires
            old(self).wf(),
        ensures
            final(self).wf(),
            old(self)@.idx == old(self)@.entries.len() ==> r.is_none() && final(self)@ == old(
                self,
            )@,
            old(self)@.idx < old(self)@.entries.len() ==> r.is_some() && r.unwrap()@ == old(
                self,
            )@.entries[old(self)@.idx as int] && final(self)@ == (UndoView {
                idx: old(self)@.idx + 1,
                ..old(self)@
            }),
    {
        if self.idx < self.buf.len() {
            self.idx += 1;
            Some(self.buf[self.idx - 1].duplicate())
        } else {
            None
        }
    }

    /// Take the entries recorded for replay.
    pub fn recent_replay_log(&mut self) -> (r: Vec<UndoEntry>)
        requires
            old(self).wf(),
        ensures
            entries_view(r@) == old(self)@.replay,
            final(self)@ == (UndoView { replay: Seq::<EntryView>::empty(), ..old(self)@ }),
            final(self).wf(),
    {
        let r = duplicate_entries(&self.replay);
        self.replay = Vec::new();
        proof {
            assert(entries_view(self.replay@) =~= Seq::<EntryView>::empty());
        }
        r
    }
}

} // verus!
