//! Laws of the editing core, stated over the state model and proved.

use crate::grapheme::{is_next_word_start, is_prev_word_end, is_break};
use crate::position::{TextPosition, TextRange, ordered_range};
use crate::range_map::{
    StyleEntry, cut_changes, cut_entries, expand_entry, remove_first, shrink_entry, touches,
};
use crate::text_core::{
    logged_style,
};
use crate::text_core::{
    CoreView, TextOutcome, add_afters, add_befores, core_ok, drop_afters, drop_befores,
    insert_error, insert_spec, redo_apply, redo_spec, remove_spec, reremove_styles, undo_apply,
    undo_spec, unremove_styles, replay_all, replay_content,
};
use crate::text_store::{
    boundary_index, byte_off, bytes_len, cut_text, is_boundary, lemma_boundary_index,
    lemma_byte_off_insert, range_error, spliced,
};
use crate::undo_buffer::{EntryView, TextPositionChange, UndoView, append_spec, is_marker};
use vstd::multiset::Multiset;
use vstd::prelude::*;

verus! {

/// Removing a style that is not there leaves the styles as they are.
pub proof fn lemma_remove_absent(m: Seq<StyleEntry>, t: StyleEntry)
    requires
        !m.contains(t),
    ensures
        remove_first(m, t) == m,
    decreases m.len(),
{
    if m.len() > 0 {
        let r = m.drop_first();
        assert(!r.contains(t)) by {
            if r.contains(t) {
                let i = choose|i: int| 0 <= i < r.len() && r[i] == t;
                assert(m[i + 1] == t);
            }
        }
        lemma_remove_absent(r, t);
        assert(m[0] != t) by {
            if m[0] == t {
                assert(m.contains(t));
            }
        }
        assert(m == seq![m[0]] + r);
    }
}

/// Every style range ends at least `l` bytes below the largest offset.
pub open spec fn room_for(styles: Seq<StyleEntry>, l: nat) -> bool {
    forall|i: int| 0 <= i < styles.len() ==> #[trigger] styles[i].1 + l <= usize::MAX
}

/// Removing the bytes that were just inserted gives back the style.
pub proof fn lemma_shrink_expand(p: usize, l: usize, e: StyleEntry)
    requires
        e.0 <= e.1,
        e.1 + l <= usize::MAX,
        p + l <= usize::MAX,
    ensures
        shrink_entry(p, (p + l) as usize, expand_entry(p, l, e)) == e,
{
}

/// Inserting `l` bytes at `p` and removing them again leaves every style
/// where it was.
pub proof fn lemma_styles_shrink_expand(m: Seq<StyleEntry>, p: usize, l: usize)
    requires
        forall|i: int| 0 <= i < m.len() ==> #[trigger] m[i].0 <= m[i].1,
        room_for(m, l as nat),
        p + l <= usize::MAX,
    ensures
        m.map_values(|e: StyleEntry| expand_entry(p, l, e)).map_values(
            |e: StyleEntry| shrink_entry(p, (p + l) as usize, e),
        ) == m,
{
    let a = m.map_values(|e: StyleEntry| expand_entry(p, l, e));
    let b = a.map_values(|e: StyleEntry| shrink_entry(p, (p + l) as usize, e));
    assert forall|i: int| 0 <= i < m.len() implies b[i] == m[i] by {
        lemma_shrink_expand(p, l, m[i]);
    }
    assert(b =~= m);
}

/// Removing `l` bytes at `p` and inserting them again leaves every style
/// where it was.
pub proof fn lemma_styles_expand_shrink(m: Seq<StyleEntry>, p: usize, l: usize)
    requires
        forall|i: int| 0 <= i < m.len() ==> #[trigger] m[i].0 <= m[i].1,
        room_for(m, l as nat),
        p + l <= usize::MAX,
    ensures
        m.map_values(|e: StyleEntry| expand_entry(p, l, e)).map_values(
            |e: StyleEntry| shrink_entry(p, (p + l) as usize, e),
        ).map_values(|e: StyleEntry| expand_entry(p, l, e)) == m.map_values(
            |e: StyleEntry| expand_entry(p, l, e),
        ),
{
    lemma_styles_shrink_expand(m, p, l);
}

/// The log view of an insert's entry.
pub open spec fn insert_entry_of(v: CoreView, pos: TextPosition, t: Seq<char>, char_level: bool) -> EntryView {
    let w = insert_spec(v, pos, t, char_level);
    EntryView::Insert {
        char_level,
        bytes: (
            byte_off(v.text, pos.x as int) as usize,
            (byte_off(v.text, pos.x as int) + bytes_len(t)) as usize,
        ),
        cursor: crate::undo_buffer::TextPositionChange { before: v.cursor, after: w.cursor },
        anchor: crate::undo_buffer::TextPositionChange { before: v.anchor, after: w.anchor },
        txt: t,
    }
}

/// The text, styles, cursor and anchor of two states agree.
pub open spec fn same_content(a: CoreView, b: CoreView) -> bool {
    a.text == b.text && a.styles == b.styles && a.cursor == b.cursor && a.anchor == b.anchor
}

/// Undo right after an insert restores text, styles, cursor and anchor
/// exactly, provided the log keeps at least one entry and no style range
/// would be pushed past the largest byte offset.
pub proof fn lemma_undo_insert(v: CoreView, pos: TextPosition, t: Seq<char>, char_level: bool)
    requires
        core_ok(v),
        v.undo is Some,
        v.undo.unwrap().capacity > 0,
        insert_error(v, pos, t).is_none(),
        room_for(v.styles, bytes_len(t)),
    ensures
        same_content(undo_spec(insert_spec(v, pos, t, char_level)).0, v),
        undo_spec(insert_spec(v, pos, t, char_level)).1 == TextOutcome::TextChanged,
{
    let w = insert_spec(v, pos, t, char_level);
    let s = v.text;
    let x = pos.x as int;
    let b0 = byte_off(s, x);
    let l = bytes_len(t);
    crate::text_store::lemma_byte_off_mono(s, x, s.len() as int);
    assert(s == s.take(x) + s.skip(x));
    crate::text_store::lemma_bytes_len_concat(s.take(x), s.skip(x));
    crate::text_store::lemma_bytes_len_concat(s.take(x), t);
    crate::text_store::lemma_bytes_len_concat(s.take(x) + t, s.skip(x));
    let n = spliced(s, x, t);
    lemma_byte_off_insert(s, x, t, x);
    assert(byte_off(n, x) == b0);
    assert(byte_off(n, x + t.len()) == b0 + l);
    lemma_boundary_index(n, x);
    lemma_boundary_index(n, x + t.len());
    assert(cut_text(n, x, x + t.len()) =~= s);
    lemma_styles_shrink_expand(v.styles, b0 as usize, l as usize);
}


proof fn redo_insert_parts(v: CoreView, pos: TextPosition, t: Seq<char>)
    requires
        core_ok(v),
        insert_error(v, pos, t).is_none(),
        room_for(v.styles, bytes_len(t)),
    ensures
        is_boundary(v.text, byte_off(v.text, pos.x as int) as int),
        boundary_index(v.text, byte_off(v.text, pos.x as int) as int) == pos.x,
        byte_off(v.text, pos.x as int) + bytes_len(t) <= usize::MAX,
        v.styles.map_values(|e: StyleEntry| expand_entry(byte_off(v.text, pos.x as int) as usize, bytes_len(t) as usize, e)).map_values(
            |e: StyleEntry| shrink_entry(byte_off(v.text, pos.x as int) as usize, (byte_off(v.text, pos.x as int) + bytes_len(t)) as usize, e),
        ).map_values(|e: StyleEntry| expand_entry(byte_off(v.text, pos.x as int) as usize, bytes_len(t) as usize, e)) == v.styles.map_values(
            |e: StyleEntry| expand_entry(byte_off(v.text, pos.x as int) as usize, bytes_len(t) as usize, e),
        ),
{
    let s = v.text;
    let x = pos.x as int;
    let b0 = byte_off(s, x);
    let l = bytes_len(t);
    crate::text_store::lemma_byte_off_mono(s, x, s.len() as int);
    assert(s == s.take(x) + s.skip(x));
    crate::text_store::lemma_bytes_len_concat(s.take(x), s.skip(x));
    crate::text_store::lemma_bytes_len_concat(s.take(x), t);
    crate::text_store::lemma_bytes_len_concat(s.take(x) + t, s.skip(x));
    lemma_boundary_index(s, x);
    lemma_styles_expand_shrink(v.styles, b0 as usize, l as usize);
}

/// Styles that do not overlap the bytes `s..e`, in order.
pub open spec fn untouched(m: Seq<StyleEntry>, s: usize, e: usize) -> Seq<StyleEntry>
    decreases m.len(),
{
    if m.len() == 0 {
        Seq::empty()
    } else {
        let r = untouched(m.drop_last(), s, e);
        if touches(s, e, m.last()) {
            r
        } else {
            r.push(m.last())
        }
    }
}

/// Styles that overlap the bytes `s..e`, in order.
pub open spec fn touched(m: Seq<StyleEntry>, s: usize, e: usize) -> Seq<StyleEntry>
    decreases m.len(),
{
    if m.len() == 0 {
        Seq::empty()
    } else {
        let r = touched(m.drop_last(), s, e);
        if touches(s, e, m.last()) {
            r.push(m.last())
        } else {
            r
        }
    }
}

/// What is left of the overlapping styles once `s..e` is removed, where
/// anything is left.
pub open spec fn kept_afters(m: Seq<StyleEntry>, s: usize, e: usize) -> Seq<StyleEntry>
    decreases m.len(),
{
    if m.len() == 0 {
        Seq::empty()
    } else {
        let r = kept_afters(m.drop_last(), s, e);
        let n = shrink_entry(s, e, m.last());
        if touches(s, e, m.last()) && n.0 < n.1 {
            r.push(n)
        } else {
            r
        }
    }
}

pub open spec fn mset(m: Seq<StyleEntry>) -> Multiset<StyleEntry> {
    m.to_multiset()
}

proof fn lemma_mset_empty(m: Seq<StyleEntry>)
    requires
        m.len() == 0,
    ensures
        mset(m) =~= Multiset::empty(),
{
    vstd::seq_lib::to_multiset_len(m);
    vstd::multiset::lemma_multiset_empty_len(mset(m));
}

proof fn lemma_mset_push(m: Seq<StyleEntry>, a: StyleEntry)
    ensures
        mset(m.push(a)) =~= mset(m).insert(a),
{
    vstd::seq_lib::to_multiset_build(m, a);
}

proof fn lemma_split_mset(m: Seq<StyleEntry>, s: usize, e: usize)
    ensures
        mset(m) =~= mset(untouched(m, s, e)).add(mset(touched(m, s, e))),
    decreases m.len(),
{
    broadcast use vstd::multiset::group_multiset_axioms;

    if m.len() == 0 {
        lemma_mset_empty(m);
        lemma_mset_empty(Seq::<StyleEntry>::empty());
    } else {
        lemma_split_mset(m.drop_last(), s, e);
        assert(m == m.drop_last().push(m.last()));
        lemma_mset_push(m.drop_last(), m.last());
        lemma_mset_push(untouched(m.drop_last(), s, e), m.last());
        lemma_mset_push(touched(m.drop_last(), s, e), m.last());
    }
}

proof fn lemma_cut_mset(m: Seq<StyleEntry>, s: usize, e: usize)
    requires
        s <= e,
        forall|i: int| 0 <= i < m.len() ==> #[trigger] m[i].0 <= m[i].1,
    ensures
        mset(cut_entries(m, s, e)) =~= mset(
            untouched(m, s, e).map_values(|t: StyleEntry| shrink_entry(s, e, t)),
        ).add(mset(kept_afters(m, s, e))),
    decreases m.len(),
{
    broadcast use vstd::multiset::group_multiset_axioms;

    if m.len() == 0 {
        lemma_mset_empty(Seq::<StyleEntry>::empty());
        assert(untouched(m, s, e).map_values(|t: StyleEntry| shrink_entry(s, e, t)) =~= Seq::<
            StyleEntry,
        >::empty());
    } else {
        let m0 = m.drop_last();
        let t = m.last();
        let n = shrink_entry(s, e, t);
        assert forall|i: int| 0 <= i < m0.len() implies #[trigger] m0[i].0 <= m0[i].1 by {
            assert(m0[i] == m[i]);
        }
        assert(t.0 <= t.1) by {
            assert(t == m[m.len() - 1]);
        }
        lemma_cut_mset(m0, s, e);
        let u0 = untouched(m0, s, e).map_values(|t: StyleEntry| shrink_entry(s, e, t));
        lemma_mset_push(cut_entries(m0, s, e), n);
        lemma_mset_push(u0, n);
        lemma_mset_push(kept_afters(m0, s, e), n);
        let u = untouched(m, s, e).map_values(|t: StyleEntry| shrink_entry(s, e, t));
        if !touches(s, e, t) {
            assert(u =~= u0.push(n));
            assert(cut_entries(m, s, e) == cut_entries(m0, s, e).push(n));
            assert(kept_afters(m, s, e) == kept_afters(m0, s, e));
        } else {
            assert(u =~= u0);
            if n.0 < n.1 {
                assert(cut_entries(m, s, e) == cut_entries(m0, s, e).push(n));
                assert(kept_afters(m, s, e) == kept_afters(m0, s, e).push(n));
            } else {
                assert(cut_entries(m, s, e) == cut_entries(m0, s, e));
                assert(kept_afters(m, s, e) == kept_afters(m0, s, e));
            }
        }
    }
}

proof fn lemma_remove_first_mset(x: Seq<StyleEntry>, a: StyleEntry)
    requires
        mset(x).count(a) > 0,
    ensures
        mset(remove_first(x, a)) =~= mset(x).remove(a),
    decreases x.len(),
{
    broadcast use vstd::multiset::group_multiset_axioms;

    if x.len() == 0 {
        lemma_mset_empty(x);
    } else {
        let r = x.drop_first();
        assert(x == seq![x[0]] + r);
        vstd::seq_lib::lemma_multiset_commutative(seq![x[0]], r);
        lemma_mset_push(Seq::<StyleEntry>::empty(), x[0]);
        assert(seq![x[0]] == Seq::<StyleEntry>::empty().push(x[0]));
        lemma_mset_empty(Seq::<StyleEntry>::empty());
        if x[0] != a {
            lemma_remove_first_mset(r, a);
            vstd::seq_lib::lemma_multiset_commutative(seq![x[0]], remove_first(r, a));
        }
    }
}

proof fn lemma_drop_afters_mset(x: Seq<StyleEntry>, z: Seq<StyleEntry>, m: Seq<StyleEntry>, s: usize, e: usize)
    requires
        mset(x) =~= mset(z).add(mset(kept_afters(m, s, e))),
    ensures
        mset(drop_afters(x, cut_changes(m, s, e))) =~= mset(z),
    decreases m.len(),
{
    broadcast use vstd::multiset::group_multiset_axioms;

    if m.len() == 0 {
        assert(cut_changes(m, s, e) =~= Seq::<(StyleEntry, StyleEntry)>::empty());
        lemma_mset_empty(Seq::<StyleEntry>::empty());
    } else {
        let m0 = m.drop_last();
        let t = m.last();
        let n = shrink_entry(s, e, t);
        if touches(s, e, t) {
            assert(cut_changes(m, s, e).drop_last() == cut_changes(m0, s, e));
            if n.0 < n.1 {
                lemma_mset_push(kept_afters(m0, s, e), n);
                lemma_mset_push(z, n);
                lemma_drop_afters_mset(x, z.push(n), m0, s, e);
                lemma_remove_first_mset(drop_afters(x, cut_changes(m0, s, e)), n);
            } else {
                lemma_drop_afters_mset(x, z, m0, s, e);
            }
        } else {
            lemma_drop_afters_mset(x, z, m0, s, e);
        }
    }
}

proof fn lemma_drop_befores_mset(x: Seq<StyleEntry>, z: Seq<StyleEntry>, m: Seq<StyleEntry>, s: usize, e: usize)
    requires
        mset(x) =~= mset(z).add(mset(touched(m, s, e))),
    ensures
        mset(drop_befores(x, cut_changes(m, s, e))) =~= mset(z),
    decreases m.len(),
{
    broadcast use vstd::multiset::group_multiset_axioms;

    if m.len() == 0 {
        assert(cut_changes(m, s, e) =~= Seq::<(StyleEntry, StyleEntry)>::empty());
        lemma_mset_empty(Seq::<StyleEntry>::empty());
    } else {
        let m0 = m.drop_last();
        let t = m.last();
        if touches(s, e, t) {
            assert(cut_changes(m, s, e).drop_last() == cut_changes(m0, s, e));
            lemma_mset_push(touched(m0, s, e), t);
            lemma_mset_push(z, t);
            lemma_drop_befores_mset(x, z.push(t), m0, s, e);
            lemma_remove_first_mset(drop_befores(x, cut_changes(m0, s, e)), t);
        } else {
            lemma_drop_befores_mset(x, z, m0, s, e);
        }
    }
}

proof fn lemma_add_befores_mset(x: Seq<StyleEntry>, m: Seq<StyleEntry>, s: usize, e: usize)
    requires
        forall|i: int| 0 <= i < m.len() ==> #[trigger] m[i].0 <= m[i].1,
    ensures
        mset(add_befores(x, cut_changes(m, s, e))) =~= mset(x).add(mset(touched(m, s, e))),
    decreases m.len(),
{
    broadcast use vstd::multiset::group_multiset_axioms;

    if m.len() == 0 {
        assert(cut_changes(m, s, e) =~= Seq::<(StyleEntry, StyleEntry)>::empty());
        lemma_mset_empty(Seq::<StyleEntry>::empty());
    } else {
        let m0 = m.drop_last();
        let t = m.last();
        assert forall|i: int| 0 <= i < m0.len() implies #[trigger] m0[i].0 <= m0[i].1 by {
            assert(m0[i] == m[i]);
        }
        assert(t.0 <= t.1) by {
            assert(t == m[m.len() - 1]);
        }
        lemma_add_befores_mset(x, m0, s, e);
        if touches(s, e, t) {
            assert(cut_changes(m, s, e).drop_last() == cut_changes(m0, s, e));
            lemma_mset_push(add_befores(x, cut_changes(m0, s, e)), t);
            lemma_mset_push(touched(m0, s, e), t);
        }
    }
}

proof fn lemma_add_afters_mset(x: Seq<StyleEntry>, m: Seq<StyleEntry>, s: usize, e: usize)
    ensures
        mset(add_afters(x, cut_changes(m, s, e))) =~= mset(x).add(mset(kept_afters(m, s, e))),
    decreases m.len(),
{
    broadcast use vstd::multiset::group_multiset_axioms;

    if m.len() == 0 {
        assert(cut_changes(m, s, e) =~= Seq::<(StyleEntry, StyleEntry)>::empty());
        lemma_mset_empty(Seq::<StyleEntry>::empty());
    } else {
        let m0 = m.drop_last();
        let t = m.last();
        let n = shrink_entry(s, e, t);
        lemma_add_afters_mset(x, m0, s, e);
        if touches(s, e, t) {
            assert(cut_changes(m, s, e).drop_last() == cut_changes(m0, s, e));
            if n.0 < n.1 {
                lemma_mset_push(add_afters(x, cut_changes(m0, s, e)), n);
                lemma_mset_push(kept_afters(m0, s, e), n);
            }
        }
    }
}

/// Equal multisets stay equal under the same map.
proof fn lemma_mset_map(x: Seq<StyleEntry>, y: Seq<StyleEntry>, f: spec_fn(StyleEntry) -> StyleEntry)
    requires
        mset(x) =~= mset(y),
    ensures
        mset(x.map_values(f)) =~= mset(y.map_values(f)),
    decreases x.len(),
{
    broadcast use vstd::multiset::group_multiset_axioms;
    broadcast use vstd::seq_lib::group_to_multiset_ensures;

    if x.len() == 0 {
        assert(y.len() == mset(y).len());
        assert(x.map_values(f) =~= Seq::<StyleEntry>::empty());
        assert(y.map_values(f) =~= Seq::<StyleEntry>::empty());
    } else {
        let x0 = x.drop_last();
        let a = x.last();
        assert(x == x0.push(a));
        assert(mset(x) =~= mset(x0).insert(a));
        assert(mset(y).count(a) > 0);
        assert(y.contains(a));
        let i = choose|i: int| 0 <= i < y.len() && y[i] == a;
        let y0 = y.remove(i);
        assert(mset(y0) =~= mset(y).remove(a));
        assert(mset(x0) =~= mset(y0));
        lemma_mset_map(x0, y0, f);
        assert(x.map_values(f) =~= x0.map_values(f).push(f(a)));
        assert(y.map_values(f).remove(i) =~= y0.map_values(f));
        assert(mset(y.map_values(f).remove(i)) =~= mset(y.map_values(f)).remove(f(a)));
        assert(mset(y.map_values(f)).count(f(a)) > 0) by {
            assert(y.map_values(f)[i] == f(a));
            assert(y.map_values(f).contains(f(a)));
        }
    }
}


proof fn lemma_untouched_props(m: Seq<StyleEntry>, s: usize, e: usize)
    requires
        s < e,
        forall|i: int| 0 <= i < m.len() ==> #[trigger] m[i].0 <= m[i].1,
    ensures
        forall|i: int|
            0 <= i < untouched(m, s, e).len() ==> expand_entry(
                s,
                (e - s) as usize,
                shrink_entry(s, e, #[trigger] untouched(m, s, e)[i]),
            ) == untouched(m, s, e)[i],
    decreases m.len(),
{
    if m.len() > 0 {
        let m0 = m.drop_last();
        assert forall|i: int| 0 <= i < m0.len() implies #[trigger] m0[i].0 <= m0[i].1 by {
            assert(m0[i] == m[i]);
        }
        assert(m.last() == m[m.len() - 1]);
        lemma_untouched_props(m0, s, e);
        let u0 = untouched(m0, s, e);
        let u = untouched(m, s, e);
        if !touches(s, e, m.last()) {
            assert(u == u0.push(m.last()));
            assert forall|i: int| 0 <= i < u.len() implies expand_entry(
                s,
                (e - s) as usize,
                shrink_entry(s, e, #[trigger] u[i]),
            ) == u[i] by {
                if i < u0.len() {
                    assert(u[i] == u0[i]);
                }
            }
        }
    }
}

/// Doing a removal of the bytes `s..e` again, on styles that hold the same
/// ranges as before it, gives the styles that the removal left, as a
/// multiset.
pub proof fn lemma_reremove_styles(y: Seq<StyleEntry>, m: Seq<StyleEntry>, s: usize, e: usize)
    requires
        s <= e,
        forall|i: int| 0 <= i < m.len() ==> #[trigger] m[i].0 <= m[i].1,
        mset(y) =~= mset(m),
    ensures
        mset(reremove_styles(y, (s, e), cut_changes(m, s, e))) =~= mset(cut_entries(m, s, e)),
{
    broadcast use vstd::multiset::group_multiset_axioms;

    let ch = cut_changes(m, s, e);
    let u = untouched(m, s, e);
    let fs = |t: StyleEntry| shrink_entry(s, e, t);
    lemma_split_mset(m, s, e);
    lemma_drop_befores_mset(y, u, m, s, e);
    let d = drop_befores(y, ch);
    lemma_mset_map(d, u, fs);
    assert(d.map_values(fs) =~= d.map_values(|x: StyleEntry| shrink_entry(s, e, x)));
    assert(u.map_values(fs) =~= u.map_values(|x: StyleEntry| shrink_entry(s, e, x)));
    lemma_add_afters_mset(d.map_values(fs), m, s, e);
    lemma_cut_mset(m, s, e);
}

/// The text, cursor and anchor of two states agree, and their styles hold
/// the same ranges.
pub open spec fn same_content_mset(a: CoreView, b: CoreView) -> bool {
    a.text == b.text && mset(a.styles) == mset(b.styles) && a.cursor == b.cursor && a.anchor
        == b.anchor
}

proof fn lemma_cut_offsets(s: Seq<char>, x: int, y: int)
    requires
        0 <= x <= y <= s.len(),
    ensures
        byte_off(cut_text(s, x, y), x) == byte_off(s, x),
        spliced(cut_text(s, x, y), x, s.subrange(x, y)) == s,
{
    assert(cut_text(s, x, y).take(x) =~= s.take(x));
    assert(spliced(cut_text(s, x, y), x, s.subrange(x, y)) =~= s);
}

/// Undo right after removing a non-empty range restores text, cursor and
/// anchor exactly and the styles as a multiset, where the log keeps at
/// least one entry.
#[verifier::rlimit(40)]
pub proof fn lemma_undo_remove(v: CoreView, r: TextRange, char_level: bool)
    requires
        core_ok(v),
        v.undo is Some,
        v.undo.unwrap().capacity > 0,
        r.wf(),
        r.start != r.end,
        range_error(v.text, r).is_none(),
    ensures
        same_content_mset(undo_spec(remove_spec(v, r, char_level)).0, v),
        undo_spec(remove_spec(v, r, char_level)).1 == TextOutcome::TextChanged,
{
    let s = v.text;
    let x = r.start.x as int;
    let y = r.end.x as int;
    crate::text_store::lemma_byte_off_mono(s, x, y);
    crate::text_store::lemma_byte_off_mono(s, y, s.len() as int);
    let b0 = byte_off(s, x) as usize;
    let b1 = byte_off(s, y) as usize;
    let w = remove_spec(v, r, char_level);
    let u1 = w.undo.unwrap();
    let n = u1.entries.len();
    assert(n > 0 && u1.idx == n);
    lemma_cut_offsets(s, x, y);
    lemma_boundary_index(cut_text(s, x, y), x);
    lemma_unremove_any(cut_entries(v.styles, b0, b1), v.styles, b0, b1);
}

/// Redo right after undoing a removal reproduces the state after the
/// removal: text, cursor and anchor exactly, the styles as a multiset.
#[verifier::rlimit(60)]
pub proof fn lemma_redo_remove(v: CoreView, r: TextRange, char_level: bool)
    requires
        core_ok(v),
        v.undo is Some,
        v.undo.unwrap().capacity > 0,
        r.wf(),
        r.start != r.end,
        range_error(v.text, r).is_none(),
    ensures
        same_content_mset(
            redo_spec(undo_spec(remove_spec(v, r, char_level)).0).0,
            remove_spec(v, r, char_level),
        ),
{
    lemma_undo_remove(v, r, char_level);
    let s = v.text;
    let x = r.start.x as int;
    let y = r.end.x as int;
    crate::text_store::lemma_byte_off_mono(s, x, y);
    let b0 = byte_off(s, x) as usize;
    let b1 = byte_off(s, y) as usize;
    let w = remove_spec(v, r, char_level);
    let u1 = w.undo.unwrap();
    let n = u1.entries.len();
    assert(n > 0 && u1.idx == n);
    let x1 = undo_spec(w).0;
    assert(x1.undo.unwrap().entries == u1.entries);
    assert(x1.undo.unwrap().idx == n - 1);
    lemma_boundary_index(s, x);
    lemma_boundary_index(s, y);
    lemma_reremove_styles(x1.styles, v.styles, b0, b1);
}


/// After an insert of `l` bytes at byte `p`, a style that starts at or after
/// `p` has moved by `l`, one that straddles `p` has only its end moved, and
/// one that lies before `p` stays.
pub proof fn lemma_insert_moves_styles(v: CoreView, pos: TextPosition, t: Seq<char>, char_level: bool)
    requires
        core_ok(v),
        insert_error(v, pos, t).is_none(),
        room_for(v.styles, bytes_len(t)),
    ensures
        ({
            let w = insert_spec(v, pos, t, char_level);
            let p = byte_off(v.text, pos.x as int);
            let l = bytes_len(t);
            &&& w.styles.len() == v.styles.len()
            &&& forall|i: int|
                0 <= i < v.styles.len() ==> {
                    let e = #[trigger] v.styles[i];
                    &&& e.0 >= p ==> w.styles[i] == ((e.0 + l) as usize, (e.1 + l) as usize, e.2)
                    &&& e.0 < p < e.1 ==> w.styles[i] == (e.0, (e.1 + l) as usize, e.2)
                    &&& e.0 < p && e.1 <= p ==> w.styles[i] == e
                }
        }),
{
    let w = insert_spec(v, pos, t, char_level);
    let p = byte_off(v.text, pos.x as int);
    let l = bytes_len(t);
    let s = v.text;
    let x = pos.x as int;
    crate::text_store::lemma_byte_off_mono(s, x, s.len() as int);
    assert(s == s.take(x) + s.skip(x));
    crate::text_store::lemma_bytes_len_concat(s.take(x), s.skip(x));
    crate::text_store::lemma_bytes_len_concat(s.take(x), t);
    crate::text_store::lemma_bytes_len_concat(s.take(x) + t, s.skip(x));
    assert(p + l <= usize::MAX);
    assert forall|i: int| 0 <= i < v.styles.len() implies {
        let e = #[trigger] v.styles[i];
        &&& e.0 >= p ==> w.styles[i] == ((e.0 + l) as usize, (e.1 + l) as usize, e.2)
        &&& e.0 < p < e.1 ==> w.styles[i] == (e.0, (e.1 + l) as usize, e.2)
        &&& e.0 < p && e.1 <= p ==> w.styles[i] == e
    } by {
        let e = v.styles[i];
        assert(e.0 <= e.1);
        assert(e.1 + l <= usize::MAX);
        assert(w.styles[i] == expand_entry(p as usize, l as usize, e));
    }
}

/// A style that touches the bytes `s..e` and lies inside them.
pub open spec fn inside(s: usize, e: usize, t: StyleEntry) -> bool {
    touches(s, e, t) && s <= t.0 && t.1 <= e
}

/// The styles that survive the removal of the bytes `s..e`, in order.
pub open spec fn survivors(m: Seq<StyleEntry>, s: usize, e: usize) -> Seq<StyleEntry>
    decreases m.len(),
{
    if m.len() == 0 {
        Seq::empty()
    } else {
        let r = survivors(m.drop_last(), s, e);
        if inside(s, e, m.last()) {
            r
        } else {
            r.push(m.last())
        }
    }
}

/// Removing the bytes `s..e` drops exactly the styles inside them and
/// shrinks all others by the part that overlapped.
pub proof fn lemma_remove_styles(m: Seq<StyleEntry>, s: usize, e: usize)
    requires
        s <= e,
        forall|i: int| 0 <= i < m.len() ==> #[trigger] m[i].0 <= m[i].1,
    ensures
        cut_entries(m, s, e) == survivors(m, s, e).map_values(|t: StyleEntry| shrink_entry(s, e, t)),
    decreases m.len(),
{
    if m.len() == 0 {
        assert(survivors(m, s, e).map_values(|t: StyleEntry| shrink_entry(s, e, t)) =~= Seq::<
            StyleEntry,
        >::empty());
    } else {
        let m0 = m.drop_last();
        assert forall|i: int| 0 <= i < m0.len() implies #[trigger] m0[i].0 <= m0[i].1 by {
            assert(m0[i] == m[i]);
        }
        assert(m.last() == m[m.len() - 1]);
        lemma_remove_styles(m0, s, e);
        let t = m.last();
        if !inside(s, e, t) {
            assert(survivors(m, s, e).map_values(|t: StyleEntry| shrink_entry(s, e, t)) =~= survivors(
                m0,
                s,
                e,
            ).map_values(|t: StyleEntry| shrink_entry(s, e, t)).push(shrink_entry(s, e, t)));
        }
    }
}

/// Where `p` starts a word (or the end) right after a break, the start
/// of the next word from the end of the previous word before `p` is `p`.
pub proof fn lemma_word_nav_round_trip(s: Seq<char>, p: int, q: int, r: int)
    requires
        0 < p <= s.len(),
        is_break(s[p - 1]),
        p == s.len() || !is_break(s[p]),
        is_prev_word_end(s, p, q),
        is_next_word_start(s, q, r),
    ensures
        r == p,
{
    if r < p {
        assert(is_break(s[r]));
    }
    if r > p {
        assert(is_break(s[p]));
    }
}

/// The selection is ordered, whichever way anchor and cursor lie, and runs
/// between the two.
pub proof fn lemma_selection_ordered(anchor: TextPosition, cursor: TextPosition)
    ensures
        ordered_range(anchor, cursor).wf(),
        (ordered_range(anchor, cursor).start == anchor && ordered_range(anchor, cursor).end == cursor)
            || (ordered_range(anchor, cursor).start == cursor && ordered_range(anchor, cursor).end
            == anchor),
{
}

/// Entries recorded one after another.
pub open spec fn append_all(u: UndoView, es: Seq<EntryView>) -> UndoView
    decreases es.len(),
{
    if es.len() == 0 {
        u
    } else {
        append_spec(append_all(u, es.drop_last()), es.last(), true)
    }
}

/// Recording entries one after another into an empty log keeps the most
/// recent ones, as many as the capacity allows; older ones are gone.
pub proof fn lemma_capacity(u: UndoView, es: Seq<EntryView>)
    requires
        u.entries.len() == 0,
        u.idx == 0,
        forall|i: int| 0 <= i < es.len() ==> !is_marker(#[trigger] es[i]),
    ensures
        append_all(u, es).entries == (if es.len() <= u.capacity {
            es
        } else {
            es.skip(es.len() - u.capacity)
        }),
        append_all(u, es).idx == append_all(u, es).entries.len(),
        append_all(u, es).capacity == u.capacity,
    decreases es.len(),
{
    if es.len() > 0 {
        let e0 = es.drop_last();
        assert forall|i: int| 0 <= i < e0.len() implies !is_marker(#[trigger] e0[i]) by {
            assert(e0[i] == es[i]);
        }
        lemma_capacity(u, e0);
        assert(es.last() == es[es.len() - 1]);
        let a = append_all(u, e0);
        if e0.len() < u.capacity {
            assert(a.entries.take(a.idx as int).push(es.last()) =~= es);
        } else if e0.len() == u.capacity {
            if u.capacity == 0 {
                assert(a.entries.take(a.idx as int).push(es.last()).drop_first() =~= es.skip(
                    es.len() - u.capacity,
                ));
            } else {
                assert(a.entries.take(a.idx as int).push(es.last()).drop_first() =~= es.skip(
                    es.len() - u.capacity,
                ));
            }
        } else {
            assert(a.entries.take(a.idx as int).push(es.last()).drop_first() =~= es.skip(
                es.len() - u.capacity,
            ));
        }
    }
}


/// Styles that hold the same ranges as those a removal of the non-empty
/// bytes `s..e` left, with the removal taken back, hold the same ranges as
/// before it.
pub proof fn lemma_unremove_any(x: Seq<StyleEntry>, m: Seq<StyleEntry>, s: usize, e: usize)
    requires
        s < e,
        forall|i: int| 0 <= i < m.len() ==> #[trigger] m[i].0 <= m[i].1,
        mset(x) =~= mset(cut_entries(m, s, e)),
    ensures
        mset(unremove_styles(x, (s, e), cut_changes(m, s, e))) =~= mset(m),
{
    broadcast use vstd::multiset::group_multiset_axioms;

    let ch = cut_changes(m, s, e);
    let u = untouched(m, s, e);
    let fs = |t: StyleEntry| shrink_entry(s, e, t);
    let fe = |t: StyleEntry| expand_entry(s, (e - s) as usize, t);
    let us = u.map_values(fs);
    lemma_cut_mset(m, s, e);
    assert(us =~= u.map_values(|t: StyleEntry| shrink_entry(s, e, t)));
    lemma_drop_afters_mset(x, us, m, s, e);
    let d = drop_afters(x, ch);
    lemma_mset_map(d, us, fe);
    lemma_untouched_props(m, s, e);
    assert(us.map_values(fe) =~= u);
    assert(d.map_values(fe) =~= d.map_values(
        |y: StyleEntry| expand_entry(s, (e - s) as usize, y),
    ));
    lemma_add_befores_mset(d.map_values(fe), m, s, e);
    lemma_split_mset(m, s, e);
}

/// One edit of the text or of its styles.
pub enum Edit {
    Insert { pos: TextPosition, txt: Seq<char>, char_level: bool },
    Remove { range: TextRange, char_level: bool },
    AddStyle { entry: StyleEntry },
    RemoveStyle { entry: StyleEntry },
    SetStyles { styles: Seq<StyleEntry> },
}

/// The state after an edit.
pub open spec fn apply_edit(v: CoreView, ed: Edit) -> CoreView {
    match ed {
        Edit::Insert { pos, txt, char_level } => insert_spec(v, pos, txt, char_level),
        Edit::Remove { range, char_level } => remove_spec(v, range, char_level),
        Edit::AddStyle { entry } => CoreView {
            styles: v.styles.push(entry),
            undo: logged_style(v.undo, EntryView::AddStyle { entry }),
            ..v
        },
        Edit::RemoveStyle { entry } => crate::text_core::remove_style_spec(v, entry),
        Edit::SetStyles { styles } => CoreView {
            styles,
            undo: logged_style(v.undo, EntryView::SetStyles { before: v.styles, after: styles }),
            ..v
        },
    }
}

/// The log entry an edit records.
pub open spec fn entry_of(v: CoreView, ed: Edit) -> EntryView {
    match ed {
        Edit::Insert { pos, txt, char_level } => insert_entry_of(v, pos, txt, char_level),
        Edit::Remove { range, char_level } => {
            let w = remove_spec(v, range, char_level);
            let b0 = byte_off(v.text, range.start.x as int) as usize;
            let b1 = byte_off(v.text, range.end.x as int) as usize;
            EntryView::Remove {
                char_level,
                bytes: (b0, b1),
                cursor: TextPositionChange { before: v.cursor, after: w.cursor },
                anchor: TextPositionChange { before: v.anchor, after: w.anchor },
                txt: v.text.subrange(range.start.x as int, range.end.x as int),
                styles: cut_changes(v.styles, b0, b1),
            }
        },
        Edit::AddStyle { entry } => EntryView::AddStyle { entry },
        Edit::RemoveStyle { entry } => EntryView::RemoveStyle { entry },
        Edit::SetStyles { styles } => EntryView::SetStyles { before: v.styles, after: styles },
    }
}

/// The edit succeeds on `v` and is recorded: a non-empty insert at a valid
/// position that does not push a style range past the largest offset, the
/// removal of a valid non-empty range, or, where the log records style
/// edits, adding an ordered style range, removing one that is there, or
/// setting ordered ones. An
/// empty insert, or the removal of a style that is not there, changes
/// nothing and records nothing, so it is no edit of the history.
pub open spec fn edit_ok(v: CoreView, ed: Edit) -> bool {
    &&& core_ok(v)
    &&& match ed {
        Edit::Insert { pos, txt, .. } => txt.len() > 0 && insert_error(v, pos, txt).is_none() && room_for(
            v.styles,
            bytes_len(txt),
        ),
        Edit::Remove { range, .. } => range.wf() && range.start != range.end && range_error(
            v.text,
            range,
        ).is_none(),
        Edit::AddStyle { entry } => entry.0 <= entry.1 && style_edits_logged(v),
        Edit::RemoveStyle { entry } => v.styles.contains(entry) && style_edits_logged(v),
        Edit::SetStyles { styles } => (forall|i: int|
            0 <= i < styles.len() ==> #[trigger] styles[i].0 <= styles[i].1) && style_edits_logged(v),
    }
}

/// The log records style-only edits.
pub open spec fn style_edits_logged(v: CoreView) -> bool {
    v.undo is Some && v.undo.unwrap().undo_styles
}

/// Edits applied in order.
pub open spec fn apply_edits(v: CoreView, es: Seq<Edit>) -> CoreView
    decreases es.len(),
{
    if es.len() == 0 {
        v
    } else {
        apply_edit(apply_edits(v, es.drop_last()), es.last())
    }
}

/// Entries the edits record, in order.
pub open spec fn recorded(v: CoreView, es: Seq<Edit>) -> Seq<EntryView>
    decreases es.len(),
{
    if es.len() == 0 {
        Seq::empty()
    } else {
        recorded(v, es.drop_last()).push(entry_of(apply_edits(v, es.drop_last()), es.last()))
    }
}

/// Each edit succeeds on the state that the ones before it left, and the
/// final state is a valid one.
pub open spec fn edits_ok(v: CoreView, es: Seq<Edit>) -> bool {
    &&& forall|k: int| 0 <= k < es.len() ==> edit_ok(#[trigger] apply_edits(v, es.take(k)), es[k])
    &&& core_ok(apply_edits(v, es))
}

/// `undo()` called `n` times.
pub open spec fn undo_n(v: CoreView, n: nat) -> CoreView
    decreases n,
{
    if n == 0 {
        v
    } else {
        undo_spec(undo_n(v, (n - 1) as nat)).0
    }
}

/// `redo()` called `n` times.
pub open spec fn redo_n(v: CoreView, n: nat) -> CoreView
    decreases n,
{
    if n == 0 {
        v
    } else {
        redo_spec(redo_n(v, (n - 1) as nat)).0
    }
}

proof fn lemma_take_step(v: CoreView, es: Seq<Edit>, k: int)
    requires
        0 <= k < es.len(),
    ensures
        apply_edits(v, es.take(k + 1)) == apply_edit(apply_edits(v, es.take(k)), es[k]),
        recorded(v, es.take(k + 1)) == recorded(v, es.take(k)).push(
            entry_of(apply_edits(v, es.take(k)), es[k]),
        ),
{
    assert(es.take(k + 1).drop_last() == es.take(k));
    assert(es.take(k + 1).last() == es[k]);
}

/// The log after each edit: what could be redone is dropped, and each
/// edit's entry follows, none pushed out while the capacity has room.
#[verifier::rlimit(80)]
proof fn lemma_log_after_edits(v: CoreView, es: Seq<Edit>, k: int)
    requires
        v.undo is Some,
        v.undo.unwrap().idx == v.undo.unwrap().entries.len(),
        v.undo.unwrap().idx + es.len() <= v.undo.unwrap().capacity,
        0 <= k <= es.len(),
        forall|j: int| 0 <= j < es.len() ==> edit_ok(#[trigger] apply_edits(v, es.take(j)), es[j]),
    ensures
        apply_edits(v, es.take(k)).undo is Some,
        apply_edits(v, es.take(k)).undo.unwrap().entries == v.undo.unwrap().entries.take(
            v.undo.unwrap().idx as int,
        ) + recorded(v, es.take(k)),
        apply_edits(v, es.take(k)).undo.unwrap().idx == v.undo.unwrap().idx + k,
        apply_edits(v, es.take(k)).undo.unwrap().capacity == v.undo.unwrap().capacity,
    decreases k,
{
    let u0 = v.undo.unwrap();
    if k == 0 {
        assert(es.take(0) =~= Seq::<Edit>::empty());
        assert(u0.entries.take(u0.idx as int) + Seq::<EntryView>::empty() =~= u0.entries.take(
            u0.idx as int,
        ));
        assert(u0.entries.take(u0.idx as int) == u0.entries);
    } else {
        lemma_log_after_edits(v, es, k - 1);
        lemma_take_step(v, es, k - 1);
        let w = apply_edits(v, es.take(k - 1));
        let ed = es[k - 1];
        assert(edit_ok(w, ed));
        let u = w.undo.unwrap();
        let e = entry_of(w, ed);
        lemma_edit_log(w, ed);
        assert(apply_edit(w, ed).undo == Some(append_spec(u, e, true)));
        lemma_recorded_len(v, es.take(k - 1));
        assert(u.entries.take(u.idx as int) =~= u.entries);
        assert(u.entries.push(e) =~= u0.entries.take(u0.idx as int) + recorded(v, es.take(k)));
    }
}

proof fn lemma_recorded_len(v: CoreView, es: Seq<Edit>)
    ensures
        recorded(v, es).len() == es.len(),
    decreases es.len(),
{
    if es.len() > 0 {
        lemma_recorded_len(v, es.drop_last());
    }
}

/// What an edit does to the log.
proof fn lemma_edit_log(w: CoreView, ed: Edit)
    requires
        edit_ok(w, ed),
    ensures
        apply_edit(w, ed).undo == crate::text_core::logged(w.undo, entry_of(w, ed)),
{
}

proof fn lemma_recorded_at(v: CoreView, es: Seq<Edit>, k: int)
    requires
        0 <= k < es.len(),
    ensures
        recorded(v, es).len() == es.len(),
        recorded(v, es)[k] == entry_of(apply_edits(v, es.take(k)), es[k]),
    decreases es.len(),
{
    lemma_recorded_len(v, es);
    lemma_recorded_len(v, es.drop_last());
    let e0 = es.drop_last();
    if k < es.len() - 1 {
        lemma_recorded_at(v, e0, k);
        assert(e0.take(k) == es.take(k));
        assert(e0[k] == es[k]);
    } else {
        assert(es.take(k) == e0);
        if e0.len() > 0 {
            lemma_recorded_at(v, e0, 0);
        }
    }
}


/// Taking back an insert from any state with the same content as right
/// after it.
#[verifier::rlimit(60)]
proof fn lemma_undo_insert_content(w: CoreView, pos: TextPosition, t: Seq<char>, cl: bool, y: CoreView)
    requires
        edit_ok(w, Edit::Insert { pos, txt: t, char_level: cl }),
        same_content_mset(y, insert_spec(w, pos, t, cl)),
    ensures
        same_content_mset(undo_apply(y, insert_entry_of(w, pos, t, cl)).0, w),
        undo_apply(y, insert_entry_of(w, pos, t, cl)).0.undo == y.undo,
{
    let s = w.text;
    let x = pos.x as int;
    let b0 = byte_off(s, x);
    let l = bytes_len(t);
    crate::text_store::lemma_byte_off_mono(s, x, s.len() as int);
    assert(s == s.take(x) + s.skip(x));
    crate::text_store::lemma_bytes_len_concat(s.take(x), s.skip(x));
    crate::text_store::lemma_bytes_len_concat(s.take(x), t);
    crate::text_store::lemma_bytes_len_concat(s.take(x) + t, s.skip(x));
    let n = spliced(s, x, t);
    lemma_byte_off_insert(s, x, t, x);
    lemma_boundary_index(n, x);
    lemma_boundary_index(n, x + t.len());
    assert(cut_text(n, x, x + t.len()) =~= s);
    lemma_styles_shrink_expand(w.styles, b0 as usize, l as usize);
    let fe = |e: StyleEntry| expand_entry(b0 as usize, l as usize, e);
    let fs = |e: StyleEntry| shrink_entry(b0 as usize, (b0 + l) as usize, e);
    let we = w.styles.map_values(fe);
    assert(we =~= insert_spec(w, pos, t, cl).styles);
    lemma_mset_map(y.styles, we, fs);
    assert(we.map_values(fs) =~= w.styles);
    assert(y.styles.map_values(fs) =~= undo_apply(y, insert_entry_of(w, pos, t, cl)).0.styles);
}

/// Taking back a removal from any state with the same content as right
/// after it.
#[verifier::rlimit(60)]
proof fn lemma_undo_remove_content(w: CoreView, r: TextRange, cl: bool, y: CoreView)
    requires
        edit_ok(w, Edit::Remove { range: r, char_level: cl }),
        same_content_mset(y, remove_spec(w, r, cl)),
    ensures
        same_content_mset(undo_apply(y, entry_of(w, Edit::Remove { range: r, char_level: cl })).0, w),
        undo_apply(y, entry_of(w, Edit::Remove { range: r, char_level: cl })).0.undo == y.undo,
{
    let s = w.text;
    let x = r.start.x as int;
    let z = r.end.x as int;
    crate::text_store::lemma_byte_off_mono(s, x, z);
    crate::text_store::lemma_byte_off_mono(s, z, s.len() as int);
    let b0 = byte_off(s, x) as usize;
    let b1 = byte_off(s, z) as usize;
    lemma_cut_offsets(s, x, z);
    lemma_boundary_index(cut_text(s, x, z), x);
    lemma_unremove_any(y.styles, w.styles, b0, b1);
}

/// Doing an insert again from any state with the same content as right
/// before it.
#[verifier::rlimit(60)]
proof fn lemma_redo_insert_content(w: CoreView, pos: TextPosition, t: Seq<char>, cl: bool, y: CoreView)
    requires
        edit_ok(w, Edit::Insert { pos, txt: t, char_level: cl }),
        core_ok(insert_spec(w, pos, t, cl)),
        same_content_mset(y, w),
    ensures
        same_content_mset(
            redo_apply(y, insert_entry_of(w, pos, t, cl)).0,
            insert_spec(w, pos, t, cl),
        ),
        redo_apply(y, insert_entry_of(w, pos, t, cl)).0.undo == y.undo,
{
    let b0 = byte_off(w.text, pos.x as int);
    let l = bytes_len(t);
    redo_insert_parts(w, pos, t);
    let fe = |e: StyleEntry| expand_entry(b0 as usize, l as usize, e);
    lemma_mset_map(y.styles, w.styles, fe);
    assert(w.styles.map_values(fe) =~= insert_spec(w, pos, t, cl).styles);
    assert(y.styles.map_values(fe) =~= redo_apply(y, insert_entry_of(w, pos, t, cl)).0.styles);
}

/// Doing a removal again from any state with the same content as right
/// before it.
#[verifier::rlimit(60)]
proof fn lemma_redo_remove_content(w: CoreView, r: TextRange, cl: bool, y: CoreView)
    requires
        edit_ok(w, Edit::Remove { range: r, char_level: cl }),
        core_ok(remove_spec(w, r, cl)),
        same_content_mset(y, w),
    ensures
        same_content_mset(
            redo_apply(y, entry_of(w, Edit::Remove { range: r, char_level: cl })).0,
            remove_spec(w, r, cl),
        ),
        redo_apply(y, entry_of(w, Edit::Remove { range: r, char_level: cl })).0.undo == y.undo,
{
    let s = w.text;
    let x = r.start.x as int;
    let z = r.end.x as int;
    crate::text_store::lemma_byte_off_mono(s, x, z);
    let b0 = byte_off(s, x) as usize;
    let b1 = byte_off(s, z) as usize;
    lemma_boundary_index(s, x);
    lemma_boundary_index(s, z);
    lemma_reremove_styles(y.styles, w.styles, b0, b1);
}


proof fn lemma_contains_mset(m: Seq<StyleEntry>, a: StyleEntry)
    requires
        m.contains(a),
    ensures
        mset(m).count(a) > 0,
{
    vstd::seq_lib::to_multiset_contains(m, a);
}

/// Taking back a style edit from any state with the same content as right
/// after it.
proof fn lemma_undo_style_content(w: CoreView, ed: Edit, y: CoreView)
    requires
        edit_ok(w, ed),
        !(ed is Insert),
        !(ed is Remove),
        same_content_mset(y, apply_edit(w, ed)),
    ensures
        same_content_mset(undo_apply(y, entry_of(w, ed)).0, w),
        undo_apply(y, entry_of(w, ed)).0.undo == y.undo,
{
    broadcast use vstd::multiset::group_multiset_axioms;

    match ed {
        Edit::AddStyle { entry } => {
            lemma_mset_push(w.styles, entry);
            assert(mset(y.styles) == mset(w.styles.push(entry)));
            assert(mset(y.styles).count(entry) > 0);
            lemma_remove_first_mset(y.styles, entry);
            assert(mset(y.styles).remove(entry) =~= mset(w.styles));
            let r = undo_apply(y, entry_of(w, ed)).0;
            assert(r.styles == remove_first(y.styles, entry));
            assert(mset(r.styles) == mset(w.styles));
            assert(r.text == w.text);
            assert(r.cursor == w.cursor);
            assert(r.anchor == w.anchor);
        },
        Edit::RemoveStyle { entry } => {
            let i = choose|i: int| 0 <= i < w.styles.len() && w.styles[i] == entry;
            assert(entry.0 <= entry.1) by {
                assert(w.styles[i].0 <= w.styles[i].1);
            }
            lemma_contains_mset(w.styles, entry);
            lemma_remove_first_mset(w.styles, entry);
            lemma_mset_push(y.styles, entry);
            let r = undo_apply(y, entry_of(w, ed)).0;
            assert(r.styles == y.styles.push(entry));
            assert(mset(r.styles) =~= mset(w.styles));
        },
        Edit::SetStyles { styles } => {
            let r = undo_apply(y, entry_of(w, ed)).0;
            assert(crate::text_core::styles_ok(w.styles));
            assert(r.styles == w.styles);
        },
        _ => {},
    }
}

/// Doing a style edit again from any state with the same content as right
/// before it.
proof fn lemma_redo_style_content(w: CoreView, ed: Edit, y: CoreView)
    requires
        edit_ok(w, ed),
        !(ed is Insert),
        !(ed is Remove),
        same_content_mset(y, w),
    ensures
        same_content_mset(redo_apply(y, entry_of(w, ed)).0, apply_edit(w, ed)),
        redo_apply(y, entry_of(w, ed)).0.undo == y.undo,
{
    broadcast use vstd::multiset::group_multiset_axioms;

    match ed {
        Edit::AddStyle { entry } => {
            lemma_mset_push(w.styles, entry);
            lemma_mset_push(y.styles, entry);
        },
        Edit::RemoveStyle { entry } => {
            lemma_contains_mset(w.styles, entry);
            lemma_remove_first_mset(w.styles, entry);
            lemma_remove_first_mset(y.styles, entry);
        },
        Edit::SetStyles { styles } => {
        },
        _ => {},
    }
}

/// Starting conditions of the history laws: a valid state whose log has
/// nothing to redo and room for every edit, and edits that each succeed.
pub open spec fn history_ok(v: CoreView, es: Seq<Edit>) -> bool {
    &&& core_ok(v)
    &&& v.undo is Some
    &&& v.undo.unwrap().idx == v.undo.unwrap().entries.len()
    &&& v.undo.unwrap().idx + es.len() <= v.undo.unwrap().capacity
    &&& edits_ok(v, es)
}

proof fn lemma_edit_at(v: CoreView, es: Seq<Edit>, k: int)
    requires
        edits_ok(v, es),
        0 <= k < es.len(),
    ensures
        edit_ok(apply_edits(v, es.take(k)), es[k]),
        core_ok(apply_edits(v, es.take(k + 1))),
        apply_edits(v, es.take(k + 1)) == apply_edit(apply_edits(v, es.take(k)), es[k]),
{
    lemma_take_step(v, es, k);
    assert(edit_ok(apply_edits(v, es.take(k)), es[k]));
    if k + 1 < es.len() {
        assert(edit_ok(apply_edits(v, es.take(k + 1)), es[k + 1]));
    } else {
        assert(es.take(k + 1) == es);
    }
}

#[verifier::rlimit(60)]
proof fn lemma_undo_chain(v: CoreView, es: Seq<Edit>, j: nat)
    requires
        history_ok(v, es),
        j <= es.len(),
    ensures
        same_content_mset(undo_n(apply_edits(v, es), j), apply_edits(v, es.take(es.len() - j))),
        undo_n(apply_edits(v, es), j).undo is Some,
        undo_n(apply_edits(v, es), j).undo.unwrap().entries == apply_edits(v, es).undo.unwrap().entries,
        undo_n(apply_edits(v, es), j).undo.unwrap().idx == v.undo.unwrap().idx + es.len() - j,
    decreases j,
{
    let n = es.len() as int;
    assert(es.take(n) == es);
    lemma_log_after_edits(v, es, n);
    if j > 0 {
        lemma_undo_chain(v, es, (j - 1) as nat);
        let y = undo_n(apply_edits(v, es), (j - 1) as nat);
        let k = n - j;
        lemma_edit_at(v, es, k);
        let w = apply_edits(v, es.take(k));
        let ed = es[k];
        let u = y.undo.unwrap();
        let u0 = v.undo.unwrap();
        lemma_recorded_at(v, es, k);
        assert(u.entries[u.idx - 1] == recorded(v, es)[k]);
        let y2 = CoreView {
            undo: Some(UndoView { idx: (u.idx - 1) as nat, ..append_spec(u, EntryView::Undo, true) }),
            ..y
        };
        assert(undo_spec(y) == undo_apply(y2, entry_of(w, ed)));
        match ed {
            Edit::Insert { pos, txt, char_level } => {
                lemma_undo_insert_content(w, pos, txt, char_level, y2);
            },
            Edit::Remove { range, char_level } => {
                lemma_undo_remove_content(w, range, char_level, y2);
            },
            _ => {
                lemma_undo_style_content(w, ed, y2);
            },
        }
    }
}

#[verifier::rlimit(60)]
proof fn lemma_redo_chain(v: CoreView, es: Seq<Edit>, j: nat)
    requires
        history_ok(v, es),
        j <= es.len(),
    ensures
        same_content_mset(
            redo_n(undo_n(apply_edits(v, es), es.len() as nat), j),
            apply_edits(v, es.take(j as int)),
        ),
        redo_n(undo_n(apply_edits(v, es), es.len() as nat), j).undo is Some,
        redo_n(undo_n(apply_edits(v, es), es.len() as nat), j).undo.unwrap().entries == apply_edits(
            v,
            es,
        ).undo.unwrap().entries,
        redo_n(undo_n(apply_edits(v, es), es.len() as nat), j).undo.unwrap().idx == v.undo.unwrap().idx
            + j,
    decreases j,
{
    let n = es.len() as int;
    assert(es.take(n) == es);
    lemma_log_after_edits(v, es, n);
    lemma_recorded_len(v, es);
    if j == 0 {
        lemma_undo_chain(v, es, es.len() as nat);
    } else {
        lemma_redo_chain(v, es, (j - 1) as nat);
        let y = redo_n(undo_n(apply_edits(v, es), es.len() as nat), (j - 1) as nat);
        let k = j - 1;
        lemma_edit_at(v, es, k);
        let w = apply_edits(v, es.take(k));
        let ed = es[k];
        let u = y.undo.unwrap();
        lemma_recorded_at(v, es, k);
        assert(u.entries[u.idx as int] == recorded(v, es)[k]);
        let y2 = CoreView {
            undo: Some(UndoView { idx: u.idx + 1, ..append_spec(u, EntryView::Redo, true) }),
            ..y
        };
        assert(redo_spec(y) == redo_apply(y2, entry_of(w, ed)));
        match ed {
            Edit::Insert { pos, txt, char_level } => {
                lemma_redo_insert_content(w, pos, txt, char_level, y2);
            },
            Edit::Remove { range, char_level } => {
                lemma_redo_remove_content(w, range, char_level, y2);
            },
            _ => {
                lemma_redo_style_content(w, ed, y2);
            },
        }
    }
}

/// After any sequence of edits, calling undo as many times as there were
/// edits restores text, cursor and anchor exactly and the styles as a
/// multiset, where the log had room for all of them.
pub proof fn lemma_undo_all(v: CoreView, es: Seq<Edit>)
    requires
        history_ok(v, es),
    ensures
        same_content_mset(undo_n(apply_edits(v, es), es.len() as nat), v),
{
    lemma_undo_chain(v, es, es.len() as nat);
    assert(es.take(0) == Seq::<Edit>::empty());
}

/// After any sequence of edits and as many undos, calling redo as many times
/// reproduces the state after the edits: text, cursor and anchor exactly,
/// the styles as a multiset.
pub proof fn lemma_redo_all(v: CoreView, es: Seq<Edit>)
    requires
        history_ok(v, es),
    ensures
        same_content_mset(
            redo_n(undo_n(apply_edits(v, es), es.len() as nat), es.len() as nat),
            apply_edits(v, es),
        ),
{
    lemma_redo_chain(v, es, es.len() as nat);
    assert(es.take(es.len() as int) == es);
}


proof fn lemma_history_prefix(v: CoreView, es: Seq<Edit>)
    requires
        history_ok(v, es),
        es.len() > 0,
    ensures
        history_ok(v, es.drop_last()),
{
    let e0 = es.drop_last();
    let n = es.len() - 1;
    assert forall|k: int| 0 <= k < e0.len() implies edit_ok(
        #[trigger] apply_edits(v, e0.take(k)),
        e0[k],
    ) by {
        assert(e0.take(k) == es.take(k));
        assert(edit_ok(apply_edits(v, es.take(k)), es[k]));
    }
    assert(es.take(n) == e0);
    assert(edit_ok(apply_edits(v, es.take(n)), es[n]));
}

/// With replay recording on, the edits' entries are what the replay record
/// gains.
pub proof fn lemma_replay_record(v: CoreView, es: Seq<Edit>)
    requires
        history_ok(v, es),
        v.undo.unwrap().track_replay,
    ensures
        apply_edits(v, es).undo is Some,
        apply_edits(v, es).undo.unwrap().track_replay,
        apply_edits(v, es).undo.unwrap().replay == v.undo.unwrap().replay + recorded(v, es),
    decreases es.len(),
{
    if es.len() == 0 {
        assert(v.undo.unwrap().replay + Seq::<EntryView>::empty() =~= v.undo.unwrap().replay);
    } else {
        let e0 = es.drop_last();
        let n = es.len() - 1;
        lemma_history_prefix(v, es);
        lemma_replay_record(v, e0);
        assert(es.take(n) == e0);
        lemma_edit_at(v, es, n);
        let w = apply_edits(v, e0);
        lemma_edit_log(w, es[n]);
        assert(es.last() == es[n]);
        assert(v.undo.unwrap().replay + recorded(v, es) =~= (v.undo.unwrap().replay + recorded(
            v,
            e0,
        )).push(entry_of(w, es[n])));
    }
}

/// Replaying the entries that a sequence of edits recorded, on a second
/// instance holding the same text and style ranges, gives it the text and
/// style ranges that the edits gave the first; its own cursor and anchor
/// stay where they were.
#[verifier::rlimit(60)]
pub proof fn lemma_replay_mirrors(v: CoreView, es: Seq<Edit>, b: CoreView)
    requires
        history_ok(v, es),
        b.text == v.text,
        mset(b.styles) == mset(v.styles),
    ensures
        replay_all(b, recorded(v, es)).text == apply_edits(v, es).text,
        mset(replay_all(b, recorded(v, es)).styles) == mset(apply_edits(v, es).styles),
        replay_all(b, recorded(v, es)).cursor == b.cursor,
        replay_all(b, recorded(v, es)).anchor == b.anchor,
    decreases es.len(),
{
    if es.len() > 0 {
        let e0 = es.drop_last();
        let n = es.len() - 1;
        lemma_history_prefix(v, es);
        lemma_replay_mirrors(v, e0, b);
        assert(es.take(n) == e0);
        lemma_edit_at(v, es, n);
        let w = apply_edits(v, e0);
        let ed = es[n];
        assert(es.last() == ed);
        let e = entry_of(w, ed);
        assert(recorded(v, es).drop_last() == recorded(v, e0));
        assert(recorded(v, es).last() == e);
        let y = replay_all(b, recorded(v, e0));
        let y2 = CoreView { cursor: w.cursor, anchor: w.anchor, ..y };
        match ed {
            Edit::Insert { pos, txt, char_level } => {
                lemma_redo_insert_content(w, pos, txt, char_level, y2);
            },
            Edit::Remove { range, char_level } => {
                lemma_redo_remove_content(w, range, char_level, y2);
            },
            _ => {
                lemma_redo_style_content(w, ed, y2);
            },
        }
        if let Edit::RemoveStyle { entry } = ed {
            lemma_contains_mset(w.styles, entry);
            vstd::seq_lib::to_multiset_contains(y.styles, entry);
        }
        assert(replay_content(y, e).0.text == redo_apply(y2, e).0.text);
        assert(replay_content(y, e).0.styles == redo_apply(y2, e).0.styles);
        assert(replay_content(y, e).0.cursor == y.cursor);
    }
}


/// The starting conditions of the history laws, without room in the log.
pub open spec fn history_base_ok(v: CoreView, es: Seq<Edit>) -> bool {
    &&& core_ok(v)
    &&& v.undo is Some
    &&& v.undo.unwrap().idx == v.undo.unwrap().entries.len()
    &&& edits_ok(v, es)
}

/// How many entries the log holds after `n` more: all of them up to its
/// capacity.
pub open spec fn kept_len(u: UndoView, n: int) -> int {
    if u.entries.len() + n <= u.capacity {
        u.entries.len() + n
    } else {
        u.capacity as int
    }
}

/// The log after each edit where it may run full: the newest entries, as
/// many as the capacity keeps.
proof fn lemma_log_kept(v: CoreView, es: Seq<Edit>, k: int)
    requires
        history_base_ok(v, es),
        0 <= k <= es.len(),
    ensures
        apply_edits(v, es.take(k)).undo is Some,
        apply_edits(v, es.take(k)).undo.unwrap().entries == (v.undo.unwrap().entries + recorded(
            v,
            es.take(k),
        )).skip(v.undo.unwrap().entries.len() + k - kept_len(v.undo.unwrap(), k)),
        apply_edits(v, es.take(k)).undo.unwrap().idx == kept_len(v.undo.unwrap(), k),
        apply_edits(v, es.take(k)).undo.unwrap().capacity == v.undo.unwrap().capacity,
    decreases k,
{
    let u0 = v.undo.unwrap();
    let p = u0.entries;
    if k == 0 {
        assert(es.take(0) =~= Seq::<Edit>::empty());
        assert((p + Seq::<EntryView>::empty()).skip(0) =~= p);
    } else {
        lemma_log_kept(v, es, k - 1);
        lemma_take_step(v, es, k - 1);
        let w = apply_edits(v, es.take(k - 1));
        let ed = es[k - 1];
        assert(edit_ok(w, ed));
        let u = w.undo.unwrap();
        let e = entry_of(w, ed);
        lemma_edit_log(w, ed);
        lemma_recorded_len(v, es.take(k - 1));
        let r0 = recorded(v, es.take(k - 1));
        let d0 = p.len() + k - 1 - kept_len(u0, k - 1);
        assert(u.entries.len() == kept_len(u0, k - 1));
        assert(u.entries.take(u.idx as int) =~= u.entries);
        assert(u.entries.push(e) =~= (p + r0.push(e)).skip(d0));
        assert(recorded(v, es.take(k)) == r0.push(e));
        if u.entries.len() + 1 > u.capacity {
            assert(u.entries.push(e).drop_first() =~= (p + r0.push(e)).skip(d0 + 1));
        }
    }
}

#[verifier::rlimit(60)]
proof fn lemma_undo_chain_kept(v: CoreView, es: Seq<Edit>, j: nat)
    requires
        history_base_ok(v, es),
        j <= es.len(),
        j <= kept_len(v.undo.unwrap(), es.len() as int),
    ensures
        same_content_mset(undo_n(apply_edits(v, es), j), apply_edits(v, es.take(es.len() - j))),
        undo_n(apply_edits(v, es), j).undo is Some,
        undo_n(apply_edits(v, es), j).undo.unwrap().entries == apply_edits(v, es).undo.unwrap().entries,
        undo_n(apply_edits(v, es), j).undo.unwrap().idx == kept_len(v.undo.unwrap(), es.len() as int)
            - j,
    decreases j,
{
    let n = es.len() as int;
    assert(es.take(n) == es);
    lemma_log_kept(v, es, n);
    lemma_recorded_len(v, es);
    if j > 0 {
        lemma_undo_chain_kept(v, es, (j - 1) as nat);
        let y = undo_n(apply_edits(v, es), (j - 1) as nat);
        let k = n - j;
        lemma_edit_at(v, es, k);
        let w = apply_edits(v, es.take(k));
        let ed = es[k];
        let u = y.undo.unwrap();
        let u0 = v.undo.unwrap();
        let p = u0.entries;
        let d = p.len() + n - kept_len(u0, n);
        lemma_recorded_at(v, es, k);
        assert(u.entries == (p + recorded(v, es)).skip(d));
        assert(u.entries[u.idx - 1] == (p + recorded(v, es))[d + u.idx - 1]);
        assert(u.entries[u.idx - 1] == recorded(v, es)[k]);
        let y2 = CoreView {
            undo: Some(UndoView { idx: (u.idx - 1) as nat, ..append_spec(u, EntryView::Undo, true) }),
            ..y
        };
        assert(undo_spec(y) == undo_apply(y2, entry_of(w, ed)));
        match ed {
            Edit::Insert { pos, txt, char_level } => {
                lemma_undo_insert_content(w, pos, txt, char_level, y2);
            },
            Edit::Remove { range, char_level } => {
                lemma_undo_remove_content(w, range, char_level, y2);
            },
            _ => {
                lemma_undo_style_content(w, ed, y2);
            },
        }
    }
}

/// With a log of capacity `k` that starts empty, after `k + 1` edits, `k`
/// undos lead back to the state right after the first edit, and a further
/// undo finds nothing to do: the oldest edit cannot be taken back.
pub proof fn lemma_capacity_undo(v: CoreView, es: Seq<Edit>)
    requires
        history_base_ok(v, es),
        v.undo.unwrap().entries.len() == 0,
        es.len() == v.undo.unwrap().capacity + 1,
    ensures
        same_content_mset(
            undo_n(apply_edits(v, es), v.undo.unwrap().capacity),
            apply_edits(v, es.take(1)),
        ),
        undo_spec(undo_n(apply_edits(v, es), v.undo.unwrap().capacity)).1 == TextOutcome::Continue,
        same_content_mset(
            undo_spec(undo_n(apply_edits(v, es), v.undo.unwrap().capacity)).0,
            apply_edits(v, es.take(1)),
        ),
{
    let c = v.undo.unwrap().capacity;
    lemma_undo_chain_kept(v, es, c);
    assert(es.len() - c == 1);
}

/// After the replay record was taken, a sequence of edits leaves in it
/// exactly what, replayed on a second instance with the same text and style
/// ranges, gives that instance the text and style ranges of the first; the
/// second instance's cursor and anchor stay where they were.
pub proof fn lemma_drained_log_mirrors(v: CoreView, es: Seq<Edit>, b: CoreView)
    requires
        history_ok(v, es),
        v.undo.unwrap().track_replay,
        v.undo.unwrap().replay.len() == 0,
        b.text == v.text,
        mset(b.styles) == mset(v.styles),
    ensures
        ({
            let log = apply_edits(v, es).undo.unwrap().replay;
            &&& replay_all(b, log).text == apply_edits(v, es).text
            &&& mset(replay_all(b, log).styles) == mset(apply_edits(v, es).styles)
            &&& replay_all(b, log).cursor == b.cursor
            &&& replay_all(b, log).anchor == b.anchor
        }),
{
    lemma_replay_record(v, es);
    assert(v.undo.unwrap().replay + recorded(v, es) =~= recorded(v, es));
    lemma_replay_mirrors(v, es, b);
}

} // verus!
