//! Style ranges: byte ranges tagged with a caller-defined style index, kept
//! in step with the text as it is edited.

use std::ops::Range;
use vstd::prelude::*;

verus! {

/// A stored style: (start byte, end byte, style tag).
pub type StyleEntry = (usize, usize, usize);

/// `x + l`, capped at the largest `usize`.
pub open spec fn sat_add(x: usize, l: usize) -> usize {
    if x + l > usize::MAX {
        usize::MAX
    } else {
        (x + l) as usize
    }
}

/// A style after `l` bytes were inserted at byte `p`: a range that starts at
/// or after `p` moves by `l`; one that straddles `p` only grows at its end.
pub open spec fn expand_entry(p: usize, l: usize, t: StyleEntry) -> StyleEntry {
    if t.0 >= p {
        (sat_add(t.0, l), sat_add(t.1, l), t.2)
    } else if t.1 > p {
        (t.0, sat_add(t.1, l), t.2)
    } else {
        t
    }
}

/// A byte offset after the bytes `s..e` were removed.
pub open spec fn shrink_point(s: usize, e: usize, x: usize) -> usize {
    if x <= s {
        x
    } else if x >= e {
        (x - (e - s)) as usize
    } else {
        s
    }
}

/// A style after the bytes `s..e` were removed.
pub open spec fn shrink_entry(s: usize, e: usize, t: StyleEntry) -> StyleEntry {
    (shrink_point(s, e, t.0), shrink_point(s, e, t.1), t.2)
}

/// The style's range overlaps the non-empty bytes `s..e`, or is empty and
/// sits at their start.
pub open spec fn touches(s: usize, e: usize, t: StyleEntry) -> bool {
    (t.0 < e && s < t.1) || (t.0 == s && t.1 == s && s < e)
}

/// The styles after the bytes `s..e` were removed: every range shrinks, and
/// a range that touched the removed bytes and is left empty is dropped.
pub open spec fn cut_entries(v: Seq<StyleEntry>, s: usize, e: usize) -> Seq<StyleEntry>
    decreases v.len(),
{
    if v.len() == 0 {
        Seq::empty()
    } else {
        let t = v.last();
        let n = shrink_entry(s, e, t);
        let rest = cut_entries(v.drop_last(), s, e);
        if touches(s, e, t) && n.0 == n.1 {
            rest
        } else {
            rest.push(n)
        }
    }
}

/// The changes that removing the bytes `s..e` makes to the styles that
/// overlap them, as (before, after) pairs.
pub open spec fn cut_changes(v: Seq<StyleEntry>, s: usize, e: usize) -> Seq<(StyleEntry, StyleEntry)>
    decreases v.len(),
{
    if v.len() == 0 {
        Seq::empty()
    } else {
        let t = v.last();
        let rest = cut_changes(v.drop_last(), s, e);
        if touches(s, e, t) {
            rest.push((t, shrink_entry(s, e, t)))
        } else {
            rest
        }
    }
}

/// `v` without its first occurrence of `t`.
pub open spec fn remove_first(v: Seq<StyleEntry>, t: StyleEntry) -> Seq<StyleEntry>
    decreases v.len(),
{
    if v.len() == 0 {
        v
    } else if v[0] == t {
        v.drop_first()
    } else {
        seq![v[0]] + remove_first(v.drop_first(), t)
    }
}

/// The tags of all styles whose range holds byte `pos`, in stored order.
pub open spec fn tags_at(v: Seq<StyleEntry>, pos: usize) -> Seq<usize>
    decreases v.len(),
{
    if v.len() == 0 {
        Seq::empty()
    } else {
        let t = v.last();
        let rest = tags_at(v.drop_last(), pos);
        if t.0 <= pos < t.1 {
            rest.push(t.2)
        } else {
            rest
        }
    }
}

/// The first style with tag `style` whose range holds byte `pos`.
pub open spec fn first_match(v: Seq<StyleEntry>, pos: usize, style: usize) -> Option<StyleEntry>
    decreases v.len(),
{
    if v.len() == 0 {
        None
    } else if v[0].2 == style && v[0].0 <= pos < v[0].1 {
        Some(v[0])
    } else {
        first_match(v.drop_first(), pos, style)
    }
}

pub open spec fn entry_of(r: Range<usize>, style: usize) -> StyleEntry {
    (r.start, r.end, style)
}

/// A style disturbed by a removal: its range before and after.
#[derive(Debug)]
pub struct StyleChange {
    pub before: Range<usize>,
    pub after: Range<usize>,
    pub style: usize,
}

impl StyleChange {
    pub open spec fn view_pair(&self) -> (StyleEntry, StyleEntry) {
        (entry_of(self.before, self.style), entry_of(self.after, self.style))
    }

    /// A copy of the change.
    pub fn duplicate(&self) -> (r: StyleChange)
        ensures
            r.view_pair() == self.view_pair(),
    {
        StyleChange {
            before: Range { start: self.before.start, end: self.before.end },
            after: Range { start: self.after.start, end: self.after.end },
            style: self.style,
        }
    }
}

pub open spec fn changes_view(v: Seq<StyleChange>) -> Seq<(StyleEntry, StyleEntry)> {
    v.map_values(|c: StyleChange| c.view_pair())
}

/// A copy of a list of changes.
pub fn duplicate_changes(v: &Vec<StyleChange>) -> (r: Vec<StyleChange>)
    ensures
        changes_view(r@) == changes_view(v@),
{
    let mut r: Vec<StyleChange> = Vec::new();
    let mut i: usize = 0;
    while i < v.len()
        invariant
            0 <= i <= v@.len(),
            changes_view(r@) == changes_view(v@.take(i as int)),
        decreases v@.len() - i,
    {
        let ghost r0 = r@;
        r.push(v[i].duplicate());
        i += 1;
        proof {
            assert(v@.take(i as int) == v@.take(i - 1).push(v@[i - 1]));
            assert(changes_view(r@) =~= changes_view(r0).push(v@[i - 1].view_pair()));
            assert(changes_view(v@.take(i as int)) =~= changes_view(v@.take(i - 1)).push(
                v@[i - 1].view_pair(),
            ));
        }
    }
    proof {
        assert(v@.take(v@.len() as int) == v@);
    }
    r
}

/// Styles for byte ranges of a text.
#[derive(Debug)]
pub struct RangeMap {
    map: Vec<StyleEntry>,
}

impl View for RangeMap {
    type V = Seq<StyleEntry>;

    closed spec fn view(&self) -> Seq<StyleEntry> {
        self.map@
    }
}

impl RangeMap {
    /// Every stored range has `start <= end`.
    pub open spec fn wf(&self) -> bool {
        forall|i: int| 0 <= i < self@.len() ==> #[trigger] self@[i].0 <= self@[i].1
    }

    /// No styles.
    pub fn new() -> (r: RangeMap)
        ensures
            r@ == Seq::<StyleEntry>::empty(),
            r.wf(),
    {
        RangeMap { map: Vec::new() }
    }

    /// A copy of the map.
    pub fn duplicate(&self) -> (r: RangeMap)
        ensures
            r@ == self@,
    {
        let mut map: Vec<StyleEntry> = Vec::new();
        let mut i: usize = 0;
        while i < self.map.len()
            invariant
                0 <= i <= self@.len(),
                map@ == self@.take(i as int),
            decreases self@.len() - i,
        {
            map.push(self.map[i]);
            i += 1;
            proof {
                assert(self@.take(i as int) == self@.take(i - 1).push(self@[i - 1]));
            }
        }
        proof {
            assert(self@.take(self@.len() as int) == self@);
        }
        RangeMap { map }
    }

    /// Remove all styles.
    pub fn clear(&mut self)
        ensures
            final(self)@ == Seq::<StyleEntry>::empty(),
            final(self).wf(),
    {
        self.map = Vec::new();
    }

    /// Add a style. Duplicates are kept.
    pub fn add(&mut self, range: Range<usize>, style: usize)
        requires
            old(self).wf(),
            range.start <= range.end,
        ensures
            final(self)@ == old(self)@.push(entry_of(range, style)),
            final(self).wf(),
    {
        self.map.push((range.start, range.end, style));
        proof {
            assert forall|i: int| 0 <= i < self@.len() implies #[trigger] self@[i].0 <= self@[i].1 by {
                if i < old(self)@.len() {
                    assert(self@[i] == old(self)@[i]);
                }
            }
        }
    }

    /// Remove the first style with exactly this range and tag; nothing
    /// happens if there is none. Returns whether one was removed.
    pub fn remove(&mut self, range: Range<usize>, style: usize) -> (r: bool)
        requires
            old(self).wf(),
        ensures
            final(self)@ == remove_first(old(self)@, entry_of(range, style)),
            r == old(self)@.contains(entry_of(range, style)),
            final(self).wf(),
    {
        let t = (range.start, range.end, style);
        let ghost v = self@;
        let mut i: usize = 0;
        while i < self.map.len()
            invariant
                self@ == v,
                v == old(self)@,
                t == entry_of(range, style),
                forall|j: int| 0 <= j < v.len() ==> #[trigger] v[j].0 <= v[j].1,
                0 <= i <= v.len(),
                forall|j: int| 0 <= j < i ==> v[j] != t,
            decreases v.len() - i,
        {
            let c = self.map[i];
            if c.0 == t.0 && c.1 == t.1 && c.2 == t.2 {
                proof {
                    assert(v[i as int] == t);
                    lemma_remove_first_at(v, t, i as int);
                }
                self.map.remove(i);
                proof {
                    assert forall|j: int| 0 <= j < self@.len() implies #[trigger] self@[j].0 <= self@[j].1 by {
                        if j < i {
                            assert(self@[j] == v[j]);
                        } else {
                            assert(self@[j] == v[j + 1]);
                        }
                    }
                }
                return true;
            }
            i += 1;
        }
        proof {
            lemma_remove_first_absent(v, t);
        }
        false
    }

    /// Replace all styles.
    pub fn set(&mut self, styles: &Vec<(Range<usize>, usize)>)
        requires
            forall|i: int| 0 <= i < styles@.len() ==> #[trigger] styles@[i].0.start <= styles@[i].0.end,
        ensures
            final(self)@ == styles@.map_values(|p: (Range<usize>, usize)| entry_of(p.0, p.1)),
            final(self).wf(),
    {
        let mut map: Vec<StyleEntry> = Vec::new();
        let mut i: usize = 0;
        while i < styles.len()
            invariant
                0 <= i <= styles@.len(),
                map@ == styles@.take(i as int).map_values(|p: (Range<usize>, usize)| entry_of(p.0, p.1)),
                forall|i: int| 0 <= i < styles@.len() ==> #[trigger] styles@[i].0.start <= styles@[i].0.end,
            decreases styles@.len() - i,
        {
            map.push((styles[i].0.start, styles[i].0.end, styles[i].1));
            i += 1;
            proof {
                assert(styles@.take(i as int) == styles@.take(i - 1).push(styles@[i - 1]));
            }
        }
        proof {
            assert(styles@.take(styles@.len() as int) == styles@);
        }
        self.map = map;
    }

    /// All styles as (range, tag).
    pub fn values(&self) -> (r: Vec<(Range<usize>, usize)>)
        ensures
            r@.len() == self@.len(),
            forall|i: int| 0 <= i < r@.len() ==> entry_of(#[trigger] r@[i].0, r@[i].1) == self@[i],
    {
        let mut r: Vec<(Range<usize>, usize)> = Vec::new();
        let mut i: usize = 0;
        while i < self.map.len()
            invariant
                0 <= i <= self@.len(),
                r@.len() == i,
                forall|j: int| 0 <= j < i ==> entry_of(#[trigger] r@[j].0, r@[j].1) == self@[j],
            decreases self@.len() - i,
        {
            let t = self.map[i];
            r.push((Range { start: t.0, end: t.1 }, t.2));
            i += 1;
        }
        r
    }

    /// Append the tags of all styles whose range holds byte `pos`.
    pub fn values_at(&self, pos: usize, buf: &mut Vec<usize>)
        ensures
            final(buf)@ == old(buf)@ + tags_at(self@, pos),
    {
        let ghost b0 = buf@;
        let mut i: usize = 0;
        while i < self.map.len()
            invariant
                0 <= i <= self@.len(),
                buf@ == b0 + tags_at(self@.take(i as int), pos),
            decreases self@.len() - i,
        {
            let t = self.map[i];
            proof {
                assert(self@.take(i + 1).drop_last() == self@.take(i as int));
            }
            if t.0 <= pos && pos < t.1 {
                buf.push(t.2);
            }
            i += 1;
        }
        proof {
            assert(self@.take(self@.len() as int) == self@);
        }
    }

    /// Shift all styles for `l` bytes inserted at byte `p`.
    pub fn expand(&mut self, p: usize, l: usize)
        requires
            old(self).wf(),
        ensures
            final(self)@ == old(self)@.map_values(|t: StyleEntry| expand_entry(p, l, t)),
            final(self).wf(),
    {
        let mut map: Vec<StyleEntry> = Vec::new();
        let mut i: usize = 0;
        while i < self.map.len()
            invariant
                0 <= i <= self@.len(),
                self.wf(),
                map@ == self@.take(i as int).map_values(|t: StyleEntry| expand_entry(p, l, t)),
                forall|j: int| 0 <= j < map@.len() ==> #[trigger] map@[j].0 <= map@[j].1,
            decreases self@.len() - i,
        {
            let t = self.map[i];
            let a = if t.0 >= p { t.0.saturating_add(l) } else { t.0 };
            let b = if t.0 >= p || t.1 > p { t.1.saturating_add(l) } else { t.1 };
            map.push((a, b, t.2));
            i += 1;
            proof {
                assert(self@.take(i as int) == self@.take(i - 1).push(self@[i - 1]));
            }
        }
        proof {
            assert(self@.take(self@.len() as int) == self@);
        }
        self.map = map;
    }

    /// Shift all styles for the bytes `s..e` removed; nothing is dropped.
    pub fn shrink(&mut self, s: usize, e: usize)
        requires
            old(self).wf(),
            s <= e,
        ensures
            final(self)@ == old(self)@.map_values(|t: StyleEntry| shrink_entry(s, e, t)),
            final(self).wf(),
    {
        let mut map: Vec<StyleEntry> = Vec::new();
        let mut i: usize = 0;
        while i < self.map.len()
            invariant
                0 <= i <= self@.len(),
                s <= e,
                self.wf(),
                map@ == self@.take(i as int).map_values(|t: StyleEntry| shrink_entry(s, e, t)),
                forall|j: int| 0 <= j < map@.len() ==> #[trigger] map@[j].0 <= map@[j].1,
            decreases self@.len() - i,
        {
            let t = self.map[i];
            map.push((shrink_at(s, e, t.0), shrink_at(s, e, t.1), t.2));
            i += 1;
            proof {
                assert(self@.take(i as int) == self@.take(i - 1).push(self@[i - 1]));
            }
        }
        proof {
            assert(self@.take(self@.len() as int) == self@);
        }
        self.map = map;
    }

    /// Remove the bytes `s..e` from all styles: every range shrinks, and one
    /// that touched the removed bytes and is left empty is dropped.
    /// Returns the (before, after) pairs of the styles that overlapped.
    pub fn cut(&mut self, s: usize, e: usize) -> (r: Vec<StyleChange>)
        requires
            old(self).wf(),
            s <= e,
        ensures
            final(self)@ == cut_entries(old(self)@, s, e),
            changes_view(r@) == cut_changes(old(self)@, s, e),
            final(self).wf(),
    {
        let mut map: Vec<StyleEntry> = Vec::new();
        let mut changes: Vec<StyleChange> = Vec::new();
        let mut i: usize = 0;
        while i < self.map.len()
            invariant
                0 <= i <= self@.len(),
                s <= e,
                self.wf(),
                map@ == cut_entries(self@.take(i as int), s, e),
                changes_view(changes@) == cut_changes(self@.take(i as int), s, e),
                forall|j: int| 0 <= j < map@.len() ==> #[trigger] map@[j].0 <= map@[j].1,
            decreases self@.len() - i,
        {
            let t = self.map[i];
            let a = shrink_at(s, e, t.0);
            let b = shrink_at(s, e, t.1);
            proof {
                assert(self@.take(i + 1).drop_last() == self@.take(i as int));
            }
            if (t.0 < e && s < t.1) || (t.0 == s && t.1 == s && s < e) {
                changes.push(
                    StyleChange {
                        before: Range { start: t.0, end: t.1 },
                        after: Range { start: a, end: b },
                        style: t.2,
                    },
                );
                if a != b {
                    map.push((a, b, t.2));
                }
            } else {
                map.push((a, b, t.2));
            }
            i += 1;
            proof {
                assert(changes_view(changes@) == cut_changes(self@.take(i as int), s, e));
            }
        }
        proof {
            assert(self@.take(self@.len() as int) == self@);
        }
        self.map = map;
        changes
    }

    /// The range of the first style with tag `style` that holds byte `pos`.
    pub fn value_match(&self, pos: usize, style: usize) -> (r: Option<Range<usize>>)
        ensures
            match first_match(self@, pos, style) {
                None => r.is_none(),
                Some(t) => r.is_some() && r.unwrap().start == t.0 && r.unwrap().end == t.1,
            },
    {
        let mut i: usize = 0;
        proof {
            assert(self@.skip(0) == self@);
        }
        while i < self.map.len()
            invariant
                0 <= i <= self@.len(),
                first_match(self@, pos, style) == first_match(self@.skip(i as int), pos, style),
            decreases self@.len() - i,
        {
            let t = self.map[i];
            proof {
                assert(self@.skip(i as int).drop_first() == self@.skip(i + 1));
            }
            if t.2 == style && t.0 <= pos && pos < t.1 {
                return Some(Range { start: t.0, end: t.1 });
            }
            i += 1;
        }
        None
    }
}

/// A byte offset after the bytes `s..e` were removed.
pub fn shrink_at(s: usize, e: usize, x: usize) -> (r: usize)
    requires
        s <= e,
    ensures
        r == shrink_point(s, e, x),
{
    if x <= s {
        x
    } else if x >= e {
        x - (e - s)
    } else {
        s
    }
}

proof fn lemma_remove_first_at(v: Seq<StyleEntry>, t: StyleEntry, i: int)
    requires
        0 <= i < v.len(),
        v[i] == t,
        forall|j: int| 0 <= j < i ==> v[j] != t,
    ensures
        remove_first(v, t) == v.remove(i),
    decreases i,
{
    if i > 0 {
        lemma_remove_first_at(v.drop_first(), t, i - 1);
        assert(v.remove(i) == seq![v[0]] + v.drop_first().remove(i - 1));
    }
}

proof fn lemma_remove_first_absent(v: Seq<StyleEntry>, t: StyleEntry)
    requires
        forall|j: int| 0 <= j < v.len() ==> v[j] != t,
    ensures
        remove_first(v, t) == v,
    decreases v.len(),
{
    if v.len() > 0 {
        lemma_remove_first_absent(v.drop_first(), t);
        assert(v == seq![v[0]] + v.drop_first());
    }
}

} // verus!
