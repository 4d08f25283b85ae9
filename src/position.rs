//! Logical positions (row, grapheme column) and ranges between them.

use vstd::prelude::*;

verus! {

/// Unsigned position type for rows and columns.
#[allow(non_camel_case_types)]
pub type upos_type = u32;

/// A logical position: `y` is the row, `x` the column counted in graphemes.
#[derive(Clone, Copy, Debug, PartialEq, Eq, Structural, Hash)]
pub struct TextPosition {
    pub y: upos_type,
    pub x: upos_type,
}

/// Lexicographic order: row first, then column.
pub open spec fn pos_lt(a: TextPosition, b: TextPosition) -> bool {
    a.y < b.y || (a.y == b.y && a.x < b.x)
}

pub open spec fn pos_le(a: TextPosition, b: TextPosition) -> bool {
    pos_lt(a, b) || a == b
}

impl TextPosition {
    /// New position from column and row.
    pub fn new(x: upos_type, y: upos_type) -> (r: TextPosition)
        ensures
            r.x == x,
            r.y == y,
    {
        TextPosition { y, x }
    }

    /// Strictly before `other` in (row, column) order.
    pub fn before(&self, other: &TextPosition) -> (r: bool)
        ensures
            r == pos_lt(*self, *other),
    {
        self.y < other.y || (self.y == other.y && self.x < other.x)
    }
}


/// A range of logical positions, normalized so that `start <= end`.
#[derive(Clone, Copy, Debug, PartialEq, Eq, Structural, Hash)]
pub struct TextRange {
    pub start: TextPosition,
    pub end: TextPosition,
}

/// The position after `pos` once `ins` has been inserted: positions before
/// the insertion point stay, the insertion point moves to the end of the
/// inserted text, positions after it move by the inserted rows and columns.
pub open spec fn expand_pos_spec(ins: TextRange, pos: TextPosition) -> (int, int) {
    let dy = ins.end.y - ins.start.y;
    if pos_lt(pos, ins.start) {
        (pos.x as int, pos.y as int)
    } else if pos.y == ins.start.y {
        (pos.x - ins.start.x + ins.end.x, pos.y + dy)
    } else {
        (pos.x as int, pos.y + dy)
    }
}

/// The position after `pos` once `rem` has been removed: positions before
/// stay, positions inside collapse to the start, positions after move back.
pub open spec fn shrink_pos_spec(rem: TextRange, pos: TextPosition) -> (int, int) {
    let dy = rem.end.y - rem.start.y;
    if pos_lt(pos, rem.start) {
        (pos.x as int, pos.y as int)
    } else if pos_le(pos, rem.end) {
        (rem.start.x as int, rem.start.y as int)
    } else if pos.y == rem.end.y {
        (pos.x - rem.end.x + rem.start.x, pos.y - dy)
    } else {
        (pos.x as int, pos.y - dy)
    }
}

pub open spec fn fits(p: (int, int)) -> bool {
    0 <= p.0 <= u32::MAX && 0 <= p.1 <= u32::MAX
}

pub open spec fn to_pos(p: (int, int)) -> TextPosition {
    TextPosition { x: p.0 as u32, y: p.1 as u32 }
}

impl TextRange {
    pub open spec fn wf(&self) -> bool {
        pos_le(self.start, self.end)
    }

    /// New range from `(x, y)` pairs. The start must not lie after the end.
    pub fn new(start: (upos_type, upos_type), end: (upos_type, upos_type)) -> (r: TextRange)
        requires
            pos_le(TextPosition { x: start.0, y: start.1 }, TextPosition { x: end.0, y: end.1 }),
        ensures
            r.start == (TextPosition { x: start.0, y: start.1 }),
            r.end == (TextPosition { x: end.0, y: end.1 }),
            r.wf(),
    {
        TextRange { start: TextPosition::new(start.0, start.1), end: TextPosition::new(end.0, end.1) }
    }

    /// Empty range.
    pub fn is_empty(&self) -> (r: bool)
        ensures
            r == (self.start == self.end),
    {
        self.start == self.end
    }

    /// Position lies in the half-open range.
    pub fn contains_pos(&self, pos: TextPosition) -> (r: bool)
        ensures
            r == (pos_le(self.start, pos) && pos_lt(pos, self.end)),
    {
        !pos.before(&self.start) && pos.before(&self.end)
    }

    /// Shift a position for text inserted at this range.
    pub fn expand_pos(&self, pos: TextPosition) -> (r: TextPosition)
        requires
            self.wf(),
            fits(expand_pos_spec(*self, pos)),
        ensures
            r == to_pos(expand_pos_spec(*self, pos)),
    {
        let dy = self.end.y - self.start.y;
        if pos.before(&self.start) {
            pos
        } else if pos.y == self.start.y {
            TextPosition::new(pos.x - self.start.x + self.end.x, pos.y + dy)
        } else {
            TextPosition::new(pos.x, pos.y + dy)
        }
    }

    /// Shift a position for the text of this range being removed.
    pub fn shrink_pos(&self, pos: TextPosition) -> (r: TextPosition)
        requires
            self.wf(),
            fits(shrink_pos_spec(*self, pos)),
        ensures
            r == to_pos(shrink_pos_spec(*self, pos)),
    {
        let dy = self.end.y - self.start.y;
        if pos.before(&self.start) {
            pos
        } else if !self.end.before(&pos) {
            self.start
        } else if pos.y == self.end.y {
            TextPosition::new(pos.x - self.end.x + self.start.x, pos.y - dy)
        } else {
            TextPosition::new(pos.x, pos.y - dy)
        }
    }
}

/// The ordered range between two positions.
pub open spec fn ordered_range(a: TextPosition, b: TextPosition) -> TextRange {
    if pos_lt(b, a) {
        TextRange { start: b, end: a }
    } else {
        TextRange { start: a, end: b }
    }
}

} // verus!
