//! Classification of graphemes for word navigation, and glyphs: graphemes
//! with their place and width on screen.

use crate::position::TextPosition;
use crate::text_store::byte_off;
use std::ops::Range;
use vstd::prelude::*;

verus! {

/// Unicode white space.
pub open spec fn is_white(c: char) -> bool {
    let v = c as u32;
    (0x09 <= v <= 0x0d) || v == 0x20 || v == 0x85 || v == 0xa0 || v == 0x1680 || (0x2000 <= v
        <= 0x200a) || v == 0x2028 || v == 0x2029 || v == 0x202f || v == 0x205f || v == 0x3000
}

/// ASCII punctuation.
pub open spec fn is_punct(c: char) -> bool {
    let v = c as u32;
    (0x21 <= v <= 0x2f) || (0x3a <= v <= 0x40) || (0x5b <= v <= 0x60) || (0x7b <= v <= 0x7e)
}

/// A grapheme that breaks words: white space or punctuation.
pub open spec fn is_break(c: char) -> bool {
    is_white(c) || is_punct(c)
}

/// A grapheme that breaks words: white space or punctuation.
pub fn is_word_break(c: char) -> (r: bool)
    ensures
        r == is_break(c),
{
    let v = c as u32;
    (0x09 <= v && v <= 0x0d) || v == 0x20 || v == 0x85 || v == 0xa0 || v == 0x1680 || (0x2000 <= v
        && v <= 0x200a) || v == 0x2028 || v == 0x2029 || v == 0x202f || v == 0x205f || v == 0x3000
        || (0x21 <= v && v <= 0x2f) || (0x3a <= v && v <= 0x40) || (0x5b <= v && v <= 0x60) || (0x7b
        <= v && v <= 0x7e)
}

/// The graphemes `i..j` all break words.
pub open spec fn all_break(s: Seq<char>, i: int, j: int) -> bool {
    forall|k: int| i <= k < j ==> is_break(#[trigger] s[k])
}

/// The graphemes `i..j` all belong to words.
pub open spec fn all_word(s: Seq<char>, i: int, j: int) -> bool {
    forall|k: int| i <= k < j ==> !is_break(#[trigger] s[k])
}

/// `r` is where the next word starts from `p` on: breaks are skipped,
/// and `r` is the first word grapheme or the end.
pub open spec fn is_next_word_start(s: Seq<char>, p: int, r: int) -> bool {
    p <= r <= s.len() && all_break(s, p, r) && (r == s.len() || !is_break(s[r]))
}

/// `r` is where the next word ends from `p` on: breaks are skipped, then
/// the word, and `r` is the first break after it or the end.
pub open spec fn is_next_word_end(s: Seq<char>, p: int, r: int) -> bool {
    exists|m: int| is_next_word_start(s, p, m) && m <= r <= s.len() && all_word(s, m, r) && (r
        == s.len() || is_break(s[r]))
}

/// `r` is where the previous word ends before `p`: breaks before `p`
/// are skipped backwards.
pub open spec fn is_prev_word_end(s: Seq<char>, p: int, r: int) -> bool {
    0 <= r <= p && all_break(s, r, p) && (r == 0 || !is_break(s[r - 1]))
}

/// `r` is where the previous word starts before `p`: breaks, then the
/// word are skipped backwards.
pub open spec fn is_prev_word_start(s: Seq<char>, p: int, r: int) -> bool {
    exists|m: int| is_prev_word_end(s, p, m) && 0 <= r <= m && all_word(s, r, m) && (r == 0
        || is_break(s[r - 1]))
}

/// `r` is the start of the word run that reaches `p`.
pub open spec fn is_word_start(s: Seq<char>, p: int, r: int) -> bool {
    0 <= r <= p && all_word(s, r, p) && (r == 0 || is_break(s[r - 1]))
}

/// `r` is the end of the word run that starts at `p`.
pub open spec fn is_word_end(s: Seq<char>, p: int, r: int) -> bool {
    p <= r <= s.len() && all_word(s, p, r) && (r == s.len() || is_break(s[r]))
}

/// A break and a word meet at `p`.
pub open spec fn word_boundary(s: Seq<char>, p: int) -> bool {
    0 < p < s.len() && is_break(s[p - 1]) != is_break(s[p])
}

/// A grapheme with its position in the text.
#[derive(Debug)]
pub struct Grapheme {
    pub grapheme: String,
    pub text_bytes: Range<usize>,
    pub pos: TextPosition,
}

/// `g` is grapheme `i` of `s`.
pub open spec fn grapheme_ok(g: &Grapheme, s: Seq<char>, i: int) -> bool {
    &&& g.grapheme@ == seq![s[i]]
    &&& g.text_bytes.start == byte_off(s, i)
    &&& g.text_bytes.end == byte_off(s, i + 1)
    &&& g.pos == (TextPosition { x: i as u32, y: 0 })
}

/// A grapheme as shown on screen: what is drawn, where, and how wide.
#[derive(Debug)]
pub struct Glyph {
    pub glyph: String,
    pub text_bytes: Range<usize>,
    pub pos: TextPosition,
    pub screen_pos: (u16, u16),
    pub screen_width: u16,
}

impl Glyph {
    /// Position in the text.
    pub fn pos(&self) -> (r: TextPosition)
        ensures
            r == self.pos,
    {
        self.pos
    }

    /// Position on screen, relative to the window.
    pub fn screen_pos(&self) -> (r: (u16, u16))
        ensures
            r == self.screen_pos,
    {
        self.screen_pos
    }

    /// Width on screen.
    pub fn screen_width(&self) -> (r: u16)
        ensures
            r == self.screen_width,
    {
        self.screen_width
    }
}

/// A control character: C0, DEL or C1.
pub open spec fn is_ctrl(c: char) -> bool {
    (c as u32) < 0x20 || (0x7f <= (c as u32) < 0xa0)
}

/// Columns that the terminal gives a character that is no control
/// character, by the Unicode East Asian Width tables.
pub uninterp spec fn display_width(c: char) -> nat;

/// Relies on `unicode_width::UnicodeWidthChar::width`: `None` exactly for
/// control characters, one column for printable ASCII, at most three columns
/// for anything else.
#[verifier::external_body]
fn char_width(c: char) -> (r: Option<usize>)
    ensures
        (r is None) == is_ctrl(c),
        r is Some ==> r.unwrap() == display_width(c) && r.unwrap() <= 3,
        0x20 <= c as u32 && (c as u32) < 0x7f ==> r == Some(1usize),
{
    unicode_width::UnicodeWidthChar::width(c)
}

/// Screen width of a grapheme that starts at screen column `col`.
pub fn glyph_width_of(c: char, col: u64, tabs: u16, show_ctrl: bool) -> (r: u64)
    ensures
        r == glyph_width(c, col as nat, tabs, show_ctrl),
        r <= 65535,
{
    if c == '\t' {
        if tabs == 0 {
            1
        } else {
            tabs as u64 - col % tabs as u64
        }
    } else {
        match char_width(c) {
            None => if show_ctrl {
                1
            } else {
                0
            },
            Some(w) => w as u64,
        }
    }
}

/// Screen width of a grapheme that starts at screen column `col`: a tab
/// reaches the next tab stop, a control character is hidden or shown as one
/// placeholder cell, anything else takes its display width.
pub open spec fn glyph_width(c: char, col: nat, tabs: u16, show_ctrl: bool) -> nat {
    if c == '\t' {
        if tabs == 0 {
            1
        } else {
            (tabs - col % (tabs as nat)) as nat
        }
    } else if is_ctrl(c) {
        if show_ctrl {
            1
        } else {
            0
        }
    } else {
        display_width(c)
    }
}

/// Screen column at which grapheme `i` starts.
pub open spec fn glyph_col(s: Seq<char>, i: int, tabs: u16, show_ctrl: bool) -> nat
    decreases i,
{
    if i <= 0 {
        0
    } else {
        let c = glyph_col(s, i - 1, tabs, show_ctrl);
        c + glyph_width(s[i - 1], c, tabs, show_ctrl)
    }
}


/// What a glyph holds: drawn text, bytes, text position, screen position
/// and width.
pub type GlyphView = (Seq<char>, (usize, usize), TextPosition, (u16, u16), u16);

impl Glyph {
    pub open spec fn view_tuple(&self) -> GlyphView {
        (
            self.glyph@,
            (self.text_bytes.start, self.text_bytes.end),
            self.pos,
            self.screen_pos,
            self.screen_width,
        )
    }
}

/// The placeholder cell of a control character: its control picture, or
/// the replacement character where there is none.
pub open spec fn ctrl_picture(c: char) -> nat {
    if (c as u32) < 0x20 {
        (0x2400 + c as u32) as nat
    } else if c as u32 == 0x7f {
        0x2421
    } else {
        0xfffd
    }
}

/// `t` is what is drawn for grapheme `c`: a space for a tab, nothing for a
/// hidden control character, with control characters shown the tab symbol
/// or the control picture, else the grapheme itself.
pub open spec fn glyph_text_ok(t: Seq<char>, c: char, show_ctrl: bool) -> bool {
    if c == '\t' {
        if show_ctrl {
            t == seq!['\u{2409}']
        } else {
            t == seq![' ']
        }
    } else if is_ctrl(c) {
        if show_ctrl {
            t.len() == 1 && t[0] as u32 == ctrl_picture(c)
        } else {
            t.len() == 0
        }
    } else {
        t == seq![c]
    }
}

/// Grapheme `i` lies in the window of `width` screen columns from `offset`.
pub open spec fn glyph_visible(s: Seq<char>, i: int, tabs: u16, show_ctrl: bool, offset: nat, width: nat) -> bool {
    let col = glyph_col(s, i, tabs, show_ctrl);
    offset <= col < offset + width
}

/// Indices of the graphemes before `n` that lie in the window, in order.
pub open spec fn visible_upto(s: Seq<char>, n: int, tabs: u16, show_ctrl: bool, offset: nat, width: nat) -> Seq<int>
    decreases n,
{
    if n <= 0 {
        Seq::empty()
    } else {
        let rest = visible_upto(s, n - 1, tabs, show_ctrl, offset, width);
        if glyph_visible(s, n - 1, tabs, show_ctrl, offset, width) {
            rest.push(n - 1)
        } else {
            rest
        }
    }
}

/// `g` is the glyph of grapheme `i` in a window starting at `offset`.
pub open spec fn glyph_ok(g: GlyphView, s: Seq<char>, i: int, tabs: u16, show_ctrl: bool, offset: nat) -> bool {
    let col = glyph_col(s, i, tabs, show_ctrl);
    &&& glyph_text_ok(g.0, s[i], show_ctrl)
    &&& g.1 == (byte_off(s, i) as usize, byte_off(s, i + 1) as usize)
    &&& g.2 == (TextPosition { x: i as u32, y: 0 })
    &&& g.3 == ((col - offset) as u16, 0u16)
    &&& g.4 == glyph_width(s[i], col, tabs, show_ctrl) as u16
}

/// Relies on `char::from_u32`: every value below the surrogate range is a
/// character with that code.
#[verifier::external_body]
fn char_from(v: u32) -> (r: Option<char>)
    requires
        v < 0xd800,
    ensures
        r is Some && r.unwrap() as u32 == v,
{
    char::from_u32(v)
}

/// What is drawn for grapheme `c`.
pub fn glyph_text(c: char, show_ctrl: bool) -> (r: String)
    ensures
        glyph_text_ok(r@, c, show_ctrl),
{
    let mut t = String::new();
    if c == '\t' {
        if show_ctrl {
            crate::text_store::push_char(&mut t, '\u{2409}');
        } else {
            crate::text_store::push_char(&mut t, ' ');
        }
    } else if (c as u32) < 0x20 || (0x7f <= c as u32 && (c as u32) < 0xa0) {
        if show_ctrl {
            if (c as u32) < 0x20 || c as u32 == 0x7f {
                let v: u32 = if c as u32 == 0x7f { 0x2421 } else { 0x2400 + c as u32 };
                match char_from(v) {
                    Some(p) => crate::text_store::push_char(&mut t, p),
                    None => {},
                }
            } else {
                crate::text_store::push_char(&mut t, '\u{fffd}');
            }
        }
    } else {
        crate::text_store::push_char(&mut t, c);
    }
    proof {
        assert(Seq::<char>::empty().push(c) == seq![c]);
    }
    t
}

} // verus!
