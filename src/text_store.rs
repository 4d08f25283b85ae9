//! Single-line text storage. Each `char` is one grapheme; byte offsets are
//! those of the UTF-8 encoding.

use crate::error::TextError;
use crate::position::{TextPosition, TextRange, upos_type};
use std::ops::Range;
use vstd::prelude::*;

verus! {

/// Bytes in the UTF-8 encoding of `c`.
pub open spec fn utf8_len(c: char) -> nat {
    if (c as u32) < 0x80 {
        1
    } else if (c as u32) < 0x800 {
        2
    } else if (c as u32) < 0x10000 {
        3
    } else {
        4
    }
}

/// Bytes in the UTF-8 encoding of `s`.
pub open spec fn bytes_len(s: Seq<char>) -> nat
    decreases s.len(),
{
    if s.len() == 0 {
        0
    } else {
        bytes_len(s.drop_last()) + utf8_len(s.last())
    }
}

/// Byte offset of the grapheme at index `i`.
pub open spec fn byte_off(s: Seq<char>, i: int) -> nat {
    bytes_len(s.take(i))
}

/// Bytes in the UTF-8 encoding of `c`.
pub fn char_len(c: char) -> (r: usize)
    ensures
        r == utf8_len(c),
{
    let v = c as u32;
    if v < 0x80 {
        1
    } else if v < 0x800 {
        2
    } else if v < 0x10000 {
        3
    } else {
        4
    }
}

pub proof fn lemma_bytes_len_concat(a: Seq<char>, b: Seq<char>)
    ensures
        bytes_len(a + b) == bytes_len(a) + bytes_len(b),
    decreases b.len(),
{
    if b.len() == 0 {
        assert(a + b == a);
    } else {
        lemma_bytes_len_concat(a, b.drop_last());
        assert((a + b).drop_last() == a + b.drop_last());
    }
}

pub proof fn lemma_bytes_len_ge_len(s: Seq<char>)
    ensures
        bytes_len(s) >= s.len(),
    decreases s.len(),
{
    if s.len() > 0 {
        lemma_bytes_len_ge_len(s.drop_last());
    }
}

/// Offsets grow strictly with the index.
pub proof fn lemma_byte_off_mono(s: Seq<char>, i: int, j: int)
    requires
        0 <= i <= j <= s.len(),
    ensures
        byte_off(s, i) + (j - i) <= byte_off(s, j),
        byte_off(s, j) <= bytes_len(s),
{
    assert(s.take(j) == s.take(i) + s.subrange(i, j));
    lemma_bytes_len_concat(s.take(i), s.subrange(i, j));
    lemma_bytes_len_ge_len(s.subrange(i, j));
    assert(s == s.take(j) + s.skip(j));
    lemma_bytes_len_concat(s.take(j), s.skip(j));
}

/// The offset after index `i` is that of `i` plus the grapheme's bytes.
pub proof fn lemma_byte_off_step(s: Seq<char>, i: int)
    requires
        0 <= i < s.len(),
    ensures
        byte_off(s, i + 1) == byte_off(s, i) + utf8_len(s[i]),
{
    assert(s.take(i + 1).drop_last() == s.take(i));
}

/// Offsets in a text with `t` inserted at index `i`.
pub proof fn lemma_byte_off_insert(s: Seq<char>, i: int, t: Seq<char>, j: int)
    requires
        0 <= i <= s.len(),
        0 <= j <= s.len(),
    ensures
        j <= i ==> byte_off(s.take(i) + t + s.skip(i), j) == byte_off(s, j),
        j >= i ==> byte_off(s.take(i) + t + s.skip(i), j + t.len()) == byte_off(s, j) + bytes_len(t),
{
    let n = s.take(i) + t + s.skip(i);
    if j <= i {
        assert(n.take(j) == s.take(j));
    } else {
        assert(n.take(j + t.len()) == s.take(i) + t + s.subrange(i, j));
        assert(s.take(j) == s.take(i) + s.subrange(i, j));
        lemma_bytes_len_concat(s.take(i) + t, s.subrange(i, j));
        lemma_bytes_len_concat(s.take(i), t);
        lemma_bytes_len_concat(s.take(i), s.subrange(i, j));
    }
    if j == i {
        assert(n.take(j + t.len()) == s.take(i) + t);
        lemma_bytes_len_concat(s.take(i), t);
    }
}


/// Relies on `String::push`: appends the character.
#[verifier::external_body]
pub(crate) fn push_char(s: &mut String, c: char)
    ensures
        final(s)@ == old(s)@.push(c),
{
    s.push(c)
}

/// The characters `from..to` of `v` as a string.
pub fn string_of(v: &Vec<char>, from: usize, to: usize) -> (r: String)
    requires
        from <= to <= v@.len(),
    ensures
        r@ == v@.subrange(from as int, to as int),
{
    let mut r = String::new();
    let mut i = from;
    while i < to
        invariant
            from <= i <= to <= v@.len(),
            r@ == v@.subrange(from as int, i as int),
        decreases to - i,
    {
        push_char(&mut r, v[i]);
        i += 1;
        proof {
            assert(v@.subrange(from as int, i as int) == v@.subrange(from as int, i - 1).push(v@[i - 1]));
        }
    }
    r
}

/// The characters of `t`.
pub fn chars_of(t: &str) -> (r: Vec<char>)
    ensures
        r@ == t@,
{
    let n = t.unicode_len();
    let mut r: Vec<char> = Vec::new();
    let mut i: usize = 0;
    while i < n
        invariant
            n == t@.len(),
            0 <= i <= n,
            r@ == t@.take(i as int),
        decreases n - i,
    {
        r.push(t.get_char(i));
        i += 1;
        proof {
            assert(t@.take(i as int) == t@.take(i - 1).push(t@[i - 1]));
        }
    }
    proof {
        assert(t@.take(n as int) == t@);
    }
    r
}

/// Appends the characters `from..to` of `src` to `dst`.
fn append_range(dst: &mut Vec<char>, src: &Vec<char>, from: usize, to: usize)
    requires
        from <= to <= src@.len(),
    ensures
        final(dst)@ == old(dst)@ + src@.subrange(from as int, to as int),
{
    let ghost d0 = dst@;
    let mut i = from;
    while i < to
        invariant
            from <= i <= to <= src@.len(),
            dst@ == d0 + src@.subrange(from as int, i as int),
        decreases to - i,
    {
        dst.push(src[i]);
        i += 1;
        proof {
            assert(src@.subrange(from as int, i as int) == src@.subrange(from as int, i - 1).push(
                src@[i - 1],
            ));
        }
    }
}

/// UTF-8 length of all of `v`, or `None` where it does not fit a `usize`.
fn checked_bytes_len(v: &Vec<char>) -> (r: Option<usize>)
    ensures
        match r {
            Some(n) => n == bytes_len(v@),
            None => bytes_len(v@) > usize::MAX,
        },
{
    let mut n: usize = 0;
    let mut i: usize = 0;
    while i < v.len()
        invariant
            0 <= i <= v@.len(),
            n == bytes_len(v@.take(i as int)),
        decreases v@.len() - i,
    {
        proof {
            lemma_byte_off_step(v@, i as int);
        }
        let c = char_len(v[i]);
        if n > usize::MAX - c {
            proof {
                lemma_byte_off_mono(v@, i + 1, v@.len() as int);
                assert(v@.take(v@.len() as int) == v@);
            }
            return None;
        }
        n = n + c;
        i += 1;
    }
    proof {
        assert(v@.take(v@.len() as int) == v@);
    }
    Some(n)
}

/// `byte` is the offset of some grapheme boundary of `s`.
pub open spec fn is_boundary(s: Seq<char>, byte: int) -> bool {
    exists|i: int| 0 <= i <= s.len() && byte_off(s, i) == byte
}

/// The grapheme index whose offset is `byte`.
pub open spec fn boundary_index(s: Seq<char>, byte: int) -> int {
    choose|i: int| 0 <= i <= s.len() && byte_off(s, i) == byte
}

/// Text `t` inserted into `s` at grapheme index `i`.
pub open spec fn spliced(s: Seq<char>, i: int, t: Seq<char>) -> Seq<char> {
    s.take(i) + t + s.skip(i)
}

/// `s` with the graphemes `i..j` taken out.
pub open spec fn cut_text(s: Seq<char>, i: int, j: int) -> Seq<char> {
    s.take(i) + s.skip(j)
}

pub proof fn lemma_boundary_unique(s: Seq<char>, i: int, j: int)
    requires
        0 <= i <= s.len(),
        0 <= j <= s.len(),
        byte_off(s, i) == byte_off(s, j),
    ensures
        i == j,
{
    if i < j {
        lemma_byte_off_mono(s, i, j);
    } else if j < i {
        lemma_byte_off_mono(s, j, i);
    }
}

pub proof fn lemma_boundary_index(s: Seq<char>, i: int)
    requires
        0 <= i <= s.len(),
    ensures
        is_boundary(s, byte_off(s, i) as int),
        boundary_index(s, byte_off(s, i) as int) == i,
{
    let b = byte_off(s, i) as int;
    assert(0 <= i <= s.len() && byte_off(s, i) == b);
    let k = boundary_index(s, b);
    lemma_boundary_unique(s, i, k);
}

/// Single-line text. Each `char` counts as one grapheme.
#[derive(Debug)]
pub struct TextString {
    text: Vec<char>,
}

impl View for TextString {
    type V = Seq<char>;

    closed spec fn view(&self) -> Seq<char> {
        self.text@
    }
}

/// The text fits the position and offset types.
pub open spec fn text_fits(s: Seq<char>) -> bool {
    s.len() <= u32::MAX && bytes_len(s) <= usize::MAX
}

/// The error for a position of a single-line text, if any.
pub open spec fn pos_error(s: Seq<char>, pos: TextPosition) -> Option<TextError> {
    if pos.y != 0 {
        Some(TextError::LineIndexOutOfBounds(pos.y, 1))
    } else if pos.x > s.len() {
        Some(TextError::ColumnIndexOutOfBounds(pos.x, s.len() as u32))
    } else {
        None
    }
}

/// The error for a range of a single-line text, if any.
pub open spec fn range_error(s: Seq<char>, r: TextRange) -> Option<TextError> {
    if pos_error(s, r.start).is_some() {
        pos_error(s, r.start)
    } else {
        pos_error(s, r.end)
    }
}

impl TextString {
    pub open spec fn wf(&self) -> bool {
        text_fits(self@)
    }

    /// Empty text.
    pub fn new() -> (r: TextString)
        ensures
            r@ == Seq::<char>::empty(),
            r.wf(),
    {
        TextString { text: Vec::new() }
    }

    /// Text from a string.
    pub fn new_text(t: &str) -> (r: Result<TextString, TextError>)
        ensures
            match r {
                Ok(v) => v@ == t@ && v.wf(),
                Err(e) => e == TextError::TextTooLong && !text_fits(t@),
            },
    {
        let v = chars_of(t);
        let n = checked_bytes_len(&v);
        if n.is_none() || v.len() > u32::MAX as usize {
            return Err(TextError::TextTooLong);
        }
        Ok(TextString { text: v })
    }

    /// A copy of the text.
    pub fn duplicate(&self) -> (r: TextString)
        ensures
            r@ == self@,
    {
        let mut v: Vec<char> = Vec::new();
        append_range(&mut v, &self.text, 0, self.text.len());
        proof {
            assert(self@.subrange(0, self@.len() as int) == self@);
        }
        TextString { text: v }
    }

    /// The whole text.
    pub fn string(&self) -> (r: String)
        ensures
            r@ == self@,
    {
        proof {
            assert(self@.subrange(0, self@.len() as int) == self@);
        }
        string_of(&self.text, 0, self.text.len())
    }

    /// Number of graphemes.
    pub fn len(&self) -> (r: usize)
        ensures
            r == self@.len(),
    {
        self.text.len()
    }

    /// Number of lines: always one.
    pub fn len_lines(&self) -> (r: upos_type)
        ensures
            r == 1,
    {
        1
    }

    /// This store holds a single line.
    pub fn is_multi_line(&self) -> (r: bool)
        ensures
            !r,
    {
        false
    }

    /// Width of a row in graphemes.
    pub fn line_width(&self, row: upos_type) -> (r: Result<upos_type, TextError>)
        requires
            self.wf(),
        ensures
            row == 0 ==> r == Ok::<upos_type, TextError>(self@.len() as u32),
            row != 0 ==> r == Err::<upos_type, TextError>(TextError::LineIndexOutOfBounds(row, 1)),
    {
        if row == 0 {
            Ok(self.text.len() as u32)
        } else {
            Err(TextError::LineIndexOutOfBounds(row, 1))
        }
    }

    /// Byte offset of grapheme index `i`.
    pub fn offset(&self, i: usize) -> (r: usize)
        requires
            self.wf(),
            i <= self@.len(),
        ensures
            r == byte_off(self@, i as int),
    {
        let mut n: usize = 0;
        let mut k: usize = 0;
        while k < i
            invariant
                self.wf(),
                0 <= k <= i <= self@.len(),
                n == byte_off(self@, k as int),
            decreases i - k,
        {
            proof {
                lemma_byte_off_step(self@, k as int);
                lemma_byte_off_mono(self@, k + 1, self@.len() as int);
                assert(self@.take(self@.len() as int) == self@);
            }
            n = n + char_len(self.text[k]);
            k += 1;
        }
        n
    }

    /// Length of the text in bytes.
    pub fn byte_len(&self) -> (r: usize)
        requires
            self.wf(),
        ensures
            r == bytes_len(self@),
    {
        proof {
            assert(self@.take(self@.len() as int) == self@);
        }
        self.offset(self.text.len())
    }

    /// The grapheme index with byte offset `byte`.
    fn index_of_byte(&self, byte: usize) -> (r: Result<usize, TextError>)
        requires
            self.wf(),
        ensures
            match r {
                Ok(i) => i <= self@.len() && byte_off(self@, i as int) == byte,
                Err(e) => !is_boundary(self@, byte as int) && (if byte > bytes_len(self@) {
                    e == TextError::ByteIndexOutOfBounds(byte, bytes_len(self@) as usize)
                } else {
                    e == TextError::ByteIndexNotCharBoundary(byte)
                }),
            },
    {
        let total = self.byte_len();
        if byte > total {
            proof {
                assert forall|i: int| 0 <= i <= self@.len() implies byte_off(self@, i) != byte by {
                    lemma_byte_off_mono(self@, i, self@.len() as int);
                }
            }
            return Err(TextError::ByteIndexOutOfBounds(byte, total));
        }
        let mut n: usize = 0;
        let mut k: usize = 0;
        while k < self.text.len()
            invariant
                self.wf(),
                0 <= k <= self@.len(),
                n == byte_off(self@, k as int),
                n <= byte,
                byte <= bytes_len(self@),
                forall|j: int| 0 <= j < k ==> byte_off(self@, j) < byte,
            decreases self@.len() - k,
        {
            if n == byte {
                return Ok(k);
            }
            proof {
                lemma_byte_off_step(self@, k as int);
                lemma_byte_off_mono(self@, k + 1, self@.len() as int);
            }
            let next = n + char_len(self.text[k]);
            if next > byte {
                proof {
                    assert forall|i: int| 0 <= i <= self@.len() implies byte_off(self@, i) != byte by {
                        if i > k {
                            lemma_byte_off_mono(self@, k + 1, i);
                        }
                    }
                }
                return Err(TextError::ByteIndexNotCharBoundary(byte));
            }
            n = next;
            k += 1;
        }
        proof {
            assert(self@.take(self@.len() as int) == self@);
        }
        Ok(k)
    }

    /// The index of the grapheme that holds `byte`.
    fn index_holding(&self, byte: usize) -> (r: Result<usize, TextError>)
        requires
            self.wf(),
        ensures
            match r {
                Ok(i) => byte <= bytes_len(self@) && i <= self@.len() && byte_off(self@, i as int)
                    <= byte && (i == self@.len() || byte < byte_off(self@, i + 1)),
                Err(e) => byte > bytes_len(self@) && e == TextError::ByteIndexOutOfBounds(
                    byte,
                    bytes_len(self@) as usize,
                ),
            },
    {
        let total = self.byte_len();
        if byte > total {
            return Err(TextError::ByteIndexOutOfBounds(byte, total));
        }
        let mut n: usize = 0;
        let mut k: usize = 0;
        while k < self.text.len()
            invariant
                self.wf(),
                0 <= k <= self@.len(),
                n == byte_off(self@, k as int),
                n <= byte,
                byte <= bytes_len(self@),
            decreases self@.len() - k,
        {
            proof {
                lemma_byte_off_step(self@, k as int);
                lemma_byte_off_mono(self@, k + 1, self@.len() as int);
            }
            let next = n + char_len(self.text[k]);
            if next > byte {
                return Ok(k);
            }
            n = next;
            k += 1;
        }
        Ok(k)
    }

    /// Byte range of the grapheme at `pos`; at the end of the text the empty
    /// range there.
    pub fn byte_range_at(&self, pos: TextPosition) -> (r: Result<Range<usize>, TextError>)
        requires
            self.wf(),
        ensures
            match pos_error(self@, pos) {
                Some(e) => r == Err::<Range<usize>, TextError>(e),
                None => r.is_ok() && r.unwrap().start == byte_off(self@, pos.x as int) && (
                if pos.x < self@.len() {
                    r.unwrap().end == byte_off(self@, pos.x + 1)
                } else {
                    r.unwrap().end == byte_off(self@, pos.x as int)
                }),
            },
    {
        if pos.y != 0 {
            return Err(TextError::LineIndexOutOfBounds(pos.y, 1));
        }
        if pos.x as usize > self.text.len() {
            return Err(TextError::ColumnIndexOutOfBounds(pos.x, self.text.len() as u32));
        }
        let x = pos.x as usize;
        let start = self.offset(x);
        if x < self.text.len() {
            Ok(Range { start, end: self.offset(x + 1) })
        } else {
            Ok(Range { start, end: start })
        }
    }

    /// Byte range of a range of graphemes.
    pub fn byte_range(&self, range: TextRange) -> (r: Result<Range<usize>, TextError>)
        requires
            self.wf(),
        ensures
            match range_error(self@, range) {
                Some(e) => r == Err::<Range<usize>, TextError>(e),
                None => r.is_ok() && r.unwrap().start == byte_off(self@, range.start.x as int)
                    && r.unwrap().end == byte_off(self@, range.end.x as int),
            },
    {
        if range.start.y != 0 {
            return Err(TextError::LineIndexOutOfBounds(range.start.y, 1));
        }
        if range.start.x as usize > self.text.len() {
            return Err(TextError::ColumnIndexOutOfBounds(range.start.x, self.text.len() as u32));
        }
        if range.end.y != 0 {
            return Err(TextError::LineIndexOutOfBounds(range.end.y, 1));
        }
        if range.end.x as usize > self.text.len() {
            return Err(TextError::ColumnIndexOutOfBounds(range.end.x, self.text.len() as u32));
        }
        Ok(Range { start: self.offset(range.start.x as usize), end: self.offset(range.end.x as usize) })
    }

    /// Position of the grapheme that holds `byte`.
    pub fn byte_to_pos(&self, byte: usize) -> (r: Result<TextPosition, TextError>)
        requires
            self.wf(),
        ensures
            match r {
                Ok(p) => byte <= bytes_len(self@) && p.y == 0 && p.x <= self@.len() && byte_off(
                    self@,
                    p.x as int,
                ) <= byte && (p.x == self@.len() || byte < byte_off(self@, p.x + 1)),
                Err(e) => byte > bytes_len(self@) && e == TextError::ByteIndexOutOfBounds(
                    byte,
                    bytes_len(self@) as usize,
                ),
            },
    {
        match self.index_holding(byte) {
            Ok(i) => Ok(TextPosition::new(i as u32, 0)),
            Err(e) => Err(e),
        }
    }

    /// Range of the graphemes that hold the bytes.
    pub fn bytes_to_range(&self, bytes: Range<usize>) -> (r: Result<TextRange, TextError>)
        requires
            self.wf(),
        ensures
            match r {
                Ok(t) => bytes.start <= bytes.end <= bytes_len(self@) && t.wf() && t.start.y == 0
                    && t.end.y == 0 && t.end.x <= self@.len() && byte_off(self@, t.start.x as int) <= bytes.start && (t.start.x
                    == self@.len() || bytes.start < byte_off(self@, t.start.x + 1)) && byte_off(
                    self@,
                    t.end.x as int,
                ) <= bytes.end && (t.end.x == self@.len() || bytes.end < byte_off(
                    self@,
                    t.end.x + 1,
                )),
                Err(e) => bytes.start > bytes.end || bytes.end > bytes_len(self@),
            },
    {
        if bytes.start > bytes.end {
            return Err(TextError::ByteIndexOutOfBounds(bytes.start, bytes.end));
        }
        let s = match self.index_holding(bytes.start) {
            Ok(i) => i,
            Err(e) => return Err(e),
        };
        let e = match self.index_holding(bytes.end) {
            Ok(i) => i,
            Err(e) => return Err(e),
        };
        proof {
            if e < s {
                lemma_byte_off_mono(self@, e + 1, s as int);
            }
        }
        Ok(TextRange::new((s as u32, 0), (e as u32, 0)))
    }

    /// The text of a range of graphemes.
    pub fn str_slice(&self, range: TextRange) -> (r: Result<String, TextError>)
        requires
            self.wf(),
            range.wf(),
        ensures
            match range_error(self@, range) {
                Some(e) => r == Err::<String, TextError>(e),
                None => r.is_ok() && r.unwrap()@ == self@.subrange(
                    range.start.x as int,
                    range.end.x as int,
                ),
            },
    {
        if range.start.y != 0 {
            return Err(TextError::LineIndexOutOfBounds(range.start.y, 1));
        }
        if range.start.x as usize > self.text.len() {
            return Err(TextError::ColumnIndexOutOfBounds(range.start.x, self.text.len() as u32));
        }
        if range.end.y != 0 {
            return Err(TextError::LineIndexOutOfBounds(range.end.y, 1));
        }
        if range.end.x as usize > self.text.len() {
            return Err(TextError::ColumnIndexOutOfBounds(range.end.x, self.text.len() as u32));
        }
        Ok(string_of(&self.text, range.start.x as usize, range.end.x as usize))
    }

    /// The text of a row.
    pub fn line_at(&self, row: upos_type) -> (r: Result<String, TextError>)
        requires
            self.wf(),
        ensures
            row == 0 ==> r.is_ok() && r.unwrap()@ == self@,
            row != 0 ==> r == Err::<String, TextError>(TextError::LineIndexOutOfBounds(row, 1)),
    {
        if row == 0 {
            Ok(self.string())
        } else {
            Err(TextError::LineIndexOutOfBounds(row, 1))
        }
    }

    /// Insert `t` at grapheme index `i`, unless the text would grow too long.
    fn splice_at(&mut self, i: usize, t: &Vec<char>) -> (r: Result<(), TextError>)
        requires
            old(self).wf(),
            i <= old(self)@.len(),
        ensures
            final(self).wf(),
            match r {
                Ok(_) => text_fits(spliced(old(self)@, i as int, t@)) && final(self)@ == spliced(
                    old(self)@,
                    i as int,
                    t@,
                ),
                Err(e) => e == TextError::TextTooLong && !text_fits(spliced(old(self)@, i as int, t@))
                    && final(self)@ == old(self)@,
            },
    {
        let ghost s = self@;
        proof {
            assert(s == s.take(i as int) + s.skip(i as int));
            lemma_bytes_len_concat(s.take(i as int), s.skip(i as int));
            lemma_bytes_len_concat(s.take(i as int), t@);
            lemma_bytes_len_concat(s.take(i as int) + t@, s.skip(i as int));
        }
        let total = self.byte_len();
        let tl = match checked_bytes_len(t) {
            Some(n) => n,
            None => return Err(TextError::TextTooLong),
        };
        if tl > usize::MAX - total || t.len() > u32::MAX as usize - self.text.len() {
            return Err(TextError::TextTooLong);
        }
        let mut v: Vec<char> = Vec::new();
        append_range(&mut v, &self.text, 0, i);
        append_range(&mut v, t, 0, t.len());
        append_range(&mut v, &self.text, i, self.text.len());
        proof {
            assert(s.subrange(0, i as int) == s.take(i as int));
            assert(t@.subrange(0, t@.len() as int) == t@);
            assert(s.subrange(i as int, s.len() as int) == s.skip(i as int));
        }
        self.text = v;
        Ok(())
    }

    /// Take the graphemes `i..j` out.
    fn cut_at(&mut self, i: usize, j: usize)
        requires
            old(self).wf(),
            i <= j <= old(self)@.len(),
        ensures
            final(self).wf(),
            final(self)@ == cut_text(old(self)@, i as int, j as int),
    {
        let ghost s = self@;
        proof {
            assert(s == s.take(i as int) + s.subrange(i as int, j as int) + s.skip(j as int));
            lemma_bytes_len_concat(s.take(i as int), s.subrange(i as int, j as int));
            lemma_bytes_len_concat(s.take(i as int) + s.subrange(i as int, j as int), s.skip(j as int));
            lemma_bytes_len_concat(s.take(i as int), s.skip(j as int));
        }
        let mut v: Vec<char> = Vec::new();
        append_range(&mut v, &self.text, 0, i);
        append_range(&mut v, &self.text, j, self.text.len());
        proof {
            assert(s.subrange(0, i as int) == s.take(i as int));
            assert(s.subrange(j as int, s.len() as int) == s.skip(j as int));
        }
        self.text = v;
    }

    /// Insert a string at a position. Returns the inserted range and bytes.
    pub fn insert_str(&mut self, pos: TextPosition, t: &str) -> (r: Result<
        (TextRange, Range<usize>),
        TextError,
    >)
        requires
            old(self).wf(),
        ensures
            final(self).wf(),
            match r {
                Ok((tr, br)) => pos_error(old(self)@, pos).is_none() && text_fits(
                    spliced(old(self)@, pos.x as int, t@),
                ) && final(self)@ == spliced(old(self)@, pos.x as int, t@) && tr.start == pos
                    && tr.end == (TextPosition { x: (pos.x + t@.len()) as u32, y: 0 }) && br.start
                    == byte_off(old(self)@, pos.x as int) && br.end == br.start + bytes_len(t@),
                Err(e) => final(self)@ == old(self)@ && match pos_error(old(self)@, pos) {
                    Some(pe) => e == pe,
                    None => e == TextError::TextTooLong && !text_fits(
                        spliced(old(self)@, pos.x as int, t@),
                    ),
                },
            },
    {
        let v = chars_of(t);
        self.insert_chars(pos, &v)
    }

    /// Insert a character at a position. Returns the inserted range and bytes.
    pub fn insert_char(&mut self, pos: TextPosition, c: char) -> (r: Result<
        (TextRange, Range<usize>),
        TextError,
    >)
        requires
            old(self).wf(),
        ensures
            final(self).wf(),
            match r {
                Ok((tr, br)) => pos_error(old(self)@, pos).is_none() && text_fits(
                    spliced(old(self)@, pos.x as int, seq![c]),
                ) && final(self)@ == spliced(old(self)@, pos.x as int, seq![c]) && tr.start == pos
                    && tr.end == (TextPosition { x: (pos.x + 1) as u32, y: 0 }) && br.start
                    == byte_off(old(self)@, pos.x as int) && br.end == br.start + utf8_len(c),
                Err(e) => final(self)@ == old(self)@ && match pos_error(old(self)@, pos) {
                    Some(pe) => e == pe,
                    None => e == TextError::TextTooLong && !text_fits(
                        spliced(old(self)@, pos.x as int, seq![c]),
                    ),
                },
            },
    {
        let mut v: Vec<char> = Vec::new();
        v.push(c);
        proof {
            assert(v@ == seq![c]);
            assert(seq![c].drop_last() == Seq::<char>::empty());
            assert(seq![c].len() == 1 && seq![c].last() == c);
            assert(bytes_len(Seq::<char>::empty()) == 0);
            assert(bytes_len(seq![c]) == utf8_len(c));
        }
        self.insert_chars(pos, &v)
    }

    fn insert_chars(&mut self, pos: TextPosition, v: &Vec<char>) -> (r: Result<
        (TextRange, Range<usize>),
        TextError,
    >)
        requires
            old(self).wf(),
        ensures
            final(self).wf(),
            match r {
                Ok((tr, br)) => pos_error(old(self)@, pos).is_none() && text_fits(
                    spliced(old(self)@, pos.x as int, v@),
                ) && final(self)@ == spliced(old(self)@, pos.x as int, v@) && tr.start == pos
                    && tr.end == (TextPosition { x: (pos.x + v@.len()) as u32, y: 0 }) && br.start
                    == byte_off(old(self)@, pos.x as int) && br.end == br.start + bytes_len(v@),
                Err(e) => final(self)@ == old(self)@ && match pos_error(old(self)@, pos) {
                    Some(pe) => e == pe,
                    None => e == TextError::TextTooLong && !text_fits(
                        spliced(old(self)@, pos.x as int, v@),
                    ),
                },
            },
    {
        if pos.y != 0 {
            return Err(TextError::LineIndexOutOfBounds(pos.y, 1));
        }
        if pos.x as usize > self.text.len() {
            return Err(TextError::ColumnIndexOutOfBounds(pos.x, self.text.len() as u32));
        }
        let ghost s = self@;
        let x = pos.x as usize;
        let start = self.offset(x);
        match self.splice_at(x, v) {
            Ok(_) => {},
            Err(e) => return Err(e),
        }
        proof {
            lemma_bytes_len_concat(s.take(x as int), v@);
            assert(self@.take(x + v@.len()) == s.take(x as int) + v@);
            lemma_bytes_len_concat(s.take(x as int) + v@, s.skip(x as int));
            lemma_bytes_len_ge_len(self@);
        }
        let end = start + (self.offset(x + v.len()) - start);
        let tr = TextRange::new((pos.x, 0), ((x + v.len()) as u32, 0));
        Ok((tr, Range { start, end }))
    }

    /// Insert a string at a byte offset, which must start a grapheme.
    pub fn insert_b(&mut self, byte: usize, t: &str) -> (r: Result<(), TextError>)
        requires
            old(self).wf(),
        ensures
            final(self).wf(),
            match r {
                Ok(_) => is_boundary(old(self)@, byte as int) && final(self)@ == spliced(
                    old(self)@,
                    boundary_index(old(self)@, byte as int),
                    t@,
                ),
                Err(_) => final(self)@ == old(self)@ && (!is_boundary(old(self)@, byte as int)
                    || !text_fits(spliced(old(self)@, boundary_index(old(self)@, byte as int), t@))),
            },
    {
        let i = match self.index_of_byte(byte) {
            Ok(i) => i,
            Err(e) => return Err(e),
        };
        proof {
            lemma_boundary_index(self@, i as int);
        }
        let v = chars_of(t);
        self.splice_at(i, &v)
    }

    /// Remove a range of graphemes. Returns the removed text, and the range
    /// and bytes it held.
    pub fn remove(&mut self, range: TextRange) -> (r: Result<
        (String, (TextRange, Range<usize>)),
        TextError,
    >)
        requires
            old(self).wf(),
            range.wf(),
        ensures
            final(self).wf(),
            match range_error(old(self)@, range) {
                Some(e) => r == Err::<(String, (TextRange, Range<usize>)), TextError>(e)
                    && final(self)@ == old(self)@,
                None => r.is_ok() && final(self)@ == cut_text(
                    old(self)@,
                    range.start.x as int,
                    range.end.x as int,
                ) && r.unwrap().0@ == old(self)@.subrange(
                    range.start.x as int,
                    range.end.x as int,
                ) && r.unwrap().1.0 == range && r.unwrap().1.1.start == byte_off(
                    old(self)@,
                    range.start.x as int,
                ) && r.unwrap().1.1.end == byte_off(old(self)@, range.end.x as int),
            },
    {
        let bytes = match self.byte_range(range) {
            Ok(b) => b,
            Err(e) => return Err(e),
        };
        let txt = string_of(&self.text, range.start.x as usize, range.end.x as usize);
        self.cut_at(range.start.x as usize, range.end.x as usize);
        Ok((txt, (range, bytes)))
    }

    /// Remove a byte range, whose ends must start graphemes.
    pub fn remove_b(&mut self, bytes: Range<usize>) -> (r: Result<(), TextError>)
        requires
            old(self).wf(),
        ensures
            final(self).wf(),
            match r {
                Ok(_) => bytes.start <= bytes.end && is_boundary(old(self)@, bytes.start as int)
                    && is_boundary(old(self)@, bytes.end as int) && final(self)@ == cut_text(
                    old(self)@,
                    boundary_index(old(self)@, bytes.start as int),
                    boundary_index(old(self)@, bytes.end as int),
                ),
                Err(_) => final(self)@ == old(self)@ && (bytes.start > bytes.end || !is_boundary(
                    old(self)@,
                    bytes.start as int,
                ) || !is_boundary(old(self)@, bytes.end as int)),
            },
    {
        if bytes.start > bytes.end {
            return Err(TextError::ByteIndexOutOfBounds(bytes.start, bytes.end));
        }
        let i = match self.index_of_byte(bytes.start) {
            Ok(i) => i,
            Err(e) => return Err(e),
        };
        let j = match self.index_of_byte(bytes.end) {
            Ok(j) => j,
            Err(e) => return Err(e),
        };
        proof {
            lemma_boundary_index(self@, i as int);
            lemma_boundary_index(self@, j as int);
            if j < i {
                lemma_byte_off_mono(self@, j as int, i as int);
            }
        }
        self.cut_at(i, j);
        Ok(())
    }

    /// Replace the whole text, unless the new one is too long.
    pub fn set_string(&mut self, t: &str) -> (r: bool)
        requires
            old(self).wf(),
        ensures
            final(self).wf(),
            r == text_fits(t@),
            r ==> final(self)@ == t@,
            !r ==> final(self)@ == old(self)@,
    {
        match TextString::new_text(t) {
            Ok(v) => {
                *self = v;
                true
            },
            Err(_) => false,
        }
    }

    /// The grapheme at index `i`.
    pub fn char_at(&self, i: usize) -> (r: char)
        requires
            i < self@.len(),
        ensures
            r == self@[i as int],
    {
        self.text[i]
    }
}

} // verus!
