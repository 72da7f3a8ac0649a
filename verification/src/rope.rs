//! The text buffer: a rope addressed by byte offsets.
//!
//! The rope itself is `ropey`'s. Its contents are named by `rope_chars`, and
//! the items below it say what the methods of `ropey::Rope` do to them.
use crate::strings::str_chars;
use crate::text::{
    byte_len, clip_left, clip_right, from_utf16, index_at, is_boundary, lemma_clip, lemma_clip_mono,
    lemma_from_utf16, lemma_line, lemma_line_breaks_mono, lemma_line_index, lemma_measure_step,
    lemma_offset_of, lemma_slice_len, lemma_spliced, lemma_text_ends, lemma_utf16_round_trip,
    line_breaks, line_end, line_index, line_start, offset_of, row_of, slice_of, spliced, to_utf16,
    utf16_len, Unit,
};
use ropey::Rope;
use vstd::prelude::*;

verus! {

/// The rope type of the crate `ropey`.
#[verifier::external_type_specification]
#[verifier::external_body]
pub struct ExRope(ropey::Rope);

/// The text that a rope holds.
pub uninterp spec fn rope_chars(rope: Rope) -> Seq<char>;

/// `Rope::from_str` makes a rope that holds the text it is given.
pub assume_specification [ropey::Rope::from_str](text: &str) -> (rope: Rope)
    ensures
        rope_chars(rope) == text@,
;

/// A clone of a rope holds the same text.
pub assume_specification [<ropey::Rope as Clone>::clone](rope: &Rope) -> (copy: Rope)
    ensures
        rope_chars(copy) == rope_chars(*rope),
;

/// `Rope::len` is the length of the text in bytes.
pub assume_specification [ropey::Rope::len](rope: &Rope) -> (n: usize)
    ensures
        n == byte_len(rope_chars(*rope)),
;

/// `Rope::insert` puts the text in front of the `char` that starts at
/// `byte_idx`. It panics when `byte_idx` is not a boundary of the text.
pub assume_specification [ropey::Rope::insert](rope: &mut Rope, byte_idx: usize, text: &str)
    requires
        is_boundary(rope_chars(*old(rope)), byte_idx as int),
        byte_len(rope_chars(*old(rope))) + byte_len(text@) <= usize::MAX,
    ensures
        rope_chars(*final(rope)) == rope_chars(*old(rope)).take(
            index_at(rope_chars(*old(rope)), byte_idx as int),
        ) + text@ + rope_chars(*old(rope)).skip(
            index_at(rope_chars(*old(rope)), byte_idx as int),
        ),
;

/// `Rope::remove` takes out the `char`s between two byte offsets. It panics
/// when these are not boundaries of the text in order.
#[verifier::external_body]
fn rope_remove(rope: &mut Rope, start: usize, end: usize)
    requires
        is_boundary(rope_chars(*old(rope)), start as int),
        is_boundary(rope_chars(*old(rope)), end as int),
        start <= end,
    ensures
        rope_chars(*final(rope)) == rope_chars(*old(rope)).take(
            index_at(rope_chars(*old(rope)), start as int),
        ) + rope_chars(*old(rope)).skip(index_at(rope_chars(*old(rope)), end as int)),
{
    rope.remove(start..end)
}

/// `Rope::slice` views the text between two byte offsets, which are turned
/// into a `String` here. It panics when these are not boundaries in order.
#[verifier::external_body]
fn rope_slice(rope: &Rope, start: usize, end: usize) -> (text: String)
    requires
        is_boundary(rope_chars(*rope), start as int),
        is_boundary(rope_chars(*rope), end as int),
        start <= end,
    ensures
        text@ == slice_of(rope_chars(*rope), start as int, end as int),
{
    rope.slice(start..end).to_string()
}

/// Writing a rope out with `Display` gives the whole text.
#[verifier::external_body]
fn rope_to_string(rope: &Rope) -> (text: String)
    ensures
        text@ == rope_chars(*rope),
{
    rope.to_string()
}

/// `Rope::floor_char_boundary` is the closest boundary at or before an offset.
/// It panics beyond the end of the text.
pub assume_specification [ropey::Rope::floor_char_boundary](rope: &Rope, byte_idx: usize) -> (o:
    usize)
    requires
        byte_idx <= byte_len(rope_chars(*rope)),
    ensures
        o == clip_left(rope_chars(*rope), byte_idx as int),
;

/// `Rope::ceil_char_boundary` is the closest boundary at or after an offset.
/// It panics beyond the end of the text.
pub assume_specification [ropey::Rope::ceil_char_boundary](rope: &Rope, byte_idx: usize) -> (o:
    usize)
    requires
        byte_idx <= byte_len(rope_chars(*rope)),
    ensures
        o == clip_right(rope_chars(*rope), byte_idx as int),
;

/// The `char` that starts at offset `o`.
pub open spec fn char_from(s: Seq<char>, o: int) -> Option<char> {
    if o < byte_len(s) && is_boundary(s, o) {
        Some(s[index_at(s, o)])
    } else {
        None
    }
}

/// `Rope::get_char` finds the `char` that starts at an offset, and fails where none does.
#[verifier::external_body]
fn rope_get_char(rope: &Rope, offset: usize) -> (c: Option<char>)
    ensures
        c == char_from(rope_chars(*rope), offset as int),
{
    rope.get_char(offset).ok()
}

/// `Rope::len_utf16` is the length of the text in UTF-16 code units.
pub assume_specification [ropey::Rope::len_utf16](rope: &Rope) -> (n: usize)
    ensures
        n == utf16_len(rope_chars(*rope)),
;

/// `Rope::byte_to_utf16_idx` is the UTF-16 offset of the `char` that a byte
/// belongs to. It panics beyond the end of the text.
pub assume_specification [ropey::Rope::byte_to_utf16_idx](rope: &Rope, byte_idx: usize) -> (u:
    usize)
    requires
        byte_idx <= byte_len(rope_chars(*rope)),
    ensures
        u == to_utf16(rope_chars(*rope), byte_idx as int),
;

/// `Rope::utf16_to_byte_idx` is the byte offset of the `char` that a UTF-16
/// code unit belongs to. It panics beyond the end of the text.
pub assume_specification [ropey::Rope::utf16_to_byte_idx](rope: &Rope, utf16_idx: usize) -> (o:
    usize)
    requires
        utf16_idx <= utf16_len(rope_chars(*rope)),
    ensures
        o == from_utf16(rope_chars(*rope), utf16_idx as int),
;

/// `Rope::byte_to_line_idx` counts the line feeds before an offset. It panics
/// beyond the end of the text.
#[verifier::external_body]
fn rope_byte_to_line(rope: &Rope, offset: usize) -> (row: usize)
    requires
        offset <= byte_len(rope_chars(*rope)),
    ensures
        row == row_of(rope_chars(*rope), offset as int),
{
    rope.byte_to_line_idx(offset, ropey::LineType::LF)
}

/// `Rope::line_to_byte_idx` is the offset at which a line starts. It panics
/// when there are not as many lines.
#[verifier::external_body]
fn rope_line_to_byte(rope: &Rope, row: usize) -> (offset: usize)
    requires
        row <= line_breaks(rope_chars(*rope)) + 1,
    ensures
        offset == line_start(rope_chars(*rope), row as int),
{
    rope.line_to_byte_idx(row, ropey::LineType::LF)
}

/// Which side an offset inside a `char` is moved to.
#[derive(Clone, Copy, PartialEq, Eq, Structural, Debug)]
pub enum Bias {
    Left,
    Right,
}

/// A place in the text as a line and a byte column on it.
#[derive(Clone, Copy, PartialEq, Eq, Structural, Debug)]
pub struct Point {
    pub row: usize,
    pub column: usize,
}

/// A place in the text as a line and the number of `char`s before it on that line.
#[derive(Clone, Copy, PartialEq, Eq, Structural, Debug)]
pub struct Position {
    pub line: usize,
    pub character: usize,
}

/// The text of an input.
pub struct TextBuffer {
    rope: Rope,
}

impl View for TextBuffer {
    type V = Seq<char>;

    closed spec fn view(&self) -> Seq<char> {
        rope_chars(self.rope)
    }
}

impl Clone for TextBuffer {
    fn clone(&self) -> (copy: Self)
        ensures
            copy@ == self@,
    {
        TextBuffer { rope: self.rope.clone() }
    }
}

/// The place of offset `o` as a line and a byte column.
pub open spec fn point_of(s: Seq<char>, o: int) -> (int, int) {
    (row_of(s, o) as int, clip_left(s, o) - line_start(s, row_of(s, o) as int))
}

/// The place of offset `o` as a line and the number of `char`s before it on that line.
pub open spec fn position_of(s: Seq<char>, o: int) -> (int, int) {
    (row_of(s, o) as int, index_at(s, o) - line_index(s, row_of(s, o) as int))
}

/// The offset of the `character`-th `char` of a line; the end of the line when it is shorter.
pub open spec fn position_offset(s: Seq<char>, line: int, character: int) -> int {
    let end = index_at(s, line_end(s, line));
    let k = line_index(s, line) + character;
    offset_of(s, if k < end {
        k
    } else {
        end
    }) as int
}

impl TextBuffer {
    /// Creates a buffer that holds `text`.
    pub fn from_str(text: &str) -> (buffer: TextBuffer)
        ensures
            buffer@ == text@,
    {
        TextBuffer { rope: Rope::from_str(text) }
    }

    /// The rope that holds the text.
    pub fn rope(&self) -> (rope: &Rope)
        ensures
            rope_chars(*rope) == self@,
    {
        &self.rope
    }

    /// The length of the text in bytes.
    pub fn len(&self) -> (n: usize)
        ensures
            n == byte_len(self@),
    {
        self.rope.len()
    }

    /// The whole text.
    pub fn text(&self) -> (text: String)
        ensures
            text@ == self@,
    {
        rope_to_string(&self.rope)
    }

    /// The text between two boundaries.
    pub fn slice(&self, start: usize, end: usize) -> (text: String)
        requires
            is_boundary(self@, start as int),
            is_boundary(self@, end as int),
            start <= end,
        ensures
            text@ == slice_of(self@, start as int, end as int),
    {
        rope_slice(&self.rope, start, end)
    }

    /// Moves `offset` to the closest boundary on the side of `bias`, and to
    /// the end of the text when it lies beyond it.
    pub fn clip_offset(&self, offset: usize, bias: Bias) -> (o: usize)
        ensures
            o == if bias == Bias::Left {
                clip_left(self@, offset as int)
            } else {
                clip_right(self@, offset as int)
            },
    {
        proof {
            lemma_clip(self@, offset as int);
        }
        if offset > self.rope.len() {
            return self.rope.len();
        }
        match bias {
            Bias::Left => self.rope.floor_char_boundary(offset),
            Bias::Right => self.rope.ceil_char_boundary(offset),
        }
    }

    /// The `char` that starts at `offset`.
    pub fn char_at(&self, offset: usize) -> (c: Option<char>)
        ensures
            c == char_from(self@, offset as int),
    {
        rope_get_char(&self.rope, offset)
    }

    /// Replaces the text between two offsets, widened to boundaries, by `new_text`.
    pub fn replace(&mut self, start: usize, end: usize, new_text: &str)
        requires
            start <= end,
            byte_len(old(self)@) + byte_len(new_text@) <= usize::MAX,
        ensures
            final(self)@ == spliced(old(self)@, start as int, end as int, new_text@),
    {
        let ghost s = self@;
        proof {
            lemma_clip(s, start as int);
            lemma_clip(s, end as int);
            lemma_clip_mono(s, start as int, end as int);
        }
        let from = self.clip_offset(start, Bias::Left);
        let to = self.clip_offset(end, Bias::Right);
        rope_remove(&mut self.rope, from, to);
        proof {
            let e = Seq::<char>::empty();
            lemma_spliced(s, start as int, end as int, e);
            assert(self@ =~= spliced(s, start as int, end as int, e));
        }
        self.rope.insert(from, new_text);
        proof {
            assert(self@ =~= spliced(s, start as int, end as int, new_text@));
        }
    }

    /// The UTF-16 offset of the byte offset `offset`.
    pub fn offset_to_offset_utf16(&self, offset: usize) -> (u: usize)
        ensures
            u == to_utf16(self@, offset as int),
    {
        proof {
            lemma_clip(self@, offset as int);
            lemma_text_ends(self@);
            lemma_utf16_round_trip(self@, offset as int);
            assert(self@.take(self@.len() as int) =~= self@);
        }
        if offset > self.rope.len() {
            return self.rope.len_utf16();
        }
        self.rope.byte_to_utf16_idx(offset)
    }

    /// The byte offset of the UTF-16 offset `offset_utf16`.
    pub fn offset_utf16_to_offset(&self, offset_utf16: usize) -> (o: usize)
        ensures
            o == from_utf16(self@, offset_utf16 as int),
    {
        proof {
            lemma_from_utf16(self@, offset_utf16 as int);
        }
        if offset_utf16 > self.rope.len_utf16() {
            return self.rope.len();
        }
        self.rope.utf16_to_byte_idx(offset_utf16)
    }

    /// The line that `offset` lies on.
    pub fn row(&self, offset: usize) -> (row: usize)
        ensures
            row == row_of(self@, offset as int),
    {
        proof {
            lemma_clip(self@, offset as int);
        }
        rope_byte_to_line(&self.rope, self.clip_offset(offset, Bias::Left))
    }

    /// The line and byte column of `offset`.
    pub fn offset_to_point(&self, offset: usize) -> (p: Point)
        ensures
            (p.row as int, p.column as int) == point_of(self@, offset as int),
    {
        let o = self.clip_offset(offset, Bias::Left);
        let row = self.row(offset);
        proof {
            lemma_clip(self@, offset as int);
            lemma_row_start(self@, offset as int);
        }
        let start = self.line_start_offset(row);
        Point { row, column: o - start }
    }

    /// The offset at which line `row` starts; the end of the text when there are fewer lines.
    pub fn line_start_offset(&self, row: usize) -> (o: usize)
        ensures
            o == line_start(self@, row as int),
    {
        let last = rope_byte_to_line(&self.rope, self.rope.len());
        proof {
            lemma_text_ends(self@);
            assert(self@.take(self@.len() as int) =~= self@);
            lemma_line_index(self@, row as int);
        }
        if row > last {
            return self.rope.len();
        }
        rope_line_to_byte(&self.rope, row)
    }

    /// The offset at which line `row` ends, before its line feed.
    pub fn line_end_offset(&self, row: usize) -> (o: usize)
        ensures
            o == line_end(self@, row as int),
    {
        let last = rope_byte_to_line(&self.rope, self.rope.len());
        proof {
            lemma_text_ends(self@);
            assert(self@.take(self@.len() as int) =~= self@);
            lemma_line(self@, row as int);
        }
        if row < last {
            rope_line_to_byte(&self.rope, row + 1) - 1
        } else {
            self.rope.len()
        }
    }

    /// The line of `offset`, and how many `char`s come before it on that line.
    pub fn offset_to_position(&self, offset: usize) -> (p: Position)
        ensures
            (p.line as int, p.character as int) == position_of(self@, offset as int),
    {
        let o = self.clip_offset(offset, Bias::Left);
        let row = self.row(offset);
        proof {
            lemma_clip(self@, offset as int);
            lemma_row_start(self@, offset as int);
            lemma_line_index(self@, row as int);
            lemma_offset_of(self@, line_index(self@, row as int));
        }
        let start = self.line_start_offset(row);
        let before = self.slice(start, o);
        Position { line: row, character: before.as_str().unicode_len() }
    }

    /// The offset of a position; the end of the line when it is shorter.
    pub fn position_to_offset(&self, position: Position) -> (o: usize)
        ensures
            o == position_offset(self@, position.line as int, position.character as int),
    {
        let ghost s = self@;
        let start = self.line_start_offset(position.line);
        let end = self.line_end_offset(position.line);
        proof {
            lemma_line(s, position.line as int);
            lemma_line_index(s, position.line as int);
            lemma_offset_of(s, line_index(s, position.line as int));
            lemma_slice_len(s, start as int, end as int);
        }
        let line = self.slice(start, end);
        let chars = str_chars(line.as_str());
        let n: usize = self.len();
        let ghost first = line_index(s, position.line as int);
        let ghost last = index_at(s, end as int);
        let mut o: usize = start;
        let mut k: usize = 0;
        while k < chars.len() && k < position.character
            invariant
                chars@ == s.subrange(first, last),
                0 <= first <= last <= s.len(),
                k <= chars.len(),
                k <= position.character,
                o == offset_of(s, first + k),
                n == byte_len(s),
            decreases chars.len() - k,
        {
            proof {
                lemma_measure_step(Unit::Utf8, s, first + k);
                lemma_offset_of(s, first + k + 1);
            }
            o = o + char_width(chars[k]);
            k = k + 1;
        }
        o
    }

    /// The offset of the `char` of index `char_index`; the end of the text when there are fewer.
    pub fn char_index_to_offset(&self, char_index: usize) -> (o: usize)
        ensures
            o == offset_of(
                self@,
                if char_index < self@.len() {
                    char_index as int
                } else {
                    self@.len() as int
                },
            ),
    {
        let text = self.text();
        let chars = str_chars(text.as_str());
        let n = self.len();
        let mut o: usize = 0;
        let mut k: usize = 0;
        proof {
            lemma_text_ends(self@);
        }
        while k < chars.len() && k < char_index
            invariant
                chars@ == self@,
                k <= chars.len(),
                k <= char_index,
                o == offset_of(self@, k as int),
                n == byte_len(self@),
            decreases chars.len() - k,
        {
            proof {
                lemma_measure_step(Unit::Utf8, self@, k as int);
                lemma_offset_of(self@, k as int + 1);
            }
            o = o + char_width(chars[k]);
            k = k + 1;
        }
        o
    }

    /// The length of the text in UTF-16 code units.
    pub fn len_utf16(&self) -> (n: usize)
        ensures
            n == utf16_len(self@),
    {
        self.rope.len_utf16()
    }
}

/// The number of bytes that encode `c`.
pub fn char_width(c: char) -> (n: usize)
    ensures
        n == crate::text::width(Unit::Utf8, c),
{
    let code: u32 = c as u32;
    if code < 0x80 {
        1
    } else if code < 0x800 {
        2
    } else if code < 0x10000 {
        3
    } else {
        4
    }
}

/// The line of an offset starts at or before it.
pub proof fn lemma_row_start(s: Seq<char>, o: int)
    requires
        0 <= o,
    ensures
        0 <= line_start(s, row_of(s, o) as int) <= clip_left(s, o),
        line_index(s, row_of(s, o) as int) <= index_at(s, o),
        row_of(s, o) <= line_breaks(s),
{
    lemma_clip(s, o);
    let k = index_at(s, o);
    let row = row_of(s, o) as int;
    lemma_line_index(s, row);
    assert(s.take(s.len() as int) =~= s);
    lemma_line_breaks_mono(s, k, s.len() as int);
    let i = line_index(s, row);
    if row > 0 && i > k {
        lemma_line_breaks_mono(s, k, i - 1);
        assert(s.take(i).drop_last() =~= s.take(i - 1));
    }
    crate::text::lemma_measure_mono(Unit::Utf8, s, i, k);
}

} // verus!
