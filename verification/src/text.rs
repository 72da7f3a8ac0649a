//! The mathematical model of UTF-8 text.
//!
//! A text is a sequence of `char`s. Positions inside it are byte offsets (or
//! UTF-16 code unit offsets), so every offset is related to the number of
//! `char`s that lie before it.
use vstd::prelude::*;
use vstd::utf8::*;

verus! {

/// A unit in which the length of a text can be measured.
pub enum Unit {
    Utf8,
    Utf16,
}

/// The number of units that encode `c`.
pub open spec fn width(unit: Unit, c: char) -> nat {
    let code = c as u32;
    match unit {
        Unit::Utf8 => if code < 0x80 {
            1
        } else if code < 0x800 {
            2
        } else if code < 0x10000 {
            3
        } else {
            4
        },
        Unit::Utf16 => if code < 0x10000 {
            1
        } else {
            2
        },
    }
}

/// The number of units that encode the whole of `s`.
pub open spec fn measure(unit: Unit, s: Seq<char>) -> nat
    decreases s.len(),
{
    if s.len() == 0 {
        0
    } else {
        measure(unit, s.drop_last()) + width(unit, s.last())
    }
}

/// The number of `char`s of `s` that lie wholly before offset `o`.
pub open spec fn floor_index(unit: Unit, s: Seq<char>, o: int) -> int
    decreases s.len(),
{
    if s.len() == 0 || measure(unit, s) <= o {
        s.len() as int
    } else {
        floor_index(unit, s.drop_last(), o)
    }
}

/// The length of `s` in bytes.
pub open spec fn byte_len(s: Seq<char>) -> nat {
    measure(Unit::Utf8, s)
}

/// The length of `s` in UTF-16 code units.
pub open spec fn utf16_len(s: Seq<char>) -> nat {
    measure(Unit::Utf16, s)
}

/// The byte offset at which the `char` of index `k` starts.
pub open spec fn offset_of(s: Seq<char>, k: int) -> nat {
    byte_len(s.take(k))
}

/// The index of the `char` that the byte at `o` belongs to.
pub open spec fn index_at(s: Seq<char>, o: int) -> int {
    floor_index(Unit::Utf8, s, o)
}

/// Whether `o` is the offset of a `char` of `s`, or of its end.
pub open spec fn is_boundary(s: Seq<char>, o: int) -> bool {
    0 <= o <= byte_len(s) && offset_of(s, index_at(s, o)) == o
}

/// The index of the first `char` that starts at or after `o`.
pub open spec fn index_from(s: Seq<char>, o: int) -> int {
    if is_boundary(s, o) || index_at(s, o) == s.len() {
        index_at(s, o)
    } else {
        index_at(s, o) + 1
    }
}

/// The closest boundary at or before `o`; the end of the text when `o` lies beyond it.
pub open spec fn clip_left(s: Seq<char>, o: int) -> int {
    offset_of(s, index_at(s, o)) as int
}

/// The closest boundary at or after `o`; the end of the text when `o` lies beyond it.
pub open spec fn clip_right(s: Seq<char>, o: int) -> int {
    offset_of(s, index_from(s, o)) as int
}

/// The text between the boundaries `start` and `end`.
pub open spec fn slice_of(s: Seq<char>, start: int, end: int) -> Seq<char> {
    s.subrange(index_at(s, start), index_at(s, end))
}

/// `s` with everything from the boundary at or before `start` up to the
/// boundary at or after `end` replaced by `new`.
pub open spec fn spliced(s: Seq<char>, start: int, end: int, new: Seq<char>) -> Seq<char> {
    s.take(index_at(s, start)) + new + s.skip(index_from(s, end))
}

/// The UTF-16 offset of the byte offset `o`; the length of the text beyond its end.
pub open spec fn to_utf16(s: Seq<char>, o: int) -> int {
    utf16_len(s.take(index_at(s, o))) as int
}

/// The byte offset of the UTF-16 offset `u`; the length of the text beyond its end.
pub open spec fn from_utf16(s: Seq<char>, u: int) -> int {
    offset_of(s, floor_index(Unit::Utf16, s, u)) as int
}

/// The number of line feeds in `s`.
pub open spec fn line_breaks(s: Seq<char>) -> nat
    decreases s.len(),
{
    if s.len() == 0 {
        0
    } else {
        line_breaks(s.drop_last()) + if s.last() == '\n' {
            1nat
        } else {
            0
        }
    }
}

/// The index of the first `char` of line `row`; the end of the text when there are fewer lines.
pub open spec fn line_index(s: Seq<char>, row: int) -> int
    decreases s.len(),
{
    if row <= 0 {
        0
    } else if s.len() == 0 || line_breaks(s.drop_last()) < row {
        s.len() as int
    } else {
        line_index(s.drop_last(), row)
    }
}

/// The line that the byte offset `o` lies on.
pub open spec fn row_of(s: Seq<char>, o: int) -> nat {
    line_breaks(s.take(index_at(s, o)))
}

/// The byte offset at which line `row` starts.
pub open spec fn line_start(s: Seq<char>, row: int) -> int {
    offset_of(s, line_index(s, row)) as int
}

/// The byte offset at which line `row` ends, before its line feed.
pub open spec fn line_end(s: Seq<char>, row: int) -> int {
    if row < line_breaks(s) {
        line_start(s, row + 1) - 1
    } else {
        byte_len(s) as int
    }
}

// ---------------------------------------------------------------------------
// Measures

pub proof fn lemma_measure_step(unit: Unit, s: Seq<char>, k: int)
    requires
        0 <= k < s.len(),
    ensures
        measure(unit, s.take(k + 1)) == measure(unit, s.take(k)) + width(unit, s[k]),
{
    assert(s.take(k + 1).drop_last() =~= s.take(k));
}

pub proof fn lemma_measure_mono(unit: Unit, s: Seq<char>, i: int, j: int)
    requires
        0 <= i <= j <= s.len(),
    ensures
        measure(unit, s.take(i)) + (j - i) <= measure(unit, s.take(j)),
    decreases j - i,
{
    if i < j {
        lemma_measure_step(unit, s, j - 1);
        lemma_measure_mono(unit, s, i, j - 1);
    }
}

pub proof fn lemma_measure_concat(unit: Unit, a: Seq<char>, b: Seq<char>)
    ensures
        measure(unit, a + b) == measure(unit, a) + measure(unit, b),
    decreases b.len(),
{
    if b.len() == 0 {
        assert(a + b =~= a);
    } else {
        assert((a + b).drop_last() =~= a + b.drop_last());
        lemma_measure_concat(unit, a, b.drop_last());
    }
}

pub proof fn lemma_measure_push(unit: Unit, a: Seq<char>, c: char)
    ensures
        measure(unit, a.push(c)) == measure(unit, a) + width(unit, c),
{
    assert(a.push(c).drop_last() =~= a);
}

/// A text is never shorter in units than in `char`s, and never more than four times as long.
pub proof fn lemma_measure_bounds(unit: Unit, s: Seq<char>)
    ensures
        s.len() <= measure(unit, s) <= 4 * s.len(),
    decreases s.len(),
{
    if s.len() > 0 {
        lemma_measure_bounds(unit, s.drop_last());
    }
}

// ---------------------------------------------------------------------------
// Indices

pub proof fn lemma_floor_index(unit: Unit, s: Seq<char>, o: int)
    requires
        0 <= o,
    ensures
        0 <= floor_index(unit, s, o) <= s.len(),
        measure(unit, s.take(floor_index(unit, s, o))) <= o,
        floor_index(unit, s, o) < s.len() ==> o < measure(
            unit,
            s.take(floor_index(unit, s, o) + 1),
        ),
    decreases s.len(),
{
    assert(s.take(s.len() as int) =~= s);
    if s.len() > 0 && measure(unit, s) > o {
        let f = floor_index(unit, s.drop_last(), o);
        lemma_floor_index(unit, s.drop_last(), o);
        assert(s.drop_last().take(f) =~= s.take(f));
        if f < s.drop_last().len() {
            assert(s.drop_last().take(f + 1) =~= s.take(f + 1));
        }
    }
}

pub proof fn lemma_floor_unique(unit: Unit, s: Seq<char>, o: int, k: int)
    requires
        0 <= k <= s.len(),
        measure(unit, s.take(k)) <= o,
        k < s.len() ==> o < measure(unit, s.take(k + 1)),
    ensures
        floor_index(unit, s, o) == k,
{
    lemma_floor_index(unit, s, o);
    let f = floor_index(unit, s, o);
    if f < k {
        lemma_measure_mono(unit, s, f + 1, k);
    } else if k < f {
        lemma_measure_mono(unit, s, k + 1, f);
    }
}

/// The floor of the offset of index `k` is `k` itself.
pub proof fn lemma_floor_exact(unit: Unit, s: Seq<char>, k: int)
    requires
        0 <= k <= s.len(),
    ensures
        floor_index(unit, s, measure(unit, s.take(k)) as int) == k,
        measure(unit, s.take(k)) <= measure(unit, s),
{
    if k < s.len() {
        lemma_measure_step(unit, s, k);
    }
    lemma_floor_unique(unit, s, measure(unit, s.take(k)) as int, k);
    lemma_measure_mono(unit, s, k, s.len() as int);
    assert(s.take(s.len() as int) =~= s);
}

pub proof fn lemma_floor_mono(unit: Unit, s: Seq<char>, a: int, b: int)
    requires
        0 <= a <= b,
    ensures
        floor_index(unit, s, a) <= floor_index(unit, s, b),
{
    lemma_floor_index(unit, s, a);
    lemma_floor_index(unit, s, b);
    let i = floor_index(unit, s, a);
    let j = floor_index(unit, s, b);
    if j < i {
        lemma_measure_mono(unit, s, j + 1, i);
    }
}

/// The offset of an index is a boundary, and `index_at` finds the index again.
pub proof fn lemma_offset_of(s: Seq<char>, k: int)
    requires
        0 <= k <= s.len(),
    ensures
        is_boundary(s, offset_of(s, k) as int),
        index_at(s, offset_of(s, k) as int) == k,
        index_from(s, offset_of(s, k) as int) == k,
        offset_of(s, k) <= byte_len(s),
{
    lemma_floor_exact(Unit::Utf8, s, k);
}

pub proof fn lemma_text_ends(s: Seq<char>)
    ensures
        is_boundary(s, 0),
        is_boundary(s, byte_len(s) as int),
        index_at(s, 0) == 0,
        index_at(s, byte_len(s) as int) == s.len(),
        offset_of(s, 0) == 0,
        offset_of(s, s.len() as int) == byte_len(s),
{
    assert(s.take(0) =~= Seq::<char>::empty());
    assert(s.take(s.len() as int) =~= s);
    lemma_offset_of(s, 0);
    lemma_offset_of(s, s.len() as int);
}

/// Clipping gives boundaries on either side of the offset.
pub proof fn lemma_clip(s: Seq<char>, o: int)
    requires
        0 <= o,
    ensures
        0 <= index_at(s, o) <= index_from(s, o) <= s.len(),
        is_boundary(s, clip_left(s, o)),
        is_boundary(s, clip_right(s, o)),
        index_at(s, clip_left(s, o)) == index_at(s, o),
        index_at(s, clip_right(s, o)) == index_from(s, o),
        0 <= clip_left(s, o) <= o,
        clip_left(s, o) <= clip_right(s, o) <= byte_len(s),
        o <= byte_len(s) ==> o <= clip_right(s, o),
        o >= byte_len(s) ==> clip_left(s, o) == byte_len(s) && clip_right(s, o) == byte_len(s),
        is_boundary(s, o) ==> clip_left(s, o) == o && clip_right(s, o) == o,
{
    lemma_floor_index(Unit::Utf8, s, o);
    let f = index_at(s, o);
    let g = index_from(s, o);
    lemma_text_ends(s);
    lemma_offset_of(s, f);
    lemma_offset_of(s, g);
    lemma_measure_mono(Unit::Utf8, s, f, g);
    if o >= byte_len(s) {
        lemma_floor_mono(Unit::Utf8, s, byte_len(s) as int, o);
    }
}

pub proof fn lemma_clip_mono(s: Seq<char>, a: int, b: int)
    requires
        0 <= a <= b,
    ensures
        index_at(s, a) <= index_at(s, b),
        index_at(s, a) <= index_from(s, b),
        index_from(s, a) <= index_from(s, b),
        clip_left(s, a) <= clip_left(s, b),
        clip_left(s, a) <= clip_right(s, b),
        clip_right(s, a) <= clip_right(s, b),
{
    lemma_floor_mono(Unit::Utf8, s, a, b);
    lemma_clip(s, a);
    lemma_clip(s, b);
    lemma_measure_mono(Unit::Utf8, s, index_at(s, a), index_at(s, b));
    lemma_measure_mono(Unit::Utf8, s, index_at(s, a), index_from(s, b));
    lemma_measure_mono(Unit::Utf8, s, index_from(s, a), index_from(s, b));
    if index_at(s, a) == index_at(s, b) && index_from(s, a) > index_from(s, b) {
        assert(offset_of(s, index_at(s, a)) == b);
        lemma_floor_index(Unit::Utf8, s, a);
    }
}

// ---------------------------------------------------------------------------
// Slices and splices

/// The length of a slice is the distance between its ends.
pub proof fn lemma_slice_len(s: Seq<char>, start: int, end: int)
    requires
        is_boundary(s, start),
        is_boundary(s, end),
        start <= end,
    ensures
        byte_len(slice_of(s, start, end)) == end - start,
        0 <= index_at(s, start) <= index_at(s, end) <= s.len(),
{
    lemma_clip(s, start);
    lemma_clip(s, end);
    lemma_clip_mono(s, start, end);
    let i = index_at(s, start);
    let j = index_at(s, end);
    assert(s.take(j) =~= s.take(i) + s.subrange(i, j));
    lemma_measure_concat(Unit::Utf8, s.take(i), s.subrange(i, j));
}

/// What `spliced` does to the length of the text, and where its pieces lie.
pub proof fn lemma_spliced(s: Seq<char>, start: int, end: int, new: Seq<char>)
    requires
        0 <= start <= end,
    ensures
        byte_len(spliced(s, start, end, new)) == clip_left(s, start) + byte_len(new) + (byte_len(s)
            - clip_right(s, end)),
        0 <= clip_left(s, start) <= clip_right(s, end) <= byte_len(s),
        is_boundary(spliced(s, start, end, new), clip_left(s, start)),
        is_boundary(spliced(s, start, end, new), clip_left(s, start) + byte_len(new)),
        index_at(spliced(s, start, end, new), clip_left(s, start)) == index_at(s, start),
        index_at(spliced(s, start, end, new), clip_left(s, start) + byte_len(new)) == index_at(
            s,
            start,
        ) + new.len(),
{
    lemma_clip(s, start);
    lemma_clip(s, end);
    lemma_clip_mono(s, start, end);
    let i = index_at(s, start);
    let j = index_from(s, end);
    let t = spliced(s, start, end, new);
    lemma_measure_concat(Unit::Utf8, s.take(i) + new, s.skip(j));
    lemma_measure_concat(Unit::Utf8, s.take(i), new);
    lemma_measure_concat(Unit::Utf8, s.take(j), s.skip(j));
    assert(s.take(j) + s.skip(j) =~= s);
    assert(t.take(i) =~= s.take(i));
    assert(t.take(i + new.len()) =~= s.take(i) + new);
    lemma_offset_of(t, i);
    lemma_offset_of(t, i + new.len());
}

// ---------------------------------------------------------------------------
// UTF-16

/// Going to UTF-16 and back keeps the boundary at or before the offset.
pub proof fn lemma_utf16_round_trip(s: Seq<char>, o: int)
    requires
        0 <= o,
    ensures
        from_utf16(s, to_utf16(s, o)) == clip_left(s, o),
        0 <= to_utf16(s, o) <= utf16_len(s),
{
    lemma_clip(s, o);
    lemma_floor_exact(Unit::Utf16, s, index_at(s, o));
}

/// A text has no more UTF-16 code units than bytes.
pub proof fn lemma_utf16_narrower(s: Seq<char>)
    ensures
        utf16_len(s) <= byte_len(s),
    decreases s.len(),
{
    if s.len() > 0 {
        lemma_utf16_narrower(s.drop_last());
    }
}

/// A UTF-16 offset always maps to a boundary.
pub proof fn lemma_from_utf16(s: Seq<char>, u: int)
    requires
        0 <= u,
    ensures
        is_boundary(s, from_utf16(s, u)),
        0 <= from_utf16(s, u) <= byte_len(s),
        u >= utf16_len(s) ==> from_utf16(s, u) == byte_len(s),
{
    lemma_floor_index(Unit::Utf16, s, u);
    lemma_offset_of(s, floor_index(Unit::Utf16, s, u));
    lemma_text_ends(s);
}

pub proof fn lemma_from_utf16_mono(s: Seq<char>, a: int, b: int)
    requires
        0 <= a <= b,
    ensures
        from_utf16(s, a) <= from_utf16(s, b),
{
    lemma_floor_mono(Unit::Utf16, s, a, b);
    lemma_floor_index(Unit::Utf16, s, a);
    lemma_floor_index(Unit::Utf16, s, b);
    lemma_measure_mono(
        Unit::Utf8,
        s,
        floor_index(Unit::Utf16, s, a),
        floor_index(Unit::Utf16, s, b),
    );
}

pub proof fn lemma_to_utf16_mono(s: Seq<char>, a: int, b: int)
    requires
        0 <= a <= b,
    ensures
        to_utf16(s, a) <= to_utf16(s, b),
{
    lemma_clip(s, a);
    lemma_clip(s, b);
    lemma_clip_mono(s, a, b);
    lemma_measure_mono(Unit::Utf16, s, index_at(s, a), index_at(s, b));
}

// ---------------------------------------------------------------------------
// Lines

pub proof fn lemma_line_breaks_mono(s: Seq<char>, i: int, j: int)
    requires
        0 <= i <= j <= s.len(),
    ensures
        line_breaks(s.take(i)) <= line_breaks(s.take(j)),
    decreases j - i,
{
    if i < j {
        assert(s.take(j).drop_last() =~= s.take(j - 1));
        lemma_line_breaks_mono(s, i, j - 1);
    }
}

/// Line `row` starts right behind its preceding line feed.
pub proof fn lemma_line_index(s: Seq<char>, row: int)
    ensures
        0 <= line_index(s, row) <= s.len(),
        1 <= row <= line_breaks(s) ==> {
            &&& line_index(s, row) >= 1
            &&& s[line_index(s, row) - 1] == '\n'
            &&& line_breaks(s.take(line_index(s, row))) == row
        },
        row > line_breaks(s) ==> line_index(s, row) == s.len(),
    decreases s.len(),
{
    assert(s.take(s.len() as int) =~= s);
    if row > 0 && s.len() > 0 && line_breaks(s.drop_last()) >= row {
        lemma_line_index(s.drop_last(), row);
        let k = line_index(s.drop_last(), row);
        assert(s.drop_last().take(k) =~= s.take(k));
    }
}

pub proof fn lemma_line_index_mono(s: Seq<char>, a: int, b: int)
    requires
        a <= b,
    ensures
        line_index(s, a) <= line_index(s, b),
        0 <= a < b && a < line_breaks(s) ==> line_index(s, a) < line_index(s, b),
{
    lemma_line_index(s, a);
    lemma_line_index(s, b);
    let i = line_index(s, a);
    let j = line_index(s, b);
    if 0 < a && a <= line_breaks(s) && b <= line_breaks(s) && j < i {
        lemma_line_breaks_mono(s, j, i - 1);
        assert(s.take(i).drop_last() =~= s.take(i - 1));
    }
    if 0 <= a < b && a < line_breaks(s) && j == i {
        if b <= line_breaks(s) {
            if a == 0 {
                assert(s.take(0) =~= Seq::<char>::empty());
            }
        } else {
            assert(s.take(s.len() as int) =~= s);
            if a == 0 {
                assert(s =~= Seq::<char>::empty());
            }
        }
    }
}

/// Every line lies inside the text, and its start does not come after its end.
pub proof fn lemma_line(s: Seq<char>, row: int)
    requires
        0 <= row,
    ensures
        0 <= line_start(s, row) <= line_end(s, row) <= byte_len(s),
        is_boundary(s, line_start(s, row)),
        is_boundary(s, line_end(s, row)),
{
    lemma_line_index(s, row);
    lemma_line_index(s, row + 1);
    lemma_line_index_mono(s, row, row + 1);
    lemma_offset_of(s, line_index(s, row));
    lemma_offset_of(s, line_index(s, row + 1));
    lemma_text_ends(s);
    if row < line_breaks(s) {
        let k = line_index(s, row + 1);
        lemma_measure_step(Unit::Utf8, s, k - 1);
        lemma_offset_of(s, k - 1);
        lemma_measure_mono(Unit::Utf8, s, line_index(s, row), k - 1);
    }
}

// ---------------------------------------------------------------------------
// Bytes

pub proof fn lemma_encode_concat(a: Seq<char>, b: Seq<char>)
    ensures
        encode_utf8(a + b) =~= encode_utf8(a) + encode_utf8(b),
    decreases a.len(),
{
    if a.len() == 0 {
        assert(a + b =~= b);
    } else {
        assert((a + b).drop_first() =~= a.drop_first() + b);
        lemma_encode_concat(a.drop_first(), b);
    }
}

/// The model's byte length is the length of the UTF-8 encoding.
pub proof fn lemma_encode_len(s: Seq<char>)
    ensures
        encode_utf8(s).len() == byte_len(s),
    decreases s.len(),
{
    if s.len() > 0 {
        lemma_encode_len(s.drop_last());
        let last = seq![s.last()];
        assert(s =~= s.drop_last() + last);
        lemma_encode_concat(s.drop_last(), last);
        char_is_scalar(s.last());
        assert(last.drop_first() =~= Seq::<char>::empty());
        reveal_with_fuel(encode_utf8, 2);
    }
}

/// The model's boundaries are the `char` boundaries of the UTF-8 encoding.
pub proof fn lemma_encode_boundary(s: Seq<char>, k: int)
    requires
        0 <= k <= s.len(),
    ensures
        is_char_boundary(encode_utf8(s), offset_of(s, k) as int),
        encode_utf8(s).subrange(0, offset_of(s, k) as int) =~= encode_utf8(s.take(k)),
        encode_utf8(s).subrange(offset_of(s, k) as int, encode_utf8(s).len() as int)
            =~= encode_utf8(s.skip(k)),
    decreases k,
{
    assert(s =~= s.take(k) + s.skip(k));
    lemma_encode_concat(s.take(k), s.skip(k));
    lemma_encode_len(s.take(k));
    encode_utf8_valid_utf8(s);
    if k == 0 {
        assert(s.take(0) =~= Seq::<char>::empty());
        is_char_boundary_start_end_of_seq(encode_utf8(s));
    } else {
        let t = s.drop_first();
        lemma_encode_boundary(t, k - 1);
        encode_utf8_first_scalar(s);
        assert(pop_first_scalar(encode_utf8(s)) =~= encode_utf8(t));
        assert(s.take(k) =~= seq![s[0]] + t.take(k - 1));
        lemma_measure_concat(Unit::Utf8, seq![s[0]], t.take(k - 1));
        assert(seq![s[0]].drop_first() =~= Seq::<char>::empty());
        reveal_with_fuel(encode_utf8, 2);
        lemma_encode_len(seq![s[0]]);
        lemma_encode_len(s);
        lemma_offset_of(s, k);
    }
}

pub proof fn lemma_encode_injective(a: Seq<char>, b: Seq<char>)
    requires
        encode_utf8(a) == encode_utf8(b),
    ensures
        a == b,
{
    encode_utf8_decode_utf8(a);
    encode_utf8_decode_utf8(b);
}

} // verus!
