//! Where the cursor goes, and what the keys that delete take out.
use crate::edit::{has_line_break, on_one_line, Verdicts};
use crate::mask_pattern::number_normalized;
use crate::rope::char_from;
use crate::state::StateView;
use crate::text::{
    byte_len, clip_left, clip_right, index_at, index_from, is_boundary, lemma_floor_exact,
    lemma_floor_unique, lemma_measure_concat, lemma_offset_of, line_breaks, row_of, spliced,
    utf16_len, width, Unit,
};
use core::ops::Range;
use vstd::prelude::*;

verus! {

/// The place between two parts of a text.
pub proof fn lemma_between(a: Seq<char>, b: Seq<char>)
    ensures
        is_boundary(a + b, byte_len(a) as int),
        index_at(a + b, byte_len(a) as int) == a.len(),
        index_from(a + b, byte_len(a) as int) == a.len(),
        clip_left(a + b, byte_len(a) as int) == byte_len(a),
        clip_right(a + b, byte_len(a) as int) == byte_len(a),
        row_of(a + b, byte_len(a) as int) == line_breaks(a),
        byte_len(a + b) == byte_len(a) + byte_len(b),
{
    assert((a + b).take(a.len() as int) =~= a);
    lemma_offset_of(a + b, a.len() as int);
    lemma_measure_concat(Unit::Utf8, a, b);
}

/// A `char` of a text, and the places before and behind it.
pub proof fn lemma_around(a: Seq<char>, c: char, b: Seq<char>)
    ensures
        ({
            let s = a + seq![c] + b;
            let o = byte_len(a) as int;
            let p = o + width(Unit::Utf8, c);
            &&& s == a + (seq![c] + b)
            &&& byte_len(a + seq![c]) == p
            &&& byte_len(s) == p + byte_len(b)
            &&& is_boundary(s, o)
            &&& is_boundary(s, p)
            &&& index_at(s, o) == a.len()
            &&& index_at(s, p) == a.len() + 1
            &&& forall|q: int| o < q < p ==> !#[trigger] is_boundary(s, q)
            &&& forall|q: int| o <= q < p ==> #[trigger] clip_left(s, q) == o
            &&& forall|q: int| o < q <= p ==> #[trigger] clip_right(s, q) == p
            &&& row_of(s, o) == line_breaks(a)
            &&& row_of(s, p) == line_breaks(a + seq![c])
            &&& char_from(s, o) == Some(c)
            &&& char_from(s, p) == if b.len() > 0 {
                Some(b[0])
            } else {
                None
            }
        }),
{
    let s = a + seq![c] + b;
    assert(s =~= a + (seq![c] + b));
    lemma_between(a, seq![c] + b);
    lemma_between(a + seq![c], b);
    assert((a + seq![c]).drop_last() =~= a);
    assert(s.take(a.len() as int) =~= a);
    assert(s.take(a.len() as int + 1) =~= a + seq![c]);
    let o = byte_len(a) as int;
    let p = o + width(Unit::Utf8, c);
    assert forall|q: int| o < q < p implies !#[trigger] is_boundary(s, q) by {
        lemma_floor_unique(Unit::Utf8, s, q, a.len() as int);
    }
    assert forall|q: int| o <= q < p implies #[trigger] clip_left(s, q) == o by {
        lemma_floor_unique(Unit::Utf8, s, q, a.len() as int);
    }
    assert forall|q: int| o < q <= p implies #[trigger] clip_right(s, q) == p by {
        if q < p {
            lemma_floor_unique(Unit::Utf8, s, q, a.len() as int);
            assert(!is_boundary(s, q));
        }
    }
    if b.len() > 0 {
        crate::text::lemma_measure_bounds(Unit::Utf8, b);
        assert(s[a.len() as int + 1] == b[0]);
    } else {
        assert(byte_len(b) == 0);
    }
}

/// The place behind the one before a `char` is right behind that `char`: it
/// is a boundary, and there is none between the two. A carriage return behind
/// the `char` is stepped over as well. This is where the line of that place
/// is not folded away.
pub proof fn law_next_is_behind_char(s: StateView, a: Seq<char>, c: char, b: Seq<char>)
    requires
        s.text == a + seq![c] + b,
    ensures
        ({
            let o = byte_len(a) as int;
            let p = s.next(o);
            &&& (b.len() == 0 || b[0] != '\r') && !s.display.hidden(
                line_breaks(a + seq![c]) as int,
            ) ==> {
                &&& p == byte_len(a + seq![c])
                &&& o < p <= byte_len(s.text)
                &&& is_boundary(s.text, p)
                &&& forall|q: int| o < q < p ==> !#[trigger] is_boundary(s.text, q)
            }
            &&& b.len() > 0 && b[0] == '\r' && !s.display.hidden(
                line_breaks(a + seq![c, '\r']) as int,
            ) ==> p == byte_len(a + seq![c, '\r'])
        }),
{
    lemma_around(a, c, b);
    let o = byte_len(a) as int;
    let p = byte_len(a + seq![c]) as int;
    assert(clip_right(s.text, o + 1) == p);
    if b.len() > 0 && b[0] == '\r' {
        let rest = b.skip(1);
        assert(b =~= seq!['\r'] + rest);
        assert(a + seq![c] + b =~= (a + seq![c]) + seq!['\r'] + rest);
        lemma_around(a + seq![c], '\r', rest);
        assert(a + seq![c, '\r'] =~= a + seq![c] + seq!['\r']);
    }
}

/// At the end of the text there is nothing behind.
pub proof fn law_next_stays_at_end(s: StateView)
    requires
        !s.display.hidden(line_breaks(s.text) as int),
    ensures
        s.next(byte_len(s.text) as int) == byte_len(s.text),
{
    let none = Seq::<char>::empty();
    assert(s.text + none =~= s.text);
    lemma_between(s.text, none);
    crate::text::lemma_clip(s.text, byte_len(s.text) as int + 1);
}

/// The place before the one behind a `char` is right before that `char`: it
/// is a boundary, and there is none between the two. From behind a carriage
/// return the cursor goes one byte further, where there is one.
pub proof fn law_previous_is_before_char(s: StateView, a: Seq<char>, c: char, b: Seq<char>)
    requires
        s.text == a + seq![c] + b,
    ensures
        ({
            let o = byte_len(a + seq![c]) as int;
            let p = s.previous(o);
            &&& (c != '\r' || a.len() == 0) && !s.display.hidden(line_breaks(a) as int) ==> {
                &&& p == byte_len(a)
                &&& 0 <= p < o
                &&& is_boundary(s.text, p)
                &&& forall|q: int| p < q < o ==> !#[trigger] is_boundary(s.text, q)
            }
        }),
        ({
            let o = byte_len(a + seq![c]) as int;
            c == '\r' && a.len() > 0 && !s.display.hidden(
                row_of(s.text, byte_len(a) - 1) as int,
            ) ==> s.previous(o) == byte_len(a) - 1
        }),
{
    lemma_around(a, c, b);
    let o = byte_len(a + seq![c]) as int;
    assert(clip_left(s.text, o - 1) == byte_len(a));
    crate::text::lemma_measure_bounds(Unit::Utf8, a);
}

/// At the start of the text there is nothing before.
pub proof fn law_previous_stays_at_start(s: StateView)
    requires
        !s.display.hidden(0),
    ensures
        s.previous(0) == 0,
{
    crate::text::lemma_text_ends(s.text);
    crate::text::lemma_clip(s.text, 0);
    assert(s.text.take(0) =~= Seq::<char>::empty());
}

// ---------------------------------------------------------------------------
// What is replaced

/// Whether an edit of `range` is one of `old`, which stands behind `a`: the
/// range says so in UTF-16 code units; without a range, what is being
/// composed does, or else the selection.
pub open spec fn aims_at(
    s: StateView,
    range: Option<Range<usize>>,
    a: Seq<char>,
    old: Seq<char>,
) -> bool {
    match range {
        Some(r) => r.start == utf16_len(a) && r.end == utf16_len(a + old),
        None => match s.ime {
            Some(r) => r.start == byte_len(a) && r.end == byte_len(a + old),
            None => s.selected.start == byte_len(a) && s.selected.end == byte_len(a + old),
        },
    }
}

pub proof fn lemma_aimed(
    s: StateView,
    range: Option<Range<usize>>,
    a: Seq<char>,
    old: Seq<char>,
    b: Seq<char>,
    new: Seq<char>,
)
    requires
        s.text == a + old + b,
        aims_at(s, range, a, old),
    ensures
        s.edit_range(range) == (byte_len(a) as int, byte_len(a + old) as int),
        spliced(s.text, byte_len(a) as int, byte_len(a + old) as int, new) == a + new + b,
        byte_len(a + new) + byte_len(b) == byte_len(a + new + b),
{
    assert(s.text =~= a + (old + b));
    lemma_between(a, old + b);
    lemma_between(a + old, b);
    lemma_measure_concat(Unit::Utf8, a + new, b);
    assert(s.text.take(a.len() as int) =~= a);
    assert(s.text.take((a + old).len() as int) =~= a + old);
    assert(s.text.skip((a + old).len() as int) =~= b);
    lemma_floor_exact(Unit::Utf16, s.text, a.len() as int);
    lemma_floor_exact(Unit::Utf16, s.text, (a + old).len() as int);
}

/// An edit that is let in, of an input that no mask formats, puts the new
/// text where the old one was and leaves the rest; the cursor is behind the
/// new text, nothing is selected and nothing is being composed.
pub proof fn law_edit_replaces(
    s: StateView,
    range: Option<Range<usize>>,
    a: Seq<char>,
    old: Seq<char>,
    b: Seq<char>,
    t: Seq<char>,
    v: Verdicts,
)
    requires
        s.text == a + old + b,
        aims_at(s, range, a, old),
        s.editable(),
        !s.rejects(range, t, v),
        s.single_line() ==> s.mask is Plain,
    ensures
        ({
            let after = s.replaced(range, t, v);
            let new = s.normalized(t);
            &&& after.text == a + new + b
            &&& after.selected.start == byte_len(a + new)
            &&& after.selected.end == byte_len(a + new)
            &&& after.ime is None
        }),
{
    reveal(StateView::replaced);
    let new = s.normalized(t);
    lemma_aimed(s, range, a, old, b, new);
    lemma_measure_concat(Unit::Utf8, a, new);
    lemma_measure_concat(Unit::Utf8, a, old);
    lemma_measure_concat(Unit::Utf8, a + old, b);
}

/// What is put into an input of several lines without a number mask is put in
/// as it is. An input of one line takes the `char`s that break no line, in
/// their order; one with a number mask has them as a number is written.
pub proof fn law_text_is_put_in(s: StateView, t: Seq<char>)
    ensures
        s.multi_line && !(s.mask is Number) ==> s.normalized(t) == t,
        s.single_line() && !(s.mask is Number) ==> s.normalized(t) == t.filter(
            |c: char| c != '\n' && c != '\r',
        ),
        s.single_line() ==> !has_line_break(s.normalized(t)),
{
    lemma_one_line(t);
    lemma_one_line(number_normalized(t));
}

proof fn lemma_one_line(t: Seq<char>)
    ensures
        on_one_line(t) == t.filter(|c: char| c != '\n' && c != '\r'),
        !has_line_break(on_one_line(t)),
    decreases t.len(),
{
    reveal(Seq::filter);
    if t.len() > 0 {
        lemma_one_line(t.drop_last());
        let r = on_one_line(t.drop_last());
        assert forall|c: char| r.push(t.last()).contains(c) implies c == t.last() || r.contains(
            c,
        ) by {
            let k = choose|k: int| 0 <= k < r.len() + 1 && r.push(t.last())[k] == c;
            if k < r.len() {
                assert(r[k] == c);
            }
        }
    }
}

// ---------------------------------------------------------------------------
// Deleting

/// Whether the cursor is behind `a`, with nothing selected and nothing being composed.
pub open spec fn rests_behind(s: StateView, a: Seq<char>) -> bool {
    &&& s.selected.start == byte_len(a)
    &&& s.selected.end == byte_len(a)
    &&& s.ime is None
    &&& s.word is None
}

/// Delete, where nothing is selected, takes out exactly the `char` behind the
/// cursor, whatever its length, and the carriage return behind that. The
/// cursor stays.
pub proof fn law_delete_takes_char(
    s: StateView,
    a: Seq<char>,
    c: char,
    b: Seq<char>,
    v: Verdicts,
)
    requires
        s.text == a + seq![c] + b,
        byte_len(s.text) <= usize::MAX,
        rests_behind(s, a),
        b.len() == 0 || b[0] != '\r',
        !s.display.hidden(line_breaks(a + seq![c]) as int),
        s.editable(),
        s.single_line() ==> s.mask is Plain,
        !s.delete_base().rejects(None, Seq::empty(), v),
    ensures
        ({
            let after = s.delete_base().replaced(None, Seq::empty(), v);
            after.text == a + b && rests_behind(after, a)
        }),
{
    law_next_is_behind_char(s, a, c, b);
    lemma_around(a, c, b);
    let base = s.delete_base();
    lemma_selected(s, byte_len(a) as int, byte_len(a + seq![c]) as int);
    let none = Seq::<char>::empty();
    law_edit_replaces(base, None, a, seq![c], b, none, v);
    lemma_nothing_put_in(base);
    lemma_word_stays(base, none, v);
    assert(a + none =~= a);
}

/// Backspace, where nothing is selected, takes out exactly the `char` before
/// the cursor, whatever its length. The cursor is where that was.
pub proof fn law_backspace_takes_char(
    s: StateView,
    a: Seq<char>,
    c: char,
    b: Seq<char>,
    v: Verdicts,
)
    requires
        s.text == a + seq![c] + b,
        byte_len(s.text) <= usize::MAX,
        rests_behind(s, a + seq![c]),
        c != '\r' || a.len() == 0,
        !s.display.hidden(line_breaks(a) as int),
        s.editable(),
        s.single_line() ==> s.mask is Plain,
        !s.backspace_base().rejects(None, Seq::empty(), v),
    ensures
        ({
            let after = s.backspace_base().replaced(None, Seq::empty(), v);
            after.text == a + b && rests_behind(after, a)
        }),
{
    law_previous_is_before_char(s, a, c, b);
    lemma_around(a, c, b);
    let base = s.backspace_base();
    lemma_selected(s, byte_len(a + seq![c]) as int, byte_len(a) as int);
    let none = Seq::<char>::empty();
    law_edit_replaces(base, None, a, seq![c], b, none, v);
    lemma_nothing_put_in(base);
    lemma_word_stays(base, none, v);
    assert(a + none =~= a);
}

/// Selecting from a cursor at `from` to `to` selects what lies between, in either direction.
pub proof fn lemma_selected(s: StateView, from: int, to: int)
    requires
        s.selected.start == from,
        s.selected.end == from,
        s.word is None,
        0 <= from <= byte_len(s.text),
        0 <= to <= byte_len(s.text) <= usize::MAX,
    ensures
        s.selected_to(to).selected.start == if from <= to {
            from
        } else {
            to
        },
        s.selected_to(to).selected.end == if from <= to {
            to
        } else {
            from
        },
        s.selected_to(to).text == s.text,
        s.selected_to(to).word is None,
        s.selected_to(to).ime == s.ime,
{
}

proof fn lemma_nothing_put_in(s: StateView)
    ensures
        s.normalized(Seq::empty()) == Seq::<char>::empty(),
{
    assert(number_normalized(Seq::empty()) =~= Seq::<char>::empty());
}

proof fn lemma_word_stays(s: StateView, t: Seq<char>, v: Verdicts)
    ensures
        s.replaced(None, t, v).word == s.word,
{
    reveal(StateView::replaced);
}

} // verus!
