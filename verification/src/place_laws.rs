//! Places in a text, and what the pointer picks.
use crate::context::Window;
use crate::display_map::{folds_after_edit, FoldRange};
use crate::key_laws::{anchor, is_line, lemma_whole_line};
use crate::motion_laws::lemma_between;
use crate::mode::{diagnostic_at, DiagnosticView};
use crate::mouse::{LineHit, MouseButton, MouseDown};
use crate::rope::{point_of, position_of, position_offset};
use crate::segmentation::{
    first_word, first_word_end, joined, last_word, last_word_start, piece_at, piece_range,
    word_bounds,
};
use crate::state::StateView;
use crate::strings::blank;
use crate::text::{
    byte_len, from_utf16, lemma_floor_exact, lemma_measure_concat, lemma_offset_of, line_breaks,
    line_end, line_index, line_start, row_of, slice_of, to_utf16, utf16_len, Unit,
};
use vstd::prelude::*;

verus! {

// ---------------------------------------------------------------------------
// Offsets

/// The place behind a part of a text is as far in as that part is long, in
/// bytes and in UTF-16 code units, and each can be had from the other.
pub proof fn law_units_agree(a: Seq<char>, b: Seq<char>)
    ensures
        to_utf16(a + b, byte_len(a) as int) == utf16_len(a),
        from_utf16(a + b, utf16_len(a) as int) == byte_len(a),
{
    lemma_between(a, b);
    assert((a + b).take(a.len() as int) =~= a);
    lemma_floor_exact(Unit::Utf16, a + b, a.len() as int);
}

/// What stands between two places of a text.
pub proof fn law_slices(a: Seq<char>, x: Seq<char>, b: Seq<char>)
    ensures
        slice_of(a + x + b, byte_len(a) as int, byte_len(a + x) as int) == x,
{
    assert(a + x + b =~= a + (x + b));
    lemma_between(a, x + b);
    lemma_between(a + x, b);
    assert((a + x + b).subrange(a.len() as int, (a + x).len() as int) =~= x);
}

/// A place is told by the lines before it and by what stands before it on its
/// line, in bytes or in `char`s, and is found again by that. Beyond the end of
/// a line is its end.
pub proof fn law_positions(
    above: Seq<char>,
    x: Seq<char>,
    y: Seq<char>,
    below: Seq<char>,
    more: nat,
)
    requires
        is_line(above, x + y, below),
        more >= (x + y).len(),
    ensures
        ({
            let s = above + (x + y) + below;
            let o = byte_len(above + x) as int;
            let row = line_breaks(above) as int;
            &&& point_of(s, o) == (row, byte_len(x) as int)
            &&& position_of(s, o) == (row, x.len() as int)
            &&& position_offset(s, row, x.len() as int) == o
            &&& position_offset(s, row, more as int) == byte_len(above + (x + y))
        }),
{
    let s = above + (x + y) + below;
    lemma_whole_line(above, x + y, below);
    lemma_measure_concat(Unit::Utf8, above, x);
    lemma_measure_concat(Unit::Utf8, above, x + y);
    lemma_measure_concat(Unit::Utf8, x, y);
    assert(s =~= (above + x) + (y + below));
    assert(s =~= above + (x + y + below));
    lemma_between(above + x, y + below);
    lemma_between(above, x + y + below);
    lemma_between(above + (x + y), below);
    assert(row_of(s, byte_len(above + x) as int) == line_breaks(above));
    let row = line_breaks(above) as int;
    crate::text::lemma_line_index(s, row);
    lemma_offset_of(s, line_index(s, row));
    assert(line_index(s, row) == above.len());
    assert(s.take((above + x).len() as int) =~= above + x);
    assert(s.take((above + (x + y)).len() as int) =~= above + (x + y));
}

// ---------------------------------------------------------------------------
// Words

/// Going back by a word goes to the start of the last piece that is not white
/// space; behind it stands white space alone.
pub proof fn law_word_before(p: Seq<Seq<char>>, word: Seq<char>, q: Seq<Seq<char>>)
    requires
        !blank(word),
        forall|k: int| 0 <= k < q.len() ==> blank(#[trigger] q[k]),
    ensures
        last_word_start(p.push(word) + q) == byte_len(joined(p)),
    decreases q.len(),
{
    let all = p.push(word) + q;
    if q.len() == 0 {
        assert(all =~= p.push(word));
        assert(all.take(p.len() as int) =~= p);
    } else {
        let rest = q.drop_last();
        assert(all.drop_last() =~= p.push(word) + rest);
        assert(all.last() == q[q.len() - 1]);
        assert forall|k: int| 0 <= k < rest.len() implies blank(#[trigger] rest[k]) by {
            assert(rest[k] == q[k]);
        }
        law_word_before(p, word, rest);
        let shorter = p.push(word) + rest;
        lemma_last_word(shorter);
        let k = last_word(shorter);
        if k >= 0 {
            assert(all.take(k) =~= shorter.take(k));
        }
    }
}

proof fn lemma_last_word(pieces: Seq<Seq<char>>)
    ensures
        -1 <= last_word(pieces) < pieces.len(),
    decreases pieces.len(),
{
    if pieces.len() > 0 {
        lemma_last_word(pieces.drop_last());
    }
}

/// Going on by a word goes to the end of the first piece that is not white
/// space; before it stands white space alone.
pub proof fn law_word_after(p: Seq<Seq<char>>, word: Seq<char>, q: Seq<Seq<char>>)
    requires
        !blank(word),
        forall|k: int| 0 <= k < p.len() ==> blank(#[trigger] p[k]),
    ensures
        first_word_end(p.push(word) + q) == byte_len(joined(p.push(word))),
{
    lemma_first_word(p, word, q);
    let all = p.push(word) + q;
    assert(all.take(p.len() as int + 1) =~= p.push(word));
}

proof fn lemma_first_word(p: Seq<Seq<char>>, word: Seq<char>, q: Seq<Seq<char>>)
    requires
        !blank(word),
        forall|k: int| 0 <= k < p.len() ==> blank(#[trigger] p[k]),
    ensures
        first_word(p.push(word) + q) == p.len(),
    decreases p.len(),
{
    let all = p.push(word) + q;
    if p.len() > 0 {
        let rest = p.skip(1);
        assert(all[0] == p[0]);
        assert forall|k: int| 0 <= k < rest.len() implies blank(#[trigger] rest[k]) by {
            assert(rest[k] == p[k + 1]);
        }
        lemma_first_word(rest, word, q);
        assert(all.skip(1) =~= rest.push(word) + q);
    } else {
        assert(all[0] == word);
    }
}

/// Where there is no word, going back goes to the start and going on to the end.
pub proof fn law_no_words(pieces: Seq<Seq<char>>)
    requires
        forall|k: int| 0 <= k < pieces.len() ==> blank(#[trigger] pieces[k]),
    ensures
        last_word_start(pieces) == 0,
        first_word_end(pieces) == byte_len(joined(pieces)),
{
    lemma_no_last_word(pieces);
    lemma_no_first_word(pieces);
}

proof fn lemma_no_last_word(pieces: Seq<Seq<char>>)
    requires
        forall|k: int| 0 <= k < pieces.len() ==> blank(#[trigger] pieces[k]),
    ensures
        last_word(pieces) == -1,
    decreases pieces.len(),
{
    if pieces.len() > 0 {
        let rest = pieces.drop_last();
        assert(blank(pieces[pieces.len() - 1]));
        assert forall|k: int| 0 <= k < rest.len() implies blank(#[trigger] rest[k]) by {
            assert(rest[k] == pieces[k]);
        }
        lemma_no_last_word(rest);
    }
}

proof fn lemma_no_first_word(pieces: Seq<Seq<char>>)
    requires
        forall|k: int| 0 <= k < pieces.len() ==> blank(#[trigger] pieces[k]),
    ensures
        first_word(pieces) == pieces.len(),
    decreases pieces.len(),
{
    if pieces.len() > 0 {
        let rest = pieces.skip(1);
        assert(blank(pieces[0]));
        assert forall|k: int| 0 <= k < rest.len() implies blank(#[trigger] rest[k]) by {
            assert(rest[k] == pieces[k + 1]);
        }
        lemma_no_first_word(rest);
    }
}

/// The word keys go by the pieces of the text before and behind the cursor.
pub proof fn law_word_keys(
    s: StateView,
    a: Seq<char>,
    b: Seq<char>,
    p: Seq<Seq<char>>,
    word: Seq<char>,
    q: Seq<Seq<char>>,
)
    requires
        s.text == a + b,
        s.selected.start == byte_len(a),
        s.selected.end == byte_len(a),
        !blank(word),
    ensures
        word_bounds(a) == p.push(word) + q && (forall|k: int|
            0 <= k < q.len() ==> blank(#[trigger] q[k])) ==> s.word_before() == byte_len(joined(p)),
        word_bounds(b) == p.push(word) + q && (forall|k: int|
            0 <= k < p.len() ==> blank(#[trigger] p[k])) ==> s.word_after() == byte_len(a)
            + byte_len(joined(p.push(word))),
{
    lemma_between(a, b);
    crate::text::lemma_text_ends(s.text);
    assert(s.text.subrange(0, a.len() as int) =~= a);
    assert(s.text.subrange(a.len() as int, s.text.len() as int) =~= b);
    if word_bounds(a) == p.push(word) + q && (forall|k: int|
        0 <= k < q.len() ==> blank(#[trigger] q[k])) {
        law_word_before(p, word, q);
    }
    if word_bounds(b) == p.push(word) + q && (forall|k: int|
        0 <= k < p.len() ==> blank(#[trigger] p[k])) {
        law_word_after(p, word, q);
    }
}

/// The piece at a place is the one that the place lies in.
pub proof fn law_piece_at_place(
    p: Seq<Seq<char>>,
    word: Seq<char>,
    q: Seq<Seq<char>>,
    o: int,
)
    requires
        byte_len(joined(p)) <= o < byte_len(joined(p.push(word))),
    ensures
        piece_range(p.push(word) + q, o) == (
            byte_len(joined(p)) as int,
            byte_len(joined(p.push(word))) as int,
        ),
{
    lemma_piece_at(p, word, q, o);
    let all = p.push(word) + q;
    assert(all.take(p.len() as int) =~= p);
    assert(all.take(p.len() as int + 1) =~= p.push(word));
}

proof fn lemma_piece_at(p: Seq<Seq<char>>, word: Seq<char>, q: Seq<Seq<char>>, o: int)
    requires
        byte_len(joined(p)) <= o < byte_len(joined(p.push(word))),
    ensures
        piece_at(p.push(word) + q, o) == p.len(),
    decreases q.len(),
{
    let all = p.push(word) + q;
    if q.len() == 0 {
        assert(all =~= p.push(word));
        assert(all.drop_last() =~= p);
        lemma_piece_beyond(p, o);
    } else {
        assert(all.drop_last() =~= p.push(word) + q.drop_last());
        lemma_piece_at(p, word, q.drop_last(), o);
    }
}

proof fn lemma_piece_beyond(p: Seq<Seq<char>>, o: int)
    requires
        byte_len(joined(p)) <= o,
    ensures
        piece_at(p, o) == p.len(),
    decreases p.len(),
{
    if p.len() > 0 {
        lemma_measure_concat(Unit::Utf8, joined(p.drop_last()), p.last());
        lemma_piece_beyond(p.drop_last(), o);
    }
}

// ---------------------------------------------------------------------------
// The pointer

/// A click with the left button puts the cursor there, and with Shift selects
/// up to there. Two clicks select the piece of text between the word
/// boundaries around the place, and three the whole line.
pub proof fn law_clicks(
    s: StateView,
    event: MouseDown,
    window: Window,
    o: int,
    above: Seq<char>,
    line: Seq<char>,
    below: Seq<char>,
)
    requires
        s.text == above + line + below,
        is_line(above, line, below),
        byte_len(above) <= o <= byte_len(above + line),
        byte_len(s.text) <= usize::MAX,
        s.word is None,
        s.ime is None,
        event.button == MouseButton::Left,
        !window.click_handled,
    ensures
        ({
            let after = s.clicked(event, o, window);
            &&& after.text == s.text
            &&& event.click_count >= 3 ==> after.selected.start == byte_len(above)
                && after.selected.end == byte_len(above + line)
            &&& event.click_count == 2 ==> (
                after.selected.start as int,
                after.selected.end as int,
            ) == (
                piece_range(word_bounds(s.text), o).0 as usize as int,
                piece_range(word_bounds(s.text), o).1 as usize as int,
            ) && after.word == Some(after.selected)
            &&& event.click_count < 2 && !event.shift ==> after.selected.start == o
                && after.selected.end == o
            &&& event.click_count < 2 && event.shift ==> {
                &&& anchor(s) <= o ==> after.selected.start == anchor(s) && after.selected.end == o
                &&& o <= anchor(s) ==> after.selected.start == o && after.selected.end == anchor(s)
            }
            &&& after.session.selecting
        }),
{
    lemma_whole_line(above, line, below);
    lemma_between(above + line, below);
    lemma_measure_concat(Unit::Utf8, above, line);
    assert(row_of(s.text, o) == line_breaks(above));
}

/// A click with the right button asks for the context menu and leaves a
/// selection that it hits; elsewhere it puts the cursor there.
pub proof fn law_right_clicks(s: StateView, event: MouseDown, window: Window, o: int)
    requires
        0 <= o <= byte_len(s.text) <= usize::MAX,
        event.button == MouseButton::Right,
        !window.click_handled,
        s.options.enable_context_menu,
    ensures
        ({
            let after = s.clicked(event, o, window);
            &&& after.text == s.text
            &&& s.selected.start <= o < s.selected.end ==> after.selected == s.selected
            &&& !(s.selected.start <= o < s.selected.end) ==> after.selected.start == o
                && after.selected.end == o
            &&& after.session.pending_context_menu matches Some(menu) && menu.offset == o
                && menu.position == event.position
        }),
{
}

/// A password is painted with one character of three bytes for each `char`:
/// what is painted behind as many of them as a part of the text has is where
/// that part ends. Other text is painted as it is.
pub proof fn law_painted_places(s: StateView, a: Seq<char>, b: Seq<char>, r: int)
    requires
        s.text == a + b,
        0 <= r < 3,
    ensures
        s.options.masked ==> s.painted_offset(3 * a.len() + r) == byte_len(a),
        !s.options.masked ==> s.painted_offset(byte_len(a) as int) == byte_len(a),
        !s.options.masked ==> s.painted_offset(byte_len(s.text) + r) == byte_len(s.text),
{
    lemma_between(a, b);
    assert(s.text.take(a.len() as int) =~= a);
    assert((3 * a.len() + r) / 3 == a.len());
}

/// Once the button is up, nothing is being selected, and the selection stays.
pub proof fn law_release_ends_selecting(s: StateView)
    ensures
        !s.selecting_ended().session.selecting,
        s.selecting_ended().word is None,
        s.selecting_ended().selected == s.selected,
        s.selecting_ended().text == s.text,
        s.selected.start != s.selected.end ==> s.selecting_ended().reversed == s.reversed,
        s.selected.start == s.selected.end ==> !s.selecting_ended().reversed,
{
}

/// The pointer is over the text that the first line which it is in says. Where
/// it is in none, it is at the start of the first line that it is above, and
/// below all lines at the end of the text. An input of one line takes what is
/// closest.
pub proof fn law_pointer_finds_text(
    s: StateView,
    before: Seq<LineHit>,
    hit: LineHit,
    behind: Seq<LineHit>,
)
    requires
        s.text.len() > 0,
        !s.options.masked,
        byte_len(s.text) <= usize::MAX,
        hit.start <= byte_len(s.text),
        s.multi_line ==> forall|k: int|
            0 <= k < before.len() ==> (#[trigger] before[k]).inside is None && !before[k].above,
        s.single_line() ==> before.len() == 0,
    ensures
        ({
            let o = s.pointer_offset(Some(before.push(hit) + behind));
            &&& s.multi_line ==> (hit.inside matches Some(index) ==> (hit.start + index
                <= byte_len(s.text) ==> o == hit.start + index))
            &&& s.multi_line && hit.inside is None && hit.above ==> o == hit.start
            &&& s.multi_line && hit.inside is None && !hit.above && behind.len() == 0 ==> o
                == byte_len(s.text)
            &&& s.single_line() && hit.start + hit.closest <= byte_len(s.text) ==> o == hit.start
                + hit.closest
        }),
        s.pointer_offset(None) == 0,
    decreases before.len(),
{
    reveal_with_fuel(StateView::offset_hit, 2);
    let hits = before.push(hit) + behind;
    if before.len() == 0 {
        assert(hits[0] == hit);
        if behind.len() == 0 {
            assert(hits.skip(1) =~= Seq::empty());
        }
    } else {
        let rest = before.skip(1);
        assert(hits[0] == before[0]);
        assert(hits.skip(1) =~= rest.push(hit) + behind);
        assert forall|k: int| 0 <= k < rest.len() implies (#[trigger] rest[k]).inside is None
            && !rest[k].above by {
            assert(rest[k] == before[k + 1]);
        }
        law_pointer_finds_text(s, rest, hit, behind);
    }
}

/// The diagnostic that is shown for a place is the first whose range holds it.
pub proof fn law_diagnostic_at_place(
    s: StateView,
    before: Seq<DiagnosticView>,
    d: DiagnosticView,
    behind: Seq<DiagnosticView>,
    o: int,
)
    requires
        s.mode.diagnostics() == Some(before.push(d) + behind),
        forall|k: int|
            0 <= k < before.len() ==> !((#[trigger] before[k]).range.start <= o
                < before[k].range.end),
        d.range.start <= o < d.range.end,
    ensures
        s.diagnostic_under(o) == Some(d),
{
    lemma_diagnostic_at(before, d, behind, o);
    assert((before.push(d) + behind)[before.len() as int] == d);
}

proof fn lemma_diagnostic_at(
    before: Seq<DiagnosticView>,
    d: DiagnosticView,
    behind: Seq<DiagnosticView>,
    o: int,
)
    requires
        forall|k: int|
            0 <= k < before.len() ==> !((#[trigger] before[k]).range.start <= o
                < before[k].range.end),
        d.range.start <= o < d.range.end,
    ensures
        diagnostic_at(before.push(d) + behind, o) == before.len(),
    decreases before.len(),
{
    let all = before.push(d) + behind;
    if before.len() == 0 {
        assert(all[0] == d);
    } else {
        let rest = before.skip(1);
        assert(all[0] == before[0]);
        assert(all.skip(1) =~= rest.push(d) + behind);
        assert forall|k: int| 0 <= k < rest.len() implies !((#[trigger] rest[k]).range.start <= o
            < rest[k].range.end) by {
            assert(rest[k] == before[k + 1]);
        }
        lemma_diagnostic_at(rest, d, behind, o);
    }
}

/// The line of a selection starts where the line of its first end does.
pub proof fn law_selection_home(
    s: StateView,
    above: Seq<char>,
    line: Seq<char>,
    below: Seq<char>,
)
    requires
        s.text == above + line + below,
        is_line(above, line, below),
        s.multi_line,
        s.selected.start <= s.selected.end,
        byte_len(above) <= s.selected.start <= byte_len(above + line),
    ensures
        s.selection_home() == byte_len(above),
{
    lemma_whole_line(above, line, below);
    assert(row_of(s.text, s.selected.start as int) == line_breaks(above));
}

// ---------------------------------------------------------------------------
// Folds

/// A place on a line that is folded away is moved out of the fold: to the end
/// of the line before it, or to the start of the line that ends it. A place
/// that is not hidden stays.
pub proof fn law_folds_are_left(s: StateView, fold: FoldRange, o: int)
    requires
        s.display.folds == seq![fold],
    ensures
        ({
            let row = row_of(s.text, o) as int;
            &&& fold.start_line < row < fold.end_line ==> {
                &&& s.visible_before(o) == line_end(s.text, fold.start_line as int)
                &&& s.visible_after(o) == line_start(s.text, fold.end_line as int)
            }
            &&& !(fold.start_line < row < fold.end_line) ==> s.visible_before(o) == o
                && s.visible_after(o) == o
        }),
{
    let row = row_of(s.text, o) as int;
    let folds = s.display.folds;
    assert(folds[0] == fold);
    if fold.start_line < row < fold.end_line {
        assert(folds[0].hides(row));
        assert(s.display.hidden(row));
    }
}

/// An edit of the lines from `first` to `last` that leaves `added` line feeds
/// in their place keeps the folds before it, moves those behind it, and opens
/// those that it touches.
pub proof fn law_edits_move_folds(
    folds: Seq<FoldRange>,
    f: FoldRange,
    first: nat,
    last: nat,
    added: nat,
)
    requires
        first <= last,
        f.start_line <= f.end_line,
        f.end_line + added <= usize::MAX,
    ensures
        ({
            let before = folds_after_edit(folds, first, last, added);
            let after = folds_after_edit(folds.push(f), first, last, added);
            &&& f.end_line < first ==> after == before.push(f)
            &&& last < f.start_line ==> {
                let moved = after.last();
                &&& after == before.push(moved)
                &&& moved.start_line == f.start_line - (last - first) + added
                &&& moved.end_line == f.end_line - (last - first) + added
            }
            &&& f.end_line >= first && f.start_line <= last ==> after == before
        }),
{
    assert(folds.push(f).drop_last() =~= folds);
}

} // verus!
