//! What the keys that edit do to the text.
use crate::actions::Enter;
use crate::context::{ContextView, Effect, InputEvent, Window};
use crate::edit::Verdicts;
use crate::mask_pattern::number_normalized;
use crate::motion_laws::{aims_at, law_edit_replaces, lemma_between, rests_behind};
use crate::navigate::indent_of;
use crate::selection::Selection;
use crate::state::StateView;
use crate::strings::white_space;
use crate::text::{
    byte_len, index_at, lemma_line_breaks_mono, lemma_line_index, lemma_measure_concat,
    lemma_utf16_narrower, line_breaks, line_end, line_index, line_start, row_of, Unit,
};
use vstd::prelude::*;

verus! {

// ---------------------------------------------------------------------------
// Lines

/// Whether `line` is a whole line of the text `above + line + below`.
pub open spec fn is_line(above: Seq<char>, line: Seq<char>, below: Seq<char>) -> bool {
    &&& above.len() == 0 || above.last() == '\n'
    &&& !line.contains('\n')
    &&& below.len() == 0 || below[0] == '\n'
}

proof fn lemma_breaks_concat(a: Seq<char>, b: Seq<char>)
    ensures
        line_breaks(a + b) == line_breaks(a) + line_breaks(b),
    decreases b.len(),
{
    if b.len() == 0 {
        assert(a + b =~= a);
    } else {
        assert((a + b).drop_last() =~= a + b.drop_last());
        lemma_breaks_concat(a, b.drop_last());
    }
}

proof fn lemma_no_breaks(line: Seq<char>)
    requires
        !line.contains('\n'),
    ensures
        line_breaks(line) == 0,
    decreases line.len(),
{
    if line.len() > 0 {
        assert(line.contains(line.last()));
        assert forall|c: char| line.drop_last().contains(c) implies line.contains(c) by {
            let k = choose|k: int| 0 <= k < line.len() - 1 && line.drop_last()[k] == c;
            assert(line[k] == c);
        }
        lemma_no_breaks(line.drop_last());
    }
}

/// The line that starts behind `above` starts there.
proof fn lemma_line_starts(above: Seq<char>, rest: Seq<char>)
    requires
        above.len() == 0 || above.last() == '\n',
    ensures
        line_index(above + rest, line_breaks(above) as int) == above.len(),
        line_start(above + rest, line_breaks(above) as int) == byte_len(above),
{
    let s = above + rest;
    let row = line_breaks(above) as int;
    let n = above.len() as int;
    assert(s.take(n) =~= above);
    if n > 0 {
        assert(above =~= above.drop_last().push('\n'));
        assert(s.take(n - 1) =~= above.drop_last());
        lemma_breaks_concat(above, rest);
        lemma_line_index(s, row);
        let k = line_index(s, row);
        if k < n {
            lemma_line_breaks_mono(s, k, n - 1);
        } else if n < k {
            lemma_line_breaks_mono(s, n, k - 1);
            assert(s.take(k).drop_last() =~= s.take(k - 1));
        }
    }
}

/// A whole line: where it starts and ends, and which offsets lie on it.
pub proof fn lemma_whole_line(above: Seq<char>, line: Seq<char>, below: Seq<char>)
    requires
        is_line(above, line, below),
    ensures
        ({
            let s = above + line + below;
            let row = line_breaks(above) as int;
            &&& line_start(s, row) == byte_len(above)
            &&& line_end(s, row) == byte_len(above + line)
            &&& forall|o: int|
                byte_len(above) <= o <= byte_len(above + line) ==> #[trigger] row_of(s, o) == row
        }),
{
    let s = above + line + below;
    let row = line_breaks(above) as int;
    assert(s =~= above + (line + below));
    lemma_line_starts(above, line + below);
    lemma_no_breaks(line);
    lemma_breaks_concat(above, line);
    lemma_breaks_concat(above + line, below);
    lemma_between(above, line + below);
    lemma_between(above + line, below);
    if below.len() > 0 {
        let upto = above + line + seq!['\n'];
        let rest = below.skip(1);
        assert(s =~= upto + rest);
        assert(upto.drop_last() =~= above + line);
        lemma_line_starts(upto, rest);
        lemma_breaks_concat(seq!['\n'], rest);
        assert(below =~= seq!['\n'] + rest);
        assert(seq!['\n'].drop_last() =~= Seq::<char>::empty());
        assert(line_breaks(seq!['\n']) == 1) by {
            reveal_with_fuel(line_breaks, 2);
        }
    } else {
        assert(s =~= above + line);
    }
    assert forall|o: int| byte_len(above) <= o <= byte_len(above + line) implies #[trigger] row_of(
        s,
        o,
    ) == row by {
        crate::text::lemma_floor_mono(Unit::Utf8, s, byte_len(above) as int, o);
        crate::text::lemma_floor_mono(Unit::Utf8, s, o, byte_len(above + line) as int);
        let k = index_at(s, o);
        lemma_line_breaks_mono(s, above.len() as int, k);
        lemma_line_breaks_mono(s, k, (above + line).len() as int);
        assert(s.take(above.len() as int) =~= above);
        assert(s.take((above + line).len() as int) =~= above + line);
    }
}

/// Home and End go to the ends of the line of the cursor, where it is not wrapped.
pub proof fn law_home_and_end(s: StateView, above: Seq<char>, line: Seq<char>, below: Seq<char>)
    requires
        s.text == above + line + below,
        is_line(above, line, below),
        s.multi_line,
        byte_len(above) <= s.cursor() <= byte_len(above + line),
        s.visual_line() is None,
    ensures
        s.line_home() == byte_len(above),
        s.line_tail() == byte_len(above + line),
{
    lemma_whole_line(above, line, below);
    assert(row_of(s.text, s.cursor() as int) == line_breaks(above));
}

// ---------------------------------------------------------------------------
// Enter

/// Whether a line begins with `lead`, all of it white space, and goes on with
/// something else or ends there.
pub open spec fn leads(line: Seq<char>, lead: Seq<char>) -> bool {
    &&& lead.len() <= line.len()
    &&& line.take(lead.len() as int) == lead
    &&& forall|k: int| 0 <= k < lead.len() ==> is_blank(#[trigger] lead[k])
    &&& lead.len() < line.len() ==> !is_blank(line[lead.len() as int])
}

pub open spec fn is_blank(c: char) -> bool {
    white_space(c) && c != '\n' && c != '\r'
}

proof fn lemma_lead(line: Seq<char>, below: Seq<char>, lead: Seq<char>)
    requires
        leads(line, lead),
        below.len() == 0 || below[0] == '\n',
    ensures
        indent_of(line + below) == lead,
    decreases lead.len(),
{
    let s = line + below;
    if lead.len() > 0 {
        let rest = line.skip(1);
        assert(s[0] == line[0] && line[0] == line.take(lead.len() as int)[0]);
        assert(is_blank(lead[0]));
        assert(s.skip(1) =~= rest + below);
        assert(rest.take(lead.len() - 1) =~= lead.skip(1));
        assert forall|k: int| 0 <= k < lead.skip(1).len() implies is_blank(
            #[trigger] lead.skip(1)[k],
        ) by {
            assert(is_blank(lead[k + 1]));
        }
        lemma_lead(rest, below, lead.skip(1));
        assert(seq![lead[0]] + lead.skip(1) =~= lead);
    } else {
        assert(lead =~= Seq::empty());
        if line.len() > 0 {
            assert(s[0] == line[0]);
        }
    }
}

/// A new line gets the white space that the line of the cursor begins with,
/// or that of the line below it, where that is longer.
pub proof fn law_new_line_is_indented(
    s: StateView,
    above: Seq<char>,
    line: Seq<char>,
    lead: Seq<char>,
    next: Seq<char>,
    next_lead: Seq<char>,
    below: Seq<char>,
)
    requires
        s.multi_line,
        s.text == above + line + (seq!['\n'] + next + below),
        is_line(above, line, seq!['\n'] + next + below),
        is_line(above + line + seq!['\n'], next, below),
        byte_len(above) <= s.cursor() <= byte_len(above + line),
        leads(line, lead),
        leads(next, next_lead),
    ensures
        s.new_line_indent() == if byte_len(next_lead) > byte_len(lead) {
            next_lead
        } else {
            lead
        },
{
    let rest = seq!['\n'] + next + below;
    lemma_whole_line(above, line, rest);
    let row = line_breaks(above) as int;
    assert(row_of(s.text, s.cursor() as int) == row);
    lemma_between(above, line + rest);
    assert(s.text =~= above + (line + rest));
    assert(s.text.skip(above.len() as int) =~= line + rest);
    lemma_lead(line, rest, lead);
    let upto = above + line + seq!['\n'];
    assert(s.text =~= upto + next + below);
    assert(s.text =~= upto + (next + below));
    lemma_whole_line(upto, next, below);
    lemma_between(upto, next + below);
    assert(s.text.skip(upto.len() as int) =~= next + below);
    lemma_lead(next, below, next_lead);
    lemma_no_breaks(line);
    lemma_breaks_concat(above, line);
    lemma_breaks_concat(above + line, seq!['\n']);
    assert(line_breaks(seq!['\n']) == 1) by {
        reveal_with_fuel(line_breaks, 2);
    }
    lemma_breaks_concat(upto, next + below);
}

/// On the last line, a new line gets the white space that this line begins with.
pub proof fn law_last_line_is_indented(
    s: StateView,
    above: Seq<char>,
    line: Seq<char>,
    lead: Seq<char>,
)
    requires
        s.multi_line,
        s.text == above + line,
        is_line(above, line, Seq::empty()),
        byte_len(above) <= s.cursor() <= byte_len(above + line),
        leads(line, lead),
    ensures
        s.new_line_indent() == lead,
{
    let none = Seq::<char>::empty();
    assert(s.text =~= above + line + none);
    lemma_whole_line(above, line, none);
    assert(row_of(s.text, s.cursor() as int) == line_breaks(above));
    lemma_between(above, line);
    assert(s.text.skip(above.len() as int) =~= line + none);
    lemma_lead(line, none, lead);
    lemma_no_breaks(line);
    lemma_breaks_concat(above, line);
    assert(byte_len(none) == 0);
}

proof fn lemma_blanks_put_in(s: StateView, indent: Seq<char>)
    requires
        s.multi_line,
        forall|k: int| 0 <= k < indent.len() ==> is_blank(#[trigger] indent[k]),
    ensures
        s.normalized(seq!['\n'] + indent) == seq!['\n'] + indent,
{
    let t = seq!['\n'] + indent;
    assert forall|k: int| 0 <= k < t.len() implies t[k] == number_normalized(t)[k] by {
        if k > 0 {
            assert(is_blank(indent[k - 1]));
        }
    }
    assert(number_normalized(t) =~= t);
}

proof fn lemma_indent_blank(s: Seq<char>)
    ensures
        forall|k: int| 0 <= k < indent_of(s).len() ==> is_blank(#[trigger] indent_of(s)[k]),
        indent_of(s).len() <= s.len(),
        byte_len(indent_of(s)) <= byte_len(s),
    decreases s.len(),
{
    if s.len() > 0 {
        lemma_indent_blank(s.skip(1));
        let rest = indent_of(s.skip(1));
        lemma_measure_concat(Unit::Utf8, seq![s[0]], rest);
        lemma_measure_concat(Unit::Utf8, seq![s[0]], s.skip(1));
        assert(seq![s[0]] + s.skip(1) =~= s);
    }
}

/// Enter with Shift replaces the selection of an input of several lines by a
/// line feed, with an indent of white space in a code editor, whether or not
/// Enter submits; without Shift it does so exactly where Enter does not
/// submit. Where it does not, the text and the selection stay, and the key is
/// handed on. The subscribers are told of the key either way.
pub proof fn law_enter_breaks_the_line(
    s: StateView,
    action: Enter,
    window: Window,
    a: Seq<char>,
    old: Seq<char>,
    b: Seq<char>,
    v: Verdicts,
    cx: ContextView,
)
    requires
        s.text == a + old + b,
        aims_at(s, None, a, old),
        s.editable(),
        s.multi_line,
        !window.menu_handles_action,
        2 * byte_len(s.text) + 1 <= usize::MAX,
    ensures
        ({
            let after = s.entered(action, v, window);
            let asked = s.entered_asks(action, v, window, cx);
            let indent = if s.code_editor {
                s.new_line_indent()
            } else {
                Seq::empty()
            };
            let submits = s.options.submit_on_enter && !action.shift;
            &&& !submits ==> {
                &&& after.text == a + seq!['\n'] + indent + b
                &&& after.selected.start == byte_len(a + seq!['\n'] + indent)
                &&& after.selected.end == byte_len(a + seq!['\n'] + indent)
                &&& after.ime is None
                &&& forall|k: int|
                    cx.effects.len() <= k < asked.effects.len() ==> #[trigger] asked.effects[k]
                        != Effect::Propagate
            }
            &&& submits ==> {
                &&& after.text == s.text
                &&& after.selected == s.selected
                &&& after.ime == s.ime
                &&& asked.effects[asked.effects.len() - 2] == Effect::Propagate
            }
            &&& asked.effects.len() > cx.effects.len()
            &&& asked.effects.last() == Effect::Emit(
                InputEvent::PressEnter { secondary: action.secondary, shift: action.shift },
            )
        }),
{
    let after = s.entered(action, v, window);
    let indent = if s.code_editor {
        s.new_line_indent()
    } else {
        Seq::empty()
    };
    if !s.options.submit_on_enter || action.shift {
        let t = seq!['\n'] + indent;
        lemma_indent_put_in(s);
        assert(s.entered_text() == t);
        let q = s.silenced(true);
        assert(q.normalized(t) == t);
        assert(!q.rejects(None, t, v));
        law_edit_replaces(q, None, a, old, b, t, v);
        assert(a + t + b =~= a + seq!['\n'] + indent + b);
        assert(a + t =~= a + seq!['\n'] + indent);
        lemma_edit_hands_nothing_on(
            q,
            t,
            v,
            window,
            cx.ask_if(window.inline_completion, Effect::ClearInlineCompletion),
        );
    }
}

proof fn lemma_indent_put_in(s: StateView)
    requires
        s.multi_line,
        2 * byte_len(s.text) + 1 <= usize::MAX,
    ensures
        s.normalized(s.entered_text()) == s.entered_text(),
        byte_len(s.text) + byte_len(s.entered_text()) <= usize::MAX,
{
    let row = row_of(s.text, s.cursor() as int) as int;
    let i = index_at(s.text, line_start(s.text, row));
    let j = index_at(s.text, line_start(s.text, row + 1));
    crate::text::lemma_line(s.text, row);
    crate::text::lemma_line(s.text, row + 1);
    crate::text::lemma_clip(s.text, line_start(s.text, row));
    crate::text::lemma_clip(s.text, line_start(s.text, row + 1));
    lemma_indent_within(s.text, i);
    lemma_indent_within(s.text, j);
    let none = Seq::<char>::empty();
    assert(byte_len(none) == 0);
    let indent = if s.code_editor {
        s.new_line_indent()
    } else {
        none
    };
    lemma_blanks_put_in(s, indent);
    lemma_measure_concat(Unit::Utf8, seq!['\n'], indent);
    assert(byte_len(seq!['\n']) == 1) by {
        reveal_with_fuel(crate::text::measure, 2);
    }
}

proof fn lemma_indent_within(s: Seq<char>, i: int)
    requires
        0 <= i <= s.len(),
    ensures
        byte_len(indent_of(s.skip(i))) <= byte_len(s),
        forall|k: int|
            0 <= k < indent_of(s.skip(i)).len() ==> is_blank(#[trigger] indent_of(s.skip(i))[k]),
{
    lemma_indent_blank(s.skip(i));
    lemma_measure_concat(Unit::Utf8, s.take(i), s.skip(i));
    assert(s.take(i) + s.skip(i) =~= s);
}

/// An edit asks for nothing to be handed on.
proof fn lemma_edit_hands_nothing_on(
    s: StateView,
    t: Seq<char>,
    v: Verdicts,
    window: Window,
    cx: ContextView,
)
    ensures
        ({
            let asked = s.replaced_asks(None, t, v, window, cx);
            &&& asked.effects.len() >= cx.effects.len()
            &&& forall|k: int| 0 <= k < cx.effects.len() ==> asked.effects[k] == cx.effects[k]
            &&& forall|k: int|
                cx.effects.len() <= k < asked.effects.len() ==> #[trigger] asked.effects[k]
                    != Effect::Propagate
        }),
{
    reveal(StateView::replaced_asks);
}

// ---------------------------------------------------------------------------
// Deleting more

proof fn lemma_span_aims(s: StateView, a: Seq<char>, x: Seq<char>, b: Seq<char>)
    requires
        s.text == a + x + b,
        byte_len(s.text) <= usize::MAX,
    ensures
        aims_at(s, Some(s.span_utf16(byte_len(a) as int, byte_len(a + x) as int)), a, x),
        aims_at(s, Some(s.span_utf16(byte_len(a + x) as int, byte_len(a) as int)), a, x),
{
    assert(s.text =~= a + (x + b));
    lemma_between(a, x + b);
    lemma_between(a + x, b);
    assert(s.text.take(a.len() as int) =~= a);
    assert(s.text.take((a + x).len() as int) =~= a + x);
    lemma_measure_concat(Unit::Utf8, a, x);
    lemma_utf16_narrower(a);
    lemma_utf16_narrower(a + x);
}

/// Deleting up to another place, where nothing is selected, takes out what
/// lies between it and the cursor, before or behind; the cursor is where that was.
pub proof fn law_delete_takes_span(
    s: StateView,
    a: Seq<char>,
    x: Seq<char>,
    b: Seq<char>,
    v: Verdicts,
)
    requires
        s.text == a + x + b,
        byte_len(s.text) <= usize::MAX,
        s.editable(),
        s.single_line() ==> s.mask is Plain && s.validate is None && s.pattern is None,
        s.selected.start == s.selected.end,
    ensures
        s.selected.end == byte_len(a + x) ==> {
            let after = s.deleted_span(byte_len(a) as int, v);
            after.text == a + b && after.selected.start == byte_len(a) && after.selected.end
                == byte_len(a)
        },
        s.selected.end == byte_len(a) ==> {
            let after = s.deleted_span(byte_len(a + x) as int, v);
            after.text == a + b && after.selected.start == byte_len(a) && after.selected.end
                == byte_len(a)
        },
{
    let none = Seq::<char>::empty();
    let q = s.silenced(true);
    assert(number_normalized(none) =~= none);
    assert(q.normalized(none) == none);
    assert(byte_len(none) == 0);
    lemma_span_aims(q, a, x, b);
    assert(a + none =~= a);
    let before = Some(s.span_utf16(byte_len(a) as int, byte_len(a + x) as int));
    let behind = Some(s.span_utf16(byte_len(a + x) as int, byte_len(a) as int));
    law_edit_replaces(q, before, a, x, b, none, v);
    law_edit_replaces(q, behind, a, x, b, none, v);
}

/// Deleting to the beginning or to the end of the line takes out what of the
/// line stands on that side of the cursor, where something does and the line
/// is not wrapped.
pub proof fn law_delete_takes_rest_of_line(
    s: StateView,
    above: Seq<char>,
    x: Seq<char>,
    y: Seq<char>,
    below: Seq<char>,
    v: Verdicts,
)
    requires
        s.text == above + (x + y) + below,
        is_line(above, x + y, below),
        s.multi_line,
        byte_len(s.text) <= usize::MAX,
        rests_behind(s, above + x),
        s.visual_line() is None,
        s.editable(),
    ensures
        x.len() > 0 ==> s.deleted_span(s.delete_home(), v).text == above + y + below,
        y.len() > 0 ==> s.deleted_span(s.delete_tail(), v).text == above + x + below,
{
    lemma_measure_concat(Unit::Utf8, above, x + y);
    lemma_measure_concat(Unit::Utf8, above, x);
    lemma_measure_concat(Unit::Utf8, x, y);
    law_home_and_end(s, above, x + y, below);
    assert(s.text =~= above + x + (y + below));
    assert(s.text =~= (above + x) + y + below);
    if x.len() > 0 {
        crate::text::lemma_measure_bounds(Unit::Utf8, x);
        law_delete_takes_span(s, above, x, y + below, v);
        assert(above + (y + below) =~= above + y + below);
    }
    if y.len() > 0 {
        crate::text::lemma_measure_bounds(Unit::Utf8, y);
        law_delete_takes_span(s, above + x, y, below, v);
        assert(above + (x + y) =~= above + x + y);
    }
}

/// At the beginning of a line, deleting to it takes out the line feed before,
/// and at the end of a line, deleting to it takes out the one behind: the
/// lines are joined.
pub proof fn law_delete_joins_lines(
    s: StateView,
    above: Seq<char>,
    line: Seq<char>,
    below: Seq<char>,
    v: Verdicts,
)
    requires
        s.text == above + line + below,
        is_line(above, line, below),
        s.multi_line,
        byte_len(s.text) <= usize::MAX,
        s.visual_line() is None,
        s.editable(),
    ensures
        rests_behind(s, above) && above.len() > 0 ==> s.deleted_span(s.delete_home(), v).text
            == above.drop_last() + line + below,
        rests_behind(s, above + line) && below.len() > 0 ==> s.deleted_span(
            s.delete_tail(),
            v,
        ).text == above + line + below.skip(1),
{
    lemma_measure_concat(Unit::Utf8, above, line);
    lemma_measure_concat(Unit::Utf8, above + line, below);
    let feed = seq!['\n'];
    assert(byte_len(feed) == 1) by {
        reveal_with_fuel(crate::text::measure, 2);
    }
    if rests_behind(s, above) && above.len() > 0 {
        law_home_and_end(s, above, line, below);
        let a = above.drop_last();
        assert(above =~= a + feed);
        lemma_measure_concat(Unit::Utf8, a, feed);
        assert(s.text =~= a + feed + (line + below));
        law_delete_takes_span(s, a, feed, line + below, v);
        assert(a + (line + below) =~= a + line + below);
    }
    if rests_behind(s, above + line) && below.len() > 0 {
        law_home_and_end(s, above, line, below);
        let b = below.skip(1);
        assert(below =~= feed + b);
        lemma_measure_concat(Unit::Utf8, feed, b);
        assert(s.text =~= above + line + feed + b);
        lemma_measure_concat(Unit::Utf8, above + line, feed);
        law_delete_takes_span(s, above + line, feed, b, v);
    }
}

/// Where something is selected, all keys that delete take out just that, and
/// the cursor is where it was.
pub proof fn law_deleting_takes_selection(
    s: StateView,
    a: Seq<char>,
    x: Seq<char>,
    b: Seq<char>,
    o: int,
    v: Verdicts,
)
    requires
        s.text == a + x + b,
        x.len() > 0,
        s.selected.start == byte_len(a),
        s.selected.end == byte_len(a + x),
        s.ime is None,
        byte_len(s.text) <= usize::MAX,
        s.editable(),
        s.single_line() ==> s.mask is Plain && s.validate is None && s.pattern is None,
    ensures
        taken_out(s.backspace_base().replaced(None, Seq::empty(), v), a, b),
        taken_out(s.delete_base().replaced(None, Seq::empty(), v), a, b),
        taken_out(s.deleted_span(o, v), a, b),
{
    let none = Seq::<char>::empty();
    assert(number_normalized(none) =~= none);
    assert(byte_len(none) == 0);
    crate::text::lemma_measure_bounds(Unit::Utf8, x);
    lemma_measure_concat(Unit::Utf8, a, x);
    assert(a + none =~= a);
    let q = s.backspace_base();
    let r = s.delete_base();
    assert(q.normalized(none) == none && r.normalized(none) == none && s.normalized(none) == none);
    law_edit_replaces(q, None, a, x, b, none, v);
    law_edit_replaces(r, None, a, x, b, none, v);
    law_edit_replaces(s, None, a, x, b, none, v);
}

/// Whether `a` and `b` are left of a text, with the cursor between them.
pub open spec fn taken_out(s: StateView, a: Seq<char>, b: Seq<char>) -> bool {
    &&& s.text == a + b
    &&& s.selected.start == byte_len(a)
    &&& s.selected.end == byte_len(a)
}

/// In an input of one line, Enter leaves the text and is handed on; where a
/// menu takes it, nothing happens at all.
pub proof fn law_enter_without_lines(
    s: StateView,
    action: Enter,
    window: Window,
    v: Verdicts,
    cx: ContextView,
)
    ensures
        window.menu_handles_action ==> s.entered(action, v, window) == s && s.entered_asks(
            action,
            v,
            window,
            cx,
        ) == cx,
        s.single_line() ==> {
            let after = s.entered(action, v, window);
            after.text == s.text && after.selected == s.selected
        },
        s.single_line() && !window.menu_handles_action ==> {
            let asked = s.entered_asks(action, v, window, cx);
            &&& asked.effects[asked.effects.len() - 2] == Effect::Propagate
            &&& asked.effects.last() == Effect::Emit(
                InputEvent::PressEnter { secondary: action.secondary, shift: action.shift },
            )
        },
{
}

// ---------------------------------------------------------------------------
// Selecting

/// The end of the selection that does not move.
pub open spec fn anchor(s: StateView) -> usize {
    if s.reversed {
        s.selected.end
    } else {
        s.selected.start
    }
}

/// Selecting up to a place keeps the end where the selection started, and
/// moves the other one there, in either direction; the cursor is at the end
/// that moved. Moving to a place selects nothing.
pub proof fn law_selecting_keeps_anchor(s: StateView, o: int)
    requires
        0 <= o <= byte_len(s.text) <= usize::MAX,
        s.word is None,
        s.ime is None,
    ensures
        ({
            let after = s.selected_to(o);
            let from = anchor(s);
            &&& from <= o ==> after.selected.start == from && after.selected.end == o
            &&& o <= from ==> after.selected.start == o && after.selected.end == from
            &&& after.cursor() == o
            &&& o != from ==> anchor(after) == from
            &&& after.text == s.text
        }),
        s.moved_to(o).selected.start == o,
        s.moved_to(o).selected.end == o,
        s.moved_to(o).cursor() == o,
        s.moved_to(o).text == s.text,
{
}

/// Selecting with the pointer from a word never selects less than the word:
/// the selection goes from its far end to the place.
pub proof fn law_selecting_keeps_word(s: StateView, o: int, w: Selection)
    requires
        0 <= o <= byte_len(s.text) <= usize::MAX,
        s.word == Some(w),
        w.start <= w.end,
        s.selected == w,
        !s.reversed,
    ensures
        ({
            let after = s.selected_to(o);
            &&& w.start <= o <= w.end ==> after.selected == w
            &&& o > w.end ==> after.selected.start == w.start && after.selected.end == o
            &&& o < w.start ==> after.selected.start == o && after.selected.end == w.end
            &&& after.text == s.text
        }),
{
}

/// The selected text is what stands between the ends of the selection.
pub proof fn law_selection_text(s: StateView, a: Seq<char>, x: Seq<char>, b: Seq<char>)
    requires
        s.text == a + x + b,
        s.selected.start == byte_len(a),
        s.selected.end == byte_len(a + x),
    ensures
        s.selection_text() == x,
{
    assert(s.text =~= a + (x + b));
    lemma_between(a, x + b);
    lemma_between(a + x, b);
    assert(s.text.subrange(a.len() as int, (a + x).len() as int) =~= x);
}

} // verus!
