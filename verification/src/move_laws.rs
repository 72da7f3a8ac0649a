//! Where the keys and the pointer take the cursor and the selection, and what the clipboard gets.
use crate::context::{ContextView, Effect, InputEvent, PixelPoint, Window};
use crate::edit::{Verdict, Verdicts};
use crate::history::{utf16_range, Step};
use crate::key_laws::{is_line, law_home_and_end, law_selection_text};
use crate::motion_laws::{
    aims_at, law_edit_replaces, law_next_is_behind_char, law_next_stays_at_end,
    law_previous_is_before_char, law_previous_stays_at_start, lemma_aimed, lemma_between,
};
use crate::mouse::{LineHit, MouseButton, MouseDown};
use crate::navigate::{moved_asks, selected_asks};
use crate::state::StateView;
use crate::text::{byte_len, line_breaks};
use core::ops::Range;
use vstd::prelude::*;

verus! {

// ---------------------------------------------------------------------------
// Keys

/// The left key goes from behind a `char` to before it, and from a selection
/// to where the selection starts, whichever end the cursor is at.
pub proof fn law_left_key(s: StateView, a: Seq<char>, c: char, x: Seq<char>, b: Seq<char>)
    requires
        s.text == a + seq![c] + x + b,
        s.selected.start == byte_len(a + seq![c]),
        s.selected.end == byte_len(a + seq![c] + x),
        c != '\r',
        !s.display.hidden(line_breaks(a) as int),
    ensures
        ({
            let after = s.moved_to(s.left_place());
            let at = if x.len() == 0 {
                byte_len(a)
            } else {
                byte_len(a + seq![c])
            };
            &&& after.text == s.text
            &&& after.selected.start == at
            &&& after.selected.end == at
        }),
{
    assert(s.text =~= a + seq![c] + (x + b));
    law_previous_is_before_char(s, a, c, x + b);
    lemma_between(a + seq![c], x);
    lemma_between(a + seq![c], x + b);
    crate::text::lemma_measure_bounds(crate::text::Unit::Utf8, x);
    if x.len() == 0 {
        assert(a + seq![c] + x =~= a + seq![c]);
    }
}

/// Selecting upwards goes to before the last `char` of the line before. On
/// the first line it goes to the start of the text.
pub proof fn law_up_key(
    s: StateView,
    p: Seq<char>,
    c: char,
    line: Seq<char>,
    below: Seq<char>,
)
    requires
        s.multi_line,
        s.visual_line() is None,
    ensures
        s.text == p + seq![c] + seq!['\n'] + line + below && is_line(
            p + seq![c] + seq!['\n'],
            line,
            below,
        ) && byte_len(p + seq![c] + seq!['\n']) <= s.cursor() <= byte_len(
            p + seq![c] + seq!['\n'] + line,
        ) && c != '\r' && !s.display.hidden(line_breaks(p) as int) ==> s.up_place() == byte_len(p),
        s.text == line + below && is_line(Seq::empty(), line, below) && s.cursor() <= byte_len(line)
            && !s.display.hidden(0) ==> s.up_place() == 0,
{
    let above = p + seq![c] + seq!['\n'];
    if s.text == above + line + below && is_line(above, line, below) && byte_len(above)
        <= s.cursor() <= byte_len(above + line) {
        law_home_and_end(s, above, line, below);
        let rest = seq!['\n'] + line + below;
        assert(s.text =~= p + seq![c] + rest);
        law_previous_is_before_char(s, p, c, rest);
        assert(above =~= (p + seq![c]) + seq!['\n']);
        crate::motion_laws::lemma_around(p + seq![c], '\n', Seq::empty());
    }
    let none = Seq::<char>::empty();
    if s.text == line + below && is_line(none, line, below) && s.cursor() <= byte_len(line) {
        assert(none + line =~= line);
        assert(none + line + below =~= line + below);
        assert(byte_len(none) == 0);
        law_home_and_end(s, none, line, below);
        if !s.display.hidden(0) {
            law_previous_stays_at_start(s);
        }
    }
}

/// Selecting downwards goes to behind the first `char` of the line behind.
/// On the last line it goes to the end of the text.
pub proof fn law_down_key(
    s: StateView,
    above: Seq<char>,
    line: Seq<char>,
    c: char,
    rest: Seq<char>,
)
    requires
        s.multi_line,
        s.visual_line() is None,
        byte_len(above) <= s.cursor() <= byte_len(above + line),
    ensures
        s.text == above + line + (seq!['\n'] + seq![c] + rest) && is_line(
            above,
            line,
            seq!['\n'] + seq![c] + rest,
        ) && (rest.len() == 0 || rest[0] != '\r') && !s.display.hidden(
            line_breaks(above + line + seq!['\n'] + seq![c]) as int,
        ) ==> s.down_place() == byte_len(above + line + seq!['\n'] + seq![c]),
        s.text == above + line && is_line(above, line, Seq::empty()) && !s.display.hidden(
            line_breaks(s.text) as int,
        ) ==> s.down_place() == byte_len(s.text),
{
    let below = seq!['\n'] + seq![c] + rest;
    if s.text == above + line + below && is_line(above, line, below) {
        law_home_and_end(s, above, line, below);
        let start = above + line + seq!['\n'];
        assert(s.text =~= start + seq![c] + rest);
        law_next_is_behind_char(s, start, c, rest);
        crate::motion_laws::lemma_around(above + line, '\n', seq![c] + rest);
        lemma_between(start, seq![c] + rest);
        assert(s.text =~= start + (seq![c] + rest));
        assert(s.text =~= (above + line) + seq!['\n'] + (seq![c] + rest));
    }
    let none = Seq::<char>::empty();
    if s.text == above + line && is_line(above, line, none) {
        assert(above + line + none =~= above + line);
        law_home_and_end(s, above, line, none);
        if !s.display.hidden(line_breaks(s.text) as int) {
            law_next_stays_at_end(s);
        }
    }
}

/// Selecting all selects every `char` of the text; selecting nothing leaves
/// the cursor where it was. Neither changes the text or its history.
pub proof fn law_all_and_nothing(s: StateView)
    requires
        byte_len(s.text) <= usize::MAX,
    ensures
        ({
            let all = s.all_selected();
            let nothing = s.unselected();
            &&& all.selection_text() == s.text
            &&& all.text == s.text
            &&& all.undo.undos == s.undo.undos && all.undo.redos == s.undo.redos
            &&& nothing.selects_nothing()
            &&& nothing.cursor() == s.cursor()
            &&& nothing.text == s.text
            &&& nothing.undo.undos == s.undo.undos && nothing.undo.redos == s.undo.redos
            &&& all.unselected().text == s.text
        }),
{
    let none = Seq::<char>::empty();
    assert(none + s.text + none =~= s.text);
    assert(none + s.text =~= s.text);
    law_selection_text(s.all_selected(), none, s.text, none);
}

// ---------------------------------------------------------------------------
// The clipboard

/// Copying puts what is selected on the clipboard, and asks for nothing else.
/// Where nothing is selected, the clipboard stays as it is.
pub proof fn law_copying(s: StateView, a: Seq<char>, x: Seq<char>, b: Seq<char>, cx: ContextView)
    requires
        s.text == a + x + b,
        s.selected.start == byte_len(a),
        s.selected.end == byte_len(a + x),
    ensures
        ({
            let after = s.copied(cx);
            &&& x.len() > 0 ==> after.clipboard == Some(x)
            &&& x.len() == 0 ==> after.clipboard == cx.clipboard
            &&& after.effects == cx.effects
            &&& after.typed == cx.typed
        }),
{
    law_selection_text(s, a, x, b);
    lemma_between(a, x);
    crate::text::lemma_measure_bounds(crate::text::Unit::Utf8, x);
    assert(x.len() == 0 ==> a + x =~= a);
}

/// Cutting takes what is selected out and leaves the cursor where it was;
/// pasting what was cut gives the text back.
pub proof fn law_cut_and_paste(
    s: StateView,
    a: Seq<char>,
    x: Seq<char>,
    b: Seq<char>,
    v: Verdicts,
    w: Verdicts,
    cx: ContextView,
)
    requires
        s.text == a + x + b,
        s.selected.start == byte_len(a),
        s.selected.end == byte_len(a + x),
        x.len() > 0,
        s.ime is None,
        s.editable(),
        s.multi_line,
        !(s.mask is Number),
        byte_len(s.text) <= usize::MAX,
    ensures
        ({
            let cut = s.put_in(Seq::empty(), v);
            &&& cut.text == a + b
            &&& cut.selected.start == byte_len(a)
            &&& cut.selected.end == byte_len(a)
            &&& s.copied(cx).clipboard matches Some(t) && {
                let pasted = cut.put_in(t, w);
                &&& pasted.text == s.text
                &&& pasted.selected.start == byte_len(a + x)
                &&& pasted.selected.end == byte_len(a + x)
            }
        }),
{
    law_copying(s, a, x, b, cx);
    let none = Seq::<char>::empty();
    let q = s.intending(crate::undo_manager::EditIntent::Atomic).silenced(true);
    let cut = s.put_in(none, v);
    lemma_between(a, x);
    lemma_between(a + x, b);
    lemma_between(a, b);
    assert(aims_at(q, None, a, x));
    assert(q.fits(none));
    law_edit_replaces(q, None, a, x, b, none, v);
    assert(a + none + b =~= a + b);
    assert(a + none =~= a);
    let r = cut.intending(crate::undo_manager::EditIntent::Atomic).silenced(true);
    lemma_kept(q, none, v);
    assert(cut.text =~= a + none + b);
    assert(aims_at(r, None, a, none));
    assert(r.fits(x));
    law_edit_replaces(r, None, a, none, b, x, w);
}

proof fn lemma_kept(s: StateView, t: Seq<char>, v: Verdicts)
    ensures
        ({
            let after = s.replaced(None, t, v);
            &&& after.options == s.options
            &&& after.multi_line == s.multi_line
            &&& after.mask == s.mask
        }),
{
    reveal(StateView::replaced);
}

// ---------------------------------------------------------------------------
// The pointer

/// A press of the left button starts a selection: dragging the pointer from
/// there selects up to it, from where the button was pressed. Once it is let
/// go, or where the input has no focus, moving the pointer selects nothing.
pub proof fn law_dragging(
    s: StateView,
    event: MouseDown,
    o: int,
    hits: Seq<LineHit>,
    window: Window,
    button: MouseButton,
)
    requires
        s.text.len() > 0,
        s.ime is None,
        s.word is None,
        !s.reversed,
        0 <= o <= byte_len(s.text) <= usize::MAX,
        0 <= s.pointer_offset(Some(hits)) <= byte_len(s.text),
        event.button == MouseButton::Left,
        event.click_count == 1,
        !event.shift,
        !window.click_handled,
    ensures
        ({
            let pressed = s.clicked(event, o, window);
            let p = s.pointer_offset(Some(hits));
            let after = pressed.dragged(Some(hits), window);
            &&& window.focused ==> {
                &&& p >= o ==> after.selected.start == o && after.selected.end == p
                &&& p <= o ==> after.selected.start == p && after.selected.end == o
                &&& after.cursor() == p
            }
            &&& !window.focused ==> after == pressed
            &&& after.text == s.text
            &&& pressed.dragged(None, window) == pressed
            &&& after.selecting_ended().dragged(Some(hits), window) == after.selecting_ended()
        }),
{
    reveal_with_fuel(StateView::offset_hit, 2);
    let pressed = s.clicked(event, o, window);
    lemma_same_hits(s, pressed, hits);
}

proof fn lemma_same_hits(s: StateView, t: StateView, hits: Seq<LineHit>)
    requires
        s.text == t.text,
        s.options == t.options,
        s.multi_line == t.multi_line,
    ensures
        s.offset_hit(hits) == t.offset_hit(hits),
    decreases hits.len(),
{
    if hits.len() > 0 {
        lemma_same_hits(s, t, hits.skip(1));
    }
}

/// Moving the pointer over an input changes nothing but, in an editor, which
/// diagnostic is shown: the one that holds the place. Leaving the input hides
/// what hovering shows, and what was shown last stays.
pub proof fn law_hovering(s: StateView, within_bounds: bool, o: int, cx: ContextView)
    requires
        0 <= o <= usize::MAX,
    ensures
        ({
            let after = s.hovered(within_bounds, o);
            let asked = s.hovered_asks(within_bounds, o, cx);
            &&& after.text == s.text
            &&& after.selected == s.selected
            &&& after.undo == s.undo
            &&& !within_bounds || !s.code_editor ==> after.popover == s.popover
            &&& within_bounds && s.code_editor && s.mode.diagnostics() is None ==> after.popover
                is None
            &&& within_bounds && s.code_editor ==> (after.popover matches Some(d) ==> (
            s.mode.diagnostics() matches Some(all) && all.contains(d)))
            &&& asked.effects.len() > cx.effects.len()
            &&& asked.effects[cx.effects.len() as int] == if within_bounds {
                Effect::Hover { offset: o as usize }
            } else {
                Effect::ClearHover
            }
            &&& within_bounds && s.code_editor && after.popover is Some ==> asked.effects.last()
                == Effect::Notify
            &&& !within_bounds || !s.code_editor || after.popover is None ==> asked.effects.len()
                == cx.effects.len() + 1
        }),
{
}

// ---------------------------------------------------------------------------
// Requests

/// Whether `after` was asked for all that `before` was, and in that order.
pub open spec fn goes_on(before: ContextView, after: ContextView) -> bool {
    &&& before.effects.len() <= after.effects.len()
    &&& after.effects.take(before.effects.len() as int) == before.effects
    &&& after.clipboard == before.clipboard
}

/// Moving the cursor scrolls to it, shows it, remembers its column and paints
/// the input again. Selecting paints the input again, and remembers the
/// column only where nothing is selected in the end. Both drop the completion
/// that is shown, and neither tells the subscribers anything.
pub proof fn law_moves_are_shown(s: StateView, o: int, cx: ContextView)
    requires
        0 <= o <= byte_len(s.text) <= usize::MAX,
    ensures
        ({
            let moved = moved_asks(s, o, None, cx);
            let told = moved.effects.skip(cx.effects.len() as int);
            &&& goes_on(cx, moved)
            &&& told.first() == Effect::ClearInlineCompletion
            &&& told.last() == Effect::Notify
            &&& told.contains(Effect::ScrollTo { offset: o as usize, direction: None })
            &&& told.contains(Effect::RememberColumn)
            &&& told.contains(Effect::PauseBlink)
            &&& forall|k: int| 0 <= k < told.len() ==> !(#[trigger] told[k] is Emit)
        }),
        ({
            let selected = selected_asks(s, o, cx);
            let told = selected.effects.skip(cx.effects.len() as int);
            &&& goes_on(cx, selected)
            &&& told.first() == Effect::ClearInlineCompletion
            &&& told.last() == Effect::Notify
            &&& told.contains(Effect::RememberColumn) <==> s.selected_to(o).selects_nothing()
            &&& forall|k: int| 0 <= k < told.len() ==> !(#[trigger] told[k] is Emit)
        }),
{
    let n = cx.effects.len() as int;
    let moved = moved_asks(s, o, None, cx);
    let told = moved.effects.skip(n);
    assert(moved.effects.take(n) =~= cx.effects);
    assert(told[1] == (Effect::ScrollTo { offset: o as usize, direction: None }));
    assert(told[2] == Effect::PauseBlink);
    assert(told[3] == Effect::RememberColumn);
    let selected = selected_asks(s, o, cx);
    let heard = selected.effects.skip(n);
    assert(selected.effects.take(n) =~= cx.effects);
    if s.selected_to(o).selects_nothing() {
        assert(heard[1] == Effect::RememberColumn);
    } else {
        assert(heard =~= seq![Effect::ClearInlineCompletion, Effect::Notify]);
    }
}

/// Every press keeps the window from selecting text of its own and drops the
/// completion that is shown. A press that the language features took asks for
/// nothing more; one that moves the cursor or selects paints the input again.
pub proof fn law_presses_are_shown(
    s: StateView,
    event: MouseDown,
    o: int,
    window: Window,
    cx: ContextView,
)
    requires
        0 <= o <= byte_len(s.text) <= usize::MAX,
    ensures
        ({
            let asked = s.clicked_asks(event, o, window, cx);
            let told = asked.effects.skip(cx.effects.len() as int);
            let after = s.clicked(event, o, window);
            &&& goes_on(cx, asked)
            &&& told.len() >= 2
            &&& told[0] == Effect::SuppressTextSelection
            &&& told[1] == Effect::ClearInlineCompletion
            &&& window.click_handled ==> told.len() == 2
            &&& after.selected != s.selected ==> told.last() == Effect::Notify
            &&& !window.click_handled && event.button == MouseButton::Left ==> told.last()
                == Effect::Notify
            &&& !window.click_handled && event.button == MouseButton::Left && event.click_count < 2
                && !event.shift ==> told.contains(
                Effect::ScrollTo { offset: o as usize, direction: None },
            )
            &&& forall|k: int| 0 <= k < told.len() ==> !(#[trigger] told[k] is Emit)
        }),
{
    let n = cx.effects.len() as int;
    let asked = s.clicked_asks(event, o, window, cx);
    let told = asked.effects.skip(n);
    assert(asked.effects.take(n) =~= cx.effects);
    if !window.click_handled && event.button == MouseButton::Left && event.click_count < 2
        && !event.shift {
        assert(told[3] == (Effect::ScrollTo { offset: o as usize, direction: None }));
    }
}

/// Losing the focus keeps the text, the selection and the history, hides the
/// diagnostic that is shown, stops the cursor from blinking and tells the
/// subscribers. A number that has bounds is brought into them. While a menu
/// of the input is open, nothing happens.
pub proof fn law_focus_is_lost(s: StateView, window: Window, cx: ContextView)
    ensures
        ({
            let after = s.blurred(window);
            let asked = s.blurred_asks(window, cx);
            let told = asked.effects.skip(cx.effects.len() as int);
            &&& after.text == s.text
            &&& after.selected == s.selected
            &&& after.undo.undos == s.undo.undos && after.undo.redos == s.undo.redos
            &&& goes_on(cx, asked)
            &&& window.context_menu_open ==> after == s && told.len() == 0
            &&& !window.context_menu_open ==> {
                &&& after.popover is None
                &&& !after.undo.coalescing
                &&& told.contains(Effect::StopBlink)
                &&& told.contains(Effect::ClearHover)
                &&& told.contains(Effect::ClearInlineCompletion)
                &&& told.contains(Effect::Emit(InputEvent::Blur))
                &&& told.last() == Effect::Notify
                &&& told.contains(Effect::ClampNumber) <==> (!s.multi_line && s.mask is Number && (
                s.options.number_min is Some || s.options.number_max is Some))
            }
        }),
{
    let n = cx.effects.len() as int;
    let asked = s.blurred_asks(window, cx);
    let told = asked.effects.skip(n);
    assert(asked.effects.take(n) =~= cx.effects);
    if !window.context_menu_open {
        assert(told[0] == Effect::ClearHover);
        assert(told[1] == Effect::ClearInlineCompletion);
        assert(told[2] == Effect::StopBlink);
        assert(told[told.len() - 2] == Effect::Emit(InputEvent::Blur));
        if s.clamps() {
            assert(told[3] == Effect::ClampNumber);
        } else {
            assert(told.len() == 5);
        }
    }
}

proof fn lemma_edit_goes_on(
    s: StateView,
    range: Option<Range<usize>>,
    t: Seq<char>,
    v: Verdicts,
    window: Window,
    cx: ContextView,
)
    ensures
        ({
            let asked = s.replaced_asks(range, t, v, window, cx);
            let told = asked.effects.skip(cx.effects.len() as int);
            &&& goes_on(cx, asked)
            &&& s.session.silent_replace_text ==> asked.typed == cx.typed
            &&& s.editable() && !s.rejects(range, t, v) && s.session.emit_events ==> told.contains(
                Effect::Emit(InputEvent::Change),
            )
            &&& !s.editable() ==> asked == cx
        }),
{
    reveal(StateView::replaced_asks);
    let asked = s.replaced_asks(range, t, v, window, cx);
    let told = asked.effects.skip(cx.effects.len() as int);
    assert(asked.effects.take(cx.effects.len() as int) =~= cx.effects);
    if s.editable() && !s.rejects(range, t, v) && s.session.emit_events {
        assert(told[told.len() - 2] == Effect::Emit(InputEvent::Change));
    }
}

/// Deleting up to a place shows the cursor in the end. Where something is
/// deleted, the subscribers hear of the change; what is not selected is not
/// said to be typed.
pub proof fn law_deletions_are_told(
    s: StateView,
    o: int,
    v: Verdicts,
    window: Window,
    cx: ContextView,
)
    ensures
        ({
            let asked = s.deleted_span_asks(o, v, window, cx);
            let told = asked.effects.skip(cx.effects.len() as int);
            &&& goes_on(cx, asked)
            &&& told.last() == Effect::PauseBlink
            &&& s.selects_nothing() ==> asked.typed == cx.typed
            &&& !s.editable() ==> told.len() == 1
            &&& s.multi_line && s.editable() && s.session.emit_events && s.fits(Seq::empty())
                ==> told.contains(Effect::Emit(InputEvent::Change))
        }),
{
    let none = Seq::<char>::empty();
    let n = cx.effects.len() as int;
    let asked = s.deleted_span_asks(o, v, window, cx);
    let told = asked.effects.skip(n);
    let q = s.silenced(true);
    let range = Some(s.span_utf16(o, s.cursor() as int));
    lemma_edit_goes_on(q, range, none, v, window, cx);
    lemma_edit_goes_on(s, None, none, v, window, cx);
    let base = if s.selects_nothing() {
        q.replaced_asks(range, none, v, window, cx)
    } else {
        s.replaced_asks(None, none, v, window, cx)
    };
    assert(asked == base.ask(Effect::PauseBlink));
    assert(asked.effects.take(n) =~= base.effects.take(n));
    assert(told =~= base.effects.skip(n).push(Effect::PauseBlink));
    let change = Effect::Emit(InputEvent::Change);
    if base.effects.skip(n).contains(change) {
        let k = choose|k: int|
            0 <= k < base.effects.skip(n).len() && base.effects.skip(n)[k] == change;
        assert(told[k] == change);
    }
}

/// What is cut, pasted or brought into bounds is not said to be typed, and
/// where the user may not edit, nothing is told. The clipboard stays.
pub proof fn law_nothing_is_typed(
    s: StateView,
    t: Seq<char>,
    v: Verdict,
    vs: Verdicts,
    window: Window,
    cx: ContextView,
)
    ensures
        ({
            let put = s.put_in_asks(t, vs, window, cx);
            let clamped = s.clamped_asks(t, v, vs, window, cx);
            &&& goes_on(cx, put) && goes_on(cx, clamped)
            &&& put.typed == cx.typed && clamped.typed == cx.typed
            &&& !s.editable() ==> put == cx && clamped == cx
            &&& !s.valid(t, v) ==> clamped == cx
            &&& s.multi_line && s.editable() && s.session.emit_events && s.fits(t)
                ==> put.effects.skip(cx.effects.len() as int).contains(
                Effect::Emit(InputEvent::Change),
            )
        }),
{
    let q = s.intending(crate::undo_manager::EditIntent::Atomic).silenced(true);
    lemma_edit_goes_on(q, None, t, vs, window, cx);
    lemma_edit_goes_on(s.silenced(true), Some(s.all_range_utf16()), t, vs, window, cx);
    assert(cx.effects.take(cx.effects.len() as int) =~= cx.effects);
}

/// Before a deletion that takes more than the selection, what is taken is
/// selected: the input is painted again. A selection is taken as it is.
pub proof fn law_deleted_text_is_selected(s: StateView, o: int, cx: ContextView)
    ensures
        ({
            let asked = s.delete_base_asks(o, cx);
            &&& goes_on(cx, asked)
            &&& s.selects_nothing() ==> asked.effects.len() > cx.effects.len()
                && asked.effects.last() == Effect::Notify
            &&& !s.selects_nothing() ==> asked == cx
        }),
{
    let asked = s.delete_base_asks(o, cx);
    assert(asked.effects.take(cx.effects.len() as int) =~= cx.effects);
}

/// Dragging paints the input again; in an input of several lines it scrolls
/// along with the pointer. Where nothing is selected by it, nothing is asked for.
pub proof fn law_drags_are_shown(
    s: StateView,
    position: PixelPoint,
    hits: Option<Seq<LineHit>>,
    window: Window,
    cx: ContextView,
)
    ensures
        ({
            let asked = s.dragged_asks(position, hits, window, cx);
            let told = asked.effects.skip(cx.effects.len() as int);
            let drags = s.text.len() > 0 && hits is Some && window.focused && s.session.selecting;
            &&& goes_on(cx, asked)
            &&& !drags ==> asked == cx
            &&& drags ==> told.contains(Effect::Notify)
            &&& drags && s.multi_line ==> told.last() == (Effect::AutoScroll { position })
            &&& drags && !s.multi_line ==> told.last() == Effect::Notify
        }),
{
    let asked = s.dragged_asks(position, hits, window, cx);
    let told = asked.effects.skip(cx.effects.len() as int);
    assert(asked.effects.take(cx.effects.len() as int) =~= cx.effects);
    if s.drags(hits, window) {
        if s.multi_line {
            assert(told[told.len() - 2] == Effect::Notify);
        } else {
            assert(told[told.len() - 1] == Effect::Notify);
        }
    }
}

/// Composing tells the application which bytes became how many, has the place
/// of the candidates looked up again, and paints the input again. The
/// subscribers hear nothing before the composition ends.
pub proof fn law_compositions_are_told(
    s: StateView,
    range: Option<Range<usize>>,
    a: Seq<char>,
    old: Seq<char>,
    b: Seq<char>,
    t: Seq<char>,
    v: Verdicts,
    cx: ContextView,
)
    requires
        s.text == a + old + b,
        aims_at(s, range, a, old),
    ensures
        ({
            let asked = s.marked_asks(range, t, v, cx);
            let told = asked.effects.skip(cx.effects.len() as int);
            &&& goes_on(cx, asked)
            &&& asked.typed == cx.typed
            &&& !s.editable() ==> told.len() == 0
            &&& s.editable() ==> told.first() == Effect::ResetLanguageFeatures
            &&& s.editable() && s.rejects_mark(range, t, v) ==> told.len() == 1
            &&& s.editable() && !s.rejects_mark(range, t, v) ==> {
                &&& told.last() == Effect::Notify
                &&& told.contains(Effect::InvalidateCoordinates)
                &&& told.contains(
                    Effect::TextChanged {
                        start: byte_len(a) as usize,
                        end: byte_len(a + old) as usize,
                        new_len: byte_len(s.normalized(t)) as usize,
                        masked: false,
                    },
                )
                &&& s.multi_line ==> told.contains(Effect::UpdateAutoGrow)
            }
            &&& forall|k: int| 0 <= k < told.len() ==> !(#[trigger] told[k] is Emit)
        }),
{
    reveal(StateView::marked_asks);
    lemma_aimed(s, range, a, old, b, s.normalized(t));
    let n = cx.effects.len() as int;
    let asked = s.marked_asks(range, t, v, cx);
    let told = asked.effects.skip(n);
    assert(asked.effects.take(n) =~= cx.effects);
    if s.editable() && !s.rejects_mark(range, t, v) {
        assert(told[1] == (Effect::TextChanged {
            start: byte_len(a) as usize,
            end: byte_len(a + old) as usize,
            new_len: byte_len(s.normalized(t)) as usize,
            masked: false,
        }));
        assert(told[told.len() - 2] == Effect::InvalidateCoordinates);
        if s.multi_line {
            assert(told[2] == Effect::UpdateAutoGrow);
        }
    }
}

/// Undoing and redoing are told like edits, step by step, and never as
/// something that was typed.
pub proof fn law_replays_are_told(
    s: StateView,
    steps: Seq<Step>,
    vs: Seq<Verdicts>,
    window: Window,
    cx: ContextView,
)
    requires
        steps.len() == vs.len(),
    ensures
        goes_on(cx, s.replayed_asks(steps, vs, window, cx)),
        s.replayed_asks(steps, vs, window, cx).typed == cx.typed,
        steps.len() == 0 ==> s.replayed_asks(steps, vs, window, cx) == cx,
        steps.len() > 0 ==> ({
            let t = s.replayed(steps.drop_last(), vs.drop_last());
            let before = s.replayed_asks(steps.drop_last(), vs.drop_last(), window, cx);
            let after = s.replayed_asks(steps, vs, window, cx);
            let told = after.effects.skip(before.effects.len() as int);
            &&& goes_on(before, after)
            &&& t.multi_line && t.editable() && t.session.emit_events && t.fits(
                steps.last().text,
            ) ==> told.contains(Effect::Emit(InputEvent::Change))
        }),
    decreases steps.len(),
{
    if steps.len() == 0 {
        assert(cx.effects.take(cx.effects.len() as int) =~= cx.effects);
    } else {
        law_replays_are_told(s, steps.drop_last(), vs.drop_last(), window, cx);
        let t = s.replayed(steps.drop_last(), vs.drop_last());
        let before = s.replayed_asks(steps.drop_last(), vs.drop_last(), window, cx);
        let after = s.replayed_asks(steps, vs, window, cx);
        lemma_edit_goes_on(
            t.silenced(true),
            Some(utf16_range(t.text, steps.last().range)),
            steps.last().text,
            vs.last(),
            window,
            before,
        );
        let n = cx.effects.len() as int;
        assert(after.effects.take(n) =~= after.effects.take(before.effects.len() as int).take(n));
    }
}

/// The cursor is painted while it blinks on, in an active window, in an input
/// that is not disabled and has the focus or a menu open.
pub proof fn law_cursor_is_shown(s: StateView, window: Window)
    ensures
        s.options.disabled ==> !s.shows_cursor(window),
        !window.active ==> !s.shows_cursor(window),
        !window.cursor_visible ==> !s.shows_cursor(window),
        !window.focused && !window.context_menu_open ==> !s.shows_cursor(window),
        !s.options.disabled && window.active && window.cursor_visible && window.focused
            ==> s.shows_cursor(window),
        !s.options.disabled && window.active && window.cursor_visible && window.context_menu_open
            ==> s.shows_cursor(window),
{
}

} // verus!
