//! What is let in, what is composed, and what Escape does.
use crate::context::{ContextView, Effect, InputEvent, Window};
use crate::edit::Verdicts;
use crate::motion_laws::{aims_at, law_edit_replaces, lemma_aimed};
use crate::pattern::regex_matches;
use crate::place_laws::law_units_agree;
use crate::state::StateView;
use crate::text::{byte_len, lemma_measure_concat, utf16_len, Unit};
use core::ops::Range;
use vstd::prelude::*;

verus! {

// ---------------------------------------------------------------------------
// Checks

/// A pattern keeps a text that matches it: an edit of an input of one line
/// after which the text would not match leaves it as it is. An edit after
/// which the text matches is made, and so is one that empties the text, and
/// any edit of a text that does not match in the first place.
pub proof fn law_pattern_guards_text(
    s: StateView,
    range: Option<Range<usize>>,
    a: Seq<char>,
    old: Seq<char>,
    b: Seq<char>,
    t: Seq<char>,
    v: Verdicts,
    pattern: Seq<char>,
)
    requires
        s.text == a + old + b,
        aims_at(s, range, a, old),
        s.editable(),
        s.single_line(),
        s.mask is Plain,
        s.validate is None,
        s.pattern == Some(pattern),
        s.fits(t),
        s.hears_of(range, t, v),
    ensures
        ({
            let pending = a + s.normalized(t) + b;
            let after = s.replaced(range, t, v);
            let was_fine = s.text.len() == 0 || regex_matches(pattern, s.text);
            &&& pending.len() > 0 && !regex_matches(pattern, pending) && was_fine ==> after.text
                == s.text && after.selected == s.selected
            &&& pending.len() == 0 || regex_matches(pattern, pending) || !was_fine ==> after.text
                == pending
        }),
{
    reveal(StateView::hears_of);
    reveal(StateView::replaced);
    let new = s.normalized(t);
    lemma_aimed(s, range, a, old, b, new);
    assert(s.edit(range, t).pending == a + new + b);
    if !s.rejects(range, t, v) {
        law_edit_replaces(s, range, a, old, b, t, v);
    }
}

/// A validator is asked in the same way: what it says no to is not let in,
/// unless the text is none that it would say yes to.
pub proof fn law_validator_guards_text(
    s: StateView,
    range: Option<Range<usize>>,
    a: Seq<char>,
    old: Seq<char>,
    b: Seq<char>,
    t: Seq<char>,
    v: Verdicts,
)
    requires
        s.text == a + old + b,
        aims_at(s, range, a, old),
        s.editable(),
        s.single_line(),
        s.mask is Plain,
        s.validate is Some,
        s.pattern is None,
        s.fits(t),
    ensures
        ({
            let pending = a + s.normalized(t) + b;
            let after = s.replaced(range, t, v);
            let was_fine = s.text.len() == 0 || v.current.validator;
            &&& pending.len() > 0 && !v.pending.validator && was_fine ==> after.text == s.text
                && after.selected == s.selected
            &&& pending.len() == 0 || v.pending.validator || !was_fine ==> after.text == pending
        }),
{
    reveal(StateView::replaced);
    let new = s.normalized(t);
    lemma_aimed(s, range, a, old, b, new);
    assert(s.edit(range, t).pending == a + new + b);
    if !s.rejects(range, t, v) {
        law_edit_replaces(s, range, a, old, b, t, v);
    }
}

/// An input of several lines turns nothing down.
pub proof fn law_several_lines_take_all(
    s: StateView,
    range: Option<Range<usize>>,
    a: Seq<char>,
    old: Seq<char>,
    b: Seq<char>,
    t: Seq<char>,
    v: Verdicts,
)
    requires
        s.text == a + old + b,
        aims_at(s, range, a, old),
        s.editable(),
        s.multi_line,
        s.fits(t),
    ensures
        s.replaced(range, t, v).text == a + s.normalized(t) + b,
{
    law_edit_replaces(s, range, a, old, b, t, v);
}

// ---------------------------------------------------------------------------
// Telling others

/// An edit that is let in is told: the application hears which bytes became
/// how many, the subscribers hear of a change unless they are not to, and,
/// where it was typed, so is what was typed. The input is painted again. An
/// edit that is not made changes nothing for the subscribers.
pub proof fn law_edits_are_told(
    s: StateView,
    range: Option<Range<usize>>,
    a: Seq<char>,
    old: Seq<char>,
    b: Seq<char>,
    t: Seq<char>,
    v: Verdicts,
    window: Window,
    cx: ContextView,
)
    requires
        s.text == a + old + b,
        aims_at(s, range, a, old),
        byte_len(s.text) <= usize::MAX,
    ensures
        ({
            let asked = s.replaced_asks(range, t, v, window, cx);
            let new = s.normalized(t);
            let n = asked.effects.len() as int;
            let m = cx.effects.len() as int;
            let told = asked.effects.subrange(m, n);
            &&& m <= n
            &&& asked.effects.take(m) == cx.effects
            &&& asked.clipboard == cx.clipboard
            &&& s.editable() && !s.rejects(range, t, v) ==> {
                &&& told.last() == Effect::Notify
                &&& told.contains(
                    Effect::TextChanged {
                        start: byte_len(a) as usize,
                        end: byte_len(a + old) as usize,
                        new_len: byte_len(new) as usize,
                        masked: s.edit(range, t).text != a + new + b,
                    },
                )
                &&& s.session.emit_events ==> told[told.len() - 2] == Effect::Emit(
                    InputEvent::Change,
                )
                &&& asked.typed == if s.session.silent_replace_text {
                    cx.typed
                } else {
                    cx.typed.push(new)
                }
            }
            &&& s.editable() && !s.rejects(range, t, v) && !s.session.emit_events ==> forall|
                k: int,
            |
                0 <= k < told.len() ==> #[trigger] told[k] != Effect::Emit(InputEvent::Change)
            &&& !s.editable() || s.rejects(range, t, v) ==> {
                &&& asked.typed == cx.typed
                &&& forall|k: int|
                    0 <= k < told.len() ==> #[trigger] told[k] == Effect::PauseBlink
            }
        }),
{
    reveal(StateView::replaced_asks);
    let new = s.normalized(t);
    lemma_aimed(s, range, a, old, b, new);
    let asked = s.replaced_asks(range, t, v, window, cx);
    let n = asked.effects.len() as int;
    let m = cx.effects.len() as int;
    let told = asked.effects.subrange(m, n);
    assert(asked.effects.take(m) =~= cx.effects);
    if s.editable() && !s.rejects(range, t, v) {
        let e = s.edit(range, t);
        assert(e.pending == a + new + b);
        let k = if window.cursor_visible {
            1int
        } else {
            0int
        };
        let effect = Effect::TextChanged {
            start: byte_len(a) as usize,
            end: byte_len(a + old) as usize,
            new_len: byte_len(new) as usize,
            masked: e.text != a + new + b,
        };
        assert(told[k] == effect);
        assert(told.contains(effect));
    }
}

// ---------------------------------------------------------------------------
// Compositions

/// What an input method composes replaces what it composed before, or else
/// the selection, and is marked; the mask leaves it alone. What is to be
/// selected is counted in UTF-16 code units from its start; without that, the
/// cursor is behind it. Composing nothing takes the marked text out and ends
/// the composition.
pub proof fn law_composed_text_is_marked(
    s: StateView,
    range: Option<Range<usize>>,
    a: Seq<char>,
    old: Seq<char>,
    b: Seq<char>,
    t: Seq<char>,
    selected: Option<Range<usize>>,
    v: Verdicts,
    x: Seq<char>,
    y: Seq<char>,
    z: Seq<char>,
)
    requires
        s.text == a + old + b,
        aims_at(s, range, a, old),
        s.editable(),
        !s.rejects_mark(range, t, v),
        s.normalized(t) == x + y + z,
        selected matches Some(r) ==> r.start == utf16_len(x) && r.end == utf16_len(x + y),
    ensures
        ({
            let after = s.marked(range, t, selected, v);
            let new = x + y + z;
            &&& after.text == a + new + b
            &&& new.len() == 0 ==> {
                &&& after.ime is None
                &&& after.selected.start == byte_len(a)
                &&& after.selected.end == byte_len(a)
            }
            &&& new.len() > 0 ==> {
                &&& after.ime matches Some(r) && r.start == byte_len(a) && r.end == byte_len(a + new)
                &&& selected is None ==> after.selected.start == byte_len(a + new)
                    && after.selected.end == byte_len(a + new)
                &&& selected is Some ==> after.selected.start == byte_len(a + x)
                    && after.selected.end == byte_len(a + x + y)
            }
        }),
{
    reveal(StateView::marked);
    let new = x + y + z;
    lemma_aimed(s, range, a, old, b, new);
    lemma_measure_concat(Unit::Utf8, a, new);
    assert(s.edit(range, t).pending == a + new + b);
    if selected is Some {
        assert(new =~= x + (y + z));
        law_units_agree(x, y + z);
        law_units_agree(x + y, z);
        lemma_measure_concat(Unit::Utf8, a, x);
        lemma_measure_concat(Unit::Utf8, a, x + y);
        assert(a + x + y =~= a + (x + y));
        lemma_measure_concat(Unit::Utf8, x, y);
        lemma_measure_concat(Unit::Utf8, x + y, z);
    }
}

/// Ending a composition keeps the text and the selection, and marks nothing.
pub proof fn law_composition_ends(s: StateView)
    ensures
        s.unmarked().ime is None,
        s.unmarked().text == s.text,
        s.unmarked().selected == s.selected,
        s.ime is Some ==> s.unmarked().undo.open is None,
        s.ime is None ==> s.unmarked() == s,
{
}

// ---------------------------------------------------------------------------
// Escape

/// Escape ends a composition. Where it is to clean the input, it takes out
/// the text; else it is handed on. A menu or a completion takes it first.
pub proof fn law_escape(s: StateView, v: Verdicts, window: Window, cx: ContextView)
    requires
        byte_len(s.text) <= usize::MAX,
    ensures
        ({
            let after = s.escaped(v, window);
            let asked = s.escaped_asks(v, window, cx);
            let reaches = !window.menu_handles_action && !window.inline_completion;
            &&& !reaches ==> after == s
            &&& window.menu_handles_action ==> asked == cx
            &&& !window.menu_handles_action && window.inline_completion ==> asked.effects
                == cx.effects.push(Effect::ClearInlineCompletion)
            &&& reaches ==> after.ime is None || s.options.clean_on_escape
            &&& reaches && !s.options.clean_on_escape ==> {
                &&& after.text == s.text
                &&& after.selected == s.selected
                &&& asked.effects == cx.effects.push(Effect::Propagate)
            }
            &&& reaches && s.options.clean_on_escape ==> after.selected.start == 0
                && after.selected.end == 0
            &&& reaches && s.options.clean_on_escape && (s.multi_line || (s.mask is Plain
                && s.validate is None && s.pattern is None)) ==> after.text.len() == 0
        }),
{
    let reaches = !window.menu_handles_action && !window.inline_completion;
    if reaches && s.options.clean_on_escape && (s.multi_line || (s.mask is Plain && s.validate
        is None && s.pattern is None)) {
        lemma_cleaned(s.unmarked(), v);
    }
}

proof fn lemma_cleaned(s: StateView, v: Verdicts)
    requires
        byte_len(s.text) <= usize::MAX,
        s.multi_line || (s.mask is Plain && s.validate is None && s.pattern is None),
    ensures
        s.cleaned(v).text.len() == 0,
{
    let none = Seq::<char>::empty();
    let q = s.announced().silenced(true);
    assert(none + s.text + none =~= s.text);
    assert(none + s.text =~= s.text);
    assert(byte_len(none) == 0 && utf16_len(none) == 0);
    assert(crate::mask_pattern::number_normalized(none) =~= none);
    assert(q.normalized(none) == none);
    crate::text::lemma_utf16_narrower(s.text);
    assert(aims_at(q, Some(s.all_utf16()), none, s.text));
    law_edit_replaces(q, Some(s.all_utf16()), none, s.text, none, none, v);
    assert(none + none + none =~= none);
}

} // verus!
