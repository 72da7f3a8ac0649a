//! What every change of the state keeps: its ranges, and those of its
//! history, run forwards.
use crate::actions::Enter;
use crate::change::ChangeView;
use crate::context::Window;
use crate::edit::{change_of, default_intent, history_of, Verdicts};
use crate::history::{lemma_replaced_silently, Step};
use crate::history_laws::{lemma_edit_range, lemma_utf16_fits};
use crate::mouse::MouseButton;
use crate::selection::Selection;
use crate::state::StateView;
use crate::text::{
    byte_len, clip_left, clip_right, lemma_clip, lemma_clip_mono, lemma_from_utf16,
    lemma_from_utf16_mono, lemma_to_utf16_mono, lemma_utf16_narrower,
};
use crate::undo_manager::{changes_wf, law_history_wf, EditIntent, UndoView};
use core::ops::Range;
use vstd::prelude::*;

verus! {

/// A change that can be recorded of any text.
spec fn some_change() -> ChangeView {
    ChangeView {
        old_range: Selection::at(0),
        old_text: Seq::empty(),
        new_range: Selection::at(0),
        new_text: Seq::empty(),
        selection_before: Selection::at(0),
        selection_after: Selection::at(0),
    }
}

/// A new input is well-formed.
pub proof fn law_new_is_wf(multi_line: bool, code_editor: bool)
    ensures
        StateView::initial(multi_line, code_editor).wf(),
{
}

/// Recording a replacement keeps the history well-formed.
proof fn lemma_history_of(
    h: UndoView,
    old: Seq<char>,
    a: int,
    b: int,
    new: Seq<char>,
    requested: Option<EditIntent>,
    before: Selection,
    after: Option<Selection>,
)
    requires
        h.wf(),
        0 <= a <= b,
        byte_len(old) <= usize::MAX,
        a == 0 || a + byte_len(new) <= usize::MAX || byte_len(old) + byte_len(new) <= usize::MAX,
        before.ordered(),
        after matches Some(r) ==> r.ordered(),
    ensures
        history_of(h, old, a, b, new, requested, before, after).wf(),
{
    lemma_clip(old, a);
    lemma_clip(old, b);
    lemma_clip_mono(old, a, b);
    let intent = match requested {
        Some(i) => i,
        None => default_intent(clip_left(old, a), clip_right(old, b), new),
    };
    let c = change_of(old, a, b, new, intent, before, after);
    assert(c.wf());
    law_history_wf(h, c, intent);
}

proof fn lemma_replaced_wf(s: StateView, range: Option<Range<usize>>, t: Seq<char>, v: Verdicts)
    requires
        s.wf(),
        byte_len(s.text) <= usize::MAX,
        range matches Some(r) ==> r.start <= r.end,
    ensures
        s.replaced(range, t, v).wf(),
{
    reveal(StateView::replaced);
    lemma_edit_range(s, range);
    if s.editable() && !s.rejects(range, t, v) {
        let e = s.edit(range, t);
        let h = UndoView { pending_intent: None, ..s.undo };
        assert(h.wf());
        if e.text != e.pending {
            lemma_history_of(
                h,
                s.text,
                0,
                byte_len(s.text) as int,
                e.text,
                Some(EditIntent::Atomic),
                s.selected,
                Some(Selection::at(e.caret as usize)),
            );
        } else {
            lemma_history_of(
                h,
                s.text,
                e.start,
                e.end,
                e.new,
                s.undo.pending_intent,
                s.selected,
                None,
            );
        }
    }
}

proof fn lemma_marked_wf(
    s: StateView,
    range: Option<Range<usize>>,
    t: Seq<char>,
    selected: Option<Range<usize>>,
    v: Verdicts,
)
    requires
        s.wf(),
        byte_len(s.text) <= usize::MAX,
        range matches Some(r) ==> r.start <= r.end,
        selected matches Some(r) ==> r.start <= r.end,
    ensures
        s.marked(range, t, selected, v).wf(),
{
    reveal(StateView::marked);
    lemma_edit_range(s, range);
    let taken = UndoView { pending_intent: None, ..s.undo };
    assert(taken.wf());
    law_history_wf(taken, some_change(), EditIntent::Atomic);
    let h = s.composing();
    assert(h.wf());
    law_history_wf(h, some_change(), EditIntent::Atomic);
    if s.editable() && !s.rejects_mark(range, t, v) {
        let e = s.edit(range, t);
        let after = s.composed(e, selected);
        if let Some(r) = selected {
            lemma_from_utf16(e.new, r.start as int);
            lemma_from_utf16(e.new, r.end as int);
            lemma_from_utf16_mono(e.new, r.start as int, r.end as int);
        }
        assert(after.selected.ordered());
        lemma_history_of(
            h,
            s.text,
            e.start,
            e.end,
            e.new,
            s.undo.pending_intent,
            s.selected,
            Some(after.selected),
        );
        let k = history_of(
            h,
            s.text,
            e.start,
            e.end,
            e.new,
            s.undo.pending_intent,
            s.selected,
            Some(after.selected),
        );
        law_history_wf(k, some_change(), EditIntent::Atomic);
    }
}

/// Edits of the user and of input methods keep the state well-formed, as long
/// as no input method asks for a selection that runs backwards.
pub proof fn law_edits_keep_wf(
    s: StateView,
    range: Option<Range<usize>>,
    t: Seq<char>,
    selected: Option<Range<usize>>,
    v: Verdicts,
)
    requires
        s.wf(),
        byte_len(s.text) <= usize::MAX,
        range matches Some(r) ==> r.start <= r.end,
        selected matches Some(r) ==> r.start <= r.end,
    ensures
        s.replaced(range, t, v).wf(),
        s.replaced_silently(range, t, v).wf(),
        s.marked(range, t, selected, v).wf(),
{
    lemma_replaced_wf(s, range, t, v);
    lemma_replaced_wf(s.silenced(true), range, t, v);
    lemma_marked_wf(s, range, t, selected, v);
}

/// An edit that was made leaves the cursor in the text, with nothing selected
/// and nothing being composed.
pub proof fn law_edits_keep_cursor_inside(
    s: StateView,
    range: Option<Range<usize>>,
    t: Seq<char>,
    v: Verdicts,
)
    requires
        s.ordered(),
        range matches Some(r) ==> r.start <= r.end,
        s.editable(),
        !s.rejects(range, t, v),
        byte_len(s.edit(range, t).text) <= usize::MAX,
    ensures
        ({
            let after = s.replaced(range, t, v);
            &&& after.ime is None
            &&& after.selected.start == after.selected.end
            &&& after.cursor() == after.selected.end
            &&& after.cursor() <= byte_len(after.text)
        }),
{
    reveal(StateView::replaced);
    lemma_edit_range(s, range);
}

proof fn lemma_programmed_wf(s: StateView, range: Range<usize>, t: Seq<char>, v: Verdicts)
    requires
        s.wf(),
        byte_len(s.text) <= usize::MAX,
        range.start <= range.end,
    ensures
        s.announced().replaced_silently(Some(range), t, v).wf(),
        s.announced().replaced_silently(None, t, v).wf(),
{
    let q = s.announced().silenced(true);
    assert(q.undo.wf());
    lemma_replaced_wf(q, Some(range), t, v);
    lemma_replaced_wf(q, None, t, v);
}

proof fn lemma_rewritten_wf(s: StateView, t: Seq<char>, v: Verdicts)
    requires
        s.wf(),
        byte_len(s.text) <= usize::MAX,
    ensures
        s.rewritten(t, v).wf(),
{
    lemma_utf16_narrower(s.text);
    lemma_programmed_wf(s, s.all_utf16(), t, v);
}

/// Edits of programs keep the state well-formed.
pub proof fn law_programs_keep_wf(s: StateView, t: Seq<char>, v: Verdicts)
    requires
        s.wf(),
        byte_len(s.text) <= usize::MAX,
    ensures
        s.inserted(t, v).wf(),
        s.replaced_freely(t, v).wf(),
        s.rewritten(t, v).wf(),
        s.with_value(t, v).wf(),
        s.with_all_replaced(t, v).wf(),
        s.cleaned(v).wf(),
{
    reveal(StateView::replaced_freely);
    lemma_programmed_wf(s, s.cursor_utf16(), t, v);
    lemma_rewritten_wf(s, t, v);
    lemma_rewritten_wf(s, Seq::empty(), v);
    let b = s.value_base();
    assert(b.undo.wf());
    lemma_rewritten_wf(b, t, v);
}

proof fn lemma_replayed_keeps(s: StateView, steps: Seq<Step>, vs: Seq<Verdicts>)
    requires
        s.wf(),
        s.undo.ignoring,
    ensures
        s.replayed(steps, vs).wf(),
        s.replayed(steps, vs).undo.ignoring,
    decreases steps.len(),
{
    if steps.len() > 0 {
        let p = s.replayed(steps.drop_last(), vs.drop_last());
        lemma_replayed_keeps(s, steps.drop_last(), vs.drop_last());
        lemma_replaced_silently(
            p,
            Some(crate::history::utf16_range(p.text, steps.last().range)),
            steps.last().text,
            vs.last(),
        );
    }
}

proof fn lemma_ignoring_wf(s: StateView, ignoring: bool)
    requires
        s.wf(),
    ensures
        s.ignoring(ignoring).wf(),
{
}

proof fn lemma_bases_wf(s: StateView)
    requires
        s.wf(),
    ensures
        s.undo_base().wf(),
        s.undo_base().undo.ignoring,
        s.redo_base().wf(),
        s.redo_base().undo.ignoring,
        s.undo.to_undo() matches Some(changes) ==> changes.len() > 0 && changes_wf(changes),
        s.undo.to_redo() matches Some(changes) ==> changes.len() > 0 && changes_wf(changes),
{
    lemma_ignoring_wf(s, true);
    law_history_wf(s.undo, some_change(), EditIntent::Atomic);
    law_history_wf(s.ignoring(true).undo, some_change(), EditIntent::Atomic);
}

/// Undo and redo keep the state well-formed, whatever the checks say.
pub proof fn law_history_keeps_wf(s: StateView, vs: Seq<Verdicts>)
    requires
        s.wf(),
    ensures
        s.undone(vs).wf(),
        s.redone(vs).wf(),
{
    lemma_bases_wf(s);
    let u = s.undo_base().replayed(s.undo_plan(), vs);
    lemma_replayed_keeps(s.undo_base(), s.undo_plan(), vs);
    lemma_ignoring_wf(u, false);
    if let Some(changes) = s.undo.to_undo() {
        assert(changes.last().wf());
        lemma_ignoring_wf(StateView { selected: changes.last().selection_before, ..u }, false);
    }
    let r = s.redo_base().replayed(s.redo_plan(), vs);
    lemma_replayed_keeps(s.redo_base(), s.redo_plan(), vs);
    lemma_ignoring_wf(r, false);
    if let Some(changes) = s.undo.to_redo() {
        assert(changes.last().wf());
        lemma_ignoring_wf(StateView { selected: changes.last().selection_after, ..r }, false);
    }
}

/// Moving the cursor and selecting keep the state well-formed.
pub proof fn law_moves_keep_wf(s: StateView, o: int, range: Range<usize>)
    requires
        s.wf(),
        0 <= o,
    ensures
        s.moved_to(o).wf(),
        s.selected_to(o).wf(),
        s.uncoalesced().wf(),
        s.with_selection(range).wf(),
        s.backspace_base().wf(),
        s.delete_base().wf(),
{
    assert(s.uncoalesced().undo.wf());
    assert(s.selection_base(0).undo.wf());
}

/// The keys that edit keep the state well-formed.
pub proof fn law_keys_keep_wf(s: StateView, o: int, v: Verdicts, action: Enter, window: Window)
    requires
        s.wf(),
        byte_len(s.text) <= usize::MAX,
        0 <= o,
    ensures
        s.backspace_base().replaced(None, Seq::empty(), v).wf(),
        s.delete_base().replaced(None, Seq::empty(), v).wf(),
        s.deleted_span(o, v).wf(),
        s.entered(action, v, window).wf(),
        s.unmarked().wf(),
        s.escaped(v, window).wf(),
{
    law_moves_keep_wf(s, 0, Range { start: 0, end: 0 });
    lemma_replaced_wf(s.backspace_base(), None, Seq::empty(), v);
    lemma_replaced_wf(s.delete_base(), None, Seq::empty(), v);
    let c = s.cursor() as int;
    lemma_utf16_fits(s.text, o);
    lemma_utf16_fits(s.text, c);
    if o <= c {
        lemma_to_utf16_mono(s.text, o, c);
    } else {
        lemma_to_utf16_mono(s.text, c, o);
    }
    law_edits_keep_wf(s, Some(s.span_utf16(o, c)), Seq::empty(), None, v);
    law_edits_keep_wf(s, None, Seq::empty(), None, v);
    law_edits_keep_wf(s, None, s.entered_text(), None, v);
    law_history_wf(s.undo, some_change(), EditIntent::Atomic);
    law_programs_keep_wf(s.unmarked(), Seq::empty(), v);
}

/// Releasing a button of the pointer keeps the state well-formed.
pub proof fn law_release_keeps_wf(s: StateView, button: MouseButton, window: Window)
    requires
        s.wf(),
    ensures
        s.released(button, window).wf(),
        s.released(button, window).selecting_ended().wf(),
{
}

} // verus!
