//! The history stays true of the text, whatever is done to an input.
use crate::actions::Enter;
use crate::change::ChangeView;
use crate::context::Window;
use crate::edit::{change_of, default_intent, has_line_break, history_of, Verdicts};
use crate::history::{lemma_replaced_silently, utf16_range, Step};
use crate::history_laws::{
    changes_passing, lemma_change_connects, lemma_edit_range, lemma_normalized_passes,
    lemma_spliced_passes, lemma_utf16_fits, passes, passes_char, passing, Intake,
};
use crate::selection::Selection;
use crate::state::StateView;
use crate::state_laws::law_moves_keep_wf;
use crate::text::{
    byte_len, clip_left, clip_right, lemma_clip, lemma_from_utf16, lemma_text_ends,
    lemma_to_utf16_mono, lemma_utf16_narrower, slice_of, spliced,
};
use crate::undo_manager::{law_recording_tells, law_transactions_tell, EditIntent, UndoView};
use core::ops::Range;
use vstd::prelude::*;

verus! {

impl StateView {
    /// Whether edits are recorded, and the history tells how the text came about.
    pub open spec fn records(self) -> bool {
        &&& byte_len(self.text) <= usize::MAX
        &&& !self.undo.ignoring
        &&& self.undo.tells(self.text)
    }

    /// Whether that holds of a text that has no more bytes than can be counted.
    pub open spec fn still_records(self) -> bool {
        byte_len(self.text) <= usize::MAX ==> self.records()
    }
}

/// A new input records, and so does one that starts with a text.
pub proof fn law_new_records(multi_line: bool, code_editor: bool, text: Seq<char>)
    ensures
        StateView::initial(multi_line, code_editor).still_records(),
        (StateView { text, ..StateView::initial(multi_line, code_editor) }).still_records(),
{
}

/// Recording the replacement of a part of a text keeps the history true.
proof fn lemma_history_tells(
    h: UndoView,
    old: Seq<char>,
    a: int,
    b: int,
    new: Seq<char>,
    requested: Option<EditIntent>,
    before: Selection,
    after: Option<Selection>,
)
    requires
        !h.ignoring,
        h.tells(old),
        0 <= a <= b,
        byte_len(old) <= usize::MAX,
        clip_left(old, a) + byte_len(new) <= usize::MAX,
    ensures
        history_of(h, old, a, b, new, requested, before, after).tells(spliced(old, a, b, new)),
        !history_of(h, old, a, b, new, requested, before, after).ignoring,
{
    let intent = match requested {
        Some(i) => i,
        None => default_intent(clip_left(old, a), clip_right(old, b), new),
    };
    let c = change_of(old, a, b, new, intent, before, after);
    lemma_change_connects(old, a, b, new, intent, before, after);
    law_recording_tells(h, c, intent, old, spliced(old, a, b, new));
}

proof fn lemma_replaced_tells(s: StateView, range: Option<Range<usize>>, t: Seq<char>, v: Verdicts)
    requires
        s.ordered(),
        s.records(),
        range matches Some(r) ==> r.start <= r.end,
    ensures
        s.replaced(range, t, v).still_records(),
{
    reveal(StateView::replaced);
    lemma_edit_range(s, range);
    let h = UndoView { pending_intent: None, ..s.undo };
    assert(h.tells(s.text));
    if s.editable() && !s.rejects(range, t, v) {
        let e = s.edit(range, t);
        if e.text != e.pending {
            let n = byte_len(s.text) as int;
            lemma_text_ends(s.text);
            lemma_clip(s.text, 0);
            lemma_clip(s.text, n);
            if byte_len(e.text) <= usize::MAX {
                lemma_history_tells(
                    h,
                    s.text,
                    0,
                    n,
                    e.text,
                    Some(EditIntent::Atomic),
                    s.selected,
                    Some(Selection::at(e.caret as usize)),
                );
                assert(spliced(s.text, 0, n, e.text) =~= e.text);
            }
        } else {
            lemma_clip(s.text, e.start);
            lemma_history_tells(
                h,
                s.text,
                e.start,
                e.end,
                e.new,
                s.undo.pending_intent,
                s.selected,
                None,
            );
        }
    }
}

proof fn lemma_marked_tells(
    s: StateView,
    range: Option<Range<usize>>,
    t: Seq<char>,
    selected: Option<Range<usize>>,
    v: Verdicts,
)
    requires
        s.ordered(),
        s.records(),
        range matches Some(r) ==> r.start <= r.end,
    ensures
        s.marked(range, t, selected, v).still_records(),
{
    reveal(StateView::marked);
    lemma_edit_range(s, range);
    let taken = UndoView { pending_intent: None, ..s.undo };
    assert(taken.tells(s.text));
    law_transactions_tell(taken, s.text);
    let h = s.composing();
    assert(h.tells(s.text));
    law_transactions_tell(h, s.text);
    if s.editable() && !s.rejects_mark(range, t, v) {
        let e = s.edit(range, t);
        let after = s.composed(e, selected);
        lemma_clip(s.text, e.start);
        lemma_history_tells(
            h,
            s.text,
            e.start,
            e.end,
            e.new,
            s.undo.pending_intent,
            s.selected,
            Some(after.selected),
        );
        law_transactions_tell(
            history_of(
                h,
                s.text,
                e.start,
                e.end,
                e.new,
                s.undo.pending_intent,
                s.selected,
                Some(after.selected),
            ),
            e.pending,
        );
    }
}

/// Edits of the user and of input methods keep the history true of the text,
/// whatever mask and checks there are; so does ending a composition.
pub proof fn law_edits_keep_history_true(
    s: StateView,
    range: Option<Range<usize>>,
    t: Seq<char>,
    selected: Option<Range<usize>>,
    v: Verdicts,
)
    requires
        s.ordered(),
        s.records(),
        range matches Some(r) ==> r.start <= r.end,
    ensures
        s.replaced(range, t, v).still_records(),
        s.replaced_silently(range, t, v).still_records(),
        s.marked(range, t, selected, v).still_records(),
        s.unmarked().still_records(),
{
    lemma_replaced_tells(s, range, t, v);
    lemma_replaced_tells(s.silenced(true), range, t, v);
    lemma_marked_tells(s, range, t, selected, v);
    law_transactions_tell(s.undo, s.text);
}

proof fn lemma_programmed_tells(
    s: StateView,
    range: Option<Range<usize>>,
    t: Seq<char>,
    v: Verdicts,
)
    requires
        s.ordered(),
        s.records(),
        range matches Some(r) ==> r.start <= r.end,
    ensures
        s.announced().replaced_silently(range, t, v).still_records(),
{
    let q = s.announced().silenced(true);
    assert(q.undo.tells(q.text));
    lemma_replaced_tells(q, range, t, v);
}

proof fn lemma_inserted_tells(s: StateView, t: Seq<char>, v: Verdicts)
    requires
        s.ordered(),
        s.records(),
    ensures
        s.inserted(t, v).still_records(),
{
    lemma_programmed_tells(s, Some(s.cursor_utf16()), t, v);
}

proof fn lemma_replaced_freely_tells(s: StateView, t: Seq<char>, v: Verdicts)
    requires
        s.ordered(),
        s.records(),
    ensures
        s.replaced_freely(t, v).still_records(),
{
    reveal(StateView::replaced_freely);
    lemma_programmed_tells(s, None, t, v);
}

proof fn lemma_rewritten_tells(s: StateView, t: Seq<char>, v: Verdicts)
    requires
        s.ordered(),
        s.records(),
    ensures
        s.rewritten(t, v).still_records(),
{
    lemma_utf16_narrower(s.text);
    lemma_programmed_tells(s, Some(s.all_utf16()), t, v);
}

/// Putting the cursor and the view back leaves the text and the history alone.
proof fn lemma_resets_tell(p: StateView)
    ensures
        p.cursor_reset().features_reset().scroll_reset().text == p.text,
        p.cursor_reset().features_reset().scroll_reset().undo == p.undo,
{
}

proof fn lemma_all_replaced_tells(s: StateView, t: Seq<char>, v: Verdicts)
    requires
        s.ordered(),
        s.records(),
    ensures
        s.with_all_replaced(t, v).still_records(),
{
    lemma_rewritten_tells(s, t, v);
    lemma_resets_tell(s.rewritten(t, v));
}

/// A history that was forgotten tells of any text.
proof fn lemma_cleared_tells(p: StateView)
    ensures
        p.history_cleared().undo.tells(p.text),
        p.history_cleared().undo.ignoring == p.undo.ignoring,
{
}

proof fn lemma_value_tells(s: StateView, t: Seq<char>, v: Verdicts)
    ensures
        s.with_value(t, v).still_records(),
{
    let p = s.value_base().rewritten(t, v).ignoring(false).emitting(true);
    lemma_resets_tell(p);
    lemma_cleared_tells(p.cursor_reset().features_reset().scroll_reset());
}

proof fn lemma_cleaned_tells(s: StateView, v: Verdicts)
    requires
        s.ordered(),
        s.records(),
    ensures
        s.cleaned(v).still_records(),
{
    lemma_rewritten_tells(s, Seq::empty(), v);
}

/// Edits of programs keep the history true of the text, whatever mask and checks there are.
pub proof fn law_programs_keep_history_true(s: StateView, t: Seq<char>, v: Verdicts)
    requires
        s.ordered(),
        s.records(),
    ensures
        s.inserted(t, v).still_records(),
        s.replaced_freely(t, v).still_records(),
        s.rewritten(t, v).still_records(),
        s.with_all_replaced(t, v).still_records(),
        s.with_value(t, v).still_records(),
        s.cleaned(v).still_records(),
{
    lemma_inserted_tells(s, t, v);
    lemma_replaced_freely_tells(s, t, v);
    lemma_rewritten_tells(s, t, v);
    lemma_all_replaced_tells(s, t, v);
    lemma_value_tells(s, t, v);
    lemma_cleaned_tells(s, v);
}

proof fn lemma_bases_tell(s: StateView)
    requires
        s.records(),
    ensures
        s.backspace_base().records(),
        s.delete_base().records(),
        s.uncoalesced().records(),
        s.unmarked().records(),
{
    law_transactions_tell(s.undo, s.text);
}

/// Moving the cursor, selecting, and the keys that edit keep the history true of the text.
pub proof fn law_keys_keep_history_true(
    s: StateView,
    o: int,
    v: Verdicts,
    action: Enter,
    window: Window,
)
    requires
        s.wf(),
        s.records(),
        0 <= o,
    ensures
        s.moved_to(o).still_records(),
        s.selected_to(o).still_records(),
        s.backspace_base().replaced(None, Seq::empty(), v).still_records(),
        s.delete_base().replaced(None, Seq::empty(), v).still_records(),
        s.deleted_span(o, v).still_records(),
        s.entered(action, v, window).still_records(),
        s.escaped(v, window).still_records(),
{
    law_moves_keep_wf(s, o, Range { start: 0, end: 0 });
    lemma_bases_tell(s);
    lemma_replaced_tells(s.backspace_base(), None, Seq::empty(), v);
    lemma_replaced_tells(s.delete_base(), None, Seq::empty(), v);
    let c = s.cursor() as int;
    lemma_utf16_fits(s.text, o);
    lemma_utf16_fits(s.text, c);
    if o <= c {
        lemma_to_utf16_mono(s.text, o, c);
    } else {
        lemma_to_utf16_mono(s.text, c, o);
    }
    law_edits_keep_history_true(s, Some(s.span_utf16(o, c)), Seq::empty(), None, v);
    law_edits_keep_history_true(s, None, Seq::empty(), None, v);
    law_edits_keep_history_true(s, None, s.entered_text(), None, v);
    law_programs_keep_history_true(s.unmarked(), Seq::empty(), v);
}

// ---------------------------------------------------------------------------
// What was let in

/// Whether all that the history records is put in as it is.
pub open spec fn history_passing(h: UndoView, f: Intake) -> bool {
    &&& forall|i: int|
        0 <= i < h.undos.len() ==> changes_passing((#[trigger] h.undos[i]).changes, f)
    &&& forall|i: int|
        0 <= i < h.redos.len() ==> changes_passing((#[trigger] h.redos[i]).changes, f)
    &&& h.open matches Some(changes) ==> changes_passing(changes, f)
}

impl StateView {
    /// Whether the text, and all that the history records, is put in as it
    /// is: without line breaks in a single-line input, and in ASCII where the
    /// mask is a number.
    #[verifier::opaque]
    pub open spec fn let_in(self) -> bool {
        passes(self.text, self.intake()) && history_passing(self.undo, self.intake())
    }
}

proof fn lemma_recorded_passes(h: UndoView, c: ChangeView, intent: EditIntent, f: Intake)
    requires
        history_passing(h, f),
        passing(c, f),
    ensures
        history_passing(h.recorded(c, intent), f),
{
    if let Some(changes) = h.open {
        if changes.len() > 0 {
            assert(passing(changes[changes.len() - 1], f));
        }
    }
    if h.undos.len() > 0 {
        assert(changes_passing(h.undos[h.undos.len() - 1].changes, f));
    }
}

proof fn lemma_transactions_pass(h: UndoView, f: Intake)
    requires
        history_passing(h, f),
    ensures
        history_passing(h.committed(), f),
        history_passing(h.begun(), f),
        history_passing(h.undone(), f),
        history_passing(h.redone(), f),
{
    let c = h.committed();
    if c.undos.len() > 0 {
        assert(changes_passing(c.undos[c.undos.len() - 1].changes, f));
    }
    if c.redos.len() > 0 {
        assert(changes_passing(c.redos[c.redos.len() - 1].changes, f));
    }
}

/// What an edit without a mask puts in and takes out.
proof fn lemma_edit_passes(s: StateView, range: Option<Range<usize>>, t: Seq<char>)
    requires
        s.single_line() ==> s.mask is Plain,
        s.ordered(),
        passes(s.text, s.intake()),
        range matches Some(r) ==> r.start <= r.end,
    ensures
        ({
            let e = s.edit(range, t);
            &&& 0 <= e.start <= e.end
            &&& e.text == e.pending
            &&& passes(e.new, s.intake())
            &&& passes(e.pending, s.intake())
            &&& passes(
                slice_of(s.text, clip_left(s.text, e.start), clip_right(s.text, e.end)),
                s.intake(),
            )
        }),
{
    lemma_edit_range(s, range);
    let e = s.edit(range, t);
    lemma_normalized_passes(s, t);
    lemma_spliced_passes(s.text, e.start, e.end, e.new, s.intake());
}

proof fn lemma_history_of_passes(
    h: UndoView,
    old: Seq<char>,
    a: int,
    b: int,
    new: Seq<char>,
    requested: Option<EditIntent>,
    before: Selection,
    after: Option<Selection>,
    f: Intake,
)
    requires
        history_passing(h, f),
        passes(new, f),
        passes(slice_of(old, clip_left(old, a), clip_right(old, b)), f),
    ensures
        history_passing(history_of(h, old, a, b, new, requested, before, after), f),
{
    let intent = match requested {
        Some(i) => i,
        None => default_intent(clip_left(old, a), clip_right(old, b), new),
    };
    lemma_recorded_passes(h, change_of(old, a, b, new, intent, before, after), intent, f);
}

proof fn lemma_replaced_passes(s: StateView, range: Option<Range<usize>>, t: Seq<char>, v: Verdicts)
    requires
        s.single_line() ==> s.mask is Plain,
        s.ordered(),
        s.let_in(),
        range matches Some(r) ==> r.start <= r.end,
    ensures
        s.replaced(range, t, v).let_in(),
{
    reveal(StateView::let_in);
    reveal(StateView::replaced);
    let h = UndoView { pending_intent: None, ..s.undo };
    assert(history_passing(h, s.intake()));
    let e = s.edit(range, t);
    lemma_edit_passes(s, range, t);
    lemma_history_of_passes(
        h,
        s.text,
        e.start,
        e.end,
        e.new,
        s.undo.pending_intent,
        s.selected,
        None,
        s.intake(),
    );
}

proof fn lemma_marked_passes(
    s: StateView,
    range: Option<Range<usize>>,
    t: Seq<char>,
    selected: Option<Range<usize>>,
    v: Verdicts,
)
    requires
        s.single_line() ==> s.mask is Plain,
        s.ordered(),
        s.let_in(),
        range matches Some(r) ==> r.start <= r.end,
    ensures
        s.marked(range, t, selected, v).let_in(),
{
    reveal(StateView::let_in);
    reveal(StateView::marked);
    let f = s.intake();
    let taken = UndoView { pending_intent: None, ..s.undo };
    assert(history_passing(taken, f));
    lemma_transactions_pass(taken, f);
    let h = s.composing();
    lemma_transactions_pass(h, f);
    let e = s.edit(range, t);
    let after = s.composed(e, selected);
    lemma_edit_passes(s, range, t);
    let k = history_of(
        h,
        s.text,
        e.start,
        e.end,
        e.new,
        s.undo.pending_intent,
        s.selected,
        Some(after.selected),
    );
    lemma_history_of_passes(
        h,
        s.text,
        e.start,
        e.end,
        e.new,
        s.undo.pending_intent,
        s.selected,
        Some(after.selected),
        f,
    );
    lemma_transactions_pass(k, f);
}

/// What is replayed puts in nothing but what can be put in.
proof fn lemma_step_passes(s: StateView, range: Range<usize>, t: Seq<char>, v: Verdicts)
    requires
        s.single_line() ==> s.mask is Plain,
        passes(s.text, s.intake()),
    ensures
        passes(s.replaced_silently(Some(range), t, v).text, s.intake()),
        s.replaced_silently(Some(range), t, v).mask == s.mask,
        s.replaced_silently(Some(range), t, v).multi_line == s.multi_line,
{
    reveal(StateView::replaced);
    let q = s.silenced(true);
    let e = q.edit(Some(range), t);
    lemma_normalized_passes(q, t);
    lemma_from_utf16(s.text, range.start as int);
    lemma_from_utf16(s.text, range.end as int);
    lemma_spliced_passes(s.text, e.start, e.end, e.new, s.intake());
}

proof fn lemma_replayed_passes(s: StateView, steps: Seq<Step>, vs: Seq<Verdicts>)
    requires
        s.single_line() ==> s.mask is Plain,
        s.ordered(),
        s.undo.ignoring,
        s.let_in(),
    ensures
        s.replayed(steps, vs).let_in(),
        s.replayed(steps, vs).ordered(),
        s.replayed(steps, vs).undo.ignoring,
        s.replayed(steps, vs).mask == s.mask,
        s.replayed(steps, vs).multi_line == s.multi_line,
    decreases steps.len(),
{
    reveal(StateView::let_in);
    if steps.len() > 0 {
        lemma_replayed_passes(s, steps.drop_last(), vs.drop_last());
        let p = s.replayed(steps.drop_last(), vs.drop_last());
        let range = utf16_range(p.text, steps.last().range);
        lemma_replaced_silently(p, Some(range), steps.last().text, vs.last());
        lemma_step_passes(p, range, steps.last().text, vs.last());
    }
}

proof fn lemma_undone_passes(s: StateView, vs: Seq<Verdicts>)
    requires
        s.single_line() ==> s.mask is Plain,
        s.wf(),
        s.let_in(),
    ensures
        s.undone(vs).let_in(),
        s.redone(vs).let_in(),
{
    reveal(StateView::let_in);
    let k = s.ignoring(true).undo;
    assert(history_passing(k, s.intake()));
    lemma_transactions_pass(k, s.intake());
    lemma_replayed_passes(s.undo_base(), s.undo_plan(), vs);
    lemma_replayed_passes(s.redo_base(), s.redo_plan(), vs);
}

/// An input without a mask for a single line never holds a text that it would
/// not let in, and neither does its history: not from edits, not from input
/// methods, and not from what is undone and made again. So a single line
/// never gets a line break.
pub proof fn law_only_what_was_let_in(
    s: StateView,
    range: Option<Range<usize>>,
    t: Seq<char>,
    selected: Option<Range<usize>>,
    v: Verdicts,
    vs: Seq<Verdicts>,
)
    requires
        s.single_line() ==> s.mask is Plain,
        s.wf(),
        s.let_in(),
        range matches Some(r) ==> r.start <= r.end,
    ensures
        s.replaced(range, t, v).let_in(),
        s.replaced_silently(range, t, v).let_in(),
        s.marked(range, t, selected, v).let_in(),
        s.unmarked().let_in(),
        s.undone(vs).let_in(),
        s.redone(vs).let_in(),
        s.single_line() ==> !has_line_break(s.replaced(range, t, v).text),
{
    reveal(StateView::let_in);
    lemma_replaced_passes(s, range, t, v);
    lemma_replaced_passes(s.silenced(true), range, t, v);
    lemma_marked_passes(s, range, t, selected, v);
    lemma_transactions_pass(s.undo, s.intake());
    lemma_undone_passes(s, vs);
    lemma_replaced_kind(s, range, t, v);
    if s.single_line() {
        let after = s.replaced(range, t, v);
        assert forall|c: char| after.text.contains(c) implies passes_char(c, after.intake()) by {
            let k = choose|k: int| 0 <= k < after.text.len() && after.text[k] == c;
            assert(passes_char(after.text[k], after.intake()));
        }
    }
}

proof fn lemma_replaced_kind(s: StateView, range: Option<Range<usize>>, t: Seq<char>, v: Verdicts)
    ensures
        s.replaced(range, t, v).intake() == s.intake(),
{
    reveal(StateView::replaced);
}

proof fn lemma_programmed_passes(
    s: StateView,
    range: Option<Range<usize>>,
    t: Seq<char>,
    v: Verdicts,
)
    requires
        s.single_line() ==> s.mask is Plain,
        s.ordered(),
        s.let_in(),
        range matches Some(r) ==> r.start <= r.end,
    ensures
        s.announced().replaced_silently(range, t, v).let_in(),
{
    reveal(StateView::let_in);
    let q = s.announced().silenced(true);
    assert(history_passing(q.undo, q.intake()));
    lemma_replaced_passes(q, range, t, v);
}

proof fn lemma_same_passes(p: StateView, q: StateView)
    requires
        p.let_in(),
        q.text == p.text,
        q.undo == p.undo,
        q.intake() == p.intake(),
    ensures
        q.let_in(),
{
    reveal(StateView::let_in);
}

/// Besides the cursor and the restrictions, an edit of a program leaves what it put in.
proof fn lemma_finished_passes(s: StateView, p: StateView)
    requires
        p.let_in(),
    ensures
        p.collapsed().restored(s).let_in(),
{
    lemma_same_passes(p, p.collapsed().restored(s));
}

proof fn lemma_reset_passes(s: StateView, p: StateView)
    requires
        p.let_in(),
    ensures
        (StateView { mode: p.mode.unparsed(), ..p }).restored(
            s,
        ).cursor_reset().features_reset().scroll_reset().let_in(),
{
    let q = (StateView { mode: p.mode.unparsed(), ..p }).restored(s);
    lemma_same_passes(p, q);
    lemma_resets_tell(q);
    lemma_same_passes(q, q.cursor_reset().features_reset().scroll_reset());
}

impl StateView {
    /// Whether programs can edit an input that holds only what it lets in.
    #[verifier::opaque]
    pub open spec fn ready_for_programs(self) -> bool {
        &&& self.single_line() ==> self.mask is Plain
        &&& self.ordered()
        &&& self.let_in()
        &&& byte_len(self.text) <= usize::MAX
    }
}

proof fn lemma_inserted_passes(s: StateView, t: Seq<char>, v: Verdicts)
    requires
        s.ready_for_programs(),
    ensures
        s.inserted(t, v).let_in(),
{
    reveal(StateView::ready_for_programs);
    lemma_programmed_passes(s, Some(s.cursor_utf16()), t, v);
    lemma_finished_passes(s, s.announced().replaced_silently(Some(s.cursor_utf16()), t, v));
}

proof fn lemma_replaced_freely_passes(s: StateView, t: Seq<char>, v: Verdicts)
    requires
        s.ready_for_programs(),
    ensures
        s.replaced_freely(t, v).let_in(),
{
    reveal(StateView::ready_for_programs);
    reveal(StateView::replaced_freely);
    lemma_programmed_passes(s, None, t, v);
    lemma_finished_passes(s, s.announced().replaced_silently(None, t, v));
}

proof fn lemma_all_replaced_passes(s: StateView, t: Seq<char>, v: Verdicts)
    requires
        s.ready_for_programs(),
    ensures
        s.with_all_replaced(t, v).let_in(),
{
    reveal(StateView::ready_for_programs);
    lemma_utf16_narrower(s.text);
    lemma_programmed_passes(s, Some(s.all_utf16()), t, v);
    lemma_reset_passes(s, s.announced().replaced_silently(Some(s.all_utf16()), t, v));
}

/// Programs put nothing in but what the input lets in.
pub proof fn law_programs_put_in_what_is_let_in(s: StateView, t: Seq<char>, v: Verdicts)
    requires
        s.ready_for_programs(),
    ensures
        s.inserted(t, v).let_in(),
        s.replaced_freely(t, v).let_in(),
        s.with_all_replaced(t, v).let_in(),
{
    lemma_inserted_passes(s, t, v);
    lemma_replaced_freely_passes(s, t, v);
    lemma_all_replaced_passes(s, t, v);
}

/// A new input holds nothing that it would not let in, and neither does one
/// that starts with a text.
pub proof fn law_new_let_in(multi_line: bool, code_editor: bool, t: Seq<char>)
    ensures
        ({
            let s = StateView::initial(multi_line, code_editor);
            &&& s.let_in()
            &&& (StateView { text: s.normalized(t), ..s }).let_in()
        }),
{
    reveal(StateView::let_in);
    let s = StateView::initial(multi_line, code_editor);
    lemma_normalized_passes(s, t);
}

} // verus!
