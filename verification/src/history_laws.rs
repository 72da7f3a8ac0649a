//! What undo and redo give back.
use crate::change::{law_change_reverts, ChangeView};
use crate::edit::{change_of, default_intent, has_line_break, min, on_one_line, Verdicts};
use crate::history::{redo_steps, undo_steps, utf16_range, Step};
use crate::mask_pattern::{normalized_char, number_normalized};
use crate::motion_laws::rests_behind;
use crate::selection::Selection;
use crate::state::StateView;
use crate::text::{
    byte_len, clip_left, clip_right, index_at, index_from, is_boundary, lemma_clip, lemma_clip_mono,
    lemma_from_utf16, lemma_from_utf16_mono, lemma_slice_len, lemma_spliced, lemma_to_utf16_mono,
    lemma_utf16_round_trip, line_breaks, slice_of, spliced, to_utf16,
};
use crate::undo_manager::{
    all_applied, all_reverted, applied, changes_wf, law_history_wf, law_recording_tells,
    law_redo_then_undo, law_transactions_tell, law_undo_then_redo, lead_from, led_to, lemma_led_to,
    reverted, EditIntent, TransactionView, UndoView,
};
use core::ops::Range;
use vstd::prelude::*;

verus! {

/// What an input lets in: whether it takes out line breaks, and whether it
/// writes numbers in ASCII.
#[derive(Clone, Copy, PartialEq, Eq, Structural, Debug)]
pub struct Intake {
    pub one_line: bool,
    pub number: bool,
}

/// Whether a `char` is put in as it is.
pub open spec fn passes_char(c: char, f: Intake) -> bool {
    (f.one_line ==> c != '\n' && c != '\r') && (f.number ==> normalized_char(c) == c)
}

/// Whether a text is put in as it is.
pub open spec fn passes(t: Seq<char>, f: Intake) -> bool {
    forall|i: int| 0 <= i < t.len() ==> passes_char(#[trigger] t[i], f)
}

/// Whether no text that `c` records would be altered when it is put in.
pub open spec fn passing(c: ChangeView, f: Intake) -> bool {
    passes(c.old_text, f) && passes(c.new_text, f)
}

pub open spec fn changes_passing(changes: Seq<ChangeView>, f: Intake) -> bool {
    forall|i: int| 0 <= i < changes.len() ==> passing(#[trigger] changes[i], f)
}

/// The number of bytes that `changes` record.
pub open spec fn recorded_len(changes: Seq<ChangeView>) -> nat
    decreases changes.len(),
{
    if changes.len() == 0 {
        0
    } else {
        recorded_len(changes.drop_last()) + byte_len(changes.last().old_text) + byte_len(
            changes.last().new_text,
        )
    }
}

impl StateView {
    pub open spec fn intake(self) -> Intake {
        Intake { one_line: self.single_line(), number: self.mask is Number }
    }

    /// Whether text that was let in is neither formatted nor turned down: a
    /// single-line input has no mask and no checks. Other inputs ask neither.
    pub open spec fn plain(self) -> bool {
        &&& self.editable()
        &&& self.single_line() ==> self.mask is Plain && self.validate is None && self.pattern
            is None
    }

    /// Whether what `self` was before and after differ only in what edits change.
    pub open spec fn same_rules(self, other: StateView) -> bool {
        &&& self.multi_line == other.multi_line
        &&& self.options == other.options
        &&& self.mask == other.mask
        &&& self.validate == other.validate
        &&& self.pattern == other.pattern
    }

    /// Whether an edit leaves the cursor right behind what it puts in: it
    /// starts between two `char`s, or reaches the end of the text.
    pub open spec fn lands(self, range: Option<Range<usize>>) -> bool {
        let (start, end) = self.edit_range(range);
        is_boundary(self.text, start) || clip_right(self.text, end) == byte_len(self.text)
    }
}

/// Where the cursor is after an edit that lands.
pub proof fn lemma_caret_lands(s: Seq<char>, a: int, b: int, new: Seq<char>)
    requires
        0 <= a <= b,
        is_boundary(s, a) || clip_right(s, b) == byte_len(s),
    ensures
        min(a + byte_len(new), byte_len(spliced(s, a, b, new)) as int) == clip_left(s, a)
            + byte_len(new),
{
    lemma_clip(s, a);
    lemma_spliced(s, a, b, new);
}

/// A change that is recorded while no transaction is open shows in the history.
pub proof fn lemma_recorded_differs(h: UndoView, c: ChangeView, intent: EditIntent)
    requires
        !c.is_noop(),
        h.open is None,
    ensures
        h.recorded(c, intent).committed().undos != h.undos,
{
    let undos = h.recorded(c, intent).undos;
    if undos.len() == h.undos.len() {
        assert(undos.last().changes.len() == h.undos.last().changes.len() + 1);
    }
}

/// The last change of the history is one that was just recorded, or ends with it.
pub proof fn lemma_last_recorded(h: UndoView, c: ChangeView, intent: EditIntent)
    requires
        !c.is_noop(),
        h.recorded(c, intent).committed().undos != h.undos,
    ensures
        h.recorded(c, intent).committed().undos.len() > 0,
        last_changes(h.recorded(c, intent)).len() > 0,
        last_changes(h.recorded(c, intent)).last().selection_after == c.selection_after,
{
}

proof fn lemma_one_line_passes(s: Seq<char>, f: Intake)
    requires
        forall|i: int| 0 <= i < s.len() && f.number ==> normalized_char(#[trigger] s[i]) == s[i],
    ensures
        passes(on_one_line(s), f),
        f.one_line && passes(s, f) ==> on_one_line(s) == s,
    decreases s.len(),
{
    if s.len() > 0 {
        let rest = s.drop_last();
        assert forall|i: int| 0 <= i < rest.len() && f.number implies normalized_char(
            #[trigger] rest[i],
        ) == rest[i] by {
            assert(rest[i] == s[i]);
        }
        lemma_one_line_passes(rest, f);
        if f.one_line && passes(s, f) {
            assert forall|i: int| 0 <= i < rest.len() implies passes_char(
                #[trigger] rest[i],
                f,
            ) by {
                assert(rest[i] == s[i]);
            }
            assert(passes_char(s[s.len() - 1], f));
            assert(rest.push(s.last()) =~= s);
        }
        assert(f.number ==> normalized_char(s[s.len() - 1]) == s[s.len() - 1]);
    }
}

/// What was let in once is let in again as it is.
pub proof fn lemma_normalized_passes(s: StateView, t: Seq<char>)
    ensures
        passes(s.normalized(t), s.intake()),
        passes(t, s.intake()) ==> s.normalized(t) == t,
{
    let f = s.intake();
    let n = if f.number {
        number_normalized(t)
    } else {
        t
    };
    assert forall|i: int| 0 <= i < n.len() && f.number implies normalized_char(#[trigger] n[i])
        == n[i] by {
        assert(n[i] == normalized_char(t[i]));
    }
    if passes(t, f) && f.number {
        assert forall|i: int| 0 <= i < t.len() implies number_normalized(t)[i] == t[i] by {
            assert(passes_char(t[i], f));
        }
        assert(number_normalized(t) =~= t);
    }
    lemma_one_line_passes(n, f);
}

/// Taking out a part of a text and putting in another leaves what can be put in.
pub proof fn lemma_spliced_passes(s: Seq<char>, a: int, b: int, new: Seq<char>, f: Intake)
    requires
        0 <= a,
        0 <= b,
        passes(s, f),
        passes(new, f),
    ensures
        passes(spliced(s, a, b, new), f),
        a <= b ==> passes(slice_of(s, clip_left(s, a), clip_right(s, b)), f),
{
    lemma_clip(s, a);
    lemma_clip(s, b);
    let i = index_at(s, a);
    let j = index_from(s, b);
    let t = spliced(s, a, b, new);
    assert forall|k: int| 0 <= k < t.len() implies passes_char(#[trigger] t[k], f) by {
        if k < i {
            assert(t[k] == s[k]);
        } else if k < i + new.len() {
            assert(t[k] == new[k - i]);
        } else {
            assert(t[k] == s[k - i - new.len() + j]);
        }
    }
    if a <= b {
        lemma_clip_mono(s, a, b);
        let part = slice_of(s, clip_left(s, a), clip_right(s, b));
        assert forall|k: int| 0 <= k < part.len() implies passes_char(#[trigger] part[k], f) by {
            assert(part[k] == s[i + k]);
        }
    }
}

/// The recorded change is what happened to the text.
pub proof fn lemma_change_connects(
    old: Seq<char>,
    a: int,
    b: int,
    new: Seq<char>,
    intent: EditIntent,
    before: Selection,
    after: Option<Selection>,
)
    requires
        0 <= a <= b,
        byte_len(old) <= usize::MAX,
        clip_left(old, a) + byte_len(new) <= usize::MAX,
    ensures
        change_of(old, a, b, new, intent, before, after).connects(old, spliced(old, a, b, new)),
{
    lemma_clip(old, a);
    lemma_clip(old, b);
    lemma_clip_mono(old, a, b);
    let start = clip_left(old, a);
    let end = clip_right(old, b);
    lemma_clip(old, start);
    lemma_clip(old, end);
}

/// What an edit replaces runs forwards.
pub proof fn lemma_edit_range(s: StateView, range: Option<Range<usize>>)
    requires
        s.ordered(),
        range matches Some(r) ==> r.start <= r.end,
    ensures
        0 <= s.edit_range(range).0 <= s.edit_range(range).1,
{
    match range {
        Some(r) => {
            lemma_from_utf16(s.text, r.start as int);
            lemma_from_utf16_mono(s.text, r.start as int, r.end as int);
        },
        None => {
            if let Some(r) = s.ime {
                lemma_clip(s.text, r.start as int);
                lemma_clip_mono(s.text, r.start as int, r.end as int);
            }
        },
    }
}

/// An edit of a plain input replaces exactly what it says, and the history
/// stays true of the text.
pub proof fn law_edit_is_recorded(
    s: StateView,
    range: Option<Range<usize>>,
    t: Seq<char>,
    v: Verdicts,
)
    requires
        s.plain(),
        s.ordered(),
        range matches Some(r) ==> r.start <= r.end,
        s.fits(t),
        s.undo.tells(s.text),
        !s.undo.ignoring,
    ensures
        ({
            let after = s.replaced(range, t, v);
            let (start, end) = s.edit_range(range);
            &&& after.text == spliced(s.text, start, end, s.normalized(t))
            &&& after.undo.tells(after.text)
            &&& after.same_rules(s)
        }),
{
    reveal(StateView::replaced);
    lemma_edit_range(s, range);
    let e = s.edit(range, t);
    let h = UndoView { pending_intent: None, ..s.undo };
    assert(h.tells(s.text));
    let intent = match s.undo.pending_intent {
        Some(i) => i,
        None => default_intent(clip_left(s.text, e.start), clip_right(s.text, e.end), e.new),
    };
    let c = change_of(s.text, e.start, e.end, e.new, intent, s.selected, None);
    lemma_clip(s.text, e.start);
    lemma_change_connects(s.text, e.start, e.end, e.new, intent, s.selected, None);
    law_recording_tells(h, c, intent, s.text, e.pending);
}

/// What one replacement of undo or redo does to a plain input whose history ignores it.
proof fn lemma_step(s: StateView, step: Step, v: Verdicts)
    requires
        s.plain(),
        s.ordered(),
        s.undo.ignoring,
        step.range.ordered(),
        is_boundary(s.text, step.range.start as int),
        is_boundary(s.text, step.range.end as int),
        passes(step.text, s.intake()),
        byte_len(s.text) + byte_len(step.text) <= usize::MAX,
    ensures
        ({
            let after = s.replaced_silently(Some(utf16_range(s.text, step.range)), step.text, v);
            &&& after.text == spliced(
                s.text,
                step.range.start as int,
                step.range.end as int,
                step.text,
            )
            &&& after.undo == (UndoView { pending_intent: None, ..s.undo })
            &&& after.same_rules(s)
            &&& after.ordered()
        }),
{
    reveal(StateView::replaced);
    lemma_normalized_passes(s, step.text);
    let a = step.range.start as int;
    let b = step.range.end as int;
    lemma_utf16_round_trip(s.text, a);
    lemma_utf16_round_trip(s.text, b);
    lemma_clip(s.text, a);
    lemma_clip(s.text, b);
    lemma_to_utf16_mono(s.text, a, b);
    crate::text::lemma_measure_bounds(crate::text::Unit::Utf16, s.text);
    lemma_utf16_fits(s.text, a);
    lemma_utf16_fits(s.text, b);
}

/// A text has no more UTF-16 code units than bytes.
pub proof fn lemma_utf16_fits(s: Seq<char>, o: int)
    requires
        0 <= o,
    ensures
        0 <= to_utf16(s, o) <= byte_len(s),
{
    lemma_clip(s, o);
    crate::text::lemma_utf16_narrower(s.take(index_at(s, o)));
    crate::text::lemma_offset_of(s, index_at(s, o));
}

/// The earliest of some changes that led to a text is reverted last.
pub proof fn lemma_first_change(changes: Seq<ChangeView>, after: Seq<char>)
    requires
        changes.len() > 0,
        led_to(changes, after),
    ensures
        led_to(changes.skip(1), after),
        changes[0].connects(
            all_reverted(changes, after),
            all_reverted(changes.skip(1), after),
        ),
        all_reverted(changes, after) == reverted(
            changes[0],
            all_reverted(changes.skip(1), after),
        ),
    decreases changes.len(),
{
    let mid = reverted(changes.last(), after);
    if changes.len() == 1 {
        assert(changes.skip(1) =~= Seq::empty());
        assert(changes.drop_last() =~= Seq::empty());
        assert(all_reverted(changes.skip(1), after) == after);
        assert(all_reverted(changes.drop_last(), mid) == mid);
    } else {
        lemma_first_change(changes.drop_last(), mid);
        assert(changes.drop_last().skip(1) =~= changes.skip(1).drop_last());
        assert(changes.skip(1).last() == changes.last());
        assert(changes.drop_last()[0] == changes[0]);
    }
}

pub proof fn lemma_recorded_len_first(changes: Seq<ChangeView>)
    requires
        changes.len() > 0,
    ensures
        recorded_len(changes) == byte_len(changes[0].old_text) + byte_len(changes[0].new_text)
            + recorded_len(changes.skip(1)),
    decreases changes.len(),
{
    if changes.len() == 1 {
        assert(changes.skip(1) =~= Seq::empty());
        assert(changes.drop_last() =~= Seq::empty());
    } else {
        lemma_recorded_len_first(changes.drop_last());
        assert(changes.drop_last().skip(1) =~= changes.skip(1).drop_last());
    }
}

/// Taking back the changes that led to the text of a plain input gives back
/// the text before them.
proof fn lemma_undo_replay(s: StateView, changes: Seq<ChangeView>, vs: Seq<Verdicts>)
    requires
        s.plain(),
        s.ordered(),
        s.undo.ignoring,
        led_to(changes, s.text),
        changes_passing(changes, s.intake()),
        byte_len(s.text) + recorded_len(changes) <= usize::MAX,
    ensures
        ({
            let after = s.replayed(undo_steps(changes.reverse()), vs);
            &&& after.text == all_reverted(changes, s.text)
            &&& after.undo == s.undo || after.undo == (UndoView { pending_intent: None, ..s.undo })
            &&& after.same_rules(s)
            &&& after.ordered()
            &&& byte_len(after.text) <= byte_len(s.text) + recorded_len(changes)
        }),
    decreases changes.len(),
{
    let steps = undo_steps(changes.reverse());
    if changes.len() > 0 {
        let rest = changes.skip(1);
        lemma_first_change(changes, s.text);
        lemma_recorded_len_first(changes);
        assert forall|i: int| 0 <= i < rest.len() implies passing(
            #[trigger] rest[i],
            s.intake(),
        ) by {
            assert(rest[i] == changes[i + 1]);
        }
        lemma_undo_replay(s, rest, vs.drop_last());
        assert(steps.drop_last() =~= undo_steps(rest.reverse()));
        let c = changes[0];
        assert(steps.last() == (Step { range: c.new_range, text: c.old_text }));
        let p = s.replayed(steps.drop_last(), vs.drop_last());
        law_change_reverts(c, all_reverted(changes, s.text), p.text);
        assert(passing(c, s.intake()));
        lemma_step(p, steps.last(), vs.last());
    } else {
        assert(steps.len() == 0);
    }
}

/// Making changes again that can be made to the text of a plain input gives
/// the text after them.
proof fn lemma_redo_replay(s: StateView, changes: Seq<ChangeView>, vs: Seq<Verdicts>)
    requires
        s.plain(),
        s.ordered(),
        s.undo.ignoring,
        lead_from(changes, s.text),
        changes_passing(changes, s.intake()),
        byte_len(s.text) + recorded_len(changes) <= usize::MAX,
    ensures
        ({
            let after = s.replayed(redo_steps(changes), vs);
            &&& after.text == all_applied(changes, s.text)
            &&& after.undo == s.undo || after.undo == (UndoView { pending_intent: None, ..s.undo })
            &&& after.same_rules(s)
            &&& after.ordered()
            &&& byte_len(after.text) <= byte_len(s.text) + recorded_len(changes)
        }),
    decreases changes.len(),
{
    let steps = redo_steps(changes);
    if changes.len() > 0 {
        let rest = changes.drop_last();
        assert forall|i: int| 0 <= i < rest.len() implies passing(
            #[trigger] rest[i],
            s.intake(),
        ) by {
            assert(rest[i] == changes[i]);
        }
        lemma_redo_replay(s, rest, vs.drop_last());
        assert(steps.drop_last() =~= redo_steps(rest));
        let c = changes.last();
        let p = s.replayed(steps.drop_last(), vs.drop_last());
        law_change_reverts(c, p.text, applied(c, p.text));
        assert(passing(changes[changes.len() - 1], s.intake()));
        lemma_step(p, steps.last(), vs.last());
    }
}

/// The changes that undo takes back.
pub open spec fn last_changes(h: UndoView) -> Seq<ChangeView> {
    h.committed().undos.last().changes
}

/// The changes that redo makes again.
pub open spec fn next_changes(h: UndoView) -> Seq<ChangeView> {
    h.committed().redos.last().changes
}

/// Undo gives a plain input the text that it had before its last
/// transaction, and the selection that it had then; the history stays true of
/// the text.
pub proof fn law_undo_gives_back(s: StateView, vs: Seq<Verdicts>)
    requires
        s.plain(),
        s.wf(),
        s.undo.tells(s.text),
        s.undo.committed().undos.len() > 0,
        changes_passing(last_changes(s.undo), s.intake()),
        byte_len(s.text) + recorded_len(last_changes(s.undo)) <= usize::MAX,
    ensures
        ({
            let after = s.undone(vs);
            &&& after.text == all_reverted(last_changes(s.undo), s.text)
            &&& after.selected == last_changes(s.undo)[0].selection_before
            &&& after.undo.tells(after.text)
            &&& after.same_rules(s)
            &&& after.wf()
            &&& after.undo.committed().redos.len() > 0
            &&& next_changes(after.undo) == last_changes(s.undo)
        }),
{
    let changes = last_changes(s.undo);
    law_undo_then_redo(s.undo, s.text);
    law_transactions_tell(s.undo, s.text);
    lemma_history_wf(s.undo);
    let base = s.undo_base();
    assert(s.ignoring(true).undo.committed().undos == s.undo.committed().undos);
    lemma_undo_replay(base, changes, vs);
    assert(changes.reverse().last() == changes[0]);
    assert(changes[0].wf());
    let after = s.undone(vs);
    assert(after.undo.undos == s.undo.undone().undos);
    assert(after.undo.redos == s.undo.undone().redos);
    assert(after.undo.open is None);
    assert(after.undo.redos.last().changes == changes);
    assert(after.undo.wf());
}

pub proof fn lemma_history_wf(h: UndoView)
    requires
        h.wf(),
    ensures
        h.committed().wf(),
        h.undone().wf(),
        h.redone().wf(),
        h.committed().undos.len() > 0 ==> last_changes(h).len() > 0 && changes_wf(
            last_changes(h),
        ),
        h.committed().redos.len() > 0 ==> next_changes(h).len() > 0 && changes_wf(
            next_changes(h),
        ),
{
    let c = ChangeView {
        old_range: Selection::at(0),
        old_text: Seq::empty(),
        new_range: Selection::at(0),
        new_text: Seq::empty(),
        selection_before: Selection::at(0),
        selection_after: Selection::at(0),
    };
    law_history_wf(h, c, EditIntent::Atomic);
    let k = h.committed();
    if k.undos.len() > 0 {
        assert(k.undos[k.undos.len() - 1].wf());
    }
    if k.redos.len() > 0 {
        assert(k.redos[k.redos.len() - 1].wf());
    }
}

/// Redo gives a plain input the text that it had after its last undone
/// transaction, and the selection that it had then; the history stays true of
/// the text.
pub proof fn law_redo_gives_back(s: StateView, vs: Seq<Verdicts>)
    requires
        s.plain(),
        s.wf(),
        s.undo.tells(s.text),
        s.undo.committed().redos.len() > 0,
        changes_passing(next_changes(s.undo), s.intake()),
        byte_len(s.text) + recorded_len(next_changes(s.undo)) <= usize::MAX,
    ensures
        ({
            let after = s.redone(vs);
            &&& after.text == all_applied(next_changes(s.undo), s.text)
            &&& after.selected == next_changes(s.undo).last().selection_after
            &&& after.undo.tells(after.text)
            &&& after.same_rules(s)
            &&& after.wf()
            &&& after.undo.committed().undos.len() > 0
            &&& last_changes(after.undo) == next_changes(s.undo)
        }),
{
    let changes = next_changes(s.undo);
    law_redo_then_undo(s.undo, s.text);
    law_transactions_tell(s.undo, s.text);
    lemma_history_wf(s.undo);
    let base = s.redo_base();
    assert(s.ignoring(true).undo.committed().redos == s.undo.committed().redos);
    lemma_redo_replay(base, changes, vs);
    assert(changes[changes.len() - 1].wf());
    let after = s.redone(vs);
    assert(after.undo.undos == s.undo.redone().undos);
    assert(after.undo.redos == s.undo.redone().redos);
    assert(after.undo.open is None);
    assert(after.undo.undos.last().changes == changes);
    assert(after.undo.wf());
}

/// Redo after an undo gives a plain input its text back.
pub proof fn law_redo_undoes_undo(s: StateView, vs: Seq<Verdicts>, ws: Seq<Verdicts>)
    requires
        s.plain(),
        s.wf(),
        s.undo.tells(s.text),
        s.undo.committed().undos.len() > 0,
        changes_passing(last_changes(s.undo), s.intake()),
        byte_len(s.text) + 2 * recorded_len(last_changes(s.undo)) <= usize::MAX,
    ensures
        s.undone(vs).redone(ws).text == s.text,
        s.undone(vs).redone(ws).selected == last_changes(s.undo).last().selection_after,
{
    let changes = last_changes(s.undo);
    law_undo_gives_back(s, vs);
    law_transactions_tell(s.undo, s.text);
    lemma_led_to(changes, s.text);
    lemma_reverted_len(changes, s.text);
    law_redo_gives_back(s.undone(vs), ws);
}

pub proof fn lemma_reverted_len(changes: Seq<ChangeView>, after: Seq<char>)
    requires
        led_to(changes, after),
    ensures
        byte_len(all_reverted(changes, after)) <= byte_len(after) + recorded_len(changes),
    decreases changes.len(),
{
    if changes.len() > 0 {
        let mid = reverted(changes.last(), after);
        law_change_reverts(changes.last(), mid, after);
        lemma_reverted_len(changes.drop_last(), mid);
    }
}

/// The change that an edit records.
pub open spec fn edit_change(
    s: StateView,
    range: Option<Range<usize>>,
    t: Seq<char>,
) -> (ChangeView, EditIntent) {
    let e = s.edit(range, t);
    let intent = match s.undo.pending_intent {
        Some(i) => i,
        None => default_intent(clip_left(s.text, e.start), clip_right(s.text, e.end), e.new),
    };
    (change_of(s.text, e.start, e.end, e.new, intent, s.selected, None), intent)
}

proof fn lemma_edit_change(
    s: StateView,
    range: Option<Range<usize>>,
    t: Seq<char>,
    v: Verdicts,
)
    requires
        s.plain(),
        s.wf(),
        !s.undo.ignoring,
        range matches Some(r) ==> r.start <= r.end,
        s.fits(t),
    ensures
        ({
            let after = s.replaced(range, t, v);
            let (c, intent) = edit_change(s, range, t);
            &&& after.undo == (UndoView { pending_intent: None, ..s.undo }).recorded(c, intent)
            &&& c.connects(s.text, after.text)
            &&& c.wf()
            &&& after.wf()
            &&& after.same_rules(s)
            &&& c.new_text == s.normalized(t)
            &&& byte_len(c.old_text) <= byte_len(s.text)
            &&& passes(s.text, s.intake()) ==> passing(c, s.intake())
            &&& intent == EditIntent::Typing || intent == EditIntent::Atomic
                ==> c.selection_before == s.selected
            &&& s.lands(range) ==> c.selection_after == after.selected
        }),
{
    reveal(StateView::replaced);
    lemma_edit_range(s, range);
    let e = s.edit(range, t);
    let (c, intent) = edit_change(s, range, t);
    lemma_clip(s.text, e.start);
    lemma_change_connects(s.text, e.start, e.end, e.new, intent, s.selected, None);
    lemma_clip(s.text, e.end);
    lemma_clip_mono(s.text, e.start, e.end);
    lemma_slice_len(s.text, clip_left(s.text, e.start), clip_right(s.text, e.end));
    if s.lands(range) {
        lemma_caret_lands(s.text, e.start, e.end, e.new);
    }
    let h = UndoView { pending_intent: None, ..s.undo };
    assert(h.wf());
    law_history_wf(h, c, intent);
    lemma_normalized_passes(s, t);
    if passes(s.text, s.intake()) {
        lemma_spliced_passes(s.text, e.start, e.end, e.new, s.intake());
    }
}

/// Undo takes back an edit that started a transaction of its own: the text
/// and, for edits other than single deletes, the selection are what they were.
#[verifier::rlimit(40)]
pub proof fn law_undo_takes_back_edit(
    s: StateView,
    range: Option<Range<usize>>,
    t: Seq<char>,
    v: Verdicts,
    vs: Seq<Verdicts>,
)
    requires
        s.plain(),
        s.wf(),
        s.undo.tells(s.text),
        !s.undo.ignoring,
        s.undo.open is None,
        s.undo.pending_intent == Some(EditIntent::Atomic) || !s.undo.coalescing,
        range matches Some(r) ==> r.start <= r.end,
        passes(s.text, s.intake()),
        s.replaced(range, t, v).text != s.text,
        3 * byte_len(s.text) + 3 * byte_len(s.normalized(t)) <= usize::MAX,
    ensures
        s.replaced(range, t, v).undone(vs).text == s.text,
        s.undo.pending_intent is None || s.undo.pending_intent == Some(EditIntent::Atomic)
            ==> s.replaced(range, t, v).undone(vs).selected == s.selected,
{
    law_edit_is_recorded(s, range, t, v);
    lemma_edit_change(s, range, t, v);
    let (c, intent) = edit_change(s, range, t);
    let after = s.replaced(range, t, v);
    let h = UndoView { pending_intent: None, ..s.undo };
    law_change_reverts(c, s.text, after.text);
    if c.is_noop() {
        crate::undo_manager::lemma_noop(c, s.text, after.text);
    }
    assert(!h.coalesces(c, intent));
    let g = TransactionView { changes: seq![c], intent };
    assert(after.undo.undos == h.undos.push(g));
    assert(last_changes(after.undo) == seq![c]);
    assert(seq![c].drop_last() =~= Seq::empty());
    assert(recorded_len(seq![c]) == byte_len(c.old_text) + byte_len(c.new_text)) by {
        reveal_with_fuel(recorded_len, 2);
    }
    law_undo_gives_back(after, vs);
    assert(all_reverted(seq![c], after.text) == s.text) by {
        reveal_with_fuel(all_reverted, 2);
    }
}

/// The changes that a new change can join: those of the open transaction,
/// else those of the last one.
pub open spec fn latest_changes(h: UndoView) -> Seq<ChangeView> {
    match h.open {
        Some(changes) => changes,
        None => if h.undos.len() > 0 {
            h.undos.last().changes
        } else {
            Seq::empty()
        },
    }
}

proof fn lemma_recorded_passing(h: UndoView, c: ChangeView, intent: EditIntent, f: Intake)
    requires
        !c.is_noop(),
        h.recorded(c, intent).committed().undos != h.undos,
        passing(c, f),
        changes_passing(latest_changes(h), f),
    ensures
        changes_passing(last_changes(h.recorded(c, intent)), f),
{
    let old = latest_changes(h);
    let new = last_changes(h.recorded(c, intent));
    assert forall|i: int| 0 <= i < new.len() implies passing(#[trigger] new[i], f) by {
        if i < new.len() - 1 {
            assert(new[i] == old[i]);
        } else if h.open is Some && old.len() > 0 && old.last().extended_by(c) {
            assert(passing(old[old.len() - 1], f));
        }
    }
}

/// Redo gives a plain input exactly the text and the selection that it had
/// after an edit that was undone, be it alone or together with others.
pub proof fn law_redo_gives_back_edit(
    s: StateView,
    range: Option<Range<usize>>,
    t: Seq<char>,
    v: Verdicts,
    vs: Seq<Verdicts>,
    ws: Seq<Verdicts>,
)
    requires
        s.plain(),
        s.wf(),
        s.undo.tells(s.text),
        !s.undo.ignoring,
        range matches Some(r) ==> r.start <= r.end,
        s.lands(range),
        s.replaced(range, t, v).text != s.text,
        s.undo.open is Some ==> s.replaced(range, t, v).undo.committed().undos != s.undo.undos,
        passes(s.text, s.intake()),
        changes_passing(latest_changes(s.undo), s.intake()),
        byte_len(s.replaced(range, t, v).text) + 2 * recorded_len(
            last_changes(s.replaced(range, t, v).undo),
        ) <= usize::MAX,
    ensures
        s.replaced(range, t, v).undone(vs).redone(ws).text == s.replaced(range, t, v).text,
        s.replaced(range, t, v).undone(vs).redone(ws).selected == s.replaced(
            range,
            t,
            v,
        ).selected,
{
    let after = s.replaced(range, t, v);
    let (c, intent) = edit_change(s, range, t);
    let h = UndoView { pending_intent: None, ..s.undo };
    assert(s.fits(t)) by {
        reveal(StateView::replaced);
    }
    law_edit_is_recorded(s, range, t, v);
    lemma_edit_change(s, range, t, v);
    if c.is_noop() {
        crate::undo_manager::lemma_noop(c, s.text, after.text);
    }
    if s.undo.open is None {
        lemma_recorded_differs(h, c, intent);
    }
    lemma_last_recorded(h, c, intent);
    lemma_recorded_passing(h, c, intent, s.intake());
    law_redo_undoes_undo(after, vs, ws);
}

/// Changes join the last transaction where they carry on with it: typing
/// right behind what was typed, deleting right before or right behind what
/// was deleted. Other changes, changes of another kind, and changes after a
/// break are transactions of their own. What changes something leaves nothing
/// to redo; what changes nothing is not recorded.
pub proof fn law_changes_join(h: UndoView, c: ChangeView, d: ChangeView, i: EditIntent, j: EditIntent)
    requires
        h.open is None,
        !h.coalescing,
        !c.is_noop(),
        !d.is_noop(),
    ensures
        ({
            let once = h.recorded(c, i);
            let broken = UndoView { coalescing: false, ..once };
            let twice = once.recorded(d, j);
            let n = h.undos.len() as int;
            let typed_on = i is Typing && d.old_range.start == d.old_range.end && d.old_range.start
                == c.new_range.end;
            let deleted_on = (i is Backspace && d.old_range.end == c.old_range.start) || (i
                is DeleteForward && d.old_range.start == c.old_range.start);
            &&& once.undos.len() == n + 1
            &&& once.undos[n].changes == seq![c]
            &&& once.redos.len() == 0
            &&& i == j && (typed_on || deleted_on) ==> twice.undos.len() == n + 1
                && twice.undos[n].changes == seq![c, d]
            &&& i != j || !(typed_on || deleted_on) ==> twice.undos.len() == n + 2
                && twice.undos[n + 1].changes == seq![d]
            &&& broken.recorded(d, j).undos.len() == n + 2
            &&& forall|k: int| 0 <= k < n ==> once.undos[k] == h.undos[k] && twice.undos[k]
                == h.undos[k]
        }),
{
    assert(seq![c].push(d) =~= seq![c, d]);
}

/// What changes nothing is not recorded, and leaves what can be redone.
pub proof fn law_nothing_is_not_recorded(h: UndoView, c: ChangeView, i: EditIntent)
    requires
        c.is_noop(),
    ensures
        h.recorded(c, i).undos == h.undos,
        h.recorded(c, i).redos == h.redos,
        h.recorded(c, i).open == h.open,
{
}

/// What is typed in one go is undone at once: where nothing is selected,
/// typing twice without anything in between is taken back by one undo, and
/// the selection is what it was.
#[verifier::rlimit(40)]
pub proof fn law_typing_is_undone_at_once(
    s: StateView,
    x: Seq<char>,
    y: Seq<char>,
    v: Verdicts,
    w: Verdicts,
    vs: Seq<Verdicts>,
)
    requires
        s.plain(),
        s.wf(),
        s.undo.tells(s.text),
        !s.undo.ignoring,
        s.undo.open is None,
        s.undo.pending_intent is None,
        !s.undo.coalescing,
        s.ime is None,
        s.selected.start == s.selected.end,
        is_boundary(s.text, s.selected.start as int),
        passes(s.text, s.intake()),
        s.normalized(x).len() > 0,
        s.normalized(y).len() > 0,
        !has_line_break(s.normalized(x)),
        !has_line_break(s.normalized(y)),
        5 * byte_len(s.text) + 5 * byte_len(s.normalized(x)) + 5 * byte_len(s.normalized(y))
            <= usize::MAX,
    ensures
        ({
            let once = s.replaced(None, x, v);
            let twice = once.replaced(None, y, w);
            &&& twice.undone(vs).text == s.text
            &&& twice.undone(vs).selected == s.selected
        }),
{
    let once = s.replaced(None, x, v);
    let twice = once.replaced(None, y, w);
    lemma_typed(s, x, v);
    let (c, i) = edit_change(s, None, x);
    assert(once.normalized(y) == s.normalized(y)) by {
        assert(once.mask == s.mask && once.multi_line == s.multi_line);
    }
    crate::text::lemma_measure_bounds(crate::text::Unit::Utf8, s.normalized(x));
    crate::text::lemma_measure_bounds(crate::text::Unit::Utf8, s.normalized(y));
    lemma_spliced(s.text, s.selected.start as int, s.selected.start as int, s.normalized(x));
    lemma_clip(s.text, s.selected.start as int);
    lemma_typed(once, y, w);
    let (d, j) = edit_change(once, None, y);
    let h = UndoView { pending_intent: None, ..s.undo };
    law_changes_join(h, c, d, i, j);
    assert(twice.undo == h.recorded(c, i).recorded(d, j)) by {
        assert(UndoView { pending_intent: None, ..once.undo } == once.undo);
    }
    let n = h.undos.len() as int;
    assert(twice.undo.committed() == twice.undo);
    assert(last_changes(twice.undo) == seq![c, d]) by {
        assert(twice.undo.undos.last() == twice.undo.undos[n]);
    }
    assert(changes_passing(seq![c, d], twice.intake()));
    assert(recorded_len(seq![c, d]) == byte_len(c.old_text) + byte_len(c.new_text) + byte_len(
        d.old_text,
    ) + byte_len(d.new_text)) by {
        reveal_with_fuel(recorded_len, 3);
        assert(seq![c, d].drop_last() =~= seq![c]);
        assert(seq![c].drop_last() =~= Seq::empty());
    }
    law_undo_gives_back(twice, vs);
    law_change_reverts(c, s.text, once.text);
    law_change_reverts(d, once.text, twice.text);
    assert(all_reverted(seq![c, d], twice.text) == s.text) by {
        reveal_with_fuel(all_reverted, 3);
        assert(seq![c, d].drop_last() =~= seq![c]);
        assert(seq![c].drop_last() =~= Seq::empty());
    }
}

/// What typing at a cursor records.
proof fn lemma_typed(s: StateView, x: Seq<char>, v: Verdicts)
    requires
        s.plain(),
        s.wf(),
        s.undo.tells(s.text),
        !s.undo.ignoring,
        s.undo.pending_intent is None,
        s.ime is None,
        s.selected.start == s.selected.end,
        is_boundary(s.text, s.selected.start as int),
        passes(s.text, s.intake()),
        s.normalized(x).len() > 0,
        !has_line_break(s.normalized(x)),
        s.fits(x),
    ensures
        ({
            let after = s.replaced(None, x, v);
            let (c, i) = edit_change(s, None, x);
            let o = s.selected.start as int;
            let n = byte_len(s.normalized(x));
            &&& i is Typing
            &&& !c.is_noop()
            &&& c.old_range == s.selected
            &&& c.new_range.start == o
            &&& c.new_range.end == o + n
            &&& c.selection_before == s.selected
            &&& c.old_text.len() == 0
            &&& c.new_text == s.normalized(x)
            &&& passing(c, s.intake())
            &&& c.connects(s.text, after.text)
            &&& after.undo == (UndoView { pending_intent: None, ..s.undo }).recorded(c, i)
            &&& after.plain()
            &&& after.wf()
            &&& after.same_rules(s)
            &&& after.undo.tells(after.text)
            &&& after.ime is None
            &&& after.selected.start == o + n
            &&& after.selected.end == o + n
            &&& is_boundary(after.text, o + n)
            &&& byte_len(after.text) == byte_len(s.text) + n
            &&& passes(after.text, after.intake())
        }),
{
    let o = s.selected.start as int;
    lemma_clip(s.text, o);
    lemma_edit_change(s, None, x, v);
    law_edit_is_recorded(s, None, x, v);
    lemma_spliced(s.text, o, o, s.normalized(x));
    assert(slice_of(s.text, o, o).len() == 0);
    lemma_normalized_passes(s, x);
    lemma_spliced_passes(s.text, o, o, s.normalized(x), s.intake());
    reveal(StateView::replaced);
}

/// Undo takes back a Backspace or a Delete of one `char`: the text and the
/// cursor are what they were.
pub proof fn law_undo_takes_back_deleted_char(
    s: StateView,
    a: Seq<char>,
    c: char,
    b: Seq<char>,
    v: Verdicts,
    vs: Seq<Verdicts>,
)
    requires
        s.plain(),
        s.wf(),
        s.undo.tells(s.text),
        !s.undo.ignoring,
        s.undo.open is None,
        !s.undo.coalescing,
        s.text == a + seq![c] + b,
        passes(s.text, s.intake()),
        4 * byte_len(s.text) <= usize::MAX,
    ensures
        rests_behind(s, a + seq![c]) && (c != '\r' || a.len() == 0) && !s.display.hidden(
            line_breaks(a) as int,
        ) ==> {
            let back = s.backspace_base().replaced(None, Seq::empty(), v).undone(vs);
            back.text == s.text && back.selected == s.selected
        },
        rests_behind(s, a) && (b.len() == 0 || b[0] != '\r') && !s.display.hidden(
            line_breaks(a + seq![c]) as int,
        ) ==> {
            let back = s.delete_base().replaced(None, Seq::empty(), v).undone(vs);
            back.text == s.text && back.selected == s.selected
        },
{
    crate::motion_laws::lemma_around(a, c, b);
    let o = byte_len(a) as int;
    let p = byte_len(a + seq![c]) as int;
    crate::state_laws::law_moves_keep_wf(s, 0, Range { start: 0, end: 0 });
    if rests_behind(s, a + seq![c]) && (c != '\r' || a.len() == 0) && !s.display.hidden(
        line_breaks(a) as int,
    ) {
        crate::motion_laws::law_previous_is_before_char(s, a, c, b);
        crate::motion_laws::lemma_selected(s, p, o);
        lemma_deleted_char(s.backspace_base(), a, c, b, v, vs);
    }
    if rests_behind(s, a) && (b.len() == 0 || b[0] != '\r') && !s.display.hidden(
        line_breaks(a + seq![c]) as int,
    ) {
        crate::motion_laws::law_next_is_behind_char(s, a, c, b);
        crate::motion_laws::lemma_selected(s, o, p);
        lemma_deleted_char(s.delete_base(), a, c, b, v, vs);
    }
}

proof fn lemma_deleted_char(
    s: StateView,
    a: Seq<char>,
    c: char,
    b: Seq<char>,
    v: Verdicts,
    vs: Seq<Verdicts>,
)
    requires
        s.plain(),
        s.wf(),
        s.undo.tells(s.text),
        !s.undo.ignoring,
        s.undo.open is None,
        !s.undo.coalescing,
        s.ime is None,
        s.text == a + seq![c] + b,
        s.selected.start == byte_len(a),
        s.selected.end == byte_len(a + seq![c]),
        s.undo.pending_intent == Some(EditIntent::Backspace) || s.undo.pending_intent == Some(
            EditIntent::DeleteForward,
        ),
        passes(s.text, s.intake()),
        4 * byte_len(s.text) <= usize::MAX,
    ensures
        ({
            let back = s.replaced(None, Seq::empty(), v).undone(vs);
            &&& back.text == s.text
            &&& s.undo.pending_intent == Some(EditIntent::Backspace) ==> back.selected
                == Selection::at(s.selected.end)
            &&& s.undo.pending_intent == Some(EditIntent::DeleteForward) ==> back.selected
                == Selection::at(s.selected.start)
        }),
{
    let none = Seq::<char>::empty();
    crate::motion_laws::lemma_around(a, c, b);
    assert(number_normalized(none) =~= none);
    assert(s.normalized(none) == none);
    assert(byte_len(none) == 0);
    lemma_clip(s.text, s.selected.start as int);
    lemma_clip(s.text, s.selected.end as int);
    let after = s.replaced(None, none, v);
    crate::motion_laws::law_edit_replaces(s, None, a, seq![c], b, none, v);
    assert(a + none + b =~= a + b);
    assert(after.text != s.text) by {
        assert((a + b).len() != s.text.len());
    }
    law_edit_is_recorded(s, None, none, v);
    lemma_edit_change(s, None, none, v);
    let (d, intent) = edit_change(s, None, none);
    let h = UndoView { pending_intent: None, ..s.undo };
    law_change_reverts(d, s.text, after.text);
    if d.is_noop() {
        crate::undo_manager::lemma_noop(d, s.text, after.text);
    }
    assert(!h.coalesces(d, intent));
    let g = TransactionView { changes: seq![d], intent };
    assert(after.undo.undos == h.undos.push(g));
    assert(last_changes(after.undo) == seq![d]);
    assert(seq![d].drop_last() =~= Seq::empty());
    assert(recorded_len(seq![d]) == byte_len(d.old_text) + byte_len(d.new_text)) by {
        reveal_with_fuel(recorded_len, 2);
    }
    law_undo_gives_back(after, vs);
    assert(all_reverted(seq![d], after.text) == s.text) by {
        reveal_with_fuel(all_reverted, 2);
    }
}

/// Where there is nothing to undo or to redo, undo and redo leave the text
/// and the selection alone.
pub proof fn law_nothing_to_replay(s: StateView, vs: Seq<Verdicts>)
    ensures
        s.undo.to_undo() is None ==> s.undone(vs).text == s.text && s.undone(vs).selected
            == s.selected,
        s.undo.to_redo() is None ==> s.redone(vs).text == s.text && s.redone(vs).selected
            == s.selected,
{
}

} // verus!
