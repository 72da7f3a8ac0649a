//! What masks keep, and what undo and redo give back where there is one.
use crate::change::{law_change_reverts, ChangeView};
use crate::edit::{change_of, default_intent, Verdicts};
use crate::history::{lemma_replaced_silently, redo_steps, undo_steps, utf16_range, Step};
use crate::history_laws::{
    last_changes, lemma_caret_lands, lemma_change_connects, lemma_edit_range, lemma_first_change,
    lemma_history_wf, lemma_last_recorded, lemma_normalized_passes, lemma_recorded_differs,
    lemma_recorded_len_first, lemma_reverted_len, lemma_spliced_passes, lemma_utf16_fits,
    next_changes, passes, passes_char, recorded_len, Intake,
};
use crate::mask_pattern::{
    dot_index, filled, fraction_part, grouped, grouped_upto, integer_part, is_sign,
    law_masked_number_is_valid, law_number_mask_is_stable, law_pattern_mask_is_stable,
    lemma_dot_index, number_masked, sign_of, ungrouped, without, MaskToken, MaskView,
};
use crate::selection::Selection;
use crate::state::StateView;
use crate::state_laws::law_edits_keep_wf;
use crate::text::{
    byte_len, clip_left, clip_right, index_at, is_boundary, lemma_clip, lemma_clip_mono,
    lemma_slice_len, lemma_spliced, lemma_text_ends, lemma_to_utf16_mono, lemma_utf16_round_trip,
    spliced,
};
use crate::undo_manager::{
    all_applied, all_reverted, law_recording_tells, law_redo_then_undo, law_transactions_tell,
    law_undo_then_redo, led_to, lemma_lead_from, reverted, EditIntent, TransactionView, UndoView,
};
use core::ops::Range;
use vstd::prelude::*;

verus! {

/// Whether a `char` can be put into a single line as it is.
pub open spec fn kept_char(c: char, number: bool) -> bool {
    passes_char(c, Intake { one_line: true, number })
}

/// Whether a text can be put into a single line as it is.
pub open spec fn kept(s: Seq<char>, number: bool) -> bool {
    passes(s, Intake { one_line: true, number })
}

/// Whether what a mask puts in can be put in by hand as well, and cannot be
/// mistaken for the sign or the dot of a number.
pub open spec fn sound_mask(mask: MaskView) -> bool {
    match mask {
        MaskView::Plain => true,
        MaskView::Pattern { tokens } => forall|i: int|
            0 <= i < tokens.len() ==> (#[trigger] tokens[i] matches MaskToken::Sep(c)
                ==> kept_char(c, false)),
        MaskView::Number { separator, .. } => separator matches Some(c) ==> c != '.' && !is_sign(c)
            && kept_char(c, true),
    }
}

/// Whether `text` is as `mask` formats it.
pub open spec fn settles_under(mask: MaskView, text: Seq<char>) -> bool {
    &&& kept(text, mask is Number)
    &&& mask.masked(text) == text
    &&& mask.valid(text)
}

/// Whether `changes` led to `after` through texts that are as `mask` formats
/// them, and what they record can be put in.
pub open spec fn settled(mask: MaskView, changes: Seq<ChangeView>, after: Seq<char>) -> bool
    decreases changes.len(),
{
    settles_under(mask, after) && (changes.len() == 0 || {
        let c = changes.last();
        &&& kept(c.old_text, mask is Number)
        &&& kept(c.new_text, mask is Number)
        &&& settled(mask, changes.drop_last(), reverted(c, after))
    })
}

/// Whether each transaction of an undo stack went through settled texts.
pub open spec fn undos_settled(
    mask: MaskView,
    undos: Seq<TransactionView>,
    text: Seq<char>,
) -> bool
    decreases undos.len(),
{
    undos.len() == 0 || {
        settled(mask, undos.last().changes, text) && undos_settled(
            mask,
            undos.drop_last(),
            all_reverted(undos.last().changes, text),
        )
    }
}

/// Whether each transaction of a redo stack went through settled texts.
pub open spec fn redos_settled(
    mask: MaskView,
    redos: Seq<TransactionView>,
    text: Seq<char>,
) -> bool
    decreases redos.len(),
{
    redos.len() == 0 || {
        let after = all_applied(redos.last().changes, text);
        settled(mask, redos.last().changes, after) && redos_settled(mask, redos.drop_last(), after)
    }
}

impl StateView {
    /// Whether the text is as the mask formats it, and so is every text that
    /// the history goes through. Nothing is being composed.
    #[verifier::opaque]
    pub open spec fn settled_history(self) -> bool {
        &&& self.settles(self.text)
        &&& self.undo.open is None
        &&& undos_settled(self.mask, self.undo.undos, self.text)
        &&& redos_settled(self.mask, self.undo.redos, self.text)
    }

    /// Whether a single-line input formats its text by a sound mask, and
    /// nothing but the mask turns edits down.
    pub open spec fn mask_rules(self) -> bool {
        &&& self.single_line()
        &&& self.editable()
        &&& self.validate is None
        &&& self.pattern is None
        &&& sound_mask(self.mask)
    }

    /// Whether `text` is as the mask formats it.
    pub open spec fn settles(self, text: Seq<char>) -> bool {
        settles_under(self.mask, text)
    }
}

/// Putting text in leaves what can be put in, and leaves that as it is.
proof fn lemma_normalized_kept(s: StateView, t: Seq<char>)
    requires
        s.single_line(),
    ensures
        kept(s.normalized(t), s.mask is Number),
        kept(t, s.mask is Number) ==> s.normalized(t) == t,
{
    lemma_normalized_passes(s, t);
}

proof fn lemma_filled_kept(tokens: Seq<MaskToken>, text: Seq<char>)
    requires
        forall|i: int|
            0 <= i < tokens.len() ==> (#[trigger] tokens[i] matches MaskToken::Sep(c)
                ==> kept_char(c, false)),
        kept(text, false),
    ensures
        kept(filled(tokens, text), false),
    decreases tokens.len(),
{
    if tokens.len() > 0 && text.len() > 0 {
        let rest = tokens.skip(1);
        assert forall|i: int| 0 <= i < rest.len() implies (#[trigger] rest[i] matches
            MaskToken::Sep(c) ==> kept_char(c, false)) by {
            assert(rest[i] == tokens[i + 1]);
        }
        let tail = text.skip(1);
        assert forall|i: int| 0 <= i < tail.len() implies kept_char(#[trigger] tail[i], false) by {
            assert(tail[i] == text[i + 1]);
        }
        lemma_filled_kept(rest, tail);
        lemma_filled_kept(rest, text);
        assert(kept_char(text[0], false));
        assert(tokens[0] matches MaskToken::Sep(c) ==> kept_char(c, false));
    }
}

proof fn lemma_without_kept(s: Seq<char>, c: char)
    requires
        kept(s, true),
    ensures
        kept(without(s, c), true),
    decreases s.len(),
{
    if s.len() > 0 {
        let rest = s.drop_last();
        assert forall|i: int| 0 <= i < rest.len() implies kept_char(#[trigger] rest[i], true) by {
            assert(rest[i] == s[i]);
        }
        lemma_without_kept(rest, c);
        assert(kept_char(s[s.len() - 1], true));
    }
}

proof fn lemma_grouped_kept(digits: Seq<char>, separator: char, i: int)
    requires
        kept(digits, true),
        kept_char(separator, true),
        i <= digits.len(),
    ensures
        kept(grouped_upto(digits, separator, i), true),
    decreases i,
{
    if i > 0 {
        lemma_grouped_kept(digits, separator, i - 1);
        assert(kept_char(digits[i - 1], true));
    }
}

proof fn lemma_part_kept(s: Seq<char>, a: int, b: int)
    requires
        kept(s, true),
        0 <= a <= b <= s.len(),
    ensures
        kept(s.subrange(a, b), true),
{
    let t = s.subrange(a, b);
    assert forall|i: int| 0 <= i < t.len() implies kept_char(#[trigger] t[i], true) by {
        assert(t[i] == s[a + i]);
    }
}

proof fn lemma_number_kept(s: Seq<char>, separator: Option<char>, fraction: Option<usize>)
    requires
        kept(s, true),
        separator matches Some(c) ==> kept_char(c, true),
    ensures
        kept(number_masked(s, separator, fraction), true),
{
    let t = ungrouped(s, separator);
    if let Some(c) = separator {
        lemma_without_kept(s, c);
    }
    lemma_dot_index(t);
    let d = dot_index(t);
    let whole = t.take(d);
    lemma_part_kept(t, 0, d);
    assert(whole =~= t.subrange(0, d));
    let sign = sign_of(whole);
    let digits = whole.skip(sign.len() as int);
    lemma_part_kept(whole, 0, sign.len() as int);
    assert(sign =~= whole.subrange(0, sign.len() as int));
    lemma_part_kept(whole, sign.len() as int, whole.len() as int);
    assert(digits =~= whole.subrange(sign.len() as int, whole.len() as int));
    if let Some(c) = separator {
        lemma_grouped_kept(digits, c, digits.len() as int);
    }
    let int_part = integer_part(whole, separator);
    assert(kept(int_part, true));
    if d < t.len() {
        let rest = t.skip(d + 1);
        lemma_part_kept(t, d + 1, t.len() as int);
        assert(rest =~= t.subrange(d + 1, t.len() as int));
        let part = fraction_part(rest, fraction);
        lemma_part_kept(rest, 0, part.len() as int);
        assert(part =~= rest.subrange(0, part.len() as int));
        assert(kept(int_part.push('.') + part, true));
    }
}

/// What a mask makes of a text that it takes is settled.
proof fn lemma_masked_settles(s: StateView, pending: Seq<char>)
    requires
        s.mask_rules(),
        kept(pending, s.mask is Number),
        s.mask.valid(pending),
    ensures
        s.settles(s.mask.masked(pending)),
{
    match s.mask {
        MaskView::Plain => {},
        MaskView::Pattern { tokens } => {
            law_pattern_mask_is_stable(tokens, pending);
            lemma_filled_kept(tokens, pending);
        },
        MaskView::Number { separator, fraction } => {
            law_number_mask_is_stable(pending, separator, fraction);
            law_masked_number_is_valid(pending, separator, fraction);
            lemma_number_kept(pending, separator, fraction);
        },
    }
}

proof fn lemma_empty_settles(s: StateView)
    requires
        s.mask_rules(),
    ensures
        s.settles(Seq::empty()),
{
    let none = Seq::<char>::empty();
    lemma_masked_settles(s, none);
    match s.mask {
        MaskView::Plain => {},
        MaskView::Pattern { tokens } => {},
        MaskView::Number { separator, fraction } => {
            let t = ungrouped(none, separator);
            assert(t =~= none);
            assert(t.take(0) =~= none);
            assert(sign_of(t.take(0)) =~= none);
            assert(none.skip(0) =~= none);
            assert(grouped(none, separator) =~= none);
            assert(number_masked(none, separator, fraction) =~= none);
        },
    }
}

/// The text of a masked input stays as the mask formats it, whatever is put
/// in. An edit that the mask does not take changes nothing.
pub proof fn law_masked_text_settles(
    s: StateView,
    range: Option<Range<usize>>,
    t: Seq<char>,
    v: Verdicts,
)
    requires
        s.mask_rules(),
        s.ordered(),
        range matches Some(r) ==> r.start <= r.end,
        s.settles(s.text),
    ensures
        s.settles(s.replaced(range, t, v).text),
        !s.mask.valid(s.edit(range, t).pending) && s.edit(range, t).pending.len() > 0
            ==> s.replaced(range, t, v).text == s.text,
{
    reveal(StateView::replaced);
    lemma_edit_range(s, range);
    lemma_normalized_kept(s, t);
    let e = s.edit(range, t);
    lemma_spliced_passes(s.text, e.start, e.end, e.new, s.intake());
    if !s.rejects(range, t, v) {
        assert(s.valid(s.text, v.current));
        assert(s.valid(e.pending, v.pending));
        if e.pending.len() == 0 {
            lemma_empty_settles(s);
            assert(e.pending =~= Seq::<char>::empty());
            assert(e.text == e.pending);
        } else {
            lemma_masked_settles(s, e.pending);
        }
    }
}

/// The change that an edit of a masked input records, and its intent.
pub open spec fn masked_change(
    s: StateView,
    range: Option<Range<usize>>,
    t: Seq<char>,
) -> (ChangeView, EditIntent) {
    let e = s.edit(range, t);
    if e.text != e.pending {
        (
            change_of(
                s.text,
                0,
                byte_len(s.text) as int,
                e.text,
                EditIntent::Atomic,
                s.selected,
                Some(Selection::at(e.caret as usize)),
            ),
            EditIntent::Atomic,
        )
    } else {
        let intent = match s.undo.pending_intent {
            Some(i) => i,
            None => default_intent(clip_left(s.text, e.start), clip_right(s.text, e.end), e.new),
        };
        (change_of(s.text, e.start, e.end, e.new, intent, s.selected, None), intent)
    }
}

/// What one replacement of undo or redo comes to where its outcome is settled.
proof fn lemma_settled_step(p: StateView, step: Step, v: Verdicts)
    requires
        p.mask_rules(),
        step.range.ordered(),
        is_boundary(p.text, step.range.start as int),
        is_boundary(p.text, step.range.end as int),
        kept(step.text, p.mask is Number),
        byte_len(p.text) + byte_len(step.text) <= usize::MAX,
        p.settles(spliced(p.text, step.range.start as int, step.range.end as int, step.text)),
    ensures
        p.replaced_silently(Some(utf16_range(p.text, step.range)), step.text, v).text == spliced(
            p.text,
            step.range.start as int,
            step.range.end as int,
            step.text,
        ),
        p.replaced_silently(Some(utf16_range(p.text, step.range)), step.text, v).same_rules(p),
{
    reveal(StateView::replaced);
    let q = p.silenced(true);
    lemma_normalized_kept(q, step.text);
    let a = step.range.start as int;
    let b = step.range.end as int;
    lemma_utf16_round_trip(p.text, a);
    lemma_utf16_round_trip(p.text, b);
    lemma_clip(p.text, a);
    lemma_clip(p.text, b);
    lemma_to_utf16_mono(p.text, a, b);
    lemma_utf16_fits(p.text, a);
    lemma_utf16_fits(p.text, b);
}

/// An edit of a masked input that changes the text and is recorded.
pub open spec fn edits_masked(
    s: StateView,
    range: Option<Range<usize>>,
    t: Seq<char>,
    v: Verdicts,
) -> bool {
    &&& s.mask_rules()
    &&& s.ordered()
    &&& s.settles(s.text)
    &&& range matches Some(r) ==> r.start <= r.end
    &&& !s.undo.ignoring
    &&& s.undo.open is None
    &&& s.replaced(range, t, v).text != s.text
    &&& byte_len(s.text) + byte_len(s.replaced(range, t, v).text) + byte_len(s.normalized(t))
        <= usize::MAX
}

/// An edit of a masked input that is recorded as a transaction of its own.
pub open spec fn edits_alone(
    s: StateView,
    range: Option<Range<usize>>,
    t: Seq<char>,
    v: Verdicts,
) -> bool {
    &&& edits_masked(s, range, t, v)
    &&& s.undo.pending_intent == Some(EditIntent::Atomic) || !s.undo.coalescing
}

/// What an edit of a masked input records.
proof fn lemma_masked_change(
    s: StateView,
    range: Option<Range<usize>>,
    t: Seq<char>,
    v: Verdicts,
)
    requires
        edits_masked(s, range, t, v),
    ensures
        ({
            let after = s.replaced(range, t, v);
            let (c, intent) = masked_change(s, range, t);
            &&& c.connects(s.text, after.text)
            &&& !c.is_noop()
            &&& kept(c.old_text, s.mask is Number)
            &&& kept(c.new_text, s.mask is Number)
            &&& byte_len(c.old_text) <= byte_len(s.text)
            &&& byte_len(c.new_text) <= byte_len(after.text) + byte_len(s.normalized(t))
            &&& intent == EditIntent::Typing || intent == EditIntent::Atomic
                ==> c.selection_before == s.selected
            &&& s.lands(range) || s.edit(range, t).text != s.edit(range, t).pending
                ==> c.selection_after == after.selected
            &&& after.undo == (UndoView { pending_intent: None, ..s.undo }).recorded(c, intent)
            &&& after.same_rules(s)
            &&& after.mask_rules()
            &&& s.settles(after.text)
        }),
{
    law_masked_text_settles(s, range, t, v);
    reveal(StateView::replaced);
    lemma_edit_range(s, range);
    lemma_normalized_kept(s, t);
    lemma_text_ends(s.text);
    let number = s.mask is Number;
    let e = s.edit(range, t);
    let after = s.replaced(range, t, v);
    let (c, intent) = masked_change(s, range, t);
    if e.text != e.pending {
        let n = byte_len(s.text) as int;
        lemma_clip(s.text, 0);
        lemma_clip(s.text, n);
        lemma_change_connects(
            s.text,
            0,
            n,
            e.text,
            intent,
            s.selected,
            Some(Selection::at(e.caret as usize)),
        );
        assert(spliced(s.text, 0, n, e.text) =~= e.text);
        assert(c.old_text =~= s.text);
    } else {
        if s.lands(range) {
            lemma_caret_lands(s.text, e.start, e.end, e.new);
        }
        lemma_clip(s.text, e.start);
        lemma_change_connects(s.text, e.start, e.end, e.new, intent, s.selected, None);
        lemma_clip(s.text, e.end);
        lemma_clip_mono(s.text, e.start, e.end);
        lemma_clip(s.text, clip_left(s.text, e.start));
        lemma_clip(s.text, clip_right(s.text, e.end));
        lemma_slice_len(s.text, clip_left(s.text, e.start), clip_right(s.text, e.end));
        assert forall|k: int| 0 <= k < c.old_text.len() implies kept_char(
            #[trigger] c.old_text[k],
            number,
        ) by {
            assert(c.old_text[k] == s.text[index_at(s.text, c.old_range.start as int) + k]);
        }
    }
    if c.is_noop() {
        crate::undo_manager::lemma_noop(c, s.text, after.text);
    }
}

/// What an edit that is a transaction of its own leaves in the history.
proof fn lemma_masked_alone(s: StateView, range: Option<Range<usize>>, t: Seq<char>, v: Verdicts)
    requires
        edits_alone(s, range, t, v),
    ensures
        ({
            let after = s.replaced(range, t, v);
            let (c, intent) = masked_change(s, range, t);
            &&& after.undo.committed().undos.len() > 0
            &&& after.undo.committed().undos.last().changes == seq![c]
            &&& after.undo.open is None
        }),
{
    lemma_masked_change(s, range, t, v);
    let after = s.replaced(range, t, v);
    let (c, intent) = masked_change(s, range, t);
    let h = UndoView { pending_intent: None, ..s.undo };
    assert(!h.coalesces(c, intent));
    assert(after.undo.undos == h.undos.push(TransactionView { changes: seq![c], intent }));
}

/// The texts that some changes went through, without the first of them.
proof fn lemma_settled_first(mask: MaskView, changes: Seq<ChangeView>, after: Seq<char>)
    requires
        changes.len() > 0,
        settled(mask, changes, after),
    ensures
        settled(mask, changes.skip(1), after),
        settles_under(mask, all_reverted(changes, after)),
        kept(changes[0].old_text, mask is Number),
        kept(changes[0].new_text, mask is Number),
    decreases changes.len(),
{
    let mid = reverted(changes.last(), after);
    if changes.len() == 1 {
        assert(changes.skip(1) =~= Seq::empty());
        assert(changes.drop_last() =~= Seq::empty());
        assert(all_reverted(changes.drop_last(), mid) == mid);
        assert(settled(mask, changes.drop_last(), mid));
    } else {
        lemma_settled_first(mask, changes.drop_last(), mid);
        assert(changes.drop_last().skip(1) =~= changes.skip(1).drop_last());
        assert(changes.skip(1).last() == changes.last());
        assert(changes.drop_last()[0] == changes[0]);
    }
}

/// Taking back changes that went through settled texts gives back the text before them.
proof fn lemma_masked_undo_replay(s: StateView, changes: Seq<ChangeView>, vs: Seq<Verdicts>)
    requires
        s.mask_rules(),
        led_to(changes, s.text),
        settled(s.mask, changes, s.text),
        byte_len(s.text) + recorded_len(changes) <= usize::MAX,
    ensures
        ({
            let after = s.replayed(undo_steps(changes.reverse()), vs);
            &&& after.text == all_reverted(changes, s.text)
            &&& after.same_rules(s)
        }),
    decreases changes.len(),
{
    let steps = undo_steps(changes.reverse());
    if changes.len() > 0 {
        let rest = changes.skip(1);
        lemma_first_change(changes, s.text);
        lemma_recorded_len_first(changes);
        lemma_settled_first(s.mask, changes, s.text);
        lemma_masked_undo_replay(s, rest, vs.drop_last());
        assert(steps.drop_last() =~= undo_steps(rest.reverse()));
        let c = changes[0];
        assert(steps.last() == (Step { range: c.new_range, text: c.old_text }));
        let p = s.replayed(steps.drop_last(), vs.drop_last());
        lemma_reverted_len(rest, s.text);
        law_change_reverts(c, all_reverted(changes, s.text), p.text);
        lemma_settled_step(p, steps.last(), vs.last());
    } else {
        assert(steps.len() == 0);
    }
}

/// Making changes again that went through settled texts gives the text after them.
proof fn lemma_masked_redo_replay(
    s: StateView,
    changes: Seq<ChangeView>,
    after: Seq<char>,
    vs: Seq<Verdicts>,
)
    requires
        s.mask_rules(),
        led_to(changes, after),
        s.text == all_reverted(changes, after),
        settled(s.mask, changes, after),
        byte_len(after) + recorded_len(changes) <= usize::MAX,
    ensures
        s.replayed(redo_steps(changes), vs).text == after,
        s.replayed(redo_steps(changes), vs).same_rules(s),
    decreases changes.len(),
{
    let steps = redo_steps(changes);
    if changes.len() > 0 {
        let rest = changes.drop_last();
        let c = changes.last();
        let mid = reverted(c, after);
        law_change_reverts(c, mid, after);
        lemma_clip(mid, c.old_range.start as int);
        lemma_clip(mid, c.old_range.end as int);
        lemma_spliced(
            mid,
            c.old_range.start as int,
            c.old_range.end as int,
            c.new_text,
        );
        lemma_slice_len(mid, c.old_range.start as int, c.old_range.end as int);
        lemma_masked_redo_replay(s, rest, mid, vs.drop_last());
        assert(steps.drop_last() =~= redo_steps(rest));
        assert(steps.last() == (Step { range: c.old_range, text: c.new_text }));
        let p = s.replayed(steps.drop_last(), vs.drop_last());
        lemma_settled_step(p, steps.last(), vs.last());
    } else {
        assert(steps.len() == 0);
    }
}

/// Replaying leaves the history alone but for the intent that was announced.
proof fn lemma_replayed_undo(s: StateView, steps: Seq<Step>, vs: Seq<Verdicts>)
    requires
        s.ordered(),
        s.undo.ignoring,
    ensures
        s.replayed(steps, vs).ordered(),
        s.replayed(steps, vs).undo.undos == s.undo.undos,
        s.replayed(steps, vs).undo.redos == s.undo.redos,
        s.replayed(steps, vs).undo.open == s.undo.open,
        s.replayed(steps, vs).undo.ignoring,
    decreases steps.len(),
{
    if steps.len() > 0 {
        let p = s.replayed(steps.drop_last(), vs.drop_last());
        lemma_replayed_undo(s, steps.drop_last(), vs.drop_last());
        lemma_replaced_silently(
            p,
            Some(utf16_range(p.text, steps.last().range)),
            steps.last().text,
            vs.last(),
        );
    }
}

/// Undo gives a masked input the text and the selection that it had before
/// its last transaction, and redo then gives back the text and the selection
/// that it had after it.
pub proof fn law_masked_undo_and_redo(s: StateView, vs: Seq<Verdicts>, ws: Seq<Verdicts>)
    requires
        s.mask_rules(),
        s.wf(),
        s.undo.tells(s.text),
        s.undo.committed().undos.len() > 0,
        settled(s.mask, last_changes(s.undo), s.text),
        byte_len(s.text) + recorded_len(last_changes(s.undo)) <= usize::MAX,
    ensures
        s.undone(vs).text == all_reverted(last_changes(s.undo), s.text),
        s.undone(vs).selected == last_changes(s.undo)[0].selection_before,
        s.undone(vs).redone(ws).text == s.text,
        s.undone(vs).redone(ws).selected == last_changes(s.undo).last().selection_after,
        s.undone(vs).undo.undos == s.undo.undone().undos,
        s.undone(vs).undo.redos == s.undo.undone().redos,
        s.undone(vs).undo.open is None,
        s.undone(vs).same_rules(s),
{
    let changes = last_changes(s.undo);
    law_undo_then_redo(s.undo, s.text);
    law_transactions_tell(s.undo, s.text);
    lemma_history_wf(s.undo);
    let base = s.undo_base();
    assert(s.ignoring(true).undo.committed().undos == s.undo.committed().undos);
    lemma_masked_undo_replay(base, changes, vs);
    lemma_replayed_undo(base, s.undo_plan(), vs);
    assert(changes.reverse().last() == changes[0]);
    let back = s.undone(vs);
    assert(back.undo.redos.last().changes == changes);
    assert(back.undo.open is None);
    let again = back.redo_base();
    assert(back.undo.to_redo() == Some(changes));
    lemma_masked_redo_replay(again, changes, s.text, ws);
}

/// Redo gives a masked input the text and the selection that it had after its
/// last undone transaction.
pub proof fn law_masked_redo_gives_back(s: StateView, ws: Seq<Verdicts>)
    requires
        s.mask_rules(),
        s.wf(),
        s.undo.tells(s.text),
        s.undo.open is None,
        s.undo.redos.len() > 0,
        redos_settled(s.mask, s.undo.redos, s.text),
        byte_len(all_applied(next_changes(s.undo), s.text)) + recorded_len(next_changes(s.undo))
            <= usize::MAX,
    ensures
        s.redone(ws).text == all_applied(next_changes(s.undo), s.text),
        s.redone(ws).selected == next_changes(s.undo).last().selection_after,
        s.redone(ws).undo.undos == s.undo.redone().undos,
        s.redone(ws).undo.redos == s.undo.redone().redos,
        s.redone(ws).undo.open is None,
        s.redone(ws).same_rules(s),
{
    let changes = next_changes(s.undo);
    let after = all_applied(changes, s.text);
    lemma_history_wf(s.undo);
    lemma_lead_from(changes, s.text);
    let again = s.redo_base();
    assert(s.undo.to_redo() == Some(changes));
    lemma_masked_redo_replay(again, changes, after, ws);
    lemma_replayed_undo(again, s.redo_plan(), ws);
}

/// An edit that changes the text leaves a history that went through settled texts.
proof fn lemma_edit_settles(s: StateView, range: Option<Range<usize>>, t: Seq<char>, v: Verdicts)
    requires
        edits_masked(s, range, t, v),
        undos_settled(s.mask, s.undo.undos, s.text),
    ensures
        s.replaced(range, t, v).settled_history(),
{
    reveal(StateView::settled_history);
    lemma_masked_change(s, range, t, v);
    let after = s.replaced(range, t, v);
    let (c, intent) = masked_change(s, range, t);
    law_change_reverts(c, s.text, after.text);
    let h = UndoView { pending_intent: None, ..s.undo };
    let undos = after.undo.undos;
    let changes = undos.last().changes;
    if h.coalesces(c, intent) {
        assert(changes.drop_last() =~= s.undo.undos.last().changes);
        assert(undos.drop_last() =~= s.undo.undos.drop_last());
        assert(changes.last() == c);
        assert(all_reverted(changes, after.text) == all_reverted(changes.drop_last(), s.text));
    } else {
        assert(changes =~= seq![c]);
        assert(changes.drop_last() =~= Seq::empty());
        assert(settled(s.mask, changes.drop_last(), s.text));
        assert(undos.drop_last() =~= s.undo.undos);
        assert(all_reverted(changes.drop_last(), s.text) == s.text);
        assert(all_reverted(changes, after.text) == s.text);
    }
}

/// An edit that changes nothing leaves the history alone.
proof fn lemma_edit_of_nothing(s: StateView, range: Option<Range<usize>>, t: Seq<char>, v: Verdicts)
    requires
        s.mask_rules(),
        s.ordered(),
        s.settled_history(),
        range matches Some(r) ==> r.start <= r.end,
        byte_len(s.text) <= usize::MAX,
        s.replaced(range, t, v).text == s.text,
        !s.undo.ignoring,
    ensures
        s.replaced(range, t, v).settled_history(),
{
    reveal(StateView::settled_history);
    reveal(StateView::replaced);
    let e = s.edit(range, t);
    lemma_edit_range(s, range);
    if !s.rejects(range, t, v) {
        let (c, intent) = masked_change(s, range, t);
        lemma_text_ends(s.text);
        lemma_clip(s.text, 0);
        lemma_clip(s.text, byte_len(s.text) as int);
        lemma_clip(s.text, e.start);
        lemma_clip(s.text, e.end);
        if e.text != e.pending {
            assert(c.old_text =~= s.text);
        } else {
            lemma_change_connects(s.text, e.start, e.end, e.new, intent, s.selected, None);
            lemma_same_is_noop(c, s.text);
        }
        assert(c.is_noop());
    }
}

/// A change that leaves the text as it was put back what was there.
proof fn lemma_same_is_noop(c: ChangeView, s: Seq<char>)
    requires
        c.connects(s, s),
    ensures
        c.is_noop(),
{
    let a = c.old_range.start as int;
    let b = c.old_range.end as int;
    lemma_clip(s, a);
    lemma_clip(s, b);
    lemma_clip_mono(s, a, b);
    let i = index_at(s, a);
    let j = index_at(s, b);
    let t = s.take(i) + c.new_text + s.skip(j);
    assert(t == s);
    assert(c.new_text.len() == j - i);
    assert forall|k: int| 0 <= k < j - i implies c.new_text[k] == s.subrange(i, j)[k] by {
        assert(t[i + k] == c.new_text[k]);
    }
    assert(c.new_text =~= c.old_text);
}

/// Every text that the history of a masked input goes through stays as the
/// mask formats it, whatever is put in.
pub proof fn law_masked_history_settles(
    s: StateView,
    range: Option<Range<usize>>,
    t: Seq<char>,
    v: Verdicts,
)
    requires
        s.mask_rules(),
        s.ordered(),
        s.settled_history(),
        !s.undo.ignoring,
        range matches Some(r) ==> r.start <= r.end,
        byte_len(s.text) + byte_len(s.replaced(range, t, v).text) + byte_len(s.normalized(t))
            <= usize::MAX,
    ensures
        s.replaced(range, t, v).settled_history(),
{
    reveal(StateView::settled_history);
    if s.replaced(range, t, v).text == s.text {
        lemma_edit_of_nothing(s, range, t, v);
    } else {
        lemma_edit_settles(s, range, t, v);
    }
}

impl StateView {
    /// Whether a masked input records its edits, and went through texts that
    /// are as the mask formats them.
    #[verifier::opaque]
    pub open spec fn masked_soundly(self) -> bool {
        &&& self.mask_rules()
        &&& self.ordered()
        &&& self.settled_history()
        &&& !self.undo.ignoring
    }

    /// Whether an edit that puts in `t` and leads to the text `after` stays
    /// within what can be counted.
    #[verifier::opaque]
    pub open spec fn counts(self, t: Seq<char>, after: Seq<char>) -> bool {
        byte_len(self.text) + byte_len(after) + byte_len(self.normalized(t)) <= usize::MAX
    }
}

proof fn lemma_programmed_settles(
    s: StateView,
    range: Option<Range<usize>>,
    t: Seq<char>,
    v: Verdicts,
)
    requires
        s.masked_soundly(),
        range matches Some(r) ==> r.start <= r.end,
        s.counts(t, s.announced().replaced_silently(range, t, v).text),
    ensures
        s.announced().replaced_silently(range, t, v).settled_history(),
{
    reveal(StateView::settled_history);
    reveal(StateView::counts);
    reveal(StateView::masked_soundly);
    let q = s.announced().silenced(true);
    assert(q.normalized(t) == s.normalized(t));
    law_masked_history_settles(q, range, t, v);
}

/// What an edit of a program leaves besides the cursor and the restrictions.
proof fn lemma_finished_same(s: StateView, p: StateView)
    ensures
        p.collapsed().restored(s).text == p.text,
        p.collapsed().restored(s).undo == p.undo,
        p.collapsed().restored(s).mask == p.mask,
{
}

proof fn lemma_reset_same(s: StateView, p: StateView)
    ensures
        ({
            let q = (StateView { mode: p.mode.unparsed(), ..p }).restored(
                s,
            ).cursor_reset().features_reset().scroll_reset();
            &&& q.text == p.text
            &&& q.undo == p.undo
            &&& q.mask == p.mask
        }),
{
}

proof fn lemma_settled_same(p: StateView, q: StateView)
    requires
        p.settled_history(),
        q.text == p.text,
        q.undo == p.undo,
        q.mask == p.mask,
    ensures
        q.settled_history(),
{
    reveal(StateView::settled_history);
}

proof fn lemma_inserted_settles(s: StateView, t: Seq<char>, v: Verdicts)
    requires
        s.masked_soundly(),
        s.counts(t, s.inserted(t, v).text),
    ensures
        s.inserted(t, v).settled_history(),
{
    let p = s.announced().replaced_silently(Some(s.cursor_utf16()), t, v);
    lemma_finished_same(s, p);
    lemma_programmed_settles(s, Some(s.cursor_utf16()), t, v);
    lemma_settled_same(p, s.inserted(t, v));
}

proof fn lemma_replaced_freely_settles(s: StateView, t: Seq<char>, v: Verdicts)
    requires
        s.masked_soundly(),
        s.counts(t, s.replaced_freely(t, v).text),
    ensures
        s.replaced_freely(t, v).settled_history(),
{
    reveal(StateView::replaced_freely);
    let p = s.announced().replaced_silently(None, t, v);
    lemma_finished_same(s, p);
    lemma_programmed_settles(s, None, t, v);
    lemma_settled_same(p, s.replaced_freely(t, v));
}

proof fn lemma_all_replaced_settles(s: StateView, t: Seq<char>, v: Verdicts)
    requires
        s.masked_soundly(),
        s.counts(t, s.with_all_replaced(t, v).text),
    ensures
        s.with_all_replaced(t, v).settled_history(),
{
    crate::text::lemma_utf16_narrower(s.text);
    let p = s.announced().replaced_silently(Some(s.all_utf16()), t, v);
    lemma_reset_same(s, p);
    lemma_programmed_settles(s, Some(s.all_utf16()), t, v);
    lemma_settled_same(p, s.with_all_replaced(t, v));
}

/// What programs put into a masked input keeps its history going through
/// texts that are as the mask formats them.
pub proof fn law_masked_programs_settle(s: StateView, t: Seq<char>, v: Verdicts)
    requires
        s.masked_soundly(),
    ensures
        s.counts(t, s.inserted(t, v).text) ==> s.inserted(t, v).settled_history(),
        s.counts(t, s.replaced_freely(t, v).text) ==> s.replaced_freely(t, v).settled_history(),
        s.counts(t, s.with_all_replaced(t, v).text) ==> s.with_all_replaced(t, v).settled_history(),
{
    if s.counts(t, s.inserted(t, v).text) {
        lemma_inserted_settles(s, t, v);
    }
    if s.counts(t, s.replaced_freely(t, v).text) {
        lemma_replaced_freely_settles(s, t, v);
    }
    if s.counts(t, s.with_all_replaced(t, v).text) {
        lemma_all_replaced_settles(s, t, v);
    }
}

/// Setting the value of a masked input leaves a text that is as the mask
/// formats it, and no history.
pub proof fn law_masked_value_settles(s: StateView, t: Seq<char>, v: Verdicts)
    requires
        s.mask_rules(),
        s.ordered(),
        s.settles(s.text),
        byte_len(s.text) <= usize::MAX,
    ensures
        s.with_value(t, v).settled_history(),
{
    reveal(StateView::settled_history);
    let q = s.value_base().announced().silenced(true);
    crate::text::lemma_utf16_narrower(s.text);
    law_masked_text_settles(q, Some(s.all_utf16()), t, v);
    lemma_value_text(s, t, v);
}

proof fn lemma_value_text(s: StateView, t: Seq<char>, v: Verdicts)
    ensures
        s.with_value(t, v).text == s.value_base().announced().silenced(true).replaced(
            Some(s.all_utf16()),
            t,
            v,
        ).text,
        s.with_value(t, v).mask == s.mask,
        s.with_value(t, v).undo.undos.len() == 0,
        s.with_value(t, v).undo.redos.len() == 0,
        s.with_value(t, v).undo.open is None,
{
    reveal(StateView::replaced);
}

/// Undo of a masked input gives back a text that is as the mask formats it,
/// and leaves a history that is true of the text and goes through such texts
/// alone.
pub proof fn law_masked_undo_settles(s: StateView, vs: Seq<Verdicts>)
    requires
        s.mask_rules(),
        s.wf(),
        s.undo.tells(s.text),
        s.settled_history(),
        s.undo.undos.len() > 0 ==> byte_len(s.text) + recorded_len(last_changes(s.undo))
            <= usize::MAX,
    ensures
        s.undone(vs).settled_history(),
        s.undone(vs).undo.tells(s.undone(vs).text),
        s.undone(vs).same_rules(s),
{
    reveal(StateView::settled_history);
    if s.undo.undos.len() > 0 {
        let changes = last_changes(s.undo);
        law_masked_undo_and_redo(s, vs, vs);
        law_undo_then_redo(s.undo, s.text);
        lemma_settled_all(s.mask, changes, s.text);
        let u = s.undone(vs);
        assert(u.undo.redos.drop_last() =~= s.undo.redos);
    }
}

/// Redo of a masked input gives back a text that is as the mask formats it,
/// and leaves a history that is true of the text and goes through such texts
/// alone.
pub proof fn law_masked_redo_settles(s: StateView, vs: Seq<Verdicts>)
    requires
        s.mask_rules(),
        s.wf(),
        s.undo.tells(s.text),
        s.settled_history(),
        s.undo.redos.len() > 0 ==> byte_len(all_applied(next_changes(s.undo), s.text))
            + recorded_len(next_changes(s.undo)) <= usize::MAX,
    ensures
        s.redone(vs).settled_history(),
        s.redone(vs).undo.tells(s.redone(vs).text),
        s.redone(vs).same_rules(s),
{
    reveal(StateView::settled_history);
    if s.undo.redos.len() > 0 {
        law_masked_redo_gives_back(s, vs);
        law_redo_then_undo(s.undo, s.text);
        let r = s.redone(vs);
        assert(r.undo.undos.drop_last() =~= s.undo.undos);
    }
}

/// The text before changes that went through settled texts is settled.
proof fn lemma_settled_all(mask: MaskView, changes: Seq<ChangeView>, after: Seq<char>)
    requires
        settled(mask, changes, after),
    ensures
        settles_under(mask, after),
        settles_under(mask, all_reverted(changes, after)),
{
    if changes.len() > 0 {
        lemma_settled_first(mask, changes, after);
    }
}

/// Undo gives a masked input exactly the text that it had before an edit,
/// even where the mask had rewritten the text, and, for edits other than
/// single deletes, the selection.
pub proof fn law_masked_undo(
    s: StateView,
    range: Option<Range<usize>>,
    t: Seq<char>,
    v: Verdicts,
    vs: Seq<Verdicts>,
)
    requires
        edits_alone(s, range, t, v),
    ensures
        s.replaced(range, t, v).undone(vs).text == s.text,
        s.undo.pending_intent is None || s.undo.pending_intent == Some(EditIntent::Atomic)
            ==> s.replaced(range, t, v).undone(vs).selected == s.selected,
{
    lemma_masked_change(s, range, t, v);
    lemma_masked_alone(s, range, t, v);
    let after = s.replaced(range, t, v);
    let (c, intent) = masked_change(s, range, t);
    law_change_reverts(c, s.text, after.text);
    let base = after.undo_base();
    let steps = after.undo_plan();
    let step = Step { range: c.new_range, text: c.old_text };
    assert(after.undo.to_undo() == Some(seq![c].reverse()));
    assert(seq![c].reverse() =~= seq![c]);
    assert(steps =~= seq![step]);
    assert(steps.drop_last() =~= Seq::empty());
    assert(base.replayed(steps.drop_last(), vs.drop_last()) == base);
    lemma_settled_step(base, step, vs.last());
}

/// Redo gives a masked input exactly the text and the selection that it had
/// after an edit that was undone, be it alone or together with others, even
/// where the mask had rewritten the text.
pub proof fn law_masked_redo(
    s: StateView,
    range: Option<Range<usize>>,
    t: Seq<char>,
    v: Verdicts,
    vs: Seq<Verdicts>,
    ws: Seq<Verdicts>,
)
    requires
        edits_masked(s, range, t, v),
        s.wf(),
        s.undo.tells(s.text),
        undos_settled(s.mask, s.undo.undos, s.text),
        byte_len(s.replaced(range, t, v).text) + recorded_len(
            last_changes(s.replaced(range, t, v).undo),
        ) <= usize::MAX,
    ensures
        s.replaced(range, t, v).undone(vs).redone(ws).text == s.replaced(range, t, v).text,
        s.lands(range) || s.edit(range, t).text != s.edit(range, t).pending ==> s.replaced(
            range,
            t,
            v,
        ).undone(vs).redone(ws).selected == s.replaced(range, t, v).selected,
{
    reveal(StateView::settled_history);
    lemma_masked_change(s, range, t, v);
    lemma_edit_settles(s, range, t, v);
    let after = s.replaced(range, t, v);
    let (c, intent) = masked_change(s, range, t);
    let h = UndoView { pending_intent: None, ..s.undo };
    assert(h.tells(s.text));
    law_recording_tells(h, c, intent, s.text, after.text);
    law_edits_keep_wf(s, range, t, None, v);
    lemma_recorded_differs(h, c, intent);
    lemma_last_recorded(h, c, intent);
    law_masked_undo_and_redo(after, vs, ws);
}

} // verus!
