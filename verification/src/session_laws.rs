//! What holds of an input, whatever was done to it before.
use crate::edit::Verdicts;
use crate::history_laws::{
    changes_passing, last_changes, latest_changes, law_redo_gives_back, law_redo_gives_back_edit,
    law_redo_undoes_undo, law_undo_gives_back, law_undo_takes_back_edit, lemma_history_wf,
    next_changes, passes, recorded_len,
};
use crate::mask_laws::{
    edits_alone, edits_masked, law_masked_history_settles, law_masked_programs_settle,
    law_masked_redo, law_masked_redo_settles, law_masked_undo, law_masked_undo_and_redo,
    law_masked_undo_settles, settled, undos_settled,
};
use crate::record_laws::{
    law_edits_keep_history_true, law_only_what_was_let_in, law_programs_keep_history_true,
    law_programs_put_in_what_is_let_in,
};
use crate::state::StateView;
use crate::state_laws::{
    law_edits_keep_wf, law_history_keeps_wf, law_moves_keep_wf, law_programs_keep_wf,
};
use crate::text::byte_len;
use crate::undo_manager::{all_applied, law_transactions_tell, EditIntent};
use core::ops::Range;
use vstd::prelude::*;

verus! {

/// What can be done to an input.
pub enum Deed {
    /// Text is put in place of a range, of what is being composed, or of the selection.
    Replace { range: Option<Range<usize>>, text: Seq<char>, verdicts: Verdicts },
    /// An input method puts in text that is being composed.
    Compose {
        range: Option<Range<usize>>,
        text: Seq<char>,
        selected: Option<Range<usize>>,
        verdicts: Verdicts,
    },
    EndComposition,
    Backspace { verdicts: Verdicts },
    Delete { verdicts: Verdicts },
    Move { offset: nat },
    Select { offset: nat },
    /// A program inserts text at the cursor.
    Insert { text: Seq<char>, verdicts: Verdicts },
    /// A program replaces the selection.
    ReplaceSelection { text: Seq<char>, verdicts: Verdicts },
    /// A program replaces the whole text.
    ReplaceAll { text: Seq<char>, verdicts: Verdicts },
    /// What is undone, with what is said of each change.
    Undo { each: Seq<Verdicts> },
    Redo { each: Seq<Verdicts> },
}

impl StateView {
    pub open spec fn done(self, deed: Deed) -> StateView {
        match deed {
            Deed::Replace { range, text, verdicts } => self.replaced(range, text, verdicts),
            Deed::Compose { range, text, selected, verdicts } => self.marked(
                range,
                text,
                selected,
                verdicts,
            ),
            Deed::EndComposition => self.unmarked(),
            Deed::Backspace { verdicts } => self.backspace_base().replaced(
                None,
                Seq::empty(),
                verdicts,
            ),
            Deed::Delete { verdicts } => self.delete_base().replaced(
                None,
                Seq::empty(),
                verdicts,
            ),
            Deed::Move { offset } => self.moved_to(offset as int),
            Deed::Select { offset } => self.selected_to(offset as int),
            Deed::Insert { text, verdicts } => self.inserted(text, verdicts),
            Deed::ReplaceSelection { text, verdicts } => self.replaced_freely(text, verdicts),
            Deed::ReplaceAll { text, verdicts } => self.with_all_replaced(text, verdicts),
            Deed::Undo { each } => self.undone(each),
            Deed::Redo { each } => self.redone(each),
        }
    }

    /// The state after all `deeds`, the first one first.
    pub open spec fn all_done(self, deeds: Seq<Deed>) -> StateView
        decreases deeds.len(),
    {
        if deeds.len() == 0 {
            self
        } else {
            self.all_done(deeds.drop_last()).done(deeds.last())
        }
    }

    /// Whether the ranges of `deed` run forwards, and no text grows longer
    /// than can be counted.
    pub open spec fn can_do(self, deed: Deed) -> bool {
        &&& byte_len(self.done(deed).text) <= usize::MAX
        &&& match deed {
            Deed::Replace { range, text, .. } => {
                &&& range matches Some(r) ==> r.start <= r.end
                &&& self.counts(text, self.done(deed).text)
            },
            Deed::Compose { range, selected, .. } => {
                &&& range matches Some(r) ==> r.start <= r.end
                &&& selected matches Some(r) ==> r.start <= r.end
            },
            Deed::Backspace { .. } => self.counts(Seq::empty(), self.done(deed).text),
            Deed::Delete { .. } => self.counts(Seq::empty(), self.done(deed).text),
            Deed::Insert { text, .. } => self.counts(text, self.done(deed).text),
            Deed::ReplaceSelection { text, .. } => self.counts(text, self.done(deed).text),
            Deed::ReplaceAll { text, .. } => self.counts(text, self.done(deed).text),
            Deed::Undo { .. } => self.undo.committed().undos.len() > 0 ==> byte_len(self.text)
                + recorded_len(last_changes(self.undo)) <= usize::MAX,
            Deed::Redo { .. } => self.undo.committed().redos.len() > 0 ==> {
                &&& byte_len(self.text) + recorded_len(next_changes(self.undo)) <= usize::MAX
                &&& byte_len(all_applied(next_changes(self.undo), self.text)) + recorded_len(
                    next_changes(self.undo),
                ) <= usize::MAX
            },
            _ => true,
        }
    }

    pub open spec fn can_do_all(self, deeds: Seq<Deed>) -> bool
        decreases deeds.len(),
    {
        deeds.len() > 0 ==> self.can_do_all(deeds.drop_last()) && self.all_done(
            deeds.drop_last(),
        ).can_do(deeds.last())
    }

    /// Whether nothing was recorded yet.
    pub open spec fn fresh(self) -> bool {
        &&& self.wf()
        &&& byte_len(self.text) <= usize::MAX
        &&& self.undo.undos.len() == 0
        &&& self.undo.redos.len() == 0
        &&& self.undo.open is None
        &&& !self.undo.ignoring
    }

    /// What holds of a plain input at all times.
    #[verifier::opaque]
    pub open spec fn plainly_sound(self) -> bool {
        &&& self.plain()
        &&& self.wf()
        &&& self.records()
        &&& self.let_in()
    }

    /// What holds of a masked input at all times, as long as nothing is composed in it.
    #[verifier::opaque]
    pub open spec fn formatted_soundly(self) -> bool {
        &&& self.mask_rules()
        &&& self.wf()
        &&& self.records()
        &&& self.settled_history()
    }
}

proof fn lemma_edit_rules(
    s: StateView,
    range: Option<Range<usize>>,
    t: Seq<char>,
    selected: Option<Range<usize>>,
    v: Verdicts,
)
    ensures
        s.replaced(range, t, v).same_rules(s),
        s.marked(range, t, selected, v).same_rules(s),
{
    reveal(StateView::replaced);
    reveal(StateView::marked);
}

proof fn lemma_silent_rules(s: StateView, range: Option<Range<usize>>, t: Seq<char>, v: Verdicts)
    ensures
        s.replaced_silently(range, t, v).same_rules(s),
{
    lemma_edit_rules(s.silenced(true), range, t, None, v);
}

/// Once a program has edited, the rules of an input are as they were.
proof fn lemma_restored_rules(s: StateView, p: StateView)
    requires
        p.same_rules(s.announced()),
    ensures
        p.restored(s).same_rules(s),
        p.collapsed().restored(s).same_rules(s),
        (StateView { mode: p.mode.unparsed(), ..p }).restored(s).same_rules(s),
{
}

proof fn lemma_inserted_rules(s: StateView, t: Seq<char>, v: Verdicts)
    ensures
        s.inserted(t, v).same_rules(s),
{
    let range = Some(s.cursor_utf16());
    lemma_silent_rules(s.announced(), range, t, v);
    lemma_restored_rules(s, s.announced().replaced_silently(range, t, v));
}

proof fn lemma_replaced_freely_rules(s: StateView, t: Seq<char>, v: Verdicts)
    ensures
        s.replaced_freely(t, v).same_rules(s),
{
    reveal(StateView::replaced_freely);
    lemma_silent_rules(s.announced(), None, t, v);
    lemma_restored_rules(s, s.announced().replaced_silently(None, t, v));
}

proof fn lemma_all_replaced_rules(s: StateView, t: Seq<char>, v: Verdicts)
    ensures
        s.with_all_replaced(t, v).same_rules(s),
{
    let range = Some(s.all_utf16());
    lemma_silent_rules(s.announced(), range, t, v);
    lemma_restored_rules(s, s.announced().replaced_silently(range, t, v));
    lemma_reset_rules(s.rewritten(t, v));
}

proof fn lemma_reset_rules(s: StateView)
    ensures
        s.cursor_reset().features_reset().scroll_reset().same_rules(s),
{
}

/// What keeps an input sound.
proof fn lemma_plain_kept(p: StateView, q: StateView)
    requires
        p.plainly_sound(),
        q.wf(),
        q.same_rules(p),
        q.still_records(),
        byte_len(q.text) <= usize::MAX,
        q.let_in(),
    ensures
        q.plainly_sound(),
{
    reveal(StateView::plainly_sound);
}

/// What is sound stays so where neither the text nor what was recorded of it changes.
proof fn lemma_plain_alike(p: StateView, q: StateView)
    requires
        p.plainly_sound(),
        q.wf(),
        q.same_rules(p),
        q.text == p.text,
        q.undo.undos == p.undo.undos,
        q.undo.redos == p.undo.redos,
        q.undo.open == p.undo.open,
        q.undo.ignoring == p.undo.ignoring,
    ensures
        q.plainly_sound(),
{
    reveal(StateView::plainly_sound);
    reveal(StateView::let_in);
}

proof fn lemma_plain_replace(s: StateView, range: Option<Range<usize>>, t: Seq<char>, v: Verdicts)
    requires
        s.plainly_sound(),
        range matches Some(r) ==> r.start <= r.end,
        byte_len(s.replaced(range, t, v).text) <= usize::MAX,
    ensures
        s.replaced(range, t, v).plainly_sound(),
{
    assert(s.plain() && s.wf() && s.records() && s.let_in()) by {
        reveal(StateView::plainly_sound);
    }
    law_edits_keep_wf(s, range, t, None, v);
    law_edits_keep_history_true(s, range, t, None, v);
    law_only_what_was_let_in(s, range, t, None, v, Seq::empty());
    lemma_edit_rules(s, range, t, None, v);
    lemma_plain_kept(s, s.replaced(range, t, v));
}

proof fn lemma_plain_compose(
    s: StateView,
    range: Option<Range<usize>>,
    t: Seq<char>,
    selected: Option<Range<usize>>,
    v: Verdicts,
)
    requires
        s.plainly_sound(),
        range matches Some(r) ==> r.start <= r.end,
        selected matches Some(r) ==> r.start <= r.end,
        byte_len(s.marked(range, t, selected, v).text) <= usize::MAX,
    ensures
        s.marked(range, t, selected, v).plainly_sound(),
{
    assert(s.plain() && s.wf() && s.records() && s.let_in()) by {
        reveal(StateView::plainly_sound);
    }
    law_edits_keep_wf(s, range, t, selected, v);
    law_edits_keep_history_true(s, range, t, selected, v);
    law_only_what_was_let_in(s, range, t, selected, v, Seq::empty());
    lemma_edit_rules(s, range, t, selected, v);
    lemma_plain_kept(s, s.marked(range, t, selected, v));
}

proof fn lemma_plain_unmark(s: StateView)
    requires
        s.plainly_sound(),
    ensures
        s.unmarked().plainly_sound(),
{
    reveal(StateView::plainly_sound);
    lemma_history_wf(s.undo);
    law_transactions_tell(s.undo, s.text);
    law_only_what_was_let_in(
        s,
        None,
        Seq::empty(),
        None,
        arbitrary(),
        Seq::empty(),
    );
}

proof fn lemma_plain_program(s: StateView, t: Seq<char>, v: Verdicts)
    requires
        s.plainly_sound(),
    ensures
        byte_len(s.inserted(t, v).text) <= usize::MAX ==> s.inserted(t, v).plainly_sound(),
        byte_len(s.replaced_freely(t, v).text) <= usize::MAX ==> s.replaced_freely(
            t,
            v,
        ).plainly_sound(),
        byte_len(s.with_all_replaced(t, v).text) <= usize::MAX ==> s.with_all_replaced(
            t,
            v,
        ).plainly_sound(),
{
    assert(s.wf() && s.records() && s.ready_for_programs()) by {
        reveal(StateView::plainly_sound);
        reveal(StateView::ready_for_programs);
    }
    law_programs_keep_wf(s, t, v);
    law_programs_keep_history_true(s, t, v);
    law_programs_put_in_what_is_let_in(s, t, v);
    lemma_inserted_rules(s, t, v);
    lemma_replaced_freely_rules(s, t, v);
    lemma_all_replaced_rules(s, t, v);
    let inserted = s.inserted(t, v);
    let replaced = s.replaced_freely(t, v);
    let rewritten = s.with_all_replaced(t, v);
    if byte_len(inserted.text) <= usize::MAX {
        lemma_plain_kept(s, inserted);
    }
    if byte_len(replaced.text) <= usize::MAX {
        lemma_plain_kept(s, replaced);
    }
    if byte_len(rewritten.text) <= usize::MAX {
        lemma_plain_kept(s, rewritten);
    }
}

proof fn lemma_replays_pass(s: StateView)
    requires
        s.let_in(),
    ensures
        s.undo.committed().undos.len() > 0 ==> changes_passing(
            last_changes(s.undo),
            s.intake(),
        ),
        s.undo.committed().redos.len() > 0 ==> changes_passing(
            next_changes(s.undo),
            s.intake(),
        ),
        changes_passing(latest_changes(s.undo), s.intake()),
{
    reveal(StateView::let_in);
    let h = s.undo.committed();
    if h.undos.len() > 0 {
        assert(h.undos[h.undos.len() - 1] == h.undos.last());
        if h.undos == s.undo.undos {
            assert(changes_passing(s.undo.undos[s.undo.undos.len() - 1].changes, s.intake()));
        }
    }
    if h.redos.len() > 0 {
        assert(changes_passing(s.undo.redos[s.undo.redos.len() - 1].changes, s.intake()));
    }
    if s.undo.undos.len() > 0 {
        assert(changes_passing(s.undo.undos[s.undo.undos.len() - 1].changes, s.intake()));
    }
}

/// Undo and redo leave the input recording. Where there is nothing to undo or
/// to redo, all else stays as well.
proof fn lemma_nothing_replayed(s: StateView, vs: Seq<Verdicts>)
    ensures
        !s.undone(vs).undo.ignoring,
        !s.redone(vs).undo.ignoring,
        s.undo.committed().undos.len() == 0 ==> {
            let u = s.undone(vs);
            let k = s.undo.committed();
            &&& u.text == s.text
            &&& u.same_rules(s)
            &&& (u.undo.undos, u.undo.redos, u.undo.open) == (k.undos, k.redos, k.open)
        },
        s.undo.committed().redos.len() == 0 ==> {
            let r = s.redone(vs);
            let k = s.undo.committed();
            &&& r.text == s.text
            &&& r.same_rules(s)
            &&& (r.undo.undos, r.undo.redos, r.undo.open) == (k.undos, k.redos, k.open)
        },
{
}

proof fn lemma_undo_true(s: StateView, vs: Seq<Verdicts>)
    requires
        s.plain(),
        s.wf(),
        s.undo.tells(s.text),
        s.let_in(),
        s.undo.committed().undos.len() > 0 ==> byte_len(s.text) + recorded_len(
            last_changes(s.undo),
        ) <= usize::MAX,
    ensures
        s.undone(vs).undo.tells(s.undone(vs).text),
        s.undone(vs).same_rules(s),
{
    if s.undo.committed().undos.len() > 0 {
        lemma_replays_pass(s);
        law_undo_gives_back(s, vs);
    } else {
        law_transactions_tell(s.undo, s.text);
        lemma_nothing_replayed(s, vs);
    }
}

proof fn lemma_plain_undo(s: StateView, vs: Seq<Verdicts>)
    requires
        s.plainly_sound(),
        byte_len(s.undone(vs).text) <= usize::MAX,
        s.undo.committed().undos.len() > 0 ==> byte_len(s.text) + recorded_len(
            last_changes(s.undo),
        ) <= usize::MAX,
    ensures
        s.undone(vs).plainly_sound(),
{
    assert(s.plain() && s.wf() && s.records() && s.let_in()) by {
        reveal(StateView::plainly_sound);
    }
    lemma_undo_true(s, vs);
    let after = s.undone(vs);
    assert(after.wf()) by {
        law_history_keeps_wf(s, vs);
    }
    assert(after.let_in()) by {
        law_only_what_was_let_in(s, None, Seq::empty(), None, arbitrary(), vs);
    }
    assert(!after.undo.ignoring) by {
        lemma_nothing_replayed(s, vs);
    }
    lemma_plain_kept(s, after);
}

proof fn lemma_redo_true(s: StateView, vs: Seq<Verdicts>)
    requires
        s.plain(),
        s.wf(),
        s.undo.tells(s.text),
        s.let_in(),
        s.undo.committed().redos.len() > 0 ==> byte_len(s.text) + recorded_len(
            next_changes(s.undo),
        ) <= usize::MAX,
    ensures
        s.redone(vs).undo.tells(s.redone(vs).text),
        s.redone(vs).same_rules(s),
{
    if s.undo.committed().redos.len() > 0 {
        lemma_replays_pass(s);
        law_redo_gives_back(s, vs);
    } else {
        law_transactions_tell(s.undo, s.text);
        lemma_nothing_replayed(s, vs);
    }
}

proof fn lemma_plain_redo(s: StateView, vs: Seq<Verdicts>)
    requires
        s.plainly_sound(),
        byte_len(s.redone(vs).text) <= usize::MAX,
        s.undo.committed().redos.len() > 0 ==> byte_len(s.text) + recorded_len(
            next_changes(s.undo),
        ) <= usize::MAX,
    ensures
        s.redone(vs).plainly_sound(),
{
    assert(s.plain() && s.wf() && s.records() && s.let_in()) by {
        reveal(StateView::plainly_sound);
    }
    lemma_redo_true(s, vs);
    let after = s.redone(vs);
    assert(after.wf()) by {
        law_history_keeps_wf(s, vs);
    }
    assert(after.let_in()) by {
        law_only_what_was_let_in(s, None, Seq::empty(), None, arbitrary(), vs);
    }
    assert(!after.undo.ignoring) by {
        lemma_nothing_replayed(s, vs);
    }
    lemma_plain_kept(s, after);
}

proof fn lemma_plain_backspace(s: StateView, v: Verdicts)
    requires
        s.plainly_sound(),
        byte_len(s.backspace_base().replaced(None, Seq::empty(), v).text) <= usize::MAX,
    ensures
        s.backspace_base().replaced(None, Seq::empty(), v).plainly_sound(),
{
    assert(s.wf()) by {
        reveal(StateView::plainly_sound);
    }
    law_moves_keep_wf(s, 0, Range { start: 0, end: 0 });
    lemma_plain_alike(s, s.backspace_base());
    lemma_plain_replace(s.backspace_base(), None, Seq::empty(), v);
}

proof fn lemma_plain_delete(s: StateView, v: Verdicts)
    requires
        s.plainly_sound(),
        byte_len(s.delete_base().replaced(None, Seq::empty(), v).text) <= usize::MAX,
    ensures
        s.delete_base().replaced(None, Seq::empty(), v).plainly_sound(),
{
    assert(s.wf()) by {
        reveal(StateView::plainly_sound);
    }
    law_moves_keep_wf(s, 0, Range { start: 0, end: 0 });
    lemma_plain_alike(s, s.delete_base());
    lemma_plain_replace(s.delete_base(), None, Seq::empty(), v);
}

proof fn lemma_plain_move(s: StateView, offset: nat)
    requires
        s.plainly_sound(),
    ensures
        s.moved_to(offset as int).plainly_sound(),
        s.selected_to(offset as int).plainly_sound(),
{
    assert(s.wf()) by {
        reveal(StateView::plainly_sound);
    }
    law_moves_keep_wf(s, offset as int, Range { start: 0, end: 0 });
    lemma_plain_alike(s, s.moved_to(offset as int));
    lemma_plain_alike(s, s.selected_to(offset as int));
}

proof fn lemma_plain_edited(s: StateView, deed: Deed)
    requires
        s.plainly_sound(),
        s.can_do(deed),
        deed is Replace || deed is Compose || deed is EndComposition || deed is Backspace
            || deed is Delete,
    ensures
        s.done(deed).plainly_sound(),
{
    match deed {
        Deed::Replace { range, text, verdicts } => lemma_plain_replace(s, range, text, verdicts),
        Deed::Compose { range, text, selected, verdicts } => lemma_plain_compose(
            s,
            range,
            text,
            selected,
            verdicts,
        ),
        Deed::EndComposition => lemma_plain_unmark(s),
        Deed::Backspace { verdicts } => lemma_plain_backspace(s, verdicts),
        Deed::Delete { verdicts } => lemma_plain_delete(s, verdicts),
        _ => {},
    }
}

proof fn lemma_plain_programmed(s: StateView, deed: Deed)
    requires
        s.plainly_sound(),
        s.can_do(deed),
        deed is Insert || deed is ReplaceSelection || deed is ReplaceAll,
    ensures
        s.done(deed).plainly_sound(),
{
    match deed {
        Deed::Insert { text, verdicts } => lemma_plain_program(s, text, verdicts),
        Deed::ReplaceSelection { text, verdicts } => lemma_plain_program(s, text, verdicts),
        Deed::ReplaceAll { text, verdicts } => lemma_plain_program(s, text, verdicts),
        _ => {},
    }
}

proof fn lemma_plain_rest(s: StateView, deed: Deed)
    requires
        s.plainly_sound(),
        s.can_do(deed),
        deed is Move || deed is Select || deed is Undo || deed is Redo,
    ensures
        s.done(deed).plainly_sound(),
{
    match deed {
        Deed::Move { offset } => lemma_plain_move(s, offset),
        Deed::Select { offset } => lemma_plain_move(s, offset),
        Deed::Undo { each } => lemma_plain_undo(s, each),
        Deed::Redo { each } => lemma_plain_redo(s, each),
        _ => {},
    }
}

/// Whatever is done to a plain input, it stays plain and well-formed, its
/// history stays true of its text, and neither holds what the input would not
/// let in.
pub proof fn law_plain_stays_sound(s: StateView, deeds: Seq<Deed>)
    requires
        s.plain(),
        s.fresh(),
        passes(s.text, s.intake()),
        s.can_do_all(deeds),
    ensures
        s.all_done(deeds).plainly_sound(),
    decreases deeds.len(),
{
    if deeds.len() == 0 {
        reveal(StateView::plainly_sound);
        reveal(StateView::let_in);
    } else {
        law_plain_stays_sound(s, deeds.drop_last());
        let p = s.all_done(deeds.drop_last());
        let deed = deeds.last();
        match deed {
            Deed::Insert { .. } => lemma_plain_programmed(p, deed),
            Deed::ReplaceSelection { .. } => lemma_plain_programmed(p, deed),
            Deed::ReplaceAll { .. } => lemma_plain_programmed(p, deed),
            Deed::Move { .. } => lemma_plain_rest(p, deed),
            Deed::Select { .. } => lemma_plain_rest(p, deed),
            Deed::Undo { .. } => lemma_plain_rest(p, deed),
            Deed::Redo { .. } => lemma_plain_rest(p, deed),
            _ => lemma_plain_edited(p, deed),
        }
    }
}

/// Undo takes back an edit that started a transaction of its own, whatever was
/// done to the plain input before: the text and, for edits other than single
/// deletes, the selection are what they were.
pub proof fn law_plain_undo_always(
    s: StateView,
    deeds: Seq<Deed>,
    range: Option<Range<usize>>,
    t: Seq<char>,
    v: Verdicts,
    vs: Seq<Verdicts>,
)
    requires
        s.plain(),
        s.fresh(),
        passes(s.text, s.intake()),
        s.can_do_all(deeds),
        range matches Some(r) ==> r.start <= r.end,
        ({
            let before = s.all_done(deeds);
            &&& before.undo.open is None
            &&& before.undo.pending_intent == Some(EditIntent::Atomic) || !before.undo.coalescing
            &&& before.replaced(range, t, v).text != before.text
            &&& 3 * byte_len(before.text) + 3 * byte_len(before.normalized(t)) <= usize::MAX
        }),
    ensures
        ({
            let before = s.all_done(deeds);
            let back = before.replaced(range, t, v).undone(vs);
            let intent = before.undo.pending_intent;
            &&& back.text == before.text
            &&& intent is None || intent == Some(EditIntent::Atomic) ==> back.selected
                == before.selected
        }),
{
    law_plain_stays_sound(s, deeds);
    let before = s.all_done(deeds);
    assert(before.plain() && before.wf() && before.records() && before.let_in()) by {
        reveal(StateView::plainly_sound);
    }
    assert(passes(before.text, before.intake())) by {
        reveal(StateView::let_in);
    }
    law_undo_takes_back_edit(before, range, t, v, vs);
}

/// Redo gives a plain input exactly the text and the selection that it had
/// after an edit that was undone, whatever was done to the input before.
pub proof fn law_plain_redo_always(
    s: StateView,
    deeds: Seq<Deed>,
    range: Option<Range<usize>>,
    t: Seq<char>,
    v: Verdicts,
    vs: Seq<Verdicts>,
    ws: Seq<Verdicts>,
)
    requires
        s.plain(),
        s.fresh(),
        passes(s.text, s.intake()),
        s.can_do_all(deeds),
        range matches Some(r) ==> r.start <= r.end,
        ({
            let before = s.all_done(deeds);
            let after = before.replaced(range, t, v);
            &&& before.lands(range)
            &&& after.text != before.text
            &&& before.undo.open is Some ==> after.undo.committed().undos != before.undo.undos
            &&& byte_len(after.text) + 2 * recorded_len(last_changes(after.undo)) <= usize::MAX
        }),
    ensures
        ({
            let after = s.all_done(deeds).replaced(range, t, v);
            let again = after.undone(vs).redone(ws);
            again.text == after.text && again.selected == after.selected
        }),
{
    law_plain_stays_sound(s, deeds);
    let before = s.all_done(deeds);
    assert(before.plain() && before.wf() && before.records() && before.let_in()) by {
        reveal(StateView::plainly_sound);
    }
    assert(passes(before.text, before.intake())) by {
        reveal(StateView::let_in);
    }
    lemma_replays_pass(before);
    law_redo_gives_back_edit(before, range, t, v, vs, ws);
}

/// Whatever was done to a plain input, be it by the user, by input methods or
/// by programs: what undo takes back, redo gives back. The text is what it was
/// before both, and the selection what it was after the last change.
pub proof fn law_plain_redo_follows_undo(
    s: StateView,
    deeds: Seq<Deed>,
    vs: Seq<Verdicts>,
    ws: Seq<Verdicts>,
)
    requires
        s.plain(),
        s.fresh(),
        passes(s.text, s.intake()),
        s.can_do_all(deeds),
        ({
            let h = s.all_done(deeds).undo;
            &&& h.committed().undos.len() > 0
            &&& byte_len(s.all_done(deeds).text) + 2 * recorded_len(last_changes(h)) <= usize::MAX
        }),
    ensures
        ({
            let before = s.all_done(deeds);
            let again = before.undone(vs).redone(ws);
            &&& again.text == before.text
            &&& again.selected == last_changes(before.undo).last().selection_after
        }),
{
    law_plain_stays_sound(s, deeds);
    let before = s.all_done(deeds);
    assert(before.plain() && before.wf() && before.records() && before.let_in()) by {
        reveal(StateView::plainly_sound);
    }
    lemma_replays_pass(before);
    law_redo_undoes_undo(before, vs, ws);
}

// ---------------------------------------------------------------------------
// Masked inputs

/// What keeps a masked input sound.
proof fn lemma_masked_kept(p: StateView, q: StateView)
    requires
        p.formatted_soundly(),
        q.wf(),
        q.same_rules(p),
        q.still_records(),
        byte_len(q.text) <= usize::MAX,
        q.settled_history(),
    ensures
        q.formatted_soundly(),
{
    reveal(StateView::formatted_soundly);
}

proof fn lemma_masked_alike(p: StateView, q: StateView)
    requires
        p.formatted_soundly(),
        q.wf(),
        q.same_rules(p),
        q.text == p.text,
        q.undo.undos == p.undo.undos,
        q.undo.redos == p.undo.redos,
        q.undo.open == p.undo.open,
        q.undo.ignoring == p.undo.ignoring,
    ensures
        q.formatted_soundly(),
{
    reveal(StateView::formatted_soundly);
    reveal(StateView::settled_history);
}

proof fn lemma_masked_replace(
    s: StateView,
    range: Option<Range<usize>>,
    t: Seq<char>,
    v: Verdicts,
)
    requires
        s.formatted_soundly(),
        range matches Some(r) ==> r.start <= r.end,
        s.counts(t, s.replaced(range, t, v).text),
        byte_len(s.replaced(range, t, v).text) <= usize::MAX,
    ensures
        s.replaced(range, t, v).formatted_soundly(),
{
    assert(s.mask_rules() && s.wf() && s.records() && s.settled_history()) by {
        reveal(StateView::formatted_soundly);
    }
    law_edits_keep_wf(s, range, t, None, v);
    law_edits_keep_history_true(s, range, t, None, v);
    assert(s.replaced(range, t, v).settled_history()) by {
        reveal(StateView::counts);
        law_masked_history_settles(s, range, t, v);
    }
    lemma_edit_rules(s, range, t, None, v);
    lemma_masked_kept(s, s.replaced(range, t, v));
}

proof fn lemma_counts_alike(p: StateView, q: StateView, t: Seq<char>, after: Seq<char>)
    requires
        p.counts(t, after),
        q.text == p.text,
        q.same_rules(p),
    ensures
        q.counts(t, after),
{
    reveal(StateView::counts);
}

proof fn lemma_masked_backspace(s: StateView, v: Verdicts)
    requires
        s.formatted_soundly(),
        s.counts(Seq::empty(), s.backspace_base().replaced(None, Seq::empty(), v).text),
        byte_len(s.backspace_base().replaced(None, Seq::empty(), v).text) <= usize::MAX,
    ensures
        s.backspace_base().replaced(None, Seq::empty(), v).formatted_soundly(),
{
    assert(s.wf()) by {
        reveal(StateView::formatted_soundly);
    }
    let base = s.backspace_base();
    law_moves_keep_wf(s, 0, Range { start: 0, end: 0 });
    lemma_masked_alike(s, base);
    lemma_counts_alike(s, base, Seq::empty(), base.replaced(None, Seq::empty(), v).text);
    lemma_masked_replace(base, None, Seq::empty(), v);
}

proof fn lemma_masked_delete(s: StateView, v: Verdicts)
    requires
        s.formatted_soundly(),
        s.counts(Seq::empty(), s.delete_base().replaced(None, Seq::empty(), v).text),
        byte_len(s.delete_base().replaced(None, Seq::empty(), v).text) <= usize::MAX,
    ensures
        s.delete_base().replaced(None, Seq::empty(), v).formatted_soundly(),
{
    assert(s.wf()) by {
        reveal(StateView::formatted_soundly);
    }
    let base = s.delete_base();
    law_moves_keep_wf(s, 0, Range { start: 0, end: 0 });
    lemma_masked_alike(s, base);
    lemma_counts_alike(s, base, Seq::empty(), base.replaced(None, Seq::empty(), v).text);
    lemma_masked_replace(base, None, Seq::empty(), v);
}

proof fn lemma_masked_move(s: StateView, offset: nat)
    requires
        s.formatted_soundly(),
    ensures
        s.moved_to(offset as int).formatted_soundly(),
        s.selected_to(offset as int).formatted_soundly(),
{
    assert(s.wf()) by {
        reveal(StateView::formatted_soundly);
    }
    law_moves_keep_wf(s, offset as int, Range { start: 0, end: 0 });
    lemma_masked_alike(s, s.moved_to(offset as int));
    lemma_masked_alike(s, s.selected_to(offset as int));
}

/// Nothing is open in the history of a sound masked input, so ending a
/// composition leaves all but that as it is.
proof fn lemma_masked_unmark(s: StateView)
    requires
        s.formatted_soundly(),
    ensures
        s.unmarked().formatted_soundly(),
{
    assert(s.undo.open is None && s.wf()) by {
        reveal(StateView::formatted_soundly);
        reveal(StateView::settled_history);
    }
    lemma_masked_alike(s, s.unmarked());
}

proof fn lemma_masked_program(s: StateView, t: Seq<char>, v: Verdicts)
    requires
        s.formatted_soundly(),
    ensures
        byte_len(s.inserted(t, v).text) <= usize::MAX && s.counts(t, s.inserted(t, v).text)
            ==> s.inserted(t, v).formatted_soundly(),
        byte_len(s.replaced_freely(t, v).text) <= usize::MAX && s.counts(
            t,
            s.replaced_freely(t, v).text,
        ) ==> s.replaced_freely(t, v).formatted_soundly(),
        byte_len(s.with_all_replaced(t, v).text) <= usize::MAX && s.counts(
            t,
            s.with_all_replaced(t, v).text,
        ) ==> s.with_all_replaced(t, v).formatted_soundly(),
{
    assert(s.wf() && s.records() && s.masked_soundly()) by {
        reveal(StateView::formatted_soundly);
        reveal(StateView::masked_soundly);
    }
    law_programs_keep_wf(s, t, v);
    law_programs_keep_history_true(s, t, v);
    law_masked_programs_settle(s, t, v);
    lemma_inserted_rules(s, t, v);
    lemma_replaced_freely_rules(s, t, v);
    lemma_all_replaced_rules(s, t, v);
    let inserted = s.inserted(t, v);
    let replaced = s.replaced_freely(t, v);
    let rewritten = s.with_all_replaced(t, v);
    if byte_len(inserted.text) <= usize::MAX && s.counts(t, inserted.text) {
        lemma_masked_kept(s, inserted);
    }
    if byte_len(replaced.text) <= usize::MAX && s.counts(t, replaced.text) {
        lemma_masked_kept(s, replaced);
    }
    if byte_len(rewritten.text) <= usize::MAX && s.counts(t, rewritten.text) {
        lemma_masked_kept(s, rewritten);
    }
}

proof fn lemma_masked_undo(s: StateView, vs: Seq<Verdicts>)
    requires
        s.formatted_soundly(),
        byte_len(s.undone(vs).text) <= usize::MAX,
        s.undo.committed().undos.len() > 0 ==> byte_len(s.text) + recorded_len(
            last_changes(s.undo),
        ) <= usize::MAX,
    ensures
        s.undone(vs).formatted_soundly(),
{
    assert(s.mask_rules() && s.wf() && s.records() && s.settled_history()) by {
        reveal(StateView::formatted_soundly);
    }
    assert(s.undo.open is None) by {
        reveal(StateView::settled_history);
    }
    law_masked_undo_settles(s, vs);
    assert(s.undone(vs).wf()) by {
        law_history_keeps_wf(s, vs);
    }
    assert(!s.undone(vs).undo.ignoring) by {
        lemma_nothing_replayed(s, vs);
    }
    lemma_masked_kept(s, s.undone(vs));
}

proof fn lemma_masked_redo(s: StateView, vs: Seq<Verdicts>)
    requires
        s.formatted_soundly(),
        byte_len(s.redone(vs).text) <= usize::MAX,
        s.undo.committed().redos.len() > 0 ==> byte_len(
            all_applied(next_changes(s.undo), s.text),
        ) + recorded_len(next_changes(s.undo)) <= usize::MAX,
    ensures
        s.redone(vs).formatted_soundly(),
{
    assert(s.mask_rules() && s.wf() && s.records() && s.settled_history()) by {
        reveal(StateView::formatted_soundly);
    }
    assert(s.undo.open is None) by {
        reveal(StateView::settled_history);
    }
    law_masked_redo_settles(s, vs);
    assert(s.redone(vs).wf()) by {
        law_history_keeps_wf(s, vs);
    }
    assert(!s.redone(vs).undo.ignoring) by {
        lemma_nothing_replayed(s, vs);
    }
    lemma_masked_kept(s, s.redone(vs));
}

proof fn lemma_masked_edited(s: StateView, deed: Deed)
    requires
        s.formatted_soundly(),
        s.can_do(deed),
        deed is Replace || deed is EndComposition || deed is Backspace || deed is Delete,
    ensures
        s.done(deed).formatted_soundly(),
{
    match deed {
        Deed::Replace { range, text, verdicts } => lemma_masked_replace(s, range, text, verdicts),
        Deed::EndComposition => lemma_masked_unmark(s),
        Deed::Backspace { verdicts } => lemma_masked_backspace(s, verdicts),
        Deed::Delete { verdicts } => lemma_masked_delete(s, verdicts),
        _ => {},
    }
}

proof fn lemma_masked_programmed(s: StateView, deed: Deed)
    requires
        s.formatted_soundly(),
        s.can_do(deed),
        deed is Insert || deed is ReplaceSelection || deed is ReplaceAll,
    ensures
        s.done(deed).formatted_soundly(),
{
    match deed {
        Deed::Insert { text, verdicts } => lemma_masked_program(s, text, verdicts),
        Deed::ReplaceSelection { text, verdicts } => lemma_masked_program(s, text, verdicts),
        Deed::ReplaceAll { text, verdicts } => lemma_masked_program(s, text, verdicts),
        _ => {},
    }
}

proof fn lemma_masked_rest(s: StateView, deed: Deed)
    requires
        s.formatted_soundly(),
        s.can_do(deed),
        deed is Move || deed is Select || deed is Undo || deed is Redo,
    ensures
        s.done(deed).formatted_soundly(),
{
    match deed {
        Deed::Move { offset } => lemma_masked_move(s, offset),
        Deed::Select { offset } => lemma_masked_move(s, offset),
        Deed::Undo { each } => lemma_masked_undo(s, each),
        Deed::Redo { each } => lemma_masked_redo(s, each),
        _ => {},
    }
}

/// Whether no input method composes text.
pub open spec fn composes_nothing(deeds: Seq<Deed>) -> bool {
    forall|k: int| 0 <= k < deeds.len() ==> !((#[trigger] deeds[k]) is Compose)
}

/// Whatever is done to a masked input, its text and all that its history goes
/// through are as the mask formats them, and the history stays true of the
/// text. Text that is being composed is formatted only once it is put in.
pub proof fn law_masked_stays_sound(s: StateView, deeds: Seq<Deed>)
    requires
        s.mask_rules(),
        s.fresh(),
        s.settles(s.text),
        composes_nothing(deeds),
        s.can_do_all(deeds),
    ensures
        s.all_done(deeds).formatted_soundly(),
    decreases deeds.len(),
{
    if deeds.len() == 0 {
        reveal(StateView::formatted_soundly);
        reveal(StateView::settled_history);
    } else {
        let rest = deeds.drop_last();
        assert forall|k: int| 0 <= k < rest.len() implies !((#[trigger] rest[k]) is Compose) by {
            assert(rest[k] == deeds[k]);
        }
        law_masked_stays_sound(s, rest);
        let p = s.all_done(rest);
        let deed = deeds[deeds.len() - 1];
        match deed {
            Deed::Insert { .. } => lemma_masked_programmed(p, deed),
            Deed::ReplaceSelection { .. } => lemma_masked_programmed(p, deed),
            Deed::ReplaceAll { .. } => lemma_masked_programmed(p, deed),
            Deed::Move { .. } => lemma_masked_rest(p, deed),
            Deed::Select { .. } => lemma_masked_rest(p, deed),
            Deed::Undo { .. } => lemma_masked_rest(p, deed),
            Deed::Redo { .. } => lemma_masked_rest(p, deed),
            _ => lemma_masked_edited(p, deed),
        }
    }
}

/// Undo takes back an edit that started a transaction of its own, whatever was
/// done to the masked input before: the text, even where the mask had
/// rewritten it, and, for edits other than single deletes, the selection are
/// what they were.
pub proof fn law_masked_undo_always(
    s: StateView,
    deeds: Seq<Deed>,
    range: Option<Range<usize>>,
    t: Seq<char>,
    v: Verdicts,
    vs: Seq<Verdicts>,
)
    requires
        s.mask_rules(),
        s.fresh(),
        s.settles(s.text),
        composes_nothing(deeds),
        s.can_do_all(deeds),
        range matches Some(r) ==> r.start <= r.end,
        ({
            let before = s.all_done(deeds);
            let after = before.replaced(range, t, v);
            &&& before.undo.pending_intent == Some(EditIntent::Atomic) || !before.undo.coalescing
            &&& after.text != before.text
            &&& byte_len(before.text) + byte_len(after.text) + byte_len(before.normalized(t))
                <= usize::MAX
        }),
    ensures
        ({
            let before = s.all_done(deeds);
            let back = before.replaced(range, t, v).undone(vs);
            let intent = before.undo.pending_intent;
            &&& back.text == before.text
            &&& intent is None || intent == Some(EditIntent::Atomic) ==> back.selected
                == before.selected
        }),
{
    law_masked_stays_sound(s, deeds);
    let before = s.all_done(deeds);
    assert(before.mask_rules() && before.wf() && before.records() && before.settled_history())
        by {
        reveal(StateView::formatted_soundly);
    }
    assert(edits_alone(before, range, t, v)) by {
        reveal(StateView::settled_history);
    }
    law_masked_undo(before, range, t, v, vs);
}

/// Redo gives a masked input exactly the text that it had after an edit that
/// was undone, whatever was done to the input before, and the selection too,
/// where the edit started between two `char`s or reached the end of the text,
/// or the mask rewrote the text.
pub proof fn law_masked_redo_always(
    s: StateView,
    deeds: Seq<Deed>,
    range: Option<Range<usize>>,
    t: Seq<char>,
    v: Verdicts,
    vs: Seq<Verdicts>,
    ws: Seq<Verdicts>,
)
    requires
        s.mask_rules(),
        s.fresh(),
        s.settles(s.text),
        composes_nothing(deeds),
        s.can_do_all(deeds),
        range matches Some(r) ==> r.start <= r.end,
        ({
            let before = s.all_done(deeds);
            let after = before.replaced(range, t, v);
            &&& after.text != before.text
            &&& byte_len(before.text) + byte_len(after.text) + byte_len(before.normalized(t))
                <= usize::MAX
            &&& byte_len(after.text) + recorded_len(last_changes(after.undo)) <= usize::MAX
        }),
    ensures
        ({
            let before = s.all_done(deeds);
            let edit = before.edit(range, t);
            let after = before.replaced(range, t, v);
            let again = after.undone(vs).redone(ws);
            &&& again.text == after.text
            &&& before.lands(range) || edit.text != edit.pending ==> again.selected
                == after.selected
        }),
{
    law_masked_stays_sound(s, deeds);
    let before = s.all_done(deeds);
    assert(before.mask_rules() && before.wf() && before.records() && before.settled_history())
        by {
        reveal(StateView::formatted_soundly);
    }
    assert(edits_masked(before, range, t, v)) by {
        reveal(StateView::settled_history);
    }
    assert(undos_settled(before.mask, before.undo.undos, before.text)) by {
        reveal(StateView::settled_history);
    }
    law_masked_redo(before, range, t, v, vs, ws);
}

/// Whatever was done to a masked input: what undo takes back, redo gives back.
/// The text is what it was before both, and the selection what it was after
/// the last change.
pub proof fn law_masked_redo_follows_undo(
    s: StateView,
    deeds: Seq<Deed>,
    vs: Seq<Verdicts>,
    ws: Seq<Verdicts>,
)
    requires
        s.mask_rules(),
        s.fresh(),
        s.settles(s.text),
        composes_nothing(deeds),
        s.can_do_all(deeds),
        ({
            let h = s.all_done(deeds).undo;
            &&& h.committed().undos.len() > 0
            &&& byte_len(s.all_done(deeds).text) + recorded_len(last_changes(h)) <= usize::MAX
        }),
    ensures
        ({
            let before = s.all_done(deeds);
            let again = before.undone(vs).redone(ws);
            &&& again.text == before.text
            &&& again.selected == last_changes(before.undo).last().selection_after
        }),
{
    law_masked_stays_sound(s, deeds);
    let before = s.all_done(deeds);
    assert(before.mask_rules() && before.wf() && before.records() && before.settled_history())
        by {
        reveal(StateView::formatted_soundly);
    }
    assert(settled(before.mask, last_changes(before.undo), before.text)) by {
        reveal(StateView::settled_history);
    }
    law_masked_undo_and_redo(before, vs, ws);
}

} // verus!
