//! Undo and redo.
use crate::change::{change_views, Change, ChangeView};
use crate::context::{Context, ContextView, Window};
use crate::edit::Verdicts;
use crate::kind::InputModeKind;
use crate::selection::Selection;
use crate::state::{InputBaseState, StateView};
use crate::text::{lemma_to_utf16_mono, to_utf16};
use crate::undo_manager::{changes_wf, law_history_wf, EditIntent, UndoView};
use core::ops::Range;
use vstd::prelude::*;

verus! {

/// One replacement that undo or redo makes: what stands at `range` becomes `text`.
pub struct Step {
    pub range: Selection,
    pub text: Seq<char>,
}

/// What taking back `changes`, the latest first, comes to.
pub open spec fn undo_steps(changes: Seq<ChangeView>) -> Seq<Step> {
    changes.map_values(|c: ChangeView| Step { range: c.new_range, text: c.old_text })
}

/// What making `changes` again comes to.
pub open spec fn redo_steps(changes: Seq<ChangeView>) -> Seq<Step> {
    changes.map_values(|c: ChangeView| Step { range: c.old_range, text: c.new_text })
}

/// A range of bytes in UTF-16 code units.
pub open spec fn utf16_range(s: Seq<char>, range: Selection) -> Range<usize> {
    Range {
        start: to_utf16(s, range.start as int) as usize,
        end: to_utf16(s, range.end as int) as usize,
    }
}

impl StateView {
    /// The state after `steps`, `vs` being what the checks said of each.
    pub open spec fn replayed(self, steps: Seq<Step>, vs: Seq<Verdicts>) -> StateView
        decreases steps.len(),
    {
        if steps.len() == 0 {
            self
        } else {
            let s = self.replayed(steps.drop_last(), vs.drop_last());
            s.replaced_silently(
                Some(utf16_range(s.text, steps.last().range)),
                steps.last().text,
                vs.last(),
            )
        }
    }

    pub open spec fn replayed_asks(
        self,
        steps: Seq<Step>,
        vs: Seq<Verdicts>,
        window: Window,
        cx: ContextView,
    ) -> ContextView
        decreases steps.len(),
    {
        if steps.len() == 0 {
            cx
        } else {
            let s = self.replayed(steps.drop_last(), vs.drop_last());
            s.replaced_silently_asks(
                Some(utf16_range(s.text, steps.last().range)),
                steps.last().text,
                vs.last(),
                window,
                self.replayed_asks(steps.drop_last(), vs.drop_last(), window, cx),
            )
        }
    }

    /// Whether `vs` can be what the checks say of `steps`.
    pub open spec fn hears_steps(self, steps: Seq<Step>, vs: Seq<Verdicts>) -> bool
        decreases steps.len(),
    {
        vs.len() == steps.len() && (steps.len() == 0 || {
            let s = self.replayed(steps.drop_last(), vs.drop_last());
            &&& self.hears_steps(steps.drop_last(), vs.drop_last())
            &&& s.hears_silently(
                Some(utf16_range(s.text, steps.last().range)),
                steps.last().text,
                vs.last(),
            )
        })
    }

    pub open spec fn ignoring(self, ignoring: bool) -> StateView {
        StateView { undo: UndoView { ignoring, ..self.undo }, ..self }
    }

    /// This state with its last transaction moved to the redo stack, before
    /// its changes are taken back.
    pub open spec fn undo_base(self) -> StateView {
        let s = self.ignoring(true);
        StateView { undo: s.undo.undone(), ..s }
    }

    /// The replacements that undo makes.
    pub open spec fn undo_plan(self) -> Seq<Step> {
        match self.undo.to_undo() {
            Some(changes) => undo_steps(changes),
            None => Seq::empty(),
        }
    }

    /// The state after an undo: the last transaction is taken back, and the
    /// selection is what it was before it.
    pub open spec fn undone(self, vs: Seq<Verdicts>) -> StateView {
        let s = self.undo_base().replayed(self.undo_plan(), vs);
        match self.undo.to_undo() {
            Some(changes) => StateView { selected: changes.last().selection_before, ..s }.ignoring(
                false,
            ),
            None => s.ignoring(false),
        }
    }

    /// This state with its last undone transaction moved back, before its
    /// changes are made again.
    pub open spec fn redo_base(self) -> StateView {
        let s = self.ignoring(true);
        StateView { undo: s.undo.redone(), ..s }
    }

    /// The replacements that redo makes.
    pub open spec fn redo_plan(self) -> Seq<Step> {
        match self.undo.to_redo() {
            Some(changes) => redo_steps(changes),
            None => Seq::empty(),
        }
    }

    /// The state after a redo: the last undone transaction is made again, and
    /// the selection is what it was after it.
    pub open spec fn redone(self, vs: Seq<Verdicts>) -> StateView {
        let s = self.redo_base().replayed(self.redo_plan(), vs);
        match self.undo.to_redo() {
            Some(changes) => StateView { selected: changes.last().selection_after, ..s }.ignoring(
                false,
            ),
            None => s.ignoring(false),
        }
    }
}

/// An edit leaves the ranges of the state running forwards, and the history well-formed where
/// nothing is recorded.
pub proof fn lemma_replaced_silently(
    s: StateView,
    range: Option<Range<usize>>,
    t: Seq<char>,
    v: Verdicts,
)
    requires
        s.ordered(),
    ensures
        s.replaced_silently(range, t, v).ordered(),
        s.undo.ignoring ==> s.replaced_silently(range, t, v).undo == (UndoView {
            pending_intent: None,
            ..s.undo
        }),
{
    reveal(StateView::replaced);
}

proof fn lemma_replayed_step(
    s: StateView,
    steps: Seq<Step>,
    vs: Seq<Verdicts>,
    i: int,
    v: Verdicts,
    window: Window,
    cx: ContextView,
)
    requires
        0 <= i < steps.len(),
        s.hears_steps(steps.take(i), vs),
        s.replayed(steps.take(i), vs).hears_silently(
            Some(utf16_range(s.replayed(steps.take(i), vs).text, steps[i].range)),
            steps[i].text,
            v,
        ),
    ensures
        s.hears_steps(steps.take(i + 1), vs.push(v)),
        s.replayed(steps.take(i + 1), vs.push(v)) == s.replayed(
            steps.take(i),
            vs,
        ).replaced_silently(
            Some(utf16_range(s.replayed(steps.take(i), vs).text, steps[i].range)),
            steps[i].text,
            v,
        ),
        s.replayed_asks(steps.take(i + 1), vs.push(v), window, cx) == s.replayed(
            steps.take(i),
            vs,
        ).replaced_silently_asks(
            Some(utf16_range(s.replayed(steps.take(i), vs).text, steps[i].range)),
            steps[i].text,
            v,
            window,
            s.replayed_asks(steps.take(i), vs, window, cx),
        ),
{
    assert(steps.take(i + 1).drop_last() =~= steps.take(i));
    assert(vs.push(v).drop_last() =~= vs);
}

/// What undo and redo start from runs forwards and records nothing, and what they replay is
/// well-formed.
proof fn lemma_bases(s: StateView)
    requires
        s.wf(),
    ensures
        s.undo_base().ordered(),
        s.undo_base().undo.ignoring,
        s.redo_base().ordered(),
        s.redo_base().undo.ignoring,
        s.undo.to_undo() matches Some(changes) ==> changes.len() > 0 && changes_wf(changes),
        s.undo.to_redo() matches Some(changes) ==> changes.len() > 0 && changes_wf(changes),
{
    let c = ChangeView {
        old_range: Selection::at(0),
        old_text: Seq::empty(),
        new_range: Selection::at(0),
        new_text: Seq::empty(),
        selection_before: Selection::at(0),
        selection_after: Selection::at(0),
    };
    law_history_wf(s.undo, c, EditIntent::Atomic);
}

impl<M: InputModeKind> InputBaseState<M> {
    /// Stops recording and moves the last transaction to the redo stack.
    fn start_undo(&mut self) -> (changes: Option<Vec<Change>>)
        ensures
            final(self)@ == old(self)@.undo_base(),
            match changes {
                Some(v) => old(self)@.undo.to_undo() == Some(change_views(v@)),
                None => old(self)@.undo.to_undo() is None,
            },
    {
        self.ignore_edits(true);
        self.undo_manager.undo()
    }

    /// Stops recording and moves the last undone transaction back.
    fn start_redo(&mut self) -> (changes: Option<Vec<Change>>)
        ensures
            final(self)@ == old(self)@.redo_base(),
            match changes {
                Some(v) => old(self)@.undo.to_redo() == Some(change_views(v@)),
                None => old(self)@.undo.to_redo() is None,
            },
    {
        self.ignore_edits(true);
        self.undo_manager.redo()
    }

    /// Selects `selection` and records edits again.
    fn end_replay(&mut self, selection: Selection)
        ensures
            final(self)@ == (StateView { selected: selection, ..old(self)@ }).ignoring(false),
    {
        self.select(selection);
        self.ignore_edits(false);
    }

    /// Makes the replacements that take back `changes`, or make them again.
    fn replay(
        &mut self,
        changes: &Vec<Change>,
        undoing: bool,
        window: &Window,
        cx: &mut Context,
    ) -> (vs: Ghost<Seq<Verdicts>>)
        requires
            old(self)@.ordered(),
            old(self)@.undo.ignoring,
            changes_wf(change_views(changes@)),
        ensures
            ({
                let views = change_views(changes@);
                let steps = if undoing {
                    undo_steps(views)
                } else {
                    redo_steps(views)
                };
                &&& old(self)@.hears_steps(steps, vs@)
                &&& final(self)@ == old(self)@.replayed(steps, vs@)
                &&& final(cx)@ == old(self)@.replayed_asks(steps, vs@, *window, old(cx)@)
            }),
    {
        let ghost before = self@;
        let ghost asked = cx@;
        let ghost views = change_views(changes@);
        let ghost steps = if undoing {
            undo_steps(views)
        } else {
            redo_steps(views)
        };
        let ghost mut vs: Seq<Verdicts> = Seq::empty();
        for i in 0..changes.len()
            invariant
                self@.ordered(),
                self@.undo.ignoring,
                changes_wf(views),
                views == change_views(changes@),
                steps == if undoing {
                    undo_steps(views)
                } else {
                    redo_steps(views)
                },
                before.hears_steps(steps.take(i as int), vs),
                self@ == before.replayed(steps.take(i as int), vs),
                cx@ == before.replayed_asks(steps.take(i as int), vs, *window, asked),
        {
            let change = &changes[i];
            let ghost s = self@;
            assert(views[i as int].wf());
            let range: Selection = if undoing {
                change.new_range
            } else {
                change.old_range
            };
            let text: &str = if undoing {
                change.old_text.as_str()
            } else {
                change.new_text.as_str()
            };
            assert(steps[i as int] == (Step { range, text: text@ }));
            proof {
                lemma_to_utf16_mono(s.text, range.start as int, range.end as int);
            }
            let range_utf16 = self.range_to_utf16(&(range.start..range.end));
            assert(range_utf16 == utf16_range(s.text, range));
            let v = self.edit_silently(Some(range_utf16), text, window, cx);
            proof {
                lemma_replaced_silently(s, Some(range_utf16), text@, v@);
                lemma_replayed_step(before, steps, vs, i as int, v@, *window, asked);
                vs = vs.push(v@);
            }
        }
        assert(steps.take(changes@.len() as int) =~= steps);
        Ghost(vs)
    }

    /// Takes back the last transaction.
    pub fn undo(&mut self, window: &Window, cx: &mut Context)
        requires
            old(self)@.wf(),
        ensures
            exists|vs: Seq<Verdicts>| #[trigger]
                old(self)@.undo_base().hears_steps(old(self)@.undo_plan(), vs)
                    && final(self)@ == old(self)@.undone(vs)
                    && final(cx)@ == old(self)@.undo_base().replayed_asks(
                    old(self)@.undo_plan(),
                    vs,
                    *window,
                    old(cx)@,
                ),
    {
        let ghost before = self@;
        proof {
            lemma_bases(before);
        }
        let changes = self.start_undo();
        match changes {
            Some(changes) => {
                let n: usize = changes.len();
                let selection = changes[n - 1].selection_before;
                let vs = self.replay(&changes, true, window, cx);
                self.end_replay(selection);
                assert(before.undo_base().hears_steps(before.undo_plan(), vs@));
                assert(self@ == before.undone(vs@));
            },
            None => {
                self.ignore_edits(false);
                assert(before.undo_base().hears_steps(before.undo_plan(), Seq::empty()));
            },
        }
    }

    /// Makes the last undone transaction again.
    pub fn redo(&mut self, window: &Window, cx: &mut Context)
        requires
            old(self)@.wf(),
        ensures
            exists|vs: Seq<Verdicts>| #[trigger]
                old(self)@.redo_base().hears_steps(old(self)@.redo_plan(), vs)
                    && final(self)@ == old(self)@.redone(vs)
                    && final(cx)@ == old(self)@.redo_base().replayed_asks(
                    old(self)@.redo_plan(),
                    vs,
                    *window,
                    old(cx)@,
                ),
    {
        let ghost before = self@;
        proof {
            lemma_bases(before);
        }
        let changes = self.start_redo();
        match changes {
            Some(changes) => {
                let n: usize = changes.len();
                let selection = changes[n - 1].selection_after;
                let vs = self.replay(&changes, false, window, cx);
                self.end_replay(selection);
                assert(before.redo_base().hears_steps(before.redo_plan(), vs@));
                assert(self@ == before.redone(vs@));
            },
            None => {
                self.ignore_edits(false);
                assert(before.redo_base().hears_steps(before.redo_plan(), Seq::empty()));
            },
        }
    }
}

} // verus!
