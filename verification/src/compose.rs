//! Text that is being composed with an input method.
use crate::context::{Context, ContextView, Effect, Window};
use crate::edit::{history_of, EditView, PendingEdit, Verdicts};
use crate::kind::InputModeKind;
use crate::rope::TextBuffer;
use crate::selection::Selection;
use crate::state::{InputBaseState, StateView};
use crate::strings::str_len;
use crate::text::{
    byte_len, from_utf16, lemma_clip, lemma_from_utf16, lemma_from_utf16_mono, slice_of, to_utf16,
};
use crate::undo_manager::{EditIntent, UndoView};
use core::ops::Range;
use vstd::prelude::*;

verus! {

/// The selection that an input method asked for: `selected`, in UTF-16 code
/// units of the composed text, else the end of the composed text.
pub open spec fn composed_selection(
    start: int,
    new: Seq<char>,
    selected: Option<Range<usize>>,
) -> Selection {
    match selected {
        Some(r) => Selection {
            start: (start + from_utf16(new, r.start as int)) as usize,
            end: (start + from_utf16(new, r.end as int)) as usize,
        },
        None => Selection::at((start + byte_len(new)) as usize),
    }
}

impl StateView {
    /// The history once an input method starts or goes on composing.
    pub open spec fn composing(self) -> UndoView {
        let h = UndoView { pending_intent: None, ..self.undo };
        if self.ime is None {
            h.begun()
        } else {
            h
        }
    }

    /// Whether an input method may not put in `t`.
    pub open spec fn rejects_mark(
        self,
        range: Option<Range<usize>>,
        t: Seq<char>,
        v: Verdicts,
    ) -> bool {
        self.rejects(range, t, v) || self.edit_range(range).0 + byte_len(self.normalized(t))
            > usize::MAX
    }

    /// The state after an input method put in the bytes of `e`.
    pub open spec fn composed(self, e: EditView, selected: Option<Range<usize>>) -> StateView {
        let cancelled = e.new.len() == 0;
        let selection = if cancelled {
            Selection::at(e.start as usize)
        } else {
            composed_selection(e.start, e.new, selected)
        };
        let h = history_of(
            self.composing(),
            self.text,
            e.start,
            e.end,
            e.new,
            self.undo.pending_intent,
            self.selected,
            Some(selection),
        );
        StateView {
            text: e.pending,
            selected: selection,
            ime: if cancelled {
                None
            } else {
                Some(
                    Selection {
                        start: e.start as usize,
                        end: (e.start + byte_len(e.new)) as usize,
                    },
                )
            },
            undo: if cancelled {
                h.committed()
            } else {
                h
            },
            display: self.display.edited(self.text, e.start, e.end, e.new),
            mode: self.mode.without_diagnostics(),
            ..self
        }
    }

    /// What the application was asked for once an input method put in the bytes of `e`.
    pub open spec fn composed_asks(self, e: EditView, cx: ContextView) -> ContextView {
        cx.ask(
            Effect::TextChanged {
                start: e.start as usize,
                end: e.end as usize,
                new_len: byte_len(e.new) as usize,
                masked: false,
            },
        ).ask_if(self.multi_line, Effect::UpdateAutoGrow).ask(Effect::InvalidateCoordinates).ask(
            Effect::Notify,
        )
    }

    /// The state after an input method has replaced `range` by `t`. The first
    /// such edit opens a transaction of the history, and putting in nothing closes it.
    #[verifier::opaque]
    pub open spec fn marked(
        self,
        range: Option<Range<usize>>,
        t: Seq<char>,
        selected: Option<Range<usize>>,
        v: Verdicts,
    ) -> StateView {
        if !self.editable() {
            self.intent_taken()
        } else if self.rejects_mark(range, t, v) {
            StateView {
                undo: if self.ime is None {
                    self.composing().committed()
                } else {
                    self.composing()
                },
                ..self
            }
        } else {
            self.composed(self.edit(range, t), selected)
        }
    }

    /// What the application was asked for once an input method has replaced `range` by `t`.
    #[verifier::opaque]
    pub open spec fn marked_asks(
        self,
        range: Option<Range<usize>>,
        t: Seq<char>,
        v: Verdicts,
        cx: ContextView,
    ) -> ContextView {
        if !self.editable() {
            cx
        } else if self.rejects_mark(range, t, v) {
            cx.ask(Effect::ResetLanguageFeatures)
        } else {
            self.composed_asks(self.edit(range, t), cx.ask(Effect::ResetLanguageFeatures))
        }
    }
}

impl<M: InputModeKind> InputBaseState<M> {
    /// The text of a range of UTF-16 code units, and that range moved to `char` boundaries.
    pub fn text_for_range(&self, range_utf16: Range<usize>) -> (r: (String, Range<usize>))
        requires
            range_utf16.start <= range_utf16.end,
        ensures
            ({
                let s = self@.text;
                let start = from_utf16(s, range_utf16.start as int);
                let end = from_utf16(s, range_utf16.end as int);
                &&& r.0@ == slice_of(s, start, end)
                &&& r.1.start == to_utf16(s, start)
                &&& r.1.end == to_utf16(s, end)
            }),
    {
        proof {
            lemma_from_utf16(self@.text, range_utf16.start as int);
            lemma_from_utf16(self@.text, range_utf16.end as int);
            lemma_from_utf16_mono(
                self@.text,
                range_utf16.start as int,
                range_utf16.end as int,
            );
        }
        let range = self.range_from_utf16(&range_utf16);
        let adjusted = self.range_to_utf16(&range);
        (self.text.slice(range.start, range.end), adjusted)
    }

    /// The selection, in UTF-16 code units.
    pub fn selected_text_range(&self) -> (r: Range<usize>)
        ensures
            r.start == to_utf16(self@.text, self@.selected.start as int),
            r.end == to_utf16(self@.text, self@.selected.end as int),
    {
        self.range_to_utf16(&(self.selected_range.start..self.selected_range.end))
    }

    /// The text that is being composed, in UTF-16 code units.
    pub fn marked_text_range(&self) -> (r: Option<Range<usize>>)
        ensures
            r is Some == self@.ime is Some,
            r matches Some(range) ==> {
                &&& range.start == to_utf16(self@.text, self@.ime->0.start as int)
                &&& range.end == to_utf16(self@.text, self@.ime->0.end as int)
            },
    {
        match self.ime_marked_range {
            Some(range) => Some(self.range_to_utf16(&(range.start..range.end))),
            None => None,
        }
    }

    /// Ends the composition; what was composed stays.
    pub fn unmark_text(&mut self)
        ensures
            final(self)@ == (StateView {
                ime: None,
                undo: old(self)@.undo.committed(),
                ..old(self)@
            }),
    {
        self.mark(None);
        self.commit_history();
    }

    /// Whether a worked-out edit is turned down.
    fn turns_down(
        &self,
        edit: &PendingEdit,
        verdicts: Verdicts,
        Ghost(range): Ghost<Option<Range<usize>>>,
        Ghost(t): Ghost<Seq<char>>,
    ) -> (r: bool)
        requires
            self@.fits(t),
            edit.start == self@.edit(range, t).start,
            edit.new@ == self@.edit(range, t).new,
            edit.pending@ == self@.edit(range, t).pending,
        ensures
            r == self@.rejects_mark(range, t, verdicts),
    {
        let new_len: usize = str_len(edit.new.as_str());
        if edit.start > usize::MAX - new_len {
            return true;
        }
        if !self.is_single_line() {
            return false;
        }
        let pending_text = edit.pending.text();
        if self.is_valid_with(pending_text.as_str(), verdicts.pending) {
            return false;
        }
        let current_text = self.text.text();
        self.is_valid_with(current_text.as_str(), verdicts.current)
    }

    /// The selection that an input method asked for.
    fn composition_selection(
        start: usize,
        new: &str,
        selected: Option<Range<usize>>,
    ) -> (selection: Selection)
        requires
            start + byte_len(new@) <= usize::MAX,
        ensures
            selection == composed_selection(start as int, new@, selected),
    {
        match selected {
            Some(range) => {
                let composed = TextBuffer::from_str(new);
                proof {
                    lemma_from_utf16(new@, range.start as int);
                    lemma_from_utf16(new@, range.end as int);
                }
                Selection::new(
                    start + composed.offset_utf16_to_offset(range.start),
                    start + composed.offset_utf16_to_offset(range.end),
                )
            },
            None => Selection::caret(start + str_len(new)),
        }
    }

    /// Makes a worked-out edit of an input method.
    fn apply_mark(
        &mut self,
        edit: PendingEdit,
        selected: Option<Range<usize>>,
        requested_intent: Option<EditIntent>,
        Ghost(before): Ghost<StateView>,
        Ghost(e): Ghost<EditView>,
        cx: &mut Context,
    )
        requires
            old(self)@ == (StateView { undo: before.composing(), ..before }),
            requested_intent == before.undo.pending_intent,
            edit.start == e.start,
            edit.end == e.end,
            edit.start <= edit.end,
            edit.new@ == e.new,
            edit.pending@ == e.pending,
            e.start + byte_len(e.new) <= usize::MAX,
        ensures
            final(self)@ == before.composed(e, selected),
            final(cx)@ == before.composed_asks(e, old(cx)@),
    {
        let selection_before = self.selected_range;
        let old_text = self.text.clone();
        let start: usize = edit.start;
        let end: usize = edit.end;
        let new_len: usize = str_len(edit.new.as_str());
        proof {
            lemma_clip(before.text, start as int);
        }
        self.set_text(edit.pending);
        cx.request(Effect::TextChanged { start, end, new_len, masked: false });
        self.forget_diagnostics();
        self.follow_edit(&old_text, start, end, edit.new.as_str());
        let cancelled: bool = edit.new.as_str().unicode_len() == 0;
        let selection = if cancelled {
            Selection::caret(start)
        } else {
            Self::composition_selection(start, edit.new.as_str(), selected)
        };
        if cancelled {
            self.mark(None);
        } else {
            self.mark(Some(Selection::new(start, start + new_len)));
        }
        self.select(selection);
        if self.is_multi_line() {
            cx.request(Effect::UpdateAutoGrow);
        }
        self.push_history(
            &old_text,
            start,
            end,
            edit.new.as_str(),
            requested_intent,
            selection_before,
            Some(selection),
        );
        if cancelled {
            self.commit_history();
        }
        cx.request(Effect::InvalidateCoordinates);
        cx.notify();
    }

    /// Puts in text that is being composed. Where no verdicts are given, the checks are asked.
    fn compose_text(
        &mut self,
        range_utf16: Option<Range<usize>>,
        new_text: &str,
        new_selected_range_utf16: Option<Range<usize>>,
        given: Option<Verdicts>,
        cx: &mut Context,
    ) -> (v: Ghost<Verdicts>)
        requires
            old(self)@.ordered(),
            range_utf16 matches Some(r) ==> r.start <= r.end,
        ensures
            given matches Some(verdicts) ==> v@ == verdicts,
            given is None ==> old(self)@.hears_of(range_utf16, new_text@, v@),
            final(self)@ == old(self)@.marked(
                range_utf16,
                new_text@,
                new_selected_range_utf16,
                v@,
            ),
            final(cx)@ == old(self)@.marked_asks(range_utf16, new_text@, v@, old(cx)@),
    {
        let ghost before = self@;
        reveal(StateView::marked);
        reveal(StateView::marked_asks);
        reveal(StateView::hears_of);
        let mut verdicts = match given {
            Some(verdicts) => verdicts,
            None => Verdicts::not_asked(),
        };
        if !self.is_editable() {
            self.announce(None);
            return Ghost(verdicts);
        }
        let mut accepted: Option<PendingEdit> = None;
        if let Some(edit) = self.prepare_edit(&range_utf16, new_text) {
            if given.is_none() {
                verdicts = self.judge_edit(&edit);
            }
            let rejected: bool = self.turns_down(
                &edit,
                verdicts,
                Ghost(range_utf16),
                Ghost(new_text@),
            );
            if !rejected {
                accepted = Some(edit);
            }
        }
        let requested_intent = self.take_intent();
        let starts_composition: bool = self.ime_marked_range.is_none();
        if starts_composition {
            self.begin_history();
        }
        cx.request(Effect::ResetLanguageFeatures);
        match accepted {
            Some(edit) => {
                self.apply_mark(
                    edit,
                    new_selected_range_utf16,
                    requested_intent,
                    Ghost(before),
                    Ghost(before.edit(range_utf16, new_text@)),
                    cx,
                );
            },
            None => {
                if starts_composition {
                    self.commit_history();
                }
            },
        }
        Ghost(verdicts)
    }

    /// Puts in text that is being composed, given what the checks outside of
    /// this library say of it.
    pub fn mark_text_with_verdicts(
        &mut self,
        range_utf16: Option<Range<usize>>,
        new_text: &str,
        new_selected_range_utf16: Option<Range<usize>>,
        verdicts: Verdicts,
        cx: &mut Context,
    )
        requires
            old(self)@.ordered(),
            range_utf16 matches Some(r) ==> r.start <= r.end,
        ensures
            final(self)@ == old(self)@.marked(
                range_utf16,
                new_text@,
                new_selected_range_utf16,
                verdicts,
            ),
            final(cx)@ == old(self)@.marked_asks(range_utf16, new_text@, verdicts, old(cx)@),
    {
        let v = self.compose_text(
            range_utf16,
            new_text,
            new_selected_range_utf16,
            Some(verdicts),
            cx,
        );
    }

    /// Puts in text that is being composed, and selects in it.
    ///
    /// The text replaces `range_utf16`, or what was composed before, or the
    /// selection. What is to be selected is selected as it is asked for, be it
    /// backwards.
    pub fn replace_and_mark_text_in_range(
        &mut self,
        range_utf16: Option<Range<usize>>,
        new_text: &str,
        new_selected_range_utf16: Option<Range<usize>>,
        window: &Window,
        cx: &mut Context,
    )
        requires
            old(self)@.ordered(),
            range_utf16 matches Some(r) ==> r.start <= r.end,
        ensures
            exists|v: Verdicts| #[trigger]
                old(self)@.hears_of(range_utf16, new_text@, v) && final(self)@ == old(
                    self
                )@.marked(range_utf16, new_text@, new_selected_range_utf16, v) && final(
                    cx
                )@ == old(self)@.marked_asks(range_utf16, new_text@, v, old(cx)@),
    {
        let v = self.compose_text(range_utf16, new_text, new_selected_range_utf16, None, cx);
    }
}

} // verus!
