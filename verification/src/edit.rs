//! Replacing text.
//!
//! Every change of the text of an input goes through `replace_text_in_range`
//! or, while text is being composed, `replace_and_mark_text_in_range`. What
//! they do is stated as functions from one `StateView` to the next.
use crate::change::{Change, ChangeView};
use crate::context::{Context, ContextView, Effect, InputEvent, Window};
use crate::kind::InputModeKind;
use crate::mask_pattern::{normalize_number_input, number_normalized};
use crate::pattern::regex_matches;
use crate::rope::{Bias, TextBuffer};
use crate::selection::Selection;
use crate::state::{InputBaseState, InputValidator, Options, Session, StateView};
use crate::strings::{str_chars, str_eq, str_len, string_of};
use crate::text::{
    byte_len, clip_left, clip_right, from_utf16, lemma_clip, lemma_clip_mono, lemma_from_utf16_mono,
    lemma_to_utf16_mono, lemma_utf16_round_trip, slice_of, spliced, to_utf16, utf16_len,
};
use crate::undo_manager::{EditIntent, UndoView};
use core::ops::Range;
use vstd::prelude::*;

verus! {

/// What the checks outside of this library said of one text.
#[derive(Clone, Copy, PartialEq, Eq, Structural, Debug)]
pub struct Verdict {
    /// What the validator said, where there is one.
    pub validator: bool,
    /// What the pattern said, where there is one.
    pub pattern: Option<bool>,
}

/// What the checks said of the text as it would be, and of the text as it is.
#[derive(Clone, Copy, PartialEq, Eq, Structural, Debug)]
pub struct Verdicts {
    pub pending: Verdict,
    pub current: Verdict,
}

impl Verdict {
    /// What stands for a verdict where the checks were not asked.
    pub open spec fn unasked() -> Verdict {
        Verdict { validator: true, pattern: None }
    }

    pub(crate) fn not_asked() -> (v: Verdict)
        ensures
            v == Verdict::unasked(),
    {
        Verdict { validator: true, pattern: None }
    }
}

impl Verdicts {
    /// What stands for the verdicts where the checks were not asked.
    pub open spec fn unasked() -> Verdicts {
        Verdicts { pending: Verdict::unasked(), current: Verdict::unasked() }
    }

    pub(crate) fn not_asked() -> (v: Verdicts)
        ensures
            v == Verdicts::unasked(),
    {
        Verdicts { pending: Verdict::not_asked(), current: Verdict::not_asked() }
    }
}

/// Whether `validator` can give `answer` when it is asked about `t`.
pub open spec fn answers<V: InputValidator + ?Sized>(
    validator: &V,
    t: Seq<char>,
    answer: bool,
) -> bool {
    exists|text: &str|
        text@ == t && #[trigger] call_ensures(V::accepts, (validator, text), answer)
}

/// Asks `validator` about `text`.
fn ask<V: InputValidator + ?Sized>(validator: &V, text: &str) -> (answer: bool)
    ensures
        answers(validator, text@, answer),
{
    validator.accepts(text)
}

/// `s` without line feeds and carriage returns.
pub open spec fn on_one_line(s: Seq<char>) -> Seq<char>
    decreases s.len(),
{
    if s.len() == 0 {
        s
    } else if s.last() == '\n' || s.last() == '\r' {
        on_one_line(s.drop_last())
    } else {
        on_one_line(s.drop_last()).push(s.last())
    }
}

pub open spec fn has_line_break(s: Seq<char>) -> bool {
    s.contains('\n') || s.contains('\r')
}

/// An edit: the bytes from `start` to `end` become `new`. The text is then
/// `pending`, or what the mask makes of it.
pub struct EditView {
    pub start: int,
    pub end: int,
    pub new: Seq<char>,
    pub pending: Seq<char>,
    pub text: Seq<char>,
    pub caret: int,
}

pub open spec fn min(a: int, b: int) -> int {
    if a < b {
        a
    } else {
        b
    }
}

/// The intent of a change that was not announced with one.
pub open spec fn default_intent(start: int, end: int, new: Seq<char>) -> EditIntent {
    if start == end && new.len() > 0 && !has_line_break(new) {
        EditIntent::Typing
    } else {
        EditIntent::Atomic
    }
}

/// The change that is recorded for the replacement of the bytes from `a` to `b` of `old`.
pub open spec fn change_of(
    old: Seq<char>,
    a: int,
    b: int,
    new: Seq<char>,
    intent: EditIntent,
    before: Selection,
    after: Option<Selection>,
) -> ChangeView {
    let start = clip_left(old, a);
    let end = clip_right(old, b);
    let new_end = start + byte_len(new);
    ChangeView {
        old_range: Selection { start: start as usize, end: end as usize },
        old_text: slice_of(old, start, end),
        new_range: Selection { start: start as usize, end: new_end as usize },
        new_text: new,
        selection_before: match intent {
            EditIntent::Backspace => Selection::at(end as usize),
            EditIntent::DeleteForward => Selection::at(start as usize),
            _ => before,
        },
        selection_after: match after {
            Some(s) => s,
            None => Selection::at(new_end as usize),
        },
    }
}

/// The history after the replacement of the bytes from `a` to `b` of `old`.
pub open spec fn history_of(
    h: UndoView,
    old: Seq<char>,
    a: int,
    b: int,
    new: Seq<char>,
    requested: Option<EditIntent>,
    before: Selection,
    after: Option<Selection>,
) -> UndoView {
    if h.ignoring {
        h
    } else {
        let intent = match requested {
            Some(i) => i,
            None => default_intent(clip_left(old, a), clip_right(old, b), new),
        };
        h.recorded(change_of(old, a, b, new, intent, before, after), intent)
    }
}

impl StateView {
    /// `t` as it is put in: without line breaks in a single-line input, and
    /// with ASCII digits where the mask is a number.
    pub open spec fn normalized(self, t: Seq<char>) -> Seq<char> {
        let n = if self.mask is Number {
            number_normalized(t)
        } else {
            t
        };
        if self.single_line() {
            on_one_line(n)
        } else {
            n
        }
    }

    /// Whether `t` is a valid text. The empty text always is.
    pub open spec fn valid(self, t: Seq<char>, v: Verdict) -> bool {
        t.len() == 0 || {
            &&& self.validate is Some ==> v.validator
            &&& self.mask.valid(t)
            &&& self.pattern is Some ==> v.pattern == Some(true)
        }
    }

    /// Whether the mask and the pattern take `t`.
    pub open spec fn takes(self, t: Seq<char>) -> bool {
        &&& self.mask.valid(t)
        &&& self.pattern matches Some(p) ==> regex_matches(p, t)
    }

    /// Whether `v` can be what the checks say of `t`. They are not asked about the empty text.
    pub open spec fn hears(self, t: Seq<char>, v: Verdict) -> bool {
        if t.len() == 0 {
            v == Verdict::unasked()
        } else {
            &&& match self.validate {
                Some(validator) => answers(&*validator, t, v.validator),
                None => v.validator,
            }
            &&& match self.pattern {
                Some(p) => v.pattern == Some(regex_matches(p, t)),
                None => v.pattern is None,
            }
        }
    }

    /// Whether `v` can be what the checks say of an edit that makes the text
    /// `pending`. They are asked for single-line inputs alone, and about the
    /// text as it is only where `pending` is not valid.
    pub open spec fn hears_edit(self, pending: Seq<char>, v: Verdicts) -> bool {
        if self.single_line() {
            &&& self.hears(pending, v.pending)
            &&& if self.valid(pending, v.pending) {
                v.current == Verdict::unasked()
            } else {
                self.hears(self.text, v.current)
            }
        } else {
            v == Verdicts::unasked()
        }
    }

    /// Whether `v` can be what the checks say of replacing `range` by `t`.
    /// They are not asked where nothing can be replaced.
    #[verifier::opaque]
    pub open spec fn hears_of(self, range: Option<Range<usize>>, t: Seq<char>, v: Verdicts) -> bool {
        if self.editable() && self.fits(t) {
            self.hears_edit(self.edit(range, t).pending, v)
        } else {
            v == Verdicts::unasked()
        }
    }

    /// The bytes that an edit replaces: the given range of UTF-16 code units,
    /// else the text that is being composed, else the selection.
    pub open spec fn edit_range(self, range: Option<Range<usize>>) -> (int, int) {
        match range {
            Some(r) => (
                from_utf16(self.text, r.start as int),
                from_utf16(self.text, r.end as int),
            ),
            None => match self.ime {
                Some(r) => (
                    clip_left(self.text, r.start as int),
                    clip_left(self.text, r.end as int),
                ),
                None => (self.selected.start as int, self.selected.end as int),
            },
        }
    }

    /// What replacing `range` by `t` comes to.
    pub open spec fn edit(self, range: Option<Range<usize>>, t: Seq<char>) -> EditView {
        let (start, end) = self.edit_range(range);
        let new = self.normalized(t);
        let pending = spliced(self.text, start, end, new);
        if self.single_line() && !(self.mask is Plain) {
            let text = self.mask.masked(pending);
            let grown = byte_len(new) + byte_len(text) - byte_len(pending);
            let new_len = if grown < 0 {
                0
            } else {
                grown
            };
            EditView {
                start,
                end,
                new,
                pending,
                text,
                caret: min(start + new_len, byte_len(text) as int),
            }
        } else {
            EditView {
                start,
                end,
                new,
                pending,
                text: pending,
                caret: min(start + byte_len(new), byte_len(pending) as int),
            }
        }
    }

    /// Whether the edited text has no more bytes than can be counted.
    pub open spec fn fits(self, t: Seq<char>) -> bool {
        byte_len(self.text) + byte_len(self.normalized(t)) <= usize::MAX
    }

    /// Whether an edit is turned down: in a single-line input, where it
    /// would make a valid text invalid.
    pub open spec fn rejects(
        self,
        range: Option<Range<usize>>,
        t: Seq<char>,
        v: Verdicts,
    ) -> bool {
        ||| !self.fits(t)
        ||| self.single_line() && !self.valid(self.edit(range, t).pending, v.pending)
            && self.valid(self.text, v.current)
    }

    /// This state once the announced intent was taken.
    pub open spec fn intent_taken(self) -> StateView {
        StateView { undo: UndoView { pending_intent: None, ..self.undo }, ..self }
    }

    /// The history after an edit. Where the mask has changed the text, the
    /// whole text is recorded as replaced.
    pub open spec fn edit_history(self, e: EditView) -> UndoView {
        let h = UndoView { pending_intent: None, ..self.undo };
        if e.text != e.pending {
            history_of(
                h,
                self.text,
                0,
                byte_len(self.text) as int,
                e.text,
                Some(EditIntent::Atomic),
                self.selected,
                Some(Selection::at(e.caret as usize)),
            )
        } else {
            history_of(
                h,
                self.text,
                e.start,
                e.end,
                e.new,
                self.undo.pending_intent,
                self.selected,
                None,
            )
        }
    }

    /// The state after `range` was replaced by `t`.
    #[verifier::opaque]
    pub open spec fn replaced(
        self,
        range: Option<Range<usize>>,
        t: Seq<char>,
        v: Verdicts,
    ) -> StateView {
        if !self.editable() || self.rejects(range, t, v) {
            self.intent_taken()
        } else {
            let e = self.edit(range, t);
            StateView {
                text: e.text,
                selected: Selection::at(e.caret as usize),
                ime: None,
                undo: self.edit_history(e),
                display: self.display.edited(self.text, e.start, e.end, e.new),
                mode: self.mode.without_diagnostics(),
                ..self
            }
        }
    }

    /// What the application was asked for once an edit was made.
    pub open spec fn edit_asks(self, e: EditView, cx: ContextView) -> ContextView {
        let changed = cx.ask(
            Effect::TextChanged {
                start: e.start as usize,
                end: e.end as usize,
                new_len: byte_len(e.new) as usize,
                masked: e.text != e.pending,
            },
        ).ask(Effect::RememberColumn).ask(Effect::UpdateSearch).ask_if(
            self.multi_line,
            Effect::UpdateAutoGrow,
        );
        (if self.session.silent_replace_text {
            changed
        } else {
            changed.ask_typed(e.start as usize, e.end as usize, e.new)
        }).ask_if(self.session.emit_events, Effect::Emit(InputEvent::Change)).ask(Effect::Notify)
    }

    /// What the application was asked for once `range` was replaced by `t`.
    #[verifier::opaque]
    pub open spec fn replaced_asks(
        self,
        range: Option<Range<usize>>,
        t: Seq<char>,
        v: Verdicts,
        window: Window,
        cx: ContextView,
    ) -> ContextView {
        if !self.editable() {
            cx
        } else if self.rejects(range, t, v) {
            cx.ask_if(window.cursor_visible, Effect::PauseBlink)
        } else {
            self.edit_asks(
                self.edit(range, t),
                cx.ask_if(window.cursor_visible, Effect::PauseBlink),
            )
        }
    }
}

impl StateView {
    pub open spec fn silenced(self, silent: bool) -> StateView {
        StateView { session: Session { silent_replace_text: silent, ..self.session }, ..self }
    }

    /// Whether `v` can be what the checks say of silently replacing `range` by `t`.
    pub open spec fn hears_silently(
        self,
        range: Option<Range<usize>>,
        t: Seq<char>,
        v: Verdicts,
    ) -> bool {
        self.silenced(true).hears_of(range, t, v)
    }

    /// The state after `range` was replaced by `t` without offering completions.
    pub open spec fn replaced_silently(
        self,
        range: Option<Range<usize>>,
        t: Seq<char>,
        v: Verdicts,
    ) -> StateView {
        self.silenced(true).replaced(range, t, v).silenced(false)
    }

    pub open spec fn replaced_silently_asks(
        self,
        range: Option<Range<usize>>,
        t: Seq<char>,
        v: Verdicts,
        window: Window,
        cx: ContextView,
    ) -> ContextView {
        self.silenced(true).replaced_asks(range, t, v, window, cx)
    }

    /// The state in which nothing keeps the user from editing.
    pub open spec fn freed(self) -> StateView {
        self.bound(false, false)
    }

    pub open spec fn bound(self, disabled: bool, readonly: bool) -> StateView {
        StateView { options: Options { disabled, readonly, ..self.options }, ..self }
    }

    /// The state in which a program edits: nothing keeps it from that, and
    /// what it does is undone by itself.
    pub open spec fn announced(self) -> StateView {
        StateView {
            undo: UndoView { pending_intent: Some(EditIntent::Atomic), ..self.undo },
            ..self.freed()
        }
    }

    /// The state after a program has edited, with the restrictions of `was`.
    pub open spec fn restored(self, was: StateView) -> StateView {
        self.bound(was.options.disabled, was.options.readonly)
    }

    /// The state with nothing selected, the cursor at the end of what was.
    pub open spec fn collapsed(self) -> StateView {
        StateView { selected: Selection::at(self.selected.end), ..self }
    }

    pub open spec fn cursor_utf16(self) -> Range<usize> {
        let u = to_utf16(self.text, self.cursor() as int) as usize;
        Range { start: u, end: u }
    }

    pub open spec fn all_utf16(self) -> Range<usize> {
        Range { start: 0, end: utf16_len(self.text) as usize }
    }

    /// The state after a program inserted `t` at the cursor.
    pub open spec fn inserted(self, t: Seq<char>, v: Verdicts) -> StateView {
        self.announced().replaced_silently(
            Some(self.cursor_utf16()),
            t,
            v,
        ).collapsed().restored(self)
    }

    /// The state after a program replaced the selection by `t`.
    #[verifier::opaque]
    pub open spec fn replaced_freely(self, t: Seq<char>, v: Verdicts) -> StateView {
        self.announced().replaced_silently(None, t, v).collapsed().restored(self)
    }

    /// The state after a program replaced the whole text by `t`.
    pub open spec fn rewritten(self, t: Seq<char>, v: Verdicts) -> StateView {
        let s = self.announced().replaced_silently(Some(self.all_utf16()), t, v);
        StateView { mode: s.mode.unparsed(), ..s }.restored(self)
    }

    pub open spec fn rewritten_asks(
        self,
        t: Seq<char>,
        v: Verdicts,
        window: Window,
        cx: ContextView,
    ) -> ContextView {
        self.announced().replaced_silently_asks(Some(self.all_utf16()), t, v, window, cx).ask(
            Effect::Notify,
        )
    }
}

pub proof fn lemma_on_one_line(s: Seq<char>)
    ensures
        byte_len(on_one_line(s)) <= byte_len(s),
        !has_line_break(on_one_line(s)),
    decreases s.len(),
{
    if s.len() > 0 {
        let t = on_one_line(s.drop_last());
        lemma_on_one_line(s.drop_last());
        crate::text::lemma_measure_push(crate::text::Unit::Utf8, t, s.last());
    }
}

/// Takes the line breaks out of a text.
fn join_lines(text: &str) -> (out: String)
    ensures
        out@ == on_one_line(text@),
{
    let chars = str_chars(text);
    let mut out: Vec<char> = Vec::new();
    for i in 0..chars.len()
        invariant
            chars@ == text@,
            out@ == on_one_line(text@.take(i as int)),
    {
        assert(text@.take(i as int + 1).drop_last() =~= text@.take(i as int));
        let c = chars[i];
        if c != '\n' && c != '\r' {
            out.push(c);
        }
    }
    assert(text@.take(text@.len() as int) =~= text@);
    string_of(&out)
}

fn contains_line_break(text: &str) -> (r: bool)
    ensures
        r == has_line_break(text@),
{
    let chars = str_chars(text);
    for i in 0..chars.len()
        invariant
            chars@ == text@,
            forall|k: int| 0 <= k < i ==> text@[k] != '\n' && text@[k] != '\r',
    {
        if chars[i] == '\n' || chars[i] == '\r' {
            assert(text@.contains(text@[i as int]));
            return true;
        }
    }
    false
}

/// An edit that was worked out and not yet made.
pub struct PendingEdit {
    pub start: usize,
    pub end: usize,
    pub new: String,
    pub pending: TextBuffer,
}

impl<M: InputModeKind> InputBaseState<M> {
    /// The UTF-16 offset of a byte offset.
    pub fn offset_to_utf16(&self, offset: usize) -> (u: usize)
        ensures
            u == to_utf16(self@.text, offset as int),
    {
        self.text.offset_to_offset_utf16(offset)
    }

    /// The byte offset of a UTF-16 offset.
    pub fn offset_from_utf16(&self, offset: usize) -> (o: usize)
        ensures
            o == from_utf16(self@.text, offset as int),
    {
        self.text.offset_utf16_to_offset(offset)
    }

    pub fn range_to_utf16(&self, range: &Range<usize>) -> (r: Range<usize>)
        ensures
            r.start == to_utf16(self@.text, range.start as int),
            r.end == to_utf16(self@.text, range.end as int),
    {
        self.offset_to_utf16(range.start)..self.offset_to_utf16(range.end)
    }

    pub fn range_from_utf16(&self, range_utf16: &Range<usize>) -> (r: Range<usize>)
        ensures
            r.start == from_utf16(self@.text, range_utf16.start as int),
            r.end == from_utf16(self@.text, range_utf16.end as int),
    {
        self.offset_from_utf16(range_utf16.start)..self.offset_from_utf16(range_utf16.end)
    }

    /// `new_text` as it is put in.
    pub fn normalize_input(&self, new_text: &str) -> (out: String)
        ensures
            out@ == self@.normalized(new_text@),
    {
        let normalized = if self.mask_pattern.is_number() {
            normalize_number_input(new_text)
        } else {
            new_text.to_owned()
        };
        if self.is_single_line() {
            join_lines(normalized.as_str())
        } else {
            normalized
        }
    }

    /// Whether `text` is a valid text, given what the checks outside of this library said of it.
    pub fn is_valid_with(&self, text: &str, verdict: Verdict) -> (r: bool)
        ensures
            r == self@.valid(text@, verdict),
    {
        if text.unicode_len() == 0 {
            return true;
        }
        if self.validate.is_some() && !verdict.validator {
            return false;
        }
        if !self.mask_pattern.is_valid(text) {
            return false;
        }
        !self.pattern.is_some() || verdict.pattern == Some(true)
    }

    /// Asks the validator and the pattern about `text`.
    pub(crate) fn judge(&self, text: &str) -> (v: Verdict)
        ensures
            self@.hears(text@, v),
    {
        if text.unicode_len() == 0 {
            return Verdict::not_asked();
        }
        let validator: bool = match &self.validate {
            Some(validate) => ask(&**validate, text),
            None => true,
        };
        let pattern: Option<bool> = match &self.pattern {
            Some(pattern) => Some(pattern.is_match(text)),
            None => None,
        };
        Verdict { validator, pattern }
    }

    /// Whether `text` is a valid text: it is empty, or the validator, the
    /// mask and the pattern take it.
    pub fn is_valid_input(&self, text: &str) -> (r: bool)
        ensures
            exists|v: Verdict| #[trigger] self@.hears(text@, v) && r == self@.valid(text@, v),
            text@.len() == 0 ==> r,
            text@.len() > 0 && self@.validate is None ==> r == self@.takes(text@),
            text@.len() > 0 && self@.validate is Some ==> exists|answer: bool| #[trigger]
                answers(&*self@.validate->0, text@, answer) && r == (answer && self@.takes(text@)),
    {
        let verdict = self.judge(text);
        self.is_valid_with(text, verdict)
    }

    /// Works out an edit; nothing when the text would have more bytes than can be counted.
    pub(crate) fn prepare_edit(&self, range: &Option<Range<usize>>, new_text: &str) -> (e:
        Option<PendingEdit>)
        requires
            self@.ordered(),
            range matches Some(r) ==> r.start <= r.end,
        ensures
            e is Some == self@.fits(new_text@),
            e matches Some(p) ==> {
                &&& p.start == self@.edit(*range, new_text@).start
                &&& p.end == self@.edit(*range, new_text@).end
                &&& p.start <= p.end
                &&& p.new@ == self@.edit(*range, new_text@).new
                &&& p.pending@ == self@.edit(*range, new_text@).pending
            },
    {
        let new = self.normalize_input(new_text);
        let new_len: usize = str_len(new.as_str());
        if self.text.len() > usize::MAX - new_len {
            return None;
        }
        proof {
            match range {
                Some(r) => {
                    lemma_from_utf16_mono(self@.text, r.start as int, r.end as int);
                },
                None => {
                    if let Some(r) = self.ime_marked_range {
                        lemma_to_utf16_mono(self@.text, r.start as int, r.end as int);
                        lemma_clip_mono(self@.text, r.start as int, r.end as int);
                        lemma_utf16_round_trip(self@.text, r.start as int);
                        lemma_utf16_round_trip(self@.text, r.end as int);
                    }
                },
            }
        }
        let replaced: Range<usize> = match range {
            Some(range_utf16) => self.range_from_utf16(range_utf16),
            None => match self.ime_marked_range {
                Some(marked) => {
                    let range_utf16 = self.range_to_utf16(&(marked.start..marked.end));
                    self.range_from_utf16(&range_utf16)
                },
                None => self.selected_range.start..self.selected_range.end,
            },
        };
        let mut pending = self.text.clone();
        pending.replace(replaced.start, replaced.end, new.as_str());
        Some(PendingEdit { start: replaced.start, end: replaced.end, new, pending })
    }

    /// Asks the checks about an edit of a single-line input: about the text
    /// as it is only where the text as it would be is not valid.
    pub(crate) fn judge_edit(&self, edit: &PendingEdit) -> (v: Verdicts)
        ensures
            self@.hears_edit(edit.pending@, v),
    {
        if !self.is_single_line() {
            return Verdicts::not_asked();
        }
        let pending_text = edit.pending.text();
        let pending = self.judge(pending_text.as_str());
        if self.is_valid_with(pending_text.as_str(), pending) {
            Verdicts { pending, current: Verdict::not_asked() }
        } else {
            let current_text = self.text.text();
            let current = self.judge(current_text.as_str());
            Verdicts { pending, current }
        }
    }

    /// Records the replacement of the bytes from `start` to `end` of `text`.
    pub(crate) fn push_history(
        &mut self,
        text: &TextBuffer,
        start: usize,
        end: usize,
        new_text: &str,
        requested_intent: Option<EditIntent>,
        selection_before: Selection,
        selection_after: Option<Selection>,
    )
        requires
            start <= end,
            clip_left(text@, start as int) + byte_len(new_text@) <= usize::MAX,
        ensures
            final(self)@ == (StateView {
                undo: history_of(
                    old(self)@.undo,
                    text@,
                    start as int,
                    end as int,
                    new_text@,
                    requested_intent,
                    selection_before,
                    selection_after,
                ),
                ..old(self)@
            }),
    {
        if self.undo_manager.is_ignoring() {
            return;
        }
        proof {
            lemma_clip(text@, start as int);
            lemma_clip(text@, end as int);
            lemma_clip_mono(text@, start as int, end as int);
        }
        let from = text.clip_offset(start, Bias::Left);
        let to = text.clip_offset(end, Bias::Right);
        let old_text = text.slice(from, to);
        let new_end: usize = from + str_len(new_text);
        let intent = match requested_intent {
            Some(intent) => intent,
            None => if from == to && new_text.unicode_len() > 0 && !contains_line_break(
                new_text,
            ) {
                EditIntent::Typing
            } else {
                EditIntent::Atomic
            },
        };
        let selection_before = match intent {
            EditIntent::Backspace => Selection::caret(to),
            EditIntent::DeleteForward => Selection::caret(from),
            EditIntent::Typing | EditIntent::Atomic => selection_before,
        };
        let selection_after = match selection_after {
            Some(selection) => selection,
            None => Selection::caret(new_end),
        };
        self.undo_manager.record_transaction(
            Change::new(
                Selection::new(from, to),
                old_text.as_str(),
                Selection::new(from, new_end),
                new_text,
                selection_before,
                selection_after,
            ),
            intent,
        );
    }

    pub(crate) fn follow_edit(
        &mut self,
        old_text: &TextBuffer,
        start: usize,
        end: usize,
        new_text: &str,
    )
        requires
            start <= end,
        ensures
            final(self)@ == (StateView {
                display: old(self)@.display.edited(
                    old_text@,
                    start as int,
                    end as int,
                    new_text@,
                ),
                ..old(self)@
            }),
    {
        self.display_map.on_text_changed(old_text, start, end, new_text);
    }

    /// Makes an edit that was worked out, unless the verdicts turn it down.
    #[verifier::rlimit(40)]
    fn apply_edit(
        &mut self,
        edit: PendingEdit,
        verdicts: Verdicts,
        requested_intent: Option<EditIntent>,
        Ghost(before): Ghost<StateView>,
        Ghost(range): Ghost<Option<Range<usize>>>,
        Ghost(t): Ghost<Seq<char>>,
        cx: &mut Context,
    )
        requires
            before.fits(t),
            before.editable(),
            old(self)@ == before.intent_taken(),
            requested_intent == before.undo.pending_intent,
            edit.start == before.edit(range, t).start,
            edit.end == before.edit(range, t).end,
            edit.start <= edit.end,
            edit.new@ == before.edit(range, t).new,
            edit.pending@ == before.edit(range, t).pending,
        ensures
            final(self)@ == before.replaced(range, t, verdicts),
            final(cx)@ == if before.rejects(range, t, verdicts) {
                old(cx)@
            } else {
                before.edit_asks(before.edit(range, t), old(cx)@)
            },
    {
        let old_text = self.text.clone();
        let selection_before = self.selected_range;
        let ghost e = before.edit(range, t);
        reveal(StateView::replaced);
        let new_len: usize = str_len(edit.new.as_str());
        let pending_len: usize = edit.pending.len();
        let mut new_text = edit.pending.clone();
        let mut new_offset: usize = edit.start.saturating_add(new_len);
        if new_offset > pending_len {
            new_offset = pending_len;
        }
        let mut mask_changed: bool = false;
        proof {
            lemma_clip(before.text, edit.start as int);
        }
        if self.is_single_line() {
            let pending_text = edit.pending.text();
            if !self.is_valid_with(pending_text.as_str(), verdicts.pending) {
                let current_text = self.text.text();
                if self.is_valid_with(current_text.as_str(), verdicts.current) {
                    return;
                }
            }
            if !self.mask_pattern.is_none() {
                let mask_text = self.mask_pattern.mask(pending_text.as_str());
                let mask_len: usize = str_len(mask_text.as_str());
                mask_changed = !str_eq(mask_text.as_str(), pending_text.as_str());
                new_text = TextBuffer::from_str(mask_text.as_str());
                let grown: usize = if mask_len >= pending_len {
                    new_len.saturating_add(mask_len - pending_len)
                } else {
                    new_len.saturating_sub(pending_len - mask_len)
                };
                new_offset = edit.start.saturating_add(grown);
                if new_offset > mask_len {
                    new_offset = mask_len;
                }
            }
        }
        self.set_text(new_text);
        assert(self.text@ == e.text);
        assert(new_offset == e.caret);
        assert(mask_changed == (e.text != e.pending));
        cx.request(
            Effect::TextChanged {
                start: edit.start,
                end: edit.end,
                new_len,
                masked: mask_changed,
            },
        );
        if mask_changed {
            let masked_text = self.text.text();
            proof {
                lemma_clip(before.text, 0);
            }
            self.push_history(
                &old_text,
                0,
                old_text.len(),
                masked_text.as_str(),
                Some(EditIntent::Atomic),
                selection_before,
                Some(Selection::caret(new_offset)),
            );
        } else {
            self.push_history(
                &old_text,
                edit.start,
                edit.end,
                edit.new.as_str(),
                requested_intent,
                selection_before,
                None,
            );
        }
        self.forget_diagnostics();
        self.follow_edit(&old_text, edit.start, edit.end, edit.new.as_str());
        self.select(Selection::caret(new_offset));
        self.mark(None);
        cx.request(Effect::RememberColumn);
        cx.request(Effect::UpdateSearch);
        if self.is_multi_line() {
            cx.request(Effect::UpdateAutoGrow);
        }
        if !self.session.silent_replace_text {
            cx.request_typed(edit.start, edit.end, edit.new.as_str());
        }
        if self.session.emit_events {
            cx.emit(InputEvent::Change);
        }
        cx.notify();
    }

    /// Replaces `range`, in UTF-16 code units, by `new_text`, given what the
    /// checks outside of this library say of it.
    pub fn replace_text_with_verdicts(
        &mut self,
        range_utf16: Option<Range<usize>>,
        new_text: &str,
        verdicts: Verdicts,
        window: &Window,
        cx: &mut Context,
    )
        requires
            old(self)@.ordered(),
            range_utf16 matches Some(r) ==> r.start <= r.end,
        ensures
            final(self)@ == old(self)@.replaced(range_utf16, new_text@, verdicts),
            final(cx)@ == old(self)@.replaced_asks(
                range_utf16,
                new_text@,
                verdicts,
                *window,
                old(cx)@,
            ),
    {
        let ghost before = self@;
        reveal(StateView::replaced);
        reveal(StateView::replaced_asks);
        reveal(StateView::hears_of);
        let requested_intent = self.take_intent();
        if !self.is_editable() {
            return;
        }
        if window.cursor_visible {
            cx.request(Effect::PauseBlink);
        }
        match self.prepare_edit(&range_utf16, new_text) {
            None => {},
            Some(edit) => {
                self.apply_edit(
                    edit,
                    verdicts,
                    requested_intent,
                    Ghost(before),
                    Ghost(range_utf16),
                    Ghost(new_text@),
                    cx,
                );
            },
        }
    }

    /// Replaces text, and hands out what the checks said of it.
    pub(crate) fn edit_text(
        &mut self,
        range_utf16: Option<Range<usize>>,
        new_text: &str,
        window: &Window,
        cx: &mut Context,
    ) -> (v: Ghost<Verdicts>)
        requires
            old(self)@.ordered(),
            range_utf16 matches Some(r) ==> r.start <= r.end,
        ensures
            old(self)@.hears_of(range_utf16, new_text@, v@),
            final(self)@ == old(self)@.replaced(range_utf16, new_text@, v@),
            final(cx)@ == old(self)@.replaced_asks(
                range_utf16,
                new_text@,
                v@,
                *window,
                old(cx)@,
            ),
    {
        let ghost before = self@;
        reveal(StateView::replaced);
        reveal(StateView::replaced_asks);
        reveal(StateView::hears_of);
        let requested_intent = self.take_intent();
        let mut verdicts = Verdicts::not_asked();
        if !self.is_editable() {
            return Ghost(verdicts);
        }
        if window.cursor_visible {
            cx.request(Effect::PauseBlink);
        }
        match self.prepare_edit(&range_utf16, new_text) {
            None => {},
            Some(edit) => {
                verdicts = self.judge_edit(&edit);
                self.apply_edit(
                    edit,
                    verdicts,
                    requested_intent,
                    Ghost(before),
                    Ghost(range_utf16),
                    Ghost(new_text@),
                    cx,
                );
            },
        }
        Ghost(verdicts)
    }

    /// Replaces text without offering completions, and hands out what the checks said of it.
    pub(crate) fn edit_silently(
        &mut self,
        range_utf16: Option<Range<usize>>,
        new_text: &str,
        window: &Window,
        cx: &mut Context,
    ) -> (v: Ghost<Verdicts>)
        requires
            old(self)@.ordered(),
            range_utf16 matches Some(r) ==> r.start <= r.end,
        ensures
            old(self)@.hears_silently(range_utf16, new_text@, v@),
            final(self)@ == old(self)@.replaced_silently(range_utf16, new_text@, v@),
            final(cx)@ == old(self)@.replaced_silently_asks(
                range_utf16,
                new_text@,
                v@,
                *window,
                old(cx)@,
            ),
    {
        self.silence(true);
        let v = self.edit_text(range_utf16, new_text, window, cx);
        self.silence(false);
        v
    }

    /// Replaces `range`, in UTF-16 code units, by `new_text`.
    ///
    /// Without a range the text that is being composed is replaced, or else
    /// the selection. A single-line input turns the edit down where it would
    /// make a valid text invalid.
    pub fn replace_text_in_range(
        &mut self,
        range_utf16: Option<Range<usize>>,
        new_text: &str,
        window: &Window,
        cx: &mut Context,
    )
        requires
            old(self)@.ordered(),
            range_utf16 matches Some(r) ==> r.start <= r.end,
        ensures
            exists|v: Verdicts| #[trigger]
                old(self)@.hears_of(range_utf16, new_text@, v) && final(self)@ == old(
                    self
                )@.replaced(range_utf16, new_text@, v) && final(cx)@ == old(self)@.replaced_asks(
                    range_utf16,
                    new_text@,
                    v,
                    *window,
                    old(cx)@,
                ),
    {
        let v = self.edit_text(range_utf16, new_text, window, cx);
    }

    /// Replaces text without offering completions.
    pub fn replace_text_in_range_silent(
        &mut self,
        range_utf16: Option<Range<usize>>,
        new_text: &str,
        window: &Window,
        cx: &mut Context,
    )
        requires
            old(self)@.ordered(),
            range_utf16 matches Some(r) ==> r.start <= r.end,
        ensures
            exists|v: Verdicts| #[trigger]
                old(self)@.hears_silently(range_utf16, new_text@, v) && final(self)@ == old(
                    self
                )@.replaced_silently(range_utf16, new_text@, v) && final(cx)@ == old(
                    self
                )@.replaced_silently_asks(range_utf16, new_text@, v, *window, old(cx)@),
    {
        let v = self.edit_silently(range_utf16, new_text, window, cx);
    }

    /// Lifts what keeps the user from editing, and hands out what was lifted.
    fn allow_edits(&mut self) -> (was: (bool, bool))
        ensures
            final(self)@ == old(self)@.freed(),
            was == (old(self)@.options.disabled, old(self)@.options.readonly),
    {
        let was = (self.options.disabled, self.options.readonly);
        self.restrict(false, false);
        was
    }

    fn restore_edits(&mut self, was: (bool, bool))
        ensures
            final(self)@ == old(self)@.bound(was.0, was.1),
    {
        self.restrict(was.0, was.1);
    }

    /// Inserts `text` at the cursor and moves the cursor behind it. Programs
    /// may do so even where the user may not.
    pub fn insert(&mut self, text: &str, window: &Window, cx: &mut Context)
        requires
            old(self)@.ordered(),
        ensures
            exists|v: Verdicts| #[trigger]
                old(self)@.announced().hears_silently(Some(old(self)@.cursor_utf16()), text@, v)
                    && final(self)@ == old(self)@.inserted(text@, v)
                    && final(cx)@ == old(self)@.announced().replaced_silently_asks(
                    Some(old(self)@.cursor_utf16()),
                    text@,
                    v,
                    *window,
                    old(cx)@,
                ),
    {
        let was = self.allow_edits();
        self.announce(Some(EditIntent::Atomic));
        let cursor = self.cursor();
        let range_utf16 = self.range_to_utf16(&(cursor..cursor));
        assert(range_utf16 == old(self)@.cursor_utf16());
        let v = self.edit_silently(Some(range_utf16), text, window, cx);
        self.select(Selection::caret(self.selected_range.end));
        self.restore_edits(was);
    }

    /// Replaces the selection by `text` and moves the cursor behind it.
    /// Programs may do so even where the user may not.
    pub fn replace(&mut self, text: &str, window: &Window, cx: &mut Context)
        requires
            old(self)@.ordered(),
        ensures
            exists|v: Verdicts| #[trigger]
                old(self)@.announced().hears_silently(None, text@, v)
                    && final(self)@ == old(self)@.replaced_freely(text@, v)
                    && final(cx)@ == old(self)@.announced().replaced_silently_asks(
                    None,
                    text@,
                    v,
                    *window,
                    old(cx)@,
                ),
    {
        reveal(StateView::replaced_freely);
        let was = self.allow_edits();
        self.announce(Some(EditIntent::Atomic));
        let v = self.edit_silently(None, text, window, cx);
        self.select(Selection::caret(self.selected_range.end));
        self.restore_edits(was);
    }

    /// Replaces the whole text, and hands out what the checks said of it.
    pub(crate) fn rewrite_text(&mut self, text: &str, window: &Window, cx: &mut Context) -> (v:
        Ghost<Verdicts>)
        requires
            old(self)@.ordered(),
        ensures
            old(self)@.announced().hears_silently(Some(old(self)@.all_utf16()), text@, v@),
            final(self)@ == old(self)@.rewritten(text@, v@),
            final(cx)@ == old(self)@.rewritten_asks(text@, v@, *window, old(cx)@),
    {
        let was = self.allow_edits();
        self.announce(Some(EditIntent::Atomic));
        let range_utf16: Range<usize> = 0..self.text.len_utf16();
        assert(range_utf16 == old(self)@.all_utf16());
        let v = self.edit_silently(Some(range_utf16), text, window, cx);
        self.forget_parse();
        cx.notify();
        self.restore_edits(was);
        v
    }
}

} // verus!
