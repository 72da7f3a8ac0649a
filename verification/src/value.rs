//! The value of an input, as programs read and set it.
use crate::context::{Context, ContextView, Effect, PixelPoint, Window};
use crate::edit::{has_line_break, lemma_on_one_line, on_one_line, Verdict, Verdicts};
use crate::kind::InputModeKind;
use crate::rope::{position_of, Position, TextBuffer};
use crate::selection::Selection;
use crate::state::{InputBaseState, Session, StateView};
use crate::text::{
    byte_len, clip_left, lemma_clip, lemma_clip_mono, lemma_from_utf16, lemma_text_ends,
    lemma_utf16_round_trip, slice_of, spliced, to_utf16, utf16_len,
};
use crate::undo_manager::UndoView;
use core::ops::Range;
use vstd::prelude::*;

verus! {

/// The top left corner.
pub open spec fn origin() -> PixelPoint {
    PixelPoint { x: 0, y: 0 }
}

impl StateView {
    /// The state with the cursor where a new value puts it: at the end of a
    /// single line, else at the start.
    pub open spec fn cursor_reset(self) -> StateView {
        StateView {
            selected: if self.single_line() {
                Selection::at(byte_len(self.text) as usize)
            } else {
                Selection::at(0)
            },
            ..self
        }
    }

    /// The state with the language features of an editor to be refreshed.
    pub open spec fn features_reset(self) -> StateView {
        if self.code_editor {
            StateView { session: Session { pending_update: true, ..self.session }, ..self }
        } else {
            self
        }
    }

    /// The state scrolled to the start. A single line stays there for the
    /// next paint, though its cursor is at the end.
    pub open spec fn scroll_reset(self) -> StateView {
        StateView {
            session: Session {
                scroll_offset: origin(),
                deferred_scroll_offset: if self.single_line() {
                    Some(origin())
                } else {
                    self.session.deferred_scroll_offset
                },
                ..self.session
            },
            ..self
        }
    }

    pub open spec fn emitting(self, emit_events: bool) -> StateView {
        StateView { session: Session { emit_events, ..self.session }, ..self }
    }

    pub open spec fn history_cleared(self) -> StateView {
        StateView {
            undo: UndoView {
                undos: Seq::empty(),
                redos: Seq::empty(),
                open: None,
                coalescing: false,
                ..self.undo
            },
            ..self
        }
    }

    /// The state in which `set_value` puts the new text in: nothing is
    /// recorded, and nobody is told.
    pub open spec fn value_base(self) -> StateView {
        self.ignoring(true).emitting(false)
    }

    /// The state after its value was set to `t`.
    pub open spec fn with_value(self, t: Seq<char>, v: Verdicts) -> StateView {
        self.value_base().rewritten(t, v).ignoring(false).emitting(
            true,
        ).cursor_reset().features_reset().scroll_reset().history_cleared()
    }

    /// The state after all of its text was replaced by `t`, as one step of its history.
    pub open spec fn with_all_replaced(self, t: Seq<char>, v: Verdicts) -> StateView {
        self.rewritten(t, v).cursor_reset().features_reset().scroll_reset()
    }
}

impl<M: InputModeKind> InputBaseState<M> {
    fn reset_selection(&mut self)
        ensures
            final(self)@ == old(self)@.cursor_reset(),
    {
        if self.is_single_line() {
            let end: usize = self.text.len();
            self.select(Selection::caret(end));
        } else {
            self.select(Selection::caret(0));
        }
    }

    fn reset_lsp_state(&mut self, cx: &mut Context)
        ensures
            final(self)@ == old(self)@.features_reset(),
            final(cx)@ == old(cx)@.ask_if(old(self)@.code_editor, Effect::ResetLanguageFeatures),
    {
        if self.is_code_editor() {
            self.await_update();
            cx.request(Effect::ResetLanguageFeatures);
        }
    }

    fn reset_scroll_to_start(&mut self)
        ensures
            final(self)@ == old(self)@.scroll_reset(),
    {
        let start = PixelPoint { x: 0, y: 0 };
        let deferred = if self.is_single_line() {
            Some(start)
        } else {
            self.session.deferred_scroll_offset
        };
        self.scroll_by(start, deferred);
    }

    /// Sets the text of the input and forgets its history. Nobody is told.
    ///
    /// The cursor of a single-line input is put at the end of the text, while
    /// the view is scrolled back to the start. Other inputs have it at the start.
    pub fn set_value(&mut self, value: &str, window: &Window, cx: &mut Context)
        requires
            old(self)@.ordered(),
        ensures
            exists|v: Verdicts| #[trigger]
                old(self)@.value_base().announced().hears_silently(
                    Some(old(self)@.all_utf16()),
                    value@,
                    v,
                ) && final(self)@ == old(self)@.with_value(value@, v) && final(cx)@ == old(
                    self
                )@.value_base().rewritten_asks(value@, v, *window, old(cx)@).ask_if(
                    old(self)@.code_editor,
                    Effect::ResetLanguageFeatures,
                ).ask(Effect::Notify),
    {
        let ghost before = self@;
        self.ignore_edits(true);
        self.tell_changes(false);
        assert(self@ == before.value_base());
        let v = self.rewrite_text(value, window, cx);
        assert(before.value_base().announced().hears_silently(
            Some(before.all_utf16()),
            value@,
            v@,
        ));
        self.ignore_edits(false);
        self.tell_changes(true);
        self.reset_selection();
        self.reset_lsp_state(cx);
        self.reset_scroll_to_start();
        self.clear_history();
        cx.notify();
    }

    /// Replaces the whole text, as one step that can be undone.
    ///
    /// The cursor and the view are put where `set_value` puts them.
    pub fn replace_all(&mut self, text: &str, window: &Window, cx: &mut Context)
        requires
            old(self)@.ordered(),
        ensures
            exists|v: Verdicts| #[trigger]
                old(self)@.announced().hears_silently(Some(old(self)@.all_utf16()), text@, v)
                    && final(self)@ == old(self)@.with_all_replaced(text@, v) && final(
                    cx
                )@ == old(self)@.rewritten_asks(text@, v, *window, old(cx)@).ask_if(
                    old(self)@.code_editor,
                    Effect::ResetLanguageFeatures,
                ).ask(Effect::Notify),
    {
        let v = self.rewrite_text(text, window, cx);
        self.reset_selection();
        self.reset_lsp_state(cx);
        self.reset_scroll_to_start();
        cx.notify();
    }

    /// Empties the input.
    pub fn clean(&mut self, window: &Window, cx: &mut Context)
        requires
            old(self)@.ordered(),
        ensures
            exists|v: Verdicts| #[trigger]
                old(self)@.announced().hears_silently(
                    Some(old(self)@.all_utf16()),
                    Seq::empty(),
                    v,
                ) && final(self)@ == old(self)@.cleaned(v) && final(cx)@ == old(
                    self
                )@.cleaned_asks(v, *window, old(cx)@),
    {
        let v = self.take_out(window, cx);
    }

    /// Takes the text out, and hands out what the checks said of it.
    pub(crate) fn take_out(&mut self, window: &Window, cx: &mut Context) -> (v: Ghost<Verdicts>)
        requires
            old(self)@.ordered(),
        ensures
            old(self)@.announced().hears_silently(
                Some(old(self)@.all_utf16()),
                Seq::empty(),
                v@,
            ),
            final(self)@ == old(self)@.cleaned(v@),
            final(cx)@ == old(self)@.cleaned_asks(v@, *window, old(cx)@),
    {
        let empty = "";
        proof {
            reveal_strlit("");
            assert(empty@ =~= Seq::empty());
        }
        let v = self.rewrite_text(empty, window, cx);
        self.select(Selection::caret(0));
        cx.request(Effect::ScrollTo { offset: 0, direction: None });
        v
    }

    /// Sets the text that an input is built with.
    pub fn default_value(self, value: &str) -> (state: Self)
        ensures
            state@ == (StateView {
                text: self@.normalized(value@),
                mode: self@.mode.without_diagnostics(),
                session: Session { pending_update: true, ..self@.session },
                ..self@
            }),
    {
        let mut state = self;
        let text = state.normalize_input(value);
        state.set_text(TextBuffer::from_str(text.as_str()));
        state.forget_diagnostics();
        state.await_update();
        state
    }

    /// The text of the input.
    pub fn value(&self) -> (value: String)
        ensures
            value@ == self@.text,
    {
        self.text.text()
    }

    /// The text of the input, as a buffer.
    pub fn text(&self) -> (text: &TextBuffer)
        ensures
            text@ == self@.text,
    {
        &self.text
    }

    /// The selected text. Where the selection does not lie at `char`
    /// boundaries, the ones before it are taken.
    pub fn selected_text(&self) -> (text: String)
        requires
            self@.ordered(),
        ensures
            text@ == slice_of(
                self@.text,
                clip_left(self@.text, self@.selected.start as int),
                clip_left(self@.text, self@.selected.end as int),
            ),
    {
        let start: usize = self.selected_range.start;
        let end: usize = self.selected_range.end;
        proof {
            lemma_utf16_round_trip(self@.text, start as int);
            lemma_utf16_round_trip(self@.text, end as int);
            lemma_clip(self@.text, start as int);
            lemma_clip(self@.text, end as int);
            lemma_clip_mono(self@.text, start as int, end as int);
        }
        let range_utf16 = self.range_to_utf16(&(start..end));
        let range = self.range_from_utf16(&range_utf16);
        self.text.slice(range.start, range.end)
    }

    /// The part of the value that the user has selected.
    pub fn selected_value(&self) -> (value: String)
        requires
            self@.ordered(),
        ensures
            value@ == slice_of(
                self@.text,
                clip_left(self@.text, self@.selected.start as int),
                clip_left(self@.text, self@.selected.end as int),
            ),
    {
        self.selected_text()
    }

    /// The value without what the mask put in.
    pub fn unmask_value(&self) -> (value: String)
        ensures
            value@ == self@.mask.unmasked(self@.text),
    {
        self.mask_pattern.unmask(self.text.text().as_str())
    }

    /// The line of the cursor, and the number of `char`s before it on that line.
    pub fn cursor_position(&self) -> (p: Position)
        ensures
            (p.line as int, p.character as int) == position_of(
                self@.text,
                self@.cursor() as int,
            ),
    {
        self.text.offset_to_position(self.cursor())
    }

    /// The selection, in bytes. It is empty when no text is selected.
    pub fn selected_range(&self) -> (r: Range<usize>)
        ensures
            r.start == self@.selected.start,
            r.end == self@.selected.end,
    {
        self.selected_range.start..self.selected_range.end
    }

    /// The value that has to be brought into the bounds of a number input; nothing for other
    /// inputs and where there are no bounds.
    pub fn number_to_clamp(&self) -> (value: Option<String>)
        ensures
            match value {
                Some(s) => self@.clamps() && s@ == self@.mask.unmasked(self@.text),
                None => !self@.clamps(),
            },
    {
        if self.is_single_line() && self.mask_pattern.is_number() && (
        self.options.number_min.is_some() || self.options.number_max.is_some()) {
            Some(self.unmask_value())
        } else {
            None
        }
    }

    /// Replaces the value of a number input by the bound that it violates,
    /// unless that is no valid text.
    pub fn apply_clamped_number(&mut self, clamped: &str, window: &Window, cx: &mut Context)
        requires
            old(self)@.ordered(),
        ensures
            exists|v: Verdict, vs: Verdicts| #[trigger]
                old(self)@.hears_clamped(clamped@, v, vs) && final(self)@ == old(self)@.clamped(
                    clamped@,
                    v,
                    vs,
                ) && final(cx)@ == old(self)@.clamped_asks(clamped@, v, vs, *window, old(cx)@),
    {
        let ghost before = self@;
        let verdict = self.judge(clamped);
        let len: usize = self.text.len();
        let range_utf16 = self.range_to_utf16(&(0..len));
        proof {
            crate::text::lemma_to_utf16_mono(before.text, 0, len as int);
            assert(range_utf16 == before.all_range_utf16());
        }
        if self.is_valid_with(clamped, verdict) {
            let vs = self.edit_silently(Some(range_utf16), clamped, window, cx);
            assert(before.hears_clamped(clamped@, verdict, vs@));
        } else {
            assert(before.hears_clamped(clamped@, verdict, Verdicts::unasked()));
        }
    }
}

impl StateView {
    /// The state after its text was taken out.
    pub open spec fn cleaned(self, v: Verdicts) -> StateView {
        StateView { selected: Selection::at(0), ..self.rewritten(Seq::empty(), v) }
    }

    pub open spec fn cleaned_asks(
        self,
        v: Verdicts,
        window: Window,
        cx: ContextView,
    ) -> ContextView {
        self.rewritten_asks(Seq::empty(), v, window, cx).ask(
            Effect::ScrollTo { offset: 0, direction: None },
        )
    }

    /// Whether the value is to be brought into bounds.
    pub open spec fn clamps(self) -> bool {
        &&& self.single_line()
        &&& self.mask is Number
        &&& self.options.number_min is Some || self.options.number_max is Some
    }

    /// The state after the bound `t` was put in for the whole text, unless it is no valid text.
    pub open spec fn clamped(self, t: Seq<char>, v: Verdict, vs: Verdicts) -> StateView {
        if self.valid(t, v) {
            self.replaced_silently(Some(self.all_range_utf16()), t, vs)
        } else {
            self
        }
    }

    pub open spec fn clamped_asks(
        self,
        t: Seq<char>,
        v: Verdict,
        vs: Verdicts,
        window: Window,
        cx: ContextView,
    ) -> ContextView {
        if self.valid(t, v) {
            self.replaced_silently_asks(Some(self.all_range_utf16()), t, vs, window, cx)
        } else {
            cx
        }
    }

    /// Whether the checks can say `v` of the bound `t`, and `vs` of putting
    /// it in. They are asked about that only where it is a valid text.
    pub open spec fn hears_clamped(self, t: Seq<char>, v: Verdict, vs: Verdicts) -> bool {
        self.hears(t, v) && if self.valid(t, v) {
            self.hears_silently(Some(self.all_range_utf16()), t, vs)
        } else {
            vs == Verdicts::unasked()
        }
    }

    /// The whole text, in UTF-16 code units.
    pub open spec fn all_range_utf16(self) -> Range<usize> {
        Range {
            start: to_utf16(self.text, 0) as usize,
            end: to_utf16(self.text, byte_len(self.text) as int) as usize,
        }
    }
}

/// Rewriting the text of a multi-line input without a number mask gives exactly the new text.
pub proof fn law_rewrite_is_exact(s: StateView, t: Seq<char>, v: Verdicts)
    requires
        s.multi_line,
        !(s.mask is Number),
        byte_len(s.text) + byte_len(t) <= usize::MAX,
    ensures
        s.rewritten(t, v).text == t,
        s.with_value(t, v).text == t,
        s.with_all_replaced(t, v).text == t,
        s.with_value(t, v).selected == Selection::at(0),
        !s.with_value(t, v).undo.any_undos(),
        s.with_value(t, v).session.emit_events,
        s.with_value(t, v).options == s.options,
{
    lemma_rewrite_text(s, t, v);
    lemma_rewrite_text(s.value_base(), t, v);
}

proof fn lemma_whole_range(s: StateView)
    requires
        byte_len(s.text) <= usize::MAX,
    ensures
        s.edit_range(Some(s.all_utf16())) == (0int, byte_len(s.text) as int),
{
    crate::text::lemma_utf16_narrower(s.text);
    lemma_from_utf16(s.text, utf16_len(s.text) as int);
    lemma_text_ends(s.text);
    crate::text::lemma_floor_exact(crate::text::Unit::Utf16, s.text, 0);
    assert(s.text.take(0) =~= Seq::<char>::empty());
}

proof fn lemma_splice_all(s: Seq<char>, t: Seq<char>)
    ensures
        spliced(s, 0, byte_len(s) as int, t) == t,
{
    lemma_text_ends(s);
    lemma_clip(s, byte_len(s) as int);
    assert(spliced(s, 0, byte_len(s) as int, t) =~= t);
}

proof fn lemma_rewrite_text(s: StateView, t: Seq<char>, v: Verdicts)
    requires
        s.multi_line,
        !(s.mask is Number),
        byte_len(s.text) + byte_len(t) <= usize::MAX,
    ensures
        s.rewritten(t, v).text == t,
        s.rewritten(t, v).options == s.options,
        s.rewritten(t, v).multi_line,
{
    reveal(StateView::replaced);
    lemma_whole_range(s);
    lemma_splice_all(s.text, t);
}

/// Setting the value of a single-line input without a mask and without checks gives the new
/// text without its line breaks, and puts the cursor at its end and the view at its start.
pub proof fn law_single_line_value(s: StateView, t: Seq<char>, v: Verdicts)
    requires
        s.single_line(),
        s.mask is Plain,
        s.validate is None,
        s.pattern is None,
        byte_len(s.text) + byte_len(t) <= usize::MAX,
    ensures
        s.with_value(t, v).text == on_one_line(t),
        s.with_value(t, v).selected == Selection::at(byte_len(on_one_line(t)) as usize),
        s.with_value(t, v).session.scroll_offset == origin(),
        s.with_value(t, v).session.deferred_scroll_offset == Some(origin()),
        !s.with_value(t, v).undo.any_undos(),
        s.with_all_replaced(t, v).text == on_one_line(t),
{
    lemma_rewrite_single(s, t, v);
    lemma_rewrite_single(s.value_base(), t, v);
}

proof fn lemma_rewrite_single(s: StateView, t: Seq<char>, v: Verdicts)
    requires
        s.single_line(),
        s.mask is Plain,
        s.validate is None,
        s.pattern is None,
        byte_len(s.text) + byte_len(t) <= usize::MAX,
    ensures
        s.rewritten(t, v).text == on_one_line(t),
        s.rewritten(t, v).single_line(),
{
    reveal(StateView::replaced);
    lemma_on_one_line(t);
    lemma_whole_range(s);
    lemma_splice_all(s.text, on_one_line(t));
}

/// A single-line input never gets a line break from what is put in.
pub proof fn law_single_line_stays(s: StateView, t: Seq<char>)
    requires
        s.single_line(),
    ensures
        !has_line_break(s.normalized(t)),
{
    if s.mask is Number {
        lemma_on_one_line(crate::mask_pattern::number_normalized(t));
    } else {
        lemma_on_one_line(t);
    }
}

} // verus!
