//! What keys do to an input.
use crate::context::{Context, ContextView, Effect, InputEvent, Window};
use crate::edit::Verdicts;
use crate::keys::Action;
use crate::kind::InputModeKind;
use crate::navigate::selected_asks;
use crate::state::{InputBaseState, StateView};
use crate::text::{
    byte_len, clip_left, lemma_to_utf16_mono, slice_of, to_utf16,
};
use crate::undo_manager::{EditIntent, UndoView};
use core::ops::Range;
use vstd::prelude::*;

verus! {

/// The Enter key was pressed.
#[derive(Clone, Copy, PartialEq, Eq, Structural, Debug)]
pub struct Enter {
    /// Whether it was pressed to confirm in the second way.
    pub secondary: bool,
    /// Whether Shift was held.
    pub shift: bool,
}

impl Enter {
    /// Whether `action` is Enter, pressed to confirm in the first way, with Shift or without.
    pub fn is_primary(action: &Action) -> (r: bool)
        ensures
            r == (*action matches Action::Enter(e) && !e.secondary),
    {
        *action == Action::Enter(Enter { secondary: false, shift: false }) || *action
            == Action::Enter(Enter { secondary: false, shift: true })
    }
}

/// The text that Enter puts in.
pub open spec fn new_line(indent: Seq<char>) -> Seq<char> {
    seq!['\n'] + indent
}

impl StateView {
    pub open spec fn intending(self, intent: EditIntent) -> StateView {
        StateView { undo: UndoView { pending_intent: Some(intent), ..self.undo }, ..self }
    }

    pub open spec fn selects_nothing(self) -> bool {
        self.selected.start == self.selected.end
    }

    /// The range of UTF-16 code units between two byte offsets.
    pub open spec fn span_utf16(self, a: int, b: int) -> Range<usize> {
        let (lo, hi) = if a <= b {
            (a, b)
        } else {
            (b, a)
        };
        Range {
            start: to_utf16(self.text, lo) as usize,
            end: to_utf16(self.text, hi) as usize,
        }
    }

    /// The state in which Backspace deletes: what is before the cursor is
    /// selected, where nothing else is.
    pub open spec fn backspace_base(self) -> StateView {
        if self.selects_nothing() {
            self.selected_to(self.previous(self.cursor() as int)).intending(EditIntent::Backspace)
        } else {
            self.intending(EditIntent::Atomic)
        }
    }

    /// The state in which Delete deletes: what is behind the cursor is
    /// selected, where nothing else is.
    pub open spec fn delete_base(self) -> StateView {
        if self.selects_nothing() {
            self.selected_to(self.next(self.cursor() as int)).intending(EditIntent::DeleteForward)
        } else {
            self.intending(EditIntent::Atomic)
        }
    }

    /// What was asked for before a deletion up to `o`.
    pub open spec fn delete_base_asks(self, o: int, cx: ContextView) -> ContextView {
        if self.selects_nothing() {
            selected_asks(self, o, cx)
        } else {
            cx
        }
    }

    /// The state after the selection was deleted, or what is between the
    /// cursor and `o` where nothing is selected.
    pub open spec fn deleted_span(self, o: int, v: Verdicts) -> StateView {
        if self.selects_nothing() {
            self.replaced_silently(
                Some(self.span_utf16(o, self.cursor() as int)),
                Seq::empty(),
                v,
            )
        } else {
            self.replaced(None, Seq::empty(), v)
        }
    }

    pub open spec fn deleted_span_asks(
        self,
        o: int,
        v: Verdicts,
        window: Window,
        cx: ContextView,
    ) -> ContextView {
        if self.selects_nothing() {
            self.replaced_silently_asks(
                Some(self.span_utf16(o, self.cursor() as int)),
                Seq::empty(),
                v,
                window,
                cx,
            )
        } else {
            self.replaced_asks(None, Seq::empty(), v, window, cx)
        }.ask(Effect::PauseBlink)
    }

    pub open spec fn hears_span(self, o: int, v: Verdicts) -> bool {
        if self.selects_nothing() {
            self.hears_silently(
                Some(self.span_utf16(o, self.cursor() as int)),
                Seq::empty(),
                v,
            )
        } else {
            self.hears_of(None, Seq::empty(), v)
        }
    }

    /// Where a deletion to the beginning of the line ends: one byte further where the cursor is
    /// there already.
    pub open spec fn delete_home(self) -> int {
        let o = self.line_home();
        if o == self.cursor() && o > 0 {
            o - 1
        } else {
            o
        }
    }

    /// Where a deletion to the end of the line ends: one byte further where the cursor is there
    /// already.
    pub open spec fn delete_tail(self) -> int {
        let o = self.line_tail();
        if o == self.cursor() {
            if o + 1 < byte_len(self.text) {
                o + 1
            } else {
                byte_len(self.text) as int
            }
        } else {
            o
        }
    }

    /// Whether Enter puts in a new line.
    pub open spec fn enters_line(self, action: Enter) -> bool {
        self.multi_line && (!self.options.submit_on_enter || action.shift)
    }

    /// The text that Enter puts in. An editor indents the new line.
    pub open spec fn entered_text(self) -> Seq<char> {
        new_line(
            if self.code_editor {
                self.new_line_indent()
            } else {
                Seq::empty()
            },
        )
    }

    /// The state after Enter was pressed.
    pub open spec fn entered(self, action: Enter, v: Verdicts, window: Window) -> StateView {
        if window.menu_handles_action {
            self
        } else if self.enters_line(action) {
            self.replaced_silently(None, self.entered_text(), v)
        } else {
            self.uncoalesced()
        }
    }

    /// Whether `v` can be what the checks say once Enter was pressed.
    pub open spec fn hears_enter(self, action: Enter, v: Verdicts, window: Window) -> bool {
        if !window.menu_handles_action && self.enters_line(action) {
            self.hears_silently(None, self.entered_text(), v)
        } else {
            v == Verdicts::unasked()
        }
    }

    pub open spec fn entered_asks(
        self,
        action: Enter,
        v: Verdicts,
        window: Window,
        cx: ContextView,
    ) -> ContextView {
        if window.menu_handles_action {
            cx
        } else {
            let c = cx.ask_if(window.inline_completion, Effect::ClearInlineCompletion);
            (if self.enters_line(action) {
                self.replaced_silently_asks(None, self.entered_text(), v, window, c).ask(
                    Effect::PauseBlink,
                )
            } else {
                c.ask(Effect::Propagate)
            }).ask(
                Effect::Emit(
                    InputEvent::PressEnter { secondary: action.secondary, shift: action.shift },
                ),
            )
        }
    }

    /// The state after the composition was ended, where there is one.
    pub open spec fn unmarked(self) -> StateView {
        if self.ime is Some {
            StateView { ime: None, undo: self.undo.committed(), ..self }
        } else {
            self
        }
    }

    /// Whether Escape reaches the text: neither a menu nor a completion took it.
    pub open spec fn escapes(self, window: Window) -> bool {
        !window.menu_handles_action && !window.inline_completion
    }

    /// The state after Escape was pressed.
    pub open spec fn escaped(self, v: Verdicts, window: Window) -> StateView {
        if !self.escapes(window) {
            self
        } else if self.options.clean_on_escape {
            self.unmarked().cleaned(v)
        } else {
            self.unmarked()
        }
    }

    /// Whether `v` can be what the checks say once Escape was pressed.
    pub open spec fn hears_escape(self, v: Verdicts, window: Window) -> bool {
        if self.escapes(window) && self.options.clean_on_escape {
            self.unmarked().announced().hears_silently(Some(self.all_utf16()), Seq::empty(), v)
        } else {
            v == Verdicts::unasked()
        }
    }

    pub open spec fn escaped_asks(
        self,
        v: Verdicts,
        window: Window,
        cx: ContextView,
    ) -> ContextView {
        if window.menu_handles_action {
            cx
        } else if window.inline_completion {
            cx.ask(Effect::ClearInlineCompletion)
        } else if self.options.clean_on_escape {
            self.unmarked().cleaned_asks(v, window, cx)
        } else {
            cx.ask(Effect::Propagate)
        }
    }

    /// The selected text, at the boundaries before its ends.
    pub open spec fn selection_text(self) -> Seq<char> {
        slice_of(
            self.text,
            clip_left(self.text, self.selected.start as int),
            clip_left(self.text, self.selected.end as int),
        )
    }

    /// The context with the selected text on the clipboard, where there is one.
    pub open spec fn copied(self, cx: ContextView) -> ContextView {
        if self.selects_nothing() {
            cx
        } else {
            ContextView { clipboard: Some(self.selection_text()), ..cx }
        }
    }

    /// The state after `t` was put in for the selection in one step of the history.
    pub open spec fn put_in(self, t: Seq<char>, v: Verdicts) -> StateView {
        self.intending(EditIntent::Atomic).replaced_silently(None, t, v)
    }

    pub open spec fn put_in_asks(
        self,
        t: Seq<char>,
        v: Verdicts,
        window: Window,
        cx: ContextView,
    ) -> ContextView {
        self.intending(EditIntent::Atomic).replaced_silently_asks(None, t, v, window, cx)
    }

    /// The state after the focus was lost. A menu of the input does not take it away.
    pub open spec fn blurred(self, window: Window) -> StateView {
        if window.context_menu_open {
            self
        } else {
            StateView { popover: None, ..self.uncoalesced() }
        }
    }

    pub open spec fn blurred_asks(self, window: Window, cx: ContextView) -> ContextView {
        if window.context_menu_open {
            cx
        } else {
            cx.ask(Effect::ClearHover).ask(Effect::ClearInlineCompletion).ask(
                Effect::StopBlink,
            ).ask_if(self.clamps(), Effect::ClampNumber).ask(Effect::Emit(InputEvent::Blur)).ask(
                Effect::Notify,
            )
        }
    }

    /// Whether the cursor is painted.
    pub open spec fn shows_cursor(self, window: Window) -> bool {
        &&& window.focused || window.context_menu_open
        &&& !self.options.disabled
        &&& window.cursor_visible
        &&& window.active
    }
}

impl<M: InputModeKind> InputBaseState<M> {
    pub(crate) fn pause_blink_cursor(&self, cx: &mut Context)
        ensures
            final(cx)@ == old(cx)@.ask(Effect::PauseBlink),
    {
        cx.request(Effect::PauseBlink);
    }

    /// Deletes the selection, or what is before the cursor.
    pub fn backspace(&mut self, window: &Window, cx: &mut Context)
        requires
            old(self)@.ordered(),
        ensures
            exists|v: Verdicts| #[trigger]
                old(self)@.backspace_base().hears_of(None, Seq::empty(), v) && final(self)@ == old(
                    self
                )@.backspace_base().replaced(None, Seq::empty(), v) && final(cx)@ == old(
                    self
                )@.backspace_base().replaced_asks(
                    None,
                    Seq::empty(),
                    v,
                    *window,
                    old(self)@.delete_base_asks(
                        old(self)@.previous(old(self)@.cursor() as int),
                        old(cx)@,
                    ),
                ).ask(Effect::PauseBlink),
    {
        let ghost before = self@;
        if self.selected_range.is_empty() {
            let offset = self.previous_boundary(self.cursor());
            self.select_to(offset, cx);
            self.announce(Some(EditIntent::Backspace));
        } else {
            self.announce(Some(EditIntent::Atomic));
        }
        assert(self@ == before.backspace_base());
        let empty = "";
        proof {
            reveal_strlit("");
            assert(empty@ =~= Seq::empty());
        }
        let v = self.edit_text(None, empty, window, cx);
        self.pause_blink_cursor(cx);
    }

    /// Deletes the selection, or what is behind the cursor.
    pub fn delete(&mut self, window: &Window, cx: &mut Context)
        requires
            old(self)@.ordered(),
        ensures
            exists|v: Verdicts| #[trigger]
                old(self)@.delete_base().hears_of(None, Seq::empty(), v) && final(self)@ == old(
                    self
                )@.delete_base().replaced(None, Seq::empty(), v) && final(cx)@ == old(
                    self
                )@.delete_base().replaced_asks(
                    None,
                    Seq::empty(),
                    v,
                    *window,
                    old(self)@.delete_base_asks(
                        old(self)@.next(old(self)@.cursor() as int),
                        old(cx)@,
                    ),
                ).ask(Effect::PauseBlink),
    {
        let ghost before = self@;
        if self.selected_range.is_empty() {
            let offset = self.next_boundary(self.cursor());
            self.select_to(offset, cx);
            self.announce(Some(EditIntent::DeleteForward));
        } else {
            self.announce(Some(EditIntent::Atomic));
        }
        assert(self@ == before.delete_base());
        let empty = "";
        proof {
            reveal_strlit("");
            assert(empty@ =~= Seq::empty());
        }
        let v = self.edit_text(None, empty, window, cx);
        self.pause_blink_cursor(cx);
    }

    /// Deletes the selection, or what is between the cursor and `offset`.
    fn delete_span(&mut self, offset: usize, window: &Window, cx: &mut Context) -> (v: Ghost<
        Verdicts,
    >)
        requires
            old(self)@.ordered(),
        ensures
            old(self)@.hears_span(offset as int, v@),
            final(self)@ == old(self)@.deleted_span(offset as int, v@),
            final(cx)@ == old(self)@.deleted_span_asks(offset as int, v@, *window, old(cx)@),
    {
        let empty = "";
        proof {
            reveal_strlit("");
            assert(empty@ =~= Seq::empty());
        }
        let v = if !self.selected_range.is_empty() {
            self.edit_text(None, empty, window, cx)
        } else {
            let cursor = self.cursor();
            let range_utf16 = if offset <= cursor {
                self.range_to_utf16(&(offset..cursor))
            } else {
                self.range_to_utf16(&(cursor..offset))
            };
            proof {
                assert(range_utf16 == self@.span_utf16(offset as int, cursor as int));
                if offset <= cursor {
                    lemma_to_utf16_mono(self@.text, offset as int, cursor as int);
                } else {
                    lemma_to_utf16_mono(self@.text, cursor as int, offset as int);
                }
            }
            self.edit_silently(Some(range_utf16), empty, window, cx)
        };
        self.pause_blink_cursor(cx);
        v
    }

    /// Deletes to the beginning of the line.
    pub fn delete_to_beginning_of_line(&mut self, window: &Window, cx: &mut Context)
        requires
            old(self)@.ordered(),
        ensures
            exists|v: Verdicts| #[trigger]
                old(self)@.hears_span(old(self)@.delete_home(), v) && final(self)@ == old(
                    self
                )@.deleted_span(old(self)@.delete_home(), v) && final(cx)@ == old(
                    self
                )@.deleted_span_asks(old(self)@.delete_home(), v, *window, old(cx)@),
    {
        let mut offset = self.start_of_line();
        if offset == self.cursor() {
            offset = offset.saturating_sub(1);
        }
        assert(offset == self@.delete_home());
        let v = self.delete_span(offset, window, cx);
    }

    /// Deletes to the end of the line.
    pub fn delete_to_end_of_line(&mut self, window: &Window, cx: &mut Context)
        requires
            old(self)@.ordered(),
        ensures
            exists|v: Verdicts| #[trigger]
                old(self)@.hears_span(old(self)@.delete_tail(), v) && final(self)@ == old(
                    self
                )@.deleted_span(old(self)@.delete_tail(), v) && final(cx)@ == old(
                    self
                )@.deleted_span_asks(old(self)@.delete_tail(), v, *window, old(cx)@),
    {
        let mut offset = self.end_of_line();
        if offset == self.cursor() {
            let len: usize = self.text.len();
            offset = if offset < len {
                offset + 1
            } else {
                len
            };
        }
        assert(offset == self@.delete_tail());
        let v = self.delete_span(offset, window, cx);
    }

    /// Deletes to the start of the word before.
    pub fn delete_previous_word(&mut self, window: &Window, cx: &mut Context)
        requires
            old(self)@.ordered(),
        ensures
            exists|v: Verdicts| #[trigger]
                old(self)@.hears_span(old(self)@.word_before(), v) && final(self)@ == old(
                    self
                )@.deleted_span(old(self)@.word_before(), v) && final(cx)@ == old(
                    self
                )@.deleted_span_asks(old(self)@.word_before(), v, *window, old(cx)@),
    {
        let offset = self.previous_start_of_word();
        let v = self.delete_span(offset, window, cx);
    }

    /// Deletes to the end of the word behind.
    pub fn delete_next_word(&mut self, window: &Window, cx: &mut Context)
        requires
            old(self)@.ordered(),
        ensures
            exists|v: Verdicts| #[trigger]
                old(self)@.hears_span(old(self)@.word_after(), v) && final(self)@ == old(
                    self
                )@.deleted_span(old(self)@.word_after(), v) && final(cx)@ == old(
                    self
                )@.deleted_span_asks(old(self)@.word_after(), v, *window, old(cx)@),
    {
        let offset = self.next_end_of_word();
        let v = self.delete_span(offset, window, cx);
    }

    /// The text that Enter puts in.
    fn new_line_text(&self) -> (text: String)
        ensures
            text@ == self@.entered_text(),
    {
        let mut text = String::new();
        text.push('\n');
        if self.is_code_editor() {
            let indent = self.indent_of_next_line();
            text.append(indent.as_str());
        }
        assert(text@ =~= self@.entered_text());
        text
    }

    /// Puts in a new line, or hands Enter on.
    ///
    /// With `submit_on_enter` only Shift and Enter put a new line in. A
    /// single-line input hands Enter on always. Subscribers are told either way.
    pub fn enter(&mut self, action: &Enter, window: &Window, cx: &mut Context)
        requires
            old(self)@.ordered(),
        ensures
            exists|v: Verdicts| #[trigger]
                old(self)@.hears_enter(*action, v, *window)
                    && final(self)@ == old(self)@.entered(*action, v, *window)
                    && final(cx)@ == old(self)@.entered_asks(*action, v, *window, old(cx)@),
    {
        let ghost before = self@;
        let ghost mut heard = Verdicts::unasked();
        if window.menu_handles_action {
            assert(before.hears_enter(*action, heard, *window));
            return;
        }
        if window.inline_completion {
            cx.request(Effect::ClearInlineCompletion);
        }
        let insert_newline: bool = self.is_multi_line() && (!self.options.submit_on_enter
            || action.shift);
        if insert_newline {
            let new_line_text = self.new_line_text();
            let v = self.edit_silently(None, new_line_text.as_str(), window, cx);
            proof {
                heard = v@;
            }
            self.pause_blink_cursor(cx);
        } else {
            self.break_coalescing();
            cx.propagate();
        }
        cx.emit(InputEvent::PressEnter { secondary: action.secondary, shift: action.shift });
        assert(before.hears_enter(*action, heard, *window));
    }

    /// Ends a composition, and empties the input where it was asked for.
    pub fn escape(&mut self, window: &Window, cx: &mut Context)
        requires
            old(self)@.ordered(),
        ensures
            exists|v: Verdicts| #[trigger]
                old(self)@.hears_escape(v, *window)
                    && final(self)@ == old(self)@.escaped(v, *window)
                    && final(cx)@ == old(self)@.escaped_asks(v, *window, old(cx)@),
    {
        let ghost before = self@;
        assert(!(before.escapes(*window) && before.options.clean_on_escape)
            ==> before.hears_escape(Verdicts::unasked(), *window));
        if window.menu_handles_action {
            return;
        }
        if window.inline_completion {
            cx.request(Effect::ClearInlineCompletion);
            return;
        }
        if self.ime_marked_range.is_some() {
            self.unmark_text();
        }
        assert(self@ == before.unmarked());
        if self.options.clean_on_escape {
            assert(self@.all_utf16() == before.all_utf16());
            let v = self.take_out(window, cx);
            assert(before.hears_escape(v@, *window));
            return;
        }
        cx.propagate();
    }

    /// Copies the selected text to the clipboard. Nothing is copied where nothing is selected.
    pub fn copy(&self, cx: &mut Context)
        requires
            self@.ordered(),
        ensures
            final(cx)@ == self@.copied(old(cx)@),
    {
        if self.selected_range.is_empty() {
            return;
        }
        let selected_text = self.selected_text();
        cx.write_to_clipboard(selected_text);
    }

    /// Copies the selected text to the clipboard and takes it out.
    pub fn cut(&mut self, window: &Window, cx: &mut Context)
        requires
            old(self)@.ordered(),
        ensures
            old(self)@.selects_nothing() ==> final(self)@ == old(self)@ && final(cx)@ == old(cx)@,
            !old(self)@.selects_nothing() ==> exists|v: Verdicts| #[trigger]
                old(self)@.intending(EditIntent::Atomic).hears_silently(None, Seq::empty(), v)
                    && final(self)@ == old(self)@.put_in(Seq::empty(), v) && final(cx)@ == old(
                    self
                )@.put_in_asks(Seq::empty(), v, *window, old(self)@.copied(old(cx)@)),
    {
        if self.selected_range.is_empty() {
            return;
        }
        self.copy(cx);
        self.announce(Some(EditIntent::Atomic));
        let empty = "";
        proof {
            reveal_strlit("");
            assert(empty@ =~= Seq::empty());
        }
        let v = self.edit_silently(None, empty, window, cx);
    }

    /// Puts in the text of the clipboard.
    pub fn paste(&mut self, window: &Window, cx: &mut Context)
        requires
            old(self)@.ordered(),
        ensures
            old(cx)@.clipboard is None ==> final(self)@ == old(self)@ && final(cx)@ == old(cx)@,
            old(cx)@.clipboard is Some ==> exists|v: Verdicts| #[trigger]
                old(self)@.intending(EditIntent::Atomic).hears_silently(
                    None,
                    old(cx)@.clipboard->0,
                    v,
                ) && final(self)@ == old(self)@.put_in(old(cx)@.clipboard->0, v) && final(
                    cx
                )@ == old(self)@.put_in_asks(old(cx)@.clipboard->0, v, *window, old(cx)@).ask(Effect::ScrollTo { offset: final(self)@.cursor(), direction: None }),
    {
        let ghost before = self@;
        let ghost asked = cx@;
        match cx.read_from_clipboard() {
            None => {},
            Some(new_text) => {
                assert(asked.clipboard->0 == new_text@);
                self.announce(Some(EditIntent::Atomic));
                let v = self.edit_silently(None, new_text.as_str(), window, cx);
                cx.request(Effect::ScrollTo { offset: self.cursor(), direction: None });
                assert(before.intending(EditIntent::Atomic).hears_silently(
                    None,
                    asked.clipboard->0,
                    v@,
                ));
            },
        }
    }

    /// The input got the focus.
    pub fn on_focus(&self, cx: &mut Context)
        ensures
            final(cx)@ == old(cx)@.ask(Effect::StartBlink).ask(Effect::Emit(InputEvent::Focus)),
    {
        cx.request(Effect::StartBlink);
        cx.emit(InputEvent::Focus);
    }

    /// The input lost the focus. The selection stays, and so do decorations.
    pub fn on_blur(&mut self, window: &Window, cx: &mut Context)
        ensures
            final(self)@ == old(self)@.blurred(*window),
            final(cx)@ == old(self)@.blurred_asks(*window, old(cx)@),
    {
        if window.context_menu_open {
            return;
        }
        let clamps: bool = self.number_to_clamp().is_some();
        self.break_coalescing();
        cx.request(Effect::ClearHover);
        self.hide_diagnostic();
        cx.request(Effect::ClearInlineCompletion);
        cx.request(Effect::StopBlink);
        if clamps {
            cx.request(Effect::ClampNumber);
        }
        cx.emit(InputEvent::Blur);
        cx.notify();
    }

    /// A key was pressed.
    pub fn on_key_down(&self, cx: &mut Context)
        ensures
            final(cx)@ == old(cx)@.ask(Effect::PauseBlink),
    {
        self.pause_blink_cursor(cx);
    }

    pub fn show_character_palette(&self, cx: &mut Context)
        ensures
            final(cx)@ == old(cx)@.ask(Effect::ShowCharacterPalette),
    {
        cx.request(Effect::ShowCharacterPalette);
    }

    /// Whether the cursor is painted.
    pub fn show_cursor(&self, window: &Window) -> (r: bool)
        ensures
            r == self@.shows_cursor(*window),
    {
        (window.focused || window.context_menu_open) && !self.options.disabled
            && window.cursor_visible && window.active
    }
}

/// Where the user may not edit, no key changes the text.
pub proof fn law_keys_respect_readonly(
    s: StateView,
    range: Option<Range<usize>>,
    t: Seq<char>,
    selected: Option<Range<usize>>,
    o: int,
    v: Verdicts,
    action: Enter,
    window: Window,
)
    requires
        s.options.disabled || s.options.readonly,
    ensures
        s.replaced(range, t, v).text == s.text,
        s.replaced_silently(range, t, v).text == s.text,
        s.marked(range, t, selected, v).text == s.text,
        s.backspace_base().replaced(None, Seq::empty(), v).text == s.text,
        s.delete_base().replaced(None, Seq::empty(), v).text == s.text,
        s.deleted_span(o, v).text == s.text,
        s.entered(action, v, window).text == s.text,
{
    reveal(StateView::replaced);
    reveal(StateView::marked);
}

} // verus!
