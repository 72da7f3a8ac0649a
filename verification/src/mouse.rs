//! What the pointer does to an input.
use crate::context::{Context, ContextView, Effect, PixelPoint, Window};
use crate::kind::InputModeKind;
use crate::mode::diagnostic_at;
use crate::navigate::{capped, moved_asks, selected_asks};
use crate::segmentation::{piece_range, word_bounds, word_range_at};
use crate::selection::Selection;
use crate::state::{InputBaseState, PendingMenu, Session, StateView};
use crate::text::{
    byte_len, from_utf16, lemma_line, lemma_text_ends, line_end, line_start, offset_of, row_of,
    to_utf16,
};
use core::ops::Range;
use vstd::prelude::*;

verus! {

/// The number of bytes of the `char` that hides a `char` of a password.
pub const MASK_CHAR_LEN: usize = 3;

/// Where the pointer is, seen from one visible line.
#[derive(Clone, Copy, PartialEq, Eq, Structural, Debug)]
pub struct LineHit {
    /// The byte offset at which the line starts.
    pub start: usize,
    /// The index in the line that is closest to the pointer, whatever its height.
    pub closest: usize,
    /// The index in the line that is closest to the pointer, where the pointer is in the line.
    pub inside: Option<usize>,
    /// Whether the pointer is above the line.
    pub above: bool,
}

#[derive(Clone, Copy, PartialEq, Eq, Structural, Debug)]
pub enum MouseButton {
    Left,
    Right,
}

/// A button of the pointer was pressed.
#[derive(Clone, Copy, PartialEq, Eq, Structural, Debug)]
pub struct MouseDown {
    pub button: MouseButton,
    pub click_count: usize,
    pub shift: bool,
    pub position: PixelPoint,
}

impl StateView {
    /// The offset that an index into the painted text stands for. A password
    /// is painted with one `MASK_CHAR` for each `char`.
    pub open spec fn painted_offset(self, index: int) -> int {
        if self.options.masked {
            let k = index / 3;
            offset_of(
                self.text,
                if k < self.text.len() {
                    k
                } else {
                    self.text.len() as int
                },
            ) as int
        } else if index < byte_len(self.text) {
            index
        } else {
            byte_len(self.text) as int
        }
    }

    /// The offset that the pointer is at, given how the visible lines see it.
    pub open spec fn offset_hit(self, hits: Seq<LineHit>) -> int
        decreases hits.len(),
    {
        if hits.len() == 0 {
            byte_len(self.text) as int
        } else {
            let hit = hits[0];
            if self.single_line() {
                self.painted_offset(capped(hit.start + hit.closest))
            } else if let Some(index) = hit.inside {
                self.painted_offset(capped(hit.start + index))
            } else if hit.above {
                if self.options.masked {
                    self.painted_offset(hit.start as int)
                } else {
                    hit.start as int
                }
            } else {
                self.offset_hit(hits.skip(1))
            }
        }
    }

    /// The offset that the pointer is at; 0 while nothing was painted or the text is empty.
    pub open spec fn pointer_offset(self, hits: Option<Seq<LineHit>>) -> int {
        match hits {
            Some(h) => if self.text.len() == 0 {
                0
            } else {
                self.offset_hit(h)
            },
            None => 0,
        }
    }

    /// The line at `o`.
    pub open spec fn line_at(self, o: int) -> Selection {
        let row = row_of(self.text, o) as int;
        Selection {
            start: line_start(self.text, row) as usize,
            end: line_end(self.text, row) as usize,
        }
    }

    /// The word at `o`.
    pub open spec fn word_at(self, o: int) -> Selection {
        let (start, end) = piece_range(word_bounds(self.text), o);
        Selection { start: start as usize, end: end as usize }
    }

    /// The state once a button was pressed, before anything is selected.
    pub open spec fn pressed(self) -> StateView {
        StateView {
            ime: match self.ime {
                Some(r) => if r.start >= r.end {
                    None
                } else {
                    Some(r)
                },
                None => None,
            },
            session: Session { selecting: true, ..self.session },
            ..self.uncoalesced()
        }
    }

    /// The state with the cursor at `o`, unless `o` is inside the selection.
    pub open spec fn moved_unless_inside(self, o: int) -> StateView {
        if self.selected.holds(o) {
            self
        } else {
            self.moved_to(o)
        }
    }

    /// The state after a button was pressed over `o`.
    pub open spec fn clicked(self, event: MouseDown, o: int, window: Window) -> StateView {
        let s = self.pressed();
        if window.click_handled {
            s
        } else if event.button == MouseButton::Left && event.click_count >= 3 {
            StateView { selected: s.line_at(o), ..s }
        } else if event.button == MouseButton::Left && event.click_count == 2 {
            StateView { selected: s.word_at(o), word: Some(s.word_at(o)), ..s }
        } else if event.button == MouseButton::Right {
            if s.options.enable_context_menu {
                let m = s.moved_unless_inside(o);
                StateView {
                    session: Session {
                        pending_context_menu: Some(
                            PendingMenu { position: event.position, offset: o as usize },
                        ),
                        ..m.session
                    },
                    ..m
                }
            } else {
                s
            }
        } else if event.shift {
            s.selected_to(o)
        } else {
            s.moved_to(o)
        }
    }

    pub open spec fn clicked_asks(
        self,
        event: MouseDown,
        o: int,
        window: Window,
        cx: ContextView,
    ) -> ContextView {
        let s = self.pressed();
        let c = cx.ask(Effect::SuppressTextSelection).ask(Effect::ClearInlineCompletion);
        if window.click_handled {
            c
        } else if event.button == MouseButton::Left && event.click_count >= 2 {
            c.ask(Effect::Notify)
        } else if event.button == MouseButton::Right {
            if s.options.enable_context_menu && !s.selected.holds(o) {
                moved_asks(s, o, None, c)
            } else {
                c
            }
        } else if event.shift {
            selected_asks(s, o, c)
        } else {
            moved_asks(s, o, None, c)
        }
    }

    /// Whether a context menu can be shown.
    pub open spec fn offers_menu(self, window: Window) -> bool {
        !self.options.disabled && !window.deferred_context
    }

    /// The state after the context menu was asked for over `o`.
    pub open spec fn menu_opened(self, o: int, window: Window) -> StateView {
        if self.offers_menu(window) {
            self.moved_unless_inside(o)
        } else {
            self
        }
    }

    pub open spec fn menu_asks(
        self,
        position: PixelPoint,
        o: int,
        window: Window,
        cx: ContextView,
    ) -> ContextView {
        if self.offers_menu(window) {
            (if self.selected.holds(o) {
                cx
            } else {
                moved_asks(self, o, None, cx)
            }).ask_if(self.code_editor, Effect::HoverDefinition { offset: o as usize }).ask_if(
                self.options.context_menu_handler,
                Effect::ShowContextMenu { position },
            )
        } else {
            cx
        }
    }

    /// The state after a button was released, before the selection is ended.
    pub open spec fn released(self, button: MouseButton, window: Window) -> StateView {
        match self.session.pending_context_menu {
            Some(menu) => if button == MouseButton::Right {
                StateView {
                    session: Session { pending_context_menu: None, ..self.session },
                    ..self
                }.menu_opened(menu.offset as int, window)
            } else {
                self
            },
            None => self,
        }
    }

    pub open spec fn released_asks(
        self,
        button: MouseButton,
        window: Window,
        cx: ContextView,
    ) -> ContextView {
        match self.session.pending_context_menu {
            Some(menu) => if button == MouseButton::Right {
                StateView {
                    session: Session { pending_context_menu: None, ..self.session },
                    ..self
                }.menu_asks(menu.position, menu.offset as int, window, cx)
            } else {
                cx
            },
            None => cx,
        }
    }

    /// The state once nothing is being selected with the pointer any more.
    pub open spec fn selecting_ended(self) -> StateView {
        StateView {
            reversed: self.reversed && self.selected.start != self.selected.end,
            word: None,
            session: Session { selecting: false, ..self.session },
            ..self
        }
    }
}

pub open spec fn hits_view(hits: Option<Vec<LineHit>>) -> Option<Seq<LineHit>> {
    match hits {
        Some(v) => Some(v@),
        None => None,
    }
}

impl<M: InputModeKind> InputBaseState<M> {
    /// The offset that an index into the painted text stands for.
    fn offset_of_painted(&self, index: usize) -> (o: usize)
        ensures
            o == self@.painted_offset(index as int),
    {
        if self.options.masked {
            self.text.char_index_to_offset(index / MASK_CHAR_LEN)
        } else {
            let len: usize = self.text.len();
            if index < len {
                index
            } else {
                len
            }
        }
    }

    /// The offset that the pointer is at. `hits` tells how each visible line
    /// sees it, from the first to the last; nothing while nothing was painted.
    pub fn index_for_mouse_position(&self, hits: &Option<Vec<LineHit>>) -> (o: usize)
        ensures
            o == self@.pointer_offset(hits_view(*hits)),
    {
        let len: usize = self.text.len();
        proof {
            lemma_text_ends(self@.text);
            crate::text::lemma_measure_bounds(crate::text::Unit::Utf8, self@.text);
        }
        if len == 0 {
            return 0;
        }
        match hits {
            None => 0,
            Some(lines) => {
                let mut i: usize = 0;
                assert(lines@.skip(0) =~= lines@);
                while i < lines.len()
                    invariant
                        i <= lines.len(),
                        self@.text.len() > 0,
                        hits_view(*hits) == Some(lines@),
                        len == byte_len(self@.text),
                        self@.offset_hit(lines@) == self@.offset_hit(lines@.skip(i as int)),
                    decreases lines.len() - i,
                {
                    let hit = lines[i];
                    assert(lines@.skip(i as int)[0] == hit);
                    if self.is_single_line() {
                        return self.offset_of_painted(hit.start.saturating_add(hit.closest));
                    }
                    if let Some(index) = hit.inside {
                        return self.offset_of_painted(hit.start.saturating_add(index));
                    }
                    if hit.above {
                        return if self.options.masked {
                            self.offset_of_painted(hit.start)
                        } else {
                            hit.start
                        };
                    }
                    assert(lines@.skip(i as int).skip(1) =~= lines@.skip(i as int + 1));
                    i = i + 1;
                }
                len
            },
        }
    }

    /// The UTF-16 offset of the first line that the pointer is in. For each
    /// visible line, `lines` holds its byte offset and the index that the
    /// pointer is at, where it is in the line.
    pub fn character_index_for_point(&self, lines: &Vec<LineHit>) -> (index: Option<usize>)
        ensures
            ({
                let k = first_inside(lines@);
                match index {
                    Some(u) => k < lines@.len() && u == to_utf16(
                        self@.text,
                        capped(lines@[k].start + lines@[k].inside->0),
                    ),
                    None => k == lines@.len(),
                }
            }),
    {
        let mut i: usize = 0;
        assert(lines@.skip(0) =~= lines@);
        while i < lines.len()
            invariant
                i <= lines.len(),
                first_inside(lines@) == i + first_inside(lines@.skip(i as int)),
            decreases lines.len() - i,
        {
            let hit = lines[i];
            assert(lines@.skip(i as int)[0] == hit);
            if let Some(index) = hit.inside {
                return Some(self.offset_to_utf16(hit.start.saturating_add(index)));
            }
            assert(lines@.skip(i as int).skip(1) =~= lines@.skip(i as int + 1));
            i = i + 1;
        }
        None
    }

    /// The range of bytes that the candidates of an input method are shown
    /// at: the start of what is being composed, whatever range was asked for.
    pub fn candidate_range(&self, range_utf16: Range<usize>) -> (r: Range<usize>)
        ensures
            match self@.ime {
                Some(marked) => r.start == marked.start && r.end == marked.start,
                None => r.start == from_utf16(self@.text, range_utf16.start as int) && r.end
                    == from_utf16(self@.text, range_utf16.end as int),
            },
    {
        match self.ime_marked_range {
            Some(marked) => marked.start..marked.start,
            None => self.range_from_utf16(&range_utf16),
        }
    }

    /// Selects the line at `offset`.
    fn select_line(&mut self, offset: usize, cx: &mut Context)
        ensures
            final(self)@ == (StateView {
                selected: old(self)@.line_at(offset as int),
                ..old(self)@
            }),
            final(self)@.selected.ordered(),
            final(cx)@ == old(cx)@.ask(Effect::Notify),
    {
        let row = self.text.row(offset);
        let start = self.text.line_start_offset(row);
        let end = self.text.line_end_offset(row);
        proof {
            lemma_line(self@.text, row as int);
        }
        self.select(Selection::new(start, end));
        cx.notify();
    }

    /// Selects the word at `offset`.
    fn select_word(&mut self, offset: usize, cx: &mut Context)
        ensures
            final(self)@ == (StateView {
                selected: old(self)@.word_at(offset as int),
                word: Some(old(self)@.word_at(offset as int)),
                ..old(self)@
            }),
            final(self)@.selected.ordered(),
            final(cx)@ == old(cx)@.ask(Effect::Notify),
    {
        let text = self.text.text();
        let word = word_range_at(text.as_str(), offset);
        self.select(word);
        self.keep_word(Some(word));
        cx.notify();
    }

    /// A button was pressed.
    pub fn on_mouse_down(
        &mut self,
        event: &MouseDown,
        hits: &Option<Vec<LineHit>>,
        window: &Window,
        cx: &mut Context,
    )
        ensures
            ({
                let o = old(self)@.pointer_offset(hits_view(*hits));
                &&& final(self)@ == old(self)@.clicked(*event, o, *window)
                &&& final(cx)@ == old(self)@.clicked_asks(*event, o, *window, old(cx)@)
            }),
            old(self)@.wf() ==> final(self)@.wf(),
    {
        let offset = self.index_for_mouse_position(hits);
        cx.request(Effect::SuppressTextSelection);
        cx.request(Effect::ClearInlineCompletion);
        self.press();
        if window.click_handled {
            return;
        }
        match event.button {
            MouseButton::Left => {
                if event.click_count >= 3 {
                    self.select_line(offset, cx);
                } else if event.click_count == 2 {
                    self.select_word(offset, cx);
                } else if event.shift {
                    self.select_to(offset, cx);
                } else {
                    self.move_to(offset, None, cx);
                }
            },
            MouseButton::Right => {
                if self.options.enable_context_menu {
                    self.move_unless_inside(offset, cx);
                    self.await_menu(Some(PendingMenu { position: event.position, offset }));
                }
            },
        }
    }

    fn press(&mut self)
        ensures
            final(self)@ == old(self)@.pressed(),
    {
        self.break_coalescing();
        if let Some(marked) = self.ime_marked_range {
            if marked.len() == 0 {
                self.mark(None);
            }
        }
        self.begin_selecting(true);
    }

    /// Moves the cursor to `offset`, unless that is inside the selection.
    fn move_unless_inside(&mut self, offset: usize, cx: &mut Context)
        ensures
            final(self)@ == old(self)@.moved_unless_inside(offset as int),
            final(cx)@ == if old(self)@.selected.holds(offset as int) {
                old(cx)@
            } else {
                moved_asks(old(self)@, offset as int, None, old(cx)@)
            },
    {
        if !self.selected_range.contains(offset) {
            self.move_to(offset, None, cx);
        }
    }

    /// Shows the context menu, once the event was handled.
    pub fn handle_right_click_menu(
        &mut self,
        position: PixelPoint,
        offset: usize,
        window: &Window,
        cx: &mut Context,
    )
        ensures
            final(self)@ == old(self)@.menu_opened(offset as int, *window),
            final(cx)@ == old(self)@.menu_asks(position, offset as int, *window, old(cx)@),
    {
        if self.options.disabled {
            return;
        }
        if window.deferred_context {
            return;
        }
        self.move_unless_inside(offset, cx);
        if self.is_code_editor() {
            cx.request(Effect::HoverDefinition { offset });
        }
        if self.options.context_menu_handler {
            cx.request(Effect::ShowContextMenu { position });
        }
    }

    /// A button was released.
    pub fn on_mouse_up(&mut self, button: MouseButton, window: &Window, cx: &mut Context)
        ensures
            final(self)@ == old(self)@.released(button, *window).selecting_ended(),
            final(cx)@ == old(self)@.released_asks(button, *window, old(cx)@).ask(
                Effect::StopAutoScroll,
            ),
    {
        self.release(button, window, cx);
        self.end_selecting();
        cx.request(Effect::StopAutoScroll);
    }

    fn release(&mut self, button: MouseButton, window: &Window, cx: &mut Context)
        ensures
            final(self)@ == old(self)@.released(button, *window),
            final(cx)@ == old(self)@.released_asks(button, *window, old(cx)@),
    {
        if button == MouseButton::Right {
            if let Some(menu) = self.session.pending_context_menu {
                self.await_menu(None);
                self.handle_right_click_menu(menu.position, menu.offset, window, cx);
            }
        }
    }

    fn end_selecting(&mut self)
        ensures
            final(self)@ == old(self)@.selecting_ended(),
    {
        if self.selected_range.is_empty() {
            self.set_reversed(false);
        }
        self.begin_selecting(false);
        self.keep_word(None);
    }

    /// The pointer was moved. In an editor the diagnostic under it is shown.
    pub fn on_mouse_move(
        &mut self,
        within_bounds: bool,
        hits: &Option<Vec<LineHit>>,
        cx: &mut Context,
    )
        ensures
            ({
                let s = old(self)@;
                let o = s.pointer_offset(hits_view(*hits));
                &&& final(self)@ == s.hovered(within_bounds, o)
                &&& final(cx)@ == s.hovered_asks(within_bounds, o, old(cx)@)
            }),
    {
        if !within_bounds {
            cx.request(Effect::ClearHover);
            return;
        }
        let offset = self.index_for_mouse_position(hits);
        cx.request(Effect::Hover { offset });
        if self.is_code_editor() {
            let found = match self.mode.diagnostics() {
                Some(set) => match set.for_offset(offset) {
                    Some(entry) => Some(entry.clone()),
                    None => None,
                },
                None => None,
            };
            match found {
                Some(entry) => {
                    self.show_diagnostic(entry);
                    cx.notify();
                },
                None => {
                    self.hide_diagnostic();
                },
            }
        }
    }

    /// The pointer was moved with its button held: the text up to it is selected.
    pub fn on_drag_move(
        &mut self,
        position: PixelPoint,
        hits: &Option<Vec<LineHit>>,
        window: &Window,
        cx: &mut Context,
    )
        ensures
            ({
                let s = old(self)@;
                &&& final(self)@ == s.dragged(hits_view(*hits), *window)
                &&& final(cx)@ == s.dragged_asks(position, hits_view(*hits), *window, old(cx)@)
            }),
    {
        proof {
            crate::text::lemma_measure_bounds(crate::text::Unit::Utf8, self@.text);
        }
        if self.text.len() == 0 || hits.is_none() || !window.focused || !self.session.selecting {
            return;
        }
        let offset = self.index_for_mouse_position(hits);
        self.select_to(offset, cx);
        if self.is_multi_line() {
            cx.request(Effect::AutoScroll { position });
        }
    }
}

/// The index of the first line that the pointer is in; their number when it is in none.
pub open spec fn first_inside(lines: Seq<LineHit>) -> int
    decreases lines.len(),
{
    if lines.len() == 0 || lines[0].inside is Some {
        0
    } else {
        1 + first_inside(lines.skip(1))
    }
}

impl StateView {
    /// The diagnostic that is shown for `o`.
    pub open spec fn diagnostic_under(self, o: int) -> Option<crate::mode::DiagnosticView> {
        match self.mode.diagnostics() {
            Some(entries) => {
                let k = diagnostic_at(entries, o);
                if 0 <= k < entries.len() {
                    Some(entries[k])
                } else {
                    None
                }
            },
            None => None,
        }
    }

    /// Whether moving the pointer selects.
    pub open spec fn drags(self, hits: Option<Seq<LineHit>>, window: Window) -> bool {
        self.text.len() > 0 && hits is Some && window.focused && self.session.selecting
    }

    /// The state after the pointer was moved with its button held.
    pub open spec fn dragged(self, hits: Option<Seq<LineHit>>, window: Window) -> StateView {
        if self.drags(hits, window) {
            self.selected_to(self.pointer_offset(hits))
        } else {
            self
        }
    }

    pub open spec fn dragged_asks(
        self,
        position: PixelPoint,
        hits: Option<Seq<LineHit>>,
        window: Window,
        cx: ContextView,
    ) -> ContextView {
        if self.drags(hits, window) {
            selected_asks(self, self.pointer_offset(hits), cx).ask_if(
                self.multi_line,
                Effect::AutoScroll { position },
            )
        } else {
            cx
        }
    }

    /// The state after the pointer was moved to `o`, or out of the input.
    pub open spec fn hovered(self, within_bounds: bool, o: int) -> StateView {
        if within_bounds && self.code_editor {
            StateView { popover: self.diagnostic_under(o), ..self }
        } else {
            self
        }
    }

    pub open spec fn hovered_asks(
        self,
        within_bounds: bool,
        o: int,
        cx: ContextView,
    ) -> ContextView {
        if !within_bounds {
            cx.ask(Effect::ClearHover)
        } else {
            cx.ask(Effect::Hover { offset: o as usize }).ask_if(
                self.code_editor && self.diagnostic_under(o) is Some,
                Effect::Notify,
            )
        }
    }
}

} // verus!
