//! Moving the cursor and selecting text.
use crate::context::{Context, ContextView, Effect, MoveDirection};
use crate::display_map::{fold_over, lemma_wrap_row};
use crate::kind::InputModeKind;
use crate::rope::{char_from, lemma_row_start, position_offset, Bias, Position};
use crate::segmentation::{
    first_word_end, last_word_start, next_word_end, previous_word_start, word_bounds,
};
use crate::selection::Selection;
use crate::state::{InputBaseState, StateView};
use crate::strings::{is_white_space, str_chars, str_len, string_of, white_space};
use crate::text::{
    byte_len, clip_left, clip_right, index_at, is_boundary, lemma_clip, lemma_clip_mono,
    lemma_line, lemma_slice_len, lemma_text_ends, lemma_utf16_round_trip, line_breaks, line_end, line_start,
    row_of, slice_of,
};
use crate::undo_manager::UndoView;
use core::ops::Range;
use vstd::prelude::*;

verus! {

/// The sum of two offsets, or the largest offset where that is none.
pub open spec fn capped(n: int) -> int {
    if n <= usize::MAX {
        n
    } else {
        usize::MAX as int
    }
}

/// The white space that `s` starts with, up to the end of the line.
pub open spec fn indent_of(s: Seq<char>) -> Seq<char>
    decreases s.len(),
{
    if s.len() > 0 && white_space(s[0]) && s[0] != '\n' && s[0] != '\r' {
        seq![s[0]] + indent_of(s.skip(1))
    } else {
        Seq::empty()
    }
}

impl StateView {
    /// The last place before a fold that hides `o`; `o` itself when no fold does.
    pub open spec fn visible_before(self, o: int) -> int {
        let line = row_of(self.text, o) as int;
        let k = fold_over(self.display.folds, line);
        if self.display.hidden(line) && k < self.display.folds.len() {
            line_end(self.text, self.display.folds[k].start_line as int)
        } else {
            o
        }
    }

    /// The first place behind a fold that hides `o`; `o` itself when no fold does.
    pub open spec fn visible_after(self, o: int) -> int {
        let line = row_of(self.text, o) as int;
        let k = fold_over(self.display.folds, line);
        if self.display.hidden(line) && k < self.display.folds.len() {
            line_start(self.text, self.display.folds[k].end_line as int)
        } else {
            o
        }
    }

    /// The place before `o`. A carriage return is stepped over.
    pub open spec fn previous(self, o: int) -> int {
        let p = clip_left(self.text, if o > 0 {
            o - 1
        } else {
            0
        });
        self.visible_before(
            if char_from(self.text, p) == Some('\r') && p > 0 {
                p - 1
            } else {
                p
            },
        )
    }

    /// The place behind `o`. A carriage return is stepped over.
    pub open spec fn next(self, o: int) -> int {
        let p = clip_right(self.text, o + 1);
        self.visible_after(
            if char_from(self.text, p) == Some('\r') {
                p + 1
            } else {
                p
            },
        )
    }

    /// The range of bytes of its line that the cursor is shown in, where lines are wrapped.
    pub open spec fn visual_line(self) -> Option<Selection> {
        if self.options.soft_wrap && self.multi_line {
            let row = row_of(self.text, self.cursor() as int) as int;
            self.display.visual_range(
                row,
                clip_left(self.text, self.cursor() as int) - line_start(self.text, row),
            )
        } else {
            None
        }
    }

    /// The start of the line of the cursor: of the wrapped line first, and of the whole line
    /// where the cursor is there already.
    pub open spec fn line_home(self) -> int {
        if self.single_line() {
            0
        } else {
            let start = line_start(self.text, row_of(self.text, self.cursor() as int) as int);
            match self.visual_line() {
                Some(range) => if self.cursor() != capped(start + range.start) {
                    capped(start + range.start)
                } else {
                    start
                },
                None => start,
            }
        }
    }

    /// The end of the line of the cursor: of the wrapped line first, and of the whole line
    /// where the cursor is there already.
    pub open spec fn line_tail(self) -> int {
        if self.single_line() {
            byte_len(self.text) as int
        } else {
            let row = row_of(self.text, self.cursor() as int) as int;
            let start = line_start(self.text, row);
            match self.visual_line() {
                Some(range) => if self.cursor() != capped(start + range.end) {
                    capped(start + range.end)
                } else {
                    line_end(self.text, row)
                },
                None => line_end(self.text, row),
            }
        }
    }

    /// The start of the word before the selection.
    pub open spec fn word_before(self) -> int {
        let o = clip_left(self.text, self.selected.start as int);
        last_word_start(word_bounds(slice_of(self.text, 0, o)))
    }

    /// The end of the word behind the cursor.
    pub open spec fn word_after(self) -> int {
        let o = clip_left(self.text, self.cursor() as int);
        o + first_word_end(word_bounds(slice_of(self.text, o, byte_len(self.text) as int)))
    }

    /// The indent at a byte offset.
    pub open spec fn indent_at(self, o: int) -> Seq<char> {
        indent_of(self.text.skip(index_at(self.text, o)))
    }

    /// The indent that a new line gets: that of the line of the cursor, or
    /// that of the line behind it where it is deeper.
    pub open spec fn new_line_indent(self) -> Seq<char> {
        if self.single_line() {
            Seq::empty()
        } else {
            let row = row_of(self.text, self.cursor() as int) as int;
            let current = self.indent_at(line_start(self.text, row));
            let next = if row < line_breaks(self.text) {
                self.indent_at(line_start(self.text, row + 1))
            } else {
                Seq::empty()
            };
            if byte_len(next) > byte_len(current) {
                next
            } else {
                current
            }
        }
    }

    /// The state after the cursor was moved to `o`.
    pub open spec fn moved_to(self, o: int) -> StateView {
        let n = byte_len(self.text);
        StateView {
            selected: Selection::at(if o < n {
                o
            } else {
                n as int
            } as usize),
            undo: UndoView { coalescing: false, ..self.undo },
            ..self
        }
    }

    /// The selection from where it started to `o`, in either direction, never
    /// less than the word it started with.
    pub open spec fn selected_to(self, o: int) -> StateView {
        let n = byte_len(self.text);
        let p = (if o < n {
            o
        } else {
            n as int
        }) as usize;
        let raw = if self.reversed {
            Selection { start: p, end: self.selected.end }
        } else {
            Selection { start: self.selected.start, end: p }
        };
        let turned = raw.end < raw.start;
        let range = if turned {
            Selection { start: raw.end, end: raw.start }
        } else {
            raw
        };
        StateView {
            selected: match self.word {
                Some(w) => Selection {
                    start: if range.start > w.start {
                        w.start
                    } else {
                        range.start
                    },
                    end: if range.end < w.end {
                        w.end
                    } else {
                        range.end
                    },
                },
                None => range,
            },
            reversed: self.reversed != turned,
            ..self
        }
    }

    pub open spec fn uncoalesced(self) -> StateView {
        StateView { undo: UndoView { coalescing: false, ..self.undo }, ..self }
    }

    /// The place that the left key goes to: one place before the cursor, or
    /// the start of the selection.
    pub open spec fn left_place(self) -> int {
        if self.selected.start == self.selected.end {
            self.previous(self.cursor() as int)
        } else {
            self.selected.start as int
        }
    }

    /// The place that is selected to upwards: before the last character of the line before.
    pub open spec fn up_place(self) -> int {
        let home = self.line_home();
        self.previous(if home > 0 {
            home - 1
        } else {
            0
        })
    }

    /// The place that is selected to downwards: behind the first character of the line behind.
    pub open spec fn down_place(self) -> int {
        let tail = self.line_tail();
        self.next(if tail < byte_len(self.text) {
            tail + 1
        } else {
            byte_len(self.text) as int
        })
    }

    /// The state with the whole text selected.
    pub open spec fn all_selected(self) -> StateView {
        StateView {
            selected: Selection { start: 0, end: byte_len(self.text) as usize },
            ..self.uncoalesced()
        }
    }

    /// The state with nothing selected and the cursor where it was.
    pub open spec fn unselected(self) -> StateView {
        StateView { selected: Selection::at(self.cursor()), ..self.uncoalesced() }
    }
}

/// What is asked for when the cursor is moved to `o`.
pub open spec fn moved_asks(
    s: StateView,
    o: int,
    direction: Option<MoveDirection>,
    cx: ContextView,
) -> ContextView {
    cx.ask(Effect::ClearInlineCompletion).ask(
        Effect::ScrollTo { offset: s.moved_to(o).selected.start, direction },
    ).ask(Effect::PauseBlink).ask(Effect::RememberColumn).ask(Effect::Notify)
}

/// What is asked for when text is selected up to `o`.
pub open spec fn selected_asks(s: StateView, o: int, cx: ContextView) -> ContextView {
    let after = s.selected_to(o);
    cx.ask(Effect::ClearInlineCompletion).ask_if(
        after.selected.start == after.selected.end,
        Effect::RememberColumn,
    ).ask(Effect::Notify)
}

fn indent_chars(text: &str) -> (indent: String)
    ensures
        indent@ == indent_of(text@),
{
    let chars = str_chars(text);
    let mut out: Vec<char> = Vec::new();
    let mut i: usize = 0;
    assert(text@.skip(0) =~= text@);
    assert(Seq::<char>::empty() + indent_of(text@) =~= indent_of(text@));
    while i < chars.len() && is_white_space(chars[i]) && chars[i] != '\n' && chars[i] != '\r'
        invariant
            chars@ == text@,
            i <= chars.len(),
            indent_of(text@) == out@ + indent_of(text@.skip(i as int)),
        decreases chars.len() - i,
    {
        let c = chars[i];
        let ghost rest = text@.skip(i as int);
        assert(rest.skip(1) =~= text@.skip(i as int + 1));
        assert(out@ + (seq![c] + indent_of(rest.skip(1))) =~= out@.push(c) + indent_of(
            rest.skip(1),
        ));
        out.push(c);
        i = i + 1;
    }
    assert(out@ + Seq::<char>::empty() =~= out@);
    string_of(&out)
}

impl<M: InputModeKind> InputBaseState<M> {
    fn clamp_offset_to_visible_backward(&self, offset: usize) -> (o: usize)
        ensures
            o == self@.visible_before(offset as int),
    {
        let line = self.text.row(offset);
        if self.display_map.is_buffer_line_hidden(line) {
            if let Some(fold) = self.display_map.fold_over_line(line) {
                return self.text.line_end_offset(fold.start_line);
            }
        }
        offset
    }

    fn clamp_offset_to_visible_forward(&self, offset: usize) -> (o: usize)
        ensures
            o == self@.visible_after(offset as int),
    {
        let line = self.text.row(offset);
        if self.display_map.is_buffer_line_hidden(line) {
            if let Some(fold) = self.display_map.fold_over_line(line) {
                return self.text.line_start_offset(fold.end_line);
            }
        }
        offset
    }

    /// The place before `offset`.
    pub fn previous_boundary(&self, offset: usize) -> (o: usize)
        ensures
            o == self@.previous(offset as int),
    {
        let mut o = self.text.clip_offset(offset.saturating_sub(1), Bias::Left);
        if self.text.char_at(o) == Some('\r') && o > 0 {
            o = o - 1;
        }
        self.clamp_offset_to_visible_backward(o)
    }

    /// The place behind `offset`.
    pub fn next_boundary(&self, offset: usize) -> (o: usize)
        ensures
            o == self@.next(offset as int),
    {
        proof {
            lemma_clip(self@.text, offset as int);
            lemma_clip(self@.text, offset as int + 1);
        }
        let len: usize = self.text.len();
        let mut o: usize = if offset < len {
            self.text.clip_offset(offset + 1, Bias::Right)
        } else {
            len
        };
        if self.text.char_at(o) == Some('\r') {
            o = o + 1;
        }
        self.clamp_offset_to_visible_forward(o)
    }

    fn visual_line(&self) -> (range: Option<Selection>)
        ensures
            range == self@.visual_line(),
    {
        if self.options.soft_wrap && self.is_multi_line() {
            let point = self.text.offset_to_point(self.cursor());
            self.display_map.visual_range(point.row, point.column)
        } else {
            None
        }
    }

    /// The start of the line of the cursor.
    pub fn start_of_line(&self) -> (o: usize)
        ensures
            o == self@.line_home(),
    {
        if self.is_single_line() {
            return 0;
        }
        let row = self.text.row(self.cursor());
        let logical_start = self.text.line_start_offset(row);
        if let Some(range) = self.visual_line() {
            let visual_start: usize = logical_start.saturating_add(range.start);
            if self.cursor() != visual_start {
                return visual_start;
            }
        }
        logical_start
    }

    /// The end of the line of the cursor.
    pub fn end_of_line(&self) -> (o: usize)
        ensures
            o == self@.line_tail(),
    {
        if self.is_single_line() {
            return self.text.len();
        }
        let row = self.text.row(self.cursor());
        let logical_start = self.text.line_start_offset(row);
        if let Some(range) = self.visual_line() {
            let visual_end: usize = logical_start.saturating_add(range.end);
            if self.cursor() != visual_end {
                return visual_end;
            }
        }
        self.text.line_end_offset(row)
    }

    /// The start of the first line of the selection.
    pub fn start_of_line_of_selection(&self) -> (o: usize)
        ensures
            o == self@.selection_home(),
    {
        if self.is_single_line() {
            return 0;
        }
        let first: usize = if self.selected_range.start <= self.selected_range.end {
            self.selected_range.start
        } else {
            self.selected_range.end
        };
        self.text.line_start_offset(self.text.row(first))
    }

    /// The start of the word before the selection.
    pub fn previous_start_of_word(&self) -> (o: usize)
        ensures
            o == self@.word_before(),
            o <= byte_len(self@.text),
    {
        let start: usize = self.selected_range.start;
        proof {
            lemma_utf16_round_trip(self@.text, start as int);
            lemma_clip(self@.text, start as int);
            lemma_text_ends(self@.text);
            lemma_slice_len(self@.text, 0, clip_left(self@.text, start as int));
        }
        let offset = self.offset_from_utf16(self.offset_to_utf16(start));
        let left_part = self.text.slice(0, offset);
        previous_word_start(left_part.as_str())
    }

    /// The end of the word behind the cursor.
    pub fn next_end_of_word(&self) -> (o: usize)
        ensures
            o == self@.word_after(),
            o <= byte_len(self@.text),
    {
        let cursor = self.cursor();
        proof {
            lemma_utf16_round_trip(self@.text, cursor as int);
            lemma_clip(self@.text, cursor as int);
            lemma_text_ends(self@.text);
            lemma_slice_len(
                self@.text,
                clip_left(self@.text, cursor as int),
                byte_len(self@.text) as int,
            );
        }
        let offset = self.offset_from_utf16(self.offset_to_utf16(cursor));
        let len: usize = self.text.len();
        let right_part = self.text.slice(offset, len);
        offset + next_word_end(right_part.as_str())
    }

    fn indent_from(&self, offset: usize) -> (indent: String)
        ensures
            indent@ == self@.indent_at(offset as int),
    {
        proof {
            lemma_clip(self@.text, offset as int);
            lemma_text_ends(self@.text);
        }
        let start = self.text.clip_offset(offset, Bias::Left);
        let len: usize = self.text.len();
        let rest = self.text.slice(start, len);
        assert(rest@ =~= self@.text.skip(index_at(self@.text, offset as int)));
        indent_chars(rest.as_str())
    }

    /// The indent that a new line gets.
    pub fn indent_of_next_line(&self) -> (indent: String)
        ensures
            indent@ == self@.new_line_indent(),
    {
        if self.is_single_line() {
            let indent = String::new();
            assert(indent@ =~= Seq::<char>::empty());
            return indent;
        }
        let row = self.text.row(self.cursor());
        let last_row = self.text.row(self.text.len());
        proof {
            lemma_text_ends(self@.text);
            assert(self@.text.take(self@.text.len() as int) =~= self@.text);
        }
        let current_indent = self.indent_from(self.text.line_start_offset(row));
        let mut next_indent = String::new();
        assert(next_indent@ =~= Seq::<char>::empty());
        if row < last_row {
            next_indent = self.indent_from(self.text.line_start_offset(row + 1));
        }
        if str_len(next_indent.as_str()) > str_len(current_indent.as_str()) {
            next_indent
        } else {
            current_indent
        }
    }

    /// Moves the cursor to `offset`.
    pub fn move_to(&mut self, offset: usize, direction: Option<MoveDirection>, cx: &mut Context)
        ensures
            final(self)@ == old(self)@.moved_to(offset as int),
            final(cx)@ == moved_asks(old(self)@, offset as int, direction, old(cx)@),
    {
        let len: usize = self.text.len();
        let offset: usize = if offset < len {
            offset
        } else {
            len
        };
        self.break_coalescing();
        cx.request(Effect::ClearInlineCompletion);
        self.select(Selection::caret(offset));
        cx.request(Effect::ScrollTo { offset, direction });
        cx.request(Effect::PauseBlink);
        cx.request(Effect::RememberColumn);
        cx.notify();
    }

    /// Selects from where the selection started to `offset`.
    pub fn select_to(&mut self, offset: usize, cx: &mut Context)
        ensures
            final(self)@ == old(self)@.selected_to(offset as int),
            final(cx)@ == selected_asks(old(self)@, offset as int, old(cx)@),
    {
        cx.request(Effect::ClearInlineCompletion);
        let len: usize = self.text.len();
        let offset: usize = if offset < len {
            offset
        } else {
            len
        };
        let mut start: usize = self.selected_range.start;
        let mut end: usize = self.selected_range.end;
        if self.selection_reversed {
            start = offset;
        } else {
            end = offset;
        }
        let mut reversed: bool = self.selection_reversed;
        if end < start {
            reversed = !reversed;
            let first = end;
            end = start;
            start = first;
        }
        if let Some(word_range) = self.selected_word_range {
            if start > word_range.start {
                start = word_range.start;
            }
            if end < word_range.end {
                end = word_range.end;
            }
        }
        self.set_reversed(reversed);
        self.select(Selection::new(start, end));
        if start == end {
            cx.request(Effect::RememberColumn);
        }
        cx.notify();
    }

    /// Moves the cursor one place to the left, or to the start of the selection.
    pub fn left(&mut self, cx: &mut Context)
        ensures
            ({
                let s = old(self)@;
                let o = s.left_place();
                &&& final(self)@ == s.moved_to(o)
                &&& final(cx)@ == moved_asks(s, o, None, old(cx)@.ask(Effect::PauseBlink))
            }),
    {
        cx.request(Effect::PauseBlink);
        let offset: usize = if self.selected_range.is_empty() {
            self.previous_boundary(self.cursor())
        } else {
            self.selected_range.start
        };
        self.move_to(offset, None, cx);
    }

    /// Selects one place to the left.
    pub fn select_left(&mut self, cx: &mut Context)
        ensures
            final(self)@ == old(self)@.uncoalesced().selected_to(
                old(self)@.previous(old(self)@.cursor() as int),
            ),
            final(cx)@ == selected_asks(
                old(self)@,
                old(self)@.previous(old(self)@.cursor() as int),
                old(cx)@,
            ),
    {
        let offset = self.previous_boundary(self.cursor());
        self.break_coalescing();
        self.select_to(offset, cx);
    }

    /// Selects one place to the right.
    pub fn select_right(&mut self, cx: &mut Context)
        ensures
            final(self)@ == old(self)@.uncoalesced().selected_to(
                old(self)@.next(old(self)@.cursor() as int),
            ),
            final(cx)@ == selected_asks(
                old(self)@,
                old(self)@.next(old(self)@.cursor() as int),
                old(cx)@,
            ),
    {
        let offset = self.next_boundary(self.cursor());
        self.break_coalescing();
        self.select_to(offset, cx);
    }

    /// Selects to the end of the line before. A single line has none.
    pub fn select_up(&mut self, cx: &mut Context)
        ensures
            old(self)@.single_line() ==> final(self)@ == old(self)@ && final(cx)@ == old(cx)@,
            old(self)@.multi_line ==> {
                let s = old(self)@;
                let o = s.up_place();
                &&& final(self)@ == s.uncoalesced().selected_to(o)
                &&& final(cx)@ == selected_asks(s, o, old(cx)@)
            },
    {
        if self.is_single_line() {
            return;
        }
        let offset: usize = self.start_of_line().saturating_sub(1);
        let offset = self.previous_boundary(offset);
        self.break_coalescing();
        self.select_to(offset, cx);
    }

    /// Selects into the line behind. A single line has none.
    pub fn select_down(&mut self, cx: &mut Context)
        ensures
            old(self)@.single_line() ==> final(self)@ == old(self)@ && final(cx)@ == old(cx)@,
            old(self)@.multi_line ==> {
                let s = old(self)@;
                let o = s.down_place();
                &&& final(self)@ == s.uncoalesced().selected_to(o)
                &&& final(cx)@ == selected_asks(s, o, old(cx)@)
            },
    {
        if self.is_single_line() {
            return;
        }
        let tail = self.end_of_line();
        let len: usize = self.text.len();
        let offset: usize = if tail < len {
            tail + 1
        } else {
            len
        };
        let offset = self.next_boundary(offset);
        self.break_coalescing();
        self.select_to(offset, cx);
    }

    /// Selects to the start of the text.
    pub fn select_to_start(&mut self, cx: &mut Context)
        ensures
            final(self)@ == old(self)@.uncoalesced().selected_to(0),
            final(cx)@ == selected_asks(old(self)@, 0, old(cx)@),
    {
        self.break_coalescing();
        self.select_to(0, cx);
    }

    /// Selects to the end of the text.
    pub fn select_to_end(&mut self, cx: &mut Context)
        ensures
            final(self)@ == old(self)@.uncoalesced().selected_to(byte_len(old(self)@.text) as int),
            final(cx)@ == selected_asks(old(self)@, byte_len(old(self)@.text) as int, old(cx)@),
    {
        let end: usize = self.text.len();
        self.break_coalescing();
        self.select_to(end, cx);
    }

    /// Selects to the start of the line.
    pub fn select_to_start_of_line(&mut self, cx: &mut Context)
        ensures
            final(self)@ == old(self)@.uncoalesced().selected_to(old(self)@.line_home()),
            final(cx)@ == selected_asks(old(self)@, old(self)@.line_home(), old(cx)@),
    {
        let offset = self.start_of_line();
        self.break_coalescing();
        self.select_to(offset, cx);
    }

    /// Selects to the end of the line.
    pub fn select_to_end_of_line(&mut self, cx: &mut Context)
        ensures
            final(self)@ == old(self)@.uncoalesced().selected_to(old(self)@.line_tail()),
            final(cx)@ == selected_asks(old(self)@, old(self)@.line_tail(), old(cx)@),
    {
        let offset = self.end_of_line();
        self.break_coalescing();
        self.select_to(offset, cx);
    }

    /// Selects to the start of the word before.
    pub fn select_to_previous_word(&mut self, cx: &mut Context)
        ensures
            final(self)@ == old(self)@.uncoalesced().selected_to(old(self)@.word_before()),
            final(cx)@ == selected_asks(old(self)@, old(self)@.word_before(), old(cx)@),
    {
        let offset = self.previous_start_of_word();
        self.break_coalescing();
        self.select_to(offset, cx);
    }

    /// Selects to the end of the word behind.
    pub fn select_to_next_word(&mut self, cx: &mut Context)
        ensures
            final(self)@ == old(self)@.uncoalesced().selected_to(old(self)@.word_after()),
            final(cx)@ == selected_asks(old(self)@, old(self)@.word_after(), old(cx)@),
    {
        let offset = self.next_end_of_word();
        self.break_coalescing();
        self.select_to(offset, cx);
    }

    /// Selects the whole text.
    pub fn select_all(&mut self, cx: &mut Context)
        ensures
            final(self)@ == old(self)@.all_selected(),
            final(cx)@ == old(cx)@.ask(Effect::Notify),
    {
        let len: usize = self.text.len();
        self.break_coalescing();
        self.select(Selection::new(0, len));
        cx.notify();
    }

    /// Selects nothing, and leaves the cursor where it is.
    pub fn unselect(&mut self, cx: &mut Context)
        ensures
            final(self)@ == old(self)@.unselected(),
            final(cx)@ == old(cx)@.ask(Effect::Notify),
    {
        let offset = self.cursor();
        self.break_coalescing();
        self.select(Selection::caret(offset));
        cx.notify();
    }

    /// Selects `range`, in bytes. A range that holds something is widened to
    /// `char` boundaries; an empty one is moved to the boundary before it.
    pub fn set_selected_range(&mut self, range: Range<usize>, cx: &mut Context)
        ensures
            final(self)@ == old(self)@.with_selection(range),
            ({
                let s = old(self)@;
                let (start, end) = s.selection_ends(range);
                final(cx)@ == selected_asks(
                    s.selection_base(start),
                    end,
                    moved_asks(s, start, None, old(cx)@),
                )
            }),
    {
        let end_bias = if range.start == range.end {
            Bias::Left
        } else {
            Bias::Right
        };
        let start = self.text.clip_offset(range.start, Bias::Left);
        let end = self.text.clip_offset(range.end, end_bias);
        self.move_to(start, None, cx);
        self.set_reversed(false);
        self.keep_word(None);
        self.select_to(end, cx);
    }

    /// Moves the cursor to a position, and gives the input the focus.
    pub fn set_cursor_position(&mut self, position: Position, cx: &mut Context)
        ensures
            ({
                let s = old(self)@;
                let o = position_offset(s.text, position.line as int, position.character as int);
                &&& final(self)@ == s.moved_to(o)
                &&& final(cx)@ == moved_asks(s, o, None, old(cx)@).ask(Effect::RememberColumn).ask(
                    Effect::Focus,
                ).ask(Effect::StartBlink)
            }),
    {
        let offset = self.text.position_to_offset(position);
        self.move_to(offset, None, cx);
        cx.request(Effect::RememberColumn);
        self.focus(cx);
    }

    /// Gives the input the focus.
    pub fn focus(&self, cx: &mut Context)
        ensures
            final(cx)@ == old(cx)@.ask(Effect::Focus).ask(Effect::StartBlink),
    {
        cx.request(Effect::Focus);
        cx.request(Effect::StartBlink);
    }
}

impl StateView {
    /// The start of the first line of the selection.
    pub open spec fn selection_home(self) -> int {
        if self.single_line() {
            0
        } else {
            let first = if self.selected.start <= self.selected.end {
                self.selected.start
            } else {
                self.selected.end
            };
            line_start(self.text, row_of(self.text, first as int) as int)
        }
    }

    /// The boundaries that a range of bytes is selected between.
    pub open spec fn selection_ends(self, range: Range<usize>) -> (int, int) {
        (
            clip_left(self.text, range.start as int),
            if range.start == range.end {
                clip_left(self.text, range.end as int)
            } else {
                clip_right(self.text, range.end as int)
            },
        )
    }

    /// The state in which a selection is made anew from `start`.
    pub open spec fn selection_base(self, start: int) -> StateView {
        StateView { reversed: false, word: None, ..self.moved_to(start) }
    }

    /// The state with `range` selected.
    pub open spec fn with_selection(self, range: Range<usize>) -> StateView {
        let (start, end) = self.selection_ends(range);
        self.selection_base(start).selected_to(end)
    }
}

/// Selecting a range of bytes selects exactly it where it lies at `char`
/// boundaries, and the boundaries around it where it does not.
pub proof fn law_set_selected_range(s: StateView, range: Range<usize>)
    requires
        range.start <= range.end,
        byte_len(s.text) <= usize::MAX,
    ensures
        ({
            let after = s.with_selection(range);
            let (start, end) = s.selection_ends(range);
            &&& after.selected == (Selection { start: start as usize, end: end as usize })
            &&& is_boundary(s.text, after.selected.start as int)
            &&& is_boundary(s.text, after.selected.end as int)
            &&& after.selected.ordered()
            &&& after.text == s.text
            &&& !after.reversed
            &&& is_boundary(s.text, range.start as int) && is_boundary(s.text, range.end as int)
                ==> after.selected == (Selection { start: range.start, end: range.end })
            &&& range.start == range.end ==> after.selected.start == after.selected.end
            &&& range.end <= byte_len(s.text) ==> {
                &&& after.selected.start <= range.start
                &&& forall|q: int|
                    after.selected.start < q <= range.start ==> !#[trigger] is_boundary(s.text, q)
                &&& range.start < range.end ==> after.selected.end >= range.end
                &&& range.start < range.end ==> forall|q: int|
                    range.end <= q < after.selected.end ==> !#[trigger] is_boundary(s.text, q)
            }
        }),
{
    lemma_clip(s.text, range.start as int);
    lemma_clip(s.text, range.end as int);
    lemma_clip_mono(s.text, range.start as int, range.end as int);
    lemma_text_ends(s.text);
    let (start, end) = s.selection_ends(range);
    assert forall|q: int| start < q <= range.start implies !#[trigger] is_boundary(s.text, q) by {
        lemma_clip(s.text, q);
        lemma_clip_mono(s.text, q, range.start as int);
    }
    if range.start < range.end {
        assert forall|q: int| range.end <= q < end implies !#[trigger] is_boundary(s.text, q) by {
            lemma_clip(s.text, q);
            lemma_clip_mono(s.text, range.end as int, q);
        }
    }
}

/// Home never goes forwards, and goes to the start of the wrapped line first
/// and to the start of the whole line from there. A single line starts at 0.
pub proof fn law_line_home(s: StateView)
    requires
        byte_len(s.text) <= usize::MAX,
        s.display.wraps_from_start(),
    ensures
        s.single_line() ==> s.line_home() == 0,
        0 <= s.line_home() <= s.cursor(),
        s.visual_line() matches Some(range) ==> {
            let start = line_start(s.text, row_of(s.text, s.cursor() as int) as int);
            &&& s.cursor() != start + range.start ==> s.line_home() == start + range.start
            &&& s.cursor() == start + range.start ==> s.line_home() == start
        },
{
    let o = s.cursor() as int;
    let row = row_of(s.text, o) as int;
    lemma_clip(s.text, o);
    lemma_row_start(s.text, o);
    lemma_line(s.text, row);
    if s.visual_line() is Some {
        lemma_wrap_row(s.display.wrapped[row], clip_left(s.text, o) - line_start(s.text, row));
    }
}

/// End goes to the end of the wrapped line first, and to the end of the whole
/// line from there. A single line ends with the text.
pub proof fn law_line_tail(s: StateView)
    ensures
        s.single_line() ==> s.line_tail() == byte_len(s.text),
        s.visual_line() matches Some(range) ==> {
            let row = row_of(s.text, s.cursor() as int) as int;
            let end = line_start(s.text, row) + range.end;
            &&& end <= usize::MAX && s.cursor() != end ==> s.line_tail() == end
            &&& s.cursor() == end ==> s.line_tail() == line_end(s.text, row)
        },
{
}

/// Moving and selecting keep the selection inside the text and running
/// forwards, and leave the text and its history of changes alone.
pub proof fn law_selection_stays_in_text(s: StateView, o: int)
    requires
        0 <= o,
        byte_len(s.text) <= usize::MAX,
        s.selected.ordered(),
        s.selected.end <= byte_len(s.text),
        s.word matches Some(w) ==> w.ordered() && w.end <= byte_len(s.text),
    ensures
        s.moved_to(o).selected.ordered(),
        s.moved_to(o).selected.end <= byte_len(s.text),
        s.selected_to(o).selected.ordered(),
        s.selected_to(o).selected.end <= byte_len(s.text),
        s.moved_to(o).text == s.text,
        s.selected_to(o).text == s.text,
        s.moved_to(o).undo.undos == s.undo.undos,
        s.moved_to(o).undo.redos == s.undo.redos,
        s.selected_to(o).undo == s.undo,
{
}

} // verus!
