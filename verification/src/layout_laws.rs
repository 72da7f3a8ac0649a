//! How inputs are laid out, and which keys they take.
use crate::actions::Enter;
use crate::context::{ContextView, Effect, MoveDirection, Window};
use crate::display_map::{wrap_row, DisplayView};
use crate::edit::Verdicts;
use crate::key_laws::is_line;
use crate::keys::{keymap_of, Action, KeymapView};
use crate::mask_pattern::{MaskToken, MaskView};
use crate::mode::LayoutView;
use crate::mouse::MouseButton;
use crate::place_laws::law_positions;
use crate::selection::Selection;
use crate::state::{PendingMenu, StateView};
use crate::text::{byte_len, lemma_measure_concat, line_breaks, Unit};
use core::ops::Range;
use vstd::prelude::*;

verus! {

/// An input that grows has as many rows as its text, but no fewer and no more
/// than it may; other inputs do not grow.
pub proof fn law_inputs_grow(layout: LayoutView, n: usize)
    ensures
        layout matches LayoutView::AutoGrow { min_rows: low, max_rows: high, .. } ==> (layout.grown(
            n,
        ) matches LayoutView::AutoGrow { rows, min_rows, max_rows } && min_rows == low && max_rows
            == high && (low <= n <= high ==> rows == n) && (n < low <= high ==> rows == low) && (n
            > high ==> rows == high)),
        !(layout is AutoGrow) ==> layout.grown(n) == layout,
{
}

/// An input that is given a number of rows has them; one that grows does not
/// grow beyond them, and keeps the least number of rows that it had. The
/// editor part of the layout stays.
pub proof fn law_rows_are_given(layout: LayoutView, n: usize, m: usize)
    ensures
        layout.with_rows(n) matches LayoutView::PlainText { rows } ==> rows == n
            && layout is PlainText,
        layout.with_rows(n) matches LayoutView::CodeEditor { rows, editor } ==> rows == n && layout
            is CodeEditor && layout->editor == editor,
        layout is PlainText ==> layout.with_rows(n) is PlainText,
        layout is CodeEditor ==> layout.with_rows(n) is CodeEditor,
        layout matches LayoutView::AutoGrow { min_rows: low, .. } ==> (layout.with_rows(
            n,
        ) matches LayoutView::AutoGrow { rows, min_rows, .. } && rows == n && min_rows == low && (
        layout.with_rows(n).grown(m) matches LayoutView::AutoGrow { rows: r, .. } && (low <= n
            ==> r <= n) && (low <= m <= n ==> r == m))),
        layout.with_rows(n).with_rows(m) == layout.with_rows(m),
{
}

/// What is chosen for an editor is found in its layout, and nothing else of
/// it changes: what is chosen twice is as chosen last, and the choices do not
/// depend on their order. Another language has the text parsed anew. Inputs
/// that are no editors have none of this.
pub proof fn law_editors_are_set_up(
    layout: LayoutView,
    folding: bool,
    line_number: bool,
    language: Seq<char>,
    factory: Option<u64>,
)
    ensures
        layout matches LayoutView::CodeEditor { rows, editor } ==> {
            let after = layout.with_folding(folding).with_line_number(line_number).with_language(
                language,
            ).with_factory(factory);
            &&& after is CodeEditor
            &&& after->editor.folding == folding
            &&& after.folds() == folding
            &&& after->editor.line_number == line_number
            &&& after->editor.language == language
            &&& after->editor.highlighter_factory == factory
            &&& !after->editor.highlighter_ready
            &&& after->editor.diagnostics == editor.diagnostics
            &&& after->editor.tab_size == editor.tab_size
            &&& after->editor.hard_tabs == editor.hard_tabs
            &&& after->editor.indent_guides == editor.indent_guides
            &&& after->CodeEditor_rows == rows
            &&& layout.with_folding(folding)->editor.highlighter_ready == editor.highlighter_ready
            &&& layout.with_line_number(line_number)->editor.highlighter_ready
                == editor.highlighter_ready
            &&& layout.with_factory(factory)->editor.highlighter_ready == editor.highlighter_ready
            &&& layout.with_factory(factory)->editor.language == editor.language
        },
        !(layout is CodeEditor) ==> {
            &&& layout.with_folding(folding) == layout
            &&& layout.with_line_number(line_number) == layout
            &&& layout.with_language(language) == layout
            &&& layout.with_factory(factory) == layout
            &&& layout.unparsed() == layout
            &&& layout.without_diagnostics() == layout
            &&& !layout.folds()
        },
        layout.with_folding(!folding).with_folding(folding) == layout.with_folding(folding),
        layout.with_folding(folding).with_line_number(line_number) == layout.with_line_number(
            line_number,
        ).with_folding(folding),
{
}

/// An input that is let grow has at least its fewest rows, whatever its text
/// takes, and all that its text takes up to its most rows; the most are never
/// fewer than the fewest.
pub proof fn law_growing_inputs(s: StateView, low: usize, high: usize, n: usize)
    ensures
        s.growing(low, high).mode matches LayoutView::AutoGrow { rows, min_rows, max_rows }
            && min_rows <= rows <= max_rows && rows == low,
        s.growing(low, high).mode.grown(n) matches LayoutView::AutoGrow { rows, .. } && rows >= low
            && (low <= n <= high ==> rows == n) && (n <= low ==> rows == low) && (low <= high && high
            <= n ==> rows == high),
        s.growing(low, high).text == s.text,
        s.growing(low, high).options == s.options,
{
}

/// Where code cannot be folded, no line is hidden; where it can, the folds
/// stay. The text stays, and so does the selection.
pub proof fn law_folds_are_opened(s: StateView, line: int)
    ensures
        !s.folding(false).display.hidden(line),
        !s.folding(false).mode.folds(),
        s.mode is CodeEditor ==> s.folding(true).mode.folds(),
        s.folding(true).display.hidden(line) <==> s.display.hidden(line),
        s.folding(false).display.wrapped == s.display.wrapped,
        s.folding(false).display.candidates == s.display.candidates,
        s.folding(false).text == s.text && s.folding(true).text == s.text,
        s.folding(false).selected == s.selected && s.folding(true).selected == s.selected,
{
}

/// Text that is wrapped is at its left edge and stays as far down as it was;
/// text that is not stays where it was. While lines are not wrapped, Home and
/// End know whole lines only.
pub proof fn law_wrapping_is_set(s: StateView)
    ensures
        s.wrapping(true).options.soft_wrap,
        !s.wrapping(false).options.soft_wrap,
        s.wrapping(true).session.scroll_offset.x == 0,
        s.wrapping(true).session.scroll_offset.y == s.session.scroll_offset.y,
        s.wrapping(false).session.scroll_offset == s.session.scroll_offset,
        s.wrapping(false).visual_line() is None,
        s.wrapping(true).text == s.text && s.wrapping(false).text == s.text,
        s.wrapping(true).wrapping(false).options == s.wrapping(false).options,
{
}

/// An input that is made one for numbers takes numbers only, unless a mask was
/// chosen for it.
pub proof fn law_number_inputs(s: StateView, t: Seq<char>)
    ensures
        !s.mask_set ==> s.for_numbers().mask is Number,
        s.mask_set ==> s.for_numbers() == s,
        s.for_numbers().text == s.text,
        s.for_numbers().for_numbers() == s.for_numbers(),
        !s.mask_set ==> s.for_numbers().mask == (MaskView::Number {
            separator: None,
            fraction: None,
        }),
{
}

/// Whether an action changes the text.
pub open spec fn edits(action: Action) -> bool {
    ||| action is Backspace
    ||| action is Delete
    ||| action is DeleteToBeginningOfLine
    ||| action is DeleteToEndOfLine
    ||| action is DeleteToPreviousWordStart
    ||| action is DeleteToNextWordEnd
    ||| action is Enter
    ||| action is Indent
    ||| action is Outdent
    ||| action is IndentInline
    ||| action is OutdentInline
    ||| action is Cut
    ||| action is Paste
    ||| action is Undo
    ||| action is Redo
}

/// Whether an action moves or selects over lines.
pub open spec fn crosses_lines(action: Action) -> bool {
    ||| action is MoveUp
    ||| action is MoveDown
    ||| action is MovePageUp
    ||| action is MovePageDown
    ||| action is SelectUp
    ||| action is SelectDown
}

/// Where the user may not edit, no key that edits is taken, and an input of
/// one line takes none that goes over lines. Where the user may, all keys that
/// delete, enter, cut, paste, undo and redo are taken. Moving sideways,
/// selecting and copying are always possible.
pub proof fn law_actions_are_taken(s: StateView, action: Action)
    ensures
        edits(action) && (s.options.disabled || s.options.readonly) ==> !s.handles(action),
        crosses_lines(action) ==> (s.handles(action) <==> s.multi_line),
        edits(action) && !s.options.disabled && !s.options.readonly && s.multi_line ==> s.handles(
            action,
        ),
        action is Backspace || action is Delete || action is Cut || action is Paste || action
            is Undo || action is Redo || action is Enter ==> (s.handles(action) <==> (
        !s.options.disabled && !s.options.readonly)),
        action is MoveLeft || action is MoveRight || action is MoveHome || action is MoveEnd
            || action is SelectLeft || action is SelectRight || action is SelectAll || action
            is Copy || action is MoveToPreviousWord || action is MoveToNextWord || action
            is SelectToStart || action is SelectToEnd ==> s.handles(action),
{
}

/// A new input is empty, enabled and editable, records its edits and tells of
/// them; it has no mask and no checks. Long lines wrap, Enter does not submit,
/// Escape does not clean, and a right click offers a menu.
pub proof fn law_new_inputs(multi_line: bool, code_editor: bool)
    ensures
        ({
            let s = StateView::initial(multi_line, code_editor);
            &&& s.multi_line == multi_line
            &&& s.code_editor == code_editor
            &&& s.text.len() == 0
            &&& s.placeholder.len() == 0
            &&& s.selected.start == 0 && s.selected.end == 0 && !s.reversed
            &&& s.ime is None && s.word is None
            &&& s.undo.undos.len() == 0 && s.undo.redos.len() == 0 && s.undo.open is None
            &&& !s.undo.ignoring
            &&& s.editable()
            &&& !s.options.disabled && !s.options.readonly && !s.options.loading
            &&& !s.options.masked
            &&& s.options.soft_wrap
            &&& !s.options.submit_on_enter && !s.options.clean_on_escape
            &&& s.options.enable_context_menu && s.options.replaceable && !s.options.searchable
            &&& !s.options.show_whitespaces
            &&& s.options.number_min is None && s.options.number_max is None
            &&& s.mask is Plain && s.validate is None && s.pattern is None
            &&& s.session.emit_events && !s.session.silent_replace_text && !s.session.selecting
            &&& s.display.folds.len() == 0
        }),
{
}

/// A mask of a pattern says in the placeholder what is to be put in: a line
/// for each place, and the separators. Other masks leave the placeholder.
pub proof fn law_masks_say_what_to_put_in(s: StateView, mask: MaskView)
    ensures
        s.with_mask(mask).mask == mask,
        s.with_mask(mask).text == s.text,
        mask matches MaskView::Pattern { tokens } ==> {
            let shown = s.with_mask(mask).placeholder;
            &&& shown.len() == tokens.len()
            &&& forall|k: int|
                0 <= k < shown.len() ==> #[trigger] shown[k] == match tokens[k] {
                    MaskToken::Sep(c) => c,
                    _ => '_',
                }
        },
        !(mask is Pattern) ==> s.with_mask(mask).placeholder == s.placeholder,
{
}

/// An edit forgets the diagnostics of an editor: they spoke of another text.
pub proof fn law_edits_forget_diagnostics(
    s: StateView,
    range: Option<Range<usize>>,
    t: Seq<char>,
    v: Verdicts,
)
    requires
        s.editable(),
        !s.rejects(range, t, v),
    ensures
        s.mode is CodeEditor ==> (s.replaced(range, t, v).mode.diagnostics() matches Some(d)
            && d.len() == 0),
        !(s.mode is CodeEditor) ==> s.replaced(range, t, v).mode == s.mode,
{
    reveal(StateView::replaced);
}

/// The range of a wrapped line that a column is shown in is the last one that
/// starts no later than it.
pub proof fn law_wrapped_lines(
    display: DisplayView,
    row: int,
    column: int,
    before: Seq<Selection>,
    range: Selection,
    behind: Seq<Selection>,
)
    requires
        0 <= row < display.wrapped.len(),
        display.wrapped[row] == before.push(range) + behind,
        range.start <= column,
        forall|k: int| 0 <= k < behind.len() ==> column < (#[trigger] behind[k]).start,
    ensures
        display.visual_range(row, column) == Some(range),
{
    lemma_wrap_row_at(before, range, behind, column);
    assert((before.push(range) + behind)[before.len() as int] == range);
}

proof fn lemma_wrap_row_at(
    before: Seq<Selection>,
    range: Selection,
    behind: Seq<Selection>,
    column: int,
)
    requires
        range.start <= column,
        forall|k: int| 0 <= k < behind.len() ==> column < (#[trigger] behind[k]).start,
    ensures
        wrap_row(before.push(range) + behind, column) == before.len(),
    decreases behind.len(),
{
    let all = before.push(range) + behind;
    if behind.len() == 0 {
        assert(all.last() == range);
    } else {
        let rest = behind.drop_last();
        assert(all.drop_last() =~= before.push(range) + rest);
        assert(all.last() == behind[behind.len() - 1]);
        assert forall|k: int| 0 <= k < rest.len() implies column < (#[trigger] rest[k]).start by {
            assert(rest[k] == behind[k]);
        }
        lemma_wrap_row_at(before, range, rest, column);
    }
}

/// Once an input was laid out, it scrolls to the line and the column of a
/// place; an editor keeps lines around it, where the cursor moves up or down.
pub proof fn law_scrolls_to_place(
    s: StateView,
    above: Seq<char>,
    x: Seq<char>,
    y: Seq<char>,
    below: Seq<char>,
    direction: Option<MoveDirection>,
)
    requires
        s.text == above + (x + y) + below,
        is_line(above, x + y, below),
        byte_len(s.text) <= usize::MAX,
        line_breaks(above) <= usize::MAX,
    ensures
        ({
            let target = s.scroll_target(byte_len(above + x) as int, direction);
            &&& s.geometry.layout is None || s.geometry.text_bounds is None ==> target is None
            &&& s.geometry.layout is Some && s.geometry.text_bounds is Some ==> (target matches
                Some(t) && t.row == line_breaks(above) && t.column == byte_len(x) && t.direction
                == direction && (t.surrounded <==> (direction is Some && s.code_editor)) && (
            line_breaks(above) >= s.geometry.layout->0.visible_range.start ==> t.line
                == line_breaks(above) - s.geometry.layout->0.visible_range.start))
        }),
{
    law_positions(above, x, y, below, (x + y).len());
    lemma_measure_concat(Unit::Utf8, above, x + y);
    lemma_measure_concat(Unit::Utf8, x, y);
    lemma_measure_concat(Unit::Utf8, above + (x + y), below);
}

/// Letting go of the right button over a place that was clicked shows the
/// menu there, where one was asked for and can be shown.
pub proof fn law_context_menu(s: StateView, menu: PendingMenu, window: Window, cx: ContextView)
    requires
        s.session.pending_context_menu == Some(menu),
    ensures
        ({
            let after = s.released(MouseButton::Right, window);
            let asked = s.released_asks(MouseButton::Right, window, cx);
            let show = Effect::ShowContextMenu { position: menu.position };
            &&& after.session.pending_context_menu is None
            &&& after.text == s.text
            &&& !s.options.disabled && !window.deferred_context && s.options.context_menu_handler
                ==> asked.effects.last() == show && asked.effects.len() > cx.effects.len()
            &&& s.options.disabled || window.deferred_context ==> asked == cx
            &&& s.released(MouseButton::Left, window) == s
        }),
{
}

// ---------------------------------------------------------------------------
// Keys

impl KeymapView {
    /// Whether a keystroke is bound to an action.
    #[verifier::opaque]
    pub open spec fn does(self, keystroke: Seq<char>, action: Action) -> bool {
        exists|i: int|
            0 <= i < self.bindings.len() && (#[trigger] self.bindings[i]).keystroke == keystroke
                && self.bindings[i].action == action
    }
}

broadcast proof fn lemma_bound(
    keys: KeymapView,
    bound: Seq<char>,
    to: Action,
    keystroke: Seq<char>,
    action: Action,
)
    ensures
        #[trigger] keys.bind(bound, to).does(keystroke, action) == (keys.does(keystroke, action)
            || (keystroke == bound && action == to)),
{
    reveal(KeymapView::does);
    let more = keys.bind(bound, to);
    let n = keys.bindings.len() as int;
    assert(more.bindings[n].keystroke == bound && more.bindings[n].action == to);
    if keys.does(keystroke, action) {
        let i = choose|i: int|
            0 <= i < keys.bindings.len() && (#[trigger] keys.bindings[i]).keystroke == keystroke
                && keys.bindings[i].action == action;
        assert(more.bindings[i] == keys.bindings[i]);
    }
}

/// What the keys do that are the same everywhere: arrows move and, with Shift,
/// select; Home and End go to the ends of the line; Backspace and Delete
/// delete; Enter, Escape and Tab do what they say.
pub proof fn law_common_keys(macos: bool)
    ensures
        ({
            let keys = keymap_of(macos);
            &&& keys.does("backspace"@, Action::Backspace)
            &&& keys.does("shift-backspace"@, Action::Backspace)
            &&& keys.does("delete"@, Action::Delete)
            &&& keys.does("shift-delete"@, Action::Delete)
            &&& keys.does("enter"@, Action::Enter(Enter { secondary: false, shift: false }))
            &&& keys.does("shift-enter"@, Action::Enter(Enter { secondary: false, shift: true }))
            &&& keys.does("secondary-enter"@, Action::Enter(Enter { secondary: true, shift: false }))
            &&& keys.does("escape"@, Action::Escape)
            &&& keys.does("up"@, Action::MoveUp)
            &&& keys.does("down"@, Action::MoveDown)
            &&& keys.does("left"@, Action::MoveLeft)
            &&& keys.does("right"@, Action::MoveRight)
            &&& keys.does("pageup"@, Action::MovePageUp)
            &&& keys.does("pagedown"@, Action::MovePageDown)
            &&& keys.does("tab"@, Action::IndentInline)
            &&& keys.does("shift-tab"@, Action::OutdentInline)
            &&& keys.does("shift-left"@, Action::SelectLeft)
            &&& keys.does("shift-right"@, Action::SelectRight)
            &&& keys.does("shift-up"@, Action::SelectUp)
            &&& keys.does("shift-down"@, Action::SelectDown)
            &&& keys.does("home"@, Action::MoveHome)
            &&& keys.does("end"@, Action::MoveEnd)
            &&& keys.does("shift-home"@, Action::SelectToStartOfLine)
            &&& keys.does("shift-end"@, Action::SelectToEndOfLine)
        }),
{
    broadcast use lemma_bound;

}

/// What the keys of macOS do.
pub proof fn law_macos_keys()
    ensures
        ({
            let keys = keymap_of(true);
            &&& keys.does("ctrl-backspace"@, Action::Backspace)
            &&& keys.does("cmd-backspace"@, Action::DeleteToBeginningOfLine)
            &&& keys.does("cmd-delete"@, Action::DeleteToEndOfLine)
            &&& keys.does("alt-backspace"@, Action::DeleteToPreviousWordStart)
            &&& keys.does("alt-delete"@, Action::DeleteToNextWordEnd)
            &&& keys.does("cmd-]"@, Action::Indent)
            &&& keys.does("cmd-["@, Action::Outdent)
            &&& keys.does("ctrl-shift-a"@, Action::SelectToStartOfLine)
            &&& keys.does("ctrl-shift-e"@, Action::SelectToEndOfLine)
            &&& keys.does("shift-cmd-left"@, Action::SelectToStartOfLine)
            &&& keys.does("shift-cmd-right"@, Action::SelectToEndOfLine)
            &&& keys.does("alt-shift-left"@, Action::SelectToPreviousWordStart)
            &&& keys.does("alt-shift-right"@, Action::SelectToNextWordEnd)
            &&& keys.does("ctrl-cmd-space"@, Action::ShowCharacterPalette)
            &&& keys.does("cmd-a"@, Action::SelectAll)
            &&& keys.does("cmd-c"@, Action::Copy)
            &&& keys.does("cmd-x"@, Action::Cut)
            &&& keys.does("cmd-v"@, Action::Paste)
            &&& keys.does("ctrl-a"@, Action::MoveHome)
            &&& keys.does("cmd-left"@, Action::MoveHome)
            &&& keys.does("ctrl-e"@, Action::MoveEnd)
            &&& keys.does("cmd-right"@, Action::MoveEnd)
            &&& keys.does("cmd-z"@, Action::Undo)
            &&& keys.does("cmd-shift-z"@, Action::Redo)
            &&& keys.does("cmd-up"@, Action::MoveToStart)
            &&& keys.does("cmd-down"@, Action::MoveToEnd)
            &&& keys.does("alt-left"@, Action::MoveToPreviousWord)
            &&& keys.does("alt-right"@, Action::MoveToNextWord)
            &&& keys.does("cmd-shift-up"@, Action::SelectToStart)
            &&& keys.does("cmd-shift-down"@, Action::SelectToEnd)
            &&& keys.does("cmd-."@, Action::ToggleCodeActions)
            &&& keys.does("cmd-f"@, Action::Search)
            &&& keys.does("cmd-shift-f"@, Action::Replace)
        }),
{
    broadcast use lemma_bound;

}

/// What the keys of other systems do.
pub proof fn law_other_keys()
    ensures
        ({
            let keys = keymap_of(false);
            &&& keys.does("ctrl-backspace"@, Action::DeleteToPreviousWordStart)
            &&& keys.does("ctrl-delete"@, Action::DeleteToNextWordEnd)
            &&& keys.does("ctrl-]"@, Action::Indent)
            &&& keys.does("ctrl-["@, Action::Outdent)
            &&& keys.does("ctrl-shift-left"@, Action::SelectToPreviousWordStart)
            &&& keys.does("ctrl-shift-right"@, Action::SelectToNextWordEnd)
            &&& keys.does("ctrl-a"@, Action::SelectAll)
            &&& keys.does("ctrl-c"@, Action::Copy)
            &&& keys.does("ctrl-x"@, Action::Cut)
            &&& keys.does("ctrl-v"@, Action::Paste)
            &&& keys.does("ctrl-left"@, Action::MoveToPreviousWord)
            &&& keys.does("ctrl-right"@, Action::MoveToNextWord)
            &&& keys.does("ctrl-z"@, Action::Undo)
            &&& keys.does("ctrl-y"@, Action::Redo)
            &&& keys.does("ctrl-."@, Action::ToggleCodeActions)
            &&& keys.does("ctrl-f"@, Action::Search)
            &&& keys.does("ctrl-h"@, Action::Replace)
        }),
{
    broadcast use lemma_bound;

}

} // verus!
