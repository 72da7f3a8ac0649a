//! The state of a text input, and what it can be asked and told.
use crate::context::{PixelBounds, PixelEdges, PixelPoint};
use crate::display_map::{DisplayMap, DisplayView, WrappingIndent};
use crate::kind::InputModeKind;
use crate::mask_pattern::{MaskPattern, MaskView};
use crate::mode::{DiagnosticEntry, DiagnosticView, LayoutMode, LayoutView};
use crate::pattern::Pattern;
use crate::rope::TextBuffer;
use crate::selection::Selection;
use crate::undo_manager::{EditIntent, UndoManager, UndoView};
use core::marker::PhantomData;
use vstd::prelude::*;

verus! {

/// How text is aligned.
#[derive(Clone, Copy, PartialEq, Eq, Structural, Debug)]
pub enum TextAlign {
    Left,
    Center,
    Right,
}

/// A number, held as the bits of an `f64`.
#[derive(Clone, Copy, PartialEq, Eq, Structural, Debug)]
pub struct Number {
    pub bits: u64,
}

/// How far a number input steps.
#[derive(Clone, Copy, PartialEq, Eq, Structural, Debug)]
pub enum NumberStep {
    /// By the same number always.
    Fixed(Number),
    /// By what a function of the application says, which is known by this number.
    ByValue(u64),
}

/// Whether a number input steps up or down.
#[derive(Clone, Copy, PartialEq, Eq, Structural, Debug)]
pub enum StepAction {
    Increment,
    Decrement,
}

/// The functions of the application that say how far a number input steps.
pub trait StepFunctions {
    fn step(&self, function: u64, value: Number, action: StepAction) -> Number;
}

impl NumberStep {
    /// How far to step from `value`. Functions of the application are asked anew each time.
    pub fn value<F: StepFunctions>(&self, value: Number, action: StepAction, functions: &F) -> (step:
        Number)
        ensures
            *self matches NumberStep::Fixed(n) ==> step == n,
            *self matches NumberStep::ByValue(f) ==> call_ensures(
                F::step,
                (functions, f, value, action),
                step,
            ),
    {
        match *self {
            NumberStep::Fixed(n) => n,
            NumberStep::ByValue(f) => functions.step(f, value, action),
        }
    }
}

/// A menu that is shown once the button is released.
#[derive(Clone, Copy, PartialEq, Eq, Structural, Debug)]
pub struct PendingMenu {
    pub position: PixelPoint,
    pub offset: usize,
}

/// What an input was configured with.
#[derive(Clone, Copy, PartialEq, Eq, Structural, Debug)]
pub struct Options {
    pub disabled: bool,
    pub readonly: bool,
    pub loading: bool,
    pub masked: bool,
    pub searchable: bool,
    pub replaceable: bool,
    pub soft_wrap: bool,
    pub wrapping_indent: WrappingIndent,
    pub clean_on_escape: bool,
    pub submit_on_enter: bool,
    pub show_whitespaces: bool,
    pub enable_context_menu: bool,
    pub text_align: TextAlign,
    pub scroll_beyond_last_line: Option<usize>,
    pub cursor_surrounding_lines: Option<usize>,
    pub number_step: Option<NumberStep>,
    pub number_min: Option<Number>,
    pub number_max: Option<Number>,
    /// Whether a handler for the context menu was installed.
    pub context_menu_handler: bool,
}

/// What an input remembers between events.
#[derive(Clone, Copy, PartialEq, Eq, Structural, Debug)]
pub struct Session {
    /// Whether the pointer is selecting.
    pub selecting: bool,
    /// Whether the text has to be highlighted before the next paint.
    pub pending_update: bool,
    /// Whether the text is replaced without offering completions.
    pub silent_replace_text: bool,
    /// Whether subscribers are told of changes.
    pub emit_events: bool,
    /// Whether the search panel offers to replace.
    pub replace_mode: bool,
    pub pending_context_menu: Option<PendingMenu>,
    pub scroll_offset: PixelPoint,
    /// The scroll offset to apply at the next layout.
    pub deferred_scroll_offset: Option<PixelPoint>,
}

/// What the last paint laid out.
#[derive(Clone, Copy, PartialEq, Eq, Structural, Debug)]
pub struct LayoutInfo {
    /// The rows that are visible.
    pub visible_range: Selection,
    /// The bits of the height of a line, an `f32` number of pixels.
    pub line_height: u32,
    pub cursor_bounds: Option<PixelBounds>,
}

/// Where an input was painted.
#[derive(Clone, Copy, PartialEq, Eq, Structural, Debug)]
pub struct Geometry {
    pub input_bounds: PixelBounds,
    pub text_bounds: Option<PixelBounds>,
    pub layout: Option<LayoutInfo>,
    pub editor_paddings: PixelEdges,
}

/// A check of the text, made by the application.
pub trait InputValidator {
    fn accepts(&self, text: &str) -> bool;
}

/// The text-editing engine behind single-line inputs, textareas and editors.
pub struct InputBaseState<M: InputModeKind> {
    pub text: TextBuffer,
    /// The selected text, in bytes. It is empty when no text is selected.
    pub selected_range: Selection,
    /// The word that a selection with the pointer started with.
    pub selected_word_range: Option<Selection>,
    /// Whether the cursor is at the start of the selection.
    pub selection_reversed: bool,
    /// The text that is being composed.
    pub ime_marked_range: Option<Selection>,
    pub undo_manager: UndoManager,
    pub display_map: DisplayMap,
    pub mode: LayoutMode,
    pub options: Options,
    pub session: Session,
    pub geometry: Geometry,
    pub mask_pattern: MaskPattern,
    /// Whether the mask was chosen explicitly.
    pub mask_pattern_set: bool,
    pub placeholder: String,
    pub pattern: Option<Pattern>,
    pub validate: Option<Box<dyn InputValidator>>,
    pub diagnostic_popover: Option<DiagnosticEntry>,
    pub kind: PhantomData<M>,
}

pub struct StateView {
    pub multi_line: bool,
    pub code_editor: bool,
    pub text: Seq<char>,
    pub selected: Selection,
    pub word: Option<Selection>,
    pub reversed: bool,
    pub ime: Option<Selection>,
    pub undo: UndoView,
    pub display: DisplayView,
    pub mode: LayoutView,
    pub options: Options,
    pub session: Session,
    pub geometry: Geometry,
    pub mask: MaskView,
    pub mask_set: bool,
    pub placeholder: Seq<char>,
    pub pattern: Option<Seq<char>>,
    pub validate: Option<Box<dyn InputValidator>>,
    pub popover: Option<DiagnosticView>,
}

impl<M: InputModeKind> View for InputBaseState<M> {
    type V = StateView;

    open spec fn view(&self) -> StateView {
        StateView {
            multi_line: M::MULTI_LINE,
            code_editor: M::CODE_EDITOR,
            text: self.text@,
            selected: self.selected_range,
            word: self.selected_word_range,
            reversed: self.selection_reversed,
            ime: self.ime_marked_range,
            undo: self.undo_manager@,
            display: self.display_map@,
            mode: self.mode@,
            options: self.options,
            session: self.session,
            geometry: self.geometry,
            mask: self.mask_pattern@,
            mask_set: self.mask_pattern_set,
            placeholder: self.placeholder@,
            pattern: match self.pattern {
                Some(p) => Some(p@),
                None => None,
            },
            validate: self.validate,
            popover: match self.diagnostic_popover {
                Some(d) => Some(d@),
                None => None,
            },
        }
    }
}

impl StateView {
    /// Whether the selection and the other ranges of the state run forwards.
    pub open spec fn ordered(self) -> bool {
        &&& self.selected.ordered()
        &&& self.ime matches Some(r) ==> r.ordered()
        &&& self.word matches Some(r) ==> r.ordered()
    }

    /// Whether all ranges that the state holds run forwards, those of its history included.
    pub open spec fn wf(self) -> bool {
        self.ordered() && self.undo.wf()
    }

    pub open spec fn single_line(self) -> bool {
        !self.multi_line
    }

    /// Whether the user may change the text.
    pub open spec fn editable(self) -> bool {
        !self.options.disabled && !self.options.readonly
    }

    /// The byte offset of the cursor: where the selection is when it is empty,
    /// else the end of the text that is being composed, else the end of the
    /// selection that moves.
    pub open spec fn cursor(self) -> usize {
        if self.selected.start == self.selected.end {
            self.selected.start
        } else {
            match self.ime {
                Some(r) => r.end,
                None => if self.reversed {
                    self.selected.start
                } else {
                    self.selected.end
                },
            }
        }
    }
}

/// Where no text is selected, the selection is at the cursor.
pub proof fn law_empty_selection_is_at_cursor(s: StateView)
    requires
        s.selected.start == s.selected.end,
    ensures
        s.selected.start == s.cursor(),
        s.selected.end == s.cursor(),
{
}

impl<M: InputModeKind> InputBaseState<M> {
    /// Whether this input spans more than one line.
    pub fn is_multi_line(&self) -> (r: bool)
        ensures
            r == self@.multi_line,
            r == M::MULTI_LINE,
    {
        M::MULTI_LINE
    }

    /// Whether this input is a single-line text field.
    pub fn is_single_line(&self) -> (r: bool)
        ensures
            r == self@.single_line(),
            r == !M::MULTI_LINE,
    {
        !M::MULTI_LINE
    }

    /// Whether this input is a source-code editor.
    pub fn is_code_editor(&self) -> (r: bool)
        ensures
            r == self@.code_editor,
            r == M::CODE_EDITOR,
    {
        M::CODE_EDITOR
    }

    /// Whether the user may change the text. The functions that programs call
    /// are not limited by this.
    pub fn is_editable(&self) -> (r: bool)
        ensures
            r == self@.editable(),
    {
        !self.options.disabled && !self.options.readonly
    }

    /// The byte offset of the cursor.
    pub fn cursor(&self) -> (o: usize)
        ensures
            o == self@.cursor(),
    {
        if self.selected_range.is_empty() {
            return self.selected_range.start;
        }
        match &self.ime_marked_range {
            Some(range) => range.end,
            None => if self.selection_reversed {
                self.selected_range.start
            } else {
                self.selected_range.end
            },
        }
    }
}

/// Single steps, each of which changes one thing.
impl<M: InputModeKind> InputBaseState<M> {
    pub(crate) fn silence(&mut self, silent: bool)
        ensures
            final(self)@ == (StateView {
                session: Session { silent_replace_text: silent, ..old(self)@.session },
                ..old(self)@
            }),
    {
        self.session.silent_replace_text = silent;
    }

    pub(crate) fn restrict(&mut self, disabled: bool, readonly: bool)
        ensures
            final(self)@ == (StateView {
                options: Options { disabled, readonly, ..old(self)@.options },
                ..old(self)@
            }),
    {
        self.options.disabled = disabled;
        self.options.readonly = readonly;
    }

    pub(crate) fn announce(&mut self, intent: Option<EditIntent>)
        ensures
            final(self)@ == (StateView {
                undo: UndoView { pending_intent: intent, ..old(self)@.undo },
                ..old(self)@
            }),
    {
        self.undo_manager.pending_intent = intent;
    }

    pub(crate) fn select(&mut self, selection: Selection)
        ensures
            final(self)@ == (StateView { selected: selection, ..old(self)@ }),
    {
        self.selected_range = selection;
    }

    pub(crate) fn set_reversed(&mut self, reversed: bool)
        ensures
            final(self)@ == (StateView { reversed, ..old(self)@ }),
    {
        self.selection_reversed = reversed;
    }

    pub(crate) fn keep_word(&mut self, word: Option<Selection>)
        ensures
            final(self)@ == (StateView { word, ..old(self)@ }),
    {
        self.selected_word_range = word;
    }

    pub(crate) fn mark(&mut self, marked: Option<Selection>)
        ensures
            final(self)@ == (StateView { ime: marked, ..old(self)@ }),
    {
        self.ime_marked_range = marked;
    }

    pub(crate) fn forget_parse(&mut self)
        ensures
            final(self)@ == (StateView { mode: old(self)@.mode.unparsed(), ..old(self)@ }),
    {
        self.mode.reset_highlighter();
    }

    pub(crate) fn forget_diagnostics(&mut self)
        ensures
            final(self)@ == (StateView {
                mode: old(self)@.mode.without_diagnostics(),
                ..old(self)@
            }),
    {
        self.mode.reset_diagnostics();
    }

    pub(crate) fn set_text(&mut self, text: TextBuffer)
        ensures
            final(self)@ == (StateView { text: text@, ..old(self)@ }),
    {
        self.text = text;
    }

    pub(crate) fn ignore_edits(&mut self, ignoring: bool)
        ensures
            final(self)@ == (StateView {
                undo: UndoView { ignoring, ..old(self)@.undo },
                ..old(self)@
            }),
    {
        self.undo_manager.set_ignoring(ignoring);
    }

    pub(crate) fn tell_changes(&mut self, emit_events: bool)
        ensures
            final(self)@ == (StateView {
                session: Session { emit_events, ..old(self)@.session },
                ..old(self)@
            }),
    {
        self.session.emit_events = emit_events;
    }

    pub(crate) fn await_update(&mut self)
        ensures
            final(self)@ == (StateView {
                session: Session { pending_update: true, ..old(self)@.session },
                ..old(self)@
            }),
    {
        self.session.pending_update = true;
    }

    pub(crate) fn scroll_by(&mut self, offset: PixelPoint, deferred: Option<PixelPoint>)
        ensures
            final(self)@ == (StateView {
                session: Session {
                    scroll_offset: offset,
                    deferred_scroll_offset: deferred,
                    ..old(self)@.session
                },
                ..old(self)@
            }),
    {
        self.session.scroll_offset = offset;
        self.session.deferred_scroll_offset = deferred;
    }

    pub(crate) fn break_coalescing(&mut self)
        ensures
            final(self)@ == (StateView {
                undo: UndoView { coalescing: false, ..old(self)@.undo },
                ..old(self)@
            }),
    {
        self.undo_manager.break_transaction_coalescing();
    }

    pub(crate) fn clear_history(&mut self)
        ensures
            final(self)@ == (StateView {
                undo: UndoView {
                    undos: Seq::empty(),
                    redos: Seq::empty(),
                    open: None,
                    coalescing: false,
                    ..old(self)@.undo
                },
                ..old(self)@
            }),
    {
        self.undo_manager.clear();
    }

    pub(crate) fn commit_history(&mut self)
        ensures
            final(self)@ == (StateView { undo: old(self)@.undo.committed(), ..old(self)@ }),
    {
        self.undo_manager.commit_transaction();
    }

    pub(crate) fn begin_history(&mut self)
        ensures
            final(self)@ == (StateView { undo: old(self)@.undo.begun(), ..old(self)@ }),
    {
        self.undo_manager.begin_transaction();
    }

    pub(crate) fn hide_diagnostic(&mut self)
        ensures
            final(self)@ == (StateView { popover: None, ..old(self)@ }),
    {
        self.diagnostic_popover = None;
    }

    pub(crate) fn show_diagnostic(&mut self, entry: DiagnosticEntry)
        ensures
            final(self)@ == (StateView { popover: Some(entry@), ..old(self)@ }),
    {
        self.diagnostic_popover = Some(entry);
    }

    pub(crate) fn begin_selecting(&mut self, selecting: bool)
        ensures
            final(self)@ == (StateView {
                session: Session { selecting, ..old(self)@.session },
                ..old(self)@
            }),
    {
        self.session.selecting = selecting;
    }

    pub(crate) fn await_menu(&mut self, menu: Option<PendingMenu>)
        ensures
            final(self)@ == (StateView {
                session: Session { pending_context_menu: menu, ..old(self)@.session },
                ..old(self)@
            }),
    {
        self.session.pending_context_menu = menu;
    }

    pub(crate) fn take_intent(&mut self) -> (intent: Option<EditIntent>)
        ensures
            intent == old(self)@.undo.pending_intent,
            final(self)@ == (StateView {
                undo: UndoView { pending_intent: None, ..old(self)@.undo },
                ..old(self)@
            }),
    {
        self.undo_manager.pending_intent.take()
    }
}

} // verus!
