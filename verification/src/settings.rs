//! Building an input, and its settings.
use crate::context::{Context, Effect, PixelBounds, PixelEdges, PixelPoint};
use crate::display_map::{DisplayMap, DisplayView, FoldRange, WrappingIndent};
use crate::kind::{lemma_kinds, EditorMode, InputMode, InputModeKind, MultiLineMode, TextareaMode};
use crate::mask_pattern::{MaskPattern, MaskView};
use crate::mode::{DiagnosticEntry, DiagnosticSet, EditorLayoutView, LayoutMode, LayoutView};
use crate::pattern::Pattern;
use crate::rope::TextBuffer;
use crate::selection::Selection;
use crate::state::{
    Geometry, InputBaseState, InputValidator, LayoutInfo, Number, NumberStep, Options, Session,
    StateView, TextAlign,
};
use crate::undo_manager::{UndoManager, UndoView};
use core::marker::PhantomData;
use core::ops::Range;
use vstd::prelude::*;

verus! {

/// The bits of the `f64` number one.
pub const ONE_BITS: u64 = 0x3ff0000000000000;

/// Nothing.
pub open spec fn no_bounds() -> PixelBounds {
    PixelBounds { x: 0, y: 0, width: 0, height: 0 }
}

impl Options {
    /// The settings that an input starts with.
    pub open spec fn initial() -> Options {
        Options {
            disabled: false,
            readonly: false,
            loading: false,
            masked: false,
            searchable: false,
            replaceable: true,
            soft_wrap: true,
            wrapping_indent: WrappingIndent::Same,
            clean_on_escape: false,
            submit_on_enter: false,
            show_whitespaces: false,
            enable_context_menu: true,
            text_align: TextAlign::Left,
            scroll_beyond_last_line: None,
            cursor_surrounding_lines: None,
            number_step: Some(NumberStep::Fixed(Number { bits: ONE_BITS })),
            number_min: None,
            number_max: None,
            context_menu_handler: false,
        }
    }

    fn new() -> (options: Options)
        ensures
            options == Options::initial(),
    {
        Options {
            disabled: false,
            readonly: false,
            loading: false,
            masked: false,
            searchable: false,
            replaceable: true,
            soft_wrap: true,
            wrapping_indent: WrappingIndent::Same,
            clean_on_escape: false,
            submit_on_enter: false,
            show_whitespaces: false,
            enable_context_menu: true,
            text_align: TextAlign::Left,
            scroll_beyond_last_line: None,
            cursor_surrounding_lines: None,
            number_step: Some(NumberStep::Fixed(Number { bits: ONE_BITS })),
            number_min: None,
            number_max: None,
            context_menu_handler: false,
        }
    }
}

impl Session {
    pub open spec fn initial() -> Session {
        Session {
            selecting: false,
            pending_update: false,
            silent_replace_text: false,
            emit_events: true,
            replace_mode: false,
            pending_context_menu: None,
            scroll_offset: PixelPoint { x: 0, y: 0 },
            deferred_scroll_offset: None,
        }
    }

    fn new() -> (session: Session)
        ensures
            session == Session::initial(),
    {
        Session {
            selecting: false,
            pending_update: false,
            silent_replace_text: false,
            emit_events: true,
            replace_mode: false,
            pending_context_menu: None,
            scroll_offset: PixelPoint { x: 0, y: 0 },
            deferred_scroll_offset: None,
        }
    }
}

impl Geometry {
    pub open spec fn initial() -> Geometry {
        Geometry {
            input_bounds: no_bounds(),
            text_bounds: None,
            layout: None,
            editor_paddings: PixelEdges { top: 0, right: 0, bottom: 0, left: 0 },
        }
    }

    fn new() -> (geometry: Geometry)
        ensures
            geometry == Geometry::initial(),
    {
        Geometry {
            input_bounds: PixelBounds { x: 0, y: 0, width: 0, height: 0 },
            text_bounds: None,
            layout: None,
            editor_paddings: PixelEdges { top: 0, right: 0, bottom: 0, left: 0 },
        }
    }
}

impl StateView {
    /// The state that an input of a kind starts with.
    pub open spec fn initial(multi_line: bool, code_editor: bool) -> StateView {
        StateView {
            multi_line,
            code_editor,
            text: Seq::empty(),
            selected: Selection::at(0),
            word: None,
            reversed: false,
            ime: None,
            undo: UndoView::empty(),
            display: DisplayView {
                folds: Seq::empty(),
                candidates: Seq::empty(),
                wrapped: Seq::empty(),
                wrapping_indent: WrappingIndent::Same,
            },
            mode: LayoutView::plain(),
            options: Options::initial(),
            session: Session::initial(),
            geometry: Geometry::initial(),
            mask: MaskView::Plain,
            mask_set: false,
            placeholder: Seq::empty(),
            pattern: None,
            validate: None,
            popover: None,
        }
    }

    pub open spec fn with_mask(self, mask: MaskView) -> StateView {
        StateView {
            mask,
            mask_set: true,
            placeholder: match mask.placeholder() {
                Some(p) => p,
                None => self.placeholder,
            },
            ..self
        }
    }
}

/// Data for those who present an input.
pub struct InputPresentation {
    disabled: bool,
    readonly: bool,
    loading: bool,
    masked: bool,
    multi_line: bool,
    code_editor: bool,
    text_align: TextAlign,
    placeholder: String,
    value: String,
    mask_placeholder: Option<String>,
}

pub struct PresentationView {
    pub disabled: bool,
    pub readonly: bool,
    pub loading: bool,
    pub masked: bool,
    pub multi_line: bool,
    pub code_editor: bool,
    pub text_align: TextAlign,
    pub placeholder: Seq<char>,
    pub value: Seq<char>,
    pub mask_placeholder: Option<Seq<char>>,
}

impl View for InputPresentation {
    type V = PresentationView;

    closed spec fn view(&self) -> PresentationView {
        PresentationView {
            disabled: self.disabled,
            readonly: self.readonly,
            loading: self.loading,
            masked: self.masked,
            multi_line: self.multi_line,
            code_editor: self.code_editor,
            text_align: self.text_align,
            placeholder: self.placeholder@,
            value: self.value@,
            mask_placeholder: match self.mask_placeholder {
                Some(p) => Some(p@),
                None => None,
            },
        }
    }
}

impl InputPresentation {
    pub fn is_disabled(&self) -> (r: bool)
        ensures
            r == self@.disabled,
    {
        self.disabled
    }

    pub fn is_readonly(&self) -> (r: bool)
        ensures
            r == self@.readonly,
    {
        self.readonly
    }

    /// Whether the user may change the text.
    pub fn is_editable(&self) -> (r: bool)
        ensures
            r == (!self@.disabled && !self@.readonly),
    {
        !self.disabled && !self.readonly
    }

    pub fn is_loading(&self) -> (r: bool)
        ensures
            r == self@.loading,
    {
        self.loading
    }

    pub fn is_masked(&self) -> (r: bool)
        ensures
            r == self@.masked,
    {
        self.masked
    }

    pub fn is_multi_line(&self) -> (r: bool)
        ensures
            r == self@.multi_line,
    {
        self.multi_line
    }

    pub fn is_code_editor(&self) -> (r: bool)
        ensures
            r == self@.code_editor,
    {
        self.code_editor
    }

    pub fn text_align(&self) -> (r: TextAlign)
        ensures
            r == self@.text_align,
    {
        self.text_align
    }

    pub fn placeholder(&self) -> (r: &str)
        ensures
            r@ == self@.placeholder,
    {
        self.placeholder.as_str()
    }

    pub fn value(&self) -> (r: &str)
        ensures
            r@ == self@.value,
    {
        self.value.as_str()
    }

    /// The placeholder that the mask gives, e.g. `(___) ___-____`.
    pub fn mask_placeholder(&self) -> (r: Option<&str>)
        ensures
            match r {
                Some(p) => self@.mask_placeholder == Some(p@),
                None => self@.mask_placeholder is None,
            },
    {
        match &self.mask_placeholder {
            Some(p) => Some(p.as_str()),
            None => None,
        }
    }
}

/// What a context menu can offer.
#[derive(Clone, Copy, PartialEq, Eq, Structural, Debug)]
pub struct InputContextMenuCapabilities {
    pub disabled: bool,
    pub readonly: bool,
    pub code_editor: bool,
    pub selection: bool,
    pub go_to_definition: bool,
    pub code_actions: bool,
}

impl<M: InputModeKind> InputBaseState<M> {
    /// Builds an input. The kinds put their own layout on top of this.
    fn new_in_mode() -> (state: Self)
        ensures
            state@ == StateView::initial(M::MULTI_LINE, M::CODE_EDITOR),
    {
        let empty = "";
        proof {
            reveal_strlit("");
            assert(empty@ =~= Seq::empty());
        }
        let state = InputBaseState {
            text: TextBuffer::from_str(empty),
            selected_range: Selection::caret(0),
            selected_word_range: None,
            selection_reversed: false,
            ime_marked_range: None,
            undo_manager: UndoManager::new(),
            display_map: DisplayMap::new(),
            mode: LayoutMode::default(),
            options: Options::new(),
            session: Session::new(),
            geometry: Geometry::new(),
            mask_pattern: MaskPattern::default(),
            mask_pattern_set: false,
            placeholder: empty.to_owned(),
            pattern: None,
            validate: None,
            diagnostic_popover: None,
            kind: PhantomData,
        };
        state
    }

    /// Data for those who present the input.
    pub fn presentation(&self) -> (p: InputPresentation)
        ensures
            p@ == (PresentationView {
                disabled: self@.options.disabled,
                readonly: self@.options.readonly,
                loading: self@.options.loading,
                masked: self@.options.masked,
                multi_line: self@.multi_line,
                code_editor: self@.code_editor,
                text_align: self@.options.text_align,
                placeholder: self@.placeholder,
                value: self@.text,
                mask_placeholder: self@.mask.placeholder(),
            }),
    {
        InputPresentation {
            disabled: self.options.disabled,
            readonly: self.options.readonly,
            loading: self.options.loading,
            masked: self.options.masked,
            multi_line: self.is_multi_line(),
            code_editor: self.is_code_editor(),
            text_align: self.options.text_align,
            placeholder: self.placeholder.as_str().to_owned(),
            value: self.text.text(),
            mask_placeholder: self.mask_pattern.placeholder(),
        }
    }

    /// What a context menu can offer. The language features tell what they can do.
    pub fn context_menu_capabilities(
        &self,
        go_to_definition: bool,
        code_actions: bool,
    ) -> (c: InputContextMenuCapabilities)
        ensures
            c == (InputContextMenuCapabilities {
                disabled: self@.options.disabled,
                readonly: self@.options.readonly,
                code_editor: self@.code_editor,
                selection: self@.selected.start != self@.selected.end,
                go_to_definition,
                code_actions,
            }),
    {
        InputContextMenuCapabilities {
            disabled: self.options.disabled,
            readonly: self.options.readonly,
            code_editor: self.is_code_editor(),
            selection: !self.selected_range.is_empty(),
            go_to_definition,
            code_actions,
        }
    }

    /// Aligns the text of a single-line input.
    pub fn set_text_align(&mut self, text_align: TextAlign, cx: &mut Context)
        ensures
            old(self)@.multi_line || old(self)@.options.text_align == text_align ==> final(self)@ == old(self)@
                && final(cx)@ == old(cx)@,
            !(old(self)@.multi_line || old(self)@.options.text_align == text_align) ==> {
                &&& final(self)@ == (StateView {
                        options: Options { text_align, ..old(self)@.options },
                        ..old(self)@
                    })
                &&& final(cx)@ == old(cx)@.ask(Effect::Notify)
            },
    {
        if self.is_multi_line() || self.options.text_align == text_align {
            return;
        }
        self.options.text_align = text_align;
        cx.notify();
    }

    /// Shows a password, or hides it.
    pub fn toggle_masked(&mut self, cx: &mut Context)
        ensures
            final(self)@ == (StateView {
                options: Options { masked: !old(self)@.options.masked, ..old(self)@.options },
                ..old(self)@
            }),
            final(cx)@ == old(cx)@.ask(Effect::Notify),
    {
        self.options.masked = !self.options.masked;
        cx.notify();
    }

    /// The application shows a context menu when it is asked to.
    pub fn on_context_menu(&mut self)
        ensures
            final(self)@ == (StateView {
                options: Options { context_menu_handler: true, ..old(self)@.options },
                ..old(self)@
            }),
    {
        self.options.context_menu_handler = true;
    }

    /// Sets whether a right click opens a context menu.
    pub fn context_menu(self, enable: bool) -> (state: Self)
        ensures
            state@ == (StateView {
                options: Options { enable_context_menu: enable, ..self@.options },
                ..self@
            }),
    {
        let mut state = self;
        state.options.enable_context_menu = enable;
        state
    }

    pub fn set_context_menu_enabled(&mut self, enabled: bool)
        ensures
            final(self)@ == (StateView {
                options: Options { enable_context_menu: enabled, ..old(self)@.options },
                ..old(self)@
            }),
    {
        self.options.enable_context_menu = enabled;
    }

    /// Sets whether searching offers to replace.
    pub fn replaceable(self, allow: bool) -> (state: Self)
        ensures
            state@ == (StateView {
                options: Options { replaceable: allow, ..self@.options },
                ..self@
            }),
    {
        let mut state = self;
        state.options.replaceable = allow;
        state
    }

    /// Whether searching offers to replace.
    pub fn is_replaceable(&self) -> (r: bool)
        ensures
            r == (self@.options.replaceable && self@.editable()),
    {
        self.options.replaceable && self.is_editable()
    }

    /// Sets the text that is shown while the input is empty.
    pub fn placeholder(self, placeholder: &str) -> (state: Self)
        ensures
            state@ == (StateView { placeholder: placeholder@, ..self@ }),
    {
        let mut state = self;
        state.placeholder = placeholder.to_owned();
        state
    }

    pub fn set_placeholder(&mut self, placeholder: &str, cx: &mut Context)
        ensures
            final(self)@ == (StateView { placeholder: placeholder@, ..old(self)@ }),
            final(cx)@ == old(cx)@.ask(Effect::Notify),
    {
        self.placeholder = placeholder.to_owned();
        cx.notify();
    }

    /// Sets the language of an editor.
    pub fn set_highlighter(&mut self, new_language: &str, cx: &mut Context)
        ensures
            final(self)@ == (StateView {
                mode: old(self)@.mode.with_language(new_language@),
                ..old(self)@
            }),
            final(cx)@ == old(cx)@.ask(Effect::Notify),
    {
        self.mode.set_language(new_language);
        cx.notify();
    }

    /// Installs the adapter that makes highlighters.
    pub fn set_highlighter_factory(&mut self, factory: u64, cx: &mut Context)
        ensures
            final(self)@ == (StateView {
                mode: old(self)@.mode.with_factory(Some(factory)),
                session: Session { pending_update: true, ..old(self)@.session },
                ..old(self)@
            }),
            final(cx)@ == old(cx)@.ask(Effect::Notify),
    {
        self.mode.set_highlighter_factory(factory);
        self.session.pending_update = true;
        cx.notify();
    }

    /// Installs an adapter that makes highlighters, unless there is one already.
    pub fn ensure_highlighter_factory(&mut self, factory: u64)
        ensures
            final(self)@ == (StateView {
                mode: match old(self)@.mode {
                    LayoutView::CodeEditor { editor, .. } => if editor.highlighter_factory is None {
                        old(self)@.mode.with_factory(Some(factory))
                    } else {
                        old(self)@.mode
                    },
                    _ => old(self)@.mode,
                },
                ..old(self)@
            }),
    {
        self.mode.ensure_highlighter_factory(factory);
    }

    /// Sets the padding of multi-line text.
    pub fn set_editor_paddings(&mut self, paddings: PixelEdges)
        ensures
            final(self)@ == (StateView {
                geometry: Geometry { editor_paddings: paddings, ..old(self)@.geometry },
                ..old(self)@
            }),
    {
        self.geometry.editor_paddings = paddings;
    }

    /// Takes in the ranges that a highlighter says can be folded.
    pub fn apply_highlighter_fold_candidates(
        &mut self,
        candidates: Vec<FoldRange>,
        cx: &mut Context,
    )
        ensures
            final(self)@ == (StateView {
                display: if old(self)@.mode.folds() {
                    DisplayView { candidates: candidates@, ..old(self)@.display }
                } else {
                    old(self)@.display
                },
                ..old(self)@
            }),
            final(cx)@ == old(cx)@.ask(Effect::Notify),
    {
        if self.mode.is_folding() {
            self.display_map.set_fold_candidates(candidates);
        }
        cx.notify();
    }

    /// The diagnostics of an editor.
    pub fn diagnostics(&self) -> (set: Option<&DiagnosticSet>)
        ensures
            match set {
                Some(d) => self@.mode.diagnostics() == Some(d@),
                None => self@.mode.diagnostics() is None,
            },
    {
        self.mode.diagnostics()
    }

    /// The diagnostics of an editor, to be changed.
    pub fn diagnostics_mut(&mut self) -> (set: Option<&mut DiagnosticSet>)
        ensures
            match set {
                Some(d) => {
                    &&& old(self)@.mode is CodeEditor
                    &&& d@ == old(self)@.mode->editor.diagnostics
                    &&& final(self)@ == (StateView {
                        mode: old(self)@.mode.with_editor(
                            EditorLayoutView { diagnostics: final(d)@, ..old(self)@.mode->editor },
                        ),
                        ..old(self)@
                    })
                },
                None => !(old(self)@.mode is CodeEditor) && final(self)@ == old(self)@,
            },
    {
        self.mode.diagnostics_mut()
    }

    /// The diagnostic under the pointer.
    pub fn diagnostic_popover(&self) -> (d: Option<DiagnosticEntry>)
        ensures
            match d {
                Some(entry) => self@.popover == Some(entry@),
                None => self@.popover is None,
            },
    {
        match &self.diagnostic_popover {
            Some(entry) => Some(entry.clone()),
            None => None,
        }
    }

    /// Sets whether the input is disabled.
    pub fn disabled(self, disabled: bool) -> (state: Self)
        ensures
            state@ == (StateView { options: Options { disabled, ..self@.options }, ..self@ }),
    {
        let mut state = self;
        state.options.disabled = disabled;
        state
    }

    pub fn set_disabled(&mut self, disabled: bool, cx: &mut Context)
        ensures
            old(self)@.options.disabled == disabled ==> final(self)@ == old(self)@
                && final(cx)@ == old(cx)@,
            !(old(self)@.options.disabled == disabled) ==> {
                &&& final(self)@ == (StateView {
                        options: Options { disabled, ..old(self)@.options },
                        ..old(self)@
                    })
                &&& final(cx)@ == old(cx)@.ask(Effect::Notify)
            },
    {
        if self.options.disabled == disabled {
            return;
        }
        self.options.disabled = disabled;
        cx.notify();
    }

    /// Sets whether the user may only read the text. The input looks and selects as usual.
    pub fn readonly(self, readonly: bool) -> (state: Self)
        ensures
            state@ == (StateView { options: Options { readonly, ..self@.options }, ..self@ }),
    {
        let mut state = self;
        state.options.readonly = readonly;
        state
    }

    fn put_readonly(&mut self, readonly: bool)
        ensures
            final(self)@ == (StateView {
                options: Options { readonly, ..old(self)@.options },
                ..old(self)@
            }),
    {
        self.options.readonly = readonly;
    }

    fn end_replacing(&mut self)
        ensures
            final(self)@ == (StateView {
                session: Session { replace_mode: false, ..old(self)@.session },
                ..old(self)@
            }),
    {
        self.session.replace_mode = false;
    }

    /// Sets whether the user may only read the text. Searching then offers to replace no more.
    pub fn set_readonly(&mut self, readonly: bool, cx: &mut Context)
        ensures
            old(self)@.options.readonly == readonly ==> final(self)@ == old(self)@ && final(cx)@
                == old(cx)@,
            old(self)@.options.readonly != readonly ==> {
                &&& final(self)@ == (StateView {
                    options: Options { readonly, ..old(self)@.options },
                    session: Session {
                        replace_mode: old(self)@.session.replace_mode && !readonly,
                        ..old(self)@.session
                    },
                    ..old(self)@
                })
                &&& final(cx)@ == old(cx)@.ask(Effect::Notify)
            },
    {
        if self.options.readonly == readonly {
            return;
        }
        self.put_readonly(readonly);
        if readonly {
            self.end_replacing();
        }
        cx.notify();
    }

    /// Lets Escape empty the input.
    pub fn clean_on_escape(self) -> (state: Self)
        ensures
            state@ == (StateView {
                options: Options { clean_on_escape: true, ..self@.options },
                ..self@
            }),
    {
        let mut state = self;
        state.options.clean_on_escape = true;
        state
    }

    pub fn set_clean_on_escape(&mut self, clean: bool)
        ensures
            final(self)@ == (StateView {
                options: Options { clean_on_escape: clean, ..old(self)@.options },
                ..old(self)@
            }),
    {
        self.options.clean_on_escape = clean;
    }

    /// Sets whether Enter submits multi-line text. Shift and Enter then put a new line in.
    pub fn submit_on_enter(self, submit: bool) -> (state: Self)
        ensures
            state@ == (StateView {
                options: Options { submit_on_enter: submit, ..self@.options },
                ..self@
            }),
    {
        let mut state = self;
        state.options.submit_on_enter = submit;
        state
    }

    pub fn set_submit_on_enter(&mut self, submit: bool, cx: &mut Context)
        ensures
            final(self)@ == (StateView {
                options: Options { submit_on_enter: submit, ..old(self)@.options },
                ..old(self)@
            }),
            final(cx)@ == old(cx)@.ask(Effect::Notify),
    {
        self.options.submit_on_enter = submit;
        cx.notify();
    }

    /// Sets whether white space is shown.
    pub fn show_whitespaces(self, show: bool) -> (state: Self)
        ensures
            state@ == (StateView {
                options: Options { show_whitespaces: show, ..self@.options },
                ..self@
            }),
    {
        let mut state = self;
        state.options.show_whitespaces = show;
        state
    }

    pub fn set_show_whitespaces(&mut self, show: bool, cx: &mut Context)
        ensures
            final(self)@ == (StateView {
                options: Options { show_whitespaces: show, ..old(self)@.options },
                ..old(self)@
            }),
            final(cx)@ == old(cx)@.ask(Effect::Notify),
    {
        self.options.show_whitespaces = show;
        cx.notify();
    }

    /// Sets how many empty rows an editor keeps below its last line.
    pub fn scroll_beyond_last_line(self, rows: Option<usize>) -> (state: Self)
        ensures
            state@ == (StateView {
                options: Options { scroll_beyond_last_line: rows, ..self@.options },
                ..self@
            }),
    {
        let mut state = self;
        state.options.scroll_beyond_last_line = rows;
        state
    }

    pub fn set_scroll_beyond_last_line(&mut self, rows: Option<usize>, cx: &mut Context)
        ensures
            old(self)@.options.scroll_beyond_last_line == rows ==> final(self)@ == old(self)@
                && final(cx)@ == old(cx)@,
            !(old(self)@.options.scroll_beyond_last_line == rows) ==> {
                &&& final(self)@ == (StateView {
                        options: Options { scroll_beyond_last_line: rows, ..old(self)@.options },
                        ..old(self)@
                    })
                &&& final(cx)@ == old(cx)@.ask(Effect::Notify)
            },
    {
        if self.options.scroll_beyond_last_line == rows {
            return;
        }
        self.options.scroll_beyond_last_line = rows;
        cx.notify();
    }

    /// Sets how many lines are kept between the cursor and the edge of the view.
    pub fn cursor_surrounding_lines(self, lines: Option<usize>) -> (state: Self)
        ensures
            state@ == (StateView {
                options: Options { cursor_surrounding_lines: lines, ..self@.options },
                ..self@
            }),
    {
        let mut state = self;
        state.options.cursor_surrounding_lines = lines;
        state
    }

    pub fn set_cursor_surrounding_lines(&mut self, lines: Option<usize>, cx: &mut Context)
        ensures
            old(self)@.options.cursor_surrounding_lines == lines ==> final(self)@ == old(self)@
                && final(cx)@ == old(cx)@,
            !(old(self)@.options.cursor_surrounding_lines == lines) ==> {
                &&& final(self)@ == (StateView {
                        options: Options { cursor_surrounding_lines: lines, ..old(self)@.options },
                        ..old(self)@
                    })
                &&& final(cx)@ == old(cx)@.ask(Effect::Notify)
            },
    {
        if self.options.cursor_surrounding_lines == lines {
            return;
        }
        self.options.cursor_surrounding_lines = lines;
        cx.notify();
    }

    /// Lets the next paint highlight the text and refresh the language features.
    pub fn refresh(&mut self, cx: &mut Context)
        ensures
            final(self)@ == (StateView {
                session: Session { pending_update: true, ..old(self)@.session },
                ..old(self)@
            }),
            final(cx)@ == old(cx)@.ask(Effect::Notify),
    {
        self.session.pending_update = true;
        cx.notify();
    }

    /// Nothing is left to prepare: the state is configured where it is built.
    pub fn prepare(&self)
    {
    }

    /// Sets the mask that formats the text.
    ///
    /// In a pattern, `9` is a digit or a dot, `A` a letter, `*` any `char`, and
    /// every other `char` stands for itself, e.g. `(999)999-999`. A pattern
    /// also gives the placeholder.
    pub fn mask_pattern(self, pattern: MaskPattern) -> (state: Self)
        ensures
            state@ == self@.with_mask(pattern@),
    {
        let mut state = self;
        state.put_mask(pattern);
        state
    }

    /// Sets the mask that formats the text.
    pub fn set_mask_pattern(&mut self, pattern: MaskPattern, cx: &mut Context)
        ensures
            final(self)@ == old(self)@.with_mask(pattern@),
            final(cx)@ == old(cx)@.ask(Effect::Notify),
    {
        self.put_mask(pattern);
        cx.notify();
    }

    fn put_mask(&mut self, pattern: MaskPattern)
        ensures
            final(self)@ == old(self)@.with_mask(pattern@),
    {
        if let Some(placeholder) = pattern.placeholder() {
            self.placeholder = placeholder;
        }
        self.mask_pattern = pattern;
        self.mask_pattern_set = true;
    }

    /// Makes the input one for numbers, unless a mask was chosen explicitly.
    pub fn ensure_number_mask(&mut self)
        ensures
            final(self)@ == old(self)@.for_numbers(),
    {
        if self.mask_pattern_set {
            return;
        }
        self.mask_pattern = MaskPattern::Number { separator: None, fraction: None };
    }

    /// Where the cursor was painted, and the height of its line.
    pub fn cursor_layout(&self) -> (r: Option<(PixelBounds, u32)>)
        ensures
            r == match self@.geometry.layout {
                Some(layout) => match layout.cursor_bounds {
                    Some(bounds) => Some((bounds, layout.line_height)),
                    None => None,
                },
                None => None,
            },
    {
        match self.geometry.layout {
            Some(layout) => match layout.cursor_bounds {
                Some(bounds) => Some((bounds, layout.line_height)),
                None => None,
            },
            None => None,
        }
    }

    pub fn input_bounds(&self) -> (r: PixelBounds)
        ensures
            r == self@.geometry.input_bounds,
    {
        self.geometry.input_bounds
    }

    pub fn text_bounds(&self) -> (r: Option<PixelBounds>)
        ensures
            r == self@.geometry.text_bounds,
    {
        self.geometry.text_bounds
    }

    /// The rows that were visible at the last paint.
    pub fn visible_row_range(&self) -> (r: Option<Range<usize>>)
        ensures
            match r {
                Some(range) => {
                    &&& self@.geometry.layout is Some
                    &&& range.start == self@.geometry.layout->0.visible_range.start
                    &&& range.end == self@.geometry.layout->0.visible_range.end
                },
                None => self@.geometry.layout is None,
            },
    {
        match self.geometry.layout {
            Some(layout) => Some(layout.visible_range.start..layout.visible_range.end),
            None => None,
        }
    }

    /// The height of a line at the last paint.
    pub fn line_height(&self) -> (r: Option<u32>)
        ensures
            r == match self@.geometry.layout {
                Some(layout) => Some(layout.line_height),
                None => None,
            },
    {
        match self.geometry.layout {
            Some(layout) => Some(layout.line_height),
            None => None,
        }
    }

    pub fn scroll_offset(&self) -> (r: PixelPoint)
        ensures
            r == self@.session.scroll_offset,
    {
        self.session.scroll_offset
    }

    /// Scrolls to an offset at the next layout.
    pub fn set_scroll_offset(&mut self, offset: PixelPoint, cx: &mut Context)
        ensures
            final(self)@ == (StateView {
                session: Session { deferred_scroll_offset: Some(offset), ..old(self)@.session },
                ..old(self)@
            }),
            final(cx)@ == old(cx)@.ask(Effect::Notify),
    {
        self.session.deferred_scroll_offset = Some(offset);
        cx.notify();
    }

    /// Takes in where the input was painted. Where its width has changed and
    /// something was laid out, the lines are wrapped again.
    pub fn set_input_bounds(
        &mut self,
        new_bounds: PixelBounds,
        wrap_width_changed: bool,
        cx: &mut Context,
    )
        ensures
            final(self)@ == (StateView {
                geometry: Geometry { input_bounds: new_bounds, ..old(self)@.geometry },
                ..old(self)@
            }),
            final(cx)@ == if old(self)@.geometry.layout is Some && wrap_width_changed {
                old(cx)@.ask(Effect::Rewrap { wrap: old(self)@.options.soft_wrap }).ask_if(
                    old(self)@.multi_line,
                    Effect::UpdateAutoGrow,
                ).ask(Effect::Notify)
            } else {
                old(cx)@
            },
    {
        self.geometry.input_bounds = new_bounds;
        if self.geometry.layout.is_some() && wrap_width_changed {
            cx.request(Effect::Rewrap { wrap: self.options.soft_wrap });
            if self.is_multi_line() {
                cx.request(Effect::UpdateAutoGrow);
            }
            cx.notify();
        }
    }

    /// Takes in what the last paint laid out.
    pub fn set_layout(&mut self, layout: Option<LayoutInfo>, text_bounds: Option<PixelBounds>)
        ensures
            final(self)@ == (StateView {
                geometry: Geometry { layout, text_bounds, ..old(self)@.geometry },
                ..old(self)@
            }),
    {
        self.geometry.layout = layout;
        self.geometry.text_bounds = text_bounds;
    }

    /// Takes in where the lines are wrapped.
    pub fn set_wrapped_lines(&mut self, wrapped: Vec<Vec<Selection>>)
        ensures
            final(self)@ == (StateView {
                display: DisplayView {
                    wrapped: wrapped@.map_values(|w: Vec<Selection>| w@),
                    ..old(self)@.display
                },
                ..old(self)@
            }),
    {
        self.display_map.set_wrapped_lines(wrapped);
    }

    /// Fits an automatically growing input to a text of `rows` rows.
    pub fn update_auto_grow(&mut self, rows: usize)
        ensures
            final(self)@ == (StateView { mode: old(self)@.mode.grown(rows), ..old(self)@ }),
    {
        self.mode.update_auto_grow(rows);
    }

    /// Gets ready for a paint: what was put off until now is asked for.
    pub fn before_render(&mut self, cx: &mut Context)
        ensures
            final(self)@ == (StateView {
                session: Session { pending_update: false, ..old(self)@.session },
                ..old(self)@
            }),
            final(cx)@ == old(cx)@.ask_if(old(self)@.session.pending_update, Effect::Highlight),
    {
        if self.session.pending_update {
            cx.request(Effect::Highlight);
            self.session.pending_update = false;
        }
    }
}

/// Single-line inputs.
impl InputBaseState<InputMode> {
    /// Builds a single-line input.
    pub fn new() -> (state: Self)
        ensures
            state@ == StateView::initial(false, false),
    {
        proof {
            lemma_kinds();
        }
        Self::new_in_mode()
    }

    /// Sets a function of the application, known by a number, that says how far to step.
    pub fn step_by(self, function: u64) -> (state: Self)
        ensures
            state@ == (StateView {
                options: Options {
                    number_step: Some(NumberStep::ByValue(function)),
                    ..self@.options
                },
                ..self@
            }),
    {
        let mut state = self;
        state.options.number_step = Some(NumberStep::ByValue(function));
        state
    }

    /// Sets whether the text is hidden like a password.
    pub fn masked(self, masked: bool) -> (state: Self)
        ensures
            state@ == (StateView { options: Options { masked, ..self@.options }, ..self@ }),
    {
        let mut state = self;
        state.options.masked = masked;
        state
    }

    pub fn set_masked(&mut self, masked: bool, cx: &mut Context)
        ensures
            final(self)@ == (StateView {
                options: Options { masked, ..old(self)@.options },
                ..old(self)@
            }),
            final(cx)@ == old(cx)@.ask(Effect::Notify),
    {
        self.options.masked = masked;
        cx.notify();
    }

    /// Sets the regular expression that the text has to match.
    pub fn pattern(self, pattern: Pattern) -> (state: Self)
        ensures
            state@ == (StateView { pattern: Some(pattern@), ..self@ }),
    {
        let mut state = self;
        state.pattern = Some(pattern);
        state
    }

    pub fn set_pattern(&mut self, pattern: Pattern)
        ensures
            final(self)@ == (StateView { pattern: Some(pattern@), ..old(self)@ }),
    {
        self.pattern = Some(pattern);
    }

    /// Sets a check of the text.
    pub fn validate(self, validate: Box<dyn InputValidator>) -> (state: Self)
        ensures
            state@ == (StateView { validate: Some(validate), ..self@ }),
    {
        let mut state = self;
        state.validate = Some(validate);
        state
    }

    pub fn set_validator(&mut self, validate: Box<dyn InputValidator>)
        ensures
            final(self)@ == (StateView { validate: Some(validate), ..old(self)@ }),
    {
        self.validate = Some(validate);
    }

    /// Sets how far a number input steps.
    pub fn step(self, step: NumberStep) -> (state: Self)
        ensures
            state@ == (StateView {
                options: Options { number_step: Some(step), ..self@.options },
                ..self@
            }),
    {
        let mut state = self;
        state.options.number_step = Some(step);
        state
    }

    /// Sets the smallest number. The value is brought up to it when the input loses the focus.
    pub fn min(self, min: Number) -> (state: Self)
        ensures
            state@ == (StateView {
                options: Options { number_min: Some(min), ..self@.options },
                ..self@
            }),
    {
        let mut state = self;
        state.options.number_min = Some(min);
        state
    }

    /// Sets the largest number. The value is brought down to it when the input loses the focus.
    pub fn max(self, max: Number) -> (state: Self)
        ensures
            state@ == (StateView {
                options: Options { number_max: Some(max), ..self@.options },
                ..self@
            }),
    {
        let mut state = self;
        state.options.number_max = Some(max);
        state
    }

    pub fn set_step(&mut self, step: Option<NumberStep>)
        ensures
            final(self)@ == (StateView {
                options: Options { number_step: step, ..old(self)@.options },
                ..old(self)@
            }),
    {
        self.options.number_step = step;
    }

    pub fn set_min(&mut self, min: Option<Number>)
        ensures
            final(self)@ == (StateView {
                options: Options { number_min: min, ..old(self)@.options },
                ..old(self)@
            }),
    {
        self.options.number_min = min;
    }

    pub fn set_max(&mut self, max: Option<Number>)
        ensures
            final(self)@ == (StateView {
                options: Options { number_max: max, ..old(self)@.options },
                ..old(self)@
            }),
    {
        self.options.number_max = max;
    }

    /// Sets whether a spinner is shown.
    pub fn set_loading(&mut self, loading: bool, cx: &mut Context)
        ensures
            final(self)@ == (StateView {
                options: Options { loading, ..old(self)@.options },
                ..old(self)@
            }),
            final(cx)@ == old(cx)@.ask(Effect::Notify),
    {
        self.options.loading = loading;
        cx.notify();
    }
}

/// Inputs of more than one line.
impl<M: MultiLineMode> InputBaseState<M> {
    /// Sets whether the text can be searched.
    pub fn searchable(self, searchable: bool) -> (state: Self)
        ensures
            state@ == (StateView { options: Options { searchable, ..self@.options }, ..self@ }),
    {
        let mut state = self;
        state.options.searchable = searchable;
        state
    }

    pub fn set_searchable(&mut self, searchable: bool, cx: &mut Context)
        ensures
            final(self)@ == (StateView {
                options: Options { searchable, ..old(self)@.options },
                ..old(self)@
            }),
            final(cx)@ == old(cx)@.ask(Effect::Notify),
    {
        self.options.searchable = searchable;
        cx.notify();
    }

    /// Sets whether long lines are wrapped.
    pub fn soft_wrap(self, wrap: bool) -> (state: Self)
        ensures
            state@ == (StateView {
                options: Options { soft_wrap: wrap, ..self@.options },
                ..self@
            }),
    {
        let mut state = self;
        state.options.soft_wrap = wrap;
        state
    }

    fn put_soft_wrap(&mut self, wrap: bool)
        ensures
            final(self)@ == (StateView {
                options: Options { soft_wrap: wrap, ..old(self)@.options },
                ..old(self)@
            }),
    {
        self.options.soft_wrap = wrap;
    }

    /// Sets whether long lines are wrapped. Wrapped text is scrolled back to its left edge.
    pub fn set_soft_wrap(&mut self, wrap: bool, cx: &mut Context)
        ensures
            final(self)@ == old(self)@.wrapping(wrap),
            final(cx)@ == old(cx)@.ask(Effect::Rewrap { wrap }).ask(Effect::Notify),
    {
        self.put_soft_wrap(wrap);
        cx.request(Effect::Rewrap { wrap });
        if wrap {
            let offset = PixelPoint { x: 0, y: self.session.scroll_offset.y };
            self.scroll_by(offset, self.session.deferred_scroll_offset);
        }
        cx.notify();
    }

    /// Sets how wrapped lines are indented.
    pub fn wrapping_indent(self, wrapping_indent: WrappingIndent) -> (state: Self)
        ensures
            state@ == (StateView {
                options: Options { wrapping_indent, ..self@.options },
                ..self@
            }),
    {
        let mut state = self;
        state.options.wrapping_indent = wrapping_indent;
        state
    }

    pub fn set_wrapping_indent(&mut self, wrapping_indent: WrappingIndent, cx: &mut Context)
        ensures
            final(self)@ == (StateView {
                options: Options { wrapping_indent, ..old(self)@.options },
                display: DisplayView { wrapping_indent, ..old(self)@.display },
                ..old(self)@
            }),
            final(cx)@ == old(cx)@.ask(Effect::ReindentWraps).ask(Effect::Notify),
    {
        self.options.wrapping_indent = wrapping_indent;
        self.display_map.set_wrapping_indent(wrapping_indent);
        cx.request(Effect::ReindentWraps);
        cx.notify();
    }
}

/// Ordinary multi-line text.
impl InputBaseState<TextareaMode> {
    /// Builds a multi-line input.
    pub fn new() -> (state: Self)
        ensures
            state@ == StateView::initial(true, false),
    {
        proof {
            lemma_kinds();
        }
        Self::new_in_mode()
    }

    /// Lets the input grow with its text, from `min_rows` to `max_rows`, and at least to
    /// `min_rows`.
    pub fn set_auto_grow(&mut self, min_rows: usize, max_rows: usize, cx: &mut Context)
        ensures
            final(self)@ == old(self)@.growing(min_rows, max_rows),
            final(cx)@ == old(cx)@.ask(Effect::Notify),
    {
        let max_rows: usize = if max_rows < min_rows {
            min_rows
        } else {
            max_rows
        };
        self.mode = LayoutMode::auto_grow(min_rows, max_rows);
        cx.notify();
    }

    /// Sets the number of rows.
    pub fn rows(self, rows: usize) -> (state: Self)
        ensures
            state@ == (StateView { mode: self@.mode.with_rows(rows), ..self@ }),
    {
        let mut state = self;
        state.mode.set_rows(rows);
        state
    }

    pub fn set_rows(&mut self, rows: usize, cx: &mut Context)
        ensures
            final(self)@ == (StateView { mode: old(self)@.mode.with_rows(rows), ..old(self)@ }),
            final(cx)@ == old(cx)@.ask(Effect::Notify),
    {
        self.mode.set_rows(rows);
        cx.notify();
    }

    /// Lets the input grow with its text, from `min_rows` to `max_rows`.
    pub fn auto_grow(self, min_rows: usize, max_rows: usize) -> (state: Self)
        ensures
            state@ == (StateView {
                mode: LayoutView::AutoGrow { rows: min_rows, min_rows, max_rows },
                ..self@
            }),
    {
        let mut state = self;
        state.mode = LayoutMode::auto_grow(min_rows, max_rows);
        state
    }
}

/// Source-code editors.
impl InputBaseState<EditorMode> {
    /// Builds an editor. It shows line numbers, indents by two spaces, and can be searched.
    pub fn new() -> (state: Self)
        ensures
            state@ == (StateView {
                mode: LayoutView::code(),
                options: Options { searchable: true, ..Options::initial() },
                ..StateView::initial(true, true)
            }),
    {
        proof {
            lemma_kinds();
        }
        let mut state = Self::new_in_mode();
        state.mode = LayoutMode::code_editor();
        state.options.searchable = true;
        state
    }

    /// Sets the language to highlight, e.g. `"rust"`.
    pub fn language(self, language: &str) -> (state: Self)
        ensures
            state@ == (StateView { mode: self@.mode.with_language(language@), ..self@ }),
    {
        let mut state = self;
        state.mode.set_language(language);
        state
    }

    /// Sets whether code can be folded.
    pub fn folding(self, folding: bool) -> (state: Self)
        ensures
            state@ == (StateView { mode: self@.mode.with_folding(folding), ..self@ }),
    {
        let mut state = self;
        state.mode.set_folding(folding);
        state
    }

    /// Sets whether code can be folded. All folds are opened where it cannot.
    pub fn set_folding(&mut self, folding: bool, cx: &mut Context)
        ensures
            final(self)@ == old(self)@.folding(folding),
            final(cx)@ == old(cx)@.ask(Effect::Notify),
    {
        self.mode.set_folding(folding);
        if !folding {
            self.display_map.clear_folds();
        }
        cx.notify();
    }

    /// Sets whether line numbers are shown.
    pub fn line_number(self, line_number: bool) -> (state: Self)
        ensures
            state@ == (StateView { mode: self@.mode.with_line_number(line_number), ..self@ }),
    {
        let mut state = self;
        state.mode.set_line_number(line_number);
        state
    }

    pub fn set_line_number(&mut self, line_number: bool, cx: &mut Context)
        ensures
            final(self)@ == (StateView {
                mode: old(self)@.mode.with_line_number(line_number),
                ..old(self)@
            }),
            final(cx)@ == old(cx)@.ask(Effect::Notify),
    {
        self.mode.set_line_number(line_number);
        cx.notify();
    }
}

impl StateView {
    /// The state with a mask for numbers, unless a mask was chosen explicitly.
    pub open spec fn for_numbers(self) -> StateView {
        StateView {
            mask: if self.mask_set {
                self.mask
            } else {
                MaskView::Number { separator: None, fraction: None }
            },
            ..self
        }
    }

    /// The state in which long lines are wrapped, or are not. Wrapped text is
    /// scrolled back to its left edge.
    pub open spec fn wrapping(self, wrap: bool) -> StateView {
        StateView {
            options: Options { soft_wrap: wrap, ..self.options },
            session: Session {
                scroll_offset: PixelPoint {
                    x: if wrap {
                        0
                    } else {
                        self.session.scroll_offset.x
                    },
                    y: self.session.scroll_offset.y,
                },
                ..self.session
            },
            ..self
        }
    }

    /// The state that grows with its text, from `min_rows` to `max_rows`, and at least to
    /// `min_rows`.
    pub open spec fn growing(self, min_rows: usize, max_rows: usize) -> StateView {
        StateView {
            mode: LayoutView::AutoGrow {
                rows: min_rows,
                min_rows,
                max_rows: if max_rows < min_rows {
                    min_rows
                } else {
                    max_rows
                },
            },
            ..self
        }
    }

    /// The state in which code can be folded, or cannot. All folds are opened where it cannot.
    pub open spec fn folding(self, folding: bool) -> StateView {
        StateView {
            mode: self.mode.with_folding(folding),
            display: if folding {
                self.display
            } else {
                DisplayView { folds: Seq::empty(), ..self.display }
            },
            ..self
        }
    }
}

} // verus!
