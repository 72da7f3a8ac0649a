//! Blocks of code.
use crate::node::inline::{InlineState, InlineStateView};
use crate::node::marks::{clone_opt, opt_eq, opt_text, Hsla, Span};
use crate::rope::{point_of, Point, TextBuffer};
use crate::strings::{str_eq, str_len};
use crate::text::byte_len;
use core::ops::Range;
use vstd::prelude::*;

verus! {

/// How highlighted code looks. Numbers are held as the bits of `f32` numbers.
#[derive(Clone, Copy, PartialEq, Eq, Structural, Debug)]
pub struct HighlightStyle {
    pub color: Option<Hsla>,
    pub background_color: Option<Hsla>,
    pub font_weight: Option<u32>,
    pub italic: Option<bool>,
    pub underline: bool,
    pub strikethrough: bool,
    pub fade_out: Option<u32>,
}

/// A change of a text that a highlighter is told of.
#[derive(Clone, Copy, PartialEq, Eq, Structural, Debug)]
pub struct InputEdit {
    pub start_byte: usize,
    pub old_end_byte: usize,
    pub new_end_byte: usize,
    pub start_position: Point,
    pub old_end_position: Point,
    pub new_end_position: Point,
}

impl InputEdit {
    /// Whether the change puts the whole of `new` in place of the whole of `old`.
    pub open spec fn replaces_all(self, old_text: Seq<char>, new_text: Seq<char>) -> bool {
        let old_end = point_of(old_text, byte_len(old_text) as int);
        let new_end = point_of(new_text, byte_len(new_text) as int);
        &&& self.start_byte == 0
        &&& self.old_end_byte == byte_len(old_text)
        &&& self.new_end_byte == byte_len(new_text)
        &&& self.start_position == (Point { row: 0, column: 0 })
        &&& (self.old_end_position.row as int, self.old_end_position.column as int) == old_end
        &&& (self.new_end_position.row as int, self.new_end_position.column as int) == new_end
    }
}

/// The styles of a block of code, or the language to highlight it by.
#[derive(Debug)]
pub enum Styles {
    Ready(Vec<(Range<usize>, HighlightStyle)>),
    Wanted(String),
}

/// A block of code.
#[derive(Debug)]
pub struct CodeBlock {
    lang: Option<String>,
    styles: Option<Vec<(Range<usize>, HighlightStyle)>>,
    state: InlineState,
    pub span: Option<Span>,
}

/// What a `CodeBlock` holds, its styles and its selection left out.
pub struct CodeView {
    pub lang: Option<Seq<char>>,
    pub code: Seq<char>,
    pub span: Option<Span>,
}

impl View for CodeBlock {
    type V = CodeView;

    closed spec fn view(&self) -> CodeView {
        CodeView { lang: opt_text(self.lang), code: self.state@.text, span: self.span }
    }
}

fn clone_styles(styles: &Vec<(Range<usize>, HighlightStyle)>) -> (copy: Vec<
    (Range<usize>, HighlightStyle),
>)
    ensures
        copy@ == styles@,
{
    let mut copy: Vec<(Range<usize>, HighlightStyle)> = Vec::new();
    for i in 0..styles.len()
        invariant
            copy@ == styles@.take(i as int),
    {
        copy.push((styles[i].0.start..styles[i].0.end, styles[i].1));
        assert(copy@ =~= styles@.take(i as int + 1));
    }
    assert(styles@.take(styles@.len() as int) =~= styles@);
    copy
}

/// Whether a highlighter that was made for `language` has to be made anew,
/// now that its language is registered under the name `registered`.
pub open spec fn outdated(language: Seq<char>, registered: Option<Seq<char>>) -> bool {
    match registered {
        Some(name) => language != name,
        None => false,
    }
}

pub fn is_outdated(language: &str, registered: &Option<String>) -> (r: bool)
    ensures
        r == outdated(language@, opt_text(*registered)),
{
    match registered {
        Some(name) => !str_eq(language, name.as_str()),
        None => false,
    }
}

impl CodeBlock {
    /// What was painted of the block.
    pub closed spec fn painted(self) -> InlineStateView {
        self.state@
    }

    /// The styles that were worked out.
    pub closed spec fn known_styles(self) -> Option<Seq<(Range<usize>, HighlightStyle)>> {
        match self.styles {
            Some(styles) => Some(styles@),
            None => None,
        }
    }

    pub fn new(code: &str, lang: Option<String>, span: Option<Span>) -> (block: CodeBlock)
        ensures
            block@ == (CodeView { lang: opt_text(lang), code: code@, span }),
            block.painted() == InlineStateView::empty().with_text(code@),
            block.known_styles() is None,
    {
        let mut state = InlineState::default();
        state.set_text(code);
        CodeBlock { lang, styles: None, state, span }
    }

    /// The code is what is painted of the block.
    pub proof fn law_code_is_painted(self)
        ensures
            self@.code == self.painted().text,
    {
    }

    /// The place of the block in its source.
    pub fn source_span(&self) -> (span: Option<Span>)
        ensures
            span == self@.span,
    {
        self.span
    }

    /// The language of the code.
    pub fn lang(&self) -> (lang: Option<String>)
        ensures
            opt_text(lang) == self@.lang,
    {
        clone_opt(&self.lang)
    }

    /// The code.
    pub fn code(&self) -> (code: String)
        ensures
            code@ == self@.code,
    {
        self.state.text.as_str().to_owned()
    }

    /// The code.
    pub fn text(&self) -> (text: String)
        ensures
            text@ == self@.code,
    {
        self.code()
    }

    /// The selected part of the code.
    pub fn selected_text(&self) -> (text: String)
        ensures
            text@ == self.painted().selected(),
    {
        self.state.selected_text()
    }

    /// Selects a part of the code.
    pub fn select(&mut self, selection: crate::selection::Selection)
        ensures
            final(self)@ == old(self)@,
            final(self).known_styles() == old(self).known_styles(),
            final(self).painted() == (InlineStateView {
                selection: Some(selection),
                ..old(self).painted()
            }),
    {
        self.state.selection = Some(selection);
    }

    /// Selects nothing.
    pub fn clear_selection(&mut self)
        ensures
            final(self)@ == old(self)@,
            final(self).known_styles() == old(self).known_styles(),
            final(self).painted() == old(self).painted().unselected(),
    {
        self.state.clear_selection();
    }

    /// The styles of the code. Code of no language has none; other code is
    /// highlighted once.
    pub fn styles(&self) -> (styles: Styles)
        ensures
            match styles {
                Styles::Ready(s) => if self@.lang is None {
                    s@.len() == 0
                } else {
                    self.known_styles() == Some(s@)
                },
                Styles::Wanted(lang) => self@.lang == Some(lang@) && self.known_styles() is None,
            },
    {
        match &self.lang {
            None => Styles::Ready(Vec::new()),
            Some(lang) => match &self.styles {
                Some(styles) => Styles::Ready(clone_styles(styles)),
                None => Styles::Wanted(lang.as_str().to_owned()),
            },
        }
    }

    /// What a highlighter that holds `old_text` is told before it is asked for
    /// the styles of all bytes of the code.
    pub fn highlight_edit(&self, old_text: &str) -> (edit: InputEdit)
        ensures
            edit.replaces_all(old_text@, self@.code),
    {
        let before = TextBuffer::from_str(old_text);
        let old_end_byte = before.len();
        let code = TextBuffer::from_str(self.state.text.as_str());
        let new_end_byte = str_len(self.state.text.as_str());
        InputEdit {
            start_byte: 0,
            old_end_byte,
            new_end_byte,
            start_position: Point { row: 0, column: 0 },
            old_end_position: before.offset_to_point(old_end_byte),
            new_end_position: code.offset_to_point(new_end_byte),
        }
    }

    /// Keeps the styles that were worked out.
    pub fn set_styles(&mut self, styles: Vec<(Range<usize>, HighlightStyle)>)
        ensures
            final(self)@ == old(self)@,
            final(self).painted() == old(self).painted(),
            final(self).known_styles() == Some(styles@),
    {
        self.styles = Some(styles);
    }

    /// Whether the blocks hold the same code.
    pub fn same_as(&self, other: &CodeBlock) -> (r: bool)
        ensures
            r == (self@ == other@),
    {
        opt_eq(&self.lang, &other.lang) && str_eq(
            self.state.text.as_str(),
            other.state.text.as_str(),
        ) && self.span == other.span
    }
}

/// A clone starts with what was painted and selected, and keeps it for itself.
impl Clone for CodeBlock {
    fn clone(&self) -> (block: Self)
        ensures
            block@ == self@,
            block.painted() == self.painted(),
            block.known_styles() == self.known_styles(),
    {
        CodeBlock {
            lang: clone_opt(&self.lang),
            styles: match &self.styles {
                Some(styles) => Some(clone_styles(styles)),
                None => None,
            },
            state: self.state.clone(),
            span: self.span,
        }
    }
}

impl PartialEq for CodeBlock {
    fn eq(&self, other: &Self) -> (r: bool) {
        self.same_as(other)
    }
}

impl vstd::std_specs::cmp::PartialEqSpecImpl for CodeBlock {
    open spec fn obeys_eq_spec() -> bool {
        true
    }

    open spec fn eq_spec(&self, other: &Self) -> bool {
        self@ == other@
    }
}

} // verus!
