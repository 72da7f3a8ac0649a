//! How an input is laid out, and what only a source-code editor keeps.
use crate::selection::Selection;
use vstd::prelude::*;

verus! {

/// A diagnostic about a range of the text.
pub struct DiagnosticEntry {
    pub range: Selection,
    pub message: String,
}

pub struct DiagnosticView {
    pub range: Selection,
    pub message: Seq<char>,
}

impl View for DiagnosticEntry {
    type V = DiagnosticView;

    open spec fn view(&self) -> DiagnosticView {
        DiagnosticView { range: self.range, message: self.message@ }
    }
}

impl Clone for DiagnosticEntry {
    fn clone(&self) -> (d: Self)
        ensures
            d@ == self@,
    {
        DiagnosticEntry { range: self.range, message: self.message.as_str().to_owned() }
    }
}

/// The diagnostics of a text.
pub struct DiagnosticSet {
    pub entries: Vec<DiagnosticEntry>,
}

impl View for DiagnosticSet {
    type V = Seq<DiagnosticView>;

    open spec fn view(&self) -> Seq<DiagnosticView> {
        self.entries@.map_values(|d: DiagnosticEntry| d@)
    }
}

/// The index of the first diagnostic whose range holds `offset`; their number when none does.
pub open spec fn diagnostic_at(entries: Seq<DiagnosticView>, offset: int) -> int
    decreases entries.len(),
{
    if entries.len() == 0 || entries[0].range.holds(offset) {
        0
    } else {
        1 + diagnostic_at(entries.skip(1), offset)
    }
}

impl DiagnosticSet {
    pub fn new() -> (set: DiagnosticSet)
        ensures
            set@ == Seq::<DiagnosticView>::empty(),
    {
        let set = DiagnosticSet { entries: Vec::new() };
        assert(set@ =~= Seq::<DiagnosticView>::empty());
        set
    }

    /// Forgets all diagnostics: they spoke of another text.
    pub fn reset(&mut self)
        ensures
            final(self)@ == Seq::<DiagnosticView>::empty(),
    {
        self.entries = Vec::new();
        assert(self@ =~= Seq::<DiagnosticView>::empty());
    }

    pub fn push(&mut self, entry: DiagnosticEntry)
        ensures
            final(self)@ == old(self)@.push(entry@),
    {
        self.entries.push(entry);
        assert(self@ =~= old(self)@.push(entry@));
    }

    /// The first diagnostic whose range holds `offset`.
    pub fn for_offset(&self, offset: usize) -> (d: Option<&DiagnosticEntry>)
        ensures
            ({
                let k = diagnostic_at(self@, offset as int);
                match d {
                    Some(entry) => 0 <= k < self@.len() && entry@ == self@[k],
                    None => k == self@.len(),
                }
            }),
    {
        let mut i: usize = 0;
        assert(self@.skip(0) =~= self@);
        while i < self.entries.len()
            invariant
                i <= self.entries.len(),
                diagnostic_at(self@, offset as int) == i + diagnostic_at(
                    self@.skip(i as int),
                    offset as int,
                ),
            decreases self.entries.len() - i,
        {
            assert(self@.skip(i as int)[0] == self.entries@[i as int]@);
            if self.entries[i].range.contains(offset) {
                return Some(&self.entries[i]);
            }
            assert(self@.skip(i as int).skip(1) =~= self@.skip(i as int + 1));
            i = i + 1;
        }
        None
    }
}

/// The parts of a layout that only a source-code editor has.
pub struct EditorLayout {
    pub language: String,
    pub line_number: bool,
    pub folding: bool,
    pub indent_guides: bool,
    pub tab_size: usize,
    pub hard_tabs: bool,
    /// Whether the text is parsed by a highlighter for the current language.
    pub highlighter_ready: bool,
    /// The adapter that makes highlighters, by the number the application gave it.
    pub highlighter_factory: Option<u64>,
    pub diagnostics: DiagnosticSet,
}

pub struct EditorLayoutView {
    pub language: Seq<char>,
    pub line_number: bool,
    pub folding: bool,
    pub indent_guides: bool,
    pub tab_size: usize,
    pub hard_tabs: bool,
    pub highlighter_ready: bool,
    pub highlighter_factory: Option<u64>,
    pub diagnostics: Seq<DiagnosticView>,
}

impl View for EditorLayout {
    type V = EditorLayoutView;

    open spec fn view(&self) -> EditorLayoutView {
        EditorLayoutView {
            language: self.language@,
            line_number: self.line_number,
            folding: self.folding,
            indent_guides: self.indent_guides,
            tab_size: self.tab_size,
            hard_tabs: self.hard_tabs,
            highlighter_ready: self.highlighter_ready,
            highlighter_factory: self.highlighter_factory,
            diagnostics: self.diagnostics@,
        }
    }
}

/// How many rows an input takes, and how it grows.
pub enum LayoutMode {
    PlainText { rows: usize },
    AutoGrow { rows: usize, min_rows: usize, max_rows: usize },
    CodeEditor { rows: usize, editor: EditorLayout },
}

pub enum LayoutView {
    PlainText { rows: usize },
    AutoGrow { rows: usize, min_rows: usize, max_rows: usize },
    CodeEditor { rows: usize, editor: EditorLayoutView },
}

impl View for LayoutMode {
    type V = LayoutView;

    open spec fn view(&self) -> LayoutView {
        match *self {
            LayoutMode::PlainText { rows } => LayoutView::PlainText { rows },
            LayoutMode::AutoGrow { rows, min_rows, max_rows } => LayoutView::AutoGrow {
                rows,
                min_rows,
                max_rows,
            },
            LayoutMode::CodeEditor { rows, editor } => LayoutView::CodeEditor {
                rows,
                editor: editor@,
            },
        }
    }
}

/// `n`, but not under `low` and, above all, not over `high`.
pub open spec fn bounded(n: usize, low: usize, high: usize) -> usize {
    let m = if n < low {
        low
    } else {
        n
    };
    if m > high {
        high
    } else {
        m
    }
}

impl LayoutView {
    pub open spec fn plain() -> LayoutView {
        LayoutView::PlainText { rows: 2 }
    }

    pub open spec fn code() -> LayoutView {
        LayoutView::CodeEditor {
            rows: 2,
            editor: EditorLayoutView {
                language: Seq::empty(),
                line_number: true,
                folding: true,
                indent_guides: true,
                tab_size: 2,
                hard_tabs: false,
                highlighter_ready: false,
                highlighter_factory: None,
                diagnostics: Seq::empty(),
            },
        }
    }

    pub open spec fn folds(self) -> bool {
        self matches LayoutView::CodeEditor { editor, .. } && editor.folding
    }

    /// The layout with `rows` rows. One that grows does not grow beyond them.
    pub open spec fn with_rows(self, rows: usize) -> LayoutView {
        match self {
            LayoutView::PlainText { .. } => LayoutView::PlainText { rows },
            LayoutView::AutoGrow { min_rows, .. } => LayoutView::AutoGrow {
                rows,
                min_rows,
                max_rows: rows,
            },
            LayoutView::CodeEditor { editor, .. } => LayoutView::CodeEditor { rows, editor },
        }
    }

    /// The layout of a text that takes `rows` rows.
    pub open spec fn grown(self, rows: usize) -> LayoutView {
        match self {
            LayoutView::AutoGrow { min_rows, max_rows, .. } => LayoutView::AutoGrow {
                rows: bounded(rows, min_rows, max_rows),
                min_rows,
                max_rows,
            },
            _ => self,
        }
    }

    /// The layout with another editor part, where it has one.
    pub open spec fn with_editor(self, editor: EditorLayoutView) -> LayoutView {
        match self {
            LayoutView::CodeEditor { rows, .. } => LayoutView::CodeEditor { rows, editor },
            _ => self,
        }
    }

    /// The layout after its text was replaced: the diagnostics spoke of another text.
    pub open spec fn without_diagnostics(self) -> LayoutView {
        match self {
            LayoutView::CodeEditor { rows, editor } => LayoutView::CodeEditor {
                rows,
                editor: EditorLayoutView { diagnostics: Seq::empty(), ..editor },
            },
            _ => self,
        }
    }

    /// The layout with another language, to be parsed anew.
    pub open spec fn with_language(self, language: Seq<char>) -> LayoutView {
        match self {
            LayoutView::CodeEditor { rows, editor } => LayoutView::CodeEditor {
                rows,
                editor: EditorLayoutView { language, highlighter_ready: false, ..editor },
            },
            _ => self,
        }
    }

    /// The layout with its text to be parsed anew.
    pub open spec fn unparsed(self) -> LayoutView {
        match self {
            LayoutView::CodeEditor { rows, editor } => LayoutView::CodeEditor {
                rows,
                editor: EditorLayoutView { highlighter_ready: false, ..editor },
            },
            _ => self,
        }
    }

    pub open spec fn with_folding(self, folding: bool) -> LayoutView {
        match self {
            LayoutView::CodeEditor { rows, editor } => LayoutView::CodeEditor {
                rows,
                editor: EditorLayoutView { folding, ..editor },
            },
            _ => self,
        }
    }

    pub open spec fn with_line_number(self, line_number: bool) -> LayoutView {
        match self {
            LayoutView::CodeEditor { rows, editor } => LayoutView::CodeEditor {
                rows,
                editor: EditorLayoutView { line_number, ..editor },
            },
            _ => self,
        }
    }

    pub open spec fn with_factory(self, factory: Option<u64>) -> LayoutView {
        match self {
            LayoutView::CodeEditor { rows, editor } => LayoutView::CodeEditor {
                rows,
                editor: EditorLayoutView { highlighter_factory: factory, ..editor },
            },
            _ => self,
        }
    }

    pub open spec fn diagnostics(self) -> Option<Seq<DiagnosticView>> {
        match self {
            LayoutView::CodeEditor { editor, .. } => Some(editor.diagnostics),
            _ => None,
        }
    }
}

impl LayoutMode {
    /// Growing with the text, from `min_rows` to `max_rows`.
    pub fn auto_grow(min_rows: usize, max_rows: usize) -> (mode: LayoutMode)
        ensures
            mode@ == (LayoutView::AutoGrow { rows: min_rows, min_rows, max_rows }),
    {
        LayoutMode::AutoGrow { rows: min_rows, min_rows, max_rows }
    }

    pub fn code_editor() -> (mode: LayoutMode)
        ensures
            mode@ == LayoutView::code(),
    {
        let mode = LayoutMode::CodeEditor {
            rows: 2,
            editor: EditorLayout {
                language: String::new(),
                line_number: true,
                folding: true,
                indent_guides: true,
                tab_size: 2,
                hard_tabs: false,
                highlighter_ready: false,
                highlighter_factory: None,
                diagnostics: DiagnosticSet::new(),
            },
        };
        assert(mode@->editor.language =~= Seq::<char>::empty());
        mode
    }

    pub fn is_auto_grow(&self) -> (r: bool)
        ensures
            r == (self@ is AutoGrow),
    {
        match self {
            LayoutMode::AutoGrow { .. } => true,
            _ => false,
        }
    }

    pub fn is_folding(&self) -> (r: bool)
        ensures
            r == self@.folds(),
    {
        match self {
            LayoutMode::CodeEditor { editor, .. } => editor.folding,
            _ => false,
        }
    }

    pub fn set_rows(&mut self, rows: usize)
        ensures
            final(self)@ == old(self)@.with_rows(rows),
    {
        match self {
            LayoutMode::PlainText { rows: r } => {
                *r = rows;
            },
            LayoutMode::AutoGrow { rows: r, max_rows, .. } => {
                *r = rows;
                *max_rows = rows;
            },
            LayoutMode::CodeEditor { rows: r, .. } => {
                *r = rows;
            },
        }
    }

    /// Fits an automatically growing layout to a text of `rows` rows.
    pub fn update_auto_grow(&mut self, rows: usize)
        ensures
            final(self)@ == old(self)@.grown(rows),
    {
        match self {
            LayoutMode::AutoGrow { rows: r, min_rows, max_rows } => {
                let mut n: usize = rows;
                if n < *min_rows {
                    n = *min_rows;
                }
                if n > *max_rows {
                    n = *max_rows;
                }
                *r = n;
            },
            _ => {},
        }
    }

    pub fn diagnostics(&self) -> (set: Option<&DiagnosticSet>)
        ensures
            match set {
                Some(d) => self@.diagnostics() == Some(d@),
                None => self@.diagnostics() is None,
            },
    {
        match self {
            LayoutMode::CodeEditor { editor, .. } => Some(&editor.diagnostics),
            _ => None,
        }
    }

    pub fn diagnostics_mut(&mut self) -> (set: Option<&mut DiagnosticSet>)
        ensures
            match set {
                Some(d) => {
                    &&& old(self)@ is CodeEditor
                    &&& d@ == old(self)@->editor.diagnostics
                    &&& final(self)@ == old(self)@.with_editor(
                        EditorLayoutView { diagnostics: final(d)@, ..old(self)@->editor },
                    )
                },
                None => !(old(self)@ is CodeEditor) && *final(self) == *old(self),
            },
    {
        match self {
            LayoutMode::CodeEditor { editor, .. } => Some(&mut editor.diagnostics),
            _ => None,
        }
    }

    pub fn reset_diagnostics(&mut self)
        ensures
            final(self)@ == old(self)@.without_diagnostics(),
    {
        match self {
            LayoutMode::CodeEditor { editor, .. } => {
                editor.diagnostics.reset();
            },
            _ => {},
        }
    }

    pub fn set_language(&mut self, language: &str)
        ensures
            final(self)@ == old(self)@.with_language(language@),
    {
        match self {
            LayoutMode::CodeEditor { editor, .. } => {
                editor.language = language.to_owned();
                editor.highlighter_ready = false;
            },
            _ => {},
        }
    }

    pub fn reset_highlighter(&mut self)
        ensures
            final(self)@ == old(self)@.unparsed(),
    {
        match self {
            LayoutMode::CodeEditor { editor, .. } => {
                editor.highlighter_ready = false;
            },
            _ => {},
        }
    }

    pub fn set_folding(&mut self, folding: bool)
        ensures
            final(self)@ == old(self)@.with_folding(folding),
    {
        match self {
            LayoutMode::CodeEditor { editor, .. } => {
                editor.folding = folding;
            },
            _ => {},
        }
    }

    pub fn set_line_number(&mut self, line_number: bool)
        ensures
            final(self)@ == old(self)@.with_line_number(line_number),
    {
        match self {
            LayoutMode::CodeEditor { editor, .. } => {
                editor.line_number = line_number;
            },
            _ => {},
        }
    }

    /// Installs the adapter that makes highlighters.
    pub fn set_highlighter_factory(&mut self, factory: u64)
        ensures
            final(self)@ == old(self)@.with_factory(Some(factory)),
    {
        match self {
            LayoutMode::CodeEditor { editor, .. } => {
                editor.highlighter_factory = Some(factory);
            },
            _ => {},
        }
    }

    /// Installs the adapter that makes highlighters, unless there is one already.
    pub fn ensure_highlighter_factory(&mut self, factory: u64)
        ensures
            final(self)@ == match old(self)@ {
                LayoutView::CodeEditor { editor, .. } => if editor.highlighter_factory is None {
                    old(self)@.with_factory(Some(factory))
                } else {
                    old(self)@
                },
                _ => old(self)@,
            },
    {
        match self {
            LayoutMode::CodeEditor { editor, .. } => {
                if editor.highlighter_factory.is_none() {
                    editor.highlighter_factory = Some(factory);
                }
            },
            _ => {},
        }
    }
}

impl Default for LayoutMode {
    fn default() -> (mode: Self)
        ensures
            mode@ == LayoutView::plain(),
    {
        LayoutMode::PlainText { rows: 2 }
    }
}

} // verus!
