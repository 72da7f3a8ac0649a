//! Marks on text: its style, its links and where it stands in its source.
use crate::strings::{decimal, str_eq, usize_to_string};
use vstd::prelude::*;

verus! {

/// A range of bytes of a source text.
#[derive(Clone, Copy, PartialEq, Eq, Structural, Debug)]
pub struct Span {
    pub start: usize,
    pub end: usize,
}

impl Default for Span {
    fn default() -> (s: Self)
        ensures
            s == (Span { start: 0, end: 0 }),
    {
        Span { start: 0, end: 0 }
    }
}

impl Span {
    /// The name of the element that shows the span.
    pub open spec fn name(self) -> Seq<char> {
        "md-"@ + decimal(self.start as nat) + seq![':'] + decimal(self.end as nat)
    }

    /// The name of the element that shows the span.
    pub fn element_id(&self) -> (id: String)
        ensures
            id@ == self.name(),
    {
        let mut id = "md-".to_owned();
        id.append(usize_to_string(self.start).as_str());
        id.push(':');
        id.append(usize_to_string(self.end).as_str());
        assert(id@ =~= self.name());
        id
    }
}

/// A color, its components held as the bits of `f32` numbers. Two colors are
/// the same when all of these bits are.
#[derive(Clone, Copy, PartialEq, Eq, Structural, Debug)]
pub struct Hsla {
    pub h: u32,
    pub s: u32,
    pub l: u32,
    pub a: u32,
}

/// A length, held as the bits of an `f32` number. Two lengths are the same
/// when these bits are.
#[derive(Clone, Copy, PartialEq, Eq, Structural, Debug)]
pub enum DefiniteLength {
    Pixels(u32),
    Rems(u32),
    Fraction(u32),
}

/// What an optional text holds.
pub open spec fn opt_text(text: Option<String>) -> Option<Seq<char>> {
    match text {
        Some(s) => Some(s@),
        None => None,
    }
}

pub fn clone_opt(text: &Option<String>) -> (copy: Option<String>)
    ensures
        opt_text(copy) == opt_text(*text),
{
    match text {
        Some(s) => Some(s.as_str().to_owned()),
        None => None,
    }
}

pub fn opt_eq(a: &Option<String>, b: &Option<String>) -> (r: bool)
    ensures
        r == (opt_text(*a) == opt_text(*b)),
{
    match (a, b) {
        (Some(x), Some(y)) => str_eq(x.as_str(), y.as_str()),
        (None, None) => true,
        _ => false,
    }
}

/// A link.
#[derive(Debug)]
pub struct LinkMark {
    pub url: String,
    /// The name of a definition that the link refers to.
    pub identifier: Option<String>,
    pub title: Option<String>,
}

pub struct LinkView {
    pub url: Seq<char>,
    pub identifier: Option<Seq<char>>,
    pub title: Option<Seq<char>>,
}

impl View for LinkMark {
    type V = LinkView;

    open spec fn view(&self) -> LinkView {
        LinkView {
            url: self.url@,
            identifier: opt_text(self.identifier),
            title: opt_text(self.title),
        }
    }
}

impl LinkMark {
    pub fn new(url: &str) -> (link: LinkMark)
        ensures
            link@ == (LinkView { url: url@, identifier: None, title: None }),
    {
        LinkMark { url: url.to_owned(), identifier: None, title: None }
    }

    pub fn same_as(&self, other: &LinkMark) -> (r: bool)
        ensures
            r == (self@ == other@),
    {
        str_eq(self.url.as_str(), other.url.as_str()) && opt_eq(
            &self.identifier,
            &other.identifier,
        ) && opt_eq(&self.title, &other.title)
    }
}

impl Clone for LinkMark {
    fn clone(&self) -> (link: Self)
        ensures
            link@ == self@,
    {
        LinkMark {
            url: self.url.as_str().to_owned(),
            identifier: clone_opt(&self.identifier),
            title: clone_opt(&self.title),
        }
    }
}

impl PartialEq for LinkMark {
    fn eq(&self, other: &Self) -> (r: bool) {
        self.same_as(other)
    }
}

impl vstd::std_specs::cmp::PartialEqSpecImpl for LinkMark {
    open spec fn obeys_eq_spec() -> bool {
        true
    }

    open spec fn eq_spec(&self, other: &Self) -> bool {
        self@ == other@
    }
}

pub open spec fn opt_link(link: Option<LinkMark>) -> Option<LinkView> {
    match link {
        Some(l) => Some(l@),
        None => None,
    }
}

pub fn clone_opt_link(link: &Option<LinkMark>) -> (copy: Option<LinkMark>)
    ensures
        opt_link(copy) == opt_link(*link),
{
    match link {
        Some(l) => Some(l.clone()),
        None => None,
    }
}

pub fn opt_link_eq(a: &Option<LinkMark>, b: &Option<LinkMark>) -> (r: bool)
    ensures
        r == (opt_link(*a) == opt_link(*b)),
{
    match (a, b) {
        (Some(x), Some(y)) => x.same_as(y),
        (None, None) => true,
        _ => false,
    }
}

/// The style of a piece of text.
#[derive(Debug)]
pub struct TextMark {
    pub bold: bool,
    pub italic: bool,
    pub strikethrough: bool,
    pub underline: bool,
    pub code: bool,
    /// The background of highlighted text.
    pub highlight: Option<Hsla>,
    pub link: Option<LinkMark>,
}

pub struct MarkView {
    pub bold: bool,
    pub italic: bool,
    pub strikethrough: bool,
    pub underline: bool,
    pub code: bool,
    pub highlight: Option<Hsla>,
    pub link: Option<LinkView>,
}

impl View for TextMark {
    type V = MarkView;

    open spec fn view(&self) -> MarkView {
        MarkView {
            bold: self.bold,
            italic: self.italic,
            strikethrough: self.strikethrough,
            underline: self.underline,
            code: self.code,
            highlight: self.highlight,
            link: opt_link(self.link),
        }
    }
}

impl MarkView {
    /// No style.
    pub open spec fn plain() -> MarkView {
        MarkView {
            bold: false,
            italic: false,
            strikethrough: false,
            underline: false,
            code: false,
            highlight: None,
            link: None,
        }
    }

    /// This style and `other`. Where both have a color or a link, that of `other` is taken.
    pub open spec fn merged(self, other: MarkView) -> MarkView {
        MarkView {
            bold: self.bold || other.bold,
            italic: self.italic || other.italic,
            strikethrough: self.strikethrough || other.strikethrough,
            underline: self.underline || other.underline,
            code: self.code || other.code,
            highlight: if other.highlight is Some {
                other.highlight
            } else {
                self.highlight
            },
            link: if other.link is Some {
                other.link
            } else {
                self.link
            },
        }
    }
}

impl Default for TextMark {
    fn default() -> (mark: Self)
        ensures
            mark@ == MarkView::plain(),
    {
        TextMark {
            bold: false,
            italic: false,
            strikethrough: false,
            underline: false,
            code: false,
            highlight: None,
            link: None,
        }
    }
}

impl Clone for TextMark {
    fn clone(&self) -> (mark: Self)
        ensures
            mark@ == self@,
    {
        TextMark {
            bold: self.bold,
            italic: self.italic,
            strikethrough: self.strikethrough,
            underline: self.underline,
            code: self.code,
            highlight: self.highlight,
            link: clone_opt_link(&self.link),
        }
    }
}

impl TextMark {
    pub fn bold(self) -> (mark: Self)
        ensures
            mark@ == (MarkView { bold: true, ..self@ }),
    {
        let mut mark = self;
        mark.bold = true;
        mark
    }

    pub fn italic(self) -> (mark: Self)
        ensures
            mark@ == (MarkView { italic: true, ..self@ }),
    {
        let mut mark = self;
        mark.italic = true;
        mark
    }

    pub fn strikethrough(self) -> (mark: Self)
        ensures
            mark@ == (MarkView { strikethrough: true, ..self@ }),
    {
        let mut mark = self;
        mark.strikethrough = true;
        mark
    }

    pub fn underline(self) -> (mark: Self)
        ensures
            mark@ == (MarkView { underline: true, ..self@ }),
    {
        let mut mark = self;
        mark.underline = true;
        mark
    }

    pub fn code(self) -> (mark: Self)
        ensures
            mark@ == (MarkView { code: true, ..self@ }),
    {
        let mut mark = self;
        mark.code = true;
        mark
    }

    /// Highlights the text with a background.
    pub fn highlight(self, color: Hsla) -> (mark: Self)
        ensures
            mark@ == (MarkView { highlight: Some(color), ..self@ }),
    {
        let mut mark = self;
        mark.highlight = Some(color);
        mark
    }

    pub fn link(self, link: LinkMark) -> (mark: Self)
        ensures
            mark@ == (MarkView { link: Some(link@), ..self@ }),
    {
        let mut mark = self;
        mark.link = Some(link);
        mark
    }

    /// Adds the style of `other`.
    pub fn merge(&mut self, other: TextMark)
        ensures
            final(self)@ == old(self)@.merged(other@),
    {
        self.bold = self.bold || other.bold;
        self.italic = self.italic || other.italic;
        self.strikethrough = self.strikethrough || other.strikethrough;
        self.underline = self.underline || other.underline;
        self.code = self.code || other.code;
        if other.highlight.is_some() {
            self.highlight = other.highlight;
        }
        if other.link.is_some() {
            self.link = other.link;
        }
    }

    pub fn same_as(&self, other: &TextMark) -> (r: bool)
        ensures
            r == (self@ == other@),
    {
        self.bold == other.bold && self.italic == other.italic && self.strikethrough
            == other.strikethrough && self.underline == other.underline && self.code == other.code
            && self.highlight == other.highlight && opt_link_eq(&self.link, &other.link)
    }
}

impl PartialEq for TextMark {
    fn eq(&self, other: &Self) -> (r: bool) {
        self.same_as(other)
    }
}

impl vstd::std_specs::cmp::PartialEqSpecImpl for TextMark {
    open spec fn obeys_eq_spec() -> bool {
        true
    }

    open spec fn eq_spec(&self, other: &Self) -> bool {
        self@ == other@
    }
}

/// Merging styles can be done in any grouping, no style changes nothing, and doing it twice
/// changes nothing more.
pub proof fn law_marks_merge(a: MarkView, b: MarkView, c: MarkView)
    ensures
        a.merged(b).merged(c) == a.merged(b.merged(c)),
        a.merged(MarkView::plain()) == a,
        MarkView::plain().merged(a) == a,
        a.merged(a) == a,
        a.merged(b).merged(b) == a.merged(b),
{
}

} // verus!
