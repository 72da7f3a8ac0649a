//! Pieces of text and images inside of a paragraph.
use crate::node::marks::{
    clone_opt, clone_opt_link, opt_eq, opt_link, opt_link_eq, opt_text, DefiniteLength, LinkMark,
    LinkView, MarkView, TextMark,
};
use crate::selection::Selection;
use crate::strings::{str_eq, str_slice};
use crate::text::{clip_left, lemma_clip, lemma_clip_mono, slice_of};
use core::ops::Range;
use vstd::prelude::*;

verus! {

/// The part of `s` between two byte offsets, moved to the boundaries before
/// them. It is empty where they do not run forwards.
pub open spec fn piece_of(s: Seq<char>, start: int, end: int) -> Seq<char> {
    if start <= end {
        slice_of(s, clip_left(s, start), clip_left(s, end))
    } else {
        Seq::empty()
    }
}

fn clip(s: &str, offset: usize) -> (o: usize)
    ensures
        o == clip_left(s@, offset as int),
{
    crate::rope::TextBuffer::from_str(s).clip_offset(offset, crate::rope::Bias::Left)
}

/// The part of `s` between two byte offsets.
pub fn piece(s: &str, start: usize, end: usize) -> (r: String)
    ensures
        r@ == piece_of(s@, start as int, end as int),
{
    if start > end {
        let r = String::new();
        assert(r@ =~= Seq::<char>::empty());
        return r;
    }
    proof {
        lemma_clip(s@, start as int);
        lemma_clip(s@, end as int);
        lemma_clip_mono(s@, start as int, end as int);
    }
    let from = clip(s, start);
    let to = clip(s, end);
    str_slice(s, from, to).to_owned()
}

/// The text that was painted, and what of it is selected.
#[derive(Debug)]
pub struct InlineState {
    pub text: String,
    pub selection: Option<Selection>,
}

pub struct InlineStateView {
    pub text: Seq<char>,
    pub selection: Option<Selection>,
}

impl View for InlineState {
    type V = InlineStateView;

    open spec fn view(&self) -> InlineStateView {
        InlineStateView { text: self.text@, selection: self.selection }
    }
}

impl InlineStateView {
    pub open spec fn empty() -> InlineStateView {
        InlineStateView { text: Seq::empty(), selection: None }
    }

    /// The selected text.
    pub open spec fn selected(self) -> Seq<char> {
        match self.selection {
            Some(s) => piece_of(self.text, s.start as int, s.end as int),
            None => Seq::empty(),
        }
    }

    pub open spec fn unselected(self) -> InlineStateView {
        InlineStateView { selection: None, ..self }
    }

    pub open spec fn with_text(self, text: Seq<char>) -> InlineStateView {
        InlineStateView { text, ..self }
    }
}

impl Default for InlineState {
    fn default() -> (state: Self)
        ensures
            state@ == InlineStateView::empty(),
    {
        let state = InlineState { text: String::new(), selection: None };
        assert(state@.text =~= Seq::<char>::empty());
        state
    }
}

impl Clone for InlineState {
    fn clone(&self) -> (state: Self)
        ensures
            state@ == self@,
    {
        InlineState { text: self.text.as_str().to_owned(), selection: self.selection }
    }
}

impl InlineState {
    /// Sets the text that is painted.
    pub fn set_text(&mut self, text: &str)
        ensures
            final(self)@ == old(self)@.with_text(text@),
    {
        self.text = text.to_owned();
    }

    pub fn clear_selection(&mut self)
        ensures
            final(self)@ == old(self)@.unselected(),
    {
        self.selection = None;
    }

    /// The selected text.
    pub fn selected_text(&self) -> (text: String)
        ensures
            text@ == self@.selected(),
    {
        match self.selection {
            Some(selection) => piece(self.text.as_str(), selection.start, selection.end),
            None => {
                let text = String::new();
                assert(text@ =~= Seq::<char>::empty());
                text
            },
        }
    }
}

/// An image.
#[derive(Debug)]
pub struct ImageNode {
    pub url: String,
    pub link: Option<LinkMark>,
    pub title: Option<String>,
    pub alt: Option<String>,
    pub width: Option<DefiniteLength>,
    pub height: Option<DefiniteLength>,
}

pub struct ImageView {
    pub url: Seq<char>,
    pub link: Option<LinkView>,
    pub title: Option<Seq<char>>,
    pub alt: Option<Seq<char>>,
    pub width: Option<DefiniteLength>,
    pub height: Option<DefiniteLength>,
}

impl View for ImageNode {
    type V = ImageView;

    open spec fn view(&self) -> ImageView {
        ImageView {
            url: self.url@,
            link: opt_link(self.link),
            title: opt_text(self.title),
            alt: opt_text(self.alt),
            width: self.width,
            height: self.height,
        }
    }
}

impl ImageView {
    /// The title, else what stands for the image, else nothing.
    pub open spec fn shown_title(self) -> Seq<char> {
        match self.title {
            Some(t) => t,
            None => match self.alt {
                Some(a) => a,
                None => Seq::empty(),
            },
        }
    }
}

impl ImageNode {
    pub fn new(url: &str) -> (image: ImageNode)
        ensures
            image@ == (ImageView {
                url: url@,
                link: None,
                title: None,
                alt: None,
                width: None,
                height: None,
            }),
    {
        ImageNode {
            url: url.to_owned(),
            link: None,
            title: None,
            alt: None,
            width: None,
            height: None,
        }
    }

    /// The title, else what stands for the image, else nothing.
    pub fn title(&self) -> (title: String)
        ensures
            title@ == self@.shown_title(),
    {
        match &self.title {
            Some(title) => title.as_str().to_owned(),
            None => match &self.alt {
                Some(alt) => alt.as_str().to_owned(),
                None => {
                    let title = String::new();
                    assert(title@ =~= Seq::<char>::empty());
                    title
                },
            },
        }
    }

    pub fn same_as(&self, other: &ImageNode) -> (r: bool)
        ensures
            r == (self@ == other@),
    {
        str_eq(self.url.as_str(), other.url.as_str()) && opt_link_eq(&self.link, &other.link)
            && opt_eq(&self.title, &other.title) && opt_eq(&self.alt, &other.alt) && self.width
            == other.width && self.height == other.height
    }
}

impl Clone for ImageNode {
    fn clone(&self) -> (image: Self)
        ensures
            image@ == self@,
    {
        ImageNode {
            url: self.url.as_str().to_owned(),
            link: clone_opt_link(&self.link),
            title: clone_opt(&self.title),
            alt: clone_opt(&self.alt),
            width: self.width,
            height: self.height,
        }
    }
}

impl PartialEq for ImageNode {
    fn eq(&self, other: &Self) -> (r: bool) {
        self.same_as(other)
    }
}

impl vstd::std_specs::cmp::PartialEqSpecImpl for ImageNode {
    open spec fn obeys_eq_spec() -> bool {
        true
    }

    open spec fn eq_spec(&self, other: &Self) -> bool {
        self@ == other@
    }
}

/// A style and the bytes that it is for.
pub struct RangeMarkView {
    pub range: Range<usize>,
    pub mark: MarkView,
}

pub open spec fn range_mark(m: (Range<usize>, TextMark)) -> RangeMarkView {
    RangeMarkView { range: m.0, mark: m.1@ }
}

pub open spec fn range_marks(marks: Seq<(Range<usize>, TextMark)>) -> Seq<RangeMarkView> {
    marks.map_values(|m: (Range<usize>, TextMark)| range_mark(m))
}

pub fn clone_marks(marks: &Vec<(Range<usize>, TextMark)>) -> (copy: Vec<(Range<usize>, TextMark)>)
    ensures
        range_marks(copy@) == range_marks(marks@),
{
    let mut copy: Vec<(Range<usize>, TextMark)> = Vec::new();
    for i in 0..marks.len()
        invariant
            copy@.len() == i,
            forall|k: int| 0 <= k < i ==> range_mark(#[trigger] copy@[k]) == range_mark(marks@[k]),
    {
        copy.push((marks[i].0.start..marks[i].0.end, marks[i].1.clone()));
    }
    assert(range_marks(copy@) =~= range_marks(marks@));
    copy
}

fn marks_eq(a: &Vec<(Range<usize>, TextMark)>, b: &Vec<(Range<usize>, TextMark)>) -> (r: bool)
    ensures
        r == (range_marks(a@) == range_marks(b@)),
{
    if a.len() != b.len() {
        assert(range_marks(a@).len() != range_marks(b@).len());
        return false;
    }
    for i in 0..a.len()
        invariant
            a.len() == b.len(),
            forall|k: int| 0 <= k < i ==> range_mark(#[trigger] a@[k]) == range_mark(b@[k]),
    {
        if a[i].0.start != b[i].0.start || a[i].0.end != b[i].0.end || !a[i].1.same_as(&b[i].1) {
            assert(range_marks(a@)[i as int] != range_marks(b@)[i as int]);
            return false;
        }
    }
    assert(range_marks(a@) =~= range_marks(b@));
    true
}

/// A piece of text, or an image.
#[derive(Debug)]
pub struct InlineNode {
    pub text: String,
    pub image: Option<ImageNode>,
    /// The styles of ranges of bytes of the text.
    pub marks: Vec<(Range<usize>, TextMark)>,
    pub state: InlineState,
}

/// What an `InlineNode` holds, its painting state left out.
pub struct InlineView {
    pub text: Seq<char>,
    pub image: Option<ImageView>,
    pub marks: Seq<RangeMarkView>,
}

pub open spec fn opt_image(image: Option<ImageNode>) -> Option<ImageView> {
    match image {
        Some(i) => Some(i@),
        None => None,
    }
}

impl View for InlineNode {
    type V = InlineView;

    open spec fn view(&self) -> InlineView {
        InlineView {
            text: self.text@,
            image: opt_image(self.image),
            marks: range_marks(self.marks@),
        }
    }
}

impl InlineNode {
    /// Plain text.
    pub fn new(text: &str) -> (node: InlineNode)
        ensures
            node@ == (InlineView { text: text@, image: None, marks: Seq::empty() }),
            node.state@ == InlineStateView::empty(),
    {
        let node = InlineNode {
            text: text.to_owned(),
            image: None,
            marks: Vec::new(),
            state: InlineState::default(),
        };
        assert(node@.marks =~= Seq::empty());
        node
    }

    /// An image.
    pub fn image(image: ImageNode) -> (node: InlineNode)
        ensures
            node@ == (InlineView {
                text: Seq::empty(),
                image: Some(image@),
                marks: Seq::empty(),
            }),
            node.state@ == InlineStateView::empty(),
    {
        let empty = "";
        proof {
            reveal_strlit("");
            assert(empty@ =~= Seq::empty());
        }
        let mut node = InlineNode::new(empty);
        node.image = Some(image);
        node
    }

    /// The node with other styles.
    pub fn marks(self, marks: Vec<(Range<usize>, TextMark)>) -> (node: InlineNode)
        ensures
            node@ == (InlineView { marks: range_marks(marks@), ..self@ }),
            node.state == self.state,
    {
        let mut node = self;
        node.marks = marks;
        node
    }

    /// Whether the nodes hold the same, whatever was painted of them.
    pub fn same_as(&self, other: &InlineNode) -> (r: bool)
        ensures
            r == (self@ == other@),
    {
        let images: bool = match (&self.image, &other.image) {
            (Some(a), Some(b)) => a.same_as(b),
            (None, None) => true,
            _ => false,
        };
        str_eq(self.text.as_str(), other.text.as_str()) && images && marks_eq(
            &self.marks,
            &other.marks,
        )
    }
}

/// A clone starts with what was painted and selected, and keeps it for itself.
impl Clone for InlineNode {
    fn clone(&self) -> (node: Self)
        ensures
            node@ == self@,
            node.state@ == self.state@,
    {
        InlineNode {
            text: self.text.as_str().to_owned(),
            image: match &self.image {
                Some(image) => Some(image.clone()),
                None => None,
            },
            marks: clone_marks(&self.marks),
            state: self.state.clone(),
        }
    }
}

impl PartialEq for InlineNode {
    fn eq(&self, other: &Self) -> (r: bool) {
        self.same_as(other)
    }
}

impl vstd::std_specs::cmp::PartialEqSpecImpl for InlineNode {
    open spec fn obeys_eq_spec() -> bool {
        true
    }

    open spec fn eq_spec(&self, other: &Self) -> bool {
        self@ == other@
    }
}

} // verus!
