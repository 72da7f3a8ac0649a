//! What is shown of a paragraph.
use crate::node::inline::{
    range_mark, range_marks, ImageNode, ImageView, InlineNode, InlineStateView, InlineView,
    RangeMarkView,
};
use crate::node::marks::{
    clone_opt_link, opt_link, DefiniteLength, Hsla, LinkMark, LinkView, MarkView, Span, TextMark,
};
use crate::node::paragraph::{
    inline_states, inline_text, inline_views, paragraph_states, Paragraph, ParagraphView,
};
use crate::node::refs::LinkRefs;
use crate::node::segments::{
    moved_mark, segment_views, segments_of, split_paragraph_segments, ParagraphSegment, SegmentView,
};
use crate::strings::str_len;
use crate::text::byte_len;
use core::ops::Range;
use vstd::prelude::*;

verus! {

/// What is painted behind text.
#[derive(Clone, Copy, PartialEq, Eq, Structural, Debug)]
pub enum Background {
    /// The accent color of the theme.
    Accent,
    Color(Hsla),
}

/// How a range of text looks.
#[derive(Clone, Copy, PartialEq, Eq, Structural, Debug)]
pub struct Highlight {
    pub bold: bool,
    pub italic: bool,
    pub strikethrough: bool,
    pub underline: bool,
    pub background: Option<Background>,
    /// Whether the text has the color of links.
    pub link: bool,
}

/// The look of a style. Links are underlined. Where `code` is set, code has
/// the accent behind it, unless the text is highlighted.
pub open spec fn highlight_of(mark: MarkView, code: bool) -> Highlight {
    Highlight {
        bold: mark.bold,
        italic: mark.italic,
        strikethrough: mark.strikethrough,
        underline: mark.underline || mark.link is Some,
        background: match mark.highlight {
            Some(color) => Some(Background::Color(color)),
            None => if code && mark.code {
                Some(Background::Accent)
            } else {
                None
            },
        },
        link: mark.link is Some,
    }
}

/// The link that `link` stands for: where it refers to a definition, that one.
pub open spec fn resolved(link: LinkView, refs: Map<Seq<char>, LinkView>) -> LinkView {
    match link.identifier {
        Some(identifier) => if refs.contains_key(identifier) {
            refs[identifier]
        } else {
            link
        },
        None => link,
    }
}

/// A link and the bytes that it is for.
pub struct RangeLinkView {
    pub range: Range<usize>,
    pub link: LinkView,
}

pub open spec fn range_links(links: Seq<(Range<usize>, LinkMark)>) -> Seq<RangeLinkView> {
    links.map_values(|l: (Range<usize>, LinkMark)| RangeLinkView { range: l.0, link: l.1@ })
}

/// The looks of `marks`, moved by `offset` bytes.
pub open spec fn highlights_of(marks: Seq<RangeMarkView>, offset: nat, code: bool) -> Seq<
    (Range<usize>, Highlight),
> {
    marks.map_values(
        |m: RangeMarkView| (moved_mark(m, offset).range, highlight_of(m.mark, code)),
    )
}

/// The links of `marks`, moved by `offset` bytes.
pub open spec fn links_of(
    marks: Seq<RangeMarkView>,
    offset: nat,
    refs: Map<Seq<char>, LinkView>,
) -> Seq<RangeLinkView>
    decreases marks.len(),
{
    if marks.len() == 0 {
        Seq::empty()
    } else {
        let rest = links_of(marks.drop_last(), offset, refs);
        match marks.last().mark.link {
            Some(link) => rest.push(
                RangeLinkView {
                    range: moved_mark(marks.last(), offset).range,
                    link: resolved(link, refs),
                },
            ),
            None => rest,
        }
    }
}

fn highlight(mark: &TextMark, code: bool) -> (h: Highlight)
    ensures
        h == highlight_of(mark@, code),
{
    Highlight {
        bold: mark.bold,
        italic: mark.italic,
        strikethrough: mark.strikethrough,
        underline: mark.underline || mark.link.is_some(),
        background: match mark.highlight {
            Some(color) => Some(Background::Color(color)),
            None => if code && mark.code {
                Some(Background::Accent)
            } else {
                None
            },
        },
        link: mark.link.is_some(),
    }
}

fn resolve(link: &LinkMark, refs: &LinkRefs) -> (r: LinkMark)
    ensures
        r@ == resolved(link@, refs@),
{
    match &link.identifier {
        Some(identifier) => match refs.get(identifier.as_str()) {
            Some(defined) => defined.clone(),
            None => link.clone(),
        },
        None => link.clone(),
    }
}

fn paint_marks(
    marks: &Vec<(Range<usize>, TextMark)>,
    refs: &LinkRefs,
    offset: usize,
    code: bool,
) -> (r: (Vec<(Range<usize>, Highlight)>, Vec<(Range<usize>, LinkMark)>))
    ensures
        r.0@ == highlights_of(range_marks(marks@), offset as nat, code),
        range_links(r.1@) == links_of(range_marks(marks@), offset as nat, refs@),
{
    let ghost views = range_marks(marks@);
    let mut highlights: Vec<(Range<usize>, Highlight)> = Vec::new();
    let mut links: Vec<(Range<usize>, LinkMark)> = Vec::new();
    assert(views.take(0) =~= Seq::empty());
    assert(highlights@ =~= highlights_of(views.take(0), offset as nat, code));
    assert(range_links(links@) =~= Seq::empty());
    for i in 0..marks.len()
        invariant
            views == range_marks(marks@),
            highlights@ == highlights_of(views.take(i as int), offset as nat, code),
            range_links(links@) == links_of(views.take(i as int), offset as nat, refs@),
    {
        assert(views.take(i as int + 1).drop_last() =~= views.take(i as int));
        let m = &marks[i];
        assert(views[i as int] == range_mark(*m));
        let from: usize = offset.saturating_add(m.0.start);
        let to: usize = offset.saturating_add(m.0.end);
        let ghost before = links@;
        if let Some(link) = &m.1.link {
            links.push((from..to, resolve(link, refs)));
            assert(range_links(links@) =~= range_links(before).push(
                RangeLinkView {
                    range: moved_mark(views[i as int], offset as nat).range,
                    link: resolved(link@, refs@),
                },
            ));
        }
        highlights.push((from..to, highlight(&m.1, code)));
        assert(highlights@ =~= highlights_of(views.take(i as int + 1), offset as nat, code));
    }
    assert(views.take(views.len() as int) =~= views);
    (highlights, links)
}

/// The looks and links of `marks`. What is behind code is left to the one who shows it.
pub fn highlights_from_marks(marks: &Vec<(Range<usize>, TextMark)>, refs: &LinkRefs) -> (r: (
    Vec<(Range<usize>, Highlight)>,
    Vec<(Range<usize>, LinkMark)>,
))
    ensures
        r.0@ == highlights_of(range_marks(marks@), 0, false),
        range_links(r.1@) == links_of(range_marks(marks@), 0, refs@),
{
    paint_marks(marks, refs, 0, false)
}

// ---------------------------------------------------------------------------
// Paragraphs that flow

/// A part of a paragraph that is laid out with the others in lines. Text and
/// code name the child that keeps what was painted of them.
#[derive(Debug)]
pub enum InlineFlowItem {
    Text {
        state: usize,
        text: String,
        links: Vec<(Range<usize>, LinkMark)>,
        highlights: Vec<(Range<usize>, Highlight)>,
    },
    Code {
        state: usize,
        text: String,
        links: Vec<(Range<usize>, LinkMark)>,
        highlights: Vec<(Range<usize>, Highlight)>,
    },
    Image {
        url: String,
        link: Option<LinkMark>,
        title: String,
        width: Option<DefiniteLength>,
        height: Option<DefiniteLength>,
    },
}

pub enum FlowView {
    Text {
        state: int,
        text: Seq<char>,
        links: Seq<RangeLinkView>,
        highlights: Seq<(Range<usize>, Highlight)>,
    },
    Code {
        state: int,
        text: Seq<char>,
        links: Seq<RangeLinkView>,
        highlights: Seq<(Range<usize>, Highlight)>,
    },
    Image {
        url: Seq<char>,
        link: Option<LinkView>,
        title: Seq<char>,
        width: Option<DefiniteLength>,
        height: Option<DefiniteLength>,
    },
}

impl View for InlineFlowItem {
    type V = FlowView;

    open spec fn view(&self) -> FlowView {
        match *self {
            InlineFlowItem::Text { state, text, links, highlights } => FlowView::Text {
                state: state as int,
                text: text@,
                links: range_links(links@),
                highlights: highlights@,
            },
            InlineFlowItem::Code { state, text, links, highlights } => FlowView::Code {
                state: state as int,
                text: text@,
                links: range_links(links@),
                highlights: highlights@,
            },
            InlineFlowItem::Image { url, link, title, width, height } => FlowView::Image {
                url: url@,
                link: opt_link(link),
                title: title@,
                width,
                height,
            },
        }
    }
}

pub open spec fn flow_views(items: Seq<InlineFlowItem>) -> Seq<FlowView> {
    items.map_values(|i: InlineFlowItem| i@)
}

/// What is shown of a segment; nothing where it has no text.
pub open spec fn flow_item(segment: SegmentView, refs: Map<Seq<char>, LinkView>) -> Option<
    FlowView,
> {
    match segment {
        SegmentView::Text { text, marks, state } => if text.len() == 0 {
            None
        } else {
            Some(
                FlowView::Text {
                    state,
                    text,
                    links: links_of(marks, 0, refs),
                    highlights: highlights_of(marks, 0, false),
                },
            )
        },
        SegmentView::Code { text, marks, state } => if text.len() == 0 {
            None
        } else {
            Some(
                FlowView::Code {
                    state,
                    text,
                    links: links_of(marks, 0, refs),
                    highlights: highlights_of(marks, 0, false),
                },
            )
        },
        SegmentView::Image(image) => Some(
            FlowView::Image {
                url: image.url,
                link: image.link,
                title: image.shown_title(),
                width: image.width,
                height: image.height,
            },
        ),
    }
}

pub open spec fn flow_items(segments: Seq<SegmentView>, refs: Map<Seq<char>, LinkView>) -> Seq<
    FlowView,
>
    decreases segments.len(),
{
    if segments.len() == 0 {
        Seq::empty()
    } else {
        let rest = flow_items(segments.drop_last(), refs);
        match flow_item(segments.last(), refs) {
            Some(item) => rest.push(item),
            None => rest,
        }
    }
}

fn segment_item(segment: &ParagraphSegment, refs: &LinkRefs) -> (item: Option<InlineFlowItem>)
    ensures
        match item {
            Some(i) => flow_item(segment@, refs@) == Some(i@),
            None => flow_item(segment@, refs@) is None,
        },
{
    match segment {
        ParagraphSegment::Text { text, marks, state } => {
            if text.as_str().unicode_len() == 0 {
                return None;
            }
            let (highlights, links) = highlights_from_marks(marks, refs);
            Some(
                InlineFlowItem::Text {
                    state: *state,
                    text: text.as_str().to_owned(),
                    links,
                    highlights,
                },
            )
        },
        ParagraphSegment::Code { text, marks, state } => {
            if text.as_str().unicode_len() == 0 {
                return None;
            }
            let (highlights, links) = highlights_from_marks(marks, refs);
            Some(
                InlineFlowItem::Code {
                    state: *state,
                    text: text.as_str().to_owned(),
                    links,
                    highlights,
                },
            )
        },
        ParagraphSegment::Image(image) => Some(
            InlineFlowItem::Image {
                url: image.url.as_str().to_owned(),
                link: clone_opt_link(&image.link),
                title: image.title(),
                width: image.width,
                height: image.height,
            },
        ),
    }
}

// ---------------------------------------------------------------------------
// Other paragraphs

/// A part of a paragraph that does not flow. `state` names the child that
/// keeps what was painted of the text, or nothing where the paragraph does.
/// The looks stand in groups, one for each child; later groups refine earlier ones.
#[derive(Debug)]
pub enum Piece {
    Text {
        ix: usize,
        state: Option<usize>,
        text: String,
        links: Vec<(Range<usize>, LinkMark)>,
        highlights: Vec<Vec<(Range<usize>, Highlight)>>,
    },
    Image { ix: usize, image: ImageNode },
}

pub enum PieceView {
    Text {
        ix: int,
        state: Option<int>,
        text: Seq<char>,
        links: Seq<RangeLinkView>,
        highlights: Seq<Seq<(Range<usize>, Highlight)>>,
    },
    Image { ix: int, image: ImageView },
}

pub open spec fn groups(highlights: Seq<Vec<(Range<usize>, Highlight)>>) -> Seq<
    Seq<(Range<usize>, Highlight)>,
> {
    highlights.map_values(|g: Vec<(Range<usize>, Highlight)>| g@)
}

impl View for Piece {
    type V = PieceView;

    open spec fn view(&self) -> PieceView {
        match *self {
            Piece::Text { ix, state, text, links, highlights } => PieceView::Text {
                ix: ix as int,
                state: match state {
                    Some(i) => Some(i as int),
                    None => None,
                },
                text: text@,
                links: range_links(links@),
                highlights: groups(highlights@),
            },
            Piece::Image { ix, image } => PieceView::Image { ix: ix as int, image: image@ },
        }
    }
}

pub open spec fn piece_views(pieces: Seq<Piece>) -> Seq<PieceView> {
    pieces.map_values(|p: Piece| p@)
}

/// Pieces so far, and text that is being collected for the next.
pub struct Painting {
    pub out: Seq<PieceView>,
    pub text: Seq<char>,
    pub links: Seq<RangeLinkView>,
    pub highlights: Seq<Seq<(Range<usize>, Highlight)>>,
}

impl Painting {
    pub open spec fn none() -> Painting {
        Painting {
            out: Seq::empty(),
            text: Seq::empty(),
            links: Seq::empty(),
            highlights: Seq::empty(),
        }
    }

    /// With the collected text finished, where there is any.
    pub open spec fn finish(self, ix: int, state: Option<int>) -> Painting {
        Painting {
            out: if self.text.len() == 0 {
                self.out
            } else {
                self.out.push(
                    PieceView::Text {
                        ix,
                        state,
                        text: self.text,
                        links: self.links,
                        highlights: self.highlights,
                    },
                )
            },
            ..Painting::none()
        }
    }

    /// With child `i` painted. An image ends the text before it.
    pub open spec fn step(
        self,
        node: InlineView,
        i: int,
        refs: Map<Seq<char>, LinkView>,
    ) -> Painting {
        match node.image {
            Some(image) => {
                let done = Painting { text: self.text + node.text, ..self }.finish(i, Some(i));
                Painting { out: done.out.push(PieceView::Image { ix: i, image }), ..done }
            },
            None => {
                let offset = byte_len(self.text);
                Painting {
                    text: self.text + node.text,
                    links: self.links + links_of(node.marks, offset, refs),
                    highlights: self.highlights.push(highlights_of(node.marks, offset, true)),
                    ..self
                }
            },
        }
    }

    pub open spec fn steps(
        self,
        children: Seq<InlineView>,
        refs: Map<Seq<char>, LinkView>,
    ) -> Painting
        decreases children.len(),
    {
        if children.len() == 0 {
            self
        } else {
            self.steps(children.drop_last(), refs).step(
                children.last(),
                children.len() - 1,
                refs,
            )
        }
    }
}

/// The pieces of a paragraph that does not flow: its images, and the text
/// before, between and after them.
pub open spec fn pieces_of(children: Seq<InlineView>, refs: Map<Seq<char>, LinkView>) -> Seq<
    PieceView,
> {
    Painting::none().steps(children, refs).finish(children.len() as int, None).out
}

struct Painter {
    out: Vec<Piece>,
    text: String,
    links: Vec<(Range<usize>, LinkMark)>,
    highlights: Vec<Vec<(Range<usize>, Highlight)>>,
}

impl View for Painter {
    type V = Painting;

    closed spec fn view(&self) -> Painting {
        Painting {
            out: piece_views(self.out@),
            text: self.text@,
            links: range_links(self.links@),
            highlights: groups(self.highlights@),
        }
    }
}

impl Painter {
    fn new() -> (p: Painter)
        ensures
            p@ == Painting::none(),
    {
        let p = Painter {
            out: Vec::new(),
            text: String::new(),
            links: Vec::new(),
            highlights: Vec::new(),
        };
        assert(p@.out =~= Seq::empty());
        assert(p@.text =~= Seq::empty());
        assert(p@.links =~= Seq::empty());
        assert(p@.highlights =~= Seq::empty());
        p
    }

    fn push(&mut self, piece: Piece)
        ensures
            final(self)@ == (Painting { out: old(self)@.out.push(piece@), ..old(self)@ }),
    {
        self.out.push(piece);
        assert(self@.out =~= old(self)@.out.push(piece@));
    }

    fn push_text(&mut self, text: &str)
        ensures
            final(self)@ == (Painting { text: old(self)@.text + text@, ..old(self)@ }),
    {
        self.text.append(text);
    }

    fn finish(&mut self, ix: usize, state: Option<usize>)
        ensures
            final(self)@ == old(self)@.finish(
                ix as int,
                match state {
                    Some(i) => Some(i as int),
                    None => None,
                },
            ),
    {
        let mut done = Painter::new();
        core::mem::swap(&mut done, self);
        core::mem::swap(&mut done.out, &mut self.out);
        if done.text.as_str().unicode_len() > 0 {
            self.push(
                Piece::Text {
                    ix,
                    state,
                    text: done.text,
                    links: done.links,
                    highlights: done.highlights,
                },
            );
        }
    }

    fn push_marks(&mut self, node: &InlineNode, refs: &LinkRefs)
        ensures
            final(self)@ == (Painting {
                links: old(self)@.links + links_of(
                    node@.marks,
                    byte_len(old(self)@.text),
                    refs@,
                ),
                highlights: old(self)@.highlights.push(
                    highlights_of(node@.marks, byte_len(old(self)@.text), true),
                ),
                ..old(self)@
            }),
    {
        let offset: usize = str_len(self.text.as_str());
        let (highlights, links) = paint_marks(&node.marks, refs, offset, true);
        let mut links = links;
        let ghost before = self@;
        let ghost new_links = range_links(links@);
        self.links.append(&mut links);
        self.highlights.push(highlights);
        assert(self@.links =~= before.links + new_links);
        assert(self@.highlights =~= before.highlights.push(highlights@));
    }

    fn step(&mut self, node: &InlineNode, i: usize, refs: &LinkRefs)
        ensures
            final(self)@ == old(self)@.step(node@, i as int, refs@),
    {
        match &node.image {
            Some(image) => {
                self.push_text(node.text.as_str());
                self.finish(i, Some(i));
                self.push(Piece::Image { ix: i, image: image.clone() });
            },
            None => {
                self.push_marks(node, refs);
                self.push_text(node.text.as_str());
            },
        }
    }
}

// ---------------------------------------------------------------------------
// Painting

/// What is shown of a paragraph.
#[derive(Debug)]
pub enum Rendering {
    Flow(Vec<InlineFlowItem>),
    Pieces(Vec<Piece>),
}

/// The child that a piece of text is kept by, and the text.
pub struct Kept {
    pub state: Option<int>,
    pub text: Seq<char>,
}

pub open spec fn flow_keeps(item: FlowView) -> Option<Kept> {
    match item {
        FlowView::Text { state, text, .. } => Some(Kept { state: Some(state), text }),
        FlowView::Code { state, text, .. } => Some(Kept { state: Some(state), text }),
        FlowView::Image { .. } => None,
    }
}

pub open spec fn piece_keeps(piece: PieceView) -> Option<Kept> {
    match piece {
        PieceView::Text { state, text, .. } => Some(Kept { state, text }),
        PieceView::Image { .. } => None,
    }
}

pub enum RenderingView {
    Flow(Seq<FlowView>),
    Pieces(Seq<PieceView>),
}

impl View for Rendering {
    type V = RenderingView;

    open spec fn view(&self) -> RenderingView {
        match *self {
            Rendering::Flow(items) => RenderingView::Flow(flow_views(items@)),
            Rendering::Pieces(pieces) => RenderingView::Pieces(piece_views(pieces@)),
        }
    }
}

/// What is shown of a paragraph.
pub open spec fn rendering_of(p: ParagraphView, refs: Map<Seq<char>, LinkView>) -> RenderingView {
    if p.flows() {
        RenderingView::Flow(flow_items(segments_of(p.children), refs))
    } else {
        RenderingView::Pieces(pieces_of(p.children, refs))
    }
}

impl RenderingView {
    /// The texts that are kept, in the order in which they are set.
    pub open spec fn keeps(self) -> Seq<Option<Kept>> {
        match self {
            RenderingView::Flow(items) => items.map_values(|i: FlowView| flow_keeps(i)),
            RenderingView::Pieces(pieces) => pieces.map_values(|p: PieceView| piece_keeps(p)),
        }
    }
}

/// All that is painted of a paragraph once it is shown.
pub open spec fn painted_paragraph(p: Paragraph, refs: Map<Seq<char>, LinkView>) -> Seq<
    InlineStateView,
> {
    let keeps = rendering_of(p@, refs).keeps();
    kept_states(inline_states(p.children@), keeps).push(kept_own(p.state@, keeps))
}

/// The states of the children after `keeps` were set.
pub open spec fn kept_states(states: Seq<InlineStateView>, keeps: Seq<Option<Kept>>) -> Seq<
    InlineStateView,
>
    decreases keeps.len(),
{
    if keeps.len() == 0 {
        states
    } else {
        let rest = kept_states(states, keeps.drop_last());
        match keeps.last() {
            Some(Kept { state: Some(i), text }) => if 0 <= i < rest.len() {
                rest.update(i, rest[i].with_text(text))
            } else {
                rest
            },
            _ => rest,
        }
    }
}

/// The state of the paragraph after `keeps` were set.
pub open spec fn kept_own(state: InlineStateView, keeps: Seq<Option<Kept>>) -> InlineStateView
    decreases keeps.len(),
{
    if keeps.len() == 0 {
        state
    } else {
        let rest = kept_own(state, keeps.drop_last());
        match keeps.last() {
            Some(Kept { state: None, text }) => rest.with_text(text),
            _ => rest,
        }
    }
}

/// The name of the element that shows a paragraph.
pub open spec fn paragraph_name(p: ParagraphView) -> Seq<char> {
    match p.span {
        Some(span) => span.name(),
        None => (Span { start: 0, end: 0 }).name(),
    }
}

impl Paragraph {
    /// The name of the element that shows the paragraph.
    pub fn element_id(&self) -> (id: String)
        ensures
            id@ == paragraph_name(self@),
    {
        match self.span {
            Some(span) => span.element_id(),
            None => Span::default().element_id(),
        }
    }

    /// What is shown of a paragraph that flows.
    pub fn inline_flow_items(&self, refs: &LinkRefs) -> (items: Vec<InlineFlowItem>)
        ensures
            flow_views(items@) == flow_items(segments_of(self@.children), refs@),
    {
        let segments = split_paragraph_segments(&self.children);
        let ghost views = segment_views(segments@);
        let mut items: Vec<InlineFlowItem> = Vec::new();
        assert(views.take(0) =~= Seq::empty());
        assert(flow_views(items@) =~= Seq::empty());
        for i in 0..segments.len()
            invariant
                views == segment_views(segments@),
                flow_views(items@) == flow_items(views.take(i as int), refs@),
        {
            assert(views.take(i as int + 1).drop_last() =~= views.take(i as int));
            let ghost before = items@;
            if let Some(item) = segment_item(&segments[i], refs) {
                items.push(item);
                assert(flow_views(items@) =~= flow_views(before).push(item@));
            }
        }
        assert(views.take(views.len() as int) =~= views);
        items
    }

    /// What is shown of a paragraph that does not flow.
    pub fn pieces(&self, refs: &LinkRefs) -> (pieces: Vec<Piece>)
        ensures
            piece_views(pieces@) == pieces_of(self@.children, refs@),
    {
        let ghost views = self@.children;
        let mut painter = Painter::new();
        assert(views.take(0) =~= Seq::empty());
        for i in 0..self.children.len()
            invariant
                views == inline_views(self.children@),
                painter@ == Painting::none().steps(views.take(i as int), refs@),
        {
            assert(views.take(i as int + 1).drop_last() =~= views.take(i as int));
            painter.step(&self.children[i], i, refs);
        }
        assert(views.take(views.len() as int) =~= views);
        painter.finish(self.children.len(), None);
        painter.out
    }

    fn keep(&mut self, i: usize, text: &str)
        ensures
            final(self)@ == old(self)@,
            final(self).link_refs == old(self).link_refs,
            final(self).state@ == old(self).state@,
            inline_states(final(self).children@) == (if i < old(self).children@.len() {
                inline_states(old(self).children@).update(
                    i as int,
                    old(self).children@[i as int].state@.with_text(text@),
                )
            } else {
                inline_states(old(self).children@)
            }),
    {
        if i < self.children.len() {
            let ghost before = self.children@;
            self.children[i].state.set_text(text);
            assert(inline_states(self.children@) =~= inline_states(before).update(
                i as int,
                before[i as int].state@.with_text(text@),
            ));
            assert(inline_views(self.children@) =~= inline_views(before));
        }
    }

    fn keep_own(&mut self, text: &str)
        ensures
            final(self)@ == old(self)@,
            final(self).link_refs == old(self).link_refs,
            final(self).children == old(self).children,
            final(self).state@ == old(self).state@.with_text(text@),
    {
        self.state.set_text(text);
    }

    /// Paints the paragraph: works out what is shown of it, and keeps the
    /// texts for selecting in them.
    pub fn render(&mut self, refs: &LinkRefs) -> (rendering: Rendering)
        ensures
            final(self)@ == old(self)@,
            rendering@ == rendering_of(old(self)@, refs@),
            paragraph_states(*final(self)) == painted_paragraph(*old(self), refs@),
    {
        let rendering = if self.should_render_inline_flow() {
            Rendering::Flow(self.inline_flow_items(refs))
        } else {
            Rendering::Pieces(self.pieces(refs))
        };
        self.keep_texts(&rendering);
        rendering
    }

    fn keep_texts(&mut self, rendering: &Rendering)
        ensures
            final(self)@ == old(self)@,
            final(self).link_refs == old(self).link_refs,
            inline_states(final(self).children@) == kept_states(
                inline_states(old(self).children@),
                rendering@.keeps(),
            ),
            final(self).state@ == kept_own(old(self).state@, rendering@.keeps()),
    {
        let ghost keeps = rendering@.keeps();
        let ghost states = inline_states(self.children@);
        let ghost own = self.state@;
        let ghost view = self@;
        let ghost refs = self.link_refs;
        assert(keeps.take(0) =~= Seq::empty());
        match rendering {
            Rendering::Flow(items) => {
                for k in 0..items.len()
                    invariant
                        keeps == rendering@.keeps(),
                        *rendering == Rendering::Flow(*items),
                        self@ == view,
                        self.link_refs == refs,
                        inline_states(self.children@) == kept_states(states, keeps.take(k as int)),
                        self.state@ == kept_own(own, keeps.take(k as int)),
                {
                    assert(keeps.take(k as int + 1).drop_last() =~= keeps.take(k as int));
                    assert(keeps[k as int] == flow_keeps(items@[k as int]@));
                    match &items[k] {
                        InlineFlowItem::Text { state, text, .. } => {
                            self.keep(*state, text.as_str());
                        },
                        InlineFlowItem::Code { state, text, .. } => {
                            self.keep(*state, text.as_str());
                        },
                        InlineFlowItem::Image { .. } => {},
                    }
                }
            },
            Rendering::Pieces(pieces) => {
                for k in 0..pieces.len()
                    invariant
                        keeps == rendering@.keeps(),
                        *rendering == Rendering::Pieces(*pieces),
                        self@ == view,
                        self.link_refs == refs,
                        inline_states(self.children@) == kept_states(states, keeps.take(k as int)),
                        self.state@ == kept_own(own, keeps.take(k as int)),
                {
                    assert(keeps.take(k as int + 1).drop_last() =~= keeps.take(k as int));
                    assert(keeps[k as int] == piece_keeps(pieces@[k as int]@));
                    match &pieces[k] {
                        Piece::Text { state, text, .. } => match state {
                            Some(i) => {
                                self.keep(*i, text.as_str());
                            },
                            None => {
                                self.keep_own(text.as_str());
                            },
                        },
                        Piece::Image { .. } => {},
                    }
                }
            },
        }
        assert(keeps.take(keeps.len() as int) =~= keeps);
    }
}

// ---------------------------------------------------------------------------
// Laws

/// The texts of pieces, one after the other.
pub open spec fn pieces_text(pieces: Seq<PieceView>) -> Seq<char>
    decreases pieces.len(),
{
    if pieces.len() == 0 {
        Seq::empty()
    } else {
        pieces_text(pieces.drop_last()) + match pieces.last() {
            PieceView::Text { text, .. } => text,
            PieceView::Image { .. } => Seq::empty(),
        }
    }
}

proof fn lemma_finish_text(p: Painting, ix: int, state: Option<int>)
    ensures
        pieces_text(p.finish(ix, state).out) == pieces_text(p.out) + p.text,
{
    let f = p.finish(ix, state);
    if p.text.len() > 0 {
        assert(f.out.drop_last() =~= p.out);
    } else {
        assert(pieces_text(p.out) + p.text =~= pieces_text(p.out));
    }
}

proof fn lemma_steps_text(children: Seq<InlineView>, refs: Map<Seq<char>, LinkView>)
    ensures
        ({
            let p = Painting::none().steps(children, refs);
            pieces_text(p.out) + p.text == inline_text(children)
        }),
    decreases children.len(),
{
    if children.len() == 0 {
        let p = Painting::none();
        assert(pieces_text(p.out) + p.text =~= inline_text(children));
    } else {
        let rest = children.drop_last();
        lemma_steps_text(rest, refs);
        let p = Painting::none().steps(rest, refs);
        let node = children.last();
        let i = children.len() - 1;
        let next = p.step(node, i, refs);
        match node.image {
            Some(image) => {
                let q = Painting { text: p.text + node.text, ..p };
                lemma_finish_text(q, i, Some(i));
                let f = q.finish(i, Some(i));
                assert(next.out.drop_last() =~= f.out);
                assert(pieces_text(next.out) + next.text =~= pieces_text(p.out) + (p.text
                    + node.text));
                assert(pieces_text(p.out) + (p.text + node.text) =~= inline_text(children));
            },
            None => {
                assert(pieces_text(p.out) + (p.text + node.text) =~= inline_text(children));
            },
        }
    }
}

/// The pieces of a paragraph show all of its text, once and in order.
pub proof fn law_pieces_show_text(children: Seq<InlineView>, refs: Map<Seq<char>, LinkView>)
    ensures
        pieces_text(pieces_of(children, refs)) == inline_text(children),
{
    lemma_steps_text(children, refs);
    lemma_finish_text(
        Painting::none().steps(children, refs),
        children.len() as int,
        None,
    );
}

proof fn lemma_kept_states(states: Seq<InlineStateView>, keeps: Seq<Option<Kept>>)
    ensures
        kept_states(states, keeps).len() == states.len(),
        forall|k: int|
            0 <= k < states.len() ==> (#[trigger] kept_states(states, keeps)[k]).selection
                == states[k].selection,
    decreases keeps.len(),
{
    if keeps.len() > 0 {
        lemma_kept_states(states, keeps.drop_last());
    }
}

proof fn lemma_kept_own(state: InlineStateView, keeps: Seq<Option<Kept>>)
    ensures
        kept_own(state, keeps).selection == state.selection,
    decreases keeps.len(),
{
    if keeps.len() > 0 {
        lemma_kept_own(state, keeps.drop_last());
    }
}

/// Painting a paragraph selects nothing else.
pub proof fn law_painting_keeps_selections(p: Paragraph, refs: Map<Seq<char>, LinkView>)
    ensures
        painted_paragraph(p, refs).len() == paragraph_states(p).len(),
        forall|k: int|
            0 <= k < paragraph_states(p).len() ==> (
            #[trigger] painted_paragraph(p, refs)[k]).selection
                == paragraph_states(p)[k].selection,
{
    let keeps = rendering_of(p@, refs).keeps();
    lemma_kept_states(inline_states(p.children@), keeps);
    lemma_kept_own(p.state@, keeps);
}

} // verus!
