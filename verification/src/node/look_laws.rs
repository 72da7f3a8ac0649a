//! How styled text, links and images are shown.
use crate::node::inline::{ImageView, InlineView, RangeMarkView};
use crate::node::marks::{LinkView, MarkView};
use crate::node::paint::{
    flow_item, flow_items, highlights_of, kept_own, kept_states, links_of, painted_paragraph,
    pieces_of, rendering_of, resolved, Background, FlowView, Highlight, Painting, PieceView,
    RangeLinkView, RenderingView,
};
use crate::node::paragraph::{
    inline_states, inline_text, paragraph_states, Paragraph, ParagraphView,
};
use crate::node::segments::{all_text, child_images, segment_images, SegmentView};
use crate::text::byte_len;
use core::ops::Range;
use vstd::prelude::*;

verus! {

/// Whether a look is that of a style: bold, italic and struck through exactly
/// where the style is; underlined where it is, and where it is a link, which
/// has a color of its own; with the color of the style behind it.
pub open spec fn looks_like(look: Highlight, mark: MarkView) -> bool {
    &&& look.bold <==> mark.bold
    &&& look.italic <==> mark.italic
    &&& look.strikethrough <==> mark.strikethrough
    &&& look.underline <==> (mark.underline || mark.link is Some)
    &&& look.link <==> mark.link is Some
    &&& mark.highlight matches Some(color) ==> look.background == Some(Background::Color(color))
    &&& mark.highlight is None && !mark.code ==> look.background is None
}

/// Whether the looks of a text are those of `marks`, one by one, each over
/// the bytes that it is for, counted from `offset`.
pub open spec fn shows_marks(
    looks: Seq<(Range<usize>, Highlight)>,
    marks: Seq<RangeMarkView>,
    offset: nat,
) -> bool {
    &&& looks.len() == marks.len()
    &&& forall|k: int|
        0 <= k < looks.len() ==> looks_like((#[trigger] looks[k]).1, marks[k].mark) && (offset
            + marks[k].range.start <= usize::MAX ==> looks[k].0.start == offset
            + marks[k].range.start) && (offset + marks[k].range.end <= usize::MAX
            ==> looks[k].0.end == offset + marks[k].range.end)
}

/// Each style is shown over its range, and as what it is. Code has the accent
/// behind it where it is asked for and no other color is.
pub proof fn law_styles_are_shown(marks: Seq<RangeMarkView>, offset: nat, code: bool)
    ensures
        shows_marks(highlights_of(marks, offset, code), marks, offset),
        forall|k: int|
            0 <= k < marks.len() && (#[trigger] marks[k]).mark.code && marks[k].mark.highlight
                is None ==> highlights_of(marks, offset, code)[k].1.background == if code {
                Some(Background::Accent)
            } else {
                None
            },
{
}

/// The range of each link leads to where the link does: to what is defined
/// under its identifier, where something is, else to the link itself.
pub proof fn law_links_lead(
    marks: Seq<RangeMarkView>,
    offset: nat,
    refs: Map<Seq<char>, LinkView>,
    k: int,
    link: LinkView,
)
    requires
        0 <= k < marks.len(),
        marks[k].mark.link == Some(link),
        offset + marks[k].range.start <= usize::MAX,
        offset + marks[k].range.end <= usize::MAX,
    ensures
        exists|i: int|
            0 <= i < links_of(marks, offset, refs).len() && ({
                let shown = #[trigger] links_of(marks, offset, refs)[i];
                &&& shown.range.start == offset + marks[k].range.start
                &&& shown.range.end == offset + marks[k].range.end
                &&& (link.identifier matches Some(id) && refs.contains_key(id)
                    ==> shown.link == refs[link.identifier->0])
                &&& (link.identifier is None || !refs.contains_key(link.identifier->0)
                    ==> shown.link == link)
            }),
    decreases marks.len(),
{
    let links = links_of(marks, offset, refs);
    let rest = links_of(marks.drop_last(), offset, refs);
    if k == marks.len() - 1 {
        assert(links[links.len() - 1].link == resolved(link, refs));
    } else {
        law_links_lead(marks.drop_last(), offset, refs, k, link);
        let i = choose|i: int|
            0 <= i < rest.len() && ({
                let shown = #[trigger] rest[i];
                &&& shown.range.start == offset + marks[k].range.start
                &&& shown.range.end == offset + marks[k].range.end
                &&& (link.identifier matches Some(id) && refs.contains_key(id)
                    ==> shown.link == refs[link.identifier->0])
                &&& (link.identifier is None || !refs.contains_key(link.identifier->0)
                    ==> shown.link == link)
            });
        assert(links[i] == rest[i]);
    }
}

/// There are as many links as styles that are links.
pub open spec fn link_count(marks: Seq<RangeMarkView>) -> nat
    decreases marks.len(),
{
    if marks.len() == 0 {
        0
    } else {
        link_count(marks.drop_last()) + if marks.last().mark.link is Some {
            1nat
        } else {
            0nat
        }
    }
}

pub proof fn law_links_are_counted(
    marks: Seq<RangeMarkView>,
    offset: nat,
    refs: Map<Seq<char>, LinkView>,
)
    ensures
        links_of(marks, offset, refs).len() == link_count(marks),
    decreases marks.len(),
{
    if marks.len() > 0 {
        law_links_are_counted(marks.drop_last(), offset, refs);
    }
}

// ---------------------------------------------------------------------------
// Paragraphs

pub open spec fn no_images(children: Seq<InlineView>) -> bool {
    forall|k: int| 0 <= k < children.len() ==> (#[trigger] children[k]).image is None
}

/// Whether a piece shows the text of `children`, and each style of each child
/// over the part of the text that it is for.
pub open spec fn shows_children(
    text: Seq<char>,
    highlights: Seq<Seq<(Range<usize>, Highlight)>>,
    children: Seq<InlineView>,
) -> bool {
    &&& text == inline_text(children)
    &&& highlights.len() == children.len()
    &&& forall|k: int|
        0 <= k < children.len() ==> shows_marks(
            #[trigger] highlights[k],
            children[k].marks,
            byte_len(inline_text(children.take(k))),
        )
}

proof fn lemma_painted_children(children: Seq<InlineView>, refs: Map<Seq<char>, LinkView>)
    requires
        no_images(children),
    ensures
        ({
            let p = Painting::none().steps(children, refs);
            &&& p.out.len() == 0
            &&& shows_children(p.text, p.highlights, children)
        }),
    decreases children.len(),
{
    if children.len() == 0 {
        assert(inline_text(children) =~= Seq::empty());
    } else {
        let rest = children.drop_last();
        let n = rest.len() as int;
        assert forall|k: int| 0 <= k < rest.len() implies (#[trigger] rest[k]).image is None by {
            assert(rest[k] == children[k]);
        }
        lemma_painted_children(rest, refs);
        assert(children[n].image is None);
        let p = Painting::none().steps(rest, refs);
        let q = Painting::none().steps(children, refs);
        law_styles_are_shown(children[n].marks, byte_len(p.text), true);
        assert forall|k: int| 0 <= k < children.len() implies shows_marks(
            #[trigger] q.highlights[k],
            children[k].marks,
            byte_len(inline_text(children.take(k))),
        ) by {
            assert(children.take(k) =~= rest.take(k));
            if k < n {
                assert(q.highlights[k] == p.highlights[k]);
                assert(children[k] == rest[k]);
            } else {
                assert(rest.take(n) =~= rest);
            }
        }
    }
}

/// A paragraph of text alone, without code, is shown as one piece: all of its
/// text, with each style of each part of it over the bytes that it is for.
pub proof fn law_paragraph_shows_styles(p: ParagraphView, refs: Map<Seq<char>, LinkView>)
    requires
        no_images(p.children),
        !p.has_code(),
        inline_text(p.children).len() > 0,
    ensures
        rendering_of(p, refs) matches RenderingView::Pieces(pieces) && pieces.len() == 1 && (
        pieces[0] matches PieceView::Text { text, highlights, state, .. } && state is None
            && shows_children(text, highlights, p.children)),
{
    lemma_painted_children(p.children, refs);
    assert(!p.has_image());
    let done = Painting::none().steps(p.children, refs);
    assert(pieces_of(p.children, refs).len() == 1);
}

/// The links of a paragraph of text alone lead to where they say, each over
/// the part of the text that it is for.
pub proof fn law_paragraph_shows_links(
    p: ParagraphView,
    refs: Map<Seq<char>, LinkView>,
    k: int,
    j: int,
    link: LinkView,
)
    requires
        no_images(p.children),
        !p.has_code(),
        inline_text(p.children).len() > 0,
        0 <= k < p.children.len(),
        0 <= j < p.children[k].marks.len(),
        p.children[k].marks[j].mark.link == Some(link),
        byte_len(inline_text(p.children.take(k))) + p.children[k].marks[j].range.start
            <= usize::MAX,
        byte_len(inline_text(p.children.take(k))) + p.children[k].marks[j].range.end <= usize::MAX,
    ensures
        rendering_of(p, refs) matches RenderingView::Pieces(pieces) && (pieces[0] matches
            PieceView::Text { links, .. } && leads_to(
            links,
            refs,
            byte_len(inline_text(p.children.take(k))) + p.children[k].marks[j].range.start,
            byte_len(inline_text(p.children.take(k))) + p.children[k].marks[j].range.end,
            link,
        )),
{
    lemma_painted_children(p.children, refs);
    lemma_painted_links(p.children, refs, k, j, link);
    assert(!p.has_image());
    assert(pieces_of(p.children, refs).len() == 1);
}

/// Whether the bytes from `start` to `end` lead to where `link` does.
pub open spec fn leads_to(
    links: Seq<RangeLinkView>,
    refs: Map<Seq<char>, LinkView>,
    start: int,
    end: int,
    link: LinkView,
) -> bool {
    exists|i: int|
        0 <= i < links.len() && ({
            let shown = #[trigger] links[i];
            &&& shown.range.start == start
            &&& shown.range.end == end
            &&& (link.identifier matches Some(id) && refs.contains_key(id) ==> shown.link
                == refs[link.identifier->0])
            &&& (link.identifier is None || !refs.contains_key(link.identifier->0) ==> shown.link
                == link)
        })
}

proof fn lemma_leads_more(
    a: Seq<RangeLinkView>,
    b: Seq<RangeLinkView>,
    refs: Map<Seq<char>, LinkView>,
    start: int,
    end: int,
    link: LinkView,
)
    requires
        leads_to(a, refs, start, end, link) || leads_to(b, refs, start, end, link),
    ensures
        leads_to(a + b, refs, start, end, link),
{
    let all = a + b;
    if leads_to(a, refs, start, end, link) {
        let i = choose|i: int|
            0 <= i < a.len() && ({
                let shown = #[trigger] a[i];
                &&& shown.range.start == start
                &&& shown.range.end == end
                &&& (link.identifier matches Some(id) && refs.contains_key(id) ==> shown.link
                    == refs[link.identifier->0])
                &&& (link.identifier is None || !refs.contains_key(link.identifier->0)
                    ==> shown.link == link)
            });
        assert(all[i] == a[i]);
    } else {
        let i = choose|i: int|
            0 <= i < b.len() && ({
                let shown = #[trigger] b[i];
                &&& shown.range.start == start
                &&& shown.range.end == end
                &&& (link.identifier matches Some(id) && refs.contains_key(id) ==> shown.link
                    == refs[link.identifier->0])
                &&& (link.identifier is None || !refs.contains_key(link.identifier->0)
                    ==> shown.link == link)
            });
        assert(all[a.len() + i] == b[i]);
    }
}

proof fn lemma_painted_links(
    children: Seq<InlineView>,
    refs: Map<Seq<char>, LinkView>,
    k: int,
    j: int,
    link: LinkView,
)
    requires
        no_images(children),
        0 <= k < children.len(),
        0 <= j < children[k].marks.len(),
        children[k].marks[j].mark.link == Some(link),
        byte_len(inline_text(children.take(k))) + children[k].marks[j].range.start <= usize::MAX,
        byte_len(inline_text(children.take(k))) + children[k].marks[j].range.end <= usize::MAX,
    ensures
        leads_to(
            Painting::none().steps(children, refs).links,
            refs,
            byte_len(inline_text(children.take(k))) + children[k].marks[j].range.start,
            byte_len(inline_text(children.take(k))) + children[k].marks[j].range.end,
            link,
        ),
    decreases children.len(),
{
    let rest = children.drop_last();
    let n = rest.len() as int;
    assert forall|i: int| 0 <= i < rest.len() implies (#[trigger] rest[i]).image is None by {
        assert(rest[i] == children[i]);
    }
    let p = Painting::none().steps(rest, refs);
    let offset = byte_len(p.text);
    assert(children[n].image is None);
    let more = links_of(children[n].marks, offset, refs);
    let start = byte_len(inline_text(children.take(k))) + children[k].marks[j].range.start;
    let end = byte_len(inline_text(children.take(k))) + children[k].marks[j].range.end;
    assert(children.take(k) =~= rest.take(k));
    lemma_painted_children(rest, refs);
    if k == n {
        assert(rest.take(n) =~= rest);
        law_links_lead(children[n].marks, offset, refs, j, link);
        assert(leads_to(more, refs, start, end, link));
    } else {
        assert(rest[k] == children[k]);
        lemma_painted_links(rest, refs, k, j, link);
    }
    lemma_leads_more(p.links, more, refs, start, end, link);
}

/// Painting a paragraph of text alone keeps its whole text as what was
/// painted, for the selection to be made in.
pub proof fn law_painted_text_is_kept(p: Paragraph, refs: Map<Seq<char>, LinkView>)
    requires
        no_images(p@.children),
        !p@.has_code(),
        inline_text(p@.children).len() > 0,
    ensures
        ({
            let painted = painted_paragraph(p, refs);
            let before = paragraph_states(p);
            let n = p.children@.len() as int;
            &&& painted.len() == n + 1
            &&& painted[n].text == inline_text(p@.children)
            &&& painted[n].selection == before[n].selection
            &&& forall|k: int| 0 <= k < n ==> painted[k] == before[k]
        }),
{
    law_paragraph_shows_styles(p@, refs);
    let shown = rendering_of(p@, refs);
    let keeps = shown.keeps();
    assert(keeps.len() == 1);
    assert(keeps.drop_last() =~= Seq::empty());
    let states = inline_states(p.children@);
    assert(kept_states(states, keeps.drop_last()) == states);
    assert(kept_own(p.state@, keeps.drop_last()) == p.state@);
}

/// In a paragraph that flows, each stretch of text and of code is shown with
/// its styles over the bytes that they are for, and each image as it is.
pub proof fn law_flow_shows_styles(
    text: Seq<char>,
    marks: Seq<RangeMarkView>,
    state: int,
    image: ImageView,
    refs: Map<Seq<char>, LinkView>,
)
    requires
        text.len() > 0,
    ensures
        flow_item(SegmentView::Text { text, marks, state }, refs) matches Some(
            FlowView::Text { text: shown, highlights, state: kept, .. },
        ) && shown == text && kept == state && shows_marks(highlights, marks, 0),
        flow_item(SegmentView::Code { text, marks, state }, refs) matches Some(
            FlowView::Code { text: shown, highlights, state: kept, .. },
        ) && shown == text && kept == state && shows_marks(highlights, marks, 0),
        flow_item(SegmentView::Image(image), refs) matches Some(
            FlowView::Image { url, link, width, height, .. },
        ) && url == image.url && link == image.link && width == image.width && height
            == image.height,
{
    law_styles_are_shown(marks, 0, false);
}

/// A paragraph flows where it holds code, or text next to images; it is shown
/// in pieces otherwise.
pub proof fn law_paragraphs_flow(p: ParagraphView, refs: Map<Seq<char>, LinkView>)
    ensures
        (exists|i: int, j: int|
            0 <= i < p.children.len() && 0 <= j < p.children[i].marks.len()
                && #[trigger] p.children[i].marks[j].mark.code) ==> rendering_of(p, refs) is Flow,
        no_images(p.children) && (forall|i: int, j: int|
            0 <= i < p.children.len() && 0 <= j < p.children[i].marks.len()
                ==> !#[trigger] p.children[i].marks[j].mark.code) ==> rendering_of(p, refs)
            is Pieces,
{
    if exists|i: int, j: int|
        0 <= i < p.children.len() && 0 <= j < p.children[i].marks.len()
            && #[trigger] p.children[i].marks[j].mark.code {
        let (i, j) = choose|i: int, j: int|
            0 <= i < p.children.len() && 0 <= j < p.children[i].marks.len()
                && #[trigger] p.children[i].marks[j].mark.code;
        assert(crate::node::paragraph::has_code_mark(p.children[i]));
        assert(p.has_code());
    }
    if no_images(p.children) && (forall|i: int, j: int|
        0 <= i < p.children.len() && 0 <= j < p.children[i].marks.len()
            ==> !#[trigger] p.children[i].marks[j].mark.code) {
        assert(!p.has_image());
        assert(!p.has_code());
    }
}

/// The texts of items that flow, one after the other.
pub open spec fn flow_text_of(items: Seq<FlowView>) -> Seq<char>
    decreases items.len(),
{
    if items.len() == 0 {
        Seq::empty()
    } else {
        flow_text_of(items.drop_last()) + match items.last() {
            FlowView::Text { text, .. } => text,
            FlowView::Code { text, .. } => text,
            FlowView::Image { .. } => Seq::empty(),
        }
    }
}

/// The addresses of the images that flow, in order.
pub open spec fn flow_images_of(items: Seq<FlowView>) -> Seq<Seq<char>>
    decreases items.len(),
{
    if items.len() == 0 {
        Seq::empty()
    } else {
        let rest = flow_images_of(items.drop_last());
        match items.last() {
            FlowView::Image { url, .. } => rest.push(url),
            _ => rest,
        }
    }
}

/// All segments of a paragraph that flows are shown, in order: their text
/// and their images.
pub proof fn law_flow_shows_all(segments: Seq<SegmentView>, refs: Map<Seq<char>, LinkView>)
    ensures
        flow_text_of(flow_items(segments, refs)) == all_text(segments),
        flow_images_of(flow_items(segments, refs)) == segment_images(segments).map_values(
            |image: ImageView| image.url,
        ),
    decreases segments.len(),
{
    if segments.len() == 0 {
        assert(segment_images(segments).map_values(|image: ImageView| image.url) =~= Seq::empty());
    } else {
        let rest = segments.drop_last();
        law_flow_shows_all(rest, refs);
        let before = flow_items(rest, refs);
        let items = flow_items(segments, refs);
        let urls = segment_images(segments).map_values(|image: ImageView| image.url);
        if let Some(item) = flow_item(segments.last(), refs) {
            assert(items.drop_last() =~= before);
        }
        match segments.last() {
            SegmentView::Text { text, .. } => {
                if text.len() == 0 {
                    assert(all_text(rest) + text =~= all_text(rest));
                }
            },
            SegmentView::Code { text, .. } => {
                if text.len() == 0 {
                    assert(all_text(rest) + text =~= all_text(rest));
                }
            },
            SegmentView::Image(image) => {
                assert(urls =~= segment_images(rest).map_values(
                    |image: ImageView| image.url,
                ).push(image.url));
            },
        }
    }
}

/// The title of an image is its own, else what stands for it.
pub proof fn law_image_titles(image: ImageView, title: Seq<char>, alt: Seq<char>)
    ensures
        image.title == Some(title) ==> image.shown_title() == title,
        image.title is None && image.alt == Some(alt) ==> image.shown_title() == alt,
        image.title is None && image.alt is None ==> image.shown_title().len() == 0,
{
}

/// The images of pieces, in order.
pub open spec fn piece_images(pieces: Seq<PieceView>) -> Seq<ImageView>
    decreases pieces.len(),
{
    if pieces.len() == 0 {
        Seq::empty()
    } else {
        let rest = piece_images(pieces.drop_last());
        match pieces.last() {
            PieceView::Image { image, .. } => rest.push(image),
            _ => rest,
        }
    }
}

/// The images of a paragraph that does not flow are all shown, in order.
pub proof fn law_pieces_show_images(children: Seq<InlineView>, refs: Map<Seq<char>, LinkView>)
    ensures
        piece_images(pieces_of(children, refs)) == child_images(children),
{
    lemma_steps_images(children, refs);
    lemma_finish_images(Painting::none().steps(children, refs), children.len() as int, None);
}

proof fn lemma_finish_images(p: Painting, ix: int, state: Option<int>)
    ensures
        piece_images(p.finish(ix, state).out) == piece_images(p.out),
{
    if p.text.len() > 0 {
        assert(p.finish(ix, state).out.drop_last() =~= p.out);
    }
}

proof fn lemma_steps_images(children: Seq<InlineView>, refs: Map<Seq<char>, LinkView>)
    ensures
        piece_images(Painting::none().steps(children, refs).out) == child_images(children),
    decreases children.len(),
{
    if children.len() > 0 {
        let rest = children.drop_last();
        lemma_steps_images(rest, refs);
        let p = Painting::none().steps(rest, refs);
        let node = children.last();
        let i = children.len() - 1;
        let next = Painting::none().steps(children, refs);
        if let Some(image) = node.image {
            let q = Painting { text: p.text + node.text, ..p };
            lemma_finish_images(q, i, Some(i));
            assert(next.out.drop_last() =~= q.finish(i, Some(i)).out);
        }
    }
}

} // verus!
