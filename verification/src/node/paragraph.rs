//! Paragraphs.
use crate::node::inline::{
    range_marks, ImageNode, InlineNode, InlineState, InlineStateView, InlineView, RangeMarkView,
};
use crate::node::refs::Refs;
use crate::node::marks::{MarkView, Span, TextMark};
use crate::strings::str_len;
use crate::text::{byte_len, lemma_measure_concat, Unit};
use core::ops::Range;
use vstd::prelude::*;

verus! {

/// Text and images that flow together.
#[derive(Debug)]
pub struct Paragraph {
    pub span: Option<Span>,
    pub children: Vec<InlineNode>,
    /// The urls of the definitions that links of this paragraph refer to.
    pub link_refs: Refs<String>,
    pub state: InlineState,
}

/// What a `Paragraph` holds, its painting state left out.
pub struct ParagraphView {
    pub span: Option<Span>,
    pub children: Seq<InlineView>,
    pub link_refs: Map<Seq<char>, Seq<char>>,
}

pub open spec fn inline_views(children: Seq<InlineNode>) -> Seq<InlineView> {
    children.map_values(|c: InlineNode| c@)
}

/// The states of nodes that were painted.
pub open spec fn inline_states(children: Seq<InlineNode>) -> Seq<InlineStateView> {
    children.map_values(|c: InlineNode| c.state@)
}

impl View for Paragraph {
    type V = ParagraphView;

    open spec fn view(&self) -> ParagraphView {
        ParagraphView {
            span: self.span,
            children: inline_views(self.children@),
            link_refs: self.link_refs@,
        }
    }
}

/// The texts of `children`, one after the other.
pub open spec fn inline_text(children: Seq<InlineView>) -> Seq<char>
    decreases children.len(),
{
    if children.len() == 0 {
        Seq::empty()
    } else {
        inline_text(children.drop_last()) + children.last().text
    }
}

/// The selected texts of `states`, one after the other.
pub open spec fn selected_texts(states: Seq<InlineStateView>) -> Seq<char>
    decreases states.len(),
{
    if states.len() == 0 {
        Seq::empty()
    } else {
        selected_texts(states.drop_last()) + states.last().selected()
    }
}

pub open spec fn all_unselected(states: Seq<InlineStateView>) -> Seq<InlineStateView> {
    states.map_values(|s: InlineStateView| s.unselected())
}

/// All that was painted of a paragraph.
pub open spec fn paragraph_states(p: Paragraph) -> Seq<InlineStateView> {
    inline_states(p.children@).push(p.state@)
}

impl ParagraphView {
    pub open spec fn empty() -> ParagraphView {
        ParagraphView { span: None, children: Seq::empty(), link_refs: Map::empty() }
    }

    /// Whether there is nothing to see.
    pub open spec fn is_empty(self) -> bool {
        forall|i: int|
            0 <= i < self.children.len() ==> (#[trigger] self.children[i]).text.len() == 0
                && self.children[i].image is None
    }

    pub open spec fn has_image(self) -> bool {
        exists|i: int|
            0 <= i < self.children.len() && (#[trigger] self.children[i]).image is Some
    }

    pub open spec fn has_text(self) -> bool {
        exists|i: int|
            0 <= i < self.children.len() && (#[trigger] self.children[i]).text.len() > 0
    }

    pub open spec fn has_code(self) -> bool {
        exists|i: int| 0 <= i < self.children.len() && has_code_mark(#[trigger] self.children[i])
    }

    /// Whether the paragraph is laid out piece by piece: it holds text next
    /// to images, or code.
    pub open spec fn flows(self) -> bool {
        (self.has_image() && self.has_text()) || self.has_code()
    }
}

pub open spec fn has_code_mark(node: InlineView) -> bool {
    exists|i: int| 0 <= i < node.marks.len() && (#[trigger] node.marks[i]).mark.code
}

/// A number that is as large as can be counted where `n` is larger.
pub open spec fn counted(n: nat) -> nat {
    if n <= usize::MAX {
        n
    } else {
        usize::MAX as nat
    }
}

impl Paragraph {
    /// The selected text of all pieces, and then that of the paragraph as a whole.
    pub open spec fn selection(self) -> Seq<char> {
        selected_texts(inline_states(self.children@)) + self.state@.selected()
    }

    /// An empty paragraph.
    pub fn empty() -> (p: Paragraph)
        ensures
            p@ == ParagraphView::empty(),
            p.state@ == InlineStateView::empty(),
    {
        let p = Paragraph {
            span: None,
            children: Vec::new(),
            link_refs: Refs::new(),
            state: InlineState::default(),
        };
        assert(p@.children =~= Seq::empty());
        p
    }

    /// A paragraph of plain text.
    pub fn new(text: &str) -> (p: Paragraph)
        ensures
            p@ == (ParagraphView {
                children: seq![InlineView { text: text@, image: None, marks: Seq::empty() }],
                ..ParagraphView::empty()
            }),
            inline_states(p.children@) == seq![InlineStateView::empty()],
            p.state@ == InlineStateView::empty(),
    {
        let mut p = Paragraph::empty();
        assert(p@.children.len() == p.children@.len());
        p.children.push(InlineNode::new(text));
        assert(inline_states(p.children@) =~= seq![InlineStateView::empty()]);
        assert(p@.children =~= seq![
            InlineView { text: text@, image: None, marks: Seq::empty() },
        ]);
        p
    }

    /// The selected text.
    pub fn selected_text(&self) -> (text: String)
        ensures
            text@ == self.selection(),
    {
        let ghost states = inline_states(self.children@);
        let mut text = String::new();
        assert(text@ =~= selected_texts(states.take(0)));
        for i in 0..self.children.len()
            invariant
                states == inline_states(self.children@),
                text@ == selected_texts(states.take(i as int)),
        {
            assert(states.take(i as int + 1).drop_last() =~= states.take(i as int));
            text.append(self.children[i].state.selected_text().as_str());
        }
        assert(states.take(states.len() as int) =~= states);
        text.append(self.state.selected_text().as_str());
        text
    }

    /// The text of all pieces.
    pub fn text(&self) -> (text: String)
        ensures
            text@ == inline_text(self@.children),
    {
        let ghost views = self@.children;
        let mut text = String::new();
        assert(text@ =~= inline_text(views.take(0)));
        for i in 0..self.children.len()
            invariant
                views == inline_views(self.children@),
                text@ == inline_text(views.take(i as int)),
        {
            assert(views.take(i as int + 1).drop_last() =~= views.take(i as int));
            text.append(self.children[i].text.as_str());
        }
        assert(views.take(views.len() as int) =~= views);
        text
    }

    /// Selects nothing.
    pub fn clear_selection(&mut self)
        ensures
            final(self)@ == old(self)@,
            final(self).link_refs == old(self).link_refs,
            inline_states(final(self).children@) == all_unselected(
                inline_states(old(self).children@),
            ),
            final(self).state@ == old(self).state@.unselected(),
    {
        let ghost before = self.children@;
        let n: usize = self.children.len();
        let ghost refs = self.link_refs;
        let ghost span = self.span;
        let ghost state = self.state;
        for i in 0..n
            invariant
                n == before.len(),
                self.children@.len() == n,
                self.link_refs == refs,
                self.span == span,
                self.state == state,
                forall|k: int|
                    0 <= k < n ==> (#[trigger] self.children@[k])@ == before[k]@ && self.children@[k].state@
                        == if k < i {
                        before[k].state@.unselected()
                    } else {
                        before[k].state@
                    },
        {
            self.children[i].state.clear_selection();
        }
        self.state.clear_selection();
        assert(inline_views(self.children@) =~= inline_views(before));
        assert(inline_states(self.children@) =~= all_unselected(inline_states(before)));
    }

    /// Hands the paragraph out, and leaves an empty one.
    pub fn take(&mut self) -> (p: Paragraph)
        ensures
            p == *old(self),
            final(self)@ == ParagraphView::empty(),
            final(self).state@ == InlineStateView::empty(),
    {
        let mut p = Paragraph::empty();
        core::mem::swap(self, &mut p);
        p
    }

    /// A paragraph is no image, even where it holds one.
    pub fn is_image(&self) -> (r: bool)
        ensures
            !r,
    {
        false
    }

    pub fn set_span(&mut self, span: Span)
        ensures
            final(self)@ == (ParagraphView { span: Some(span), ..old(self)@ }),
            final(self).children == old(self).children,
            final(self).link_refs == old(self).link_refs,
            final(self).state == old(self).state,
    {
        self.span = Some(span);
    }

    /// Adds plain text.
    pub fn push_str(&mut self, text: &str)
        ensures
            final(self)@.children == old(self)@.children.push(
                InlineView {
                    text: text@,
                    image: None,
                    marks: seq![
                        RangeMarkView {
                            range: Range { start: 0, end: byte_len(text@) as usize },
                            mark: MarkView::plain(),
                        },
                    ],
                },
            ),
            final(self)@.span == old(self)@.span,
            final(self)@.link_refs == old(self)@.link_refs,
            inline_states(final(self).children@) == inline_states(old(self).children@).push(
                InlineStateView::empty(),
            ),
            final(self).state == old(self).state,
    {
        let mut marks: Vec<(Range<usize>, TextMark)> = Vec::new();
        marks.push((0..str_len(text), TextMark::default()));
        assert(range_marks(marks@) =~= seq![
            RangeMarkView {
                range: Range { start: 0, end: byte_len(text@) as usize },
                mark: MarkView::plain(),
            },
        ]);
        self.push(InlineNode::new(text).marks(marks));
        assert(inline_states(self.children@) =~= inline_states(old(self).children@).push(
            InlineStateView::empty(),
        ));
    }

    /// Adds a piece.
    pub fn push(&mut self, node: InlineNode)
        ensures
            final(self).children@ == old(self).children@.push(node),
            final(self)@ == (ParagraphView {
                children: old(self)@.children.push(node@),
                ..old(self)@
            }),
            final(self).state == old(self).state,
    {
        self.children.push(node);
        assert(self@.children =~= old(self)@.children.push(node@));
    }

    /// Adds an image.
    pub fn push_image(&mut self, image: ImageNode)
        ensures
            final(self)@.children == old(self)@.children.push(
                InlineView { text: Seq::empty(), image: Some(image@), marks: Seq::empty() },
            ),
            final(self)@.span == old(self)@.span,
            final(self)@.link_refs == old(self)@.link_refs,
            inline_states(final(self).children@) == inline_states(old(self).children@).push(
                InlineStateView::empty(),
            ),
            final(self).state == old(self).state,
    {
        self.push(InlineNode::image(image));
        assert(inline_states(self.children@) =~= inline_states(old(self).children@).push(
            InlineStateView::empty(),
        ));
    }

    /// Whether there is nothing to see.
    pub fn is_empty(&self) -> (r: bool)
        ensures
            r == self@.is_empty(),
    {
        for i in 0..self.children.len()
            invariant
                forall|k: int|
                    0 <= k < i ==> (#[trigger] self@.children[k]).text.len() == 0
                        && self@.children[k].image is None,
        {
            let node = &self.children[i];
            assert(self@.children[i as int] == node@);
            if node.text.as_str().unicode_len() > 0 || node.image.is_some() {
                return false;
            }
        }
        true
    }

    /// The number of bytes of the text of all pieces.
    pub fn text_len(&self) -> (n: usize)
        ensures
            n == counted(byte_len(inline_text(self@.children))),
    {
        let ghost views = self@.children;
        let mut n: usize = 0;
        assert(views.take(0) =~= Seq::empty());
        for i in 0..self.children.len()
            invariant
                views == inline_views(self.children@),
                n == counted(byte_len(inline_text(views.take(i as int)))),
        {
            assert(views.take(i as int + 1).drop_last() =~= views.take(i as int));
            proof {
                lemma_measure_concat(
                    Unit::Utf8,
                    inline_text(views.take(i as int)),
                    views[i as int].text,
                );
            }
            n = n.saturating_add(str_len(self.children[i].text.as_str()));
        }
        assert(views.take(views.len() as int) =~= views);
        n
    }

    /// Takes in the pieces of `other`.
    pub fn merge(&mut self, other: Paragraph)
        ensures
            final(self)@ == (ParagraphView {
                children: old(self)@.children + other@.children,
                ..old(self)@
            }),
            final(self).children@ == old(self).children@ + other.children@,
            final(self).state == old(self).state,
    {
        let mut other = other;
        let ghost more = other.children@;
        self.children.append(&mut other.children);
        assert(self@.children =~= old(self)@.children + inline_views(more));
    }

    fn has_inline_code(&self) -> (r: bool)
        ensures
            r == self@.has_code(),
    {
        for i in 0..self.children.len()
            invariant
                forall|k: int| 0 <= k < i ==> !has_code_mark(#[trigger] self@.children[k]),
        {
            let node = &self.children[i];
            assert(self@.children[i as int] == node@);
            for j in 0..node.marks.len()
                invariant
                    i < self.children.len(),
                    node == self.children@[i as int],
                    self@.children[i as int] == node@,
                    forall|k: int| 0 <= k < j ==> !(#[trigger] node@.marks[k]).mark.code,
            {
                assert(node@.marks[j as int] == crate::node::inline::range_mark(
                    node.marks@[j as int],
                ));
                if node.marks[j].1.code {
                    assert(has_code_mark(self@.children[i as int]));
                    return true;
                }
            }
        }
        false
    }

    /// Whether the paragraph is laid out piece by piece.
    pub fn should_render_inline_flow(&self) -> (r: bool)
        ensures
            r == self@.flows(),
    {
        let mut has_image: bool = false;
        let mut has_text: bool = false;
        for i in 0..self.children.len()
            invariant
                has_image == (exists|k: int|
                    0 <= k < i && (#[trigger] self@.children[k]).image is Some),
                has_text == (exists|k: int|
                    0 <= k < i && (#[trigger] self@.children[k]).text.len() > 0),
        {
            let node = &self.children[i];
            assert(self@.children[i as int] == node@);
            if node.image.is_some() {
                has_image = true;
            }
            if node.text.as_str().unicode_len() > 0 {
                has_text = true;
            }
        }
        (has_image && has_text) || self.has_inline_code()
    }

    /// Whether the paragraphs hold the same, whatever was painted of them.
    pub fn same_as(&self, other: &Paragraph) -> (r: bool)
        ensures
            r == (self@ == other@),
    {
        let same: bool = self.span == other.span && self.children.len() == other.children.len();
        if !same {
            assert(self@.children.len() == other@.children.len() ==> self@.span != other@.span);
            return false;
        }
        for i in 0..self.children.len()
            invariant
                self.children.len() == other.children.len(),
                forall|k: int|
                    0 <= k < i ==> (#[trigger] self.children@[k])@ == other.children@[k]@,
        {
            if !self.children[i].same_as(&other.children[i]) {
                assert(self@.children[i as int] != other@.children[i as int]);
                return false;
            }
        }
        assert(self@.children =~= other@.children);
        self.link_refs.same_as(&other.link_refs)
    }
}

/// A clone starts with what was painted and selected, and keeps it for itself.
impl Clone for Paragraph {
    fn clone(&self) -> (p: Self)
        ensures
            p@ == self@,
            inline_states(p.children@) == inline_states(self.children@),
            p.state@ == self.state@,
    {
        let mut children: Vec<InlineNode> = Vec::new();
        for i in 0..self.children.len()
            invariant
                children@.len() == i,
                forall|k: int|
                    0 <= k < i ==> (#[trigger] children@[k])@ == self.children@[k]@
                        && children@[k].state@ == self.children@[k].state@,
        {
            children.push(self.children[i].clone());
        }
        assert(inline_views(children@) =~= inline_views(self.children@));
        assert(inline_states(children@) =~= inline_states(self.children@));
        Paragraph {
            span: self.span,
            children,
            link_refs: self.link_refs.clone(),
            state: self.state.clone(),
        }
    }
}

impl PartialEq for Paragraph {
    fn eq(&self, other: &Self) -> (r: bool) {
        self.same_as(other)
    }
}

impl vstd::std_specs::cmp::PartialEqSpecImpl for Paragraph {
    open spec fn obeys_eq_spec() -> bool {
        true
    }

    open spec fn eq_spec(&self, other: &Self) -> bool {
        self@ == other@
    }
}

/// Once the selection was cleared, nothing is selected.
pub proof fn law_cleared_selects_nothing(states: Seq<InlineStateView>)
    ensures
        selected_texts(all_unselected(states)) == Seq::<char>::empty(),
    decreases states.len(),
{
    if states.len() > 0 {
        law_cleared_selects_nothing(states.drop_last());
        assert(all_unselected(states).drop_last() =~= all_unselected(states.drop_last()));
    }
    assert(selected_texts(all_unselected(states)) =~= Seq::<char>::empty());
}

} // verus!
