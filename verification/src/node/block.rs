//! The blocks of a document.
use crate::node::code_block::{CodeBlock, CodeView, HighlightStyle};
use crate::node::inline::InlineStateView;
use crate::node::marks::{clone_opt, opt_eq, opt_text, Span};
use crate::node::paragraph::{
    all_unselected, inline_states, inline_text, paragraph_states, selected_texts, Paragraph, ParagraphView,
};
use crate::node::table::{
    lemma_unselected_concat, rows_states, rows_text, Table, TableView,
};
use crate::strings::str_eq;
use core::ops::Range;
use vstd::prelude::*;

verus! {

/// A node that an extension of the language made.
#[derive(Debug)]
pub struct MarkdownNode {
    /// What is shown of the node where nothing else shows it.
    pub text: String,
    /// The source of the node.
    pub markdown: String,
    pub span: Option<Span>,
}

pub struct MarkdownView {
    pub text: Seq<char>,
    pub markdown: Seq<char>,
    pub span: Option<Span>,
}

impl View for MarkdownNode {
    type V = MarkdownView;

    open spec fn view(&self) -> MarkdownView {
        MarkdownView { text: self.text@, markdown: self.markdown@, span: self.span }
    }
}

impl MarkdownNode {
    pub fn same_as(&self, other: &MarkdownNode) -> (r: bool)
        ensures
            r == (self@ == other@),
    {
        str_eq(self.text.as_str(), other.text.as_str()) && str_eq(
            self.markdown.as_str(),
            other.markdown.as_str(),
        ) && self.span == other.span
    }
}

impl Clone for MarkdownNode {
    fn clone(&self) -> (node: Self)
        ensures
            node@ == self@,
    {
        MarkdownNode {
            text: self.text.as_str().to_owned(),
            markdown: self.markdown.as_str().to_owned(),
            span: self.span,
        }
    }
}

/// A block of a document.
#[derive(Debug)]
#[allow(inconsistent_fields)]
pub enum BlockNode {
    /// Blocks one below the other.
    Root { children: Vec<BlockNode>, span: Option<Span> },
    Paragraph(Paragraph),
    Heading { level: u8, children: Paragraph, span: Option<Span> },
    Blockquote { children: Vec<BlockNode>, span: Option<Span> },
    /// A list. Only items are shown.
    List { children: Vec<BlockNode>, ordered: bool, span: Option<Span> },
    /// An item of a list. `checked` is set where it has a box to check.
    ListItem { children: Vec<BlockNode>, spread: bool, checked: Option<bool>, span: Option<Span> },
    CodeBlock(CodeBlock),
    Custom(MarkdownNode),
    Table(Table),
    Break { html: bool, span: Option<Span> },
    HorizontalRule { span: Option<Span> },
    /// A definition that links can refer to.
    Definition { identifier: String, url: String, title: Option<String>, span: Option<Span> },
    Unknown,
}

/// What a `BlockNode` holds, all that was painted left out.
#[allow(inconsistent_fields)]
pub enum BlockView {
    Root { children: Seq<BlockView>, span: Option<Span> },
    Paragraph(ParagraphView),
    Heading { level: u8, children: ParagraphView, span: Option<Span> },
    Blockquote { children: Seq<BlockView>, span: Option<Span> },
    List { children: Seq<BlockView>, ordered: bool, span: Option<Span> },
    ListItem {
        children: Seq<BlockView>,
        spread: bool,
        checked: Option<bool>,
        span: Option<Span>,
    },
    CodeBlock(CodeView),
    Custom(MarkdownView),
    Table(TableView),
    Break { html: bool, span: Option<Span> },
    HorizontalRule { span: Option<Span> },
    Definition {
        identifier: Seq<char>,
        url: Seq<char>,
        title: Option<Seq<char>>,
        span: Option<Span>,
    },
    Unknown,
}

pub open spec fn block_view(node: BlockNode) -> BlockView
    decreases node,
{
    match node {
        BlockNode::Root { children, span } => BlockView::Root {
            children: block_views(children@),
            span,
        },
        BlockNode::Paragraph(p) => BlockView::Paragraph(p@),
        BlockNode::Heading { level, children, span } => BlockView::Heading {
            level,
            children: children@,
            span,
        },
        BlockNode::Blockquote { children, span } => BlockView::Blockquote {
            children: block_views(children@),
            span,
        },
        BlockNode::List { children, ordered, span } => BlockView::List {
            children: block_views(children@),
            ordered,
            span,
        },
        BlockNode::ListItem { children, spread, checked, span } => BlockView::ListItem {
            children: block_views(children@),
            spread,
            checked,
            span,
        },
        BlockNode::CodeBlock(c) => BlockView::CodeBlock(c@),
        BlockNode::Custom(m) => BlockView::Custom(m@),
        BlockNode::Table(t) => BlockView::Table(t@),
        BlockNode::Break { html, span } => BlockView::Break { html, span },
        BlockNode::HorizontalRule { span } => BlockView::HorizontalRule { span },
        BlockNode::Definition { identifier, url, title, span } => BlockView::Definition {
            identifier: identifier@,
            url: url@,
            title: opt_text(title),
            span,
        },
        BlockNode::Unknown => BlockView::Unknown,
    }
}

pub open spec fn block_views(nodes: Seq<BlockNode>) -> Seq<BlockView>
    decreases nodes,
{
    if nodes.len() == 0 {
        Seq::empty()
    } else {
        block_views(nodes.drop_last()).push(block_view(nodes.last()))
    }
}

impl View for BlockNode {
    type V = BlockView;

    open spec fn view(&self) -> BlockView {
        block_view(*self)
    }
}

pub proof fn lemma_block_views(nodes: Seq<BlockNode>)
    ensures
        block_views(nodes).len() == nodes.len(),
        forall|k: int|
            0 <= k < nodes.len() ==> #[trigger] block_views(nodes)[k] == block_view(nodes[k]),
    decreases nodes.len(),
{
    if nodes.len() > 0 {
        lemma_block_views(nodes.drop_last());
        assert forall|k: int| 0 <= k < nodes.len() implies #[trigger] block_views(nodes)[k]
            == block_view(nodes[k]) by {
            if k < nodes.len() - 1 {
                assert(block_views(nodes)[k] == block_views(nodes.drop_last())[k]);
            }
        }
    }
}

// ---------------------------------------------------------------------------
// Text

/// A text and the end of its line; nothing where the text is empty.
pub open spec fn lined(text: Seq<char>) -> Seq<char> {
    if text.len() == 0 {
        text
    } else {
        text.push('\n')
    }
}

/// The text of a node, or the selected part of it.
pub open spec fn text_of(node: BlockNode, selected: bool) -> Seq<char>
    decreases node,
{
    match node {
        BlockNode::Root { children, .. } => lined(texts_of(children@, selected)),
        BlockNode::Paragraph(p) => lined(paragraph_text(p, selected)),
        BlockNode::Heading { children, .. } => lined(paragraph_text(children, selected)),
        BlockNode::Blockquote { children, .. } => lined(texts_of(children@, selected)),
        BlockNode::List { children, .. } => texts_of(children@, selected),
        BlockNode::ListItem { children, .. } => texts_of(children@, selected),
        BlockNode::CodeBlock(c) => lined(
            if selected {
                c.painted().selected()
            } else {
                c@.code
            },
        ),
        BlockNode::Custom(m) => if selected {
            Seq::empty()
        } else {
            lined(m@.text)
        },
        BlockNode::Table(t) => lined(rows_text(t.children@, selected)),
        _ => Seq::empty(),
    }
}

pub open spec fn paragraph_text(p: Paragraph, selected: bool) -> Seq<char> {
    if selected {
        p.selection()
    } else {
        inline_text(p@.children)
    }
}

/// The texts of nodes, one after the other.
pub open spec fn texts_of(nodes: Seq<BlockNode>, selected: bool) -> Seq<char>
    decreases nodes,
{
    if nodes.len() == 0 {
        Seq::empty()
    } else {
        texts_of(nodes.drop_last(), selected) + text_of(nodes.last(), selected)
    }
}

fn line_of(text: String) -> (line: String)
    ensures
        line@ == lined(text@),
{
    let mut line = text;
    if line.as_str().unicode_len() > 0 {
        line.push('\n');
    }
    line
}

fn text_of_paragraph(p: &Paragraph, selected: bool) -> (text: String)
    ensures
        text@ == paragraph_text(*p, selected),
{
    if selected {
        p.selected_text()
    } else {
        p.text()
    }
}

impl BlockNode {
    /// The text of the node.
    pub fn text(&self) -> (text: String)
        ensures
            text@ == text_of(*self, false),
    {
        self.text_by_kind(false)
    }

    /// The selected part of the text of the node.
    pub fn selected_text(&self) -> (text: String)
        ensures
            text@ == text_of(*self, true),
    {
        self.text_by_kind(true)
    }

    fn text_by_kind(&self, selected: bool) -> (text: String)
        ensures
            text@ == text_of(*self, selected),
        decreases self,
    {
        match self {
            BlockNode::Root { children, .. } => line_of(Self::children_text(children, selected)),
            BlockNode::Paragraph(p) => line_of(text_of_paragraph(p, selected)),
            BlockNode::Heading { children, .. } => line_of(text_of_paragraph(children, selected)),
            BlockNode::Blockquote { children, .. } => line_of(
                Self::children_text(children, selected),
            ),
            BlockNode::List { children, .. } => Self::children_text(children, selected),
            BlockNode::ListItem { children, .. } => Self::children_text(children, selected),
            BlockNode::CodeBlock(c) => line_of(
                if selected {
                    c.selected_text()
                } else {
                    c.text()
                },
            ),
            BlockNode::Custom(m) => if selected {
                empty()
            } else {
                line_of(m.text.as_str().to_owned())
            },
            BlockNode::Table(t) => line_of(t.text(selected)),
            BlockNode::Break { .. } => empty(),
            BlockNode::HorizontalRule { .. } => empty(),
            BlockNode::Definition { .. } => empty(),
            BlockNode::Unknown => empty(),
        }
    }

    fn children_text(children: &Vec<BlockNode>, selected: bool) -> (text: String)
        ensures
            text@ == texts_of(children@, selected),
        decreases children,
    {
        let mut text = String::new();
        assert(text@ =~= texts_of(children@.take(0), selected));
        for i in 0..children.len()
            invariant
                text@ == texts_of(children@.take(i as int), selected),
            decreases children.len() - i,
        {
            assert(children@.take(i as int + 1).drop_last() =~= children@.take(i as int));
            let part = children[i].text_by_kind(selected);
            text.append(part.as_str());
        }
        assert(children@.take(children@.len() as int) =~= children@);
        text
    }
}

fn empty() -> (s: String)
    ensures
        s@ == Seq::<char>::empty(),
{
    let s = String::new();
    assert(s@ =~= Seq::<char>::empty());
    s
}

// ---------------------------------------------------------------------------
// Kinds and spans

/// The place of a node in its source.
pub open spec fn span_of(node: BlockView) -> Option<Span> {
    match node {
        BlockView::Root { span, .. } => span,
        BlockView::Paragraph(p) => p.span,
        BlockView::Heading { span, .. } => span,
        BlockView::Blockquote { span, .. } => span,
        BlockView::List { span, .. } => span,
        BlockView::ListItem { span, .. } => span,
        BlockView::CodeBlock(c) => c.span,
        BlockView::Custom(m) => m.span,
        BlockView::Table(t) => t.span,
        BlockView::Break { span, .. } => span,
        BlockView::HorizontalRule { span } => span,
        BlockView::Definition { span, .. } => span,
        BlockView::Unknown => None,
    }
}

/// The node without the roots around it that hold nothing else.
pub open spec fn compacted(node: BlockView) -> BlockView
    decreases node,
{
    match node {
        BlockView::Root { children, .. } => if children.len() == 1 {
            compacted(children[0])
        } else {
            node
        },
        _ => node,
    }
}

impl BlockNode {
    pub fn is_list_item(&self) -> (r: bool)
        ensures
            r == (self@ is ListItem),
    {
        match self {
            BlockNode::ListItem { .. } => true,
            _ => false,
        }
    }

    /// The place of the node in its source.
    pub fn span(&self) -> (span: Option<Span>)
        ensures
            span == span_of(self@),
    {
        match self {
            BlockNode::Root { span, .. } => *span,
            BlockNode::Paragraph(p) => p.span,
            BlockNode::Heading { span, .. } => *span,
            BlockNode::Blockquote { span, .. } => *span,
            BlockNode::List { span, .. } => *span,
            BlockNode::ListItem { span, .. } => *span,
            BlockNode::CodeBlock(c) => c.source_span(),
            BlockNode::Custom(m) => m.span,
            BlockNode::Table(t) => t.span,
            BlockNode::Break { span, .. } => *span,
            BlockNode::HorizontalRule { span } => *span,
            BlockNode::Definition { span, .. } => *span,
            BlockNode::Unknown => None,
        }
    }

    /// Takes the node out of the roots around it that hold nothing else.
    pub fn compact(self) -> (node: BlockNode)
        ensures
            node@ == compacted(self@),
            states_of(node) == states_of(self),
            styles_of(node) == styles_of(self),
        decreases self,
    {
        proof {
            reveal_with_fuel(block_view, 2);
            reveal_with_fuel(block_views, 2);
            reveal_with_fuel(states_of, 2);
            reveal_with_fuel(all_states, 2);
            reveal_with_fuel(styles_of, 2);
            reveal_with_fuel(all_styles, 2);
        }
        match self {
            BlockNode::Root { children, span } => {
                let mut children = children;
                let ghost nodes = children@;
                proof {
                    lemma_block_views(nodes);
                }
                if children.len() == 1 {
                    let only = children.remove(0);
                    assert(only == nodes[0]);
                    assert(nodes.drop_last() =~= Seq::empty());
                    assert(all_states(nodes) =~= states_of(only));
                    assert(all_styles(nodes) =~= styles_of(only));
                    only.compact()
                } else {
                    BlockNode::Root { children, span }
                }
            },
            other => other,
        }
    }
}

// ---------------------------------------------------------------------------
// Selection

/// All that was painted of a node.
pub open spec fn states_of(node: BlockNode) -> Seq<InlineStateView>
    decreases node,
{
    match node {
        BlockNode::Root { children, .. } => all_states(children@),
        BlockNode::Paragraph(p) => paragraph_states(p),
        BlockNode::Heading { children, .. } => paragraph_states(children),
        BlockNode::Blockquote { children, .. } => all_states(children@),
        BlockNode::List { children, .. } => all_states(children@),
        BlockNode::ListItem { children, .. } => all_states(children@),
        BlockNode::CodeBlock(c) => seq![c.painted()],
        BlockNode::Table(t) => rows_states(t.children@),
        _ => Seq::empty(),
    }
}

/// All that was painted of nodes.
pub open spec fn all_states(nodes: Seq<BlockNode>) -> Seq<InlineStateView>
    decreases nodes,
{
    if nodes.len() == 0 {
        Seq::empty()
    } else {
        all_states(nodes.drop_last()) + states_of(nodes.last())
    }
}

/// The styles that were worked out for the blocks of code in a node.
pub open spec fn styles_of(node: BlockNode) -> Seq<Option<Seq<(Range<usize>, HighlightStyle)>>>
    decreases node,
{
    match node {
        BlockNode::Root { children, .. } => all_styles(children@),
        BlockNode::Blockquote { children, .. } => all_styles(children@),
        BlockNode::List { children, .. } => all_styles(children@),
        BlockNode::ListItem { children, .. } => all_styles(children@),
        BlockNode::CodeBlock(c) => seq![c.known_styles()],
        _ => Seq::empty(),
    }
}

/// The styles that were worked out for the blocks of code in nodes.
pub open spec fn all_styles(nodes: Seq<BlockNode>) -> Seq<
    Option<Seq<(Range<usize>, HighlightStyle)>>,
>
    decreases nodes,
{
    if nodes.len() == 0 {
        Seq::empty()
    } else {
        all_styles(nodes.drop_last()) + styles_of(nodes.last())
    }
}

pub(crate) proof fn lemma_blocks_styled(a: Seq<BlockNode>, b: Seq<BlockNode>)
    requires
        a.len() == b.len(),
        forall|k: int| 0 <= k < a.len() ==> styles_of(#[trigger] a[k]) == styles_of(b[k]),
    ensures
        all_styles(a) == all_styles(b),
    decreases a.len(),
{
    if a.len() > 0 {
        let x = a.drop_last();
        let y = b.drop_last();
        assert forall|k: int| 0 <= k < x.len() implies styles_of(#[trigger] x[k]) == styles_of(
            y[k],
        ) by {
            assert(a[k] == x[k]);
        }
        lemma_blocks_styled(x, y);
        assert(a[a.len() - 1] == a.last());
    }
}

proof fn lemma_blocks_cleared(before: Seq<BlockNode>, after: Seq<BlockNode>)
    requires
        before.len() == after.len(),
        forall|k: int|
            0 <= k < before.len() ==> block_view(#[trigger] after[k]) == block_view(before[k]),
        forall|k: int|
            0 <= k < before.len() ==> states_of(#[trigger] after[k]) == all_unselected(
                states_of(before[k]),
            ),
    ensures
        block_views(after) == block_views(before),
        all_states(after) == all_unselected(all_states(before)),
    decreases before.len(),
{
    if before.len() == 0 {
        assert(all_states(after) =~= all_unselected(all_states(before)));
    } else {
        let b = before.drop_last();
        let a = after.drop_last();
        assert forall|k: int| 0 <= k < b.len() implies block_view(#[trigger] a[k]) == block_view(
            b[k],
        ) && states_of(a[k]) == all_unselected(states_of(b[k])) by {
            assert(after[k] == a[k]);
        }
        lemma_blocks_cleared(b, a);
        assert(after[after.len() - 1] == after.last());
        lemma_unselected_concat(all_states(b), states_of(before.last()));
    }
}

impl BlockNode {
    /// Selects nothing in the node, without it being painted again.
    pub fn clear_selection(&mut self)
        ensures
            final(self)@ == old(self)@,
            states_of(*final(self)) == all_unselected(states_of(*old(self))),
            styles_of(*final(self)) == styles_of(*old(self)),
        decreases *old(self),
    {
        match self {
            BlockNode::Root { children, .. } => {
                Self::clear_children(children);
            },
            BlockNode::Blockquote { children, .. } => {
                Self::clear_children(children);
            },
            BlockNode::List { children, .. } => {
                Self::clear_children(children);
            },
            BlockNode::ListItem { children, .. } => {
                Self::clear_children(children);
            },
            BlockNode::Paragraph(p) => {
                clear_paragraph(p);
            },
            BlockNode::Heading { children, .. } => {
                clear_paragraph(children);
            },
            BlockNode::Table(t) => {
                t.clear_selection();
            },
            BlockNode::CodeBlock(c) => {
                c.clear_selection();
            },
            _ => {},
        }
        assert(states_of(*self) =~= all_unselected(states_of(*old(self))));
    }

    fn clear_children(children: &mut Vec<BlockNode>)
        ensures
            block_views(final(children)@) == block_views(old(children)@),
            all_states(final(children)@) == all_unselected(all_states(old(children)@)),
            all_styles(final(children)@) == all_styles(old(children)@),
        decreases *old(children),
    {
        let ghost before = children@;
        let n: usize = children.len();
        for i in 0..n
            invariant
                before == old(children)@,
                n == before.len(),
                children@.len() == n,
                forall|k: int|
                    0 <= k < n ==> block_view(#[trigger] children@[k]) == block_view(before[k])
                        && styles_of(children@[k]) == styles_of(before[k]),
                forall|k: int|
                    0 <= k < i ==> states_of(#[trigger] children@[k]) == all_unselected(
                        states_of(before[k]),
                    ),
                forall|k: int| i <= k < n ==> #[trigger] children@[k] == before[k],
        {
            children[i].clear_selection();
        }
        proof {
            lemma_blocks_cleared(before, children@);
            lemma_blocks_styled(children@, before);
        }
    }
}

fn clear_paragraph(p: &mut Paragraph)
    ensures
        final(p)@ == old(p)@,
        paragraph_states(*final(p)) == all_unselected(paragraph_states(*old(p))),
{
    p.clear_selection();
    assert(paragraph_states(*p) =~= all_unselected(paragraph_states(*old(p))));
}

// ---------------------------------------------------------------------------
// Copies and comparison

proof fn lemma_blocks_alike(a: Seq<BlockNode>, b: Seq<BlockNode>)
    requires
        a.len() == b.len(),
        forall|k: int| 0 <= k < a.len() ==> block_view(#[trigger] a[k]) == block_view(b[k]),
        forall|k: int| 0 <= k < a.len() ==> states_of(#[trigger] a[k]) == states_of(b[k]),
    ensures
        block_views(a) == block_views(b),
        all_states(a) == all_states(b),
    decreases a.len(),
{
    if a.len() > 0 {
        let x = a.drop_last();
        let y = b.drop_last();
        assert forall|k: int| 0 <= k < x.len() implies block_view(#[trigger] x[k]) == block_view(
            y[k],
        ) && states_of(x[k]) == states_of(y[k]) by {
            assert(a[k] == x[k]);
        }
        lemma_blocks_alike(x, y);
        assert(a[a.len() - 1] == a.last());
    }
}

impl BlockNode {
    fn clone_children(children: &Vec<BlockNode>) -> (copy: Vec<BlockNode>)
        ensures
            block_views(copy@) == block_views(children@),
            all_states(copy@) == all_states(children@),
            all_styles(copy@) == all_styles(children@),
        decreases children,
    {
        let mut copy: Vec<BlockNode> = Vec::new();
        for i in 0..children.len()
            invariant
                copy@.len() == i,
                forall|k: int|
                    0 <= k < i ==> block_view(#[trigger] copy@[k]) == block_view(children@[k])
                        && states_of(copy@[k]) == states_of(children@[k])
                        && styles_of(copy@[k]) == styles_of(children@[k]),
        {
            let node = children[i].copied();
            copy.push(node);
        }
        proof {
            lemma_blocks_alike(copy@, children@);
            lemma_blocks_styled(copy@, children@);
        }
        copy
    }

    /// A copy of the node.
    pub fn copied(&self) -> (copy: BlockNode)
        ensures
            copy@ == self@,
            states_of(copy) == states_of(*self),
            styles_of(copy) == styles_of(*self),
        decreases self,
    {
        match self {
            BlockNode::Root { children, span } => BlockNode::Root {
                children: Self::clone_children(children),
                span: *span,
            },
            BlockNode::Paragraph(p) => {
                let p = p.clone();
                BlockNode::Paragraph(p)
            },
            BlockNode::Heading { level, children, span } => BlockNode::Heading {
                level: *level,
                children: children.clone(),
                span: *span,
            },
            BlockNode::Blockquote { children, span } => BlockNode::Blockquote {
                children: Self::clone_children(children),
                span: *span,
            },
            BlockNode::List { children, ordered, span } => BlockNode::List {
                children: Self::clone_children(children),
                ordered: *ordered,
                span: *span,
            },
            BlockNode::ListItem { children, spread, checked, span } => BlockNode::ListItem {
                children: Self::clone_children(children),
                spread: *spread,
                checked: *checked,
                span: *span,
            },
            BlockNode::CodeBlock(c) => BlockNode::CodeBlock(c.clone()),
            BlockNode::Custom(m) => BlockNode::Custom(m.clone()),
            BlockNode::Table(t) => BlockNode::Table(t.clone()),
            BlockNode::Break { html, span } => BlockNode::Break { html: *html, span: *span },
            BlockNode::HorizontalRule { span } => BlockNode::HorizontalRule { span: *span },
            BlockNode::Definition { identifier, url, title, span } => BlockNode::Definition {
                identifier: identifier.as_str().to_owned(),
                url: url.as_str().to_owned(),
                title: clone_opt(title),
                span: *span,
            },
            BlockNode::Unknown => BlockNode::Unknown,
        }
    }

    fn same_children(a: &Vec<BlockNode>, b: &Vec<BlockNode>) -> (r: bool)
        ensures
            r == (block_views(a@) == block_views(b@)),
        decreases a,
    {
        proof {
            lemma_block_views(a@);
            lemma_block_views(b@);
        }
        if a.len() != b.len() {
            assert(block_views(a@).len() != block_views(b@).len());
            return false;
        }
        for i in 0..a.len()
            invariant
                a.len() == b.len(),
                block_views(a@).len() == a.len(),
                block_views(b@).len() == b.len(),
                forall|k: int|
                    0 <= k < a.len() ==> #[trigger] block_views(a@)[k] == block_view(a@[k]),
                forall|k: int|
                    0 <= k < b.len() ==> #[trigger] block_views(b@)[k] == block_view(b@[k]),
                forall|k: int| 0 <= k < i ==> block_views(a@)[k] == #[trigger] block_views(b@)[k],
        {
            if !a[i].same_as(&b[i]) {
                assert(block_views(a@)[i as int] != block_views(b@)[i as int]);
                return false;
            }
        }
        assert(block_views(a@) =~= block_views(b@));
        true
    }

    /// Whether the nodes hold the same, whatever was painted of them.
    pub fn same_as(&self, other: &BlockNode) -> (r: bool)
        ensures
            r == (self@ == other@),
        decreases self,
    {
        match (self, other) {
            (
                BlockNode::Root { children: a, span: s },
                BlockNode::Root { children: b, span: t },
            ) => Self::same_children(a, b) && *s == *t,
            (BlockNode::Paragraph(a), BlockNode::Paragraph(b)) => a.same_as(b),
            (
                BlockNode::Heading { level: l, children: a, span: s },
                BlockNode::Heading { level: m, children: b, span: t },
            ) => *l == *m && a.same_as(b) && *s == *t,
            (
                BlockNode::Blockquote { children: a, span: s },
                BlockNode::Blockquote { children: b, span: t },
            ) => Self::same_children(a, b) && *s == *t,
            (
                BlockNode::List { children: a, ordered: o, span: s },
                BlockNode::List { children: b, ordered: p, span: t },
            ) => Self::same_children(a, b) && *o == *p && *s == *t,
            (
                BlockNode::ListItem { children: a, spread: o, checked: c, span: s },
                BlockNode::ListItem { children: b, spread: p, checked: d, span: t },
            ) => Self::same_children(a, b) && *o == *p && *c == *d && *s == *t,
            (BlockNode::CodeBlock(a), BlockNode::CodeBlock(b)) => a.same_as(b),
            (BlockNode::Custom(a), BlockNode::Custom(b)) => a.same_as(b),
            (BlockNode::Table(a), BlockNode::Table(b)) => a.same_as(b),
            (
                BlockNode::Break { html: a, span: s },
                BlockNode::Break { html: b, span: t },
            ) => *a == *b && *s == *t,
            (
                BlockNode::HorizontalRule { span: s },
                BlockNode::HorizontalRule { span: t },
            ) => *s == *t,
            (
                BlockNode::Definition { identifier: a, url: u, title: h, span: s },
                BlockNode::Definition { identifier: b, url: v, title: i, span: t },
            ) => str_eq(a.as_str(), b.as_str()) && str_eq(u.as_str(), v.as_str()) && opt_eq(h, i)
                && *s == *t,
            (BlockNode::Unknown, BlockNode::Unknown) => true,
            _ => false,
        }
    }
}

/// A clone starts with what was painted and selected, and keeps it for itself.
impl Clone for BlockNode {
    fn clone(&self) -> (node: Self)
        ensures
            node@ == self@,
            states_of(node) == states_of(*self),
            styles_of(node) == styles_of(*self),
    {
        self.copied()
    }
}

impl PartialEq for BlockNode {
    fn eq(&self, other: &Self) -> (r: bool) {
        self.same_as(other)
    }
}

impl vstd::std_specs::cmp::PartialEqSpecImpl for BlockNode {
    open spec fn obeys_eq_spec() -> bool {
        true
    }

    open spec fn eq_spec(&self, other: &Self) -> bool {
        self@ == other@
    }
}

// ---------------------------------------------------------------------------
// Laws

/// Whether there is no table in a node.
pub open spec fn no_table(node: BlockNode) -> bool
    decreases node,
{
    match node {
        BlockNode::Root { children, .. } => no_tables(children@),
        BlockNode::Blockquote { children, .. } => no_tables(children@),
        BlockNode::List { children, .. } => no_tables(children@),
        BlockNode::ListItem { children, .. } => no_tables(children@),
        BlockNode::Table(_) => false,
        _ => true,
    }
}

pub open spec fn no_tables(nodes: Seq<BlockNode>) -> bool
    decreases nodes,
{
    nodes.len() == 0 || (no_tables(nodes.drop_last()) && no_table(nodes.last()))
}

/// Whether nothing is selected in what was painted.
pub open spec fn none_selected(states: Seq<InlineStateView>) -> bool {
    forall|k: int| 0 <= k < states.len() ==> (#[trigger] states[k]).selection is None
}

proof fn lemma_nothing_selected(states: Seq<InlineStateView>)
    requires
        none_selected(states),
    ensures
        selected_texts(states) == Seq::<char>::empty(),
    decreases states.len(),
{
    if states.len() > 0 {
        let rest = states.drop_last();
        assert forall|k: int| 0 <= k < rest.len() implies (#[trigger] rest[k]).selection is None by {
            assert(states[k] == rest[k]);
        }
        lemma_nothing_selected(rest);
        assert(states[states.len() - 1].selection is None);
    }
    assert(selected_texts(states) =~= Seq::<char>::empty());
}

proof fn lemma_paragraph_unselected(p: Paragraph)
    requires
        none_selected(paragraph_states(p)),
    ensures
        p.selection() == Seq::<char>::empty(),
{
    let states = paragraph_states(p);
    let children = inline_states(p.children@);
    assert forall|k: int| 0 <= k < children.len() implies (
    #[trigger] children[k]).selection is None by {
        assert(states[k] == children[k]);
    }
    lemma_nothing_selected(children);
    assert(states[states.len() - 1] == p.state@);
    assert(p.selection() =~= Seq::<char>::empty());
}

/// Where nothing is selected, no text is. Tables are another matter: each of
/// their rows is a line of what is selected even where that is empty.
pub proof fn law_unselected_has_no_text(node: BlockNode)
    requires
        no_table(node),
        none_selected(states_of(node)),
    ensures
        text_of(node, true) == Seq::<char>::empty(),
    decreases node,
{
    match node {
        BlockNode::Root { children, .. } => lemma_unselected_texts(children@),
        BlockNode::Blockquote { children, .. } => lemma_unselected_texts(children@),
        BlockNode::List { children, .. } => lemma_unselected_texts(children@),
        BlockNode::ListItem { children, .. } => lemma_unselected_texts(children@),
        BlockNode::Paragraph(p) => lemma_paragraph_unselected(p),
        BlockNode::Heading { children, .. } => lemma_paragraph_unselected(children),
        BlockNode::CodeBlock(c) => {
            assert(states_of(node)[0] == c.painted());
        },
        _ => {},
    }
}

proof fn lemma_unselected_texts(nodes: Seq<BlockNode>)
    requires
        no_tables(nodes),
        none_selected(all_states(nodes)),
    ensures
        texts_of(nodes, true) == Seq::<char>::empty(),
    decreases nodes,
{
    if nodes.len() > 0 {
        let rest = nodes.drop_last();
        let a = all_states(rest);
        let b = states_of(nodes.last());
        assert forall|k: int| 0 <= k < a.len() implies (#[trigger] a[k]).selection is None by {
            assert((a + b)[k] == a[k]);
        }
        assert forall|k: int| 0 <= k < b.len() implies (#[trigger] b[k]).selection is None by {
            assert((a + b)[a.len() + k] == b[k]);
        }
        lemma_unselected_texts(rest);
        law_unselected_has_no_text(nodes.last());
    }
    assert(texts_of(nodes, true) =~= Seq::<char>::empty());
}

proof fn lemma_alike_no_table(a: BlockNode, b: BlockNode)
    requires
        block_view(a) == block_view(b),
    ensures
        no_table(a) == no_table(b),
    decreases a,
{
    match (a, b) {
        (BlockNode::Root { children: x, .. }, BlockNode::Root { children: y, .. }) => {
            lemma_alike_no_tables(x@, y@)
        },
        (BlockNode::Blockquote { children: x, .. }, BlockNode::Blockquote { children: y, .. }) => {
            lemma_alike_no_tables(x@, y@)
        },
        (BlockNode::List { children: x, .. }, BlockNode::List { children: y, .. }) => {
            lemma_alike_no_tables(x@, y@)
        },
        (BlockNode::ListItem { children: x, .. }, BlockNode::ListItem { children: y, .. }) => {
            lemma_alike_no_tables(x@, y@)
        },
        _ => {},
    }
}

proof fn lemma_alike_no_tables(a: Seq<BlockNode>, b: Seq<BlockNode>)
    requires
        block_views(a) == block_views(b),
    ensures
        no_tables(a) == no_tables(b),
    decreases a,
{
    lemma_block_views(a);
    lemma_block_views(b);
    if a.len() > 0 {
        let x = a.drop_last();
        let y = b.drop_last();
        assert(block_views(a).drop_last() =~= block_views(x));
        assert(block_views(b).drop_last() =~= block_views(y));
        assert(block_views(a).last() == block_view(a.last()));
        lemma_alike_no_tables(x, y);
        lemma_alike_no_table(a.last(), b.last());
    }
}

/// Once the selection of a node was cleared, no text of it is selected.
pub proof fn law_cleared_has_no_text(before: BlockNode, after: BlockNode)
    requires
        no_table(before),
        after@ == before@,
        states_of(after) == all_unselected(states_of(before)),
    ensures
        text_of(after, true) == Seq::<char>::empty(),
{
    lemma_alike_no_table(before, after);
    assert forall|k: int| 0 <= k < states_of(after).len() implies (
    #[trigger] states_of(after)[k]).selection is None by {
        assert(states_of(after)[k] == states_of(before)[k].unselected());
    }
    law_unselected_has_no_text(after);
}

/// A text that is empty, or ends where a line does.
pub open spec fn whole_lines(text: Seq<char>) -> bool {
    text.len() == 0 || text.last() == '\n'
}

/// The text of a node, and the selected part of it, is empty or ends with a
/// line. Definitions, breaks, rules and unknown nodes have no text at all. A
/// node of an extension has its text on a line, of which nothing is ever
/// selected.
pub proof fn law_text_is_lines(node: BlockNode, selected: bool)
    ensures
        whole_lines(text_of(node, selected)),
        node is Definition || node is Break || node is HorizontalRule || node is Unknown
            ==> text_of(node, selected) == Seq::<char>::empty(),
        node matches BlockNode::Custom(m) ==> {
            &&& text_of(node, true) == Seq::<char>::empty()
            &&& m@.text.len() > 0 ==> text_of(node, false) == m@.text.push('\n')
            &&& m@.text.len() == 0 ==> text_of(node, false) == Seq::<char>::empty()
        },
    decreases node,
{
    match node {
        BlockNode::List { children, .. } => lemma_texts_are_lines(children@, selected),
        BlockNode::ListItem { children, .. } => lemma_texts_are_lines(children@, selected),
        BlockNode::Custom(m) => {
            assert(m@.text.len() == 0 ==> text_of(node, false) =~= Seq::<char>::empty());
        },
        _ => {},
    }
}

proof fn lemma_texts_are_lines(nodes: Seq<BlockNode>, selected: bool)
    ensures
        whole_lines(texts_of(nodes, selected)),
    decreases nodes,
{
    if nodes.len() > 0 {
        let rest = texts_of(nodes.drop_last(), selected);
        let last = text_of(nodes.last(), selected);
        lemma_texts_are_lines(nodes.drop_last(), selected);
        law_text_is_lines(nodes.last(), selected);
        if last.len() == 0 {
            assert(rest + last =~= rest);
        } else {
            assert((rest + last).last() == last.last());
        }
    }
}

/// What was compacted is no root with one child, and compacting it again changes nothing.
pub proof fn law_compact_once(node: BlockView)
    ensures
        compacted(compacted(node)) == compacted(node),
        !(compacted(node) matches BlockView::Root { children, .. } && children.len() == 1),
    decreases node,
{
    match node {
        BlockView::Root { children, .. } => {
            if children.len() == 1 {
                law_compact_once(children[0]);
            }
        },
        _ => {},
    }
}

} // verus!
