//! What is shown of the blocks of a document.
use crate::node::block::{
    all_states, all_styles, block_view, block_views, lemma_blocks_styled, states_of, styles_of,
    BlockNode, MarkdownNode, MarkdownView,
};
use crate::node::code_block::{CodeBlock, CodeView, HighlightStyle};
use crate::node::inline::InlineStateView;
use crate::node::marks::{LinkMark, LinkView};
use crate::node::paint::{
    painted_paragraph, paragraph_name, rendering_of, Rendering, RenderingView,
};
use crate::node::paragraph::{counted, Paragraph};
use crate::node::refs::LinkRefs;
use crate::node::table_layout::{painted_rows, table_element, TableElement, TableElementView};
use crate::strings::{decimal, usize_to_string};
use core::ops::Range;
use vstd::prelude::*;

verus! {

/// Where a node is shown.
#[derive(Clone, Copy, PartialEq, Eq, Structural, Debug)]
pub struct NodeRenderOptions {
    /// The number of the node among its siblings.
    pub ix: usize,
    pub in_list: bool,
    /// Whether the node is in an item that has a box to check.
    pub todo: bool,
    /// Whether the node is in a list with numbers.
    pub ordered: bool,
    /// The number of lists around the node.
    pub depth: usize,
    pub is_last: bool,
}

impl Default for NodeRenderOptions {
    fn default() -> (o: Self)
        ensures
            o == (NodeRenderOptions {
                ix: 0,
                in_list: false,
                todo: false,
                ordered: false,
                depth: 0,
                is_last: false,
            }),
    {
        NodeRenderOptions {
            ix: 0,
            in_list: false,
            todo: false,
            ordered: false,
            depth: 0,
            is_last: false,
        }
    }
}

impl NodeRenderOptions {
    pub fn is_last(self, is_last: bool) -> (o: NodeRenderOptions)
        ensures
            o == (NodeRenderOptions { is_last, ..self }),
    {
        NodeRenderOptions { is_last, ..self }
    }

    /// Whether there is a gap below the node.
    pub open spec fn gap(self) -> bool {
        !(self.in_list || self.is_last)
    }

    /// The options for what is in an item of a list.
    pub open spec fn inside_item(self, checked: Option<bool>) -> NodeRenderOptions {
        NodeRenderOptions {
            depth: counted(self.depth as nat + 1) as usize,
            todo: checked is Some,
            is_last: true,
            ..self
        }
    }
}

/// The look of a document. Numbers are held as the bits of `f32` numbers.
#[derive(Clone, Copy, PartialEq, Eq, Structural, Debug)]
pub struct TextViewStyle {
    pub paragraph_gap: u32,
    pub heading_base_font_size: u32,
    /// Whether tables scroll sideways.
    pub scroll_tables: bool,
}

/// What the nodes of a document have in common.
#[derive(Debug)]
pub struct NodeContext {
    /// Where the document starts in its source.
    pub offset: usize,
    pub link_refs: LinkRefs,
    pub style: TextViewStyle,
    /// Whether there are actions for blocks of code.
    pub code_block_actions: bool,
}

pub struct NodeContextView {
    pub offset: usize,
    pub link_refs: Map<Seq<char>, LinkView>,
    pub style: TextViewStyle,
    pub code_block_actions: bool,
}

impl View for NodeContext {
    type V = NodeContextView;

    open spec fn view(&self) -> NodeContextView {
        NodeContextView {
            offset: self.offset,
            link_refs: self.link_refs@,
            style: self.style,
            code_block_actions: self.code_block_actions,
        }
    }
}

impl NodeContext {
    pub fn new(style: TextViewStyle) -> (cx: NodeContext)
        ensures
            cx@ == (NodeContextView {
                offset: 0,
                link_refs: Map::empty(),
                style,
                code_block_actions: false,
            }),
    {
        NodeContext { offset: 0, link_refs: LinkRefs::new(), style, code_block_actions: false }
    }

    /// Defines what links can refer to.
    pub fn add_ref(&mut self, identifier: String, link: LinkMark)
        ensures
            final(self)@ == (NodeContextView {
                link_refs: old(self)@.link_refs.insert(identifier@, link@),
                ..old(self)@
            }),
    {
        self.link_refs.insert(identifier, link);
    }

    /// Whether links and looks are the same. Where the documents start, and
    /// what can be done with code, does not count.
    pub fn same_as(&self, other: &NodeContext) -> (r: bool)
        ensures
            r == (self@.link_refs == other@.link_refs && self@.style == other@.style),
    {
        self.link_refs.same_as(&other.link_refs) && self.style == other.style
    }
}

impl PartialEq for NodeContext {
    fn eq(&self, other: &Self) -> (r: bool) {
        self.same_as(other)
    }
}

impl vstd::std_specs::cmp::PartialEqSpecImpl for NodeContext {
    open spec fn obeys_eq_spec() -> bool {
        true
    }

    open spec fn eq_spec(&self, other: &Self) -> bool {
        self@.link_refs == other@.link_refs && self@.style == other@.style
    }
}

// ---------------------------------------------------------------------------
// Elements

#[derive(Clone, Copy, PartialEq, Eq, Structural, Debug)]
pub enum FontWeight {
    Normal,
    Medium,
    Semibold,
    Bold,
}

/// What stands before a row of an item.
#[derive(Clone, Copy, PartialEq, Eq, Structural, Debug)]
pub enum Lead {
    /// The bullet or the number of the item, where it has one, or its box.
    Marker { prefix: Option<ItemPrefix>, checked: Option<bool> },
    /// The space that lists inside of the item are moved by.
    NestedList,
    /// The space that further content of the item is moved by.
    Continued,
}

/// What the bullet or the number of an item depends on.
#[derive(Clone, Copy, PartialEq, Eq, Structural, Debug)]
pub struct ItemPrefix {
    pub ix: usize,
    pub ordered: bool,
    pub depth: usize,
}

/// A row of an item: its content, and the paragraphs that go on below it.
#[derive(Debug)]
pub struct ItemRow {
    pub lead: Lead,
    pub content: Element,
    pub below: Vec<Element>,
}

/// What is shown of a child of a list.
#[derive(Debug)]
pub enum ItemElement {
    Item { ix: usize, spread: bool, rows: Vec<ItemRow> },
    Nothing,
}

/// What is shown of a node. A `gap` is below some of them.
#[derive(Debug)]
pub enum Element {
    Group { ix: usize, children: Vec<Element> },
    Paragraph { ix: usize, gap: bool, id: String, content: Rendering },
    /// A heading. Its size is in thousandths of the base size.
    Heading {
        id: String,
        size: u32,
        weight: FontWeight,
        level: u8,
        content_id: String,
        content: Rendering,
    },
    Blockquote { ix: usize, gap: bool, children: Vec<Element> },
    List { ix: usize, ordered: bool, gap: bool, items: Vec<ItemElement> },
    Code { ix: usize, gap: bool, actions: bool, block: CodeBlock },
    Custom { gap: bool, node: MarkdownNode },
    Table(TableElement),
    Rule { gap: bool },
    Break,
    Nothing,
}

pub struct ItemRowView {
    pub lead: Lead,
    pub content: ElementView,
    pub below: Seq<ElementView>,
}

pub enum ItemView {
    Item { ix: int, spread: bool, rows: Seq<ItemRowView> },
    Nothing,
}

pub enum ElementView {
    Group { ix: int, children: Seq<ElementView> },
    Paragraph { ix: int, gap: bool, id: Seq<char>, content: RenderingView },
    Heading {
        id: Seq<char>,
        size: u32,
        weight: FontWeight,
        level: u8,
        content_id: Seq<char>,
        content: RenderingView,
    },
    Blockquote { ix: int, gap: bool, children: Seq<ElementView> },
    List { ix: int, ordered: bool, gap: bool, items: Seq<ItemView> },
    /// A block of code, with the styles that were worked out for it and with
    /// what was painted of it.
    Code {
        ix: int,
        gap: bool,
        actions: bool,
        block: CodeView,
        styles: Option<Seq<(Range<usize>, HighlightStyle)>>,
        painted: InlineStateView,
    },
    Custom { gap: bool, node: MarkdownView },
    Table(TableElementView),
    Rule { gap: bool },
    Break,
    Nothing,
}

pub open spec fn element_view(e: Element) -> ElementView
    decreases e,
{
    match e {
        Element::Group { ix, children } => ElementView::Group {
            ix: ix as int,
            children: element_views(children@),
        },
        Element::Paragraph { ix, gap, id, content } => ElementView::Paragraph {
            ix: ix as int,
            gap,
            id: id@,
            content: content@,
        },
        Element::Heading { id, size, weight, level, content_id, content } => ElementView::Heading {
            id: id@,
            size,
            weight,
            level,
            content_id: content_id@,
            content: content@,
        },
        Element::Blockquote { ix, gap, children } => ElementView::Blockquote {
            ix: ix as int,
            gap,
            children: element_views(children@),
        },
        Element::List { ix, ordered, gap, items } => ElementView::List {
            ix: ix as int,
            ordered,
            gap,
            items: item_views(items@),
        },
        Element::Code { ix, gap, actions, block } => ElementView::Code {
            ix: ix as int,
            gap,
            actions,
            block: block@,
            styles: block.known_styles(),
            painted: block.painted(),
        },
        Element::Custom { gap, node } => ElementView::Custom { gap, node: node@ },
        Element::Table(t) => ElementView::Table(t@),
        Element::Rule { gap } => ElementView::Rule { gap },
        Element::Break => ElementView::Break,
        Element::Nothing => ElementView::Nothing,
    }
}

pub open spec fn element_views(s: Seq<Element>) -> Seq<ElementView>
    decreases s,
{
    if s.len() == 0 {
        Seq::empty()
    } else {
        element_views(s.drop_last()).push(element_view(s.last()))
    }
}

pub open spec fn row_view(row: ItemRow) -> ItemRowView
    decreases row,
{
    ItemRowView {
        lead: row.lead,
        content: element_view(row.content),
        below: element_views(row.below@),
    }
}

pub open spec fn row_views(s: Seq<ItemRow>) -> Seq<ItemRowView>
    decreases s,
{
    if s.len() == 0 {
        Seq::empty()
    } else {
        row_views(s.drop_last()).push(row_view(s.last()))
    }
}

pub open spec fn item_view(item: ItemElement) -> ItemView
    decreases item,
{
    match item {
        ItemElement::Item { ix, spread, rows } => ItemView::Item {
            ix: ix as int,
            spread,
            rows: row_views(rows@),
        },
        ItemElement::Nothing => ItemView::Nothing,
    }
}

pub open spec fn item_views(s: Seq<ItemElement>) -> Seq<ItemView>
    decreases s,
{
    if s.len() == 0 {
        Seq::empty()
    } else {
        item_views(s.drop_last()).push(item_view(s.last()))
    }
}

impl View for Element {
    type V = ElementView;

    open spec fn view(&self) -> ElementView {
        element_view(*self)
    }
}

// ---------------------------------------------------------------------------
// What is shown

/// The size of a heading, in thousandths of the base size, and its weight.
pub open spec fn heading_look(level: u8) -> (u32, FontWeight) {
    if level == 1 {
        (2000, FontWeight::Bold)
    } else if level == 2 {
        (1500, FontWeight::Semibold)
    } else if level == 3 {
        (1250, FontWeight::Semibold)
    } else if level == 4 {
        (1125, FontWeight::Semibold)
    } else if level == 5 {
        (1000, FontWeight::Semibold)
    } else if level == 6 {
        (1000, FontWeight::Medium)
    } else {
        (1000, FontWeight::Normal)
    }
}

pub open spec fn heading_name(level: u8, ix: nat) -> Seq<char> {
    "h"@ + decimal(level as nat) + "-"@ + decimal(ix)
}

/// The number of items among the children of a list.
pub open spec fn count_items(nodes: Seq<BlockNode>) -> nat
    decreases nodes.len(),
{
    if nodes.len() == 0 {
        0
    } else {
        count_items(nodes.drop_last()) + if nodes.last() is ListItem {
            1nat
        } else {
            0nat
        }
    }
}

/// What is shown of a node. Items that are in no list, and what only other
/// nodes refer to, are not shown.
pub open spec fn element_of(
    node: BlockNode,
    o: NodeRenderOptions,
    view: Seq<char>,
    cx: NodeContextView,
) -> ElementView
    decreases node,
{
    match node {
        BlockNode::Root { children, .. } => ElementView::Group {
            ix: o.ix as int,
            children: group_elements(children@, o, view, cx),
        },
        BlockNode::Paragraph(p) => ElementView::Paragraph {
            ix: o.ix as int,
            gap: o.gap(),
            id: paragraph_name(p@),
            content: rendering_of(p@, cx.link_refs),
        },
        BlockNode::Heading { level, children, .. } => ElementView::Heading {
            id: heading_name(level, o.ix as nat),
            size: heading_look(level).0,
            weight: heading_look(level).1,
            level,
            content_id: paragraph_name(children@),
            content: rendering_of(children@, cx.link_refs),
        },
        BlockNode::Blockquote { children, .. } => ElementView::Blockquote {
            ix: o.ix as int,
            gap: o.gap(),
            children: quote_elements(children@, children@.len(), o, view, cx),
        },
        BlockNode::List { children, ordered, .. } => ElementView::List {
            ix: o.ix as int,
            ordered,
            gap: o.gap(),
            items: list_items(children@, NodeRenderOptions { ordered, ..o }, view, cx),
        },
        BlockNode::CodeBlock(c) => ElementView::Code {
            ix: o.ix as int,
            gap: !o.is_last,
            actions: cx.code_block_actions,
            block: c@,
            styles: c.known_styles(),
            painted: c.painted(),
        },
        BlockNode::Custom(m) => ElementView::Custom { gap: o.gap(), node: m@ },
        BlockNode::Table(t) => ElementView::Table(
            table_element(t@, o.ix as nat, view, cx.style.scroll_tables, cx.link_refs),
        ),
        BlockNode::HorizontalRule { .. } => ElementView::Rule { gap: o.gap() },
        BlockNode::Break { .. } => ElementView::Break,
        _ => ElementView::Nothing,
    }
}

/// The children of a root are numbered.
pub open spec fn group_elements(
    nodes: Seq<BlockNode>,
    o: NodeRenderOptions,
    view: Seq<char>,
    cx: NodeContextView,
) -> Seq<ElementView>
    decreases nodes,
{
    if nodes.len() == 0 {
        Seq::empty()
    } else {
        group_elements(nodes.drop_last(), o, view, cx).push(
            element_of(
                nodes.last(),
                NodeRenderOptions { ix: (nodes.len() - 1) as usize, ..o },
                view,
                cx,
            ),
        )
    }
}

/// The last of the `n` children of a quote has no gap below it.
pub open spec fn quote_elements(
    nodes: Seq<BlockNode>,
    n: nat,
    o: NodeRenderOptions,
    view: Seq<char>,
    cx: NodeContextView,
) -> Seq<ElementView>
    decreases nodes,
{
    if nodes.len() == 0 {
        Seq::empty()
    } else {
        quote_elements(nodes.drop_last(), n, o, view, cx).push(
            element_of(
                nodes.last(),
                NodeRenderOptions { is_last: nodes.len() == n, ..o },
                view,
                cx,
            ),
        )
    }
}

/// Children of a list are numbered; items are also counted by themselves.
pub open spec fn list_items(
    nodes: Seq<BlockNode>,
    o: NodeRenderOptions,
    view: Seq<char>,
    cx: NodeContextView,
) -> Seq<ItemView>
    decreases nodes,
{
    if nodes.len() == 0 {
        Seq::empty()
    } else {
        list_items(nodes.drop_last(), o, view, cx).push(
            list_item(
                nodes.last(),
                count_items(nodes.drop_last()),
                NodeRenderOptions { ix: (nodes.len() - 1) as usize, ..o },
                view,
                cx,
            ),
        )
    }
}

pub open spec fn list_item(
    node: BlockNode,
    number: nat,
    o: NodeRenderOptions,
    view: Seq<char>,
    cx: NodeContextView,
) -> ItemView
    decreases node,
{
    match node {
        BlockNode::ListItem { children, spread, checked, .. } => ItemView::Item {
            ix: o.ix as int,
            spread,
            rows: item_rows(children@, number, o, checked, view, cx),
        },
        _ => ItemView::Nothing,
    }
}

/// The marker of an item. An item with a box, or inside of one, has no bullet or number.
pub open spec fn marker(number: nat, o: NodeRenderOptions, checked: Option<bool>) -> Lead {
    Lead::Marker {
        prefix: if !o.todo && checked is None {
            Some(ItemPrefix { ix: number as usize, ordered: o.ordered, depth: o.depth })
        } else {
            None
        },
        checked,
    }
}

pub open spec fn row_with(lead: Lead, content: ElementView) -> ItemRowView {
    ItemRowView { lead, content, below: Seq::empty() }
}

/// The rows of an item.
///  - A paragraph that follows anything but a list goes on below the row before it.
///  - Other paragraphs, and a first block of another kind, have the marker.
///  - Lists, and further blocks, are moved to where the text starts.
pub open spec fn item_rows(
    nodes: Seq<BlockNode>,
    number: nat,
    o: NodeRenderOptions,
    checked: Option<bool>,
    view: Seq<char>,
    cx: NodeContextView,
) -> Seq<ItemRowView>
    decreases nodes,
{
    if nodes.len() == 0 {
        Seq::empty()
    } else {
        let rows = item_rows(nodes.drop_last(), number, o, checked, view, cx);
        let node = nodes.last();
        let content = element_of(node, o.inside_item(checked), view, cx);
        let after_list = nodes.len() > 1 && nodes[nodes.len() - 2] is List;
        match node {
            BlockNode::Paragraph(_) => if nodes.len() > 1 && !after_list && rows.len() > 0 {
                let last = rows.last();
                rows.drop_last().push(
                    ItemRowView { below: last.below.push(content), ..last },
                )
            } else {
                rows.push(row_with(marker(number, o, checked), content))
            },
            BlockNode::List { .. } => rows.push(row_with(Lead::NestedList, content)),
            BlockNode::ListItem { .. } => rows,
            BlockNode::Break { .. } => rows,
            BlockNode::Definition { .. } => rows,
            BlockNode::Unknown => rows,
            _ => if nodes.len() == 1 {
                rows.push(row_with(marker(number, o, checked), content))
            } else {
                rows.push(row_with(Lead::Continued, content))
            },
        }
    }
}

// ---------------------------------------------------------------------------
// What is painted

/// All that is painted of a node once it is shown. What is not shown stays as it was.
pub open spec fn painted_of(node: BlockNode, refs: Map<Seq<char>, LinkView>) -> Seq<
    InlineStateView,
>
    decreases node,
{
    match node {
        BlockNode::Root { children, .. } => all_painted(children@, refs),
        BlockNode::Paragraph(p) => painted_paragraph(p, refs),
        BlockNode::Heading { children, .. } => painted_paragraph(children, refs),
        BlockNode::Blockquote { children, .. } => all_painted(children@, refs),
        BlockNode::List { children, .. } => items_painted(children@, refs),
        BlockNode::Table(t) => painted_rows(t.children@, refs),
        _ => states_of(node),
    }
}

pub open spec fn all_painted(nodes: Seq<BlockNode>, refs: Map<Seq<char>, LinkView>) -> Seq<
    InlineStateView,
>
    decreases nodes,
{
    if nodes.len() == 0 {
        Seq::empty()
    } else {
        all_painted(nodes.drop_last(), refs) + painted_of(nodes.last(), refs)
    }
}

pub open spec fn item_painted(node: BlockNode, refs: Map<Seq<char>, LinkView>) -> Seq<
    InlineStateView,
>
    decreases node,
{
    match node {
        BlockNode::ListItem { children, .. } => all_painted(children@, refs),
        _ => states_of(node),
    }
}

pub open spec fn items_painted(nodes: Seq<BlockNode>, refs: Map<Seq<char>, LinkView>) -> Seq<
    InlineStateView,
>
    decreases nodes,
{
    if nodes.len() == 0 {
        Seq::empty()
    } else {
        items_painted(nodes.drop_last(), refs) + item_painted(nodes.last(), refs)
    }
}

proof fn lemma_blocks_painted(
    before: Seq<BlockNode>,
    after: Seq<BlockNode>,
    refs: Map<Seq<char>, LinkView>,
)
    requires
        before.len() == after.len(),
        forall|k: int|
            0 <= k < before.len() ==> block_view(#[trigger] after[k]) == block_view(before[k]),
        forall|k: int|
            0 <= k < before.len() ==> states_of(#[trigger] after[k]) == painted_of(
                before[k],
                refs,
            ),
    ensures
        block_views(after) == block_views(before),
        all_states(after) == all_painted(before, refs),
    decreases before.len(),
{
    if before.len() > 0 {
        let b = before.drop_last();
        let a = after.drop_last();
        assert forall|k: int| 0 <= k < b.len() implies block_view(#[trigger] a[k]) == block_view(
            b[k],
        ) && states_of(a[k]) == painted_of(b[k], refs) by {
            assert(after[k] == a[k]);
        }
        lemma_blocks_painted(b, a, refs);
        assert(after[after.len() - 1] == after.last());
    }
}

proof fn lemma_items_painted(
    before: Seq<BlockNode>,
    after: Seq<BlockNode>,
    refs: Map<Seq<char>, LinkView>,
)
    requires
        before.len() == after.len(),
        forall|k: int|
            0 <= k < before.len() ==> block_view(#[trigger] after[k]) == block_view(before[k]),
        forall|k: int|
            0 <= k < before.len() ==> states_of(#[trigger] after[k]) == item_painted(
                before[k],
                refs,
            ),
    ensures
        block_views(after) == block_views(before),
        all_states(after) == items_painted(before, refs),
    decreases before.len(),
{
    if before.len() > 0 {
        let b = before.drop_last();
        let a = after.drop_last();
        assert forall|k: int| 0 <= k < b.len() implies block_view(#[trigger] a[k]) == block_view(
            b[k],
        ) && states_of(a[k]) == item_painted(b[k], refs) by {
            assert(after[k] == a[k]);
        }
        lemma_items_painted(b, a, refs);
        assert(after[after.len() - 1] == after.last());
    }
}

fn push_row(rows: &mut Vec<ItemRow>, lead: Lead, content: Element)
    ensures
        final(rows)@.len() == old(rows)@.len() + 1,
        row_views(final(rows)@) == row_views(old(rows)@).push(row_with(lead, content@)),
{
    proof {
        reveal_with_fuel(row_views, 2);
        reveal_with_fuel(row_view, 2);
        reveal_with_fuel(element_views, 2);
    }
    let ghost before = rows@;
    let below: Vec<Element> = Vec::new();
    assert(element_views(below@) =~= Seq::empty());
    rows.push(ItemRow { lead, content, below });
    assert(rows@.drop_last() =~= before);
}

proof fn lemma_row_views(rows: Seq<ItemRow>)
    ensures
        row_views(rows).len() == rows.len(),
    decreases rows.len(),
{
    if rows.len() > 0 {
        lemma_row_views(rows.drop_last());
    }
}

fn push_below(rows: &mut Vec<ItemRow>, content: Element)
    requires
        old(rows)@.len() > 0,
    ensures
        final(rows)@.len() == old(rows)@.len(),
        row_views(final(rows)@) == ({
            let before = row_views(old(rows)@);
            let last = before.last();
            before.drop_last().push(ItemRowView { below: last.below.push(content@), ..last })
        }),
{
    proof {
        reveal_with_fuel(row_views, 2);
        reveal_with_fuel(row_view, 2);
        reveal_with_fuel(element_views, 2);
    }
    let ghost before = rows@;
    match rows.pop() {
        Some(row) => {
            let ghost last = row_view(row);
            assert(row_views(before).last() == last);
            assert(row_views(before).drop_last() =~= row_views(before.drop_last()));
            let mut row = row;
            let ghost below = row.below@;
            row.below.push(content);
            assert(row.below@.drop_last() =~= below);
            assert(element_views(row.below@) == element_views(below).push(content@));
            assert(row_view(row) == (ItemRowView { below: last.below.push(content@), ..last }));
            rows.push(row);
            assert(rows@.drop_last() =~= before.drop_last());
        },
        None => {},
    }
}

fn look(level: u8) -> (r: (u32, FontWeight))
    ensures
        r == heading_look(level),
{
    if level == 1 {
        (2000, FontWeight::Bold)
    } else if level == 2 {
        (1500, FontWeight::Semibold)
    } else if level == 3 {
        (1250, FontWeight::Semibold)
    } else if level == 4 {
        (1125, FontWeight::Semibold)
    } else if level == 5 {
        (1000, FontWeight::Semibold)
    } else if level == 6 {
        (1000, FontWeight::Medium)
    } else {
        (1000, FontWeight::Normal)
    }
}

fn write_heading_name(level: u8, ix: usize) -> (name: String)
    ensures
        name@ == heading_name(level, ix as nat),
{
    let mut name = "h".to_owned();
    name.append(usize_to_string(level as usize).as_str());
    name.append("-");
    name.append(usize_to_string(ix).as_str());
    name
}

fn marker_of(number: usize, o: NodeRenderOptions, checked: Option<bool>) -> (lead: Lead)
    ensures
        lead == marker(number as nat, o, checked),
{
    Lead::Marker {
        prefix: if !o.todo && checked.is_none() {
            Some(ItemPrefix { ix: number, ordered: o.ordered, depth: o.depth })
        } else {
            None
        },
        checked,
    }
}

impl BlockNode {
    /// Works out what is shown of the node, and paints what is shown.
    pub fn render_block(&mut self, options: NodeRenderOptions, view: &str, cx: &NodeContext) -> (
        element: Element)
        ensures
            final(self)@ == old(self)@,
            element@ == element_of(*old(self), options, view@, cx@),
            states_of(*final(self)) == painted_of(*old(self), cx@.link_refs),
            styles_of(*final(self)) == styles_of(*old(self)),
        decreases *old(self),
    {
        let gap: bool = !(options.in_list || options.is_last);
        match self {
            BlockNode::Root { children, .. } => Element::Group {
                ix: options.ix,
                children: Self::render_group(children, options, view, cx),
            },
            BlockNode::Paragraph(p) => {
                let id = p.element_id();
                let content = p.render(&cx.link_refs);
                Element::Paragraph { ix: options.ix, gap, id, content }
            },
            BlockNode::Heading { level, children, .. } => {
                let (size, weight) = look(*level);
                let id = write_heading_name(*level, options.ix);
                let content_id = children.element_id();
                let content = children.render(&cx.link_refs);
                Element::Heading { id, size, weight, level: *level, content_id, content }
            },
            BlockNode::Blockquote { children, .. } => Element::Blockquote {
                ix: options.ix,
                gap,
                children: Self::render_quote(children, options, view, cx),
            },
            BlockNode::List { children, ordered, .. } => {
                let ordered: bool = *ordered;
                let items = Self::render_list(
                    children,
                    NodeRenderOptions { ordered, ..options },
                    view,
                    cx,
                );
                Element::List { ix: options.ix, ordered, gap, items }
            },
            BlockNode::CodeBlock(c) => Element::Code {
                ix: options.ix,
                gap: !options.is_last,
                actions: cx.code_block_actions,
                block: c.clone(),
            },
            BlockNode::Custom(m) => Element::Custom { gap, node: m.clone() },
            BlockNode::Table(t) => Element::Table(
                t.render(options.ix, view, cx.style.scroll_tables, &cx.link_refs),
            ),
            BlockNode::HorizontalRule { .. } => Element::Rule { gap },
            BlockNode::Break { .. } => Element::Break,
            _ => Element::Nothing,
        }
    }

    fn render_group(
        children: &mut Vec<BlockNode>,
        options: NodeRenderOptions,
        view: &str,
        cx: &NodeContext,
    ) -> (elements: Vec<Element>)
        ensures
            block_views(final(children)@) == block_views(old(children)@),
            all_states(final(children)@) == all_painted(old(children)@, cx@.link_refs),
            all_styles(final(children)@) == all_styles(old(children)@),
            element_views(elements@) == group_elements(
                old(children)@,
                options,
                view@,
                cx@,
            ),
        decreases *old(children),
    {
        let ghost before = children@;
        let n: usize = children.len();
        let mut elements: Vec<Element> = Vec::new();
        assert(before.take(0) =~= Seq::empty());
        for i in 0..n
            invariant
                before == old(children)@,
                n == before.len(),
                children@.len() == n,
                forall|k: int|
                    0 <= k < n ==> block_view(#[trigger] children@[k]) == block_view(before[k])
                        && styles_of(children@[k]) == styles_of(before[k]),
                forall|k: int|
                    0 <= k < i ==> states_of(#[trigger] children@[k]) == painted_of(
                        before[k],
                        cx@.link_refs,
                    ),
                forall|k: int| i <= k < n ==> #[trigger] children@[k] == before[k],
                element_views(elements@) == group_elements(
                    before.take(i as int),
                    options,
                    view@,
                    cx@,
                ),
        {
            let ghost done = elements@;
            assert(before.take(i as int + 1).drop_last() =~= before.take(i as int));
            assert(before.take(i as int + 1).last() == before[i as int]);
            let element = children[i].render_block(
                NodeRenderOptions { ix: i, ..options },
                view,
                cx,
            );
            elements.push(element);
            assert(elements@.drop_last() =~= done);
        }
        assert(before.take(n as int) =~= before);
        proof {
            lemma_blocks_painted(before, children@, cx@.link_refs);
            lemma_blocks_styled(children@, before);
        }
        elements
    }

    fn render_quote(
        children: &mut Vec<BlockNode>,
        options: NodeRenderOptions,
        view: &str,
        cx: &NodeContext,
    ) -> (elements: Vec<Element>)
        ensures
            block_views(final(children)@) == block_views(old(children)@),
            all_states(final(children)@) == all_painted(old(children)@, cx@.link_refs),
            all_styles(final(children)@) == all_styles(old(children)@),
            element_views(elements@) == quote_elements(
                old(children)@,
                old(children)@.len(),
                options,
                view@,
                cx@,
            ),
        decreases *old(children),
    {
        let ghost before = children@;
        let n: usize = children.len();
        let mut elements: Vec<Element> = Vec::new();
        assert(before.take(0) =~= Seq::empty());
        for i in 0..n
            invariant
                before == old(children)@,
                n == before.len(),
                children@.len() == n,
                forall|k: int|
                    0 <= k < n ==> block_view(#[trigger] children@[k]) == block_view(before[k])
                        && styles_of(children@[k]) == styles_of(before[k]),
                forall|k: int|
                    0 <= k < i ==> states_of(#[trigger] children@[k]) == painted_of(
                        before[k],
                        cx@.link_refs,
                    ),
                forall|k: int| i <= k < n ==> #[trigger] children@[k] == before[k],
                element_views(elements@) == quote_elements(
                    before.take(i as int),
                    n as nat,
                    options,
                    view@,
                    cx@,
                ),
        {
            let ghost done = elements@;
            assert(before.take(i as int + 1).drop_last() =~= before.take(i as int));
            assert(before.take(i as int + 1).last() == before[i as int]);
            let element = children[i].render_block(options.is_last(i == n - 1), view, cx);
            elements.push(element);
            assert(elements@.drop_last() =~= done);
        }
        assert(before.take(n as int) =~= before);
        proof {
            lemma_blocks_painted(before, children@, cx@.link_refs);
            lemma_blocks_styled(children@, before);
        }
        elements
    }

    fn render_list(
        children: &mut Vec<BlockNode>,
        options: NodeRenderOptions,
        view: &str,
        cx: &NodeContext,
    ) -> (items: Vec<ItemElement>)
        ensures
            block_views(final(children)@) == block_views(old(children)@),
            all_states(final(children)@) == items_painted(old(children)@, cx@.link_refs),
            all_styles(final(children)@) == all_styles(old(children)@),
            item_views(items@) == list_items(
                old(children)@,
                options,
                view@,
                cx@,
            ),
        decreases *old(children),
    {
        let ghost before = children@;
        let n: usize = children.len();
        let mut items: Vec<ItemElement> = Vec::new();
        let mut number: usize = 0;
        assert(before.take(0) =~= Seq::empty());
        for i in 0..n
            invariant
                before == old(children)@,
                n == before.len(),
                children@.len() == n,
                forall|k: int|
                    0 <= k < n ==> block_view(#[trigger] children@[k]) == block_view(before[k])
                        && styles_of(children@[k]) == styles_of(before[k]),
                forall|k: int|
                    0 <= k < i ==> states_of(#[trigger] children@[k]) == item_painted(
                        before[k],
                        cx@.link_refs,
                    ),
                forall|k: int| i <= k < n ==> #[trigger] children@[k] == before[k],
                number <= i,
                number == count_items(before.take(i as int)),
                item_views(items@) == list_items(before.take(i as int), options, view@, cx@),
        {
            let ghost done = items@;
            assert(before.take(i as int + 1).drop_last() =~= before.take(i as int));
            assert(before.take(i as int + 1).last() == before[i as int]);
            let is_item = children[i].is_list_item();
            let item = children[i].render_list_item(
                number,
                NodeRenderOptions { ix: i, ..options },
                view,
                cx,
            );
            items.push(item);
            assert(items@.drop_last() =~= done);
            if is_item {
                number = number + 1;
            }
        }
        assert(before.take(n as int) =~= before);
        proof {
            lemma_items_painted(before, children@, cx@.link_refs);
            lemma_blocks_styled(children@, before);
        }
        items
    }

    fn render_list_item(
        &mut self,
        number: usize,
        options: NodeRenderOptions,
        view: &str,
        cx: &NodeContext,
    ) -> (item: ItemElement)
        ensures
            final(self)@ == old(self)@,
            item_view(item) == list_item(*old(self), number as nat, options, view@, cx@),
            states_of(*final(self)) == item_painted(*old(self), cx@.link_refs),
            styles_of(*final(self)) == styles_of(*old(self)),
        decreases *old(self),
    {
        match self {
            BlockNode::ListItem { children, spread, checked, .. } => {
                let spread: bool = *spread;
                let checked: Option<bool> = *checked;
                let rows = Self::render_item_rows(children, number, options, checked, view, cx);
                ItemElement::Item { ix: options.ix, spread, rows }
            },
            _ => ItemElement::Nothing,
        }
    }

    fn render_item_rows(
        children: &mut Vec<BlockNode>,
        number: usize,
        options: NodeRenderOptions,
        checked: Option<bool>,
        view: &str,
        cx: &NodeContext,
    ) -> (rows: Vec<ItemRow>)
        ensures
            block_views(final(children)@) == block_views(old(children)@),
            all_states(final(children)@) == all_painted(old(children)@, cx@.link_refs),
            all_styles(final(children)@) == all_styles(old(children)@),
            row_views(rows@) == item_rows(
                old(children)@,
                number as nat,
                options,
                checked,
                view@,
                cx@,
            ),
        decreases *old(children),
    {
        let ghost before = children@;
        let inside = NodeRenderOptions {
            depth: options.depth.saturating_add(1),
            todo: checked.is_some(),
            is_last: true,
            ..options
        };
        assert(inside == options.inside_item(checked));
        let n: usize = children.len();
        let mut rows: Vec<ItemRow> = Vec::new();
        let mut after_list: bool = false;
        assert(before.take(0) =~= Seq::empty());
        for i in 0..n
            invariant
                inside == options.inside_item(checked),
                before == old(children)@,
                n == before.len(),
                children@.len() == n,
                forall|k: int|
                    0 <= k < n ==> block_view(#[trigger] children@[k]) == block_view(before[k])
                        && styles_of(children@[k]) == styles_of(before[k]),
                forall|k: int|
                    0 <= k < i ==> states_of(#[trigger] children@[k]) == painted_of(
                        before[k],
                        cx@.link_refs,
                    ),
                forall|k: int| i <= k < n ==> #[trigger] children@[k] == before[k],
                after_list == (i > 0 && before[i - 1] is List),
                row_views(rows@) == item_rows(
                    before.take(i as int),
                    number as nat,
                    options,
                    checked,
                    view@,
                    cx@,
                ),
        {
            let ghost t = before.take(i as int + 1);
            assert(t.drop_last() =~= before.take(i as int));
            assert(t.last() == before[i as int]);
            assert(i > 0 ==> t[t.len() - 2] == before[i - 1]);
            proof {
                lemma_row_views(rows@);
            }
            let place = place_of(&children[i]);
            let content = children[i].render_block(inside, view, cx);
            match place {
                Place::Text => {
                    if i > 0 && !after_list && rows.len() > 0 {
                        push_below(&mut rows, content);
                    } else {
                        push_row(&mut rows, marker_of(number, options, checked), content);
                    }
                },
                Place::List => {
                    push_row(&mut rows, Lead::NestedList, content);
                },
                Place::Block => {
                    if i == 0 {
                        push_row(&mut rows, marker_of(number, options, checked), content);
                    } else {
                        push_row(&mut rows, Lead::Continued, content);
                    }
                },
                Place::Hidden => {},
            }
            after_list = match place {
                Place::List => true,
                _ => false,
            };
        }
        assert(before.take(n as int) =~= before);
        proof {
            lemma_blocks_painted(before, children@, cx@.link_refs);
            lemma_blocks_styled(children@, before);
        }
        rows
    }
}

/// How a child of an item takes part in its rows.
enum Place {
    Text,
    List,
    Block,
    Hidden,
}

fn place_of(node: &BlockNode) -> (place: Place)
    ensures
        match place {
            Place::Text => *node is Paragraph,
            Place::List => *node is List,
            Place::Block => !(*node is Paragraph || *node is List || *node is ListItem
                || *node is Break || *node is Definition || *node is Unknown),
            Place::Hidden => *node is ListItem || *node is Break || *node is Definition
                || *node is Unknown,
        },
{
    match node {
        BlockNode::Paragraph(_) => Place::Text,
        BlockNode::List { .. } => Place::List,
        BlockNode::ListItem { .. } => Place::Hidden,
        BlockNode::Break { .. } => Place::Hidden,
        BlockNode::Definition { .. } => Place::Hidden,
        BlockNode::Unknown => Place::Hidden,
        _ => Place::Block,
    }
}

} // verus!
