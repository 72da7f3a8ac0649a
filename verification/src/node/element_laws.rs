//! How the blocks of a document are shown.
use crate::node::block::{compacted, span_of, BlockNode, BlockView};
use crate::node::element::{
    count_items, element_of, group_elements, heading_look, item_rows, list_item, list_items,
    quote_elements, ElementView, FontWeight, ItemRowView, Lead, NodeContext, NodeContextView,
    NodeRenderOptions,
};
use crate::node::marks::{LinkView, MarkView, Span};
use crate::node::paint::rendering_of;
use crate::node::paragraph::inline_text;
use crate::node::table::{CellView, ColumnumnAlign, TableView};
use crate::node::table_layout::{
    cell_len, column_count, column_len, table_element, CellWidthView,
};
use crate::text::byte_len;
use vstd::prelude::*;
use vstd::std_specs::cmp::PartialEqSpec;

verus! {

// ---------------------------------------------------------------------------
// Text

/// Headings get smaller and lighter with their level, and none is smaller
/// than the text. The first is twice as large, the second one and a half
/// times, the third a quarter and the fourth an eighth larger.
pub proof fn law_headings_shrink(a: u8, b: u8)
    requires
        1 <= a < b,
    ensures
        heading_look(a).0 >= heading_look(b).0 >= 1000,
        b <= 5 ==> heading_look(a).0 > heading_look(b).0,
        heading_look(1) == (2000u32, FontWeight::Bold),
        heading_look(2) == (1500u32, FontWeight::Semibold),
        heading_look(3) == (1250u32, FontWeight::Semibold),
        heading_look(4) == (1125u32, FontWeight::Semibold),
        heading_look(5) == (1000u32, FontWeight::Semibold),
        heading_look(6) == (1000u32, FontWeight::Medium),
        b > 6 ==> heading_look(b) == (1000u32, FontWeight::Normal),
{
}

/// Paragraphs and headings show the text of their paragraph. Below a
/// paragraph is a gap, unless it is in a list or the last.
pub proof fn law_text_is_shown(
    node: BlockNode,
    o: NodeRenderOptions,
    view: Seq<char>,
    cx: NodeContextView,
)
    ensures
        node matches BlockNode::Paragraph(p) ==> (element_of(node, o, view, cx) matches
            ElementView::Paragraph { ix, gap, content, .. } && content == rendering_of(
            p@,
            cx.link_refs,
        ) && ix == o.ix && gap == (!o.in_list && !o.is_last)),
        node matches BlockNode::Heading { level: l, children, .. } ==> (element_of(
            node,
            o,
            view,
            cx,
        ) matches ElementView::Heading { level, size, weight, content, .. } && content
            == rendering_of(children@, cx.link_refs) && level == l && (size, weight)
            == heading_look(l)),
        node matches BlockNode::CodeBlock(c) ==> (element_of(node, o, view, cx) matches
            ElementView::Code { ix, gap, actions, block, styles, painted } && block == c@ && styles
            == c.known_styles() && painted == c.painted() && ix == o.ix && gap == !o.is_last
            && actions == cx.code_block_actions),
        node is HorizontalRule ==> element_of(node, o, view, cx) is Rule,
        node is Break ==> element_of(node, o, view, cx) is Break,
        node is ListItem || node is Definition || node is Unknown ==> element_of(
            node,
            o,
            view,
            cx,
        ) is Nothing,
{
}

// ---------------------------------------------------------------------------
// Blocks of blocks

/// All children of a document are shown, in order, each with its number.
pub proof fn law_children_are_shown(
    nodes: Seq<BlockNode>,
    o: NodeRenderOptions,
    view: Seq<char>,
    cx: NodeContextView,
)
    requires
        nodes.len() <= usize::MAX,
    ensures
        group_elements(nodes, o, view, cx).len() == nodes.len(),
        forall|k: int|
            0 <= k < nodes.len() ==> #[trigger] group_elements(nodes, o, view, cx)[k] == element_of(
                nodes[k],
                NodeRenderOptions { ix: k as usize, ..o },
                view,
                cx,
            ),
    decreases nodes.len(),
{
    if nodes.len() > 0 {
        law_children_are_shown(nodes.drop_last(), o, view, cx);
    }
}

/// All children of a quote are shown, in order; the last has no gap below it.
pub proof fn law_quote_is_shown(
    nodes: Seq<BlockNode>,
    n: nat,
    o: NodeRenderOptions,
    view: Seq<char>,
    cx: NodeContextView,
)
    requires
        nodes.len() <= n,
    ensures
        quote_elements(nodes, n, o, view, cx).len() == nodes.len(),
        forall|k: int|
            0 <= k < nodes.len() ==> #[trigger] quote_elements(nodes, n, o, view, cx)[k]
                == element_of(
                nodes[k],
                NodeRenderOptions { is_last: k == n - 1, ..o },
                view,
                cx,
            ),
    decreases nodes.len(),
{
    if nodes.len() > 0 {
        law_quote_is_shown(nodes.drop_last(), n, o, view, cx);
    }
}

/// All items of a list are shown, in order; each is counted by the items
/// before it. What is no item is not shown.
pub proof fn law_items_are_shown(
    nodes: Seq<BlockNode>,
    o: NodeRenderOptions,
    view: Seq<char>,
    cx: NodeContextView,
)
    requires
        nodes.len() <= usize::MAX,
    ensures
        list_items(nodes, o, view, cx).len() == nodes.len(),
        forall|k: int|
            0 <= k < nodes.len() ==> ((#[trigger] list_items(nodes, o, view, cx)[k]) == list_item(
                nodes[k],
                count_items(nodes.take(k)),
                NodeRenderOptions { ix: k as usize, ..o },
                view,
                cx,
            )) && (nodes[k] is ListItem <==> list_items(nodes, o, view, cx)[k] is Item),
    decreases nodes.len(),
{
    if nodes.len() > 0 {
        let rest = nodes.drop_last();
        law_items_are_shown(rest, o, view, cx);
        assert forall|k: int| 0 <= k < nodes.len() implies ((#[trigger] list_items(
            nodes,
            o,
            view,
            cx,
        )[k]) == list_item(
            nodes[k],
            count_items(nodes.take(k)),
            NodeRenderOptions { ix: k as usize, ..o },
            view,
            cx,
        )) && (nodes[k] is ListItem <==> list_items(nodes, o, view, cx)[k] is Item) by {
            assert(nodes.take(k) =~= rest.take(k));
            if k == nodes.len() - 1 {
                assert(rest.take(k) =~= rest);
            } else {
                assert(list_items(nodes, o, view, cx)[k] == list_items(rest, o, view, cx)[k]);
            }
        }
    }
}

/// Where there are items alone, the number of an item is that of the items before it.
pub proof fn law_items_are_counted(nodes: Seq<BlockNode>)
    requires
        forall|k: int| 0 <= k < nodes.len() ==> (#[trigger] nodes[k]) is ListItem,
    ensures
        count_items(nodes) == nodes.len(),
    decreases nodes.len(),
{
    if nodes.len() > 0 {
        let rest = nodes.drop_last();
        assert forall|k: int| 0 <= k < rest.len() implies (#[trigger] rest[k]) is ListItem by {
            assert(rest[k] == nodes[k]);
        }
        law_items_are_counted(rest);
        assert(nodes[nodes.len() - 1] is ListItem);
    }
}

/// Whether a block is shown in an item, and is neither text nor a list.
pub open spec fn other_block(node: BlockNode) -> bool {
    !(node is Paragraph || node is List || node is ListItem || node is Break || node is Definition
        || node is Unknown)
}

/// The first text or block of an item stands behind its marker: its bullet or
/// number, unless it or an item around it has a box, and its box.
pub proof fn law_items_have_markers(
    node: BlockNode,
    number: nat,
    o: NodeRenderOptions,
    checked: Option<bool>,
    view: Seq<char>,
    cx: NodeContextView,
)
    requires
        node is Paragraph || other_block(node),
        number <= usize::MAX,
        o.depth < usize::MAX,
    ensures
        ({
            let rows = item_rows(seq![node], number, o, checked, view, cx);
            let inside = NodeRenderOptions {
                depth: (o.depth + 1) as usize,
                todo: checked is Some,
                is_last: true,
                ..o
            };
            &&& rows.len() == 1
            &&& rows[0].content == element_of(node, inside, view, cx)
            &&& rows[0].below.len() == 0
            &&& rows[0].lead matches Lead::Marker { prefix, checked: boxed } && boxed == checked
                && (prefix is Some <==> (!o.todo && checked is None)) && (prefix matches Some(p)
                ==> p.ix == number && p.ordered == o.ordered && p.depth == o.depth)
        }),
{
    let nodes = seq![node];
    assert(nodes.drop_last() =~= Seq::empty());
    assert(item_rows(nodes.drop_last(), number, o, checked, view, cx) == Seq::<
        ItemRowView,
    >::empty());
}

/// Further text goes on below the row before it, unless a list stands
/// between; further blocks and lists get rows of their own, moved to where
/// the text starts.
pub proof fn law_items_go_on(
    nodes: Seq<BlockNode>,
    node: BlockNode,
    number: nat,
    o: NodeRenderOptions,
    checked: Option<bool>,
    view: Seq<char>,
    cx: NodeContextView,
)
    requires
        nodes.len() > 0,
        o.depth < usize::MAX,
    ensures
        ({
            let before = item_rows(nodes, number, o, checked, view, cx);
            let rows = item_rows(nodes.push(node), number, o, checked, view, cx);
            let inside = NodeRenderOptions {
                depth: (o.depth + 1) as usize,
                todo: checked is Some,
                is_last: true,
                ..o
            };
            let shown = element_of(node, inside, view, cx);
            let n = before.len() as int;
            &&& node is Paragraph && !(nodes.last() is List) && n > 0 ==> {
                &&& rows.len() == n
                &&& forall|k: int| 0 <= k < n - 1 ==> rows[k] == before[k]
                &&& rows[n - 1].lead == before[n - 1].lead
                &&& rows[n - 1].content == before[n - 1].content
                &&& rows[n - 1].below == before[n - 1].below.push(shown)
            }
            &&& node is List || other_block(node) ==> {
                &&& rows.len() == n + 1
                &&& forall|k: int| 0 <= k < n ==> rows[k] == before[k]
                &&& rows[n].content == shown
                &&& node is List ==> rows[n].lead is NestedList
                &&& other_block(node) ==> rows[n].lead is Continued
            }
            &&& node is Paragraph && nodes.last() is List ==> {
                &&& rows.len() == n + 1
                &&& forall|k: int| 0 <= k < n ==> rows[k] == before[k]
                &&& rows[n].content == shown
                &&& rows[n].lead is Marker
            }
            &&& node is ListItem || node is Break || node is Definition || node is Unknown
                ==> rows == before
        }),
{
    let all = nodes.push(node);
    assert(all.drop_last() =~= nodes);
    assert(all[all.len() - 2] == nodes.last());
}

/// Compacting takes a block out of roots that hold it alone, and leaves all
/// other blocks as they are.
pub proof fn law_compacting(node: BlockView, only: BlockView, span: Option<Span>)
    ensures
        compacted(BlockView::Root { children: seq![only], span }) == compacted(only),
        !(node is Root) ==> compacted(node) == node,
        node matches BlockView::Root { children, .. } ==> (children.len() != 1 ==> compacted(node)
            == node),
{
}

/// The place of a block in its source is its own.
pub proof fn law_spans(node: BlockView)
    ensures
        node matches BlockView::Root { span, .. } ==> span_of(node) == span,
        node matches BlockView::Paragraph(p) ==> span_of(node) == p.span,
        node matches BlockView::Heading { span, .. } ==> span_of(node) == span,
        node matches BlockView::Blockquote { span, .. } ==> span_of(node) == span,
        node matches BlockView::List { span, .. } ==> span_of(node) == span,
        node matches BlockView::ListItem { span, .. } ==> span_of(node) == span,
        node matches BlockView::CodeBlock(c) ==> span_of(node) == c.span,
        node matches BlockView::Custom(m) ==> span_of(node) == m.span,
        node matches BlockView::Table(t) ==> span_of(node) == t.span,
        node matches BlockView::Break { span, .. } ==> span_of(node) == span,
        node matches BlockView::HorizontalRule { span } ==> span_of(node) == span,
        node matches BlockView::Definition { span, .. } ==> span_of(node) == span,
        node is Unknown ==> span_of(node) is None,
{
}

// ---------------------------------------------------------------------------
// Styles

/// Text that has two styles has each of them; where both say how it is
/// highlighted or what it links to, the second does.
pub proof fn law_merged_styles(a: MarkView, b: MarkView)
    ensures
        a.merged(b).bold <==> (a.bold || b.bold),
        a.merged(b).italic <==> (a.italic || b.italic),
        a.merged(b).strikethrough <==> (a.strikethrough || b.strikethrough),
        a.merged(b).underline <==> (a.underline || b.underline),
        a.merged(b).code <==> (a.code || b.code),
        b.highlight is Some ==> a.merged(b).highlight == b.highlight,
        b.highlight is None ==> a.merged(b).highlight == a.highlight,
        b.link is Some ==> a.merged(b).link == b.link,
        b.link is None ==> a.merged(b).link == a.link,
{
}

// ---------------------------------------------------------------------------
// Tables

/// Every cell of a table is shown at its place, with its text and the
/// alignment of its column; columns without one are aligned to the left. A
/// border stands behind all cells but the last of a row, and below all rows
/// but the last. Columns of a table that does not scroll share its width by
/// their longest texts, up to a limit.
pub proof fn law_cells_are_shown(
    table: TableView,
    ix: nat,
    view: Seq<char>,
    scrolls: bool,
    refs: Map<Seq<char>, LinkView>,
    row: int,
    column: int,
)
    requires
        0 <= row < table.rows.len(),
        0 <= column < table.rows[row].len(),
    ensures
        ({
            let shown = table_element(table, ix, view, scrolls, refs);
            let cell = shown.rows[row].cells[column];
            &&& shown.rows.len() == table.rows.len()
            &&& shown.rows[row].cells.len() == table.rows[row].len()
            &&& cell.content == rendering_of(table.rows[row][column].children, refs)
            &&& cell.ix == column
            &&& column < table.column_aligns.len() ==> cell.align == table.column_aligns[column]
            &&& column >= table.column_aligns.len() ==> cell.align == ColumnumnAlign::Left
            &&& cell.border <==> column + 1 < table.rows[row].len()
            &&& shown.rows[row].border <==> row + 1 < table.rows.len()
            &&& scrolls <==> cell.width is Measured
            &&& !scrolls ==> (cell.width matches CellWidthView::Share(n) && n == if column_len(
                table.rows,
                column,
            ) < 150 {
                column_len(table.rows, column)
            } else {
                150
            })
            &&& scrolls <==> shown.scroll_key is Some
        }),
{
}

/// A table has as many columns as its longest row has cells.
pub proof fn law_columns_are_counted(rows: Seq<Seq<CellView>>)
    ensures
        forall|r: int| 0 <= r < rows.len() ==> (#[trigger] rows[r]).len() <= column_count(rows),
        rows.len() > 0 ==> exists|r: int|
            0 <= r < rows.len() && (#[trigger] rows[r]).len() == column_count(rows),
        rows.len() == 0 ==> column_count(rows) == 0,
    decreases rows.len(),
{
    if rows.len() > 0 {
        let rest = rows.drop_last();
        law_columns_are_counted(rest);
        assert forall|r: int| 0 <= r < rows.len() implies (#[trigger] rows[r]).len()
            <= column_count(rows) by {
            if r < rest.len() {
                assert(rest[r] == rows[r]);
            }
        }
        if rest.len() > 0 && rows.last().len() <= column_count(rest) {
            let r = choose|r: int|
                0 <= r < rest.len() && (#[trigger] rest[r]).len() == column_count(rest);
            assert(rows[r] == rest[r]);
        } else {
            assert(rows[rows.len() - 1].len() == column_count(rows));
        }
    }
}

/// A column is as long as its longest text, and at least five bytes.
pub proof fn law_columns_are_measured(rows: Seq<Seq<CellView>>, column: int)
    requires
        0 <= column,
    ensures
        column_len(rows, column) >= 5,
        forall|r: int|
            0 <= r < rows.len() && column < (#[trigger] rows[r]).len() && byte_len(
                inline_text(rows[r][column].children.children),
            ) <= usize::MAX ==> byte_len(inline_text(rows[r][column].children.children))
                <= column_len(rows, column),
        column_len(rows, column) > 5 ==> exists|r: int|
            0 <= r < rows.len() && column < (#[trigger] rows[r]).len() && cell_len(rows[r][column])
                == column_len(rows, column),
    decreases rows.len(),
{
    if rows.len() > 0 {
        let rest = rows.drop_last();
        law_columns_are_measured(rest, column);
        assert forall|r: int|
            0 <= r < rows.len() && column < (#[trigger] rows[r]).len() && byte_len(
                inline_text(rows[r][column].children.children),
            ) <= usize::MAX implies byte_len(inline_text(rows[r][column].children.children))
            <= column_len(rows, column) by {
            if r < rest.len() {
                assert(rest[r] == rows[r]);
            }
        }
        if column_len(rows, column) > 5 {
            if column_len(rows, column) == column_len(rest, column) {
                let r = choose|r: int|
                    0 <= r < rest.len() && column < (#[trigger] rest[r]).len() && cell_len(
                        rest[r][column],
                    ) == column_len(rest, column);
                assert(rows[r] == rest[r]);
            } else {
                assert(rows[rows.len() - 1] == rows.last());
            }
        }
    }
}

/// Two contexts are the same exactly where they know the same links and look
/// the same, wherever their documents start and whatever can be done with code.
pub proof fn law_same_contexts(a: NodeContext, b: NodeContext)
    ensures
        a.eq_spec(&b) ==> a@.link_refs == b@.link_refs && a@.style == b@.style,
        a@.link_refs == b@.link_refs && a@.style == b@.style ==> a.eq_spec(&b),
        a.eq_spec(&a),
{
}

} // verus!
