//! What painting keeps, and what tables measure.
use crate::node::block::{all_states, states_of, BlockNode};
use crate::node::element::{all_painted, item_painted, items_painted, painted_of};
use crate::node::inline::InlineStateView;
use crate::node::marks::LinkView;
use crate::node::paint::{law_painting_keeps_selections, painted_paragraph};
use crate::node::paragraph::paragraph_states;
use crate::node::table::{
    aligned, cells_states, rows_states, AlignKind, ColumnumnAlign, TableCell, TableRow,
};
use crate::node::table_layout::{between_breaks, painted_cells, painted_rows, tidied};
use crate::strings::trimmed;
use vstd::prelude::*;

verus! {

/// Whether the same parts of two lists of painted texts are selected.
pub open spec fn selects_alike(a: Seq<InlineStateView>, b: Seq<InlineStateView>) -> bool {
    &&& a.len() == b.len()
    &&& forall|k: int| 0 <= k < a.len() ==> (#[trigger] a[k]).selection == b[k].selection
}

proof fn lemma_alike_concat(
    a: Seq<InlineStateView>,
    b: Seq<InlineStateView>,
    c: Seq<InlineStateView>,
    d: Seq<InlineStateView>,
)
    requires
        selects_alike(a, c),
        selects_alike(b, d),
    ensures
        selects_alike(a + b, c + d),
{
    assert forall|k: int| 0 <= k < (a + b).len() implies (#[trigger] (a + b)[k]).selection == (c
        + d)[k].selection by {
        if k < a.len() {
            assert(a[k].selection == c[k].selection);
        } else {
            assert(b[k - a.len()].selection == d[k - a.len()].selection);
        }
    }
}

/// Showing a document selects nothing and unselects nothing, in whatever block.
pub proof fn law_showing_keeps_selections(node: BlockNode, refs: Map<Seq<char>, LinkView>)
    ensures
        selects_alike(painted_of(node, refs), states_of(node)),
        selects_alike(item_painted(node, refs), states_of(node)),
    decreases node,
{
    match node {
        BlockNode::Root { children, .. } => lemma_children_alike(children@, refs),
        BlockNode::Blockquote { children, .. } => lemma_children_alike(children@, refs),
        BlockNode::List { children, .. } => lemma_children_alike(children@, refs),
        BlockNode::ListItem { children, .. } => lemma_children_alike(children@, refs),
        BlockNode::Paragraph(p) => law_painting_keeps_selections(p, refs),
        BlockNode::Heading { children, .. } => law_painting_keeps_selections(children, refs),
        BlockNode::Table(t) => lemma_rows_alike(t.children@, refs),
        _ => {},
    }
}

proof fn lemma_children_alike(nodes: Seq<BlockNode>, refs: Map<Seq<char>, LinkView>)
    ensures
        selects_alike(all_painted(nodes, refs), all_states(nodes)),
        selects_alike(items_painted(nodes, refs), all_states(nodes)),
    decreases nodes,
{
    if nodes.len() > 0 {
        let rest = nodes.drop_last();
        let last = nodes.last();
        lemma_children_alike(rest, refs);
        law_showing_keeps_selections(last, refs);
        lemma_alike_concat(
            all_painted(rest, refs),
            painted_of(last, refs),
            all_states(rest),
            states_of(last),
        );
        lemma_alike_concat(
            items_painted(rest, refs),
            item_painted(last, refs),
            all_states(rest),
            states_of(last),
        );
    }
}

proof fn lemma_cells_alike(cells: Seq<TableCell>, refs: Map<Seq<char>, LinkView>)
    ensures
        selects_alike(painted_cells(cells, refs), cells_states(cells)),
    decreases cells.len(),
{
    if cells.len() > 0 {
        let rest = cells.drop_last();
        let last = cells.last().children;
        lemma_cells_alike(rest, refs);
        law_painting_keeps_selections(last, refs);
        lemma_alike_concat(
            painted_cells(rest, refs),
            painted_paragraph(last, refs),
            cells_states(rest),
            paragraph_states(last),
        );
    }
}

proof fn lemma_rows_alike(rows: Seq<TableRow>, refs: Map<Seq<char>, LinkView>)
    ensures
        selects_alike(painted_rows(rows, refs), rows_states(rows)),
    decreases rows.len(),
{
    if rows.len() > 0 {
        let rest = rows.drop_last();
        let last = rows.last().children@;
        lemma_rows_alike(rest, refs);
        lemma_cells_alike(last, refs);
        lemma_alike_concat(
            painted_rows(rest, refs),
            painted_cells(last, refs),
            rows_states(rest),
            cells_states(last),
        );
    }
}

// ---------------------------------------------------------------------------
// Tables

/// Columns are aligned as they say, and to the left where they say nothing.
pub proof fn law_columns_are_aligned()
    ensures
        aligned(AlignKind::Left) == ColumnumnAlign::Left,
        aligned(AlignKind::Center) == ColumnumnAlign::Center,
        aligned(AlignKind::Right) == ColumnumnAlign::Right,
        aligned(AlignKind::Unsaid) == ColumnumnAlign::Left,
{
}

/// What is measured of a cell are its lines, without the white space around
/// them; lines of white space alone are left out.
pub proof fn law_lines_are_measured(a: Seq<char>, line: Seq<char>, lines: Seq<Seq<char>>)
    requires
        !line.contains('\n'),
    ensures
        between_breaks(line) == seq![line],
        between_breaks(a + seq!['\n'] + line) == between_breaks(a).push(line),
        trimmed(line).len() > 0 ==> tidied(lines.push(line)) == tidied(lines).push(trimmed(line)),
        trimmed(line).len() == 0 ==> tidied(lines.push(line)) == tidied(lines),
    decreases line.len(),
{
    assert(lines.push(line).drop_last() =~= lines);
    let upto = a + seq!['\n'];
    assert(upto.drop_last() =~= a);
    if line.len() == 0 {
        assert(line =~= Seq::empty());
        assert(upto + line =~= upto);
    } else {
        let rest = line.drop_last();
        assert(line.contains(line.last()));
        assert forall|c: char| rest.contains(c) implies line.contains(c) by {
            let k = choose|k: int| 0 <= k < rest.len() && rest[k] == c;
            assert(line[k] == c);
        }
        law_lines_are_measured(a, rest, lines);
        assert((upto + line).drop_last() =~= upto + rest);
        assert(rest.push(line.last()) =~= line);
        assert(seq![rest].drop_last().push(line) =~= seq![line]);
        assert(between_breaks(a).push(rest).drop_last() =~= between_breaks(a));
    }
}

} // verus!
