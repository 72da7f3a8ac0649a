//! What text a document gives, and what of it is selected.
use crate::node::block::{
    all_states, block_view, block_views, no_table, no_tables, states_of, text_of, texts_of,
    BlockNode, BlockView,
};
use crate::node::code_block::InputEdit;
use crate::node::inline::{InlineStateView, InlineView};
use crate::node::paragraph::{
    inline_states, inline_text, paragraph_states, selected_texts, Paragraph, ParagraphView,
};
use crate::node::table::{
    cells_states, cells_text, rows_states, rows_text, CellView, TableCell, TableRow,
};
use crate::key_laws::is_line;
use crate::motion_laws::lemma_between;
use crate::place_laws::law_positions;
use crate::rope::point_of;
use crate::text::{byte_len, line_breaks};
use vstd::prelude::*;

verus! {

/// The `char`s of a text that are no line feeds and, where `tight` is set, no blanks.
pub open spec fn letters(s: Seq<char>, tight: bool) -> Seq<char>
    decreases s.len(),
{
    if s.len() == 0 {
        s
    } else if s.last() == '\n' || (tight && s.last() == ' ') {
        letters(s.drop_last(), tight)
    } else {
        letters(s.drop_last(), tight).push(s.last())
    }
}

proof fn lemma_letters_concat(a: Seq<char>, b: Seq<char>, tight: bool)
    ensures
        letters(a + b, tight) == letters(a, tight) + letters(b, tight),
    decreases b.len(),
{
    if b.len() == 0 {
        assert(a + b =~= a);
        assert(letters(a, tight) + letters(b, tight) =~= letters(a, tight));
    } else {
        assert((a + b).drop_last() =~= a + b.drop_last());
        lemma_letters_concat(a, b.drop_last(), tight);
        assert(letters(a + b, tight) =~= letters(a, tight) + letters(b, tight));
    }
}

proof fn lemma_letters_push(a: Seq<char>, c: char, tight: bool)
    ensures
        c == '\n' || (tight && c == ' ') ==> letters(a.push(c), tight) == letters(a, tight),
{
    assert(a.push(c).drop_last() =~= a);
}

proof fn lemma_selected_concat(a: Seq<InlineStateView>, b: Seq<InlineStateView>)
    ensures
        selected_texts(a + b) == selected_texts(a) + selected_texts(b),
    decreases b.len(),
{
    if b.len() == 0 {
        assert(a + b =~= a);
        assert(selected_texts(a) + selected_texts(b) =~= selected_texts(a));
    } else {
        assert((a + b).drop_last() =~= a + b.drop_last());
        lemma_selected_concat(a, b.drop_last());
        assert(selected_texts(a + b) =~= selected_texts(a) + selected_texts(b));
    }
}

proof fn lemma_paragraph_selected(p: Paragraph)
    ensures
        p.selection() == selected_texts(paragraph_states(p)),
{
    assert(paragraph_states(p).drop_last() =~= inline_states(p.children@));
}

/// What is selected of a painted text is what stands between the ends of the selection.
pub proof fn law_painted_selection(state: InlineStateView, a: Seq<char>, x: Seq<char>, b: Seq<char>)
    requires
        state.text == a + x + b,
        state.selection matches Some(s) && s.start == byte_len(a) && s.end == byte_len(a + x),
    ensures
        state.selected() == x,
{
    assert(state.text =~= a + (x + b));
    lemma_between(a, x + b);
    lemma_between(a + x, b);
    crate::text::lemma_measure_concat(crate::text::Unit::Utf8, a, x);
    assert(state.text.subrange(a.len() as int, (a + x).len() as int) =~= x);
    assert(state.selected() =~= x);
}

/// The selected text of a heading, of a paragraph and of code in which
/// something is selected is all that is selected of what was painted of it,
/// on a line of its own.
pub proof fn law_selected_text_of_leaves(p: Paragraph, node: BlockNode)
    requires
        node == BlockNode::Paragraph(p) || (node matches BlockNode::Heading { children, .. }
            && children == p),
        selected_texts(paragraph_states(p)).len() > 0,
    ensures
        text_of(node, true) == selected_texts(paragraph_states(p)).push('\n'),
{
    lemma_paragraph_selected(p);
}

/// The text of a heading and of a paragraph is the text of its pieces, on a
/// line of its own where there is any.
pub proof fn law_text_of_leaves(p: Paragraph, node: BlockNode)
    requires
        node == BlockNode::Paragraph(p) || (node matches BlockNode::Heading { children, .. }
            && children == p),
        inline_text(p@.children).len() > 0,
    ensures
        text_of(node, false) == inline_text(p@.children).push('\n'),
{
}

/// The code of a block, or what is selected of it, stands on lines of its own.
pub proof fn law_text_of_code(node: BlockNode)
    ensures
        node matches BlockNode::CodeBlock(c) ==> {
            &&& c@.code.len() > 0 ==> text_of(node, false) == c@.code.push('\n')
            &&& c.painted().selected().len() > 0 ==> text_of(node, true)
                == c.painted().selected().push('\n')
        },
{
}

/// But for line feeds, the selected text of a node is what is selected of all
/// that was painted of it, in order. Where there are tables, blanks stand
/// between their cells as well.
pub proof fn law_selected_text_is_what_is_selected(node: BlockNode, tight: bool)
    requires
        tight || no_table(node),
    ensures
        letters(text_of(node, true), tight) == letters(selected_texts(states_of(node)), tight),
    decreases node,
{
    match node {
        BlockNode::Root { children, .. } => {
            lemma_selected_texts(children@, tight);
            lemma_letters_push(texts_of(children@, true), '\n', tight);
        },
        BlockNode::Blockquote { children, .. } => {
            lemma_selected_texts(children@, tight);
            lemma_letters_push(texts_of(children@, true), '\n', tight);
        },
        BlockNode::List { children, .. } => lemma_selected_texts(children@, tight),
        BlockNode::ListItem { children, .. } => lemma_selected_texts(children@, tight),
        BlockNode::Paragraph(p) => {
            lemma_paragraph_selected(p);
            lemma_letters_push(p.selection(), '\n', tight);
        },
        BlockNode::Heading { children, .. } => {
            lemma_paragraph_selected(children);
            lemma_letters_push(children.selection(), '\n', tight);
        },
        BlockNode::CodeBlock(c) => {
            let states = seq![c.painted()];
            assert(states.drop_last() =~= Seq::empty());
            assert(selected_texts(states.drop_last()) == Seq::<char>::empty());
            assert(selected_texts(states) =~= c.painted().selected());
            lemma_letters_push(c.painted().selected(), '\n', tight);
        },
        BlockNode::Table(t) => {
            lemma_rows_selected(t.children@);
            lemma_letters_push(rows_text(t.children@, true), '\n', tight);
        },
        _ => {},
    }
}

proof fn lemma_selected_texts(nodes: Seq<BlockNode>, tight: bool)
    requires
        tight || no_tables(nodes),
    ensures
        letters(texts_of(nodes, true), tight) == letters(
            selected_texts(all_states(nodes)),
            tight,
        ),
    decreases nodes,
{
    if nodes.len() > 0 {
        let rest = nodes.drop_last();
        lemma_selected_texts(rest, tight);
        law_selected_text_is_what_is_selected(nodes.last(), tight);
        lemma_letters_concat(texts_of(rest, true), text_of(nodes.last(), true), tight);
        lemma_selected_concat(all_states(rest), states_of(nodes.last()));
        lemma_letters_concat(
            selected_texts(all_states(rest)),
            selected_texts(states_of(nodes.last())),
            tight,
        );
    }
}

proof fn lemma_cells_selected(cells: Seq<TableCell>)
    ensures
        letters(cells_text(cells, true), true) == letters(
            selected_texts(cells_states(cells)),
            true,
        ),
    decreases cells.len(),
{
    if cells.len() > 0 {
        let rest = cells.drop_last();
        let last = cells.last().children;
        lemma_cells_selected(rest);
        lemma_paragraph_selected(last);
        lemma_selected_concat(cells_states(rest), paragraph_states(last));
        lemma_letters_concat(
            selected_texts(cells_states(rest)),
            selected_texts(paragraph_states(last)),
            true,
        );
        if cells.len() == 1 {
            assert(cells_states(rest) =~= Seq::empty());
            assert(selected_texts(cells_states(rest)) + last.selection() =~= last.selection());
        } else {
            let t = cells_text(rest, true);
            lemma_letters_push(t, ' ', true);
            lemma_letters_concat(t.push(' '), last.selection(), true);
        }
    }
}

proof fn lemma_rows_selected(rows: Seq<TableRow>)
    ensures
        letters(rows_text(rows, true), true) == letters(selected_texts(rows_states(rows)), true),
    decreases rows.len(),
{
    if rows.len() > 0 {
        let rest = rows.drop_last();
        let cells = rows.last().children@;
        lemma_rows_selected(rest);
        lemma_cells_selected(cells);
        lemma_selected_concat(rows_states(rest), cells_states(cells));
        lemma_letters_concat(
            selected_texts(rows_states(rest)),
            selected_texts(cells_states(cells)),
            true,
        );
        let t = rows_text(rest, true);
        lemma_letters_concat(t, cells_text(cells, true), true);
        lemma_letters_push(t + cells_text(cells, true), '\n', true);
        if cells.len() == 0 {
            assert(cells_states(cells) =~= Seq::empty());
            assert(rows_states(rows) =~= rows_states(rest));
        }
    }
}

// ---------------------------------------------------------------------------
// All text

/// The texts of the paragraphs, the code and the nodes of extensions in a
/// document, in order.
pub open spec fn written(node: BlockView) -> Seq<char>
    decreases node,
{
    match node {
        BlockView::Root { children, .. } => all_written(children),
        BlockView::Blockquote { children, .. } => all_written(children),
        BlockView::List { children, .. } => all_written(children),
        BlockView::ListItem { children, .. } => all_written(children),
        BlockView::Paragraph(p) => inline_text(p.children),
        BlockView::Heading { children, .. } => inline_text(children.children),
        BlockView::CodeBlock(c) => c.code,
        BlockView::Custom(m) => m.text,
        BlockView::Table(t) => rows_written(t.rows),
        _ => Seq::empty(),
    }
}

pub open spec fn all_written(nodes: Seq<BlockView>) -> Seq<char>
    decreases nodes,
{
    if nodes.len() == 0 {
        Seq::empty()
    } else {
        all_written(nodes.drop_last()) + written(nodes.last())
    }
}

pub open spec fn rows_written(rows: Seq<Seq<CellView>>) -> Seq<char>
    decreases rows.len(),
{
    if rows.len() == 0 {
        Seq::empty()
    } else {
        rows_written(rows.drop_last()) + cells_written(rows.last())
    }
}

pub open spec fn cells_written(cells: Seq<CellView>) -> Seq<char>
    decreases cells.len(),
{
    if cells.len() == 0 {
        Seq::empty()
    } else {
        cells_written(cells.drop_last()) + inline_text(cells.last().children.children)
    }
}

/// But for line feeds, the text of a node is all that is written in it, in
/// order. Where there are tables, blanks stand between their cells as well.
pub proof fn law_text_is_what_is_written(node: BlockNode, tight: bool)
    requires
        tight || no_table(node),
    ensures
        letters(text_of(node, false), tight) == letters(written(node@), tight),
    decreases node,
{
    match node {
        BlockNode::Root { children, .. } => {
            lemma_written_texts(children@, tight);
            lemma_letters_push(texts_of(children@, false), '\n', tight);
        },
        BlockNode::Blockquote { children, .. } => {
            lemma_written_texts(children@, tight);
            lemma_letters_push(texts_of(children@, false), '\n', tight);
        },
        BlockNode::List { children, .. } => lemma_written_texts(children@, tight),
        BlockNode::ListItem { children, .. } => lemma_written_texts(children@, tight),
        BlockNode::Paragraph(p) => lemma_letters_push(inline_text(p@.children), '\n', tight),
        BlockNode::Heading { children, .. } => {
            lemma_letters_push(inline_text(children@.children), '\n', tight)
        },
        BlockNode::CodeBlock(c) => lemma_letters_push(c@.code, '\n', tight),
        BlockNode::Custom(m) => lemma_letters_push(m@.text, '\n', tight),
        BlockNode::Table(t) => {
            lemma_rows_written(t.children@);
            lemma_letters_push(rows_text(t.children@, false), '\n', tight);
            assert(t@.rows =~= t.children@.map_values(|r: TableRow| r@));
        },
        _ => {},
    }
}

proof fn lemma_written_texts(nodes: Seq<BlockNode>, tight: bool)
    requires
        tight || no_tables(nodes),
    ensures
        letters(texts_of(nodes, false), tight) == letters(all_written(block_views(nodes)), tight),
    decreases nodes,
{
    if nodes.len() > 0 {
        let rest = nodes.drop_last();
        lemma_written_texts(rest, tight);
        law_text_is_what_is_written(nodes.last(), tight);
        assert(block_views(nodes).drop_last() =~= block_views(rest));
        assert(block_views(nodes).last() == block_view(nodes.last()));
        lemma_letters_concat(texts_of(rest, false), text_of(nodes.last(), false), tight);
        lemma_letters_concat(
            all_written(block_views(rest)),
            written(block_view(nodes.last())),
            tight,
        );
    }
}

proof fn lemma_cells_written(cells: Seq<TableCell>)
    ensures
        letters(cells_text(cells, false), true) == letters(
            cells_written(cells.map_values(|c: TableCell| c@)),
            true,
        ),
    decreases cells.len(),
{
    let views = cells.map_values(|c: TableCell| c@);
    if cells.len() > 0 {
        let rest = cells.drop_last();
        lemma_cells_written(rest);
        assert(views.drop_last() =~= rest.map_values(|c: TableCell| c@));
        let last = inline_text(cells.last()@.children.children);
        assert(views.last() == cells.last()@);
        lemma_letters_concat(cells_written(views.drop_last()), last, true);
        if cells.len() == 1 {
            assert(cells_written(views.drop_last()) =~= Seq::empty());
            assert(cells_written(views) =~= last);
        } else {
            let t = cells_text(rest, false);
            lemma_letters_push(t, ' ', true);
            lemma_letters_concat(t.push(' '), last, true);
        }
    }
}

proof fn lemma_rows_written(rows: Seq<TableRow>)
    ensures
        letters(rows_text(rows, false), true) == letters(
            rows_written(rows.map_values(|r: TableRow| r@)),
            true,
        ),
    decreases rows.len(),
{
    let views = rows.map_values(|r: TableRow| r@);
    if rows.len() > 0 {
        let rest = rows.drop_last();
        let cells = rows.last().children@;
        lemma_rows_written(rest);
        lemma_cells_written(cells);
        assert(views.drop_last() =~= rest.map_values(|r: TableRow| r@));
        assert(views.last() == rows.last()@);
        assert(rows.last()@ =~= cells.map_values(|c: TableCell| c@));
        let t = rows_text(rest, false);
        lemma_letters_concat(rows_written(views.drop_last()), cells_written(views.last()), true);
        lemma_letters_concat(t, cells_text(cells, false), true);
        lemma_letters_push(t + cells_text(cells, false), '\n', true);
        if cells.len() == 0 {
            assert(cells_written(views.last()) =~= Seq::empty());
            assert(rows_written(views) =~= rows_written(views.drop_last()));
        }
    }
}

/// The texts of two lists of blocks, one after the other, stand one after the
/// other, each block of the second behind the lines of the first.
pub proof fn law_texts_follow_each_other(a: Seq<BlockNode>, b: Seq<BlockNode>, selected: bool)
    ensures
        texts_of(a + b, selected) == texts_of(a, selected) + texts_of(b, selected),
    decreases b.len(),
{
    if b.len() == 0 {
        assert(a + b =~= a);
        assert(texts_of(a, selected) + texts_of(b, selected) =~= texts_of(a, selected));
    } else {
        assert((a + b).drop_last() =~= a + b.drop_last());
        law_texts_follow_each_other(a, b.drop_last(), selected);
        assert(texts_of(a + b, selected) =~= texts_of(a, selected) + texts_of(b, selected));
    }
}

/// The cells of a row stand on one line, in order and with a blank between
/// each two; the rows of a table stand one below the other.
pub proof fn law_table_text(
    a: Seq<TableCell>,
    b: Seq<TableCell>,
    cell: TableCell,
    row: TableRow,
    above: Seq<TableRow>,
    selected: bool,
)
    requires
        a.len() > 0,
        b.len() > 0,
    ensures
        cells_text(seq![cell], selected) == if selected {
            selected_texts(paragraph_states(cell.children))
        } else {
            inline_text(cell.children@.children)
        },
        cells_text(a + b, selected) == cells_text(a, selected) + seq![' '] + cells_text(
            b,
            selected,
        ),
        row.children@.len() > 0 ==> rows_text(above.push(row), selected) == rows_text(
            above,
            selected,
        ) + cells_text(row.children@, selected) + seq!['\n'],
        row.children@.len() == 0 ==> rows_text(above.push(row), selected) == rows_text(
            above,
            selected,
        ),
    decreases b.len(),
{
    lemma_paragraph_selected(cell.children);
    assert(above.push(row).drop_last() =~= above);
    let t = rows_text(above, selected) + cells_text(row.children@, selected);
    assert(t.push('\n') =~= t + seq!['\n']);
    let whole = cells_text(a + b, selected);
    assert((a + b).drop_last() =~= a + b.drop_last());
    if b.len() == 1 {
        assert(a + b.drop_last() =~= a);
        assert(whole =~= cells_text(a, selected) + seq![' '] + cells_text(b, selected));
    } else {
        law_table_text(a, b.drop_last(), cell, row, above, selected);
        assert(whole =~= cells_text(a, selected) + seq![' '] + cells_text(b, selected));
    }
}

/// A paragraph is empty where it gives no text and shows no image.
pub proof fn law_empty_paragraphs(p: ParagraphView)
    ensures
        p.is_empty() <==> inline_text(p.children).len() == 0 && !p.has_image(),
        p.children.len() == 0 ==> p.is_empty(),
{
    lemma_no_text(p.children);
}

proof fn lemma_no_text(children: Seq<InlineView>)
    ensures
        inline_text(children).len() == 0 <==> forall|i: int|
            0 <= i < children.len() ==> (#[trigger] children[i]).text.len() == 0,
    decreases children.len(),
{
    if children.len() > 0 {
        let rest = children.drop_last();
        lemma_no_text(rest);
        assert(inline_text(children).len() == inline_text(rest).len() + children.last().text.len());
        assert(forall|i: int| 0 <= i < rest.len() ==> #[trigger] children[i] == rest[i]);
    }
}

/// A highlighter that held `old` and is told of new code is told that all of
/// `old`, from its first byte to behind its last, became the new code; the
/// ends are where the last lines of the two end.
pub proof fn law_highlighters_are_told(
    edit: InputEdit,
    above: Seq<char>,
    line: Seq<char>,
    new_above: Seq<char>,
    new_line: Seq<char>,
)
    requires
        is_line(above, line, Seq::empty()),
        is_line(new_above, new_line, Seq::empty()),
        edit.replaces_all(above + line, new_above + new_line),
    ensures
        edit.start_byte == 0,
        edit.start_position.row == 0 && edit.start_position.column == 0,
        edit.old_end_byte == byte_len(above) + byte_len(line),
        edit.new_end_byte == byte_len(new_above) + byte_len(new_line),
        edit.old_end_position.row == line_breaks(above),
        edit.old_end_position.column == byte_len(line),
        edit.new_end_position.row == line_breaks(new_above),
        edit.new_end_position.column == byte_len(new_line),
{
    lemma_end(above, line);
    lemma_end(new_above, new_line);
    lemma_between(above, line);
    lemma_between(new_above, new_line);
}

proof fn lemma_end(above: Seq<char>, line: Seq<char>)
    requires
        is_line(above, line, Seq::empty()),
    ensures
        point_of(above + line, byte_len(above + line) as int) == (
            line_breaks(above) as int,
            byte_len(line) as int,
        ),
{
    let none = Seq::<char>::empty();
    assert(line + none =~= line);
    assert(above + (line + none) + none =~= above + line);
    law_positions(above, line, none, none, line.len());
}

} // verus!
