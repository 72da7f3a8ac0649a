//! What is written of a document as Markdown.
use crate::motion_laws::lemma_between;
use crate::node::block::BlockView;
use crate::node::code_block::CodeView;
use crate::node::inline::{piece_of, ImageView, InlineView, RangeMarkView};
use crate::node::markdown::{
    aligns_markdown, cells_markdown, inline_markdown, inlines_markdown, joined_markdown, lines_of,
    list_markdown, markdown_of, quoted, raw_markdown, rows_markdown, split_lines, styled_by,
    table_markdown,
};
use crate::node::marks::MarkView;
use crate::node::paragraph::{inline_text, ParagraphView};
use crate::node::table::{CellView, ColumnumnAlign, TableView};
use crate::strings::{decimal, trimmed, trimmed_end, white_space};
use crate::text::byte_len;
use vstd::prelude::*;

verus! {

/// Whether a text neither is empty nor starts or ends with white space.
pub open spec fn solid(t: Seq<char>) -> bool {
    t.len() > 0 && !white_space(t[0]) && !white_space(t.last())
}

proof fn lemma_trimmed_ends(t: Seq<char>, w: Seq<char>)
    requires
        solid(t),
        forall|i: int| 0 <= i < w.len() ==> white_space(#[trigger] w[i]),
    ensures
        trimmed(t + w) == t,
    decreases w.len(),
{
    assert((t + w)[0] == t[0]);
    lemma_trimmed_end_of(t, w);
}

proof fn lemma_trimmed_end_of(t: Seq<char>, w: Seq<char>)
    requires
        solid(t),
        forall|i: int| 0 <= i < w.len() ==> white_space(#[trigger] w[i]),
    ensures
        trimmed_end(t + w) == t,
    decreases w.len(),
{
    if w.len() == 0 {
        assert(t + w =~= t);
    } else {
        assert((t + w).last() == w[w.len() - 1]);
        assert((t + w).drop_last() =~= t + w.drop_last());
        assert forall|i: int| 0 <= i < w.drop_last().len() implies white_space(
            #[trigger] w.drop_last()[i],
        ) by {
            assert(w.drop_last()[i] == w[i]);
        }
        lemma_trimmed_end_of(t, w.drop_last());
    }
}

/// What is solid is written as it is.
proof fn lemma_solid_stays(t: Seq<char>)
    requires
        solid(t),
    ensures
        trimmed(t) == t,
{
    lemma_trimmed_ends(t, Seq::empty());
    assert(t + Seq::<char>::empty() =~= t);
}

// ---------------------------------------------------------------------------
// Paragraphs

/// Whether a style is none that is written.
pub open spec fn unwritten(mark: MarkView) -> bool {
    &&& mark.link is None
    &&& mark.highlight is None
    &&& !mark.code
    &&& !mark.strikethrough
    &&& !mark.italic
    &&& !mark.bold
}

/// Whether a node is text without written styles.
pub open spec fn plain_text(node: InlineView) -> bool {
    node.image is None && forall|k: int|
        0 <= k < node.marks.len() ==> unwritten((#[trigger] node.marks[k]).mark)
}

proof fn lemma_unwritten(whole: Seq<char>, marks: Seq<RangeMarkView>)
    requires
        forall|k: int| 0 <= k < marks.len() ==> unwritten((#[trigger] marks[k]).mark),
    ensures
        styled_by(whole, marks) == whole,
    decreases marks.len(),
{
    if marks.len() > 0 {
        let rest = marks.drop_last();
        assert forall|k: int| 0 <= k < rest.len() implies unwritten((#[trigger] rest[k]).mark) by {
            assert(rest[k] == marks[k]);
        }
        lemma_unwritten(whole, rest);
        assert(unwritten(marks[marks.len() - 1].mark));
    }
}

/// Text without styles is written as it is.
pub proof fn law_plain_text_is_written(children: Seq<InlineView>)
    requires
        forall|k: int| 0 <= k < children.len() ==> plain_text(#[trigger] children[k]),
    ensures
        inlines_markdown(children) == inline_text(children),
    decreases children.len(),
{
    if children.len() > 0 {
        let rest = children.drop_last();
        assert forall|k: int| 0 <= k < rest.len() implies plain_text(#[trigger] rest[k]) by {
            assert(rest[k] == children[k]);
        }
        law_plain_text_is_written(rest);
        let last = children[children.len() - 1];
        assert(plain_text(last));
        lemma_unwritten(last.text, last.marks);
        assert(last.text + Seq::<char>::empty() =~= last.text);
    }
}

/// The parts of a paragraph are written one after the other.
pub proof fn law_inlines_follow_each_other(a: Seq<InlineView>, b: Seq<InlineView>)
    ensures
        inlines_markdown(a + b) == inlines_markdown(a) + inlines_markdown(b),
    decreases b.len(),
{
    if b.len() == 0 {
        assert(a + b =~= a);
        assert(inlines_markdown(a) + inlines_markdown(b) =~= inlines_markdown(a));
    } else {
        assert((a + b).drop_last() =~= a + b.drop_last());
        law_inlines_follow_each_other(a, b.drop_last());
        assert(inlines_markdown(a + b) =~= inlines_markdown(a) + inlines_markdown(b));
    }
}

/// Whether the whole of a text has the one style `mark`.
pub open spec fn wholly(node: InlineView, mark: MarkView) -> bool {
    &&& node.image is None
    &&& node.marks.len() == 1
    &&& node.marks[0].mark == mark
    &&& node.marks[0].range.start == 0
    &&& node.marks[0].range.end == byte_len(node.text)
}

/// Each style is written by the characters around the text that Markdown has
/// for it. Of several styles, a link goes before a highlight, that before
/// code, that before what is struck through, and that before what is
/// slanted and what is bold.
pub proof fn law_styles_are_written(node: InlineView, mark: MarkView)
    requires
        wholly(node, mark),
    ensures
        ({
            let t = node.text;
            let written = inline_markdown(node);
            &&& mark.link matches Some(link) ==> written == seq!['['] + t + seq![']', '(']
                + link.url + seq![')']
            &&& mark.link is None && mark.highlight is Some ==> written == seq!['=', '='] + t
                + seq!['=', '=']
            &&& mark.link is None && mark.highlight is None && mark.code ==> written == seq!['`']
                + t + seq!['`']
            &&& mark.link is None && mark.highlight is None && !mark.code && mark.strikethrough
                ==> written == seq!['~', '~'] + t + seq!['~', '~']
            &&& mark.link is None && mark.highlight is None && !mark.code && !mark.strikethrough
                && mark.italic ==> written == seq!['*'] + t + seq!['*']
            &&& mark.link is None && mark.highlight is None && !mark.code && !mark.strikethrough
                && !mark.italic && mark.bold ==> written == seq!['*', '*'] + t + seq!['*', '*']
            &&& unwritten(mark) ==> written == t
        }),
{
    reveal_strlit("[");
    reveal_strlit("](");
    reveal_strlit(")");
    reveal_strlit("==");
    reveal_strlit("`");
    reveal_strlit("~~");
    reveal_strlit("*");
    reveal_strlit("**");
    let t = node.text;
    let none = Seq::<char>::empty();
    lemma_between(t, none);
    lemma_between(none, t);
    assert(t + none =~= t);
    assert(none + t =~= t);
    assert(byte_len(none) == 0);
    assert(t.subrange(0, t.len() as int) =~= t);
    assert(piece_of(t, 0, byte_len(t) as int) == t);
    assert(node.marks.drop_last() =~= Seq::empty());
    assert(styled_by(t, node.marks.drop_last()) == t);
    assert("["@ =~= seq!['[']);
    assert("]("@ =~= seq![']', '(']);
    assert(")"@ =~= seq![')']);
    assert("=="@ =~= seq!['=', '=']);
    assert("`"@ =~= seq!['`']);
    assert("~~"@ =~= seq!['~', '~']);
    assert("*"@ =~= seq!['*']);
    assert("**"@ =~= seq!['*', '*']);
    let styled = styled_by(t, node.marks);
    assert(styled + none =~= styled);
}

/// An image is written with what stands for it, its address and its title.
pub proof fn law_images_are_written(image: ImageView, alt: Seq<char>, title: Seq<char>)
    ensures
        ({
            let node = InlineView { text: Seq::empty(), image: Some(image), marks: Seq::empty() };
            let written = inline_markdown(node);
            let start = seq!['!', '['];
            let link = seq![']', '('] + image.url;
            &&& image.alt == Some(alt) && image.title is None ==> written == start + alt + link
                + seq![')']
            &&& image.alt is None && image.title is None ==> written == start + link + seq![')']
            &&& image.alt == Some(alt) && image.title == Some(title) ==> written == start + alt
                + link + seq![' ', '"'] + title + seq!['"', ')']
            &&& image.alt is None && image.title == Some(title) ==> written == start + link + seq![
                ' ',
                '"',
            ] + title + seq!['"', ')']
        }),
{
    reveal_strlit("![");
    reveal_strlit("](");
    reveal_strlit(")");
    reveal_strlit(" \"");
    reveal_strlit("\"");
    let node = InlineView { text: Seq::empty(), image: Some(image), marks: Seq::empty() };
    let written = inline_markdown(node);
    let start = seq!['!', '['];
    let link = seq![']', '('] + image.url;
    if image.title is None {
        if image.alt == Some(alt) {
            assert(written =~= start + alt + link + seq![')']);
        }
        if image.alt is None {
            assert(written =~= start + link + seq![')']);
        }
    }
    if image.title == Some(title) {
        if image.alt == Some(alt) {
            assert(written =~= start + alt + link + seq![' ', '"'] + title + seq!['"', ')']);
        }
        if image.alt is None {
            assert(written =~= start + link + seq![' ', '"'] + title + seq!['"', ')']);
        }
    }
}

/// A paragraph is written as its parts, and a heading as that behind as many
/// number signs as its level and a blank.
pub proof fn law_paragraphs_and_headings_are_written(p: ParagraphView, node: BlockView, level: u8)
    requires
        solid(inlines_markdown(p.children)),
    ensures
        markdown_of(BlockView::Paragraph(p)) == inlines_markdown(p.children),
        node matches BlockView::Heading { level: l, children, .. } && l == level && l > 0
            && children == p ==> ({
            let written = markdown_of(node);
            &&& written == written.take(level as int) + seq![' '] + inlines_markdown(p.children)
            &&& forall|i: int| 0 <= i < level ==> #[trigger] written[i] == '#'
        }),
{
    reveal_strlit("\n\n");
    reveal_strlit(" ");
    let t = inlines_markdown(p.children);
    lemma_trimmed_ends(t, "\n\n"@);
    if let BlockView::Heading { level: l, children, .. } = node {
        if l == level && l > 0 && children == p {
            let signs = crate::node::markdown::hashes(level as nat);
            let whole = signs + " "@ + t;
            assert(raw_markdown(node) =~= whole + "\n\n"@);
            assert(whole[0] == '#');
            assert(whole.last() == t.last());
            lemma_trimmed_ends(whole, "\n\n"@);
            assert(whole.take(level as int) =~= signs);
            assert(" "@ =~= seq![' ']);
        }
    }
}

// ---------------------------------------------------------------------------
// Other blocks

/// Code is fenced by three accents, with its language behind the first.
pub proof fn law_code_is_written(c: CodeView)
    ensures
        ({
            let fence = seq!['`', '`', '`'];
            let lang = match c.lang {
                Some(lang) => lang,
                None => Seq::empty(),
            };
            markdown_of(BlockView::CodeBlock(c)) == fence + lang + seq!['\n'] + c.code + seq!['\n']
                + fence
        }),
{
    reveal_strlit("```");
    reveal_strlit("\n");
    reveal_strlit("\n```");
    let fence = seq!['`', '`', '`'];
    let lang = match c.lang {
        Some(lang) => lang,
        None => Seq::empty(),
    };
    let whole = fence + lang + seq!['\n'] + c.code + seq!['\n'] + fence;
    assert(raw_markdown(BlockView::CodeBlock(c)) =~= whole);
    assert(whole[0] == '`' && whole.last() == '`');
    lemma_solid_stays(whole);
}

/// Rules, breaks, definitions and what an extension wrote.
pub proof fn law_small_blocks_are_written(node: BlockView)
    ensures
        node is HorizontalRule ==> markdown_of(node) == seq!['-', '-', '-'],
        node matches BlockView::Break { html, .. } && html ==> markdown_of(node) == seq![
            '<',
            'b',
            'r',
            '>',
        ],
        node matches BlockView::Custom(m) ==> (solid(m.markdown) ==> markdown_of(node)
            == m.markdown),
        node matches BlockView::Definition { identifier, url, title, .. } ==> {
            let start = seq!['['] + identifier + seq![']', ':', ' '] + url;
            &&& title is None && solid(url) ==> markdown_of(node) == start
            &&& title is Some ==> markdown_of(node) == start + seq![' ', '"'] + title->0 + seq![
                '"',
            ]
        },
{
    reveal_strlit("---");
    reveal_strlit("<br>");
    reveal_strlit("[");
    reveal_strlit("]: ");
    reveal_strlit(" \"");
    reveal_strlit("\"");
    match node {
        BlockView::HorizontalRule { .. } => {
            assert("---"@ =~= seq!['-', '-', '-']);
            lemma_solid_stays("---"@);
        },
        BlockView::Break { html, .. } => {
            if html {
                assert("<br>"@ =~= seq!['<', 'b', 'r', '>']);
                lemma_solid_stays("<br>"@);
            }
        },
        BlockView::Custom(m) => {
            if solid(m.markdown) {
                lemma_solid_stays(m.markdown);
            }
        },
        BlockView::Definition { identifier, url, title, .. } => {
            let start = seq!['['] + identifier + seq![']', ':', ' '] + url;
            assert("["@ + identifier + "]: "@ + url =~= start);
            match title {
                None => {
                    if solid(url) {
                        assert(start.last() == url.last());
                        lemma_solid_stays(start);
                    }
                },
                Some(title) => {
                    let whole = start + seq![' ', '"'] + title + seq!['"'];
                    assert(start + " \""@ + title + "\""@ =~= whole);
                    lemma_solid_stays(whole);
                },
            }
        },
        _ => {},
    }
}

/// The items of a list stand one below the other, each behind a dash or,
/// where the list is ordered, behind its number, counted from one.
pub proof fn law_lists_are_written(nodes: Seq<BlockView>, item: BlockView, ordered: bool)
    ensures
        ({
            let prefix = if ordered {
                decimal(nodes.len() + 1) + seq!['.', ' ']
            } else {
                seq!['-', ' ']
            };
            list_markdown(nodes.push(item), ordered) == if nodes.len() == 0 {
                prefix + markdown_of(item)
            } else {
                list_markdown(nodes, ordered) + seq!['\n'] + prefix + markdown_of(item)
            }
        }),
{
    reveal_strlit(". ");
    reveal_strlit("- ");
    reveal_strlit("\n");
    let all = nodes.push(item);
    assert(all.drop_last() =~= nodes);
    let prefix = if ordered {
        decimal(nodes.len() + 1) + seq!['.', ' ']
    } else {
        seq!['-', ' ']
    };
    assert(". "@ =~= seq!['.', ' ']);
    assert("- "@ =~= seq!['-', ' ']);
    assert("\n"@ =~= seq!['\n']);
    let written = list_markdown(all, ordered);
    if nodes.len() > 0 {
        assert(written =~= list_markdown(nodes, ordered) + seq!['\n'] + prefix + markdown_of(
            item,
        ));
    }
}

/// Numbers are written with their digits, the last one last.
pub proof fn law_numbers_are_written(n: nat)
    ensures
        n < 10 ==> decimal(n) == seq![(48 + n) as u8 as char],
        n >= 10 ==> decimal(n) == decimal(n / 10) + decimal(n % 10),
{
    if n >= 10 {
        assert(decimal(n) =~= decimal(n / 10) + decimal(n % 10));
    }
}

/// Blocks are written one after the other, with `between` between each two.
pub proof fn law_blocks_are_joined(nodes: Seq<BlockView>, node: BlockView, between: Seq<char>)
    ensures
        joined_markdown(nodes.push(node), between) == if nodes.len() == 0 {
            markdown_of(node)
        } else {
            joined_markdown(nodes, between) + between + markdown_of(node)
        },
{
    assert(nodes.push(node).drop_last() =~= nodes);
}

/// A document is written as its blocks, an item as its box and its blocks, and
/// a list as its items.
pub proof fn law_roots_and_items_are_written(node: BlockView)
    ensures
        node matches BlockView::Root { children, .. } ==> {
            let t = joined_markdown(children, seq!['\n', '\n']);
            solid(t) ==> markdown_of(node) == t
        },
        node matches BlockView::ListItem { children, checked, .. } ==> {
            let t = joined_markdown(children, seq!['\n']);
            solid(t) ==> markdown_of(node) == match checked {
                Some(true) => seq!['[', 'x', ']', ' '],
                Some(false) => seq!['[', ' ', ']', ' '],
                None => Seq::<char>::empty(),
            } + t
        },
        node matches BlockView::List { children, ordered, .. } ==> {
            let t = list_markdown(children, ordered);
            solid(t) ==> markdown_of(node) == t
        },
{
    reveal_strlit("\n\n");
    reveal_strlit("\n");
    reveal_strlit("[x] ");
    reveal_strlit("[ ] ");
    reveal_strlit("");
    assert("\n\n"@ =~= seq!['\n', '\n']);
    assert("\n"@ =~= seq!['\n']);
    match node {
        BlockView::Root { children, .. } => {
            let t = joined_markdown(children, seq!['\n', '\n']);
            if solid(t) {
                lemma_solid_stays(t);
            }
        },
        BlockView::ListItem { children, checked, .. } => {
            let t = joined_markdown(children, seq!['\n']);
            if solid(t) {
                assert("[x] "@ =~= seq!['[', 'x', ']', ' ']);
                assert("[ ] "@ =~= seq!['[', ' ', ']', ' ']);
                assert(""@ =~= Seq::<char>::empty());
                let whole = crate::node::markdown::checkbox(checked) + t;
                assert(whole.last() == t.last());
                assert(Seq::<char>::empty() + t =~= t);
                lemma_solid_stays(whole);
            }
        },
        BlockView::List { children, ordered, .. } => {
            if solid(list_markdown(children, ordered)) {
                lemma_solid_stays(list_markdown(children, ordered));
            }
        },
        _ => {},
    }
}

// ---------------------------------------------------------------------------
// Quotes and tables

/// Lines are what stands between line feeds. A line feed at the end of a text
/// starts no line, and a carriage return before a line feed is part of it.
pub proof fn law_lines(a: Seq<char>, line: Seq<char>)
    requires
        a.len() == 0 || a.last() == '\n',
        !line.contains('\n'),
    ensures
        line.len() == 0 ==> lines_of(a + line) == lines_of(a),
        line.len() > 0 ==> lines_of(a + line) == lines_of(a).push(line),
        line.len() == 0 || line.last() != '\r' ==> lines_of(a + line + seq!['\n']) == lines_of(
            a,
        ).push(line),
        line.len() > 0 && line.last() == '\r' ==> lines_of(a + line + seq!['\n']) == lines_of(
            a,
        ).push(line.drop_last()),
{
    lemma_line_rest(a, line);
    assert(split_lines(a).rest.len() == 0);
    let whole = a + line + seq!['\n'];
    assert(whole.drop_last() =~= a + line);
    if line.len() == 0 {
        assert(a + line =~= a);
    }
}

proof fn lemma_line_rest(a: Seq<char>, line: Seq<char>)
    requires
        a.len() == 0 || a.last() == '\n',
        !line.contains('\n'),
    ensures
        split_lines(a + line).done == split_lines(a).done,
        split_lines(a + line).rest == line,
    decreases line.len(),
{
    if line.len() == 0 {
        assert(a + line =~= a);
        assert(split_lines(a).rest =~= line);
    } else {
        let rest = line.drop_last();
        assert(line.contains(line.last()));
        assert forall|c: char| rest.contains(c) implies line.contains(c) by {
            let k = choose|k: int| 0 <= k < rest.len() && rest[k] == c;
            assert(line[k] == c);
        }
        lemma_line_rest(a, rest);
        assert((a + line).drop_last() =~= a + rest);
        assert(rest.push(line.last()) =~= line);
    }
}

/// Each line of a quote stands behind an angle bracket and a blank.
pub proof fn law_quotes_are_written(lines: Seq<Seq<char>>, line: Seq<char>, node: BlockView)
    ensures
        quoted(lines.push(line)) == if lines.len() == 0 {
            seq!['>', ' '] + line
        } else {
            quoted(lines) + seq!['\n', '>', ' '] + line
        },
        node matches BlockView::Blockquote { children, .. } ==> {
            let t = quoted(lines_of(joined_markdown(children, seq!['\n', '\n'])));
            solid(t) ==> markdown_of(node) == t
        },
{
    reveal_strlit("> ");
    reveal_strlit("\n");
    reveal_strlit("\n\n");
    assert(lines.push(line).drop_last() =~= lines);
    assert("> "@ =~= seq!['>', ' ']);
    assert("\n\n"@ =~= seq!['\n', '\n']);
    if lines.len() > 0 {
        assert(quoted(lines.push(line)) =~= quoted(lines) + seq!['\n', '>', ' '] + line);
    }
    if let BlockView::Blockquote { children, .. } = node {
        let t = quoted(lines_of(joined_markdown(children, seq!['\n', '\n'])));
        if solid(t) {
            lemma_solid_stays(t);
        }
    }
}

/// The cells of a row, and the alignments of the columns, are written with a
/// bar between each two, the rows below each other.
pub proof fn law_rows_are_written(
    cells: Seq<CellView>,
    cell: CellView,
    aligns: Seq<ColumnumnAlign>,
    align: ColumnumnAlign,
    rows: Seq<Seq<CellView>>,
    row: Seq<CellView>,
)
    ensures
        ({
            let written = inlines_markdown(cell.children.children) + seq!['\n', '\n'];
            cells_markdown(cells.push(cell)) == if cells.len() == 0 {
                written
            } else {
                cells_markdown(cells) + seq![' ', '|', ' '] + written
            }
        }),
        ({
            let written = match align {
                ColumnumnAlign::Left => seq![':', '-', '-'],
                ColumnumnAlign::Center => seq![':', '-', ':'],
                ColumnumnAlign::Right => seq!['-', '-', ':'],
            };
            aligns_markdown(aligns.push(align)) == if aligns.len() == 0 {
                written
            } else {
                aligns_markdown(aligns) + seq![' ', '|', ' '] + written
            }
        }),
        rows_markdown(rows.push(row)) == if rows.len() == 0 {
            cells_markdown(row)
        } else {
            rows_markdown(rows) + seq!['\n'] + cells_markdown(row)
        },
{
    reveal_strlit(" | ");
    reveal_strlit("\n");
    reveal_strlit("\n\n");
    reveal_strlit(":--");
    reveal_strlit(":-:");
    reveal_strlit("--:");
    assert(" | "@ =~= seq![' ', '|', ' ']);
    assert("\n"@ =~= seq!['\n']);
    assert("\n\n"@ =~= seq!['\n', '\n']);
    assert(":--"@ =~= seq![':', '-', '-']);
    assert(":-:"@ =~= seq![':', '-', ':']);
    assert("--:"@ =~= seq!['-', '-', ':']);
    assert(cells.push(cell).drop_last() =~= cells);
    assert(aligns.push(align).drop_last() =~= aligns);
    assert(rows.push(row).drop_last() =~= rows);
}

/// A table is written as its first row, the alignments of its columns, and
/// its other rows, each below the other.
pub proof fn law_tables_are_written(t: TableView, header: Seq<CellView>, rows: Seq<Seq<CellView>>)
    requires
        t.rows == seq![header] + rows,
    ensures
        table_markdown(t) == cells_markdown(header) + seq!['\n'] + aligns_markdown(
            t.column_aligns,
        ) + seq!['\n'] + rows_markdown(rows),
        solid(table_markdown(t)) ==> markdown_of(BlockView::Table(t)) == table_markdown(t),
{
    reveal_strlit("\n");
    assert("\n"@ =~= seq!['\n']);
    assert(t.rows.skip(1) =~= rows);
    if solid(table_markdown(t)) {
        lemma_solid_stays(table_markdown(t));
    }
}

} // verus!
