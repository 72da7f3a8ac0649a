//! Writing nodes as Markdown.
use crate::node::block::{block_view, block_views, lemma_block_views, BlockNode, BlockView};
use crate::node::code_block::{CodeBlock, CodeView};
use crate::node::inline::{
    piece, piece_of, range_mark, range_marks, ImageNode, ImageView, InlineNode, InlineView,
    RangeMarkView,
};
use crate::node::marks::{opt_text, TextMark};
use crate::node::paragraph::{inline_views, Paragraph, ParagraphView};
use crate::node::table::{CellView, ColumnumnAlign, Table, TableRow, TableView};
use crate::strings::{
    decimal, str_chars, trim, trimmed, trimmed_end, trimmed_start, usize_to_string, white_space,
};
use core::ops::Range;
use vstd::prelude::*;

verus! {

fn wrap(before: &str, text: &str, after: &str) -> (s: String)
    ensures
        s@ == before@ + text@ + after@,
{
    let mut s = before.to_owned();
    s.append(text);
    s.append(after);
    s
}

fn empty() -> (s: String)
    ensures
        s@ == Seq::<char>::empty(),
{
    let s = String::new();
    assert(s@ =~= Seq::<char>::empty());
    s
}

// ---------------------------------------------------------------------------
// Paragraphs

/// What is written for a node once its style `m` is taken into account: of
/// several styles, the last one that is set decides.
pub open spec fn styled(text: Seq<char>, whole: Seq<char>, m: RangeMarkView) -> Seq<char> {
    let part = piece_of(whole, m.range.start as int, m.range.end as int);
    match m.mark.link {
        Some(link) => "["@ + part + "]("@ + link.url + ")"@,
        None => if m.mark.highlight is Some {
            "=="@ + part + "=="@
        } else if m.mark.code {
            "`"@ + part + "`"@
        } else if m.mark.strikethrough {
            "~~"@ + part + "~~"@
        } else if m.mark.italic {
            "*"@ + part + "*"@
        } else if m.mark.bold {
            "**"@ + part + "**"@
        } else {
            text
        },
    }
}

pub open spec fn styled_by(whole: Seq<char>, marks: Seq<RangeMarkView>) -> Seq<char>
    decreases marks.len(),
{
    if marks.len() == 0 {
        whole
    } else {
        styled(styled_by(whole, marks.drop_last()), whole, marks.last())
    }
}

pub open spec fn image_markdown(image: ImageView) -> Seq<char> {
    let alt = match image.alt {
        Some(alt) => alt,
        None => Seq::empty(),
    };
    let title = match image.title {
        Some(title) => " \""@ + title + "\""@,
        None => Seq::empty(),
    };
    "!["@ + alt + "]("@ + image.url + title + ")"@
}

pub open spec fn inline_markdown(node: InlineView) -> Seq<char> {
    styled_by(node.text, node.marks) + match node.image {
        Some(image) => image_markdown(image),
        None => Seq::empty(),
    }
}

pub open spec fn inlines_markdown(nodes: Seq<InlineView>) -> Seq<char>
    decreases nodes.len(),
{
    if nodes.len() == 0 {
        Seq::empty()
    } else {
        inlines_markdown(nodes.drop_last()) + inline_markdown(nodes.last())
    }
}

pub open spec fn paragraph_markdown(p: ParagraphView) -> Seq<char> {
    inlines_markdown(p.children) + "\n\n"@
}

fn style_text(text: String, whole: &str, range: &Range<usize>, mark: &TextMark) -> (s: String)
    ensures
        s@ == styled(text@, whole@, RangeMarkView { range: *range, mark: mark@ }),
{
    let part = piece(whole, range.start, range.end);
    match &mark.link {
        Some(link) => {
            let mut s = wrap("[", part.as_str(), "](");
            s.append(link.url.as_str());
            s.append(")");
            s
        },
        None => {
            if mark.highlight.is_some() {
                wrap("==", part.as_str(), "==")
            } else if mark.code {
                wrap("`", part.as_str(), "`")
            } else if mark.strikethrough {
                wrap("~~", part.as_str(), "~~")
            } else if mark.italic {
                wrap("*", part.as_str(), "*")
            } else if mark.bold {
                wrap("**", part.as_str(), "**")
            } else {
                text
            }
        },
    }
}

fn write_image(image: &ImageNode) -> (s: String)
    ensures
        s@ == image_markdown(image@),
{
    let alt = match &image.alt {
        Some(alt) => alt.as_str().to_owned(),
        None => empty(),
    };
    let title = match &image.title {
        Some(title) => wrap(" \"", title.as_str(), "\""),
        None => empty(),
    };
    let mut s = wrap("![", alt.as_str(), "](");
    s.append(image.url.as_str());
    s.append(title.as_str());
    s.append(")");
    s
}

fn write_inline(node: &InlineNode) -> (s: String)
    ensures
        s@ == inline_markdown(node@),
{
    let ghost marks = node@.marks;
    let mut text = node.text.as_str().to_owned();
    assert(marks.take(0) =~= Seq::empty());
    for i in 0..node.marks.len()
        invariant
            marks == range_marks(node.marks@),
            text@ == styled_by(node.text@, marks.take(i as int)),
    {
        assert(marks.take(i as int + 1).drop_last() =~= marks.take(i as int));
        assert(marks[i as int] == range_mark(node.marks@[i as int]));
        let m = &node.marks[i];
        text = style_text(text, node.text.as_str(), &m.0, &m.1);
    }
    assert(marks.take(marks.len() as int) =~= marks);
    match &node.image {
        Some(image) => {
            text.append(write_image(image).as_str());
        },
        None => {
            assert(text@ + Seq::<char>::empty() =~= text@);
        },
    }
    text
}

impl Paragraph {
    /// The paragraph as Markdown.
    pub fn to_markdown(&self) -> (s: String)
        ensures
            s@ == paragraph_markdown(self@),
    {
        let ghost views = self@.children;
        let mut s = empty();
        assert(views.take(0) =~= Seq::empty());
        for i in 0..self.children.len()
            invariant
                views == inline_views(self.children@),
                s@ == inlines_markdown(views.take(i as int)),
        {
            assert(views.take(i as int + 1).drop_last() =~= views.take(i as int));
            s.append(write_inline(&self.children[i]).as_str());
        }
        assert(views.take(views.len() as int) =~= views);
        s.append("\n\n");
        s
    }
}

// ---------------------------------------------------------------------------
// Tables

pub open spec fn cells_markdown(cells: Seq<CellView>) -> Seq<char>
    decreases cells.len(),
{
    if cells.len() == 0 {
        Seq::empty()
    } else if cells.len() == 1 {
        paragraph_markdown(cells[0].children)
    } else {
        cells_markdown(cells.drop_last()) + " | "@ + paragraph_markdown(cells.last().children)
    }
}

pub open spec fn rows_markdown(rows: Seq<Seq<CellView>>) -> Seq<char>
    decreases rows.len(),
{
    if rows.len() == 0 {
        Seq::empty()
    } else if rows.len() == 1 {
        cells_markdown(rows[0])
    } else {
        rows_markdown(rows.drop_last()) + "\n"@ + cells_markdown(rows.last())
    }
}

pub open spec fn align_markdown(align: ColumnumnAlign) -> Seq<char> {
    match align {
        ColumnumnAlign::Left => ":--"@,
        ColumnumnAlign::Center => ":-:"@,
        ColumnumnAlign::Right => "--:"@,
    }
}

pub open spec fn aligns_markdown(aligns: Seq<ColumnumnAlign>) -> Seq<char>
    decreases aligns.len(),
{
    if aligns.len() == 0 {
        Seq::empty()
    } else if aligns.len() == 1 {
        align_markdown(aligns[0])
    } else {
        aligns_markdown(aligns.drop_last()) + " | "@ + align_markdown(aligns.last())
    }
}

/// A table: its header, the alignments of its columns, and its other rows.
pub open spec fn table_markdown(table: TableView) -> Seq<char> {
    let header = if table.rows.len() == 0 {
        Seq::empty()
    } else {
        cells_markdown(table.rows[0])
    };
    let rows = if table.rows.len() == 0 {
        Seq::empty()
    } else {
        table.rows.skip(1)
    };
    header + "\n"@ + aligns_markdown(table.column_aligns) + "\n"@ + rows_markdown(rows)
}

fn write_row(row: &TableRow) -> (s: String)
    ensures
        s@ == cells_markdown(row@),
{
    let ghost cells = row@;
    let mut s = empty();
    assert(cells.take(0) =~= Seq::empty());
    for i in 0..row.children.len()
        invariant
            cells == row@,
            s@ == cells_markdown(cells.take(i as int)),
    {
        let ghost t = cells.take(i as int + 1);
        assert(t.drop_last() =~= cells.take(i as int));
        assert(t.last() == row.children@[i as int]@);
        if i > 0 {
            s.append(" | ");
        }
        let ghost before = s@;
        s.append(row.children[i].children.to_markdown().as_str());
        if i == 0 {
            assert(s@ =~= paragraph_markdown(t[0].children));
        }
    }
    assert(cells.take(cells.len() as int) =~= cells);
    s
}

fn write_aligns(aligns: &Vec<ColumnumnAlign>) -> (s: String)
    ensures
        s@ == aligns_markdown(aligns@),
{
    let mut s = empty();
    assert(aligns@.take(0) =~= Seq::empty());
    for i in 0..aligns.len()
        invariant
            s@ == aligns_markdown(aligns@.take(i as int)),
    {
        let ghost t = aligns@.take(i as int + 1);
        assert(t.drop_last() =~= aligns@.take(i as int));
        if i > 0 {
            s.append(" | ");
        }
        let part = match aligns[i] {
            ColumnumnAlign::Left => ":--",
            ColumnumnAlign::Center => ":-:",
            ColumnumnAlign::Right => "--:",
        };
        s.append(part);
        if i == 0 {
            assert(s@ =~= align_markdown(t[0]));
        }
    }
    assert(aligns@.take(aligns@.len() as int) =~= aligns@);
    s
}

fn write_table(table: &Table) -> (s: String)
    ensures
        s@ == table_markdown(table@),
{
    let ghost rows = table@.rows;
    let mut s = if table.children.len() > 0 {
        assert(rows[0] == table.children@[0]@);
        write_row(&table.children[0])
    } else {
        empty()
    };
    s.append("\n");
    s.append(write_aligns(&table.column_aligns).as_str());
    s.append("\n");
    let mut body = empty();
    let ghost others = if rows.len() == 0 {
        Seq::empty()
    } else {
        rows.skip(1)
    };
    let mut i: usize = 1;
    assert(others.take(0) =~= Seq::empty());
    while i < table.children.len()
        invariant
            rows == table@.rows,
            1 <= i,
            i <= table.children.len() || (i == 1 && table.children.len() == 0),
            others == (if rows.len() == 0 {
                Seq::empty()
            } else {
                rows.skip(1)
            }),
            body@ == rows_markdown(others.take(i - 1)),
        decreases table.children.len() - i,
    {
        let ghost t = others.take(i as int);
        assert(t.drop_last() =~= others.take(i - 1));
        assert(t.last() == table.children@[i as int]@);
        if i > 1 {
            body.append("\n");
        }
        body.append(write_row(&table.children[i]).as_str());
        if i == 1 {
            assert(body@ =~= cells_markdown(t[0]));
        }
        i = i + 1;
    }
    assert(others.take(i - 1) =~= others);
    s.append(body.as_str());
    s
}

// ---------------------------------------------------------------------------
// Quotes

/// The finished lines of a text, and what follows the last line break.
pub struct Lines {
    pub done: Seq<Seq<char>>,
    pub rest: Seq<char>,
}

/// A line without the carriage return at its end.
pub open spec fn chomped(line: Seq<char>) -> Seq<char> {
    if line.len() > 0 && line.last() == '\r' {
        line.drop_last()
    } else {
        line
    }
}

pub open spec fn split_lines(s: Seq<char>) -> Lines
    decreases s.len(),
{
    if s.len() == 0 {
        Lines { done: Seq::empty(), rest: Seq::empty() }
    } else {
        let before = split_lines(s.drop_last());
        if s.last() == '\n' {
            Lines { done: before.done.push(chomped(before.rest)), rest: Seq::empty() }
        } else {
            Lines { rest: before.rest.push(s.last()), ..before }
        }
    }
}

/// The lines of a text. Nothing follows a line break at the end of the text.
pub open spec fn lines_of(s: Seq<char>) -> Seq<Seq<char>> {
    let lines = split_lines(s);
    if lines.rest.len() == 0 {
        lines.done
    } else {
        lines.done.push(lines.rest)
    }
}

/// Lines, each marked as part of a quote.
pub open spec fn quoted(lines: Seq<Seq<char>>) -> Seq<char>
    decreases lines.len(),
{
    if lines.len() == 0 {
        Seq::empty()
    } else if lines.len() == 1 {
        "> "@ + lines[0]
    } else {
        quoted(lines.drop_last()) + "\n"@ + ("> "@ + lines.last())
    }
}

fn push_quoted(s: &mut String, line: &str, first: bool, Ghost(lines): Ghost<Seq<Seq<char>>>)
    requires
        old(s)@ == quoted(lines),
        first == (lines.len() == 0),
    ensures
        final(s)@ == quoted(lines.push(line@)),
{
    assert(lines.push(line@).drop_last() =~= lines);
    if !first {
        s.append("\n");
    }
    let ghost before = s@;
    s.append("> ");
    s.append(line);
    assert(s@ =~= before + ("> "@ + line@));
    if first {
        assert(before =~= Seq::empty());
        assert(s@ =~= "> "@ + line@);
    }
}

fn quote(content: &str) -> (s: String)
    ensures
        s@ == quoted(lines_of(content@)),
{
    let chars = str_chars(content);
    let mut s = empty();
    let mut first: bool = true;
    let mut line = empty();
    assert(chars@.take(0) =~= Seq::empty());
    for i in 0..chars.len()
        invariant
            s@ == quoted(split_lines(chars@.take(i as int)).done),
            first == (split_lines(chars@.take(i as int)).done.len() == 0),
            line@ == split_lines(chars@.take(i as int)).rest,
    {
        let ghost before = split_lines(chars@.take(i as int));
        assert(chars@.take(i as int + 1).drop_last() =~= chars@.take(i as int));
        if chars[i] == '\n' {
            let text = chomp(line);
            push_quoted(&mut s, text.as_str(), first, Ghost(before.done));
            first = false;
            line = empty();
        } else {
            line.push(chars[i]);
        }
    }
    assert(chars@.take(chars@.len() as int) =~= chars@);
    if line.as_str().unicode_len() > 0 {
        push_quoted(&mut s, line.as_str(), first, Ghost(split_lines(chars@).done));
    }
    s
}

fn chomp(line: String) -> (r: String)
    ensures
        r@ == chomped(line@),
{
    let n: usize = line.as_str().unicode_len();
    if n > 0 && line.as_str().get_char(n - 1) == '\r' {
        let r = line.as_str().substring_char(0, n - 1).to_owned();
        assert(r@ =~= line@.drop_last());
        r
    } else {
        line
    }
}

// ---------------------------------------------------------------------------
// Blocks

pub open spec fn hashes(level: nat) -> Seq<char> {
    Seq::new(level, |i: int| '#')
}

pub open spec fn list_prefix(i: int, ordered: bool) -> Seq<char> {
    if ordered {
        decimal((i + 1) as nat) + ". "@
    } else {
        "- "@
    }
}

pub open spec fn checkbox(checked: Option<bool>) -> Seq<char> {
    match checked {
        Some(true) => "[x] "@,
        Some(false) => "[ ] "@,
        None => ""@,
    }
}

pub open spec fn code_markdown(c: CodeView) -> Seq<char> {
    let lang = match c.lang {
        Some(lang) => lang,
        None => Seq::empty(),
    };
    "```"@ + lang + "\n"@ + c.code + "\n```"@
}

pub open spec fn definition_markdown(
    identifier: Seq<char>,
    url: Seq<char>,
    title: Option<Seq<char>>,
) -> Seq<char> {
    let start = "["@ + identifier + "]: "@ + url;
    match title {
        Some(title) => start + " \""@ + title + "\""@,
        None => start,
    }
}

/// A node as Markdown, before white space at its ends is removed.
pub open spec fn raw_markdown(node: BlockView) -> Seq<char>
    decreases node, 0nat,
{
    match node {
        BlockView::Root { children, .. } => joined_markdown(children, "\n\n"@),
        BlockView::Paragraph(p) => paragraph_markdown(p),
        BlockView::Heading { level, children, .. } => hashes(level as nat) + " "@
            + paragraph_markdown(children),
        BlockView::Blockquote { children, .. } => quoted(
            lines_of(joined_markdown(children, "\n\n"@)),
        ),
        BlockView::List { children, ordered, .. } => list_markdown(children, ordered),
        BlockView::ListItem { children, checked, .. } => checkbox(checked) + joined_markdown(
            children,
            "\n"@,
        ),
        BlockView::CodeBlock(c) => code_markdown(c),
        BlockView::Custom(m) => m.markdown,
        BlockView::Table(t) => table_markdown(t),
        BlockView::Break { html, .. } => if html {
            "<br>"@
        } else {
            "\n"@
        },
        BlockView::HorizontalRule { .. } => "---"@,
        BlockView::Definition { identifier, url, title, .. } => definition_markdown(
            identifier,
            url,
            title,
        ),
        BlockView::Unknown => Seq::empty(),
    }
}

/// A node as Markdown.
pub open spec fn markdown_of(node: BlockView) -> Seq<char>
    decreases node, 1nat,
{
    trimmed(raw_markdown(node))
}

/// Nodes as Markdown, with `between` between them.
pub open spec fn joined_markdown(nodes: Seq<BlockView>, between: Seq<char>) -> Seq<char>
    decreases nodes, 0nat,
{
    if nodes.len() == 0 {
        Seq::empty()
    } else if nodes.len() == 1 {
        markdown_of(nodes[0])
    } else {
        joined_markdown(nodes.drop_last(), between) + between + markdown_of(nodes.last())
    }
}

/// The items of a list as Markdown.
pub open spec fn list_markdown(nodes: Seq<BlockView>, ordered: bool) -> Seq<char>
    decreases nodes, 0nat,
{
    if nodes.len() == 0 {
        Seq::empty()
    } else {
        let item = list_prefix(nodes.len() - 1, ordered) + markdown_of(nodes.last());
        if nodes.len() == 1 {
            item
        } else {
            list_markdown(nodes.drop_last(), ordered) + "\n"@ + item
        }
    }
}

fn write_hashes(level: u8) -> (s: String)
    ensures
        s@ == hashes(level as nat),
{
    let mut s = empty();
    assert(s@ =~= hashes(0));
    for i in 0..level
        invariant
            s@ == hashes(i as nat),
    {
        s.push('#');
        assert(s@ =~= hashes((i + 1) as nat));
    }
    s
}

fn write_code(block: &CodeBlock) -> (s: String)
    ensures
        s@ == code_markdown(block@),
{
    let lang = match block.lang() {
        Some(lang) => lang,
        None => empty(),
    };
    let mut s = wrap("```", lang.as_str(), "\n");
    s.append(block.code().as_str());
    s.append("\n```");
    s
}

fn write_definition(identifier: &str, url: &str, title: &Option<String>) -> (s: String)
    ensures
        s@ == definition_markdown(identifier@, url@, opt_text(*title)),
{
    let mut s = wrap("[", identifier, "]: ");
    s.append(url);
    match title {
        Some(title) => {
            s.append(" \"");
            s.append(title.as_str());
            s.append("\"");
        },
        None => {},
    }
    s
}

impl BlockNode {
    /// The node as Markdown.
    pub fn to_markdown(&self) -> (s: String)
        ensures
            s@ == markdown_of(self@),
        decreases self, 1nat,
    {
        trim(self.write_raw().as_str())
    }

    fn write_raw(&self) -> (s: String)
        ensures
            s@ == raw_markdown(self@),
        decreases self, 0nat,
    {
        match self {
            BlockNode::Root { children, .. } => Self::write_joined(children, "\n\n"),
            BlockNode::Paragraph(p) => p.to_markdown(),
            BlockNode::Heading { level, children, .. } => wrap(
                write_hashes(*level).as_str(),
                " ",
                children.to_markdown().as_str(),
            ),
            BlockNode::Blockquote { children, .. } => quote(
                Self::write_joined(children, "\n\n").as_str(),
            ),
            BlockNode::List { children, ordered, .. } => Self::write_list(children, *ordered),
            BlockNode::ListItem { children, checked, .. } => {
                let mut s = match *checked {
                    Some(checked) => if checked {
                        "[x] "
                    } else {
                        "[ ] "
                    },
                    None => "",
                }.to_owned();
                let content = Self::write_joined(children, "\n");
                s.append(content.as_str());
                s
            },
            BlockNode::CodeBlock(c) => write_code(c),
            BlockNode::Custom(m) => m.markdown.as_str().to_owned(),
            BlockNode::Table(t) => write_table(t),
            BlockNode::Break { html, .. } => if *html {
                "<br>".to_owned()
            } else {
                "\n".to_owned()
            },
            BlockNode::HorizontalRule { .. } => "---".to_owned(),
            BlockNode::Definition { identifier, url, title, .. } => write_definition(
                identifier.as_str(),
                url.as_str(),
                title,
            ),
            BlockNode::Unknown => empty(),
        }
    }

    fn write_joined(children: &Vec<BlockNode>, between: &str) -> (s: String)
        ensures
            s@ == joined_markdown(block_views(children@), between@),
        decreases children, 0nat,
    {
        let ghost views = block_views(children@);
        proof {
            lemma_block_views(children@);
        }
        let mut s = empty();
        assert(views.take(0) =~= Seq::empty());
        for i in 0..children.len()
            invariant
                views == block_views(children@),
                views.len() == children.len(),
                forall|k: int|
                    0 <= k < children.len() ==> #[trigger] views[k] == block_view(children@[k]),
                s@ == joined_markdown(views.take(i as int), between@),
        {
            let ghost t = views.take(i as int + 1);
            assert(t.drop_last() =~= views.take(i as int));
            assert(t.last() == views[i as int]);
            if i > 0 {
                s.append(between);
            }
            let part = children[i].to_markdown();
            s.append(part.as_str());
            if i == 0 {
                assert(s@ =~= markdown_of(t[0]));
            }
        }
        assert(views.take(views.len() as int) =~= views);
        s
    }

    fn write_list(children: &Vec<BlockNode>, ordered: bool) -> (s: String)
        ensures
            s@ == list_markdown(block_views(children@), ordered),
        decreases children, 0nat,
    {
        let ghost views = block_views(children@);
        proof {
            lemma_block_views(children@);
        }
        let mut s = empty();
        assert(views.take(0) =~= Seq::empty());
        for i in 0..children.len()
            invariant
                views == block_views(children@),
                views.len() == children.len(),
                forall|k: int|
                    0 <= k < children.len() ==> #[trigger] views[k] == block_view(children@[k]),
                s@ == list_markdown(views.take(i as int), ordered),
        {
            let ghost t = views.take(i as int + 1);
            assert(t.drop_last() =~= views.take(i as int));
            assert(t.last() == views[i as int]);
            let mut item = if ordered {
                let mut number = usize_to_string(i + 1);
                number.append(". ");
                number
            } else {
                "- ".to_owned()
            };
            let part = children[i].to_markdown();
            item.append(part.as_str());
            if i > 0 {
                s.append("\n");
            }
            s.append(item.as_str());
            if i == 0 {
                assert(s@ =~= item@);
            }
        }
        assert(views.take(views.len() as int) =~= views);
        s
    }
}

// ---------------------------------------------------------------------------
// Laws

proof fn lemma_trimmed_start(s: Seq<char>)
    ensures
        trimmed_start(s).len() > 0 ==> !white_space(trimmed_start(s)[0]),
    decreases s.len(),
{
    if s.len() > 0 && white_space(s[0]) {
        lemma_trimmed_start(s.skip(1));
    }
}

proof fn lemma_trimmed_end(s: Seq<char>)
    ensures
        trimmed_end(s).len() > 0 ==> !white_space(trimmed_end(s).last()) && trimmed_end(s)[0]
            == s[0],
        trimmed_end(s).len() <= s.len(),
    decreases s.len(),
{
    if s.len() > 0 && white_space(s.last()) {
        lemma_trimmed_end(s.drop_last());
    }
}

/// Markdown neither starts nor ends with white space.
pub proof fn law_markdown_is_trimmed(node: BlockView)
    ensures
        markdown_of(node).len() > 0 ==> !white_space(markdown_of(node)[0]) && !white_space(
            markdown_of(node).last(),
        ),
        trimmed(markdown_of(node)) == markdown_of(node),
{
    let raw = raw_markdown(node);
    lemma_trimmed_start(raw);
    lemma_trimmed_end(trimmed_start(raw));
}

} // verus!
