//! How tables are laid out.
use crate::node::inline::InlineStateView;
use crate::node::marks::{LinkView, Span};
use crate::node::paint::{
    painted_paragraph, paragraph_name, rendering_of, Rendering, RenderingView,
};
use crate::node::paragraph::{counted, inline_text, paragraph_states};
use crate::node::refs::LinkRefs;
use crate::node::table::{
    cells_states, rows_states, CellView, ColumnumnAlign, Table, TableCell, TableRow, TableView,
};
use crate::strings::{decimal, str_chars, trim, trimmed, usize_to_string};
use crate::text::byte_len;
use vstd::prelude::*;

verus! {

/// The least length that a column is laid out for.
pub const DEFAULT_LENGTH: usize = 5;

/// The largest length that a column is laid out for.
pub const MAX_LENGTH: usize = 150;

// ---------------------------------------------------------------------------
// Columns

pub open spec fn cell_len(cell: CellView) -> nat {
    counted(byte_len(inline_text(cell.children.children)))
}

/// The length of the longest text of a column.
pub open spec fn column_len(rows: Seq<Seq<CellView>>, column: int) -> nat
    decreases rows.len(),
{
    if rows.len() == 0 {
        DEFAULT_LENGTH as nat
    } else {
        let rest = column_len(rows.drop_last(), column);
        if column < rows.last().len() && cell_len(rows.last()[column]) > rest {
            cell_len(rows.last()[column])
        } else {
            rest
        }
    }
}

/// The number of cells of the longest row.
pub open spec fn column_count(rows: Seq<Seq<CellView>>) -> nat
    decreases rows.len(),
{
    if rows.len() == 0 {
        0
    } else {
        let rest = column_count(rows.drop_last());
        if rows.last().len() > rest {
            rows.last().len()
        } else {
            rest
        }
    }
}

proof fn lemma_new_column(rows: Seq<Seq<CellView>>, column: int)
    requires
        column >= column_count(rows),
    ensures
        column_len(rows, column) == DEFAULT_LENGTH,
    decreases rows.len(),
{
    if rows.len() > 0 {
        lemma_new_column(rows.drop_last(), column);
    }
}

impl Table {
    /// The length of the longest text of each column.
    pub fn column_lengths(&self) -> (lens: Vec<usize>)
        ensures
            lens@.len() == column_count(self@.rows),
            forall|c: int|
                0 <= c < lens@.len() ==> #[trigger] lens@[c] == column_len(self@.rows, c),
    {
        let ghost rows = self@.rows;
        let mut lens: Vec<usize> = Vec::new();
        assert(rows.take(0) =~= Seq::empty());
        for i in 0..self.children.len()
            invariant
                rows == self@.rows,
                lens@.len() == column_count(rows.take(i as int)),
                forall|c: int|
                    0 <= c < lens@.len() ==> #[trigger] lens@[c] == column_len(
                        rows.take(i as int),
                        c,
                    ),
        {
            let ghost done = rows.take(i as int);
            let ghost next = rows.take(i as int + 1);
            assert(next.drop_last() =~= done);
            let row = &self.children[i];
            assert(next.last() == row@);
            for j in 0..row.children.len()
                invariant
                    next.len() > 0,
                    next.drop_last() == done,
                    next.last() == row@,
                    lens@.len() == if j > column_count(done) {
                        j as nat
                    } else {
                        column_count(done)
                    },
                    forall|c: int|
                        0 <= c < j ==> #[trigger] lens@[c] == column_len(next, c),
                    forall|c: int|
                        j <= c < lens@.len() ==> #[trigger] lens@[c] == column_len(done, c),
            {
                if lens.len() <= j {
                    proof {
                        lemma_new_column(done, j as int);
                    }
                    lens.push(DEFAULT_LENGTH);
                }
                let n = row.children[j].children.text_len();
                assert(row@[j as int] == row.children@[j as int]@);
                assert(lens@[j as int] == column_len(done, j as int));
                if n > lens[j] {
                    lens.set(j, n);
                }
                assert(lens@[j as int] == column_len(next, j as int));
            }
        }
        assert(rows.take(rows.len() as int) =~= rows);
        lens
    }
}

// ---------------------------------------------------------------------------
// Lines

/// The parts of a text between its line breaks.
pub open spec fn between_breaks(s: Seq<char>) -> Seq<Seq<char>>
    decreases s.len(),
{
    if s.len() == 0 {
        seq![Seq::empty()]
    } else {
        let parts = between_breaks(s.drop_last());
        if s.last() == '\n' {
            parts.push(Seq::empty())
        } else {
            parts.drop_last().push(parts.last().push(s.last()))
        }
    }
}

/// `lines` without the white space at their ends; those that hold nothing else are left out.
pub open spec fn tidied(lines: Seq<Seq<char>>) -> Seq<Seq<char>>
    decreases lines.len(),
{
    if lines.len() == 0 {
        Seq::empty()
    } else {
        let rest = tidied(lines.drop_last());
        if trimmed(lines.last()).len() > 0 {
            rest.push(trimmed(lines.last()))
        } else {
            rest
        }
    }
}

pub open spec fn texts(lines: Seq<String>) -> Seq<Seq<char>> {
    lines.map_values(|l: String| l@)
}

proof fn lemma_between_breaks(s: Seq<char>)
    ensures
        between_breaks(s).len() > 0,
    decreases s.len(),
{
    if s.len() > 0 {
        lemma_between_breaks(s.drop_last());
    }
}

fn push_tidied(lines: &mut Vec<String>, line: &str)
    ensures
        texts(final(lines)@) == (if trimmed(line@).len() > 0 {
            texts(old(lines)@).push(trimmed(line@))
        } else {
            texts(old(lines)@)
        }),
{
    let t = trim(line);
    if t.as_str().unicode_len() > 0 {
        let ghost before = lines@;
        lines.push(t);
        assert(texts(lines@) =~= texts(before).push(t@));
    }
}

/// The lines of a text that are measured.
pub fn measured_lines(text: &str) -> (lines: Vec<String>)
    ensures
        texts(lines@) == tidied(between_breaks(text@)),
{
    let chars = str_chars(text);
    let mut lines: Vec<String> = Vec::new();
    let mut line = String::new();
    assert(chars@.take(0) =~= Seq::empty());
    assert(between_breaks(chars@.take(0)).drop_last() =~= Seq::empty());
    assert(texts(lines@) =~= Seq::empty());
    assert(line@ =~= Seq::empty());
    for i in 0..chars.len()
        invariant
            texts(lines@) == tidied(between_breaks(chars@.take(i as int)).drop_last()),
            line@ == between_breaks(chars@.take(i as int)).last(),
    {
        let ghost before = between_breaks(chars@.take(i as int));
        let ghost after = between_breaks(chars@.take(i as int + 1));
        assert(chars@.take(i as int + 1).drop_last() =~= chars@.take(i as int));
        proof {
            lemma_between_breaks(chars@.take(i as int));
        }
        if chars[i] == '\n' {
            assert(after.drop_last() =~= before);
            push_tidied(&mut lines, line.as_str());
            line = String::new();
            assert(line@ =~= Seq::empty());
        } else {
            assert(after.drop_last() =~= before.drop_last());
            line.push(chars[i]);
        }
    }
    assert(chars@.take(chars@.len() as int) =~= chars@);
    proof {
        lemma_between_breaks(chars@);
    }
    push_tidied(&mut lines, line.as_str());
    lines
}

// ---------------------------------------------------------------------------
// Tables

/// How wide a cell is: in proportion to a length, or as wide as the widest of
/// some lines of its column.
#[derive(Debug)]
pub enum CellWidth {
    Share(usize),
    Measured(Vec<String>),
}

/// A cell. It has a border to the right of it unless it is the last of its row.
#[derive(Debug)]
pub struct CellElement {
    pub ix: usize,
    pub align: ColumnumnAlign,
    pub border: bool,
    pub width: CellWidth,
    pub id: String,
    pub content: Rendering,
}

/// A row. It has a border below it unless it is the last one.
#[derive(Debug)]
pub struct RowElement {
    pub border: bool,
    pub cells: Vec<CellElement>,
}

/// A table. One that scrolls has a key for the place that it is scrolled to.
#[derive(Debug)]
pub struct TableElement {
    pub ix: usize,
    pub scroll_key: Option<String>,
    pub columns: usize,
    pub rows: Vec<RowElement>,
}

pub enum CellWidthView {
    Share(nat),
    Measured(Seq<Seq<char>>),
}

pub struct CellElementView {
    pub ix: int,
    pub align: ColumnumnAlign,
    pub border: bool,
    pub width: CellWidthView,
    pub id: Seq<char>,
    pub content: RenderingView,
}

pub struct RowElementView {
    pub border: bool,
    pub cells: Seq<CellElementView>,
}

pub struct TableElementView {
    pub ix: int,
    pub scroll_key: Option<Seq<char>>,
    pub columns: nat,
    pub rows: Seq<RowElementView>,
}

impl View for CellElement {
    type V = CellElementView;

    open spec fn view(&self) -> CellElementView {
        CellElementView {
            ix: self.ix as int,
            align: self.align,
            border: self.border,
            width: match self.width {
                CellWidth::Share(n) => CellWidthView::Share(n as nat),
                CellWidth::Measured(lines) => CellWidthView::Measured(texts(lines@)),
            },
            id: self.id@,
            content: self.content@,
        }
    }
}

impl View for RowElement {
    type V = RowElementView;

    open spec fn view(&self) -> RowElementView {
        RowElementView {
            border: self.border,
            cells: self.cells@.map_values(|c: CellElement| c@),
        }
    }
}

impl View for TableElement {
    type V = TableElementView;

    open spec fn view(&self) -> TableElementView {
        TableElementView {
            ix: self.ix as int,
            scroll_key: match self.scroll_key {
                Some(key) => Some(key@),
                None => None,
            },
            columns: self.columns as nat,
            rows: self.rows@.map_values(|r: RowElement| r@),
        }
    }
}

/// The share of a column, by the length of its longest text.
pub open spec fn share(rows: Seq<Seq<CellView>>, column: int) -> nat {
    if column_len(rows, column) < MAX_LENGTH {
        column_len(rows, column)
    } else {
        MAX_LENGTH as nat
    }
}

pub open spec fn cell_element(
    table: TableView,
    row: int,
    column: int,
    scrolls: bool,
    refs: Map<Seq<char>, LinkView>,
) -> CellElementView {
    let cell = table.rows[row][column];
    CellElementView {
        ix: column,
        align: table.align(column),
        border: column != table.rows[row].len() - 1,
        width: if scrolls {
            CellWidthView::Measured(tidied(between_breaks(inline_text(cell.children.children))))
        } else {
            CellWidthView::Share(share(table.rows, column))
        },
        id: paragraph_name(cell.children),
        content: rendering_of(cell.children, refs),
    }
}

pub open spec fn row_element(
    table: TableView,
    row: int,
    scrolls: bool,
    refs: Map<Seq<char>, LinkView>,
) -> RowElementView {
    RowElementView {
        border: row < table.rows.len() - 1,
        cells: Seq::new(
            table.rows[row].len(),
            |c: int| cell_element(table, row, c, scrolls, refs),
        ),
    }
}

/// The key of the place that a table is scrolled to: by its place in the
/// source, or else by its number.
pub open spec fn scroll_key(view: Seq<char>, span: Option<Span>, ix: nat) -> Seq<char> {
    view + "-table-scroll-"@ + match span {
        Some(span) => decimal(span.start as nat) + ":"@ + decimal(span.end as nat),
        None => decimal(ix),
    }
}

pub open spec fn table_element(
    table: TableView,
    ix: nat,
    view: Seq<char>,
    scrolls: bool,
    refs: Map<Seq<char>, LinkView>,
) -> TableElementView {
    TableElementView {
        ix: ix as int,
        scroll_key: if scrolls {
            Some(scroll_key(view, table.span, ix))
        } else {
            None
        },
        columns: column_count(table.rows),
        rows: Seq::new(table.rows.len(), |r: int| row_element(table, r, scrolls, refs)),
    }
}

/// All that is painted of cells once they are shown.
pub open spec fn painted_cells(cells: Seq<TableCell>, refs: Map<Seq<char>, LinkView>) -> Seq<
    InlineStateView,
>
    decreases cells.len(),
{
    if cells.len() == 0 {
        Seq::empty()
    } else {
        painted_cells(cells.drop_last(), refs) + painted_paragraph(cells.last().children, refs)
    }
}

/// All that is painted of rows once they are shown.
pub open spec fn painted_rows(rows: Seq<TableRow>, refs: Map<Seq<char>, LinkView>) -> Seq<
    InlineStateView,
>
    decreases rows.len(),
{
    if rows.len() == 0 {
        Seq::empty()
    } else {
        painted_rows(rows.drop_last(), refs) + painted_cells(rows.last().children@, refs)
    }
}

proof fn lemma_cells_painted(
    before: Seq<TableCell>,
    after: Seq<TableCell>,
    refs: Map<Seq<char>, LinkView>,
)
    requires
        before.len() == after.len(),
        forall|k: int|
            0 <= k < before.len() ==> paragraph_states((#[trigger] after[k]).children)
                == painted_paragraph(before[k].children, refs),
    ensures
        cells_states(after) == painted_cells(before, refs),
    decreases before.len(),
{
    if before.len() > 0 {
        let b = before.drop_last();
        let a = after.drop_last();
        assert forall|k: int| 0 <= k < b.len() implies paragraph_states(
            (#[trigger] a[k]).children,
        ) == painted_paragraph(b[k].children, refs) by {
            assert(after[k] == a[k]);
        }
        lemma_cells_painted(b, a, refs);
        assert(after[after.len() - 1] == after.last());
    }
}

proof fn lemma_rows_painted(
    before: Seq<TableRow>,
    after: Seq<TableRow>,
    refs: Map<Seq<char>, LinkView>,
)
    requires
        before.len() == after.len(),
        forall|k: int|
            0 <= k < before.len() ==> cells_states((#[trigger] after[k]).children@)
                == painted_cells(before[k].children@, refs),
    ensures
        rows_states(after) == painted_rows(before, refs),
    decreases before.len(),
{
    if before.len() > 0 {
        let b = before.drop_last();
        let a = after.drop_last();
        assert forall|k: int| 0 <= k < b.len() implies cells_states((#[trigger] a[k]).children@)
            == painted_cells(b[k].children@, refs) by {
            assert(after[k] == a[k]);
        }
        lemma_rows_painted(b, a, refs);
        assert(after[after.len() - 1] == after.last());
    }
}

fn write_scroll_key(view: &str, span: Option<Span>, ix: usize) -> (key: String)
    ensures
        key@ == scroll_key(view@, span, ix as nat),
{
    let mut key = view.to_owned();
    key.append("-table-scroll-");
    let place = match span {
        Some(span) => {
            let mut place = usize_to_string(span.start);
            place.append(":");
            place.append(usize_to_string(span.end).as_str());
            place
        },
        None => usize_to_string(ix),
    };
    key.append(place.as_str());
    key
}

impl TableCell {
    fn render(
        &mut self,
        ix: usize,
        last: bool,
        align: ColumnumnAlign,
        len: usize,
        scrolls: bool,
        refs: &LinkRefs,
    ) -> (element: CellElement)
        ensures
            final(self)@ == old(self)@,
            paragraph_states(final(self).children) == painted_paragraph(old(self).children, refs@),
            element@ == (CellElementView {
                ix: ix as int,
                align,
                border: !last,
                width: if scrolls {
                    CellWidthView::Measured(
                        tidied(between_breaks(inline_text(old(self)@.children.children))),
                    )
                } else {
                    CellWidthView::Share(
                        if len < MAX_LENGTH {
                            len as nat
                        } else {
                            MAX_LENGTH as nat
                        },
                    )
                },
                id: paragraph_name(old(self)@.children),
                content: rendering_of(old(self)@.children, refs@),
            }),
    {
        let width = if scrolls {
            CellWidth::Measured(measured_lines(self.children.text().as_str()))
        } else if len < MAX_LENGTH {
            CellWidth::Share(len)
        } else {
            CellWidth::Share(MAX_LENGTH)
        };
        let id = self.children.element_id();
        let content = self.children.render(refs);
        CellElement { ix, align, border: !last, width, id, content }
    }
}

impl TableRow {
    fn render(
        &mut self,
        border: bool,
        aligns: &Vec<ColumnumnAlign>,
        lens: &Vec<usize>,
        scrolls: bool,
        refs: &LinkRefs,
        Ghost(table): Ghost<TableView>,
        Ghost(row): Ghost<int>,
    ) -> (element: RowElement)
        requires
            0 <= row < table.rows.len(),
            table.rows[row] == old(self)@,
            border == (row < table.rows.len() - 1),
            old(self)@.len() <= lens@.len(),
            aligns@.len() == lens@.len(),
            forall|c: int| 0 <= c < lens@.len() ==> #[trigger] aligns@[c] == table.align(c),
            forall|c: int|
                0 <= c < lens@.len() ==> #[trigger] lens@[c] == column_len(table.rows, c),
        ensures
            final(self)@ == old(self)@,
            cells_states(final(self).children@) == painted_cells(old(self).children@, refs@),
            element@ == row_element(table, row, scrolls, refs@),
    {
        let ghost before = self.children@;
        let n: usize = self.children.len();
        let mut cells: Vec<CellElement> = Vec::new();
        assert(table.rows[row].len() == n);
        for i in 0..n
            invariant
                0 <= row < table.rows.len(),
                table.rows[row] == old(self)@,
                before == old(self).children@,
                n == before.len(),
                self.children@.len() == n,
                n <= lens@.len(),
                aligns@.len() == lens@.len(),
                forall|c: int| 0 <= c < lens@.len() ==> #[trigger] aligns@[c] == table.align(c),
                forall|c: int|
                    0 <= c < lens@.len() ==> #[trigger] lens@[c] == column_len(table.rows, c),
                forall|k: int| 0 <= k < n ==> (#[trigger] self.children@[k])@ == before[k]@,
                forall|k: int|
                    0 <= k < i ==> paragraph_states((#[trigger] self.children@[k]).children)
                        == painted_paragraph(before[k].children, refs@),
                forall|k: int| i <= k < n ==> #[trigger] self.children@[k] == before[k],
                cells@.len() == i,
                forall|k: int|
                    0 <= k < i ==> (#[trigger] cells@[k])@ == cell_element(
                        table,
                        row,
                        k,
                        scrolls,
                        refs@,
                    ),
        {
            assert(table.rows[row][i as int] == before[i as int]@);
            let cell = self.children[i].render(i, i == n - 1, aligns[i], lens[i], scrolls, refs);
            cells.push(cell);
        }
        let element = RowElement { border, cells };
        proof {
            lemma_cells_painted(before, self.children@, refs@);
            assert(self@ =~= old(self)@);
            assert(element@.cells =~= row_element(table, row, scrolls, refs@).cells);
        }
        element
    }
}

proof fn lemma_row_fits(rows: Seq<Seq<CellView>>, r: int)
    requires
        0 <= r < rows.len(),
    ensures
        rows[r].len() <= column_count(rows),
    decreases rows.len(),
{
    if r < rows.len() - 1 {
        lemma_row_fits(rows.drop_last(), r);
        assert(rows.drop_last()[r] == rows[r]);
    }
}

impl Table {
    /// Lays the table out. Tables that scroll are as wide as their content;
    /// the columns of others share the width by the lengths of their texts.
    pub fn render(&mut self, ix: usize, view: &str, scrolls: bool, refs: &LinkRefs) -> (element:
        TableElement)
        ensures
            final(self)@ == old(self)@,
            rows_states(final(self).children@) == painted_rows(old(self).children@, refs@),
            element@ == table_element(old(self)@, ix as nat, view@, scrolls, refs@),
    {
        let ghost table = self@;
        let ghost before = self.children@;
        let lens = self.column_lengths();
        let mut aligns: Vec<ColumnumnAlign> = Vec::new();
        for c in 0..lens.len()
            invariant
                self@ == table,
                aligns@.len() == c,
                forall|k: int| 0 <= k < c ==> #[trigger] aligns@[k] == table.align(k),
        {
            aligns.push(self.column_align(c));
        }
        let scroll_key = if scrolls {
            Some(write_scroll_key(view, self.span, ix))
        } else {
            None
        };
        let ghost column_aligns = self.column_aligns;
        let ghost span = self.span;
        let n: usize = self.children.len();
        let mut rows: Vec<RowElement> = Vec::new();
        for i in 0..n
            invariant
                n == before.len(),
                before == old(self).children@,
                table == old(self)@,
                self.column_aligns == column_aligns,
                self.span == span,
                self.children@.len() == n,
                lens@.len() == column_count(table.rows),
                aligns@.len() == lens@.len(),
                forall|c: int| 0 <= c < lens@.len() ==> #[trigger] aligns@[c] == table.align(c),
                forall|c: int|
                    0 <= c < lens@.len() ==> #[trigger] lens@[c] == column_len(table.rows, c),
                forall|k: int| 0 <= k < n ==> (#[trigger] self.children@[k])@ == before[k]@,
                forall|k: int|
                    0 <= k < i ==> cells_states((#[trigger] self.children@[k]).children@)
                        == painted_cells(before[k].children@, refs@),
                forall|k: int| i <= k < n ==> #[trigger] self.children@[k] == before[k],
                rows@.len() == i,
                forall|k: int|
                    0 <= k < i ==> (#[trigger] rows@[k])@ == row_element(table, k, scrolls, refs@),
        {
            assert(table.rows[i as int] == before[i as int]@);
            proof {
                lemma_row_fits(table.rows, i as int);
            }
            let row = self.children[i].render(
                i < n - 1,
                &aligns,
                &lens,
                scrolls,
                refs,
                Ghost(table),
                Ghost(i as int),
            );
            rows.push(row);
        }
        let element = TableElement { ix, scroll_key, columns: lens.len(), rows };
        proof {
            lemma_rows_painted(before, self.children@, refs@);
            assert(self@.rows =~= old(self)@.rows);
            assert(element@.rows =~= table_element(table, ix as nat, view@, scrolls, refs@).rows);
        }
        element
    }
}

proof fn lemma_column_len(rows: Seq<Seq<CellView>>, column: int)
    ensures
        column_len(rows, column) >= DEFAULT_LENGTH,
    decreases rows.len(),
{
    if rows.len() > 0 {
        lemma_column_len(rows.drop_last(), column);
    }
}

/// The share of a column is neither too small nor too large, whatever it holds.
pub proof fn law_shares_are_bounded(rows: Seq<Seq<CellView>>, column: int)
    ensures
        DEFAULT_LENGTH <= share(rows, column) <= MAX_LENGTH,
{
    lemma_column_len(rows, column);
}

} // verus!
