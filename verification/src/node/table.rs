//! Tables.
use crate::node::inline::InlineStateView;
use crate::node::marks::{DefiniteLength, Span};
use crate::node::paragraph::{
    all_unselected, inline_states, inline_text, paragraph_states, Paragraph, ParagraphView,
};
use vstd::prelude::*;

verus! {

/// How the content of a column is aligned.
#[derive(Clone, Copy, PartialEq, Eq, Structural, Debug)]
pub enum ColumnumnAlign {
    Left,
    Center,
    Right,
}

impl Default for ColumnumnAlign {
    fn default() -> (align: Self)
        ensures
            align == ColumnumnAlign::Left,
    {
        ColumnumnAlign::Left
    }
}

/// What a source text says of a column.
#[derive(Clone, Copy, PartialEq, Eq, Structural, Debug)]
pub enum AlignKind {
    Unsaid,
    Left,
    Center,
    Right,
}

/// The alignment of a column; to the left where nothing is said.
pub open spec fn aligned(kind: AlignKind) -> ColumnumnAlign {
    match kind {
        AlignKind::Center => ColumnumnAlign::Center,
        AlignKind::Right => ColumnumnAlign::Right,
        _ => ColumnumnAlign::Left,
    }
}

impl From<AlignKind> for ColumnumnAlign {
    fn from(kind: AlignKind) -> (align: Self) {
        match kind {
            AlignKind::Unsaid => ColumnumnAlign::Left,
            AlignKind::Left => ColumnumnAlign::Left,
            AlignKind::Center => ColumnumnAlign::Center,
            AlignKind::Right => ColumnumnAlign::Right,
        }
    }
}

impl vstd::std_specs::convert::FromSpecImpl<AlignKind> for ColumnumnAlign {
    open spec fn obeys_from_spec() -> bool {
        true
    }

    open spec fn from_spec(kind: AlignKind) -> Self {
        aligned(kind)
    }
}

#[derive(Debug)]
pub struct TableCell {
    pub children: Paragraph,
    pub width: Option<DefiniteLength>,
}

#[derive(Debug)]
pub struct TableRow {
    pub children: Vec<TableCell>,
}

/// A table. Its first row is the header.
#[derive(Debug)]
pub struct Table {
    pub children: Vec<TableRow>,
    pub column_aligns: Vec<ColumnumnAlign>,
    pub span: Option<Span>,
}

pub struct CellView {
    pub children: ParagraphView,
    pub width: Option<DefiniteLength>,
}

pub struct TableView {
    pub rows: Seq<Seq<CellView>>,
    pub column_aligns: Seq<ColumnumnAlign>,
    pub span: Option<Span>,
}

impl View for TableCell {
    type V = CellView;

    open spec fn view(&self) -> CellView {
        CellView { children: self.children@, width: self.width }
    }
}

impl View for TableRow {
    type V = Seq<CellView>;

    open spec fn view(&self) -> Seq<CellView> {
        self.children@.map_values(|c: TableCell| c@)
    }
}

impl View for Table {
    type V = TableView;

    open spec fn view(&self) -> TableView {
        TableView {
            rows: self.children@.map_values(|r: TableRow| r@),
            column_aligns: self.column_aligns@,
            span: self.span,
        }
    }
}

impl Table {
    /// The alignment of a column; to the left where there is none.
    pub fn column_align(&self, index: usize) -> (align: ColumnumnAlign)
        ensures
            align == self@.align(index as int),
    {
        if index < self.column_aligns.len() {
            self.column_aligns[index]
        } else {
            ColumnumnAlign::default()
        }
    }
}

impl TableView {
    pub open spec fn align(self, index: int) -> ColumnumnAlign {
        if 0 <= index < self.column_aligns.len() {
            self.column_aligns[index]
        } else {
            ColumnumnAlign::Left
        }
    }
}

impl TableCell {
    pub fn same_as(&self, other: &TableCell) -> (r: bool)
        ensures
            r == (self@ == other@),
    {
        self.children.same_as(&other.children) && self.width == other.width
    }
}

impl Clone for TableCell {
    fn clone(&self) -> (cell: Self)
        ensures
            cell@ == self@,
            inline_states(cell.children.children@) == inline_states(self.children.children@),
            cell.children.state@ == self.children.state@,
    {
        TableCell { children: self.children.clone(), width: self.width }
    }
}

impl TableRow {
    pub fn same_as(&self, other: &TableRow) -> (r: bool)
        ensures
            r == (self@ == other@),
    {
        if self.children.len() != other.children.len() {
            assert(self@.len() != other@.len());
            return false;
        }
        for i in 0..self.children.len()
            invariant
                self.children.len() == other.children.len(),
                forall|k: int|
                    0 <= k < i ==> (#[trigger] self.children@[k])@ == other.children@[k]@,
        {
            if !self.children[i].same_as(&other.children[i]) {
                assert(self@[i as int] != other@[i as int]);
                return false;
            }
        }
        assert(self@ =~= other@);
        true
    }
}

impl Table {
    pub fn same_as(&self, other: &Table) -> (r: bool)
        ensures
            r == (self@ == other@),
    {
        let same: bool = self.span == other.span && self.children.len() == other.children.len()
            && self.column_aligns.len() == other.column_aligns.len();
        if !same {
            assert(self@.rows.len() != other@.rows.len() || self@.column_aligns.len()
                != other@.column_aligns.len() || self@.span != other@.span);
            return false;
        }
        for i in 0..self.column_aligns.len()
            invariant
                self.column_aligns.len() == other.column_aligns.len(),
                forall|k: int|
                    0 <= k < i ==> #[trigger] self.column_aligns@[k] == other.column_aligns@[k],
        {
            if self.column_aligns[i] != other.column_aligns[i] {
                assert(self@.column_aligns[i as int] != other@.column_aligns[i as int]);
                return false;
            }
        }
        assert(self@.column_aligns =~= other@.column_aligns);
        for i in 0..self.children.len()
            invariant
                self.children.len() == other.children.len(),
                forall|k: int|
                    0 <= k < i ==> (#[trigger] self.children@[k])@ == other.children@[k]@,
        {
            if !self.children[i].same_as(&other.children[i]) {
                assert(self@.rows[i as int] != other@.rows[i as int]);
                return false;
            }
        }
        assert(self@.rows =~= other@.rows);
        true
    }
}

// ---------------------------------------------------------------------------
// Text

/// The text of a cell, or the selected part of it.
pub open spec fn cell_text(cell: TableCell, selected: bool) -> Seq<char> {
    if selected {
        cell.children.selection()
    } else {
        inline_text(cell.children@.children)
    }
}

/// The texts of cells with blanks between them.
pub open spec fn cells_text(cells: Seq<TableCell>, selected: bool) -> Seq<char>
    decreases cells.len(),
{
    if cells.len() == 0 {
        Seq::empty()
    } else if cells.len() == 1 {
        cell_text(cells[0], selected)
    } else {
        cells_text(cells.drop_last(), selected).push(' ') + cell_text(cells.last(), selected)
    }
}

/// The texts of rows, each on a line. Rows without cells are left out.
pub open spec fn rows_text(rows: Seq<TableRow>, selected: bool) -> Seq<char>
    decreases rows.len(),
{
    if rows.len() == 0 {
        Seq::empty()
    } else {
        let rest = rows_text(rows.drop_last(), selected);
        let cells = rows.last().children@;
        if cells.len() == 0 {
            rest
        } else {
            (rest + cells_text(cells, selected)).push('\n')
        }
    }
}

impl TableRow {
    fn text(&self, selected: bool) -> (text: String)
        ensures
            text@ == cells_text(self.children@, selected),
    {
        let mut text = String::new();
        let ghost cells = self.children@;
        assert(text@ =~= cells_text(cells.take(0), selected));
        for i in 0..self.children.len()
            invariant
                cells == self.children@,
                text@ == cells_text(cells.take(i as int), selected),
        {
            let ghost t = cells.take(i as int + 1);
            assert(t.drop_last() =~= cells.take(i as int));
            let part = if selected {
                self.children[i].children.selected_text()
            } else {
                self.children[i].children.text()
            };
            if i > 0 {
                text.push(' ');
            }
            text.append(part.as_str());
            assert(text@ =~= cells_text(t, selected));
        }
        assert(cells.take(cells.len() as int) =~= cells);
        text
    }
}

impl Table {
    /// The text of the rows, or the selected part of it.
    pub fn text(&self, selected: bool) -> (text: String)
        ensures
            text@ == rows_text(self.children@, selected),
    {
        let mut text = String::new();
        let ghost rows = self.children@;
        assert(text@ =~= rows_text(rows.take(0), selected));
        for i in 0..self.children.len()
            invariant
                rows == self.children@,
                text@ == rows_text(rows.take(i as int), selected),
        {
            assert(rows.take(i as int + 1).drop_last() =~= rows.take(i as int));
            if self.children[i].children.len() > 0 {
                text.append(self.children[i].text(selected).as_str());
                text.push('\n');
            }
        }
        assert(rows.take(rows.len() as int) =~= rows);
        text
    }
}

// ---------------------------------------------------------------------------
// Selection

/// All that was painted of cells.
pub open spec fn cells_states(cells: Seq<TableCell>) -> Seq<InlineStateView>
    decreases cells.len(),
{
    if cells.len() == 0 {
        Seq::empty()
    } else {
        cells_states(cells.drop_last()) + paragraph_states(cells.last().children)
    }
}

/// All that was painted of rows.
pub open spec fn rows_states(rows: Seq<TableRow>) -> Seq<InlineStateView>
    decreases rows.len(),
{
    if rows.len() == 0 {
        Seq::empty()
    } else {
        rows_states(rows.drop_last()) + cells_states(rows.last().children@)
    }
}

/// Unselecting states one after the other unselects all of them.
pub proof fn lemma_unselected_concat(a: Seq<InlineStateView>, b: Seq<InlineStateView>)
    ensures
        all_unselected(a + b) == all_unselected(a) + all_unselected(b),
{
    assert(all_unselected(a + b) =~= all_unselected(a) + all_unselected(b));
}

proof fn lemma_cells_cleared(before: Seq<TableCell>, after: Seq<TableCell>)
    requires
        before.len() == after.len(),
        forall|k: int|
            0 <= k < before.len() ==> paragraph_states((#[trigger] after[k]).children)
                == all_unselected(paragraph_states(before[k].children)),
    ensures
        cells_states(after) == all_unselected(cells_states(before)),
    decreases before.len(),
{
    if before.len() == 0 {
        assert(cells_states(after) =~= all_unselected(cells_states(before)));
    } else {
        let b = before.drop_last();
        let a = after.drop_last();
        assert forall|k: int| 0 <= k < b.len() implies paragraph_states(
            (#[trigger] a[k]).children,
        ) == all_unselected(paragraph_states(b[k].children)) by {
            assert(after[k] == a[k]);
        }
        lemma_cells_cleared(b, a);
        assert(after[after.len() - 1] == after.last());
        lemma_unselected_concat(cells_states(b), paragraph_states(before.last().children));
    }
}

proof fn lemma_rows_cleared(before: Seq<TableRow>, after: Seq<TableRow>)
    requires
        before.len() == after.len(),
        forall|k: int|
            0 <= k < before.len() ==> cells_states((#[trigger] after[k]).children@)
                == all_unselected(cells_states(before[k].children@)),
    ensures
        rows_states(after) == all_unselected(rows_states(before)),
    decreases before.len(),
{
    if before.len() == 0 {
        assert(rows_states(after) =~= all_unselected(rows_states(before)));
    } else {
        let b = before.drop_last();
        let a = after.drop_last();
        assert forall|k: int| 0 <= k < b.len() implies cells_states((#[trigger] a[k]).children@)
            == all_unselected(cells_states(b[k].children@)) by {
            assert(after[k] == a[k]);
        }
        lemma_rows_cleared(b, a);
        assert(after[after.len() - 1] == after.last());
        lemma_unselected_concat(rows_states(b), cells_states(before.last().children@));
    }
}

impl TableCell {
    fn clear_selection(&mut self)
        ensures
            final(self)@ == old(self)@,
            paragraph_states(final(self).children) == all_unselected(
                paragraph_states(old(self).children),
            ),
    {
        self.children.clear_selection();
        assert(paragraph_states(self.children) =~= all_unselected(
            paragraph_states(old(self).children),
        ));
    }
}

impl TableRow {
    fn clear_selection(&mut self)
        ensures
            final(self)@ == old(self)@,
            cells_states(final(self).children@) == all_unselected(
                cells_states(old(self).children@),
            ),
    {
        let ghost before = self.children@;
        let n: usize = self.children.len();
        for i in 0..n
            invariant
                n == before.len(),
                self.children@.len() == n,
                forall|k: int|
                    0 <= k < n ==> (#[trigger] self.children@[k])@ == before[k]@,
                forall|k: int|
                    0 <= k < i ==> paragraph_states((#[trigger] self.children@[k]).children)
                        == all_unselected(paragraph_states(before[k].children)),
                forall|k: int| i <= k < n ==> #[trigger] self.children@[k] == before[k],
        {
            self.children[i].clear_selection();
        }
        proof {
            lemma_cells_cleared(before, self.children@);
            assert(self@ =~= old(self)@);
        }
    }
}

impl Table {
    /// Selects nothing.
    pub fn clear_selection(&mut self)
        ensures
            final(self)@ == old(self)@,
            rows_states(final(self).children@) == all_unselected(rows_states(old(self).children@)),
    {
        let ghost before = self.children@;
        let ghost aligns = self.column_aligns;
        let ghost span = self.span;
        let n: usize = self.children.len();
        for i in 0..n
            invariant
                n == before.len(),
                self.column_aligns == aligns,
                self.span == span,
                self.children@.len() == n,
                forall|k: int|
                    0 <= k < n ==> (#[trigger] self.children@[k])@ == before[k]@,
                forall|k: int|
                    0 <= k < i ==> cells_states((#[trigger] self.children@[k]).children@)
                        == all_unselected(cells_states(before[k].children@)),
                forall|k: int| i <= k < n ==> #[trigger] self.children@[k] == before[k],
        {
            self.children[i].clear_selection();
        }
        proof {
            lemma_rows_cleared(before, self.children@);
            assert(self@.rows =~= old(self)@.rows);
        }
    }
}

// ---------------------------------------------------------------------------
// Copies

proof fn lemma_cells_alike(a: Seq<TableCell>, b: Seq<TableCell>)
    requires
        a.len() == b.len(),
        forall|k: int|
            0 <= k < a.len() ==> paragraph_states((#[trigger] a[k]).children)
                == paragraph_states(b[k].children),
    ensures
        cells_states(a) == cells_states(b),
    decreases a.len(),
{
    if a.len() > 0 {
        let x = a.drop_last();
        let y = b.drop_last();
        assert forall|k: int| 0 <= k < x.len() implies paragraph_states(
            (#[trigger] x[k]).children,
        ) == paragraph_states(y[k].children) by {
            assert(a[k] == x[k]);
        }
        lemma_cells_alike(x, y);
        assert(a[a.len() - 1] == a.last());
    }
}

proof fn lemma_rows_alike(a: Seq<TableRow>, b: Seq<TableRow>)
    requires
        a.len() == b.len(),
        forall|k: int|
            0 <= k < a.len() ==> cells_states((#[trigger] a[k]).children@) == cells_states(
                b[k].children@,
            ),
    ensures
        rows_states(a) == rows_states(b),
    decreases a.len(),
{
    if a.len() > 0 {
        let x = a.drop_last();
        let y = b.drop_last();
        assert forall|k: int| 0 <= k < x.len() implies cells_states((#[trigger] x[k]).children@)
            == cells_states(y[k].children@) by {
            assert(a[k] == x[k]);
        }
        lemma_rows_alike(x, y);
        assert(a[a.len() - 1] == a.last());
    }
}

impl Clone for TableRow {
    fn clone(&self) -> (row: Self)
        ensures
            row@ == self@,
            cells_states(row.children@) == cells_states(self.children@),
    {
        let mut children: Vec<TableCell> = Vec::new();
        for i in 0..self.children.len()
            invariant
                children@.len() == i,
                forall|k: int|
                    0 <= k < i ==> (#[trigger] children@[k])@ == self.children@[k]@
                        && paragraph_states(children@[k].children) == paragraph_states(
                        self.children@[k].children,
                    ),
        {
            children.push(self.children[i].clone());
        }
        let row = TableRow { children };
        proof {
            assert(row@ =~= self@);
            lemma_cells_alike(row.children@, self.children@);
        }
        row
    }
}

impl Clone for Table {
    fn clone(&self) -> (table: Self)
        ensures
            table@ == self@,
            rows_states(table.children@) == rows_states(self.children@),
    {
        let mut children: Vec<TableRow> = Vec::new();
        for i in 0..self.children.len()
            invariant
                children@.len() == i,
                forall|k: int|
                    0 <= k < i ==> (#[trigger] children@[k])@ == self.children@[k]@
                        && cells_states(children@[k].children@) == cells_states(
                        self.children@[k].children@,
                    ),
        {
            children.push(self.children[i].clone());
        }
        let mut column_aligns: Vec<ColumnumnAlign> = Vec::new();
        for i in 0..self.column_aligns.len()
            invariant
                column_aligns@ == self.column_aligns@.take(i as int),
        {
            column_aligns.push(self.column_aligns[i]);
            assert(column_aligns@ =~= self.column_aligns@.take(i as int + 1));
        }
        assert(self.column_aligns@.take(self.column_aligns@.len() as int) =~= self.column_aligns@);
        let table = Table { children, column_aligns, span: self.span };
        proof {
            assert(table@.rows =~= self@.rows);
            lemma_rows_alike(table.children@, self.children@);
        }
        table
    }
}

} // verus!
