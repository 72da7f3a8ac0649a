//! Which lines of a text are folded away, and where lines are wrapped.
use crate::rope::TextBuffer;
use crate::selection::Selection;
use crate::strings::str_chars;
use crate::text::{lemma_clip, lemma_clip_mono, lemma_line_breaks_mono, line_breaks, row_of};
use vstd::prelude::*;

verus! {

/// Lines that are folded into the first of them. The lines between the first
/// and the last are hidden.
#[derive(Clone, Copy, PartialEq, Eq, Structural, Debug)]
pub struct FoldRange {
    pub start_line: usize,
    pub end_line: usize,
}

impl FoldRange {
    pub open spec fn hides(self, line: int) -> bool {
        self.start_line < line < self.end_line
    }

    /// Whether the fold runs over or ends at `line`, but does not start there.
    pub open spec fn spans(self, line: int) -> bool {
        self.start_line < line <= self.end_line
    }
}

/// How wrapped lines are indented.
#[derive(Clone, Copy, PartialEq, Eq, Structural, Debug)]
pub enum WrappingIndent {
    /// Not at all.
    Flush,
    /// Like the line itself.
    Same,
    /// One step more than the line itself.
    Indent,
}

pub struct DisplayMap {
    pub folds: Vec<FoldRange>,
    /// The ranges that can be folded.
    pub candidates: Vec<FoldRange>,
    /// For each line the ranges of bytes it is wrapped into. Lines beyond the
    /// end are not wrapped yet.
    pub wrapped: Vec<Vec<Selection>>,
    pub wrapping_indent: WrappingIndent,
}

pub struct DisplayView {
    pub folds: Seq<FoldRange>,
    pub candidates: Seq<FoldRange>,
    pub wrapped: Seq<Seq<Selection>>,
    pub wrapping_indent: WrappingIndent,
}

impl View for DisplayMap {
    type V = DisplayView;

    open spec fn view(&self) -> DisplayView {
        DisplayView {
            folds: self.folds@,
            candidates: self.candidates@,
            wrapped: self.wrapped@.map_values(|w: Vec<Selection>| w@),
            wrapping_indent: self.wrapping_indent,
        }
    }
}

/// The index of the first fold that spans `line`; their number when none does.
pub open spec fn fold_over(folds: Seq<FoldRange>, line: int) -> int
    decreases folds.len(),
{
    if folds.len() == 0 || folds[0].spans(line) {
        0
    } else {
        1 + fold_over(folds.skip(1), line)
    }
}

/// The folds after an edit of the lines from `first` to `last` that put in
/// `added` line feeds: the ones before it stay, the ones behind it move
/// along, the others are opened.
pub open spec fn folds_after_edit(
    folds: Seq<FoldRange>,
    first: nat,
    last: nat,
    added: nat,
) -> Seq<FoldRange>
    decreases folds.len(),
{
    if folds.len() == 0 {
        folds
    } else {
        let rest = folds_after_edit(folds.drop_last(), first, last, added);
        let f = folds.last();
        if f.end_line < first {
            rest.push(f)
        } else if last < f.start_line <= f.end_line {
            rest.push(
                FoldRange {
                    start_line: line_moved(f.start_line, last - first, added as int),
                    end_line: line_moved(f.end_line, last - first, added as int),
                },
            )
        } else {
            rest
        }
    }
}

/// A line number after `removed` lines before it went and `added` came; the
/// largest line number where that is no line number.
pub open spec fn line_moved(line: usize, removed: int, added: int) -> usize {
    let n = line - removed + added;
    if n <= usize::MAX {
        n as usize
    } else {
        usize::MAX
    }
}

/// The index of the last range that starts at or before `column`.
pub open spec fn wrap_row(ranges: Seq<Selection>, column: int) -> int
    decreases ranges.len(),
{
    if ranges.len() <= 1 || ranges.last().start <= column {
        ranges.len() - 1
    } else {
        wrap_row(ranges.drop_last(), column)
    }
}

/// The range that a column is shown in starts at or before it, where the first does.
pub proof fn lemma_wrap_row(ranges: Seq<Selection>, column: int)
    requires
        ranges.len() > 0,
        ranges[0].start <= column,
    ensures
        0 <= wrap_row(ranges, column) < ranges.len(),
        ranges[wrap_row(ranges, column)].start <= column,
    decreases ranges.len(),
{
    if ranges.len() > 1 && ranges.last().start > column {
        lemma_wrap_row(ranges.drop_last(), column);
    }
}

impl DisplayView {
    /// Whether the first range of every wrapped line is at its start.
    pub open spec fn wraps_from_start(self) -> bool {
        forall|row: int|
            0 <= row < self.wrapped.len() && (#[trigger] self.wrapped[row]).len() > 0
                ==> self.wrapped[row][0].start == 0
    }

    pub open spec fn hidden(self, line: int) -> bool {
        exists|i: int| 0 <= i < self.folds.len() && (#[trigger] self.folds[i]).hides(line)
    }

    /// The range of bytes of line `row` that `column` is shown in.
    pub open spec fn visual_range(self, row: int, column: int) -> Option<Selection> {
        if 0 <= row < self.wrapped.len() && self.wrapped[row].len() > 0 {
            Some(self.wrapped[row][wrap_row(self.wrapped[row], column)])
        } else {
            None
        }
    }

    /// What is left after an edit of the bytes from `start` to `end` of `old_text`.
    pub open spec fn edited(
        self,
        old_text: Seq<char>,
        start: int,
        end: int,
        new_text: Seq<char>,
    ) -> DisplayView {
        DisplayView {
            folds: folds_after_edit(
                self.folds,
                row_of(old_text, start),
                row_of(old_text, end),
                line_breaks(new_text),
            ),
            wrapped: Seq::empty(),
            ..self
        }
    }
}

fn move_line(line: usize, removed: usize, added: usize) -> (n: usize)
    requires
        removed <= line,
    ensures
        n == line_moved(line, removed as int, added as int),
{
    (line - removed).saturating_add(added)
}

fn count_line_breaks(text: &str) -> (n: usize)
    ensures
        n == line_breaks(text@),
{
    let chars = str_chars(text);
    let mut n: usize = 0;
    for i in 0..chars.len()
        invariant
            chars@ == text@,
            n == line_breaks(text@.take(i as int)),
            n <= i,
    {
        assert(text@.take(i as int + 1).drop_last() =~= text@.take(i as int));
        if chars[i] == '\n' {
            n = n + 1;
        }
    }
    assert(text@.take(text@.len() as int) =~= text@);
    n
}

impl DisplayMap {
    pub fn new() -> (map: DisplayMap)
        ensures
            map@ == (DisplayView {
                folds: Seq::empty(),
                candidates: Seq::empty(),
                wrapped: Seq::empty(),
                wrapping_indent: WrappingIndent::Same,
            }),
    {
        let map = DisplayMap {
            folds: Vec::new(),
            candidates: Vec::new(),
            wrapped: Vec::new(),
            wrapping_indent: WrappingIndent::Same,
        };
        assert(map@.wrapped =~= Seq::<Seq<Selection>>::empty());
        map
    }

    /// Whether a fold hides `line`.
    pub fn is_buffer_line_hidden(&self, line: usize) -> (r: bool)
        ensures
            r == self@.hidden(line as int),
    {
        for i in 0..self.folds.len()
            invariant
                forall|k: int| 0 <= k < i ==> !(#[trigger] self.folds@[k]).hides(line as int),
        {
            let f = self.folds[i];
            if f.start_line < line && line < f.end_line {
                assert(self@.folds[i as int].hides(line as int));
                return true;
            }
        }
        false
    }

    pub fn folded_ranges(&self) -> (folds: &Vec<FoldRange>)
        ensures
            folds@ == self@.folds,
    {
        &self.folds
    }

    /// The first fold that spans `line`.
    pub fn fold_over_line(&self, line: usize) -> (fold: Option<FoldRange>)
        ensures
            ({
                let k = fold_over(self@.folds, line as int);
                match fold {
                    Some(f) => 0 <= k < self@.folds.len() && f == self@.folds[k],
                    None => k == self@.folds.len(),
                }
            }),
    {
        let mut i: usize = 0;
        assert(self.folds@.skip(0) =~= self.folds@);
        while i < self.folds.len()
            invariant
                i <= self.folds.len(),
                fold_over(self.folds@, line as int) == i + fold_over(
                    self.folds@.skip(i as int),
                    line as int,
                ),
            decreases self.folds.len() - i,
        {
            let f = self.folds[i];
            assert(self.folds@.skip(i as int)[0] == f);
            if f.start_line < line && line <= f.end_line {
                return Some(f);
            }
            assert(self.folds@.skip(i as int).skip(1) =~= self.folds@.skip(i as int + 1));
            i = i + 1;
        }
        None
    }

    pub fn set_folds(&mut self, folds: Vec<FoldRange>)
        ensures
            final(self)@ == (DisplayView { folds: folds@, ..old(self)@ }),
    {
        self.folds = folds;
    }

    pub fn clear_folds(&mut self)
        ensures
            final(self)@ == (DisplayView { folds: Seq::empty(), ..old(self)@ }),
    {
        self.folds = Vec::new();
    }

    pub fn set_fold_candidates(&mut self, candidates: Vec<FoldRange>)
        ensures
            final(self)@ == (DisplayView { candidates: candidates@, ..old(self)@ }),
    {
        self.candidates = candidates;
    }

    pub fn set_wrapping_indent(&mut self, wrapping_indent: WrappingIndent)
        ensures
            final(self)@ == (DisplayView { wrapping_indent, ..old(self)@ }),
    {
        self.wrapping_indent = wrapping_indent;
    }

    /// Sets where the lines are wrapped.
    pub fn set_wrapped_lines(&mut self, wrapped: Vec<Vec<Selection>>)
        ensures
            final(self)@ == (DisplayView {
                wrapped: wrapped@.map_values(|w: Vec<Selection>| w@),
                ..old(self)@
            }),
    {
        self.wrapped = wrapped;
    }

    /// The range of bytes of line `row` that `column` is shown in.
    pub fn visual_range(&self, row: usize, column: usize) -> (range: Option<Selection>)
        ensures
            range == self@.visual_range(row as int, column as int),
    {
        if row >= self.wrapped.len() || self.wrapped[row].len() == 0 {
            return None;
        }
        let ranges = &self.wrapped[row];
        assert(self@.wrapped[row as int] == ranges@);
        let mut i: usize = ranges.len() - 1;
        assert(ranges@.take(ranges@.len() as int) =~= ranges@);
        while i > 0 && ranges[i].start > column
            invariant
                i < ranges.len(),
                wrap_row(ranges@, column as int) == wrap_row(
                    ranges@.take(i as int + 1),
                    column as int,
                ),
            decreases i,
        {
            assert(ranges@.take(i as int + 1).drop_last() =~= ranges@.take(i as int));
            i = i - 1;
        }
        Some(ranges[i])
    }

    /// Follows an edit of the bytes from `start` to `end` of `old_text`.
    pub fn on_text_changed(
        &mut self,
        old_text: &TextBuffer,
        start: usize,
        end: usize,
        new_text: &str,
    )
        requires
            start <= end,
        ensures
            final(self)@ == old(self)@.edited(old_text@, start as int, end as int, new_text@),
    {
        let ghost before = self@;
        let first = old_text.row(start);
        let last = old_text.row(end);
        let added = count_line_breaks(new_text);
        proof {
            lemma_clip(old_text@, start as int);
            lemma_clip(old_text@, end as int);
            lemma_clip_mono(old_text@, start as int, end as int);
            lemma_line_breaks_mono(
                old_text@,
                crate::text::index_at(old_text@, start as int),
                crate::text::index_at(old_text@, end as int),
            );
        }
        let mut folds: Vec<FoldRange> = Vec::new();
        for i in 0..self.folds.len()
            invariant
                first <= last,
                folds@ == folds_after_edit(
                    self.folds@.take(i as int),
                    first as nat,
                    last as nat,
                    added as nat,
                ),
        {
            let f = self.folds[i];
            assert(self.folds@.take(i as int + 1).drop_last() =~= self.folds@.take(i as int));
            if f.end_line < first {
                folds.push(f);
            } else if last < f.start_line && f.start_line <= f.end_line {
                folds.push(
                    FoldRange {
                        start_line: move_line(f.start_line, last - first, added),
                        end_line: move_line(f.end_line, last - first, added),
                    },
                );
            }
        }
        assert(self.folds@.take(self.folds@.len() as int) =~= self.folds@);
        self.folds = folds;
        self.wrapped = Vec::new();
        assert(self@.wrapped =~= Seq::<Seq<Selection>>::empty());
    }
}

/// Text that replaces a piece of the same number of lines leaves every fold where it was, but
/// for those that the piece touches.
pub proof fn law_folds_stay(folds: Seq<FoldRange>, first: nat, last: nat, i: int)
    requires
        first <= last,
        0 <= i < folds.len(),
        folds[i].start_line <= folds[i].end_line,
        folds[i].end_line < first || last < folds[i].start_line,
    ensures
        folds_after_edit(folds, first, last, (last - first) as nat).contains(folds[i]),
    decreases folds.len(),
{
    let added = (last - first) as nat;
    let rest = folds_after_edit(folds.drop_last(), first, last, added);
    let all = folds_after_edit(folds, first, last, added);
    if i < folds.len() - 1 {
        law_folds_stay(folds.drop_last(), first, last, i);
        let k = choose|k: int| 0 <= k < rest.len() && rest[k] == folds[i];
        assert(all[k] == folds[i]);
    } else {
        assert(all.last() == folds[i]);
    }
}

} // verus!
