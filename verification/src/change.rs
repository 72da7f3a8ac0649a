//! One recorded replacement of a piece of text.
use crate::selection::Selection;
use crate::strings::str_eq;
use crate::text::{
    byte_len, index_at, is_boundary, lemma_clip, lemma_clip_mono, lemma_slice_len, lemma_spliced,
    slice_of, spliced,
};
use vstd::prelude::*;

verus! {

/// A replacement: `old_text` at `old_range` became `new_text` at `new_range`.
pub struct Change {
    pub old_range: Selection,
    pub old_text: String,
    pub new_range: Selection,
    pub new_text: String,
    /// The selection before the replacement.
    pub selection_before: Selection,
    /// The selection after the replacement.
    pub selection_after: Selection,
}

/// What a `Change` records.
pub struct ChangeView {
    pub old_range: Selection,
    pub old_text: Seq<char>,
    pub new_range: Selection,
    pub new_text: Seq<char>,
    pub selection_before: Selection,
    pub selection_after: Selection,
}

impl View for Change {
    type V = ChangeView;

    open spec fn view(&self) -> ChangeView {
        ChangeView {
            old_range: self.old_range,
            old_text: self.old_text@,
            new_range: self.new_range,
            new_text: self.new_text@,
            selection_before: self.selection_before,
            selection_after: self.selection_after,
        }
    }
}

impl ChangeView {
    /// Whether the ranges and the recorded selections run forwards.
    pub open spec fn wf(self) -> bool {
        &&& self.old_range.ordered()
        &&& self.new_range.ordered()
        &&& self.selection_before.ordered()
        &&& self.selection_after.ordered()
    }

    /// Whether the replacement put back what was there.
    pub open spec fn is_noop(self) -> bool {
        self.old_text == self.new_text
    }

    /// Whether `next` replaced exactly what this change had put in.
    pub open spec fn extended_by(self, next: ChangeView) -> bool {
        next.old_range == self.new_range && next.old_text == self.new_text
    }

    /// This change and `next` as a single one.
    pub open spec fn merged(self, next: ChangeView) -> ChangeView {
        ChangeView {
            new_range: next.new_range,
            new_text: next.new_text,
            selection_after: next.selection_after,
            ..self
        }
    }

    /// Whether the change describes what happened to `before`, and `after` is the outcome.
    pub open spec fn connects(self, before: Seq<char>, after: Seq<char>) -> bool {
        &&& self.old_range.ordered()
        &&& is_boundary(before, self.old_range.start as int)
        &&& is_boundary(before, self.old_range.end as int)
        &&& slice_of(before, self.old_range.start as int, self.old_range.end as int)
            == self.old_text
        &&& self.new_range.start == self.old_range.start
        &&& self.new_range.end == self.old_range.start + byte_len(self.new_text)
        &&& after == spliced(
            before,
            self.old_range.start as int,
            self.old_range.end as int,
            self.new_text,
        )
    }
}

/// The changes that a list of recorded changes stands for.
pub open spec fn change_views(changes: Seq<Change>) -> Seq<ChangeView> {
    changes.map_values(|c: Change| c@)
}

impl Change {
    /// Records that `old_text` at `old_range` became `new_text` at `new_range`.
    pub fn new(
        old_range: Selection,
        old_text: &str,
        new_range: Selection,
        new_text: &str,
        selection_before: Selection,
        selection_after: Selection,
    ) -> (c: Change)
        ensures
            c@ == (ChangeView {
                old_range,
                old_text: old_text@,
                new_range,
                new_text: new_text@,
                selection_before,
                selection_after,
            }),
    {
        Change {
            old_range,
            old_text: old_text.to_owned(),
            new_range,
            new_text: new_text.to_owned(),
            selection_before,
            selection_after,
        }
    }

    /// Whether the replacement put back what was there.
    pub fn is_noop(&self) -> (r: bool)
        ensures
            r == self@.is_noop(),
    {
        str_eq(self.old_text.as_str(), self.new_text.as_str())
    }

    /// Whether `next` replaced exactly what this change had put in.
    pub fn is_extended_by(&self, next: &Change) -> (r: bool)
        ensures
            r == self@.extended_by(next@),
    {
        next.old_range == self.new_range && str_eq(
            next.old_text.as_str(),
            self.new_text.as_str(),
        )
    }

    /// Takes `next` in, which replaced what this change had put in.
    pub fn merge(&mut self, next: Change)
        ensures
            final(self)@ == old(self)@.merged(next@),
    {
        self.new_range = next.new_range;
        self.new_text = next.new_text;
        self.selection_after = next.selection_after;
    }
}

impl Clone for Change {
    fn clone(&self) -> (c: Self)
        ensures
            c@ == self@,
    {
        Change::new(
            self.old_range,
            self.old_text.as_str(),
            self.new_range,
            self.new_text.as_str(),
            self.selection_before,
            self.selection_after,
        )
    }
}

/// Putting the old text back where the new text stands gives back the text before the change.
pub proof fn law_change_reverts(c: ChangeView, before: Seq<char>, after: Seq<char>)
    requires
        c.connects(before, after),
    ensures
        is_boundary(after, c.new_range.start as int),
        is_boundary(after, c.new_range.end as int),
        slice_of(after, c.new_range.start as int, c.new_range.end as int) == c.new_text,
        spliced(after, c.new_range.start as int, c.new_range.end as int, c.old_text) == before,
        byte_len(after) == byte_len(before) - byte_len(c.old_text) + byte_len(c.new_text),
{
    let a = c.old_range.start as int;
    let b = c.old_range.end as int;
    lemma_spliced(before, a, b, c.new_text);
    lemma_clip(before, a);
    lemma_clip(before, b);
    lemma_clip_mono(before, a, b);
    lemma_slice_len(before, a, b);
    let i = index_at(before, a);
    let j = index_at(before, b);
    let n = c.new_text.len();
    lemma_clip(after, a);
    lemma_clip(after, c.new_range.end as int);
    assert(slice_of(after, a, c.new_range.end as int) =~= c.new_text);
    assert(after.take(i) =~= before.take(i));
    assert(after.skip(i + n) =~= before.skip(j));
    assert(before.take(i) + before.subrange(i, j) + before.skip(j) =~= before);
}

/// Two changes that follow each other in the same place are one.
pub proof fn law_change_merges(
    c: ChangeView,
    d: ChangeView,
    first: Seq<char>,
    second: Seq<char>,
    third: Seq<char>,
)
    requires
        c.connects(first, second),
        d.connects(second, third),
        c.extended_by(d),
    ensures
        c.merged(d).connects(first, third),
{
    law_change_reverts(c, first, second);
    let a = c.old_range.start as int;
    let b = c.old_range.end as int;
    let e = c.new_range.end as int;
    lemma_clip(first, a);
    lemma_clip(first, b);
    lemma_clip_mono(first, a, b);
    lemma_spliced(first, a, b, c.new_text);
    lemma_clip(second, a);
    lemma_clip(second, e);
    let i = index_at(first, a);
    let j = index_at(first, b);
    assert(second.take(i) =~= first.take(i));
    assert(second.skip(i + c.new_text.len()) =~= first.skip(j));
}

} // verus!
