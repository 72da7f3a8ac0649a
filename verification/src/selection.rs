//! Ranges of byte offsets.
use vstd::prelude::*;

verus! {

/// A range of UTF-8 byte offsets into a text.
#[derive(Clone, Copy, PartialEq, Eq, Structural, Debug)]
pub struct Selection {
    pub start: usize,
    pub end: usize,
}

impl Selection {
    /// Whether the start does not come after the end.
    pub open spec fn ordered(self) -> bool {
        self.start <= self.end
    }

    pub open spec fn at(offset: usize) -> Selection {
        Selection { start: offset, end: offset }
    }

    pub open spec fn holds(self, offset: int) -> bool {
        self.start <= offset < self.end
    }

    pub fn new(start: usize, end: usize) -> (s: Selection)
        ensures
            s == (Selection { start, end }),
    {
        Selection { start, end }
    }

    /// The empty range at `offset`.
    pub fn caret(offset: usize) -> (s: Selection)
        ensures
            s == Selection::at(offset),
    {
        Selection { start: offset, end: offset }
    }

    /// The length of the range; zero when it is not ordered.
    pub fn len(&self) -> (n: usize)
        ensures
            n == if self.start <= self.end {
                self.end - self.start
            } else {
                0
            },
    {
        if self.start <= self.end {
            self.end - self.start
        } else {
            0
        }
    }

    pub fn is_empty(&self) -> (r: bool)
        ensures
            r == (self.start == self.end),
    {
        self.start == self.end
    }

    /// Whether `offset` lies inside the range, its end left out.
    pub fn contains(&self, offset: usize) -> (r: bool)
        ensures
            r == self.holds(offset as int),
    {
        self.start <= offset && offset < self.end
    }

    /// Makes this the empty range at the start of the text.
    pub fn clear(&mut self)
        ensures
            *final(self) == Selection::at(0),
    {
        self.start = 0;
        self.end = 0;
    }
}

impl Default for Selection {
    fn default() -> (s: Self)
        ensures
            s == Selection::at(0),
    {
        Selection { start: 0, end: 0 }
    }
}

} // verus!
