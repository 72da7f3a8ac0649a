//! Which place of the text is scrolled to.
use crate::context::MoveDirection;
use crate::kind::InputModeKind;
use crate::rope::point_of;
use crate::state::{InputBaseState, StateView};
use vstd::prelude::*;

verus! {

/// A place that is to be made visible.
#[derive(Clone, Copy, PartialEq, Eq, Structural, Debug)]
pub struct ScrollTarget {
    pub row: usize,
    /// The byte column on the row.
    pub column: usize,
    /// The number of the row among the rows that were laid out.
    pub line: usize,
    /// Whether lines above and below the place are to be visible too.
    pub surrounded: bool,
    /// The direction in which the text may not scroll back.
    pub direction: Option<MoveDirection>,
}

impl StateView {
    /// What is scrolled to for an offset; nothing before the text was laid out.
    pub open spec fn scroll_target(
        self,
        offset: int,
        direction: Option<MoveDirection>,
    ) -> Option<ScrollTarget> {
        match self.geometry.layout {
            Some(layout) => if self.geometry.text_bounds is None {
                None
            } else {
                let (row, column) = point_of(self.text, offset);
                let first = layout.visible_range.start;
                Some(
                    ScrollTarget {
                        row: row as usize,
                        column: column as usize,
                        line: (if row > first {
                            row - first
                        } else {
                            0
                        }) as usize,
                        surrounded: direction is Some && self.code_editor,
                        direction,
                    },
                )
            },
            None => None,
        }
    }
}

impl<M: InputModeKind> InputBaseState<M> {
    /// What is scrolled to for an offset; nothing before the text was laid out.
    pub fn scroll_target(&self, offset: usize, direction: Option<MoveDirection>) -> (target: Option<
        ScrollTarget,
    >)
        ensures
            target == self@.scroll_target(offset as int, direction),
    {
        match self.geometry.layout {
            Some(layout) => {
                if self.geometry.text_bounds.is_none() {
                    return None;
                }
                let point = self.text.offset_to_point(offset);
                Some(
                    ScrollTarget {
                        row: point.row,
                        column: point.column,
                        line: point.row.saturating_sub(layout.visible_range.start),
                        surrounded: direction.is_some() && self.is_code_editor(),
                        direction,
                    },
                )
            },
            None => None,
        }
    }
}

} // verus!
