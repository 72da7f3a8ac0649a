//! What painting an input depends on.
use crate::keys::Action;
use crate::kind::InputModeKind;
use crate::state::{InputBaseState, StateView};
use vstd::prelude::*;

verus! {

/// How the element of an input is laid out.
#[derive(Clone, Copy, PartialEq, Eq, Structural, Debug)]
pub struct RenderPlan {
    /// Whether the pointer is shown as a text cursor.
    pub text_cursor: bool,
    /// Whether the element takes all of the height.
    pub full_height: bool,
    /// Whether the editor paddings are applied.
    pub padded: bool,
}

impl StateView {
    /// Whether the input reacts to `action`. Edits need an input that the
    /// user may edit, and what goes up and down needs lines.
    pub open spec fn handles(self, action: Action) -> bool {
        match action {
            Action::Backspace
            | Action::Delete
            | Action::DeleteToBeginningOfLine
            | Action::DeleteToEndOfLine
            | Action::DeleteToPreviousWordStart
            | Action::DeleteToNextWordEnd
            | Action::Enter(_)
            | Action::Escape
            | Action::Paste
            | Action::Cut
            | Action::Undo
            | Action::Redo => self.editable(),
            Action::Indent
            | Action::Outdent
            | Action::IndentInline
            | Action::OutdentInline => self.editable() && self.multi_line,
            Action::MoveUp
            | Action::MoveDown
            | Action::SelectUp
            | Action::SelectDown
            | Action::MovePageUp
            | Action::MovePageDown => self.multi_line,
            Action::ToggleCodeActions | Action::GoToDefinition => self.code_editor,
            Action::MoveToStartOfLine | Action::MoveToEndOfLine => false,
            _ => true,
        }
    }
}

impl<M: InputModeKind> InputBaseState<M> {
    /// Whether the input reacts to `action`.
    pub fn handles_action(&self, action: Action) -> (r: bool)
        ensures
            r == self@.handles(action),
    {
        match action {
            Action::Backspace
            | Action::Delete
            | Action::DeleteToBeginningOfLine
            | Action::DeleteToEndOfLine
            | Action::DeleteToPreviousWordStart
            | Action::DeleteToNextWordEnd
            | Action::Enter(_)
            | Action::Escape
            | Action::Paste
            | Action::Cut
            | Action::Undo
            | Action::Redo => self.is_editable(),
            Action::Indent
            | Action::Outdent
            | Action::IndentInline
            | Action::OutdentInline => self.is_editable() && self.is_multi_line(),
            Action::MoveUp
            | Action::MoveDown
            | Action::SelectUp
            | Action::SelectDown
            | Action::MovePageUp
            | Action::MovePageDown => self.is_multi_line(),
            Action::ToggleCodeActions | Action::GoToDefinition => self.is_code_editor(),
            Action::MoveToStartOfLine | Action::MoveToEndOfLine => false,
            _ => true,
        }
    }

    /// How the element of the input is laid out.
    pub fn render_plan(&self) -> (plan: RenderPlan)
        ensures
            plan == (RenderPlan {
                text_cursor: !self@.options.disabled,
                full_height: self@.multi_line,
                padded: self@.multi_line,
            }),
    {
        RenderPlan {
            text_cursor: !self.options.disabled,
            full_height: self.is_multi_line(),
            padded: self.is_multi_line(),
        }
    }
}

} // verus!
