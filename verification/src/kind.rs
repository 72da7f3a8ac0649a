//! The three kinds of input.
use vstd::prelude::*;

verus! {

/// What tells the kinds of input apart. The kind is fixed when a state is built.
pub trait InputModeKind {
    /// Whether the input spans more than one line.
    const MULTI_LINE: bool;

    /// Whether the input is a source-code editor.
    const CODE_EDITOR: bool;
}

/// The kinds that span more than one line.
pub trait MultiLineMode: InputModeKind {

}

/// A single-line text field.
pub struct InputMode;

/// Ordinary multi-line text.
pub struct TextareaMode;

/// A source-code editor.
pub struct EditorMode;

impl InputModeKind for InputMode {
    const MULTI_LINE: bool = false;

    const CODE_EDITOR: bool = false;
}

impl InputModeKind for TextareaMode {
    const MULTI_LINE: bool = true;

    const CODE_EDITOR: bool = false;
}

impl InputModeKind for EditorMode {
    const MULTI_LINE: bool = true;

    const CODE_EDITOR: bool = true;
}

/// What the kinds are.
pub proof fn lemma_kinds()
    ensures
        !InputMode::MULTI_LINE && !InputMode::CODE_EDITOR,
        TextareaMode::MULTI_LINE && !TextareaMode::CODE_EDITOR,
        EditorMode::MULTI_LINE && EditorMode::CODE_EDITOR,
{
}

impl MultiLineMode for TextareaMode {

}

impl MultiLineMode for EditorMode {

}

} // verus!
