//! The keys that an input reacts to.
use crate::actions::Enter;
use vstd::prelude::*;

verus! {

/// What a key can be bound to.
#[derive(Clone, Copy, PartialEq, Eq, Structural, Debug)]
pub enum Action {
    Backspace,
    Delete,
    DeleteToBeginningOfLine,
    DeleteToEndOfLine,
    DeleteToPreviousWordStart,
    DeleteToNextWordEnd,
    Enter(Enter),
    Escape,
    Indent,
    Outdent,
    IndentInline,
    OutdentInline,
    MoveUp,
    MoveDown,
    MoveLeft,
    MoveRight,
    MoveHome,
    MoveEnd,
    MovePageUp,
    MovePageDown,
    SelectLeft,
    SelectRight,
    SelectUp,
    SelectDown,
    SelectAll,
    SelectToStartOfLine,
    SelectToEndOfLine,
    SelectToStart,
    SelectToEnd,
    SelectToPreviousWordStart,
    SelectToNextWordEnd,
    ShowCharacterPalette,
    Copy,
    Cut,
    Paste,
    Undo,
    Redo,
    MoveToStartOfLine,
    MoveToEndOfLine,
    MoveToStart,
    MoveToEnd,
    MoveToPreviousWord,
    MoveToNextWord,
    ToggleCodeActions,
    Search,
    Replace,
    GoToDefinition,
}

/// The context in which the keys are bound.
pub const CONTEXT: &'static str = "Input";

/// A key, what it does, and the context in which it does so.
pub struct KeyBinding {
    pub keystroke: String,
    pub action: Action,
    pub context: Option<String>,
}

pub struct BindingView {
    pub keystroke: Seq<char>,
    pub action: Action,
    pub context: Option<Seq<char>>,
}

impl View for KeyBinding {
    type V = BindingView;

    open spec fn view(&self) -> BindingView {
        BindingView {
            keystroke: self.keystroke@,
            action: self.action,
            context: match self.context {
                Some(context) => Some(context@),
                None => None,
            },
        }
    }
}

/// The keys of an input, the first bound first.
pub struct Keymap {
    pub bindings: Vec<KeyBinding>,
}

pub struct KeymapView {
    pub bindings: Seq<BindingView>,
}

impl View for Keymap {
    type V = KeymapView;

    open spec fn view(&self) -> KeymapView {
        KeymapView {
            bindings: self.bindings@.map_values(|b: KeyBinding| b@),
        }
    }
}

impl KeymapView {
    pub open spec fn empty() -> KeymapView {
        KeymapView { bindings: Seq::empty() }
    }

    /// With one more key, which is bound in inputs alone.
    pub open spec fn bind(self, keystroke: Seq<char>, action: Action) -> KeymapView {
        KeymapView {
            bindings: self.bindings.push(
                BindingView { keystroke, action, context: Some(CONTEXT@) },
            ),
        }
    }

    /// Whether all keys are bound in inputs alone.
    pub open spec fn in_inputs(self) -> bool {
        forall|i: int|
            0 <= i < self.bindings.len() ==> (#[trigger] self.bindings[i]).context == Some(
                "Input"@,
            )
    }

    /// Whether `keystroke` is bound.
    #[verifier::opaque]
    pub open spec fn binds(self, keystroke: Seq<char>) -> bool {
        exists|i: int|
            0 <= i < self.bindings.len() && (#[trigger] self.bindings[i]).keystroke == keystroke
    }

    /// Whether no keystroke is bound twice.
    #[verifier::opaque]
    pub open spec fn binds_once(self) -> bool {
        forall|i: int, j: int|
            0 <= i < j < self.bindings.len() ==> (#[trigger] self.bindings[i]).keystroke != (
            #[trigger] self.bindings[j]).keystroke
    }

    pub open spec fn bind_if(
        self,
        condition: bool,
        keystroke: Seq<char>,
        action: Action,
    ) -> KeymapView {
        if condition {
            self.bind(keystroke, action)
        } else {
            self
        }
    }
}

/// The keys of an input, on macOS and elsewhere.
pub open spec fn keymap_of(macos: bool) -> KeymapView {
    KeymapView::empty()
        .bind("backspace"@, Action::Backspace)
        .bind("shift-backspace"@, Action::Backspace)
        .bind_if(macos, "ctrl-backspace"@, Action::Backspace)
        .bind("delete"@, Action::Delete)
        .bind("shift-delete"@, Action::Delete)
        .bind_if(macos, "cmd-backspace"@, Action::DeleteToBeginningOfLine)
        .bind_if(macos, "cmd-delete"@, Action::DeleteToEndOfLine)
        .bind_if(macos, "alt-backspace"@, Action::DeleteToPreviousWordStart)
        .bind_if(!macos, "ctrl-backspace"@, Action::DeleteToPreviousWordStart)
        .bind_if(macos, "alt-delete"@, Action::DeleteToNextWordEnd)
        .bind_if(!macos, "ctrl-delete"@, Action::DeleteToNextWordEnd)
        .bind("enter"@, Action::Enter(Enter { secondary: false, shift: false }))
        .bind("shift-enter"@, Action::Enter(Enter { secondary: false, shift: true }))
        .bind("secondary-enter"@, Action::Enter(Enter { secondary: true, shift: false }))
        .bind("escape"@, Action::Escape)
        .bind("up"@, Action::MoveUp)
        .bind("down"@, Action::MoveDown)
        .bind("left"@, Action::MoveLeft)
        .bind("right"@, Action::MoveRight)
        .bind("pageup"@, Action::MovePageUp)
        .bind("pagedown"@, Action::MovePageDown)
        .bind("tab"@, Action::IndentInline)
        .bind("shift-tab"@, Action::OutdentInline)
        .bind_if(macos, "cmd-]"@, Action::Indent)
        .bind_if(!macos, "ctrl-]"@, Action::Indent)
        .bind_if(macos, "cmd-["@, Action::Outdent)
        .bind_if(!macos, "ctrl-["@, Action::Outdent)
        .bind("shift-left"@, Action::SelectLeft)
        .bind("shift-right"@, Action::SelectRight)
        .bind("shift-up"@, Action::SelectUp)
        .bind("shift-down"@, Action::SelectDown)
        .bind("home"@, Action::MoveHome)
        .bind("end"@, Action::MoveEnd)
        .bind("shift-home"@, Action::SelectToStartOfLine)
        .bind("shift-end"@, Action::SelectToEndOfLine)
        .bind_if(macos, "ctrl-shift-a"@, Action::SelectToStartOfLine)
        .bind_if(macos, "ctrl-shift-e"@, Action::SelectToEndOfLine)
        .bind_if(macos, "shift-cmd-left"@, Action::SelectToStartOfLine)
        .bind_if(macos, "shift-cmd-right"@, Action::SelectToEndOfLine)
        .bind_if(macos, "alt-shift-left"@, Action::SelectToPreviousWordStart)
        .bind_if(!macos, "ctrl-shift-left"@, Action::SelectToPreviousWordStart)
        .bind_if(macos, "alt-shift-right"@, Action::SelectToNextWordEnd)
        .bind_if(!macos, "ctrl-shift-right"@, Action::SelectToNextWordEnd)
        .bind_if(macos, "ctrl-cmd-space"@, Action::ShowCharacterPalette)
        .bind_if(macos, "cmd-a"@, Action::SelectAll)
        .bind_if(!macos, "ctrl-a"@, Action::SelectAll)
        .bind_if(macos, "cmd-c"@, Action::Copy)
        .bind_if(!macos, "ctrl-c"@, Action::Copy)
        .bind_if(macos, "cmd-x"@, Action::Cut)
        .bind_if(!macos, "ctrl-x"@, Action::Cut)
        .bind_if(macos, "cmd-v"@, Action::Paste)
        .bind_if(!macos, "ctrl-v"@, Action::Paste)
        .bind_if(macos, "ctrl-a"@, Action::MoveHome)
        .bind_if(macos, "cmd-left"@, Action::MoveHome)
        .bind_if(macos, "ctrl-e"@, Action::MoveEnd)
        .bind_if(macos, "cmd-right"@, Action::MoveEnd)
        .bind_if(macos, "cmd-z"@, Action::Undo)
        .bind_if(macos, "cmd-shift-z"@, Action::Redo)
        .bind_if(macos, "cmd-up"@, Action::MoveToStart)
        .bind_if(macos, "cmd-down"@, Action::MoveToEnd)
        .bind_if(macos, "alt-left"@, Action::MoveToPreviousWord)
        .bind_if(macos, "alt-right"@, Action::MoveToNextWord)
        .bind_if(!macos, "ctrl-left"@, Action::MoveToPreviousWord)
        .bind_if(!macos, "ctrl-right"@, Action::MoveToNextWord)
        .bind_if(macos, "cmd-shift-up"@, Action::SelectToStart)
        .bind_if(macos, "cmd-shift-down"@, Action::SelectToEnd)
        .bind_if(!macos, "ctrl-z"@, Action::Undo)
        .bind_if(!macos, "ctrl-y"@, Action::Redo)
        .bind_if(macos, "cmd-."@, Action::ToggleCodeActions)
        .bind_if(!macos, "ctrl-."@, Action::ToggleCodeActions)
        .bind_if(macos, "cmd-f"@, Action::Search)
        .bind_if(!macos, "ctrl-f"@, Action::Search)
        .bind_if(macos, "cmd-shift-f"@, Action::Replace)
        .bind_if(!macos, "ctrl-h"@, Action::Replace)
}

impl Keymap {
    pub fn new() -> (keymap: Keymap)
        ensures
            keymap@ == KeymapView::empty(),
            keymap@.in_inputs(),
            keymap@.binds_once(),
            forall|k: Seq<char>| !#[trigger] keymap@.binds(k),
    {
        reveal(KeymapView::binds);
        reveal(KeymapView::binds_once);
        let keymap = Keymap { bindings: Vec::new() };
        assert(keymap@.bindings =~= Seq::empty());
        keymap
    }

    pub fn bind(&mut self, keystroke: &str, action: Action)
        ensures
            final(self)@ == old(self)@.bind(keystroke@, action),
            old(self)@.in_inputs() ==> final(self)@.in_inputs(),
            (old(self)@.binds_once() && !old(self)@.binds(keystroke@))
                ==> final(self)@.binds_once(),
            forall|k: Seq<char>|
                #[trigger] final(self)@.binds(k) == (old(self)@.binds(k) || k == keystroke@),
    {
        let context = Some(CONTEXT.to_owned());
        let binding = KeyBinding { keystroke: keystroke.to_owned(), action, context };
        let ghost bound = binding@;
        self.bindings.push(binding);
        assert(self@.bindings =~= old(self)@.bindings.push(bound));
        proof {
            reveal(KeymapView::binds);
            reveal(KeymapView::binds_once);
            let before = old(self)@.bindings;
            assert forall|k: Seq<char>| #[trigger]
                self@.binds(k) == (old(self)@.binds(k) || k == keystroke@) by {
                if old(self)@.binds(k) {
                    let i = choose|i: int|
                        0 <= i < before.len() && (#[trigger] before[i]).keystroke == k;
                    assert(self@.bindings[i].keystroke == k);
                }
                assert(self@.bindings[before.len() as int].keystroke == keystroke@);
            }
        }
    }

    pub fn bind_if(&mut self, condition: bool, keystroke: &str, action: Action)
        ensures
            final(self)@ == old(self)@.bind_if(condition, keystroke@, action),
            old(self)@.in_inputs() ==> final(self)@.in_inputs(),
            (old(self)@.binds_once() && (condition ==> !old(self)@.binds(keystroke@)))
                ==> final(self)@.binds_once(),
            forall|k: Seq<char>|
                #[trigger] final(self)@.binds(k) == (old(self)@.binds(k) || (condition && k
                    == keystroke@)),
    {
        if condition {
            self.bind(keystroke, action);
        }
    }
}

/// The length of a keystroke and three of its letters, which tell the keystrokes of an input apart.
spec fn letters(s: Seq<char>) -> (nat, char, char, char) {
    (s.len(), s[0], s[s.len() as int / 2], s[s.len() - 1])
}

proof fn lemma_keystrokes()
    ensures
        letters("backspace"@) == (9nat, 'b', 's', 'e'),
        letters("shift-backspace"@) == (15nat, 's', 'a', 'e'),
        letters("ctrl-backspace"@) == (14nat, 'c', 'c', 'e'),
        letters("delete"@) == (6nat, 'd', 'e', 'e'),
        letters("shift-delete"@) == (12nat, 's', 'd', 'e'),
        letters("cmd-backspace"@) == (13nat, 'c', 'c', 'e'),
        letters("cmd-delete"@) == (10nat, 'c', 'e', 'e'),
        letters("alt-backspace"@) == (13nat, 'a', 'c', 'e'),
        letters("alt-delete"@) == (10nat, 'a', 'e', 'e'),
        letters("ctrl-delete"@) == (11nat, 'c', 'd', 'e'),
        letters("enter"@) == (5nat, 'e', 't', 'r'),
        letters("shift-enter"@) == (11nat, 's', '-', 'r'),
        letters("secondary-enter"@) == (15nat, 's', 'r', 'r'),
        letters("escape"@) == (6nat, 'e', 'a', 'e'),
        letters("up"@) == (2nat, 'u', 'p', 'p'),
        letters("down"@) == (4nat, 'd', 'w', 'n'),
        letters("left"@) == (4nat, 'l', 'f', 't'),
        letters("right"@) == (5nat, 'r', 'g', 't'),
        letters("pageup"@) == (6nat, 'p', 'e', 'p'),
        letters("pagedown"@) == (8nat, 'p', 'd', 'n'),
        letters("tab"@) == (3nat, 't', 'a', 'b'),
        letters("shift-tab"@) == (9nat, 's', 't', 'b'),
        letters("cmd-]"@) == (5nat, 'c', 'd', ']'),
        letters("ctrl-]"@) == (6nat, 'c', 'l', ']'),
        letters("cmd-["@) == (5nat, 'c', 'd', '['),
        letters("ctrl-["@) == (6nat, 'c', 'l', '['),
        letters("shift-left"@) == (10nat, 's', '-', 't'),
        letters("shift-right"@) == (11nat, 's', '-', 't'),
        letters("shift-up"@) == (8nat, 's', 't', 'p'),
        letters("shift-down"@) == (10nat, 's', '-', 'n'),
        letters("home"@) == (4nat, 'h', 'm', 'e'),
        letters("end"@) == (3nat, 'e', 'n', 'd'),
        letters("shift-home"@) == (10nat, 's', '-', 'e'),
        letters("shift-end"@) == (9nat, 's', 't', 'd'),
        letters("ctrl-shift-a"@) == (12nat, 'c', 'h', 'a'),
        letters("ctrl-shift-e"@) == (12nat, 'c', 'h', 'e'),
        letters("shift-cmd-left"@) == (14nat, 's', 'm', 't'),
        letters("shift-cmd-right"@) == (15nat, 's', 'm', 't'),
        letters("alt-shift-left"@) == (14nat, 'a', 'f', 't'),
        letters("ctrl-shift-left"@) == (15nat, 'c', 'i', 't'),
        letters("alt-shift-right"@) == (15nat, 'a', 'f', 't'),
        letters("ctrl-shift-right"@) == (16nat, 'c', 'f', 't'),
        letters("ctrl-cmd-space"@) == (14nat, 'c', 'd', 'e'),
        letters("cmd-a"@) == (5nat, 'c', 'd', 'a'),
        letters("ctrl-a"@) == (6nat, 'c', 'l', 'a'),
        letters("cmd-c"@) == (5nat, 'c', 'd', 'c'),
        letters("ctrl-c"@) == (6nat, 'c', 'l', 'c'),
        letters("cmd-x"@) == (5nat, 'c', 'd', 'x'),
        letters("ctrl-x"@) == (6nat, 'c', 'l', 'x'),
        letters("cmd-v"@) == (5nat, 'c', 'd', 'v'),
        letters("ctrl-v"@) == (6nat, 'c', 'l', 'v'),
        letters("cmd-left"@) == (8nat, 'c', 'l', 't'),
        letters("ctrl-e"@) == (6nat, 'c', 'l', 'e'),
        letters("cmd-right"@) == (9nat, 'c', 'r', 't'),
        letters("cmd-z"@) == (5nat, 'c', 'd', 'z'),
        letters("cmd-shift-z"@) == (11nat, 'c', 'h', 'z'),
        letters("cmd-up"@) == (6nat, 'c', '-', 'p'),
        letters("cmd-down"@) == (8nat, 'c', 'd', 'n'),
        letters("alt-left"@) == (8nat, 'a', 'l', 't'),
        letters("alt-right"@) == (9nat, 'a', 'r', 't'),
        letters("ctrl-left"@) == (9nat, 'c', '-', 't'),
        letters("ctrl-right"@) == (10nat, 'c', 'r', 't'),
        letters("cmd-shift-up"@) == (12nat, 'c', 'i', 'p'),
        letters("cmd-shift-down"@) == (14nat, 'c', 'f', 'n'),
        letters("ctrl-z"@) == (6nat, 'c', 'l', 'z'),
        letters("ctrl-y"@) == (6nat, 'c', 'l', 'y'),
        letters("cmd-."@) == (5nat, 'c', 'd', '.'),
        letters("ctrl-."@) == (6nat, 'c', 'l', '.'),
        letters("cmd-f"@) == (5nat, 'c', 'd', 'f'),
        letters("ctrl-f"@) == (6nat, 'c', 'l', 'f'),
        letters("cmd-shift-f"@) == (11nat, 'c', 'h', 'f'),
        letters("ctrl-h"@) == (6nat, 'c', 'l', 'h'),
{
    reveal_strlit("backspace");
    reveal_strlit("shift-backspace");
    reveal_strlit("ctrl-backspace");
    reveal_strlit("delete");
    reveal_strlit("shift-delete");
    reveal_strlit("cmd-backspace");
    reveal_strlit("cmd-delete");
    reveal_strlit("alt-backspace");
    reveal_strlit("alt-delete");
    reveal_strlit("ctrl-delete");
    reveal_strlit("enter");
    reveal_strlit("shift-enter");
    reveal_strlit("secondary-enter");
    reveal_strlit("escape");
    reveal_strlit("up");
    reveal_strlit("down");
    reveal_strlit("left");
    reveal_strlit("right");
    reveal_strlit("pageup");
    reveal_strlit("pagedown");
    reveal_strlit("tab");
    reveal_strlit("shift-tab");
    reveal_strlit("cmd-]");
    reveal_strlit("ctrl-]");
    reveal_strlit("cmd-[");
    reveal_strlit("ctrl-[");
    reveal_strlit("shift-left");
    reveal_strlit("shift-right");
    reveal_strlit("shift-up");
    reveal_strlit("shift-down");
    reveal_strlit("home");
    reveal_strlit("end");
    reveal_strlit("shift-home");
    reveal_strlit("shift-end");
    reveal_strlit("ctrl-shift-a");
    reveal_strlit("ctrl-shift-e");
    reveal_strlit("shift-cmd-left");
    reveal_strlit("shift-cmd-right");
    reveal_strlit("alt-shift-left");
    reveal_strlit("ctrl-shift-left");
    reveal_strlit("alt-shift-right");
    reveal_strlit("ctrl-shift-right");
    reveal_strlit("ctrl-cmd-space");
    reveal_strlit("cmd-a");
    reveal_strlit("ctrl-a");
    reveal_strlit("cmd-c");
    reveal_strlit("ctrl-c");
    reveal_strlit("cmd-x");
    reveal_strlit("ctrl-x");
    reveal_strlit("cmd-v");
    reveal_strlit("ctrl-v");
    reveal_strlit("cmd-left");
    reveal_strlit("ctrl-e");
    reveal_strlit("cmd-right");
    reveal_strlit("cmd-z");
    reveal_strlit("cmd-shift-z");
    reveal_strlit("cmd-up");
    reveal_strlit("cmd-down");
    reveal_strlit("alt-left");
    reveal_strlit("alt-right");
    reveal_strlit("ctrl-left");
    reveal_strlit("ctrl-right");
    reveal_strlit("cmd-shift-up");
    reveal_strlit("cmd-shift-down");
    reveal_strlit("ctrl-z");
    reveal_strlit("ctrl-y");
    reveal_strlit("cmd-.");
    reveal_strlit("ctrl-.");
    reveal_strlit("cmd-f");
    reveal_strlit("ctrl-f");
    reveal_strlit("cmd-shift-f");
    reveal_strlit("ctrl-h");
}

/// Binds the keys of an input. They are bound in inputs alone, and no
/// keystroke is bound twice.
pub fn init(macos: bool) -> (keymap: Keymap)
    ensures
        keymap@ == keymap_of(macos),
        keymap@.in_inputs(),
        keymap@.binds_once(),
{
    proof {
        lemma_keystrokes();
    }
    let mut keymap = Keymap::new();
    keymap.bind("backspace", Action::Backspace);
    keymap.bind("shift-backspace", Action::Backspace);
    keymap.bind_if(macos, "ctrl-backspace", Action::Backspace);
    keymap.bind("delete", Action::Delete);
    keymap.bind("shift-delete", Action::Delete);
    keymap.bind_if(macos, "cmd-backspace", Action::DeleteToBeginningOfLine);
    keymap.bind_if(macos, "cmd-delete", Action::DeleteToEndOfLine);
    keymap.bind_if(macos, "alt-backspace", Action::DeleteToPreviousWordStart);
    keymap.bind_if(!macos, "ctrl-backspace", Action::DeleteToPreviousWordStart);
    keymap.bind_if(macos, "alt-delete", Action::DeleteToNextWordEnd);
    keymap.bind_if(!macos, "ctrl-delete", Action::DeleteToNextWordEnd);
    keymap.bind("enter", Action::Enter(Enter { secondary: false, shift: false }));
    keymap.bind("shift-enter", Action::Enter(Enter { secondary: false, shift: true }));
    keymap.bind("secondary-enter", Action::Enter(Enter { secondary: true, shift: false }));
    keymap.bind("escape", Action::Escape);
    keymap.bind("up", Action::MoveUp);
    keymap.bind("down", Action::MoveDown);
    keymap.bind("left", Action::MoveLeft);
    keymap.bind("right", Action::MoveRight);
    keymap.bind("pageup", Action::MovePageUp);
    keymap.bind("pagedown", Action::MovePageDown);
    keymap.bind("tab", Action::IndentInline);
    keymap.bind("shift-tab", Action::OutdentInline);
    keymap.bind_if(macos, "cmd-]", Action::Indent);
    keymap.bind_if(!macos, "ctrl-]", Action::Indent);
    keymap.bind_if(macos, "cmd-[", Action::Outdent);
    keymap.bind_if(!macos, "ctrl-[", Action::Outdent);
    keymap.bind("shift-left", Action::SelectLeft);
    keymap.bind("shift-right", Action::SelectRight);
    keymap.bind("shift-up", Action::SelectUp);
    keymap.bind("shift-down", Action::SelectDown);
    keymap.bind("home", Action::MoveHome);
    keymap.bind("end", Action::MoveEnd);
    keymap.bind("shift-home", Action::SelectToStartOfLine);
    keymap.bind("shift-end", Action::SelectToEndOfLine);
    keymap.bind_if(macos, "ctrl-shift-a", Action::SelectToStartOfLine);
    keymap.bind_if(macos, "ctrl-shift-e", Action::SelectToEndOfLine);
    keymap.bind_if(macos, "shift-cmd-left", Action::SelectToStartOfLine);
    keymap.bind_if(macos, "shift-cmd-right", Action::SelectToEndOfLine);
    keymap.bind_if(macos, "alt-shift-left", Action::SelectToPreviousWordStart);
    keymap.bind_if(!macos, "ctrl-shift-left", Action::SelectToPreviousWordStart);
    keymap.bind_if(macos, "alt-shift-right", Action::SelectToNextWordEnd);
    keymap.bind_if(!macos, "ctrl-shift-right", Action::SelectToNextWordEnd);
    keymap.bind_if(macos, "ctrl-cmd-space", Action::ShowCharacterPalette);
    keymap.bind_if(macos, "cmd-a", Action::SelectAll);
    keymap.bind_if(!macos, "ctrl-a", Action::SelectAll);
    keymap.bind_if(macos, "cmd-c", Action::Copy);
    keymap.bind_if(!macos, "ctrl-c", Action::Copy);
    keymap.bind_if(macos, "cmd-x", Action::Cut);
    keymap.bind_if(!macos, "ctrl-x", Action::Cut);
    keymap.bind_if(macos, "cmd-v", Action::Paste);
    keymap.bind_if(!macos, "ctrl-v", Action::Paste);
    keymap.bind_if(macos, "ctrl-a", Action::MoveHome);
    keymap.bind_if(macos, "cmd-left", Action::MoveHome);
    keymap.bind_if(macos, "ctrl-e", Action::MoveEnd);
    keymap.bind_if(macos, "cmd-right", Action::MoveEnd);
    keymap.bind_if(macos, "cmd-z", Action::Undo);
    keymap.bind_if(macos, "cmd-shift-z", Action::Redo);
    keymap.bind_if(macos, "cmd-up", Action::MoveToStart);
    keymap.bind_if(macos, "cmd-down", Action::MoveToEnd);
    keymap.bind_if(macos, "alt-left", Action::MoveToPreviousWord);
    keymap.bind_if(macos, "alt-right", Action::MoveToNextWord);
    keymap.bind_if(!macos, "ctrl-left", Action::MoveToPreviousWord);
    keymap.bind_if(!macos, "ctrl-right", Action::MoveToNextWord);
    keymap.bind_if(macos, "cmd-shift-up", Action::SelectToStart);
    keymap.bind_if(macos, "cmd-shift-down", Action::SelectToEnd);
    keymap.bind_if(!macos, "ctrl-z", Action::Undo);
    keymap.bind_if(!macos, "ctrl-y", Action::Redo);
    keymap.bind_if(macos, "cmd-.", Action::ToggleCodeActions);
    keymap.bind_if(!macos, "ctrl-.", Action::ToggleCodeActions);
    keymap.bind_if(macos, "cmd-f", Action::Search);
    keymap.bind_if(!macos, "ctrl-f", Action::Search);
    keymap.bind_if(macos, "cmd-shift-f", Action::Replace);
    keymap.bind_if(!macos, "ctrl-h", Action::Replace);
    keymap
}

} // verus!
