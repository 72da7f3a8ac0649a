//! What an input asks of the application around it, and what it learns from it.
use vstd::prelude::*;

verus! {

/// What an input tells its subscribers.
#[derive(Clone, Copy, PartialEq, Eq, Structural, Debug)]
pub enum InputEvent {
    Change,
    PressEnter { secondary: bool, shift: bool },
    Focus,
    Blur,
}

/// The direction in which the cursor was moved.
#[derive(Clone, Copy, PartialEq, Eq, Structural, Debug)]
pub enum MoveDirection {
    Up,
    Down,
}

/// A point on the screen. The coordinates are `f32` numbers of pixels, held as their bits.
#[derive(Clone, Copy, PartialEq, Eq, Structural, Debug)]
pub struct PixelPoint {
    pub x: u32,
    pub y: u32,
}

/// A rectangle on the screen, in `f32` numbers of pixels, held as their bits.
#[derive(Clone, Copy, PartialEq, Eq, Structural, Debug)]
pub struct PixelBounds {
    pub x: u32,
    pub y: u32,
    pub width: u32,
    pub height: u32,
}

/// Distances from the edges of a rectangle, in `f32` numbers of pixels, held as their bits.
#[derive(Clone, Copy, PartialEq, Eq, Structural, Debug)]
pub struct PixelEdges {
    pub top: u32,
    pub right: u32,
    pub bottom: u32,
    pub left: u32,
}

/// A request to the application. The application carries the requests out in
/// the order in which they were made.
#[derive(Clone, Copy, PartialEq, Eq, Structural, Debug)]
pub enum Effect {
    /// Paint the input again.
    Notify,
    /// Tell the subscribers.
    Emit(InputEvent),
    /// Let the parents of the input handle the action too.
    Propagate,
    StartBlink,
    PauseBlink,
    StopBlink,
    /// Give the input the focus.
    Focus,
    /// Drop the completion that is shown inline.
    ClearInlineCompletion,
    /// Hide what hovering shows.
    ClearHover,
    /// Drop the state of the language features.
    ResetLanguageFeatures,
    /// The bytes from `start` to `end` became `new_len` bytes: wrap and highlight the text
    /// again and refresh the language features. Annotations are moved along, or dropped where
    /// a mask has rewritten the whole text.
    TextChanged { start: usize, end: usize, new_len: usize, masked: bool },
    /// Highlight the whole text, find what can be folded, and refresh the language features.
    Highlight,
    /// Remember the column of the cursor for moves up and down.
    RememberColumn,
    /// Search the text again.
    UpdateSearch,
    /// Fit the height to the text.
    UpdateAutoGrow,
    /// The user has typed: offer completions. What was typed is added to the
    /// texts of the context.
    TextTyped { start: usize, end: usize },
    /// Make the text at `offset` visible.
    ScrollTo { offset: usize, direction: Option<MoveDirection> },
    /// The composition moved: ask for the place of the candidates after the next paint.
    InvalidateCoordinates,
    /// Keep the window from starting a text selection of its own.
    SuppressTextSelection,
    /// The pointer is over `offset`.
    Hover { offset: usize },
    /// Look up what is defined under `offset`.
    HoverDefinition { offset: usize },
    /// Show the context menu once the event was handled.
    ShowContextMenu { position: PixelPoint },
    /// Stop scrolling along with a drag.
    StopAutoScroll,
    /// Start scrolling along with a drag where the pointer is near an edge.
    AutoScroll { position: PixelPoint },
    ShowCharacterPalette,
    /// Wrap the lines again; not at all when `wrap` is false.
    Rewrap { wrap: bool },
    /// Indent the wrapped lines anew.
    ReindentWraps,
    /// Bring the value into its bounds.
    ClampNumber,
}

/// The requests that an input has made, and the clipboard.
pub struct Context {
    pub effects: Vec<Effect>,
    /// What was typed: one text for each `Effect::TextTyped`, in the same order.
    pub typed: Vec<String>,
    pub clipboard: Option<String>,
}

pub struct ContextView {
    pub effects: Seq<Effect>,
    pub typed: Seq<Seq<char>>,
    pub clipboard: Option<Seq<char>>,
}

impl View for Context {
    type V = ContextView;

    open spec fn view(&self) -> ContextView {
        ContextView {
            effects: self.effects@,
            typed: self.typed@.map_values(|text: String| text@),
            clipboard: match self.clipboard {
                Some(text) => Some(text@),
                None => None,
            },
        }
    }
}

impl ContextView {
    /// This context after one more request.
    pub open spec fn ask(self, effect: Effect) -> ContextView {
        ContextView { effects: self.effects.push(effect), ..self }
    }

    /// This context after one more request, made only where `condition` holds.
    pub open spec fn ask_if(self, condition: bool, effect: Effect) -> ContextView {
        if condition {
            self.ask(effect)
        } else {
            self
        }
    }

    /// This context after it was told that the bytes from `start` to `end`
    /// were replaced by typing `text`.
    pub open spec fn ask_typed(self, start: usize, end: usize, text: Seq<char>) -> ContextView {
        ContextView {
            effects: self.effects.push(Effect::TextTyped { start, end }),
            typed: self.typed.push(text),
            ..self
        }
    }
}

impl Context {
    pub fn new() -> (cx: Context)
        ensures
            cx@ == (ContextView { effects: Seq::empty(), typed: Seq::empty(), clipboard: None }),
    {
        let cx = Context { effects: Vec::new(), typed: Vec::new(), clipboard: None };
        assert(cx@.typed =~= Seq::empty());
        cx
    }

    /// Asks the application for `effect`.
    pub fn request(&mut self, effect: Effect)
        ensures
            final(self)@ == old(self)@.ask(effect),
    {
        self.effects.push(effect);
    }

    /// Tells the application that the user has replaced the bytes from `start` to `end` by
    /// typing `text`.
    pub fn request_typed(&mut self, start: usize, end: usize, text: &str)
        ensures
            final(self)@ == old(self)@.ask_typed(start, end, text@),
    {
        self.effects.push(Effect::TextTyped { start, end });
        self.typed.push(text.to_owned());
        assert(self@.typed =~= old(self)@.typed.push(text@));
    }

    pub fn notify(&mut self)
        ensures
            final(self)@ == old(self)@.ask(Effect::Notify),
    {
        self.request(Effect::Notify);
    }

    pub fn emit(&mut self, event: InputEvent)
        ensures
            final(self)@ == old(self)@.ask(Effect::Emit(event)),
    {
        self.request(Effect::Emit(event));
    }

    pub fn propagate(&mut self)
        ensures
            final(self)@ == old(self)@.ask(Effect::Propagate),
    {
        self.request(Effect::Propagate);
    }

    pub fn write_to_clipboard(&mut self, text: String)
        ensures
            final(self)@ == (ContextView { clipboard: Some(text@), ..old(self)@ }),
    {
        self.clipboard = Some(text);
    }

    pub fn read_from_clipboard(&self) -> (text: Option<String>)
        ensures
            match text {
                Some(s) => self@.clipboard == Some(s@),
                None => self@.clipboard is None,
            },
    {
        match &self.clipboard {
            Some(text) => Some(text.as_str().to_owned()),
            None => None,
        }
    }
}

/// What the application knows while it hands an event to an input.
#[derive(Clone, Copy, PartialEq, Eq, Structural, Debug)]
pub struct Window {
    pub active: bool,
    pub focused: bool,
    /// Whether the blinking cursor is shown right now.
    pub cursor_visible: bool,
    /// Whether a menu of the input is open.
    pub context_menu_open: bool,
    /// Whether an open menu of the input has handled the action.
    pub menu_handles_action: bool,
    /// Whether a completion is shown inline.
    pub inline_completion: bool,
    /// Whether the language features have handled the click.
    pub click_handled: bool,
    /// Whether the event comes from inside of a menu or a popover.
    pub deferred_context: bool,
}

impl Window {
    /// A focused window in which nothing else is going on.
    pub fn new() -> (w: Window)
        ensures
            w == (Window {
                active: true,
                focused: true,
                cursor_visible: false,
                context_menu_open: false,
                menu_handles_action: false,
                inline_completion: false,
                click_handled: false,
                deferred_context: false,
            }),
    {
        Window {
            active: true,
            focused: true,
            cursor_visible: false,
            context_menu_open: false,
            menu_handles_action: false,
            inline_completion: false,
            click_handled: false,
            deferred_context: false,
        }
    }
}

} // verus!
