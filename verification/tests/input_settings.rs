use std::cell::RefCell;
use std::rc::Rc;
use textkit::context::{Context, Effect, PixelBounds, PixelEdges, PixelPoint, Window};
use textkit::display_map::{FoldRange, WrappingIndent};
use textkit::edit::{Verdict, Verdicts};
use textkit::kind::{EditorMode, InputMode, TextareaMode};
use textkit::mask_pattern::MaskPattern;
use textkit::mode::LayoutMode;
use textkit::pattern::Pattern;
use textkit::selection::Selection;
use textkit::state::{
    InputBaseState, InputValidator, LayoutInfo, Number, NumberStep, PendingMenu,
};

type InputState = InputBaseState<InputMode>;
type TextareaState = InputBaseState<TextareaMode>;
type EditorState = InputBaseState<EditorMode>;

const BOUNDS: PixelBounds = PixelBounds {
    x: 0,
    y: 0,
    width: 1,
    height: 1,
};

struct Never;

impl InputValidator for Never {
    fn accepts(&self, _text: &str) -> bool {
        false
    }
}

fn num(value: f64) -> Number {
    Number {
        bits: value.to_bits(),
    }
}

#[test]
fn single_line_settings() {
    let (window, mut cx) = (Window::new(), Context::new());
    let mut state = InputState::new()
        .step(NumberStep::Fixed(num(2.)))
        .min(num(0.))
        .max(num(9.));
    assert_eq!(state.options.number_step, Some(NumberStep::Fixed(num(2.))));
    state = state.step_by(7);
    assert_eq!(state.options.number_step, Some(NumberStep::ByValue(7)));
    state.set_step(None);
    state.set_min(None);
    state.set_max(Some(num(5.)));
    assert_eq!(state.options.number_step, None);
    assert_eq!(state.options.number_min, None);
    assert_eq!(state.options.number_max, Some(num(5.)));
    assert_eq!(state.number_to_clamp(), None);
    state.set_mask_pattern(
        MaskPattern::Number {
            separator: None,
            fraction: None,
        },
        &mut cx,
    );
    state.set_value("12", &window, &mut cx);
    assert_eq!(state.number_to_clamp().as_deref(), Some("12"));
    state.apply_clamped_number("5", &window, &mut cx);
    assert_eq!(state.value(), "5");
    state.set_pattern(Pattern::new("^[0-9]$").unwrap());
    state.apply_clamped_number("55", &window, &mut cx);
    assert_eq!(state.value(), "5");
    state.set_validator(Box::new(Never));
    assert!(!state.is_valid_input("5"));
    state.set_masked(true, &mut cx);
    state.set_loading(true, &mut cx);
    assert!(state.presentation().is_masked());
    assert!(state.presentation().is_loading());
    assert_eq!(state.presentation().value(), "5");
    assert!(!state.presentation().is_multi_line());
    assert!(!state.presentation().is_code_editor());
}

#[test]
fn general_settings() {
    let mut cx = Context::new();
    let mut state = TextareaState::new()
        .context_menu(false)
        .submit_on_enter(true)
        .show_whitespaces(true)
        .replaceable(false)
        .scroll_beyond_last_line(Some(1))
        .cursor_surrounding_lines(Some(2));
    assert!(!state.options.enable_context_menu);
    assert!(state.options.submit_on_enter);
    assert!(state.options.show_whitespaces);
    assert!(!state.is_replaceable());
    assert_eq!(state.options.scroll_beyond_last_line, Some(1));
    assert_eq!(state.options.cursor_surrounding_lines, Some(2));
    state.set_context_menu_enabled(true);
    state.set_submit_on_enter(false, &mut cx);
    state.set_show_whitespaces(false, &mut cx);
    state.set_clean_on_escape(true);
    assert!(state.options.enable_context_menu && state.options.clean_on_escape);
    assert!(!state.options.submit_on_enter && !state.options.show_whitespaces);
    cx = Context::new();
    state.set_cursor_surrounding_lines(Some(2), &mut cx);
    assert!(cx.effects.is_empty());
    state.set_cursor_surrounding_lines(None, &mut cx);
    assert_eq!(cx.effects, vec![Effect::Notify]);
    state.prepare();
    state.set_editor_paddings(PixelEdges {
        top: 1,
        right: 2,
        bottom: 3,
        left: 4,
    });
    assert_eq!(state.geometry.editor_paddings.left, 4);
}

#[test]
fn rows_of_textareas() {
    let mut cx = Context::new();
    let state = TextareaState::new().auto_grow(2, 5);
    assert!(state.mode.is_auto_grow());
    let mut state = state;
    state.update_auto_grow(9);
    assert!(matches!(state.mode, LayoutMode::AutoGrow { rows: 5, .. }));
    state.update_auto_grow(1);
    assert!(matches!(state.mode, LayoutMode::AutoGrow { rows: 2, .. }));
    state.set_auto_grow(3, 1, &mut cx);
    assert!(matches!(
        state.mode,
        LayoutMode::AutoGrow {
            rows: 3,
            min_rows: 3,
            max_rows: 3,
        }
    ));
}

#[test]
fn editors_fold_and_wrap() {
    let (window, mut cx) = (Window::new(), Context::new());
    let mut state = EditorState::new().folding(true).line_number(false);
    state.set_value("a\nb\nc", &window, &mut cx);
    state.display_map.set_folds(vec![FoldRange {
        start_line: 0,
        end_line: 2,
    }]);
    assert_eq!(state.display_map.folded_ranges().len(), 1);
    state.set_folding(false, &mut cx);
    assert!(state.display_map.folded_ranges().is_empty());
    state.set_highlighter("rust", &mut cx);
    state.set_searchable(false, &mut cx);
    assert!(!state.options.searchable);
    state.set_wrapping_indent(WrappingIndent::Indent, &mut cx);
    assert_eq!(state.options.wrapping_indent, WrappingIndent::Indent);
    cx = Context::new();
    state.set_soft_wrap(false, &mut cx);
    assert_eq!(
        cx.effects,
        vec![Effect::Rewrap { wrap: false }, Effect::Notify]
    );
    state.set_soft_wrap(true, &mut cx);
    state.set_wrapped_lines(vec![vec![
        Selection { start: 0, end: 2 },
        Selection { start: 2, end: 5 },
    ]]);
    let mut wrapped = EditorState::new();
    wrapped.set_value("abcde", &window, &mut cx);
    wrapped.set_wrapped_lines(vec![vec![
        Selection { start: 0, end: 2 },
        Selection { start: 2, end: 5 },
    ]]);
    wrapped.set_selected_range(3..3, &mut cx);
    // The start of the wrapped line comes first, then that of the line.
    assert_eq!(wrapped.start_of_line(), 2);
    wrapped.set_selected_range(2..2, &mut cx);
    assert_eq!(wrapped.start_of_line(), 0);
}

#[test]
fn layouts_are_remembered() {
    let mut cx = Context::new();
    let mut state = TextareaState::new();
    assert_eq!(state.cursor_layout(), None);
    state.set_input_bounds(BOUNDS, true, &mut cx);
    assert!(cx.effects.is_empty());
    state.set_layout(
        Some(LayoutInfo {
            visible_range: Selection { start: 0, end: 1 },
            line_height: 20,
            cursor_bounds: Some(BOUNDS),
        }),
        Some(BOUNDS),
    );
    assert_eq!(state.cursor_layout(), Some((BOUNDS, 20)));
    assert_eq!(state.line_height(), Some(20));
    assert_eq!(state.input_bounds(), BOUNDS);
    state.set_input_bounds(BOUNDS, true, &mut cx);
    assert_eq!(
        cx.effects,
        vec![
            Effect::Rewrap { wrap: true },
            Effect::UpdateAutoGrow,
            Effect::Notify,
        ]
    );
    let offset = PixelPoint { x: 3, y: 4 };
    state.set_scroll_offset(offset, &mut cx);
    assert_eq!(state.session.deferred_scroll_offset, Some(offset));
    assert_eq!(state.scroll_offset(), PixelPoint { x: 0, y: 0 });
    cx = Context::new();
    state.refresh(&mut cx);
    state.before_render(&mut cx);
    state.before_render(&mut cx);
    assert_eq!(cx.effects, vec![Effect::Notify, Effect::Highlight]);
}

#[test]
fn context_menus_know_what_is_possible() {
    let mut cx = Context::new();
    let mut state = EditorState::new().default_value("text").readonly(true);
    state.set_selected_range(0..2, &mut cx);
    let capabilities = state.context_menu_capabilities(true, false);
    assert!(capabilities.readonly && capabilities.code_editor && capabilities.selection);
    assert!(capabilities.go_to_definition);
    assert!(!capabilities.disabled && !capabilities.code_actions);
    state.session.pending_context_menu = Some(PendingMenu {
        position: PixelPoint { x: 1, y: 2 },
        offset: 1,
    });
    state.on_context_menu();
    let window = Window::new();
    state.on_mouse_up(textkit::mouse::MouseButton::Right, &window, &mut cx);
    assert!(cx.effects.contains(&Effect::ShowContextMenu {
        position: PixelPoint { x: 1, y: 2 },
    }));
    assert_eq!(state.session.pending_context_menu, None);
    assert_eq!(state.selected_value(), "te");
}

#[test]
fn selecting_by_single_steps() {
    let (window, mut cx) = (Window::new(), Context::new());
    let mut state = TextareaState::new();
    state.set_value("ab\r\ncd", &window, &mut cx);
    state.set_selected_range(2..2, &mut cx);
    state.select_left(&mut cx);
    assert_eq!(state.selected_value(), "b");
    // A step that ends before a carriage return goes past it.
    state.select_right(&mut cx);
    assert_eq!(state.selected_value(), "\r");
    state.select_right(&mut cx);
    assert_eq!(state.selected_value(), "\r\n");
    state.set_selected_range(5..5, &mut cx);
    assert_eq!(state.start_of_line_of_selection(), 4);
    state.select_up(&mut cx);
    assert_eq!(state.selected_range(), 1..5);
    state.left(&mut cx);
    assert_eq!(state.selected_range(), 1..1);
    state.focus(&mut cx);
    state.on_key_down(&mut cx);
    state.show_character_palette(&mut cx);
    let last = &cx.effects[cx.effects.len() - 4..];
    assert_eq!(
        last,
        [
            Effect::Focus,
            Effect::StartBlink,
            Effect::PauseBlink,
            Effect::ShowCharacterPalette,
        ]
    );
}

#[test]
fn silent_edits_offer_no_completions() {
    let (window, mut cx) = (Window::new(), Context::new());
    let mut state = TextareaState::new();
    state.replace_text_in_range_silent(None, "x", &window, &mut cx);
    assert!(!cx
        .effects
        .iter()
        .any(|effect| matches!(effect, Effect::TextTyped { .. })));
    assert!(!state.session.silent_replace_text);
    assert!(cx.typed.is_empty());
    state.replace_text_in_range(None, "y", &window, &mut cx);
    assert_eq!(cx.typed, vec!["y"]);
    assert!(cx
        .effects
        .iter()
        .any(|effect| matches!(effect, Effect::TextTyped { .. })));
}

#[test]
fn compositions_are_turned_down_like_edits() {
    let mut cx = Context::new();
    let refused = Verdict {
        validator: false,
        pattern: None,
    };
    let fine = Verdict {
        validator: true,
        pattern: None,
    };
    let mut state = InputState::new().validate(Box::new(Never));
    let verdicts = Verdicts {
        pending: refused,
        current: fine,
    };
    state.mark_text_with_verdicts(None, "a", None, verdicts, &mut cx);
    assert_eq!(state.value(), "");
    assert_eq!(state.marked_text_range(), None);
    let verdicts = Verdicts {
        pending: fine,
        current: fine,
    };
    state.mark_text_with_verdicts(None, "ab", Some(1..1), verdicts, &mut cx);
    assert_eq!(state.value(), "ab");
    assert_eq!(state.marked_text_range(), Some(0..2));
    assert_eq!(state.selected_range(), 1..1);
}

#[test]
fn masked_text_is_undone_and_redone() {
    let (window, mut cx) = (Window::new(), Context::new());
    let mut state = InputState::new();
    state.set_mask_pattern(MaskPattern::new("(999)-999"), &mut cx);
    state.replace_text_in_range(None, "123", &window, &mut cx);
    let first = state.value();
    state.undo_manager.break_transaction_coalescing();
    state.replace_text_in_range(None, "456", &window, &mut cx);
    let second = state.value();
    assert_ne!(first, second);
    state.undo(&window, &mut cx);
    assert_eq!(state.value(), first);
    state.redo(&window, &mut cx);
    assert_eq!(state.value(), second);
    assert_eq!(second, "(123)-456");
    state.undo(&window, &mut cx);
    state.undo(&window, &mut cx);
    assert_eq!(state.value(), "");
}

#[test]
fn ranges_run_forwards() {
    let (window, mut cx) = (Window::new(), Context::new());
    let mut state = TextareaState::new();
    state.replace_text_in_range(None, "ab cd", &window, &mut cx);
    state.set_selected_range(4..4, &mut cx);
    state.select_left(&mut cx);
    state.select_to_previous_word(&mut cx);
    state.backspace(&window, &mut cx);
    state.replace_and_mark_text_in_range(None, "xyz", Some(1..2), &window, &mut cx);
    assert!(state.selected_range.start <= state.selected_range.end);
    let marked = state.ime_marked_range.unwrap();
    assert!(marked.start <= marked.end);
    state.unmark_text();
    state.undo(&window, &mut cx);
    state.redo(&window, &mut cx);
    let selected = state.selected_range;
    assert!(selected.start <= selected.end && selected.end <= state.value().len());
    assert!(!state.undo_manager.undos.is_empty());
    for transaction in &state.undo_manager.undos {
        for change in &transaction.changes {
            assert!(change.old_range.start <= change.old_range.end);
            assert!(change.new_range.start <= change.new_range.end);
        }
    }
}

/// Keeps what it was asked about, and takes all but one text.
struct Recorder {
    asked: Rc<RefCell<Vec<String>>>,
    refused: String,
}

impl InputValidator for Recorder {
    fn accepts(&self, text: &str) -> bool {
        self.asked.borrow_mut().push(text.to_string());
        text != self.refused
    }
}

#[test]
fn validators_are_asked_where_they_decide() {
    let (window, mut cx) = (Window::new(), Context::new());
    let asked = Rc::new(RefCell::new(Vec::new()));
    let recorder = || {
        Box::new(Recorder {
            asked: asked.clone(),
            refused: "ab".to_string(),
        })
    };
    let mut state = InputState::new().validate(recorder());
    assert!(state.is_valid_input(""));
    state.replace_text_in_range(None, "a", &window, &mut cx);
    state.replace_text_in_range(None, "b", &window, &mut cx);
    assert_eq!(state.value(), "a");
    state.clean(&window, &mut cx);
    assert_eq!(state.value(), "");
    // The text as it is matters only where the edited one is not valid; the
    // empty text always is.
    assert_eq!(*asked.borrow(), vec!["a", "ab", "a"]);
    assert!(!state.is_valid_input("ab"));
    asked.borrow_mut().clear();
    let mut area = TextareaState::new();
    area.validate = Some(recorder());
    area.replace_text_in_range(None, "ab", &window, &mut cx);
    assert_eq!(area.value(), "ab");
    assert!(asked.borrow().is_empty());
}
