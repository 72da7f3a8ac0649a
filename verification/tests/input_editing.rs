use textkit::actions::Enter;
use textkit::context::{Context, Effect, InputEvent, MoveDirection, PixelBounds, PixelPoint, Window};
use textkit::display_map::FoldRange;
use textkit::edit::{Verdict, Verdicts};
use textkit::keys::{init, Action};
use textkit::kind::{EditorMode, InputMode, TextareaMode};
use textkit::mask_pattern::{normalize_number_input, MaskPattern};
use textkit::mode::DiagnosticEntry;
use textkit::mouse::{LineHit, MouseButton, MouseDown};
use textkit::pattern::Pattern;
use textkit::rope::{Bias, Position, TextBuffer};
use textkit::scroll::ScrollTarget;
use textkit::segmentation::{next_word_end, previous_word_start, word_range_at};
use textkit::selection::Selection;
use textkit::state::{
    InputBaseState, InputValidator, LayoutInfo, Number, NumberStep, StepAction, StepFunctions,
    TextAlign,
};

type InputState = InputBaseState<InputMode>;
type TextareaState = InputBaseState<TextareaMode>;
type EditorState = InputBaseState<EditorMode>;

const ORIGIN: PixelPoint = PixelPoint { x: 0, y: 0 };

fn setup() -> (Window, Context) {
    (Window::new(), Context::new())
}

fn num(value: f64) -> Number {
    Number {
        bits: value.to_bits(),
    }
}

fn textarea(text: &str) -> TextareaState {
    let (window, mut cx) = setup();
    let mut state = TextareaState::new();
    state.set_value(text, &window, &mut cx);
    state
}

fn editor(text: &str) -> EditorState {
    let (window, mut cx) = setup();
    let mut state = EditorState::new();
    state.set_value(text, &window, &mut cx);
    state
}

fn input(text: &str) -> InputState {
    let (window, mut cx) = setup();
    let mut state = InputState::new();
    state.set_value(text, &window, &mut cx);
    state
}

struct Steps;

impl StepFunctions for Steps {
    fn step(&self, _function: u64, value: Number, action: StepAction) -> Number {
        let value = f64::from_bits(value.bits);
        let below = match action {
            StepAction::Increment => value < 1.0,
            StepAction::Decrement => value <= 1.0,
        };
        num(if below { 0.1 } else { 0.5 })
    }
}

#[test]
fn test_number_step() {
    assert_eq!(
        NumberStep::Fixed(num(5.)).value(num(123.), StepAction::Increment, &Steps),
        num(5.)
    );

    // The step can differ by direction at a boundary: at 1.0 it
    // is 0.1 going down and 0.5 going up.
    let step = NumberStep::ByValue(0);
    assert_eq!(step.value(num(0.5), StepAction::Increment, &Steps), num(0.1));
    assert_eq!(step.value(num(1.0), StepAction::Increment, &Steps), num(0.5));
    assert_eq!(step.value(num(1.0), StepAction::Decrement, &Steps), num(0.1));
    assert_eq!(step.value(num(2.0), StepAction::Decrement, &Steps), num(0.5));
}

struct Short;

impl InputValidator for Short {
    fn accepts(&self, text: &str) -> bool {
        text.len() <= 3
    }
}

#[test]
fn validators_turn_edits_down() {
    let (window, mut cx) = setup();
    let mut state = InputState::new().validate(Box::new(Short));
    state.replace_text_in_range(None, "abc", &window, &mut cx);
    assert_eq!(state.value(), "abc");
    state.replace_text_in_range(None, "d", &window, &mut cx);
    assert_eq!(state.value(), "abc");
    assert_eq!(state.cursor(), 3);
    assert!(state.is_valid_input("abc"));
    assert!(!state.is_valid_input("abcd"));
    assert!(state.is_valid_input(""));
}

#[test]
fn patterns_turn_edits_down() {
    let (window, mut cx) = setup();
    let mut state = InputState::new().pattern(Pattern::new("^[a-z]+$").unwrap());
    assert!(state.is_valid_input("abc"));
    assert!(!state.is_valid_input("a1"));
    assert!(state.is_valid_input(""));
    state.replace_text_in_range(None, "abc", &window, &mut cx);
    state.replace_text_in_range(None, "1", &window, &mut cx);
    assert_eq!(state.value(), "abc");
    assert!(Pattern::new("b+").unwrap().is_match("abbc"));
    assert!(!Pattern::new("b+").unwrap().is_match("ac"));
    assert!(Pattern::new("(?i)^AC$").unwrap().is_match("ac"));
    assert!(Pattern::new("(").is_none());
}

#[test]
fn verdicts_decide_single_line_edits_only() {
    let (window, mut cx) = setup();
    let refused = Verdict {
        validator: false,
        pattern: Some(false),
    };
    let fine = Verdict {
        validator: true,
        pattern: Some(true),
    };
    let verdicts = Verdicts {
        pending: refused,
        current: fine,
    };
    let mut state = InputState::new().validate(Box::new(Short));
    state.replace_text_with_verdicts(None, "a", verdicts, &window, &mut cx);
    assert_eq!(state.value(), "");
    // A text that is not valid as it is can still be changed.
    let both = Verdicts {
        pending: refused,
        current: refused,
    };
    let mut invalid = InputState::new()
        .validate(Box::new(Short))
        .default_value("too long");
    invalid.replace_text_with_verdicts(Some(0..4), "", both, &window, &mut cx);
    assert_eq!(invalid.value(), "long");
    let mut area = textarea("x");
    area.replace_text_with_verdicts(Some(1..1), "y", verdicts, &window, &mut cx);
    assert_eq!(area.value(), "xy");
}

#[test]
fn edits_ask_for_what_follows_them() {
    let (mut window, mut cx) = setup();
    window.cursor_visible = true;
    let mut state = textarea("ab");
    state.replace_text_in_range(Some(1..2), "é\n", &window, &mut cx);
    assert_eq!(state.value(), "aé\n");
    assert_eq!(
        cx.effects,
        vec![
            Effect::PauseBlink,
            Effect::TextChanged {
                start: 1,
                end: 2,
                new_len: 3,
                masked: false,
            },
            Effect::RememberColumn,
            Effect::UpdateSearch,
            Effect::UpdateAutoGrow,
            Effect::TextTyped { start: 1, end: 2 },
            Effect::Emit(InputEvent::Change),
            Effect::Notify,
        ]
    );
    assert_eq!(cx.typed, vec!["é\n"]);
    assert_eq!(state.selected_range(), 4..4);
}

#[test]
fn words_are_found_by_unicode_rules() {
    assert_eq!(previous_word_start("hello world"), 6);
    assert_eq!(previous_word_start("hello world  "), 6);
    assert_eq!(previous_word_start("   "), 0);
    assert_eq!(next_word_end("  can't stop"), 7);
    assert_eq!(next_word_end("  "), 2);
    let word = word_range_at("one zwei", 5);
    assert_eq!((word.start, word.end), (4, 8));

    let (window, mut cx) = setup();
    let mut state = input("the quick brown");
    state.delete_previous_word(&window, &mut cx);
    assert_eq!(state.value(), "the quick ");
    state.set_selected_range(0..0, &mut cx);
    state.delete_next_word(&window, &mut cx);
    assert_eq!(state.value(), " quick ");
    state.select_to_next_word(&mut cx);
    assert_eq!(state.selected_value(), " quick");
    state.unselect(&mut cx);
    state.select_to_previous_word(&mut cx);
    assert_eq!(state.selected_value(), "quick");
}

#[test]
fn ropes_measure_in_bytes_and_code_units() {
    let mut text = TextBuffer::from_str("a💝\nb");
    assert_eq!(text.len(), 7);
    assert_eq!(text.len_utf16(), 5);
    assert_eq!(text.offset_to_offset_utf16(5), 3);
    assert_eq!(text.offset_utf16_to_offset(3), 5);
    assert_eq!(text.offset_utf16_to_offset(2), 1);
    assert_eq!(text.clip_offset(3, Bias::Left), 1);
    assert_eq!(text.clip_offset(3, Bias::Right), 5);
    assert_eq!(text.clip_offset(99, Bias::Left), 7);
    assert_eq!(text.char_at(1), Some('💝'));
    assert_eq!(text.char_at(2), None);
    assert_eq!(text.char_at(7), None);
    assert_eq!(text.row(6), 1);
    assert_eq!(text.line_start_offset(1), 6);
    assert_eq!(text.line_end_offset(0), 5);
    let point = text.offset_to_point(7);
    assert_eq!((point.row, point.column), (1, 1));
    let position = text.offset_to_position(5);
    assert_eq!((position.line, position.character), (0, 2));
    assert_eq!(text.position_to_offset(position), 5);
    assert_eq!(
        text.position_to_offset(Position {
            line: 0,
            character: 9,
        }),
        5
    );
    assert_eq!(text.char_index_to_offset(2), 5);
    assert_eq!(text.slice(1, 5), "💝");
    text.replace(2, 5, "é");
    assert_eq!(text.text(), "aé\nb");
}

#[test]
fn masks_format_and_take_apart() {
    let phone = MaskPattern::new("(999)999-A*");
    assert!(phone.is_valid("(123)456-xy"));
    assert_eq!(phone.mask("123456xy"), "(123)456-xy");
    assert_eq!(phone.unmask("(123)456-xy"), "123456xy");
    assert_eq!(phone.placeholder().as_deref(), Some("(___)___-__"));
    assert!(!phone.is_valid("(12a"));
    assert!(MaskPattern::Plain.is_none());
    assert_eq!(MaskPattern::Plain.mask("x"), "x");
    assert_eq!(MaskPattern::Plain.placeholder(), None);

    let number = MaskPattern::Number {
        separator: Some(','),
        fraction: Some(2),
    };
    assert_eq!(number.mask("1234567.891"), "1,234,567.89");
    assert_eq!(number.unmask("1,234,567.89"), "1234567.89");
    assert_eq!(number.mask(&number.mask("1234567.891")), "1,234,567.89");
    assert!(number.is_valid("-1,234"));
    assert!(!number.is_valid("12a"));
    assert_eq!(normalize_number_input("１２。５"), "12.5");
}

#[test]
fn masks_choose_the_placeholder() {
    let (_, mut cx) = setup();
    let mut state = InputState::new()
        .placeholder("phone")
        .mask_pattern(MaskPattern::new("99-99"));
    assert_eq!(state.presentation().placeholder(), "__-__");
    assert_eq!(state.presentation().mask_placeholder(), Some("__-__"));
    state.set_placeholder("other", &mut cx);
    assert_eq!(state.presentation().placeholder(), "other");
    // An explicit choice of the mask is kept.
    state.ensure_number_mask();
    assert!(!state.mask_pattern.is_number());
    let mut plain = InputState::new();
    plain.ensure_number_mask();
    assert!(plain.mask_pattern.is_number());
}

#[test]
fn keys_are_bound_once() {
    for macos in [false, true] {
        let keymap = init(macos);
        for binding in &keymap.bindings {
            assert_eq!(binding.context.as_deref(), Some("Input"));
        }
        let mut strokes: Vec<&str> = keymap
            .bindings
            .iter()
            .map(|binding| binding.keystroke.as_str())
            .collect();
        let count = strokes.len();
        strokes.sort();
        strokes.dedup();
        assert_eq!(strokes.len(), count);
    }
    let find = |macos: bool, stroke: &str| {
        init(macos)
            .bindings
            .iter()
            .find(|binding| binding.keystroke == stroke)
            .map(|binding| binding.action)
    };
    assert_eq!(find(true, "ctrl-a"), Some(Action::MoveHome));
    assert_eq!(find(false, "ctrl-a"), Some(Action::SelectAll));
    assert_eq!(find(true, "ctrl-backspace"), Some(Action::Backspace));
    assert_eq!(
        find(false, "ctrl-backspace"),
        Some(Action::DeleteToPreviousWordStart)
    );
    assert_eq!(find(true, "ctrl-y"), None);
    assert_eq!(
        find(false, "shift-enter"),
        Some(Action::Enter(Enter {
            secondary: false,
            shift: true,
        }))
    );
    let enter = |secondary, shift| Action::Enter(Enter { secondary, shift });
    assert!(Enter::is_primary(&enter(false, true)));
    assert!(Enter::is_primary(&enter(false, false)));
    assert!(!Enter::is_primary(&enter(true, false)));
    assert!(!Enter::is_primary(&enter(true, true)));
    assert!(!Enter::is_primary(&Action::Escape));
}

#[test]
fn readonly_inputs_do_not_handle_edits() {
    let state = InputState::new().readonly(true);
    assert!(!state.handles_action(Action::Paste));
    assert!(state.handles_action(Action::Copy));
    assert!(!state.handles_action(Action::MoveUp));
    assert!(TextareaState::new().handles_action(Action::MoveUp));
    assert!(!InputState::new().handles_action(Action::Indent));
    assert!(TextareaState::new().handles_action(Action::Indent));
    assert!(state.render_plan().text_cursor);
    assert!(!InputState::new().disabled(true).render_plan().text_cursor);
}

#[test]
fn the_clipboard_keeps_what_was_copied() {
    let (window, mut cx) = setup();
    let mut state = input("hello");
    state.copy(&mut cx);
    assert_eq!(cx.clipboard, None);
    state.set_selected_range(1..3, &mut cx);
    state.copy(&mut cx);
    assert_eq!(cx.clipboard.as_deref(), Some("el"));
    state.cut(&window, &mut cx);
    assert_eq!(state.value(), "hlo");
    state.set_selected_range(3..3, &mut cx);
    state.paste(&window, &mut cx);
    assert_eq!(state.value(), "hloel");
    assert!(cx.effects.contains(&Effect::ScrollTo {
        offset: 5,
        direction: None,
    }));
}

#[test]
fn lines_are_deleted_up_to_their_ends() {
    let (window, mut cx) = setup();
    let mut state = textarea("one\ntwo");
    state.set_selected_range(5..5, &mut cx);
    state.delete_to_beginning_of_line(&window, &mut cx);
    assert_eq!(state.value(), "one\nwo");
    state.delete_to_end_of_line(&window, &mut cx);
    assert_eq!(state.value(), "one\n");
    state.delete_to_beginning_of_line(&window, &mut cx);
    assert_eq!(state.value(), "one");
}

#[test]
fn selecting_over_lines() {
    let mut cx = Context::new();
    let mut state = textarea("ab\ncd\nef");
    state.set_selected_range(4..4, &mut cx);
    state.select_to_start_of_line(&mut cx);
    assert_eq!(state.selected_value(), "c");
    assert!(state.selection_reversed);
    state.select_to_end_of_line(&mut cx);
    assert_eq!(state.selected_range(), 4..5);
    state.select_down(&mut cx);
    assert_eq!(state.selected_range(), 4..7);
    state.select_to_start(&mut cx);
    assert_eq!(state.selected_range(), 0..4);
    state.select_to_end(&mut cx);
    assert_eq!(state.selected_range(), 4..8);
    state.select_all(&mut cx);
    assert_eq!(state.selected_value(), "ab\ncd\nef");
    state.unselect(&mut cx);
    assert_eq!(state.selected_range(), 8..8);
    state.set_cursor_position(
        Position {
            line: 1,
            character: 1,
        },
        &mut cx,
    );
    assert_eq!(state.cursor(), 4);
    let position = state.cursor_position();
    assert_eq!((position.line, position.character), (1, 1));
}

#[test]
fn folded_lines_are_stepped_over() {
    let mut cx = Context::new();
    let mut state = editor("a\nb\nc\nd");
    state.apply_highlighter_fold_candidates(
        vec![FoldRange {
            start_line: 0,
            end_line: 3,
        }],
        &mut cx,
    );
    state.display_map.set_folds(vec![FoldRange {
        start_line: 0,
        end_line: 3,
    }]);
    assert!(state.display_map.is_buffer_line_hidden(1));
    assert!(!state.display_map.is_buffer_line_hidden(3));
    assert_eq!(state.next_boundary(1), 6);
    assert_eq!(state.previous_boundary(5), 1);
    // An edit of a folded line unfolds it.
    let (window, mut cx) = setup();
    state.replace_text_in_range(Some(2..3), "x", &window, &mut cx);
    assert!(!state.display_map.is_buffer_line_hidden(1));
}

#[test]
fn enter_keeps_the_indent_of_code() {
    let (window, mut cx) = setup();
    let mut state = editor("  let x;");
    state.set_selected_range(8..8, &mut cx);
    let enter = Enter {
        secondary: false,
        shift: false,
    };
    state.enter(&enter, &window, &mut cx);
    assert_eq!(state.value(), "  let x;\n  ");
    assert!(cx.effects.contains(&Effect::Emit(InputEvent::PressEnter {
        secondary: false,
        shift: false,
    })));
    let mut line = input("x");
    let mut cx = Context::new();
    line.enter(&enter, &window, &mut cx);
    assert_eq!(line.value(), "x");
    assert!(cx.effects.contains(&Effect::Propagate));
}

#[test]
fn escape_cleans_where_it_should() {
    let (window, mut cx) = setup();
    let mut state = input("text");
    state.escape(&window, &mut cx);
    assert_eq!(cx.effects, vec![Effect::Propagate]);
    let mut state = InputState::new().clean_on_escape().default_value("text");
    let mut cx = Context::new();
    state.escape(&window, &mut cx);
    assert_eq!(state.value(), "");
    let mut busy = window;
    busy.inline_completion = true;
    let mut state = input("text");
    let mut cx = Context::new();
    state.escape(&busy, &mut cx);
    assert_eq!(cx.effects, vec![Effect::ClearInlineCompletion]);
}

#[test]
fn compositions_replace_what_they_marked() {
    let (window, mut cx) = setup();
    let mut state = input("ab");
    state.set_selected_range(1..1, &mut cx);
    state.replace_and_mark_text_in_range(None, "ni", None, &window, &mut cx);
    assert_eq!(state.value(), "anib");
    assert_eq!(state.marked_text_range(), Some(1..3));
    assert_eq!(state.cursor(), 3);
    state.replace_text_in_range(None, "你", &window, &mut cx);
    assert_eq!(state.value(), "a你b");
    assert_eq!(state.marked_text_range(), None);
    assert_eq!(state.text_for_range(1..2), ("你".to_string(), 1..2));
    assert_eq!(state.selected_text_range(), 2..2);
    state.undo(&window, &mut cx);
    assert_eq!(state.value(), "ab");
}

#[test]
fn compositions_select_what_they_are_asked_for() {
    let (window, mut cx) = setup();
    let mut state = input("ab");
    state.set_selected_range(1..1, &mut cx);
    state.replace_and_mark_text_in_range(None, "n你i", Some(1..2), &window, &mut cx);
    assert_eq!(state.selected_range(), 2..5);
    state.replace_and_mark_text_in_range(None, "n你i", Some(2..1), &window, &mut cx);
    assert_eq!(state.value(), "an你ib");
    let backwards = state.selected_range();
    assert_eq!((backwards.start, backwards.end), (5, 2));
    assert_eq!(state.marked_text_range(), Some(1..4));
}

#[test]
fn the_pointer_finds_offsets() {
    let hit = |start: usize, closest: usize, inside: Option<usize>, above: bool| LineHit {
        start,
        closest,
        inside,
        above,
    };
    let area = textarea("ab\ncd");
    assert_eq!(area.index_for_mouse_position(&None), 0);
    let lines = Some(vec![hit(0, 1, None, false), hit(3, 1, Some(1), false)]);
    assert_eq!(area.index_for_mouse_position(&lines), 4);
    let above = Some(vec![hit(0, 0, None, true)]);
    assert_eq!(area.index_for_mouse_position(&above), 0);
    let below = Some(vec![hit(0, 0, None, false)]);
    assert_eq!(area.index_for_mouse_position(&below), 5);
    let field = input("héllo");
    assert_eq!(
        field.index_for_mouse_position(&Some(vec![hit(0, 99, None, false)])),
        6
    );
    let secret = InputState::new().default_value("héllo").masked(true);
    assert_eq!(
        secret.index_for_mouse_position(&Some(vec![hit(0, 6, None, false)])),
        3
    );
    assert_eq!(
        area.character_index_for_point(&vec![
            hit(0, 0, None, false),
            hit(3, 0, Some(2), false),
        ]),
        Some(5)
    );
    assert_eq!(area.character_index_for_point(&vec![]), None);
}

#[test]
fn clicks_select() {
    let (window, mut cx) = setup();
    let mut state = textarea("one two\nthree");
    let at = |offset: usize| {
        Some(vec![LineHit {
            start: 0,
            closest: offset,
            inside: Some(offset),
            above: false,
        }])
    };
    let click = |click_count: usize, shift: bool| MouseDown {
        button: MouseButton::Left,
        click_count,
        shift,
        position: ORIGIN,
    };
    state.on_mouse_down(&click(1, false), &at(2), &window, &mut cx);
    assert_eq!(state.selected_range(), 2..2);
    state.on_drag_move(ORIGIN, &at(5), &window, &mut cx);
    assert_eq!(state.selected_value(), "e t");
    state.on_mouse_up(MouseButton::Left, &window, &mut cx);
    state.on_drag_move(ORIGIN, &at(7), &window, &mut cx);
    assert_eq!(state.selected_value(), "e t");
    state.on_mouse_down(&click(1, true), &at(7), &window, &mut cx);
    assert_eq!(state.selected_value(), "e two");
    state.on_mouse_down(&click(2, false), &at(5), &window, &mut cx);
    assert_eq!(state.selected_value(), "two");
    // Dragging from a word keeps the word.
    state.on_drag_move(ORIGIN, &at(1), &window, &mut cx);
    assert_eq!(state.selected_range(), 1..7);
    state.on_mouse_up(MouseButton::Left, &window, &mut cx);
    state.on_mouse_down(&click(3, false), &at(9), &window, &mut cx);
    assert_eq!(state.selected_value(), "three");
}

#[test]
fn diagnostics_are_shown_under_the_pointer() {
    let mut cx = Context::new();
    let mut state = editor("let x");
    if let Some(set) = state.diagnostics_mut() {
        set.push(DiagnosticEntry {
            range: Selection { start: 0, end: 3 },
            message: "unused".to_string(),
        });
    }
    let at = |offset: usize| {
        Some(vec![LineHit {
            start: 0,
            closest: offset,
            inside: Some(offset),
            above: false,
        }])
    };
    state.on_mouse_move(true, &at(1), &mut cx);
    assert_eq!(
        state.diagnostic_popover().map(|entry| entry.message),
        Some("unused".to_string())
    );
    state.on_mouse_move(true, &at(5), &mut cx);
    assert!(state.diagnostic_popover().is_none());
    let mut cx = Context::new();
    state.on_mouse_move(false, &at(1), &mut cx);
    assert_eq!(cx.effects, vec![Effect::ClearHover]);
}

#[test]
fn the_cursor_blinks_in_focused_windows() {
    let (mut window, mut cx) = setup();
    let mut state = input("x");
    window.cursor_visible = true;
    assert!(state.show_cursor(&window));
    state.set_disabled(true, &mut cx);
    assert!(!state.show_cursor(&window));
    state.set_disabled(false, &mut cx);
    window.focused = false;
    assert!(!state.show_cursor(&window));
    window.context_menu_open = true;
    assert!(state.show_cursor(&window));
    let mut cx = Context::new();
    state.on_blur(&window, &mut cx);
    assert!(cx.effects.is_empty());
    window.context_menu_open = false;
    state.on_blur(&window, &mut cx);
    assert!(cx.effects.contains(&Effect::Emit(InputEvent::Blur)));
    let mut cx = Context::new();
    state.on_focus(&mut cx);
    assert_eq!(
        cx.effects,
        vec![Effect::StartBlink, Effect::Emit(InputEvent::Focus)]
    );
}

#[test]
fn settings_notify_when_they_change() {
    let mut cx = Context::new();
    let mut state = InputState::new();
    state.set_readonly(false, &mut cx);
    assert!(cx.effects.is_empty());
    state.set_readonly(true, &mut cx);
    assert_eq!(cx.effects, vec![Effect::Notify]);
    assert!(!state.is_editable());
    assert!(state.presentation().is_readonly());
    state.set_text_align(TextAlign::Right, &mut cx);
    assert_eq!(state.presentation().text_align(), TextAlign::Right);
    let mut area = TextareaState::new();
    let mut cx = Context::new();
    area.set_text_align(TextAlign::Right, &mut cx);
    assert_eq!(area.presentation().text_align(), TextAlign::Left);
    assert!(cx.effects.is_empty());
    area.set_scroll_beyond_last_line(Some(2), &mut cx);
    area.set_scroll_beyond_last_line(Some(2), &mut cx);
    assert_eq!(cx.effects, vec![Effect::Notify]);
    state.toggle_masked(&mut cx);
    assert!(state.presentation().is_masked());
}

#[test]
fn places_to_scroll_to() {
    let mut state = editor("a\nbc\nd");
    assert_eq!(state.scroll_target(3, None), None);
    let bounds = PixelBounds {
        x: 0,
        y: 0,
        width: 100.0_f32.to_bits(),
        height: 20.0_f32.to_bits(),
    };
    state.set_layout(
        Some(LayoutInfo {
            visible_range: Selection { start: 1, end: 3 },
            line_height: 20.0_f32.to_bits(),
            cursor_bounds: None,
        }),
        Some(bounds),
    );
    assert_eq!(
        state.scroll_target(3, Some(MoveDirection::Down)),
        Some(ScrollTarget {
            row: 1,
            column: 1,
            line: 0,
            surrounded: true,
            direction: Some(MoveDirection::Down),
        })
    );
    assert_eq!(state.visible_row_range(), Some(1..3));
    assert_eq!(state.text_bounds(), Some(bounds));
}

#[test]
fn programs_may_edit_what_users_may_not() {
    let (window, mut cx) = setup();
    let mut state = InputState::new().disabled(true).default_value("ab");
    state.replace_text_in_range(None, "x", &window, &mut cx);
    assert_eq!(state.value(), "ab");
    state.insert("1", &window, &mut cx);
    assert_eq!(state.value(), "1ab");
    state.set_selected_range(1..3, &mut cx);
    state.replace("2", &window, &mut cx);
    assert_eq!(state.value(), "12");
    assert!(state.presentation().is_disabled());
    state.clean(&window, &mut cx);
    assert_eq!(state.value(), "");
}

#[test]
fn new_lines_take_the_deeper_indent() {
    let (window, mut cx) = setup();
    let mut state = editor("if x\n    y");
    assert_eq!(state.selected_range(), 0..0);
    assert_eq!(state.indent_of_next_line(), "    ");
    state.set_selected_range(4..4, &mut cx);
    let enter = Enter {
        secondary: false,
        shift: false,
    };
    state.enter(&enter, &window, &mut cx);
    assert_eq!(state.value(), "if x\n    \n    y");
    // The last line has none behind it, and a shallower one does not count.
    let mut state = editor("  a\nb");
    assert_eq!(state.indent_of_next_line(), "  ");
    state.set_selected_range(5..5, &mut cx);
    assert_eq!(state.indent_of_next_line(), "");
    assert_eq!(input("  a").indent_of_next_line(), "");
}

#[test]
fn home_and_end_follow_wrapped_lines_of_textareas() {
    let mut cx = Context::new();
    let mut state = textarea("abcde");
    state.set_wrapped_lines(vec![vec![
        Selection { start: 0, end: 2 },
        Selection { start: 2, end: 5 },
    ]]);
    state.set_selected_range(3..3, &mut cx);
    assert_eq!(state.start_of_line(), 2);
    assert_eq!(state.end_of_line(), 5);
    state.set_selected_range(2..2, &mut cx);
    assert_eq!(state.start_of_line(), 0);
    state.set_selected_range(1..1, &mut cx);
    assert_eq!(state.end_of_line(), 2);
    assert_eq!(state.start_of_line(), 0);
}

#[test]
fn empty_selections_are_at_the_cursor() {
    let (window, mut cx) = setup();
    let mut state = textarea("ab");
    state.set_selected_range(1..1, &mut cx);
    state.replace_and_mark_text_in_range(None, "xyz", Some(1..1), &window, &mut cx);
    assert_eq!(state.value(), "axyzb");
    assert_eq!(state.selected_range(), 2..2);
    assert_eq!(state.cursor(), 2);
    // With a selection inside, the cursor is behind what is being composed.
    state.replace_and_mark_text_in_range(None, "xyz", Some(0..1), &window, &mut cx);
    assert_eq!(state.selected_range(), 1..2);
    assert_eq!(state.cursor(), 4);
}

#[test]
fn redo_restores_the_selection_of_joined_edits() {
    let (window, mut cx) = setup();
    let mut state = input("");
    state.set_mask_pattern(
        MaskPattern::Number {
            separator: Some(','),
            fraction: None,
        },
        &mut cx,
    );
    for digit in ["1", "2", "3"] {
        state.replace_text_in_range(None, digit, &window, &mut cx);
    }
    state.undo(&window, &mut cx);
    assert_eq!(state.value(), "");
    state.redo(&window, &mut cx);
    assert_eq!(state.value(), "123");
    assert_eq!(state.selected_range(), 3..3);
    // Nothing is left to redo.
    state.redo(&window, &mut cx);
    assert_eq!(state.value(), "123");
    assert_eq!(state.selected_range(), 3..3);
}

#[test]
fn selections_start_on_their_first_line() {
    let mut cx = Context::new();
    let mut state = textarea("\nab\ncd");
    assert_eq!(state.start_of_line_of_selection(), 0);
    state.set_selected_range(2..6, &mut cx);
    assert_eq!(state.start_of_line_of_selection(), 1);
    state.set_selected_range(4..4, &mut cx);
    assert_eq!(state.start_of_line_of_selection(), 4);
}

#[test]
fn compositions_and_programs_are_undone_like_typing() {
    let (window, mut cx) = setup();
    let mut state = textarea("ab");
    state.set_selected_range(1..1, &mut cx);
    state.replace_and_mark_text_in_range(None, "x", None, &window, &mut cx);
    state.replace_and_mark_text_in_range(None, "xy", None, &window, &mut cx);
    state.unmark_text();
    assert_eq!(state.value(), "axyb");
    state.insert("1", &window, &mut cx);
    assert_eq!(state.value(), "axy1b");
    state.set_selected_range(0..2, &mut cx);
    state.replace("2", &window, &mut cx);
    assert_eq!(state.value(), "2y1b");
    state.replace_all("z", &window, &mut cx);
    let mut seen = vec![state.value()];
    for _ in 0..4 {
        state.undo(&window, &mut cx);
        seen.push(state.value());
    }
    assert_eq!(seen, vec!["z", "2y1b", "axy1b", "axyb", "ab"]);
    for expected in seen.iter().rev().skip(1) {
        state.redo(&window, &mut cx);
        assert_eq!(state.value(), *expected);
    }
}

#[test]
fn masked_programs_are_undone_and_redone() {
    let (window, mut cx) = setup();
    let mut state = input("");
    state.set_mask_pattern(
        MaskPattern::Number {
            separator: Some(','),
            fraction: None,
        },
        &mut cx,
    );
    state.set_value("1234", &window, &mut cx);
    assert_eq!(state.value(), "1,234");
    state.insert("5", &window, &mut cx);
    assert_eq!(state.value(), "12,345");
    let selected = state.selected_range();
    state.replace_all("9876543", &window, &mut cx);
    assert_eq!(state.value(), "9,876,543");
    state.undo(&window, &mut cx);
    assert_eq!(state.value(), "12,345");
    state.undo(&window, &mut cx);
    assert_eq!(state.value(), "1,234");
    state.redo(&window, &mut cx);
    assert_eq!(state.value(), "12,345");
    assert_eq!(state.selected_range(), selected);
    state.redo(&window, &mut cx);
    assert_eq!(state.value(), "9,876,543");
}

#[test]
fn textareas_take_numbers_in_ascii() {
    let (window, mut cx) = setup();
    let mut state = textarea("");
    state.set_mask_pattern(
        MaskPattern::Number {
            separator: Some(','),
            fraction: None,
        },
        &mut cx,
    );
    state.replace_text_in_range(None, "\u{ff11}\n\u{ff12}", &window, &mut cx);
    assert_eq!(state.value(), "1\n2");
    let selected = state.selected_range();
    state.undo(&window, &mut cx);
    assert_eq!(state.value(), "");
    state.redo(&window, &mut cx);
    assert_eq!(state.value(), "1\n2");
    assert_eq!(state.selected_range(), selected);
}

#[test]
fn redo_gives_back_edits_whatever_came_before() {
    let (window, mut cx) = setup();
    let mut state = textarea("one\ntwo");
    state.move_to(3, None, &mut cx);
    state.replace_text_in_range(None, "!", &window, &mut cx);
    state.undo(&window, &mut cx);
    state.insert("?", &window, &mut cx);
    state.backspace(&window, &mut cx);
    state.replace_and_mark_text_in_range(None, "ni", None, &window, &mut cx);
    state.replace_text_in_range(None, "你", &window, &mut cx);
    state.undo(&window, &mut cx);
    state.redo(&window, &mut cx);
    let before = (state.value(), state.selected_range());
    state.replace_text_in_range(Some(0..2), "xyz", &window, &mut cx);
    let after = (state.value(), state.selected_range());
    state.undo(&window, &mut cx);
    assert_eq!((state.value(), state.selected_range()), before);
    state.redo(&window, &mut cx);
    assert_eq!((state.value(), state.selected_range()), after);
}
