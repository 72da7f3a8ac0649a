use textkit::context::{Context, Effect, InputEvent, PixelPoint, Window};
use textkit::kind::{EditorMode, InputMode, TextareaMode};
use textkit::mask_pattern::MaskPattern;
use textkit::selection::Selection;
use textkit::state::{InputBaseState, Number};

type InputState = InputBaseState<InputMode>;
type TextareaState = InputBaseState<TextareaMode>;
type EditorState = InputBaseState<EditorMode>;

const ORIGIN: PixelPoint = PixelPoint { x: 0, y: 0 };

fn setup() -> (Window, Context) {
    (Window::new(), Context::new())
}

fn input() -> InputState {
    InputState::new()
}

fn editor() -> EditorState {
    EditorState::new().language("sql")
}

fn number(separator: Option<char>, fraction: Option<usize>) -> InputState {
    input().mask_pattern(MaskPattern::Number {
        separator,
        fraction,
    })
}

fn num(value: f64) -> Number {
    Number {
        bits: value.to_bits(),
    }
}

/// Brings the value into its bounds, as is done when the input loses the focus.
fn clamp_number_value(state: &mut InputState, window: &Window, cx: &mut Context) {
    let Some(text) = state.number_to_clamp() else {
        return;
    };
    let Ok(value) = text.parse::<f64>() else {
        return;
    };
    let min = state.options.number_min.map(|n| f64::from_bits(n.bits));
    let max = state.options.number_max.map(|n| f64::from_bits(n.bits));
    let clamped = match (min, max) {
        (Some(min), _) if value < min => min,
        (_, Some(max)) if value > max => max,
        _ => return,
    };
    state.apply_clamped_number(&clamped.to_string(), window, cx);
}

#[test]
fn context_menu_handler_is_deferred_and_respects_disabled() {
    let (window, mut cx) = setup();
    let mut state = editor();
    let shown = |cx: &Context| {
        cx.effects
            .iter()
            .filter(|e| matches!(e, Effect::ShowContextMenu { .. }))
            .count()
    };
    state.on_context_menu();
    state.handle_right_click_menu(ORIGIN, 0, &window, &mut cx);
    assert_eq!(shown(&cx), 1);

    state.set_disabled(true, &mut cx);
    state.handle_right_click_menu(ORIGIN, 0, &window, &mut cx);
    assert_eq!(shown(&cx), 1);
}

#[test]
fn test_readonly_rejects_user_edits_only() {
    let (window, mut cx) = setup();
    let mut state = editor();
    state.set_value("hello", &window, &mut cx);
    state.set_readonly(true, &mut cx);
    assert!(!state.is_editable());
    assert!(!state.is_replaceable());

    state.replace_text_in_range(None, " world", &window, &mut cx);
    state.replace_and_mark_text_in_range(None, "あ", None, &window, &mut cx);
    assert_eq!(state.value(), "hello");

    state.insert(" world", &window, &mut cx);
    state.set_value("changed", &window, &mut cx);
    assert_eq!(state.value(), "changed");

    state.set_readonly(false, &mut cx);
    state.replace_text_in_range(None, "!", &window, &mut cx);
    assert!(state.is_editable());
    assert_eq!(state.value(), "!changed");
}

#[test]
fn test_number_input_normalization() {
    let (window, mut cx) = setup();
    let mut state = number(None, None);
    state.replace_text_in_range(None, "12。5", &window, &mut cx);
    assert_eq!(state.value(), "12.5");
    assert_eq!(state.selected_range(), 4..4);

    state.replace_text_in_range(None, "abc", &window, &mut cx);
    assert_eq!(state.value(), "12.5");

    let range = state.range_to_utf16(&(0..state.text.len()));
    state.replace_text_in_range(Some(range), "。", &window, &mut cx);
    assert_eq!(state.value(), ".");
    assert_eq!(state.selected_range(), 1..1);
}

#[test]
fn test_number_input_normalization_with_separator() {
    let (window, mut cx) = setup();
    let mut state = number(Some(','), Some(2));
    state.replace_text_in_range(None, "1234", &window, &mut cx);
    assert_eq!(state.value(), "1,234");
    assert_eq!(state.unmask_value(), "1234");
}

#[test]
fn test_number_input_clamp_on_blur() {
    let (window, mut cx) = setup();
    let mut state = number(None, None).min(num(10.)).max(num(100.));
    state.replace_text_in_range(None, "1000", &window, &mut cx);
    assert_eq!(state.value(), "1000");
    clamp_number_value(&mut state, &window, &mut cx);
    assert_eq!(state.value(), "100");

    let range = state.range_to_utf16(&(0..state.text.len()));
    state.replace_text_in_range(Some(range), "1", &window, &mut cx);
    assert_eq!(state.value(), "1");
    clamp_number_value(&mut state, &window, &mut cx);
    assert_eq!(state.value(), "10");

    cx.effects.clear();
    state.on_blur(&window, &mut cx);
    assert!(cx.effects.contains(&Effect::ClampNumber));
}

#[test]
fn test_number_input_leading_dot_editable() {
    let (window, mut cx) = setup();
    let mut state = number(None, None);
    state.replace_text_in_range(None, "1.2", &window, &mut cx);

    let range = state.range_to_utf16(&(0..1));
    state.replace_text_in_range(Some(range), "", &window, &mut cx);
    assert_eq!(state.value(), ".2");
    assert_eq!(state.selected_range(), 0..0);

    state.replace_text_in_range(Some(0..0), "3", &window, &mut cx);
    assert_eq!(state.value(), "3.2");
}

#[test]
fn test_number_input_escape_invalid_text() {
    let (window, mut cx) = setup();
    let mut state = number(None, None).default_value("1,234");
    let range = state.range_to_utf16(&(4..5));
    state.replace_text_in_range(Some(range), "", &window, &mut cx);
    assert_eq!(state.value(), "1,23");

    let range = state.range_to_utf16(&(1..2));
    state.replace_text_in_range(Some(range), "", &window, &mut cx);
    assert_eq!(state.value(), "123");
    state.replace_text_in_range(None, "a", &window, &mut cx);
    assert_eq!(state.value(), "123");
}

#[test]
fn test_set_value_single_line_caret_at_end_view_at_start() {
    let (window, mut cx) = setup();
    let mut state = input();
    let value = format!("https://example.com/v1/users?{}", "x=1&".repeat(120));
    let len = value.len();
    state.set_value(&value, &window, &mut cx);
    assert_eq!(
        state.selected_range,
        Selection::new(len, len),
        "single-line caret should be at the end after set_value"
    );
    assert_eq!(
        state.session.deferred_scroll_offset,
        Some(ORIGIN),
        "the view should be forced back to the start"
    );
}

#[test]
fn test_replace_all_single_line() {
    let (window, mut cx) = setup();
    let mut state = input();
    let value = format!("https://example.com/v1/users?{}", "x=1&".repeat(120));
    let len = value.len();
    state.set_value("hello", &window, &mut cx);
    state.replace_all(&value, &window, &mut cx);
    assert_eq!(state.value(), value);
    assert_eq!(
        state.selected_range,
        Selection::new(len, len),
        "single-line caret should be at the end after replace_all"
    );
    assert_eq!(
        state.scroll_offset(),
        ORIGIN,
        "the scroll offset should be reset to the start"
    );
    assert_eq!(
        state.session.deferred_scroll_offset,
        Some(ORIGIN),
        "single-line should set a deferred scroll offset to keep the start visible"
    );
}

#[test]
fn test_single_line_removes_newlines() {
    let (window, mut cx) = setup();
    let mut state = input().default_value("default\nvalue");
    assert_eq!(state.value(), "defaultvalue");

    state.set_value("first\nsecond\r\nthird\rfourth", &window, &mut cx);
    assert_eq!(state.value(), "firstsecondthirdfourth");

    state.set_value("", &window, &mut cx);
    state.insert("a\nb", &window, &mut cx);
    assert_eq!(state.value(), "ab");

    cx.write_to_clipboard("a\r\nb\nc\rd".to_string());
    state.set_value("", &window, &mut cx);
    state.paste(&window, &mut cx);
    assert_eq!(state.value(), "abcd");
}

#[test]
fn test_replace_all_multi_line() {
    let (window, mut cx) = setup();
    let mut state = TextareaState::new();
    state.set_value("foo\nbar", &window, &mut cx);
    state.replace_all("baz\nqux", &window, &mut cx);
    assert_eq!(state.value(), "baz\nqux");
    assert_eq!(
        state.selected_range,
        Selection::new(0, 0),
        "multi-line selection should be cleared after replace_all"
    );
    assert_eq!(
        state.scroll_offset(),
        ORIGIN,
        "the scroll offset should be reset to the start"
    );
    assert!(
        state.session.deferred_scroll_offset.is_none(),
        "multi-line should not set a deferred scroll offset"
    );
}

#[test]
fn test_replace_all_code_editor() {
    let (window, mut cx) = setup();
    let mut state = editor();
    state.set_value("select 1", &window, &mut cx);
    state.session.pending_update = false;

    state.replace_all("select 2", &window, &mut cx);
    assert_eq!(state.value(), "select 2");
    assert!(
        state.session.pending_update,
        "replace_all on a code editor should request a pending update"
    );
    cx.effects.clear();
    state.before_render(&mut cx);
    assert_eq!(cx.effects, vec![Effect::Highlight]);
    assert!(!state.session.pending_update);
}

#[test]
fn test_set_selected_range() {
    let (_, mut cx) = setup();
    let mut s = input().default_value("hello world");
    s.set_selected_range(0..5, &mut cx);
    assert_eq!(s.selected_range(), 0..5);
    assert_eq!(s.selected_text(), "hello");

    s.set_selected_range(6..11, &mut cx);
    assert_eq!(s.selected_text(), "world");

    s.set_selected_range(100..100, &mut cx);
    assert_eq!(s.selected_range(), 11..11);
}

#[test]
fn test_set_selected_range_clips_to_utf8_boundaries() {
    let (_, mut cx) = setup();
    let mut state = input().default_value("éx");
    state.set_selected_range(0..1, &mut cx);
    assert_eq!(state.selected_range(), 0..2);
    state.copy(&mut cx);
    assert_eq!(cx.clipboard.as_deref(), Some("é"));

    state.set_selected_range(1..1, &mut cx);
    assert_eq!(state.selected_range(), 0..0);
}

#[test]
fn test_ime_selection_is_relative_to_replacement_start() {
    let (window, mut cx) = setup();
    let mut state = input().default_value("你好 ");
    state.set_selected_range(7..7, &mut cx);
    state.replace_and_mark_text_in_range(None, "s", Some(1..1), &window, &mut cx);
    state.replace_and_mark_text_in_range(None, "sh", Some(2..2), &window, &mut cx);

    assert_eq!(state.value(), "你好 sh");
    assert_eq!(state.selected_range(), 9..9);
    assert_eq!(state.ime_marked_range, Some(Selection::new(7, 9)));
}

#[test]
fn test_ime_bounds_use_marked_range_for_stale_native_range() {
    let (window, mut cx) = setup();
    let mut state = input().default_value("你好");
    state.set_selected_range(6..6, &mut cx);
    state.replace_and_mark_text_in_range(None, "s", Some(1..1), &window, &mut cx);
    assert_eq!(state.candidate_range(0..0), 6..6);
    state.unmark_text();
    assert_eq!(state.candidate_range(0..1), 0..3);
}

/// What an application shows of an editor besides its text.
struct Shown {
    hover: Option<(std::ops::Range<usize>, &'static str)>,
    decorations: Vec<std::ops::Range<usize>>,
}

impl Shown {
    fn carry_out(&mut self, effects: &[Effect]) {
        for effect in effects {
            match effect {
                Effect::ClearHover => self.hover = None,
                Effect::ResetLanguageFeatures | Effect::TextChanged { masked: true, .. } => {
                    self.hover = None;
                    self.decorations.clear();
                }
                _ => {}
            }
        }
    }
}

#[test]
fn test_blur_keeps_decorations() {
    let (window, mut cx) = setup();
    let mut state = editor();
    state.set_value("select 1", &window, &mut cx);
    cx.effects.clear();
    let mut shown = Shown {
        hover: Some((0..6, "docs")),
        decorations: vec![0..6],
    };
    assert!(shown.hover.is_some());
    state.on_blur(&window, &mut cx);
    shown.carry_out(&cx.effects);
    assert!(shown.hover.is_none(), "blur should hide the hover popover");
    assert!(
        shown.decorations.iter().any(|layer| !layer.is_empty()),
        "blur must not discard decorations"
    );
    assert_eq!(state.value(), "select 1");
    assert_eq!(
        cx.effects,
        vec![
            Effect::ClearHover,
            Effect::ClearInlineCompletion,
            Effect::StopBlink,
            Effect::Emit(InputEvent::Blur),
            Effect::Notify,
        ]
    );
}

#[test]
fn test_kind_does_not_follow_the_row_count() {
    let state = TextareaState::new().auto_grow(1, 1);
    assert!(state.is_multi_line());
    assert!(!state.is_single_line());
    assert!(!state.is_code_editor());
}

#[test]
fn test_soft_wrap_is_enabled_by_default() {
    assert!(TextareaState::new().options.soft_wrap);
    assert!(editor().options.soft_wrap);
}
