use textkit::actions::Enter;
use textkit::context::{Context, Window};
use textkit::kind::{InputMode, TextareaMode};
use textkit::mask_pattern::MaskPattern;
use textkit::state::InputBaseState;

type InputState = InputBaseState<InputMode>;
type TextareaState = InputBaseState<TextareaMode>;

fn setup() -> (Window, Context) {
    (Window::new(), Context::new())
}

fn input() -> InputState {
    InputState::new()
}

fn textarea() -> TextareaState {
    TextareaState::new()
}

const ENTER: Enter = Enter {
    secondary: false,
    shift: false,
};

#[test]
fn test_number_input_undo_with_mask() {
    let (window, mut cx) = setup();
    let mut state = input().mask_pattern(MaskPattern::Number {
        separator: Some(','),
        fraction: None,
    });
    state.replace_text_in_range(None, "1234", &window, &mut cx);
    assert_eq!(state.value(), "1,234");
    state.replace_text_in_range(None, "5", &window, &mut cx);
    assert_eq!(state.value(), "12,345");

    state.undo(&window, &mut cx);
    assert_eq!(state.value(), "1,234");
    state.undo(&window, &mut cx);
    assert_eq!(state.value(), "");
    state.redo(&window, &mut cx);
    assert_eq!(state.value(), "1,234");
    state.redo(&window, &mut cx);
    assert_eq!(state.value(), "12,345");
}

#[test]
fn test_undo_manager_coalesces_adjacent_typing_transactions() {
    let (window, mut cx) = setup();
    let mut state = input();
    state.replace_text_in_range(None, "a", &window, &mut cx);
    state.replace_text_in_range(None, "b", &window, &mut cx);
    assert_eq!(state.value(), "ab");

    state.undo(&window, &mut cx);
    assert_eq!(state.value(), "");
}

#[test]
fn test_undo_manager_cursor_movement_splits_typing() {
    let (window, mut cx) = setup();
    let mut state = input();
    state.replace_text_in_range(None, "a", &window, &mut cx);
    state.replace_text_in_range(None, "b", &window, &mut cx);
    state.left(&mut cx);
    state.replace_text_in_range(None, "x", &window, &mut cx);
    assert_eq!(state.value(), "axb");

    state.undo(&window, &mut cx);
    assert_eq!(state.value(), "ab");
    state.undo(&window, &mut cx);
    assert_eq!(state.value(), "");
}

#[test]
fn test_undo_manager_splits_backward_and_forward_delete() {
    let (window, mut cx) = setup();
    let mut state = input();
    state.set_value("abcd", &window, &mut cx);
    state.set_selected_range(2..2, &mut cx);
    state.backspace(&window, &mut cx);
    state.delete(&window, &mut cx);
    assert_eq!(state.value(), "ad");

    state.undo(&window, &mut cx);
    assert_eq!(state.value(), "acd");
    state.undo(&window, &mut cx);
    assert_eq!(state.value(), "abcd");
}

#[test]
fn test_undo_manager_coalesces_directional_character_deletes() {
    let (window, mut cx) = setup();
    let mut state = input();
    state.set_value("abcd", &window, &mut cx);
    state.backspace(&window, &mut cx);
    state.backspace(&window, &mut cx);
    assert_eq!(state.value(), "ab");
    state.undo(&window, &mut cx);
    assert_eq!(state.value(), "abcd");
    assert_eq!(state.selected_range(), 4..4);

    state.set_value("abcd", &window, &mut cx);
    state.set_selected_range(1..1, &mut cx);
    state.delete(&window, &mut cx);
    state.delete(&window, &mut cx);
    assert_eq!(state.value(), "ad");
    state.undo(&window, &mut cx);
    assert_eq!(state.value(), "abcd");
    assert_eq!(state.selected_range(), 1..1);
}

#[test]
fn test_undo_manager_atomic_paste_isolated_from_typing() {
    let (window, mut cx) = setup();
    let mut state = input();
    cx.write_to_clipboard("P".to_string());
    state.replace_text_in_range(None, "a", &window, &mut cx);
    state.paste(&window, &mut cx);
    state.replace_text_in_range(None, "b", &window, &mut cx);
    assert_eq!(state.value(), "aPb");

    state.undo(&window, &mut cx);
    assert_eq!(state.value(), "aP");
    state.undo(&window, &mut cx);
    assert_eq!(state.value(), "a");
    state.undo(&window, &mut cx);
    assert_eq!(state.value(), "");
}

#[test]
fn test_undo_manager_programmatic_insert_is_atomic() {
    let (window, mut cx) = setup();
    let mut state = input();
    state.replace_text_in_range(None, "a", &window, &mut cx);
    state.insert("P", &window, &mut cx);
    state.replace_text_in_range(None, "b", &window, &mut cx);
    assert_eq!(state.value(), "aPb");

    state.undo(&window, &mut cx);
    assert_eq!(state.value(), "aP");
    state.undo(&window, &mut cx);
    assert_eq!(state.value(), "a");
}

#[test]
fn test_undo_manager_selection_round_trip_splits_typing() {
    let (window, mut cx) = setup();
    let mut state = input();
    state.replace_text_in_range(None, "a", &window, &mut cx);
    state.replace_text_in_range(None, "b", &window, &mut cx);
    state.select_all(&mut cx);
    state.unselect(&mut cx);
    state.replace_text_in_range(None, "c", &window, &mut cx);

    state.undo(&window, &mut cx);
    assert_eq!(state.value(), "ab");
    state.undo(&window, &mut cx);
    assert_eq!(state.value(), "");
}

#[test]
fn test_undo_manager_enter_is_atomic() {
    let (window, mut cx) = setup();
    let mut state = textarea();
    state.replace_text_in_range(None, "a", &window, &mut cx);
    state.enter(&ENTER, &window, &mut cx);
    state.replace_text_in_range(None, "b", &window, &mut cx);

    state.undo(&window, &mut cx);
    assert_eq!(state.value(), "a\n");
    state.undo(&window, &mut cx);
    assert_eq!(state.value(), "a");
    state.undo(&window, &mut cx);
    assert_eq!(state.value(), "");
}

#[test]
fn test_undo_manager_single_line_return_commits_the_typing_session() {
    let (window, mut cx) = setup();
    let mut state = input();
    for part in ["a", "b", "c"] {
        state.replace_text_in_range(None, part, &window, &mut cx);
    }
    state.enter(&ENTER, &window, &mut cx);
    for part in ["d", "e", "f"] {
        state.replace_text_in_range(None, part, &window, &mut cx);
    }
    assert_eq!(state.value(), "abcdef");

    state.undo(&window, &mut cx);
    assert_eq!(state.value(), "abc");
    state.undo(&window, &mut cx);
    assert_eq!(state.value(), "");
}

#[test]
fn test_undo_manager_submit_on_enter_commits_the_textarea_session() {
    let (window, mut cx) = setup();
    let mut state = textarea().submit_on_enter(true);
    state.replace_text_in_range(None, "before submit", &window, &mut cx);
    state.enter(&ENTER, &window, &mut cx);
    state.replace_text_in_range(None, " after submit", &window, &mut cx);
    assert_eq!(state.value(), "before submit after submit");

    state.undo(&window, &mut cx);
    assert_eq!(state.value(), "before submit");
    state.undo(&window, &mut cx);
    assert_eq!(state.value(), "");
}

#[test]
fn test_undo_manager_blur_commits_the_typing_session() {
    let (window, mut cx) = setup();
    let mut state = input();
    state.replace_text_in_range(None, "before blur", &window, &mut cx);
    state.on_blur(&window, &mut cx);
    state.on_focus(&mut cx);
    state.replace_text_in_range(None, " after focus", &window, &mut cx);
    assert_eq!(state.value(), "before blur after focus");

    state.undo(&window, &mut cx);
    assert_eq!(state.value(), "before blur");
    state.undo(&window, &mut cx);
    assert_eq!(state.value(), "");
}

#[test]
fn test_undo_manager_keeps_rapid_lines_in_distinct_transactions() {
    let (window, mut cx) = setup();
    let mut state = textarea();
    state.replace_text_in_range(None, "a", &window, &mut cx);
    state.enter(&ENTER, &window, &mut cx);
    state.replace_text_in_range(None, "b", &window, &mut cx);
    state.enter(&ENTER, &window, &mut cx);
    state.replace_text_in_range(None, "c", &window, &mut cx);
    assert_eq!(state.value(), "a\nb\nc");

    for expected in ["a\nb\n", "a\nb", "a\n", "a", ""] {
        state.undo(&window, &mut cx);
        assert_eq!(state.value(), expected);
    }
}

#[test]
fn test_undo_manager_coalesces_long_unicode_typing_without_a_timer() {
    let (window, mut cx) = setup();
    let mut state = textarea();
    let parts = [
        "The ",
        "quick ",
        "brown fox, ",
        "你好，世界 ",
        "🦀 jumps over 13 lazy dogs.",
    ];
    let expected = parts.concat();
    for part in parts {
        state.replace_text_in_range(None, part, &window, &mut cx);
    }
    assert_eq!(state.value(), expected);

    state.undo(&window, &mut cx);
    assert_eq!(state.value(), "");
    state.redo(&window, &mut cx);
    assert_eq!(state.value(), expected);
}

#[test]
fn test_undo_manager_long_multiline_sequence_has_structural_boundaries() {
    let (window, mut cx) = setup();
    let mut state = textarea();
    for (index, line) in [
        "first line with punctuation!",
        "第二行包含 Unicode 🦀",
        "third line has several words",
    ]
    .into_iter()
    .enumerate()
    {
        for chunk in line.split_inclusive(' ') {
            state.replace_text_in_range(None, chunk, &window, &mut cx);
        }
        if index < 2 {
            state.enter(&ENTER, &window, &mut cx);
        }
    }

    assert_eq!(
        state.value(),
        "first line with punctuation!\n第二行包含 Unicode 🦀\nthird line has several words"
    );
    state.undo(&window, &mut cx);
    assert_eq!(
        state.value(),
        "first line with punctuation!\n第二行包含 Unicode 🦀\n"
    );
    state.undo(&window, &mut cx);
    assert_eq!(
        state.value(),
        "first line with punctuation!\n第二行包含 Unicode 🦀"
    );
    state.undo(&window, &mut cx);
    assert_eq!(state.value(), "first line with punctuation!\n");
}

#[test]
fn test_undo_manager_cut_and_repeated_pastes_are_distinct_transactions() {
    let (window, mut cx) = setup();
    let mut state = input();
    state.replace_text_in_range(None, "alpha beta gamma", &window, &mut cx);
    state.set_selected_range(6..10, &mut cx);
    state.cut(&window, &mut cx);
    assert_eq!(state.value(), "alpha  gamma");

    state.paste(&window, &mut cx);
    state.paste(&window, &mut cx);
    assert_eq!(state.value(), "alpha betabeta gamma");

    state.undo(&window, &mut cx);
    assert_eq!(state.value(), "alpha beta gamma");
    state.undo(&window, &mut cx);
    assert_eq!(state.value(), "alpha  gamma");
    state.undo(&window, &mut cx);
    assert_eq!(state.value(), "alpha beta gamma");
}

#[test]
fn test_undo_manager_word_and_line_deletes_do_not_coalesce() {
    let (window, mut cx) = setup();
    let mut state = textarea();
    state.set_value("one two three\nfour five", &window, &mut cx);
    state.set_selected_range(13..13, &mut cx);
    state.delete_previous_word(&window, &mut cx);
    assert_eq!(state.value(), "one two \nfour five");
    state.delete_to_end_of_line(&window, &mut cx);
    assert_eq!(state.value(), "one two four five");

    state.undo(&window, &mut cx);
    assert_eq!(state.value(), "one two \nfour five");
    state.undo(&window, &mut cx);
    assert_eq!(state.value(), "one two three\nfour five");
}

#[test]
fn test_undo_manager_multiline_replacement_is_one_atomic_transaction() {
    let (window, mut cx) = setup();
    let mut state = textarea();
    state.replace_text_in_range(None, "before", &window, &mut cx);
    state.set_selected_range(0..6, &mut cx);
    state.replace_text_in_range(None, "line one\nline two\n第三行", &window, &mut cx);
    assert_eq!(state.value(), "line one\nline two\n第三行");

    state.undo(&window, &mut cx);
    assert_eq!(state.value(), "before");
    assert_eq!(state.selected_range(), 0..6);
    state.redo(&window, &mut cx);
    assert_eq!(state.value(), "line one\nline two\n第三行");
}

#[test]
fn test_undo_manager_composition_isolated_from_long_typing() {
    let (window, mut cx) = setup();
    let mut state = input();
    state.replace_text_in_range(None, "prefix ", &window, &mut cx);
    state.replace_and_mark_text_in_range(None, "n", None, &window, &mut cx);
    state.replace_and_mark_text_in_range(None, "ni", None, &window, &mut cx);
    state.replace_and_mark_text_in_range(None, "你", None, &window, &mut cx);
    state.unmark_text();
    state.replace_text_in_range(None, " suffix", &window, &mut cx);
    assert_eq!(state.value(), "prefix 你 suffix");

    state.undo(&window, &mut cx);
    assert_eq!(state.value(), "prefix 你");
    state.undo(&window, &mut cx);
    assert_eq!(state.value(), "prefix ");
    state.undo(&window, &mut cx);
    assert_eq!(state.value(), "");
}

#[test]
fn test_undo_manager_selected_replacement_is_atomic() {
    let (window, mut cx) = setup();
    let mut state = input();
    state.replace_text_in_range(None, "abc", &window, &mut cx);
    state.set_selected_range(1..2, &mut cx);
    state.replace_text_in_range(None, "X", &window, &mut cx);
    state.replace_text_in_range(None, "z", &window, &mut cx);
    assert_eq!(state.value(), "aXzc");

    state.undo(&window, &mut cx);
    assert_eq!(state.value(), "aXc");
    state.undo(&window, &mut cx);
    assert_eq!(state.value(), "abc");
    state.undo(&window, &mut cx);
    assert_eq!(state.value(), "");
}

#[test]
fn test_replace_all_preserves_undo_history() {
    let (window, mut cx) = setup();
    let mut state = input();
    state.set_value("first", &window, &mut cx);
    assert!(
        !state.undo_manager.has_undos(),
        "history should be empty after set_value"
    );

    state.replace_all("second", &window, &mut cx);
    assert_eq!(state.value(), "second");
    assert!(
        state.undo_manager.has_undos(),
        "replace_all should record an undo step"
    );

    state.undo(&window, &mut cx);
    assert_eq!(state.value(), "first");
    state.redo(&window, &mut cx);
    assert_eq!(state.value(), "second");
}

#[test]
fn test_undo_manager_composition_is_one_undo_group() {
    let (window, mut cx) = setup();
    let mut state = input();
    state.set_value("a", &window, &mut cx);
    state.replace_and_mark_text_in_range(None, "s", None, &window, &mut cx);
    state.replace_and_mark_text_in_range(None, "sh", None, &window, &mut cx);
    state.replace_text_in_range(None, "是", &window, &mut cx);
    assert_eq!(state.value(), "a是");

    state.undo(&window, &mut cx);
    assert_eq!(state.value(), "a");
    state.redo(&window, &mut cx);
    assert_eq!(state.value(), "a是");
}

#[test]
fn test_undo_manager_composition_cancel_leaves_no_entry() {
    let (window, mut cx) = setup();
    let mut state = input();
    state.set_value("a", &window, &mut cx);
    state.replace_and_mark_text_in_range(None, "s", None, &window, &mut cx);
    state.replace_and_mark_text_in_range(None, "", None, &window, &mut cx);

    assert_eq!(state.value(), "a");
    assert!(!state.undo_manager.has_undos());
}

#[test]
fn test_undo_manager_selection_restored_by_undo_and_redo() {
    let (window, mut cx) = setup();
    let mut state = input();
    state.set_value("abc", &window, &mut cx);
    state.set_selected_range(1..2, &mut cx);
    state.replace_text_in_range(None, "X", &window, &mut cx);

    state.undo(&window, &mut cx);
    assert_eq!(state.value(), "abc");
    assert_eq!(state.selected_range(), 1..2);

    state.redo(&window, &mut cx);
    assert_eq!(state.value(), "aXc");
    assert_eq!(state.selected_range(), 2..2);
}

#[test]
fn test_undo_manager_forward_delete_restores_cursor() {
    let (window, mut cx) = setup();
    let mut state = input();
    state.set_value("abc", &window, &mut cx);
    state.set_selected_range(1..1, &mut cx);
    state.delete(&window, &mut cx);

    state.undo(&window, &mut cx);
    assert_eq!(state.value(), "abc");
    assert_eq!(state.selected_range(), 1..1);
}

#[test]
fn test_undo_manager_selection_movement_preserves_redo() {
    let (window, mut cx) = setup();
    let mut state = input();
    state.replace_text_in_range(None, "ab", &window, &mut cx);
    state.undo(&window, &mut cx);
    state.set_selected_range(0..0, &mut cx);
    state.redo(&window, &mut cx);
    assert_eq!(state.value(), "ab");

    state.undo(&window, &mut cx);
    state.replace_text_in_range(None, "x", &window, &mut cx);
    state.redo(&window, &mut cx);
    assert_eq!(state.value(), "x");
}

#[test]
fn test_undo_manager_noop_edit_preserves_redo() {
    let (window, mut cx) = setup();
    let mut state = input();
    state.replace_text_in_range(None, "a", &window, &mut cx);
    state.undo(&window, &mut cx);
    state.backspace(&window, &mut cx);
    state.redo(&window, &mut cx);
    assert_eq!(state.value(), "a");
}

#[test]
fn test_undo_manager_noop_edit_breaks_coalescing_without_clearing_history() {
    let (window, mut cx) = setup();
    let mut state = input();
    state.replace_text_in_range(None, "alpha", &window, &mut cx);
    state.replace_text_in_range(None, "", &window, &mut cx);
    state.replace_text_in_range(None, "beta", &window, &mut cx);
    assert_eq!(state.value(), "alphabeta");

    state.undo(&window, &mut cx);
    assert_eq!(state.value(), "alpha");
    state.undo(&window, &mut cx);
    assert_eq!(state.value(), "");
}

#[test]
fn test_undo_manager_masked_redo_restores_actual_cursor() {
    let (window, mut cx) = setup();
    let mut state = input().mask_pattern(MaskPattern::Number {
        separator: Some(','),
        fraction: None,
    });
    state.set_value("12345", &window, &mut cx);
    state.set_selected_range(2..2, &mut cx);
    state.replace_text_in_range(None, "9", &window, &mut cx);
    let selection_after_edit = state.selected_range();
    assert_ne!(selection_after_edit.end, state.value().len());

    state.undo(&window, &mut cx);
    state.redo(&window, &mut cx);
    assert_eq!(state.selected_range(), selection_after_edit);
}

#[test]
fn undo_of_nothing_changes_nothing() {
    let (window, mut cx) = setup();
    let mut state = input();
    state.undo(&window, &mut cx);
    state.redo(&window, &mut cx);
    assert_eq!(state.value(), "");
    assert!(!state.undo_manager.has_undos());
    assert!(!state.undo_manager.is_ignoring());
}
