use yofi::list_view::scroll_window;
use yofi::mode::{Action, Mode};
use yofi::state::State;

fn dialog(lines: &[&str]) -> State {
    State::new(Mode::dialog(lines.iter().map(|s| s.to_string()).collect()))
}

fn shown_names(state: &State) -> Vec<String> {
    state
        .processed_entries(0, usize::MAX)
        .iter()
        .map(|row| state.entry(row).unwrap().name)
        .collect()
}

#[test]
fn empty_input_shows_all() {
    let mut state = dialog(&["Firefox", "Chromium", "Terminal"]);
    state.process_entries();
    assert_eq!(shown_names(&state), vec!["Firefox", "Chromium", "Terminal"]);
    assert_eq!(state.skip_offset(), 0);
    assert_eq!(state.selected_item(), 0);
}

#[test]
fn narrowing_then_widening() {
    let mut state = dialog(&["Firefox", "Chromium", "Terminal"]);
    state.process_entries();
    state.next_item();
    state.next_item();
    assert_eq!(state.selected_item(), 2);
    state.append_to_input("fi");
    state.process_entries();
    assert_eq!(shown_names(&state), vec!["Firefox"]);
    assert_eq!(state.selected_item(), 0);
    state.clear_input();
    state.process_entries();
    assert_eq!(shown_names(&state), vec!["Firefox", "Chromium", "Terminal"]);
    assert_eq!(state.selected_item(), 0);
}

#[test]
fn navigation_past_window_edge() {
    let mut state = dialog(&["a", "b", "c", "d", "e"]);
    state.process_entries();
    let mut skips = vec![];
    let w = scroll_window(2, state.selected_item(), state.skip_offset());
    state.update_skip_offset(w.skip_offset);
    skips.push(state.skip_offset());
    for _ in 0..4 {
        state.next_item();
        let w = scroll_window(2, state.selected_item(), state.skip_offset());
        state.update_skip_offset(w.skip_offset);
        skips.push(state.skip_offset());
    }
    assert_eq!(skips, vec![0, 0, 1, 2, 3]);
    assert_eq!(state.selected_item(), 4);
}

#[test]
fn selection_clamped_after_filter() {
    let mut state = dialog(&["one", "two", "three"]);
    state.process_entries();
    state.next_item();
    state.next_item();
    state.next_item();
    assert_eq!(state.selected_item(), 2);
    state.append_to_input("zzz");
    state.process_entries();
    assert_eq!(state.filtered_lines().len(), 0);
    assert_eq!(state.selected_item(), 0);
    state.next_item();
    assert_eq!(state.selected_item(), 0);
    state.prev_item();
    assert_eq!(state.selected_item(), 0);
}

#[test]
fn input_editing() {
    let mut state = dialog(&["x"]);
    state.append_to_input("foo bar");
    assert_eq!(state.raw_input(), "foo bar");
    state.remove_input_char();
    assert_eq!(state.raw_input(), "foo ba");
    state.remove_input_word();
    assert_eq!(state.raw_input(), "foo ");
    state.append_to_input("baz  ");
    state.remove_input_word();
    assert_eq!(state.raw_input(), "foo ");
    state.remove_input_word();
    assert_eq!(state.raw_input(), "");
    state.remove_input_char();
    assert_eq!(state.raw_input(), "");
    state.append_to_input("abc");
    state.clear_input();
    assert_eq!(state.raw_input(), "");
}

#[test]
fn dialog_eval_returns_line_or_input() {
    let mut state = dialog(&["alpha", "beta"]);
    state.process_entries();
    state.next_item();
    assert_eq!(state.eval_input(), Ok(Action::Print("beta".to_string())));
    state.append_to_input("zz!!x");
    state.process_entries();
    assert_eq!(state.eval_input(), Ok(Action::Print("zz!!x".to_string())));
}

#[test]
fn dialog_has_no_subitems() {
    let mut state = dialog(&["alpha"]);
    state.process_entries();
    assert!(!state.has_subitems());
    state.next_subitem();
    assert_eq!(state.selected_subitem(), 0);
    state.prev_subitem();
    assert_eq!(state.selected_subitem(), 0);
}
