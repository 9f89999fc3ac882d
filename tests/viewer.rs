use tailor::lines::LinesState;
use tailor::panels::{AboutWindow, SessionSettingsPanel};
use tailor::ranges::fill_empty_ranges;
use tailor::recents::RecentsBox;
use tailor::severity::{get_message_type, MessageType};

fn strings(v: &[&str]) -> Vec<String> {
    v.iter().map(|s| s.to_string()).collect()
}

#[test]
fn message_types() {
    assert_eq!(get_message_type(&String::from("a DEBUG line")), MessageType::Debug);
    assert_eq!(get_message_type(&String::from("some debug")), MessageType::Debug);
    assert_eq!(get_message_type(&String::from("WARN: disk")), MessageType::Warning);
    assert_eq!(get_message_type(&String::from("a warning")), MessageType::Warning);
    assert_eq!(get_message_type(&String::from("ERR 5")), MessageType::Error);
    assert_eq!(get_message_type(&String::from("Error here")), MessageType::Error);
    assert_eq!(get_message_type(&String::from("DEBUG and ERROR")), MessageType::Debug);
    assert_eq!(get_message_type(&String::from("all fine")), MessageType::Normal);
    assert_eq!(get_message_type(&String::from("")), MessageType::Normal);
}

#[test]
fn single_selection_toggles() {
    let mut state = LinesState::new();
    state.add_lines(strings(&["a", "b", "c"]));
    state.toggle_single_line_selection(1);
    assert_eq!(state.is_selected(1), true);
    state.toggle_single_line_selection(2);
    assert_eq!(state.is_selected(1), false);
    assert_eq!(state.is_selected(2), true);
    state.toggle_single_line_selection(2);
    assert_eq!(state.is_selected(2), false);
    state.toggle_add_selection(0);
    state.toggle_add_selection(1);
    state.toggle_single_line_selection(1);
    assert_eq!(state.is_selected(0), false);
    assert_eq!(state.is_selected(1), true);
}

#[test]
fn add_selection_flips() {
    let mut state = LinesState::new();
    state.toggle_add_selection(4);
    state.toggle_add_selection(2);
    assert_eq!(state.is_selected(4), true);
    assert_eq!(state.is_selected(2), true);
    state.toggle_add_selection(4);
    assert_eq!(state.is_selected(4), false);
    assert_eq!(state.is_selected(2), true);
}

#[test]
fn range_selection() {
    let mut state = LinesState::new();
    state.toggle_add_range_selection(5);
    assert_eq!(state.is_selected(5), true);
    state.toggle_add_range_selection(2);
    for i in 2..=5 {
        assert_eq!(state.is_selected(i), true);
    }
    state.toggle_add_range_selection(8);
    for i in 2..=8 {
        assert_eq!(state.is_selected(i), true);
    }
    assert_eq!(state.is_selected(1), false);
    assert_eq!(state.is_selected(9), false);
    state.toggle_add_range_selection(4);
    assert_eq!(state.is_selected(9), false);
}

#[test]
fn range_selection_to_largest_index() {
    let mut state = LinesState::new();
    state.toggle_add_selection(usize::MAX - 2);
    state.toggle_add_range_selection(usize::MAX);
    assert_eq!(state.is_selected(usize::MAX - 1), true);
    assert_eq!(state.is_selected(usize::MAX), true);
}

#[test]
fn selected_text_in_line_order() {
    let mut state = LinesState::new();
    state.add_lines(strings(&["zero", "one", "two", "three"]));
    state.toggle_add_selection(3);
    state.toggle_add_selection(1);
    assert_eq!(state.get_selected_text(), "one\nthree");
    state.clear_lines();
    assert_eq!(state.get_selected_text(), "");
}

#[test]
fn filtered_lines() {
    let mut state = LinesState::new();
    state.add_lines(strings(&["ERROR x", "ok", "more ERROR"]));
    let all = state.get_filtered_lines(&String::new()).clone();
    assert_eq!(all, vec![(String::from("ERROR x"), 0), (String::from("ok"), 1), (String::from("more ERROR"), 2)]);
    let errors = state.get_filtered_lines(&String::from("ERROR")).clone();
    assert_eq!(errors, vec![(String::from("ERROR x"), 0), (String::from("more ERROR"), 2)]);
    state.add_lines(strings(&["ERROR again"]));
    assert_eq!(state.get_filtered_lines(&String::from("again")), &vec![(String::from("ERROR again"), 3)]);
}

#[test]
fn recents_newest_first() {
    let mut recents = RecentsBox::new(strings(&["/a", "/b", "/c"]));
    assert_eq!(recents.is_dirty(&String::new()), false);
    recents.update_recents(&String::from("/b"));
    assert_eq!(recents.recents(), &strings(&["/b", "/a", "/c"]));
    assert_eq!(recents.get_selected_recent_path(), "/b");
    assert_eq!(recents.is_dirty(&String::from("/b")), false);
    assert_eq!(recents.is_dirty(&String::from("/a")), true);
}

#[test]
fn recents_keep_ten() {
    let names: Vec<String> = (0..10).map(|i| format!("/p{}", i)).collect();
    let mut recents = RecentsBox::new(names.clone());
    recents.update_recents(&String::from("/new"));
    let mut expected = vec![String::from("/new")];
    expected.extend_from_slice(&names[..9]);
    assert_eq!(recents.recents(), &expected);
}

#[test]
fn sections_around_matches() {
    assert_eq!(
        fill_empty_ranges(vec![(2, 4), (6, 7)], 10),
        vec![(0, 2, false), (2, 4, true), (4, 6, false), (6, 7, true), (7, 10, false)]
    );
    assert_eq!(fill_empty_ranges(vec![(0, 3)], 3), vec![(0, 3, true)]);
    assert_eq!(fill_empty_ranges(vec![], 5), vec![(0, 5, false)]);
    assert_eq!(fill_empty_ranges(vec![], 0), vec![]);
}

#[test]
fn panel_toggles() {
    let mut panel = SessionSettingsPanel::default();
    assert_eq!(panel.get_is_visible(), false);
    panel.toggle_is_visible();
    assert_eq!(panel.get_is_visible(), true);
    let mut about = AboutWindow::default();
    about.toggle_is_visible();
    about.toggle_is_visible();
    assert_eq!(about.get_is_visible(), false);
}
