use axfm::bookmarks::Bookmark;
use axfm::settings::{FMSettings, SortColumn, SortOrder};
use axfm::state::{BookmarkError, FmState};

fn s(x: &str) -> String {
    x.to_string()
}

#[test]
fn new_state_starts_with_one_entry() {
    let st = FmState::new(s("/home/u"));
    assert_eq!(st.current_path, "/home/u");
    assert_eq!(st.history, vec![s("/home/u")]);
    assert_eq!(st.history_index, 0);
    assert!(st.on_path_changed.is_empty());
    assert!(st.hovered_file.is_none());
    assert!(st.popup_focused_file.is_none());
    assert!(st.bookmarks.is_empty());
    assert!(!st.settings.show_hidden);
    assert!(st.settings.folders_first);
    assert_eq!(st.settings.sort_column, SortColumn::Name);
    assert_eq!(st.settings.sort_order, SortOrder::Ascending);
}

#[test]
fn navigate_sequence_builds_history() {
    let mut st = FmState::new(s("L0"));
    for l in ["L1", "L2", "L3"] {
        st.navigate(s(l));
    }
    assert_eq!(st.history, vec![s("L0"), s("L1"), s("L2"), s("L3")]);
    assert_eq!(st.history_index, 3);
    assert_eq!(st.current_path, "L3");
}

#[test]
fn navigate_twice_to_same_place_keeps_duplicates() {
    let mut st = FmState::new(s("A"));
    st.navigate(s("B"));
    st.navigate(s("B"));
    assert_eq!(st.history, vec![s("A"), s("B"), s("B")]);
    assert_eq!(st.history_index, 2);
}

#[test]
fn back_then_forward_restores_location() {
    let mut st = FmState::new(s("A"));
    st.navigate(s("B"));
    st.navigate(s("C"));
    let before = st.history.clone();
    assert_eq!(st.go_back_in_history(), Some(s("B")));
    assert_eq!(st.current_path, "B");
    assert_eq!(st.history_index, 1);
    assert_eq!(st.go_forward_in_history(), Some(s("C")));
    assert_eq!(st.current_path, "C");
    assert_eq!(st.history_index, 2);
    assert_eq!(st.history, before);
}

#[test]
fn navigate_after_back_drops_forward_entries() {
    let mut st = FmState::new(s("A"));
    st.navigate(s("B"));
    st.navigate(s("C"));
    assert_eq!(st.history_index, 2);
    assert_eq!(st.go_back_in_history(), Some(s("B")));
    assert_eq!(st.history_index, 1);
    st.navigate(s("D"));
    assert_eq!(st.history, vec![s("A"), s("B"), s("D")]);
    assert_eq!(st.history_index, 2);
    assert_eq!(st.current_path, "D");
    assert_eq!(st.go_forward_in_history(), None);
}

#[test]
fn back_at_oldest_entry_does_nothing() {
    let mut st = FmState::new(s("A"));
    assert_eq!(st.go_back_in_history(), None);
    assert_eq!(st.current_path, "A");
    assert_eq!(st.history, vec![s("A")]);
    assert_eq!(st.history_index, 0);
    st.navigate(s("B"));
    st.go_back_in_history();
    assert_eq!(st.go_back_in_history(), None);
    assert_eq!(st.current_path, "A");
    assert_eq!(st.history_index, 0);
    assert_eq!(st.history, vec![s("A"), s("B")]);
}

#[test]
fn forward_at_newest_entry_does_nothing() {
    let mut st = FmState::new(s("A"));
    st.navigate(s("B"));
    assert_eq!(st.go_forward_in_history(), None);
    assert_eq!(st.current_path, "B");
    assert_eq!(st.history_index, 1);
    assert_eq!(st.history, vec![s("A"), s("B")]);
}

#[test]
fn set_path_leaves_history_alone() {
    let mut st = FmState::new(s("A"));
    let notify = st.set_path(s("Z"));
    assert!(notify.is_empty());
    assert_eq!(st.current_path, "Z");
    assert_eq!(st.history, vec![s("A")]);
    assert_eq!(st.history_index, 0);
}

#[test]
fn update_history_truncates_after_cursor() {
    let mut st = FmState::new(s("A"));
    st.update_history(s("B"));
    st.update_history(s("C"));
    st.history_index = 0;
    st.update_history(s("X"));
    assert_eq!(st.history, vec![s("A"), s("X")]);
    assert_eq!(st.history_index, 1);
}

#[test]
fn observers_notified_in_registration_order() {
    let mut st = FmState::new(s("A"));
    let h0 = st.connect_path_changed();
    let h1 = st.connect_path_changed();
    let h2 = st.connect_path_changed();
    assert_eq!((h0, h1, h2), (0, 1, 2));
    assert_eq!(st.set_path(s("B")), vec![0, 1, 2]);
    assert_eq!(st.navigate(s("C")), vec![0, 1, 2]);
}

#[test]
fn context_menu_follows_hovered_entry() {
    let mut st = FmState::new(s("A"));
    assert_eq!(st.context_menu_target(), None);
    assert!(st.popup_focused_file.is_none());
    st.set_hovered_file(Some(s("/A/f.txt")));
    assert_eq!(st.context_menu_target(), Some(s("/A/f.txt")));
    assert_eq!(st.popup_focused_file, Some(s("/A/f.txt")));
    st.set_popup_focused_file(None);
    st.set_hovered_file(None);
    assert!(st.popup_focused_file.is_none());
    assert!(st.hovered_file.is_none());
}

#[test]
fn settings_defaults_and_toggles() {
    let mut set = FMSettings::new();
    assert!(!set.show_hidden);
    assert!(set.folders_first);
    assert!(set.toggle_show_hidden());
    assert!(set.show_hidden);
    assert!(!set.toggle_folders_first());
    assert!(!set.folders_first);
    assert!(!set.toggle_show_hidden());
}

#[test]
fn remove_bookmark_from_three() {
    let mut st = FmState::new(s("A"));
    st.add_bookmark(Bookmark::new(s("one"), s("/1")));
    st.add_bookmark(Bookmark::new(s("two"), s("/2")));
    st.add_bookmark(Bookmark::new(s("three"), s("/3")));
    let removed = st.remove_bookmark(1);
    match removed {
        Ok(b) => assert_eq!((b.name.as_str(), b.path.as_str()), ("two", "/2")),
        Err(_) => panic!("index 1 is valid"),
    }
    let names: Vec<&str> = st.bookmarks.iter().map(|b| b.name.as_str()).collect();
    assert_eq!(names, vec!["one", "three"]);
    match st.remove_bookmark(2) {
        Err(BookmarkError::IndexOutOfRange { index, len }) => assert_eq!((index, len), (2, 2)),
        Ok(_) => panic!("index 2 is past the end"),
    }
    let names: Vec<&str> = st.bookmarks.iter().map(|b| b.name.as_str()).collect();
    assert_eq!(names, vec!["one", "three"]);
    assert!(st.remove_bookmark(0).is_ok());
    assert!(st.remove_bookmark(0).is_ok());
    assert!(st.remove_bookmark(0).is_err());
}

#[test]
fn recording_without_moving_builds_history() {
    let mut st = FmState::new(s("L0"));
    for l in ["L1", "L2", "L2"] {
        st.set_path(s(l));
        st.update_history(s(l));
    }
    assert_eq!(st.history, vec![s("L0"), s("L1"), s("L2"), s("L2")]);
    assert_eq!(st.history_index, 3);
    assert_eq!(st.history[st.history_index], st.current_path);
}
