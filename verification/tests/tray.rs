use app_blocker::tray::{click_action, hides_on_close, menu_action, menu_entries, TrayAction};

#[test]
fn menu_lists_the_four_actions_in_order() {
    let ids: Vec<&str> = menu_entries().iter().map(|e| e.0).collect();
    assert_eq!(ids, vec!["show", "stats", "reconcile", "quit"]);
    assert_eq!(menu_entries()[1].1, "Statistics\u{2026}");
}

#[test]
fn menu_ids_map_to_actions() {
    assert_eq!(menu_action("show"), Some(TrayAction::ShowWindow));
    assert_eq!(menu_action("stats"), Some(TrayAction::ShowStatistics));
    assert_eq!(menu_action("reconcile"), Some(TrayAction::Reconcile));
    assert_eq!(menu_action("quit"), Some(TrayAction::Quit));
    assert_eq!(menu_action("Quit"), None);
}

#[test]
fn only_a_left_click_release_shows_the_window() {
    assert_eq!(click_action(true, true), Some(TrayAction::ShowWindow));
    assert_eq!(click_action(true, false), None);
    assert_eq!(click_action(false, true), None);
}

#[test]
fn closing_the_main_window_hides_it() {
    assert!(hides_on_close("main"));
    assert!(!hides_on_close("settings"));
}
