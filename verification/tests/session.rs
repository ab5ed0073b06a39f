use qust::modes::{current_mode, new_g_prefix, new_hint_buffer, new_mode_state, new_tab_flag, set_mode, Mode};
use qust::session::{restorable, restored_active_page, Session};
use qust::tabs::tab_from_url;

#[test]
fn sessions_without_tabs_are_not_restored() {
    let empty = Session { tabs: Vec::new(), groups: Vec::new(), active: 0 };
    assert!(restorable(empty).is_none());
    let one = Session { tabs: vec![tab_from_url("https://a.test".to_string())], groups: Vec::new(), active: 3 };
    let restored = restorable(one).unwrap();
    assert_eq!(restored.tabs[0].url, "https://a.test");
    assert_eq!(restored.active, 3);
}

#[test]
fn active_page_is_held_to_the_last_page() {
    assert_eq!(restored_active_page(3, 2), 1);
    assert_eq!(restored_active_page(1, 2), 1);
    assert_eq!(restored_active_page(5, 0), 0);
}

#[test]
fn modes_start_in_normal_and_switch() {
    let mut state = new_mode_state();
    assert_eq!(current_mode(&state), Mode::Normal);
    set_mode(&mut state, Mode::Hint);
    assert_eq!(current_mode(&state), Mode::Hint);
    assert_eq!(Mode::UrlInsert.label(), "URL INSERT");
    assert!(new_hint_buffer().is_empty());
    assert!(!new_tab_flag());
    assert!(!new_g_prefix());
}
