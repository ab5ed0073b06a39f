use qust::keys::{
    append_count, next_url_word_start, previous_url_word_start, previous_word_start, scroll_script,
    shortcut_sections,
};

#[test]
fn count_prefix_appends_digits_and_is_bounded() {
    assert_eq!(append_count(0, 4), 4);
    assert_eq!(append_count(4, 0), 40);
    assert_eq!(append_count(9999, 9), 9999);
}

#[test]
fn previous_word_start_skips_trailing_space() {
    assert_eq!(previous_word_start("hello world   ", 14), 6);
}

#[test]
fn previous_word_start_stops_at_url_punctuation() {
    assert_eq!(previous_word_start("https://example.com/path", 24), 20);
}

#[test]
fn previous_word_start_deletes_punctuation_run() {
    assert_eq!(previous_word_start("https://", 8), 5);
}

#[test]
fn url_word_motion_uses_url_punctuation_as_boundaries() {
    let url = "https://example.com/users/42?tab=settings";

    assert_eq!(next_url_word_start(url, 0), 8);
    assert_eq!(next_url_word_start(url, 8), 16);
    assert_eq!(next_url_word_start(url, 16), 20);
    assert_eq!(previous_url_word_start(url, 25), 20);
    assert_eq!(previous_url_word_start(url, url.len()), 33);
}

#[test]
fn count_prefix_stops_growing_past_the_limit() {
    assert_eq!(append_count(999, 9), 9999);
    assert_eq!(append_count(1000, 0), 9999);
}

#[test]
fn scroll_script_writes_both_offsets() {
    assert_eq!(
        scroll_script(0, -600),
        "window.scrollBy({left: 0, top: -600, behavior: 'smooth'})"
    );
}

#[test]
fn shortcut_list_has_every_section() {
    let sections = shortcut_sections();
    let titles: Vec<&str> = sections.iter().map(|s| s.title.as_str()).collect();
    assert_eq!(
        titles,
        vec!["Navigation", "Page", "Tabs", "Modes and Input", "Hint Mode", "Commands"]
    );
    assert_eq!(sections[0].rows[6], ("gg".to_string(), "Jump to top".to_string()));
    assert_eq!(sections[5].rows.len(), 17);
}

use qust::keys::{
    delete_word_range, hint_mode_key, new_normal_prefix, normal_mode_key, url_normal_key, Key,
    ModeKeyAction, NormalAction, NormalPrefix, TextRange, UrlNormalOutcome,
};

fn press(prefix: NormalPrefix, keys: &str) -> (NormalPrefix, NormalAction) {
    let mut state = prefix;
    let mut last = NormalAction::Ignore;
    for c in keys.chars() {
        let (next, action) = normal_mode_key(state, Key::Char(c), true);
        state = next;
        last = action;
    }
    (state, last)
}

#[test]
fn counts_and_g_sequences() {
    let start = new_normal_prefix();
    assert_eq!(press(start, "3K"), (start, NormalAction::NextTab(3)));
    assert_eq!(press(start, "J"), (start, NormalAction::PreviousTab(1)));
    assert_eq!(press(start, "gg"), (start, NormalAction::ScrollToTop));
    assert_eq!(press(start, "2gJ"), (start, NormalAction::MoveTabLeft(2)));
    assert_eq!(press(start, "gK"), (start, NormalAction::MoveTabRight(1)));
    assert_eq!(press(start, "0"), (start, NormalAction::ZoomReset));
    assert_eq!(press(start, "10"), (NormalPrefix { g: false, count: 10 }, NormalAction::Ignore));
    assert_eq!(press(start, "gx"), (start, NormalAction::Ignore));
}

#[test]
fn keys_without_a_page_pass_through() {
    let start = new_normal_prefix();
    assert_eq!(normal_mode_key(start, Key::Char('j'), false).1, NormalAction::PassThrough);
    assert_eq!(normal_mode_key(start, Key::Char('?'), false).1, NormalAction::ShowShortcuts);
    assert_eq!(normal_mode_key(start, Key::Modifier, true), (start, NormalAction::Ignore));
    assert_eq!(normal_mode_key(start, Key::Char('j'), true).1, NormalAction::Scroll(0, 60));
    assert_eq!(normal_mode_key(start, Key::Escape, true).1, NormalAction::PassThrough);
}

#[test]
fn url_editor_motions_and_edits() {
    let url = "https://a.test";
    assert_eq!(
        url_normal_key(url, 3, Key::Char('$')),
        UrlNormalOutcome::Edit { delete: None, cursor: 13, insert: false }
    );
    assert_eq!(
        url_normal_key(url, 13, Key::Char('l')),
        UrlNormalOutcome::Edit { delete: None, cursor: 13, insert: false }
    );
    assert_eq!(
        url_normal_key(url, 13, Key::Char('x')),
        UrlNormalOutcome::Edit { delete: Some(TextRange { start: 13, end: 14 }), cursor: 12, insert: false }
    );
    assert_eq!(
        url_normal_key(url, 8, Key::Char('C')),
        UrlNormalOutcome::Edit { delete: Some(TextRange { start: 8, end: 14 }), cursor: 8, insert: true }
    );
    assert_eq!(url_normal_key(url, 14, Key::Char('x')), UrlNormalOutcome::Ignore);
    assert_eq!(url_normal_key(url, 0, Key::Return), UrlNormalOutcome::PassThrough);
    assert_eq!(url_normal_key(url, 0, Key::Escape), UrlNormalOutcome::Cancel);
}

#[test]
fn control_w_deletes_the_selection_or_the_previous_word() {
    assert_eq!(delete_word_range(Some((5, 2)), "hello world", 9), Some((2, 5)));
    assert_eq!(delete_word_range(None, "hello world", 11), Some((6, 11)));
    assert_eq!(delete_word_range(None, "hello", 0), None);
}

#[test]
fn hint_keys_are_home_row_letters() {
    assert_eq!(hint_mode_key(Key::Char('s')), ModeKeyAction::TypeHint('s'));
    assert_eq!(hint_mode_key(Key::Char('z')), ModeKeyAction::Ignore);
    assert_eq!(hint_mode_key(Key::Escape), ModeKeyAction::Cancel);
}
