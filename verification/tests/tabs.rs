use qust::tabs::{
    add_to_group, adjacent_page, can_close_tab, clean_group_name, default_group_color,
    display_url, ensure_current_page_visible, ensure_group, favicon_base64, group_snapshots,
    group_tab_count, import_groups, match_imported_tabs, move_target, normalize_group_color,
    ordered_pages, prewarm_delay_ms, regular_tab_width, remove_empty_groups, saved_title,
    saved_url, set_all_groups_collapsed, set_group_collapsed, set_group_snapshots,
    should_show_page, snapshot_meta, tab_from_fields, tab_label, title_to_cache, toggle_group, toggle_pin,
    visible_pages, visible_tab_counts, load_event_effect, CollapseOutcome, GroupState,
    LoadEffect, LoadStage, TabGroupSnapshot, TabMeta, TabSnapshot,
};

fn meta(pinned: bool, group: Option<&str>) -> TabMeta {
    TabMeta { pinned, group: group.map(|g| g.to_string()) }
}

fn group(name: &str, collapsed: bool, color: &str) -> GroupState {
    GroupState { name: name.to_string(), collapsed, color: color.to_string() }
}

fn snapshot(url: &str) -> TabSnapshot {
    TabSnapshot { url: url.to_string(), title: None, pinned: false, group: None, favicon: None }
}

#[test]
fn regular_tabs_shrink_between_maximum_and_minimum_widths() {
    assert_eq!(regular_tab_width(1200, 0, 3, 0), Some(220));
    assert_eq!(regular_tab_width(1000, 2, 6, 0), Some(153));
    assert_eq!(regular_tab_width(1000, 2, 6, 80), Some(140));
    assert_eq!(regular_tab_width(600, 4, 20, 100), Some(80));
    assert_eq!(regular_tab_width(600, 4, 0, 0), None);
}

#[test]
fn adjacent_page_stops_at_tab_bar_edges() {
    let visible = [0, 2, 4];

    assert_eq!(adjacent_page(&visible, 0, -1), None);
    assert_eq!(adjacent_page(&visible, 4, 1), None);
    assert_eq!(adjacent_page(&visible, 2, -1), Some(0));
    assert_eq!(adjacent_page(&visible, 2, 1), Some(4));
}

#[test]
fn move_target_uses_adjacent_visible_tabs() {
    let visible = [0, 2, 4];

    assert_eq!(move_target(&visible, 2, -1), Some(0));
    assert_eq!(move_target(&visible, 2, 1), Some(4));
}

#[test]
fn move_target_stops_at_tab_bar_edges() {
    let visible = [0, 1, 2];

    assert_eq!(move_target(&visible, 0, -1), None);
    assert_eq!(move_target(&visible, 2, 1), None);
    assert_eq!(move_target(&visible, 3, -1), None);
}

#[test]
fn tab_width_saturates_on_extreme_inputs() {
    assert_eq!(regular_tab_width(i32::MAX, i32::MAX, 1, i32::MIN), Some(220));
    assert_eq!(regular_tab_width(100, 0, 1, i32::MAX), Some(80));
    assert_eq!(regular_tab_width(0, 0, 1, 0), None);
}

#[test]
fn adjacent_page_moves_several_places() {
    let visible = [1, 3, 5, 7];
    assert_eq!(adjacent_page(&visible, 1, 3), Some(7));
    assert_eq!(adjacent_page(&visible, 7, -2), Some(3));
    assert_eq!(adjacent_page(&visible, 6, 1), None);
    assert_eq!(adjacent_page(&visible, 1, isize::MAX), None);
    assert_eq!(adjacent_page(&visible, 7, isize::MIN), None);
}

#[test]
fn pinned_then_grouped_then_other_tabs() {
    let groups = vec![group("B", false, "red"), group("A", false, "blue")];
    let metas = vec![
        meta(false, None),
        meta(false, Some("A")),
        meta(true, None),
        meta(false, Some("B")),
        meta(false, Some("Z")),
        meta(false, Some("A")),
        meta(true, None),
    ];
    assert_eq!(ordered_pages(&metas, &groups), vec![2, 6, 3, 1, 5, 4, 0]);
}

#[test]
fn ordered_tabs_stay_in_order() {
    let groups = vec![group("A", false, "blue")];
    let metas = vec![meta(true, None), meta(false, Some("A")), meta(false, None)];
    assert_eq!(ordered_pages(&metas, &groups), vec![0, 1, 2]);
}

#[test]
fn collapsed_group_shows_its_first_tab_only() {
    let groups = vec![group("A", true, "blue"), group("B", false, "red")];
    let metas = vec![
        meta(false, Some("A")),
        meta(false, Some("A")),
        meta(false, Some("B")),
        meta(false, None),
    ];
    assert!(should_show_page(&metas, &groups, 0));
    assert!(!should_show_page(&metas, &groups, 1));
    assert!(should_show_page(&metas, &groups, 2));
    assert!(should_show_page(&metas, &groups, 9));
    assert_eq!(visible_pages(&metas, &groups), vec![0, 2, 3]);
    assert_eq!(ensure_current_page_visible(&metas, &groups, Some(1)), Some(0));
    assert_eq!(ensure_current_page_visible(&metas, &groups, Some(2)), None);
    assert_eq!(ensure_current_page_visible(&metas, &groups, None), Some(0));
}

#[test]
fn group_colors_cycle_and_normalize() {
    assert_eq!(default_group_color(0), "blue");
    assert_eq!(default_group_color(8), "gray");
    assert_eq!(default_group_color(9), "blue");
    assert_eq!(normalize_group_color(Some("  Green ")), Some("green".to_string()));
    assert_eq!(normalize_group_color(Some("teal")), None);
    assert_eq!(normalize_group_color(None), None);
}

#[test]
fn group_names_are_trimmed() {
    assert_eq!(clean_group_name(Some("  Work ")), Some("Work".to_string()));
    assert_eq!(clean_group_name(Some("   ")), None);
    assert_eq!(clean_group_name(None), None);
}

#[test]
fn new_groups_take_the_next_color() {
    let mut groups = vec![group("A", false, "blue")];
    ensure_group(&mut groups, " B ");
    ensure_group(&mut groups, "A");
    ensure_group(&mut groups, "  ");
    assert_eq!(groups.len(), 2);
    assert_eq!(groups[1].name, "B");
    assert_eq!(groups[1].color, "purple");
    assert!(!groups[1].collapsed);
}

#[test]
fn saved_groups_skip_blank_and_repeated_names() {
    let mut groups = vec![group("old", false, "red")];
    let snapshots = vec![
        TabGroupSnapshot { name: " Work ".to_string(), collapsed: true, color: Some("PINK".to_string()) },
        TabGroupSnapshot { name: "".to_string(), collapsed: false, color: None },
        TabGroupSnapshot { name: "Work".to_string(), collapsed: false, color: None },
        TabGroupSnapshot { name: "Home".to_string(), collapsed: false, color: Some("teal".to_string()) },
    ];
    set_group_snapshots(&mut groups, &snapshots);
    assert_eq!(groups.len(), 2);
    assert_eq!((groups[0].name.as_str(), groups[0].collapsed, groups[0].color.as_str()), ("Work", true, "pink"));
    assert_eq!((groups[1].name.as_str(), groups[1].collapsed, groups[1].color.as_str()), ("Home", false, "purple"));
    let saved = group_snapshots(&groups);
    assert_eq!(saved[1].color.as_deref(), Some("purple"));
}

#[test]
fn imported_groups_update_or_join() {
    let mut groups = vec![group("Work", false, "red")];
    let imported = vec![
        TabGroupSnapshot { name: "Work".to_string(), collapsed: true, color: Some("teal".to_string()) },
        TabGroupSnapshot { name: "News".to_string(), collapsed: false, color: None },
    ];
    import_groups(&mut groups, &imported);
    assert_eq!((groups[0].collapsed, groups[0].color.as_str()), (true, "red"));
    assert_eq!((groups[1].name.as_str(), groups[1].color.as_str()), ("News", "purple"));
}

#[test]
fn groups_without_tabs_are_dropped() {
    let mut groups = vec![group("A", false, "blue"), group("B", false, "red")];
    remove_empty_groups(&mut groups, &vec![meta(false, Some("B")), meta(true, None)]);
    assert_eq!(groups.len(), 1);
    assert_eq!(groups[0].name, "B");
}

#[test]
fn collapsing_the_current_group_switches_to_its_first_tab() {
    let mut groups = vec![group("A", false, "blue")];
    let metas = vec![meta(false, None), meta(false, Some("A")), meta(false, Some("A"))];
    match set_group_collapsed(&mut groups, &metas, Some(2), None, true) {
        CollapseOutcome::Changed { switch_to } => assert_eq!(switch_to, Some(1)),
        other => panic!("unexpected {:?}", other),
    }
    assert!(groups[0].collapsed);
    assert!(matches!(set_group_collapsed(&mut groups, &metas, Some(0), None, true), CollapseOutcome::NoGroup));
    match set_group_collapsed(&mut groups, &metas, Some(0), Some(" X "), true) {
        CollapseOutcome::UnknownGroup(name) => assert_eq!(name, "X"),
        other => panic!("unexpected {:?}", other),
    }
    assert!(matches!(toggle_group(&mut groups, &metas, Some(1)), CollapseOutcome::Changed { switch_to: None }));
    assert!(!groups[0].collapsed);
    assert_eq!(set_all_groups_collapsed(&mut groups, &metas, Some(2), true), Some(1));
    assert!(groups[0].collapsed);
}

#[test]
fn pinning_leaves_the_group_and_grouping_unpins() {
    let pinned = toggle_pin(&meta(false, Some("A")));
    assert!(pinned.pinned);
    assert_eq!(pinned.group, None);
    let unpinned = toggle_pin(&meta(true, None));
    assert!(!unpinned.pinned);
    let mut groups = Vec::new();
    let joined = add_to_group(&mut groups, &meta(true, None), " Work ").unwrap();
    assert!(!joined.pinned);
    assert_eq!(joined.group.as_deref(), Some("Work"));
    assert_eq!(groups.len(), 1);
    assert!(add_to_group(&mut groups, &meta(true, None), " ").is_none());
}

#[test]
fn first_tab_of_a_collapsed_group_shows_the_count() {
    let groups = vec![group("Work", true, "green")];
    let metas = vec![meta(false, Some("Work")), meta(false, Some("Work")), meta(true, None)];
    assert_eq!(group_tab_count(&metas, "Work"), 2);
    let first = tab_label(&metas, &groups, 0);
    assert_eq!(first.badge.as_deref(), Some("Work (2)"));
    assert_eq!(first.badge_color.as_deref(), Some("green"));
    assert_eq!(first.line_color.as_deref(), Some("green"));
    let second = tab_label(&metas, &groups, 1);
    assert_eq!(second.badge, None);
    let pinned = tab_label(&metas, &groups, 2);
    assert!(pinned.pinned);
    assert_eq!(pinned.badge, None);
}

#[test]
fn imported_tabs_update_each_open_tab_once() {
    let existing = vec!["https://a.test".to_string(), "https://b.test".to_string(), "https://a.test".to_string()];
    let tabs = vec![snapshot("https://a.test"), snapshot("https://a.test"), snapshot("https://a.test"), snapshot("https://c.test")];
    assert_eq!(match_imported_tabs(&existing, &tabs), vec![Some(0), Some(2), None, None]);
}

#[test]
fn titles_and_urls_fall_back() {
    assert_eq!(title_to_cache("  Inbox "), Some("Inbox".to_string()));
    assert_eq!(title_to_cache("   "), None);
    assert_eq!(saved_title(Some("  "), Some("Cached")), Some("Cached".to_string()));
    assert_eq!(saved_title(Some("Live"), Some("Cached")), Some("Live".to_string()));
    assert_eq!(display_url(None, Some("https://pending.test")), "https://pending.test");
    assert_eq!(saved_url(Some("https://pending.test"), Some("https://loaded.test")), "https://pending.test");
    assert_eq!(saved_url(None, None), "");
}

#[test]
fn favicon_payload_follows_the_base64_marker() {
    assert_eq!(favicon_base64("data:image/png;base64,iVBORw0KGgo="), Some("iVBORw0KGgo=".to_string()));
    assert_eq!(favicon_base64("data:image/png,raw"), None);
}

#[test]
fn prewarming_is_spaced_and_the_last_tab_stays() {
    assert_eq!(prewarm_delay_ms(0), 500);
    assert_eq!(prewarm_delay_ms(3), 950);
    assert!(!can_close_tab(1));
    assert!(can_close_tab(2));
}

#[test]
fn saved_tab_groups_are_trimmed() {
    let t = tab_from_fields("https://a.test".to_string(), None, true, Some("  ".to_string()), None);
    assert_eq!(t.group, None);
    let t = tab_from_fields("https://a.test".to_string(), None, false, Some(" W ".to_string()), None);
    assert_eq!(t.group.as_deref(), Some("W"));
}

#[test]
fn laying_out_twice_moves_nothing() {
    let groups = vec![group("B", false, "red"), group("A", true, "blue")];
    let metas = vec![
        meta(false, Some("A")),
        meta(false, None),
        meta(true, None),
        meta(false, Some("B")),
        meta(false, Some("A")),
    ];
    let order = ordered_pages(&metas, &groups);
    let reordered: Vec<TabMeta> = order.iter().map(|page| metas[*page].clone()).collect();
    assert_eq!(ordered_pages(&reordered, &groups), vec![0, 1, 2, 3, 4]);
    assert!(should_show_page(&reordered, &groups, 0));
    assert_eq!(visible_tab_counts(&reordered, &groups), (1, 3));
}

#[test]
fn loading_shows_the_spinner_unless_prewarming() {
    assert_eq!(load_event_effect(false, LoadStage::Started), LoadEffect::ShowSpinner);
    assert_eq!(load_event_effect(false, LoadStage::Finished), LoadEffect::ShowIcon);
    assert_eq!(load_event_effect(true, LoadStage::Committed), LoadEffect::Nothing);
    assert_eq!(load_event_effect(true, LoadStage::Finished), LoadEffect::Prewarmed);
}

#[test]
fn importing_groups_keeps_names_distinct_and_others_unchanged() {
    let mut groups = vec![group("Work", false, "red"), group("Home", true, "green")];
    let imported = vec![
        TabGroupSnapshot { name: "Work".to_string(), collapsed: true, color: Some("teal".to_string()) },
        TabGroupSnapshot { name: "News".to_string(), collapsed: true, color: Some("yellow".to_string()) },
        TabGroupSnapshot { name: "News".to_string(), collapsed: false, color: Some("nonsense".to_string()) },
        TabGroupSnapshot { name: "Work".to_string(), collapsed: false, color: Some(" BLUE ".to_string()) },
    ];
    import_groups(&mut groups, &imported);
    let names: Vec<&str> = groups.iter().map(|g| g.name.as_str()).collect();
    assert_eq!(names, vec!["Work", "Home", "News"]);
    assert_eq!((groups[0].collapsed, groups[0].color.as_str()), (false, "blue"));
    assert_eq!((groups[1].collapsed, groups[1].color.as_str()), (true, "green"));
    assert_eq!((groups[2].collapsed, groups[2].color.as_str()), (false, "yellow"));
}

#[test]
fn imported_tabs_get_the_pin_and_group_of_their_snapshot() {
    let snap = TabSnapshot {
        url: "https://a.test".to_string(),
        title: None,
        pinned: true,
        group: Some("Work".to_string()),
        favicon: None,
    };
    let m = snapshot_meta(&snap);
    assert!(m.pinned);
    assert_eq!(m.group.as_deref(), Some("Work"));
    let m = snapshot_meta(&snapshot("https://b.test"));
    assert!(!m.pinned);
    assert_eq!(m.group, None);
}
