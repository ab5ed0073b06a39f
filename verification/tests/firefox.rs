use qust::firefox::{
    decompress_session, default_entry_index, import_session, latest_session, unique_group_name,
    FirefoxEntry, FirefoxGroup, FirefoxImportError, FirefoxSession, FirefoxTab, FirefoxWindow,
};

fn tab(index: usize, urls: &[&str], pinned: bool, group_id: Option<&str>, image: Option<&str>) -> FirefoxTab {
    FirefoxTab {
        index,
        entries: urls.iter().map(|u| FirefoxEntry { url: u.to_string() }).collect(),
        pinned,
        group_id: group_id.map(|g| g.to_string()),
        image: image.map(|i| i.to_string()),
    }
}

fn firefox_group(id: &str, name: &str, collapsed: bool, color: Option<&str>) -> FirefoxGroup {
    FirefoxGroup {
        id: id.to_string(),
        name: name.to_string(),
        collapsed,
        color: color.map(|c| c.to_string()),
    }
}

#[test]
fn parses_active_http_entries_from_all_windows() {
    let first = default_entry_index();
    let session = FirefoxSession {
        windows: vec![
            FirefoxWindow {
                groups: vec![firefox_group("g1", "Work", true, Some("green"))],
                tabs: vec![
                    tab(2, &["https://old.example", "https://current.example"], false, Some("g1"), None),
                    tab(first, &["about:newtab"], false, None, None),
                ],
            },
            FirefoxWindow {
                groups: vec![firefox_group("g2", "Work", false, None)],
                tabs: vec![
                    tab(first, &["http://second.example"], false, Some("g2"), None),
                    tab(first, &["https://pinned.example"], true, None, Some("data:image/png;base64,AA==")),
                ],
            },
        ],
    };

    let imported = import_session(&session);
    assert_eq!(imported.tabs.len(), 3);
    assert_eq!(imported.tabs[0].group.as_deref(), Some("Work"));
    assert_eq!(imported.tabs[1].group.as_deref(), Some("Work (2)"));
    assert!(imported.tabs[2].pinned);
    assert_eq!(
        imported.tabs[2].favicon.as_deref(),
        Some("data:image/png;base64,AA==")
    );
    assert_eq!(imported.groups.len(), 2);
    assert!(imported.groups[0].collapsed);
    assert_eq!(imported.groups[0].color.as_deref(), Some("green"));
}

#[test]
fn shown_entry_and_kept_favicons() {
    let session = FirefoxSession {
        windows: vec![FirefoxWindow {
            groups: vec![],
            tabs: vec![
                tab(0, &["https://zero.example"], false, None, Some("https://icon")),
                tab(3, &["https://a.example"], false, Some("missing"), None),
                tab(1, &["ftp://files.example"], false, None, None),
            ],
        }],
    };
    let imported = import_session(&session);
    assert_eq!(imported.tabs.len(), 1);
    assert_eq!(imported.tabs[0].url, "https://zero.example");
    assert_eq!(imported.tabs[0].favicon, None);
    assert_eq!(imported.tabs[0].group, None);
    assert!(imported.groups.is_empty());
}

#[test]
fn group_names_get_the_first_free_number() {
    let mut used = vec!["Work".to_string(), "Work (2)".to_string()];
    assert_eq!(unique_group_name("  Work ", &mut used), "Work (3)");
    assert_eq!(unique_group_name("   ", &mut used), "Firefox Group");
    assert_eq!(unique_group_name("", &mut used), "Firefox Group (2)");
    assert_eq!(used.len(), 5);
}

#[test]
fn session_file_needs_the_header() {
    match decompress_session(b"plainjson") {
        Err(FirefoxImportError::InvalidSession(message)) => assert_eq!(message, "missing mozLz40 header"),
        other => panic!("unexpected {:?}", other),
    }
    let mut data = b"mozLz40\0".to_vec();
    data.extend_from_slice(&lz4_flex::block::compress_prepend_size(b"{\"windows\":[]}"));
    assert_eq!(decompress_session(&data).unwrap(), b"{\"windows\":[]}".to_vec());
    let broken = b"mozLz40\0\x01".to_vec();
    assert!(matches!(decompress_session(&broken),
        Err(FirefoxImportError::InvalidSession(m)) if m == "expected another byte, found none"));
}

#[test]
fn error_messages_name_the_problem() {
    assert_eq!(FirefoxImportError::ProfileNotFound.message(), "Firefox profile not found");
    assert_eq!(FirefoxImportError::SessionNotFound.message(), "Firefox recovery session not found");
    assert_eq!(
        FirefoxImportError::InvalidSession("bad".to_string()).message(),
        "invalid Firefox session: bad"
    );
    let io = FirefoxImportError::from(std::io::Error::new(std::io::ErrorKind::Other, "disk gone"));
    assert_eq!(io.message(), "failed to read Firefox session: disk gone");
}

#[test]
fn latest_session_file_wins() {
    assert!(matches!(latest_session(&vec![]), Err(FirefoxImportError::SessionNotFound)));
    assert_eq!(latest_session(&vec![Some(5), None, Some(9), Some(2)]).unwrap(), 2);
    assert_eq!(latest_session(&vec![Some(9), Some(9)]).unwrap(), 1);
    assert_eq!(latest_session(&vec![None, None]).unwrap(), 1);
}

#[test]
fn imported_groups_follow_first_use_and_unused_ones_are_left_out() {
    let first = default_entry_index();
    let session = FirefoxSession {
        windows: vec![FirefoxWindow {
            groups: vec![
                firefox_group("a", "Alpha", false, None),
                firefox_group("b", "Beta", false, None),
                firefox_group("c", "Unused", false, None),
            ],
            tabs: vec![
                tab(first, &["https://one.example"], false, Some("b"), None),
                tab(first, &["https://two.example"], false, Some("a"), None),
                tab(first, &["https://three.example"], false, Some("b"), None),
            ],
        }],
    };
    let imported = import_session(&session);
    let names: Vec<&str> = imported.groups.iter().map(|g| g.name.as_str()).collect();
    assert_eq!(names, vec!["Beta", "Alpha"]);
}
