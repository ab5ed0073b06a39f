use qust::passwords::{
    build_fill_js, check_unlock_password, host, matching_credentials, only_credential,
    picked_credential, status_from_raw, stderr_text, unlock_token, unlocked_session, urls_match,
    BwItem, BwLogin, BwUri, Credential, PasswordError, RawStatus, VaultStatus,
};

fn item(name: &str, username: Option<&str>, password: Option<&str>, uris: &[&str]) -> BwItem {
    BwItem {
        name: name.to_string(),
        login: Some(BwLogin {
            username: username.map(|u| u.to_string()),
            password: password.map(|p| p.to_string()),
            uris: uris.iter().map(|u| BwUri { uri: Some(u.to_string()) }).collect(),
        }),
    }
}

fn credential(name: &str, username: &str, password: &str) -> Credential {
    Credential { name: name.to_string(), username: username.to_string(), password: password.to_string() }
}

#[test]
fn parse_status_maps_known_states() {
    let status = status_from_raw(RawStatus {
        server_url: Some("https://vault.example.com".to_string()),
        user_email: Some("me@example.com".to_string()),
        status: "unlocked".to_string(),
    });

    assert_eq!(status.server_url, Some("https://vault.example.com".to_string()));
    assert_eq!(status.user_email, Some("me@example.com".to_string()));
    assert_eq!(status.status, VaultStatus::Unlocked);
}

#[test]
fn unknown_status_keeps_its_text() {
    let status = status_from_raw(RawStatus { server_url: None, user_email: None, status: "odd".to_string() });
    assert_eq!(status.status, VaultStatus::Unknown("odd".to_string()));
    let status = status_from_raw(RawStatus { server_url: None, user_email: None, status: "locked".to_string() });
    assert_eq!(status.status, VaultStatus::Locked);
}

#[test]
fn parse_items_extracts_matching_credentials() {
    let items = vec![item("Example", Some("alice"), Some("secret"), &["https://example.com/login"])];
    let credentials: Vec<Credential> = items
        .into_iter()
        .filter(|item| item.matches_url("https://example.com/account"))
        .filter_map(BwItem::into_credential)
        .collect();

    assert_eq!(credentials, vec![credential("Example", "alice", "secret")]);
}

#[test]
fn url_matching_allows_subdomains_but_not_suffix_tricks() {
    assert!(urls_match("https://example.com/login", "https://app.example.com/session"));
    assert!(!urls_match("https://example.com/login", "https://badexample.com/session"));
}

#[test]
fn fill_js_uses_json_escaping_for_secret_values() {
    let js = build_fill_js("ali'ce", "p\"ass\nword");

    assert!(js.contains(r#""ali'ce""#));
    assert!(js.contains(r#""p\"ass\nword""#));
    assert!(!js.contains("const password = p\"ass"));
}

#[test]
fn hosts_ignore_scheme_port_and_case() {
    assert_eq!(host("https://User@Example.COM:8443/path"), Some("example.com".to_string()));
    assert_eq!(host("example.com/path"), Some("example.com".to_string()));
    assert_eq!(host("https:///path"), None);
}

#[test]
fn no_matching_credentials_names_the_url() {
    let items = vec![
        item("Other", Some("bob"), Some("pw"), &["https://other.test"]),
        item("NoPassword", Some("carol"), None, &["https://example.com"]),
    ];
    match matching_credentials(items, "https://example.com/") {
        Err(e) => assert_eq!(e.message(), "no credentials found for https://example.com/"),
        Ok(c) => panic!("unexpected {:?}", c),
    }
    let items = vec![item("Site", None, Some("pw"), &["https://example.com"])];
    assert_eq!(
        matching_credentials(items, "https://www.example.com/").unwrap(),
        vec![credential("Site", "", "pw")]
    );
}

#[test]
fn cli_output_is_trimmed_text() {
    assert_eq!(stderr_text(b"  \n"), "unknown error");
    assert_eq!(stderr_text(b" bad \xff\n"), "bad \u{fffd}");
    assert_eq!(unlock_token(b" token\n").unwrap(), "token");
    assert!(matches!(unlock_token(b"  "), Err(PasswordError::CommandFailed(_))));
}

#[test]
fn unlocking_needs_a_password_and_a_session() {
    assert!(matches!(check_unlock_password(""), Err(PasswordError::MissingPassword)));
    assert!(check_unlock_password("pw").is_ok());
    assert_eq!(unlocked_session(&Some("s".to_string())).unwrap(), "s");
    match unlocked_session(&None) {
        Err(e) => assert_eq!(e.message(), "Bitwarden CLI failed: vault is locked; run :bw unlock"),
        Ok(_) => panic!("expected an error"),
    }
}

#[test]
fn credential_choice_needs_a_pick_when_several_match() {
    let one = vec![credential("A", "a", "1")];
    let two = vec![credential("A", "a", "1"), credential("B", "b", "2")];
    assert_eq!(only_credential(&one), Some(credential("A", "a", "1")));
    assert_eq!(only_credential(&two), None);
    assert_eq!(picked_credential(&two, Some(1), true), Some(credential("B", "b", "2")));
    assert_eq!(picked_credential(&two, Some(1), false), None);
    assert_eq!(picked_credential(&two, Some(5), true), None);
}

#[test]
fn every_error_has_a_message() {
    assert_eq!(PasswordError::InvalidJson("x".to_string()).message(), "invalid Bitwarden CLI output: x");
    assert_eq!(PasswordError::MissingPassword.message(), "unlock requires a password");
    assert_eq!(PasswordError::NoCredentialSelected.message(), "no credential selected");
    assert_eq!(PasswordError::NoCurrentUrl.message(), "current tab has no URL");
}
