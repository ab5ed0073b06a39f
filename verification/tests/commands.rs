use qust::commands::{command_specs, command_suggestions, format_status, parse_command, BwAction, CommandAction};
use qust::navigation::UrlInput;
use qust::passwords::{BwStatus, VaultStatus};

fn suggestion_names(input: &str) -> Vec<String> {
    command_suggestions(input).iter().map(|s| s.name.clone()).collect()
}

#[test]
fn command_suggestions_match_primary_name_prefix() {
    assert_eq!(
        suggestion_names(":gr"),
        vec!["group", "groupadd", "groupcollapse", "groupexpand"]
    );
}

#[test]
fn command_suggestions_match_alias_prefix() {
    let suggestions = command_suggestions(":to");
    let names: Vec<&str> = suggestions.iter().map(|s| s.name.as_str()).collect();
    assert_eq!(names, vec!["tabopen"]);
    assert_eq!(suggestions[0].completion, ":tabopen");
}

#[test]
fn command_suggestions_with_args_show_exact_command() {
    assert_eq!(suggestion_names(":open example.com"), vec!["open"]);
}

#[test]
fn command_suggestions_list_bitwarden_subcommands() {
    assert_eq!(
        suggestion_names(":bw "),
        vec![
            "bw status",
            "bw server",
            "bw unlock",
            "bw lock",
            "bw fill",
            "bw copy-user",
            "bw copy-pass",
        ]
    );
}

#[test]
fn command_suggestions_filter_bitwarden_subcommands() {
    let suggestions = command_suggestions(":bw s");
    let names: Vec<&str> = suggestions.iter().map(|s| s.name.as_str()).collect();
    assert_eq!(names, vec!["bw status", "bw server"]);
    assert_eq!(suggestions[0].completion, ":bw status");
}

#[test]
fn command_suggestions_match_bitwarden_subcommand_alias() {
    let suggestions = command_suggestions(":bw copy-password");
    assert_eq!(suggestions.len(), 1);
    assert_eq!(suggestions[0].name, "bw copy-pass");
    assert_eq!(suggestions[0].completion, ":bw copy-pass");
}

#[test]
fn command_specs_include_descriptions() {
    assert!(command_specs()
        .iter()
        .all(|spec| !spec.usage.is_empty() && !spec.description.is_empty()));
}

#[test]
fn command_suggestions_list_all_or_none() {
    assert_eq!(command_suggestions(":").len(), 15);
    assert_eq!(suggestion_names("gr"), suggestion_names(":gr"));
    assert!(command_suggestions(":zz").is_empty());
}

#[test]
fn command_urls_get_a_scheme_or_a_search() {
    assert!(matches!(parse_command(":open   https://a.test/x "), CommandAction::Navigate(UrlInput::Url(u)) if u == "https://a.test/x"));
    assert!(matches!(parse_command(":open example.com"), CommandAction::Navigate(UrlInput::Url(u)) if u == "https://example.com"));
    assert!(matches!(parse_command(":open rust lang"), CommandAction::Navigate(UrlInput::Query(q)) if q == "rust lang"));
    assert!(matches!(parse_command(":tabopen rust lang"), CommandAction::OpenTab(UrlInput::Query(q)) if q == "rust lang"));
}

#[test]
fn open_and_tab_commands_parse() {
    assert!(matches!(parse_command(":open example.com"), CommandAction::Navigate(UrlInput::Url(u)) if u == "https://example.com"));
    assert!(matches!(parse_command(":to"), CommandAction::OpenTab(UrlInput::Url(u)) if u == "about:blank"));
    assert!(matches!(parse_command(":q"), CommandAction::Quit));
    assert!(matches!(parse_command(":group"), CommandAction::Warning(_)));
}

#[test]
fn tabclose_closes_the_tab_like_close() {
    assert!(matches!(parse_command(":tabclose"), CommandAction::CloseTab));
    assert!(matches!(parse_command(":close"), CommandAction::CloseTab));
    assert!(matches!(parse_command(":c"), CommandAction::CloseTab));
    assert_eq!(suggestion_names(":tabc"), vec!["close"]);
}

#[test]
fn firefox_import_is_a_command() {
    assert!(matches!(parse_command(":firefox-import"), CommandAction::FirefoxImport));
    assert_eq!(suggestion_names(":fire"), vec!["firefox-import"]);
}

fn stored_template(input: &str) -> Option<String> {
    match parse_command(input) {
        CommandAction::SetSearchEngine(t) => Some(t),
        _ => None,
    }
}

#[test]
fn search_engine_presets_set_their_templates() {
    assert_eq!(stored_template(":search-engine google").as_deref(), Some("https://www.google.com/search?q={query}"));
    assert_eq!(stored_template(":search-engine yandex").as_deref(), Some("https://yandex.com/search/?text={query}"));
    assert_eq!(stored_template(":search-engine duckduckgo").as_deref(), Some("https://duckduckgo.com/?q={query}"));
    assert_eq!(stored_template(":search-engine ddg").as_deref(), Some("https://duckduckgo.com/?q={query}"));
    assert_eq!(stored_template(":search-engine bing").as_deref(), Some("https://www.bing.com/search?q={query}"));
    assert_eq!(stored_template(":search-engine brave").as_deref(), Some("https://search.brave.com/search?q={query}"));
}

#[test]
fn search_engine_takes_a_custom_template_show_and_reset() {
    assert_eq!(
        stored_template(":search-engine https://search.example/?q={query}").as_deref(),
        Some("https://search.example/?q={query}")
    );
    assert!(matches!(parse_command(":search-engine"), CommandAction::ShowSearchEngine));
    assert!(matches!(parse_command(":search-engine reset"), CommandAction::ResetSearchEngine));
    assert!(matches!(parse_command(":search-engine search.example/?q={query}"),
        CommandAction::Warning(m) if m == "search engine template must start with http:// or https://"));
    assert!(matches!(parse_command(":search-engine https://search.example/"),
        CommandAction::Warning(m) if m == "search engine template must contain {query}"));
}

#[test]
fn search_engine_suggestions_list_presets() {
    assert_eq!(
        suggestion_names(":search-engine "),
        vec![
            "search-engine google",
            "search-engine yandex",
            "search-engine duckduckgo",
            "search-engine bing",
            "search-engine brave",
            "search-engine reset",
        ]
    );
    assert_eq!(suggestion_names(":search-engine d"), vec!["search-engine duckduckgo"]);
}

#[test]
fn bitwarden_commands_parse() {
    assert!(matches!(parse_command(":bw server"), CommandAction::Bitwarden(BwAction::MissingServer)));
    assert!(matches!(parse_command(":bw copy-pass"), CommandAction::Bitwarden(BwAction::CopyPassword)));
}

#[test]
fn status_text_lists_server_user_and_state() {
    let status = BwStatus {
        server_url: Some("https://vault.example.com".to_string()),
        user_email: None,
        status: VaultStatus::Locked,
    };
    assert_eq!(
        format_status(&status),
        "Status: locked\nServer: https://vault.example.com\nUser: not signed in"
    );
}
