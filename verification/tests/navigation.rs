use qust::navigation::{
    normalize_url, preset_search_template, reset_search_template, search_template, search_url, set_search_template,
    urls_from_arguments, validate_search_template, Config, SearchTemplateError, UrlInput,
    DEFAULT_SEARCH_TEMPLATE,
};

fn url_of(input: &str) -> Option<String> {
    match normalize_url(input) {
        UrlInput::Url(u) => Some(u),
        UrlInput::Query(_) => None,
    }
}

#[test]
fn explicit_urls_do_not_use_search_template() {
    assert_eq!(url_of("example.com/path"), Some("https://example.com/path".to_string()));
    assert_eq!(url_of("http://localhost:3000"), Some("http://localhost:3000".to_string()));
}

#[test]
fn search_template_requires_http_url_and_placeholder() {
    assert!(validate_search_template("https://search.example/?q={query}").is_ok());
    assert!(validate_search_template("https://search.example/").is_err());
    assert!(validate_search_template("search.example/?q={query}").is_err());
}

#[test]
fn template_errors_say_what_is_missing() {
    assert_eq!(validate_search_template("ftp://x/{query}"), Err(SearchTemplateError::NotHttp));
    assert_eq!(
        validate_search_template("https://x/"),
        Err(SearchTemplateError::MissingPlaceholder)
    );
    assert_eq!(
        SearchTemplateError::MissingPlaceholder.message(),
        "search engine template must contain {query}"
    );
}

#[test]
fn text_with_spaces_is_a_search() {
    match normalize_url("  rust gtk & webkit ") {
        UrlInput::Query(q) => assert_eq!(q, "rust gtk & webkit"),
        other => panic!("unexpected {:?}", other),
    }
    assert!(matches!(normalize_url("localhost"), UrlInput::Query(_)));
}

#[test]
fn escaped_query_fills_every_placeholder() {
    assert_eq!(
        search_url("https://search.example/?term={query}&source=qust", "rust%20gtk%20%26%20webkit"),
        "https://search.example/?term=rust%20gtk%20%26%20webkit&source=qust"
    );
    assert_eq!(search_url("https://s/{query}/{query}", "a"), "https://s/a/a");
}

#[test]
fn set_template_is_used_and_reset_restores_default() {
    let config = set_search_template("https://search.example/?q={query}").unwrap();
    assert_eq!(search_template(&config), "https://search.example/?q={query}");
    assert!(set_search_template("nope").is_err());
    assert_eq!(search_template(&reset_search_template()), DEFAULT_SEARCH_TEMPLATE);
    let bad = Config { search_engine: Some("https://no-placeholder/".to_string()) };
    assert_eq!(search_template(&bad), DEFAULT_SEARCH_TEMPLATE);
}

#[test]
fn command_line_urls_skip_the_program_name_and_flags() {
    let arguments: Vec<Option<String>> = ["qust", "--verbose", "https://example.com", "http://a.test"]
        .iter()
        .map(|a| Some(a.to_string()))
        .collect();
    let urls: Vec<Option<String>> = urls_from_arguments(&arguments)
        .into_iter()
        .map(|u| match u {
            UrlInput::Url(u) => Some(u),
            UrlInput::Query(_) => None,
        })
        .collect();
    assert_eq!(
        urls,
        vec![
            Some("https://example.com".to_string()),
            Some("http://a.test".to_string())
        ]
    );
}

#[test]
fn command_line_without_urls_opens_nothing() {
    let arguments: Vec<Option<String>> = vec![Some("qust".to_string())];
    assert!(urls_from_arguments(&arguments).is_empty());
}

#[test]
fn command_line_skips_empty_and_unreadable_arguments() {
    let arguments = vec![Some("qust".to_string()), None, Some(String::new()), Some("example.org".to_string())];
    let urls = urls_from_arguments(&arguments);
    assert_eq!(urls.len(), 1);
    assert!(matches!(&urls[0], UrlInput::Url(u) if u == "https://example.org"));
}

#[test]
fn preset_names_give_their_templates() {
    assert_eq!(preset_search_template("google").as_deref(), Some("https://www.google.com/search?q={query}"));
    assert_eq!(preset_search_template("ddg"), preset_search_template("duckduckgo"));
    assert_eq!(preset_search_template("duckduckgo").as_deref(), Some(DEFAULT_SEARCH_TEMPLATE));
    assert_eq!(preset_search_template("altavista"), None);
    for name in ["google", "yandex", "duckduckgo", "ddg", "bing", "brave"] {
        let template = preset_search_template(name).unwrap();
        assert!(validate_search_template(&template).is_ok());
    }
}
