//! Turning what the user typed into a URL, and the search-engine template
//! that a search query is put into.
use vstd::prelude::*;
use crate::firefox::{is_web_url, is_web_url_exec};
use crate::text::{
    chars_of, concat, contains, contains_seq, occurs_at, replace, replace_all, seq_eq, string_of, trim, trim_chars,
};

verus! {

/// The search engine used when none is configured.
pub const DEFAULT_SEARCH_TEMPLATE: &'static str = "https://duckduckgo.com/?q={query}";

/// The stored settings: the search-engine template, if one was set.
#[derive(Debug, Clone)]
pub struct Config {
    pub search_engine: Option<String>,
}

/// Why a search-engine template was refused.
#[derive(Debug, Clone, Copy, PartialEq, Eq)]
pub enum SearchTemplateError {
    /// The template does not start with `http://` or `https://`.
    NotHttp,
    /// The template has no `{query}` placeholder.
    MissingPlaceholder,
}

/// The message shown for a refused template.
pub open spec fn template_error_text(e: SearchTemplateError) -> Seq<char> {
    match e {
        SearchTemplateError::NotHttp => "search engine template must start with http:// or https://"@,
        SearchTemplateError::MissingPlaceholder => "search engine template must contain {query}"@,
    }
}

impl SearchTemplateError {
    /// The message shown for the error.
    pub fn message(&self) -> (m: String)
        ensures
            m@ == template_error_text(*self),
            *self is NotHttp ==> m@ == "search engine template must start with http:// or https://"@,
            *self is MissingPlaceholder ==> m@ == "search engine template must contain {query}"@,
    {
        match self {
            SearchTemplateError::NotHttp => String::from_str(
                "search engine template must start with http:// or https://",
            ),
            SearchTemplateError::MissingPlaceholder => String::from_str(
                "search engine template must contain {query}",
            ),
        }
    }
}

/// The placeholder that a search template's query goes into.
pub open spec fn query_placeholder() -> Seq<char> {
    "{query}"@
}

/// A usable search template: a web URL with a `{query}` placeholder.
pub open spec fn valid_template(t: Seq<char>) -> bool {
    is_web_url(t) && contains_seq(t, query_placeholder())
}

/// The error a template is refused with, checked in this order.
pub open spec fn template_error(t: Seq<char>) -> Option<SearchTemplateError> {
    if !is_web_url(t) {
        Some(SearchTemplateError::NotHttp)
    } else if !contains_seq(t, query_placeholder()) {
        Some(SearchTemplateError::MissingPlaceholder)
    } else {
        None
    }
}

/// Checks that a template starts with `http://` or `https://` and holds
/// `{query}`.
pub fn validate_search_template(template: &str) -> (r: Result<(), SearchTemplateError>)
    ensures
        r is Ok <==> valid_template(template@),
        r matches Err(e) ==> template_error(template@) == Some(e),
        r is Ok ==> template_error(template@) is None,
{
    let t = chars_of(template);
    if !is_web_url_exec(&t) {
        return Err(SearchTemplateError::NotHttp);
    }
    if !contains(&t, &chars_of("{query}")) {
        return Err(SearchTemplateError::MissingPlaceholder);
    }
    Ok(())
}

/// The template that searches use under a configuration: the stored one if
/// it is valid, else the default.
pub open spec fn template_of(config: Config) -> Seq<char> {
    match config.search_engine {
        Some(t) => if valid_template(t@) {
            t@
        } else {
            DEFAULT_SEARCH_TEMPLATE@
        },
        None => DEFAULT_SEARCH_TEMPLATE@,
    }
}

/// The default template is itself a valid one.
pub proof fn lemma_default_template_valid()
    ensures
        valid_template(DEFAULT_SEARCH_TEMPLATE@),
{
    reveal_strlit("https://duckduckgo.com/?q={query}");
    reveal_strlit("https://");
    reveal_strlit("{query}");
    let d = DEFAULT_SEARCH_TEMPLATE@;
    assert(d.subrange(26, 33) =~= query_placeholder());
    assert(occurs_at(d, query_placeholder(), 26));
}

/// The search engines that can be chosen by name: Google, Yandex,
/// DuckDuckGo (also `ddg`), Bing and Brave.
pub open spec fn preset_template(name: Seq<char>) -> Option<Seq<char>> {
    if name == "google"@ {
        Some("https://www.google.com/search?q={query}"@)
    } else if name == "yandex"@ {
        Some("https://yandex.com/search/?text={query}"@)
    } else if name == "duckduckgo"@ || name == "ddg"@ {
        Some(DEFAULT_SEARCH_TEMPLATE@)
    } else if name == "bing"@ {
        Some("https://www.bing.com/search?q={query}"@)
    } else if name == "brave"@ {
        Some("https://search.brave.com/search?q={query}"@)
    } else {
        None
    }
}

/// The template of a named search engine, if the name is one.
pub fn preset_search_template(name: &str) -> (r: Option<String>)
    ensures
        match preset_template(name@) {
            Some(t) => r matches Some(s) && s@ == t,
            None => r is None,
        },
{
    let n = chars_of(name);
    if seq_eq(&n, &chars_of("google")) {
        Some(String::from_str("https://www.google.com/search?q={query}"))
    } else if seq_eq(&n, &chars_of("yandex")) {
        Some(String::from_str("https://yandex.com/search/?text={query}"))
    } else if seq_eq(&n, &chars_of("duckduckgo")) || seq_eq(&n, &chars_of("ddg")) {
        Some(String::from_str(DEFAULT_SEARCH_TEMPLATE))
    } else if seq_eq(&n, &chars_of("bing")) {
        Some(String::from_str("https://www.bing.com/search?q={query}"))
    } else if seq_eq(&n, &chars_of("brave")) {
        Some(String::from_str("https://search.brave.com/search?q={query}"))
    } else {
        None
    }
}

/// Every named search engine has a valid template.
pub proof fn lemma_preset_templates_valid(name: Seq<char>)
    ensures
        preset_template(name) matches Some(t) ==> valid_template(t),
{
    lemma_default_template_valid();
    reveal_strlit("https://");
    reveal_strlit("{query}");
    reveal_strlit("google");
    reveal_strlit("yandex");
    reveal_strlit("duckduckgo");
    reveal_strlit("ddg");
    reveal_strlit("bing");
    reveal_strlit("brave");
    reveal_strlit("https://www.google.com/search?q={query}");
    reveal_strlit("https://yandex.com/search/?text={query}");
    reveal_strlit("https://www.bing.com/search?q={query}");
    reveal_strlit("https://search.brave.com/search?q={query}");
    let g = "https://www.google.com/search?q={query}"@;
    assert(g.subrange(32, 39) =~= query_placeholder());
    assert(occurs_at(g, query_placeholder(), 32));
    let y = "https://yandex.com/search/?text={query}"@;
    assert(y.subrange(32, 39) =~= query_placeholder());
    assert(occurs_at(y, query_placeholder(), 32));
    let b = "https://www.bing.com/search?q={query}"@;
    assert(b.subrange(30, 37) =~= query_placeholder());
    assert(occurs_at(b, query_placeholder(), 30));
    let v = "https://search.brave.com/search?q={query}"@;
    assert(v.subrange(34, 41) =~= query_placeholder());
    assert(occurs_at(v, query_placeholder(), 34));
}

/// The search template in effect for a configuration (an unreadable or
/// missing configuration file reads as the empty configuration).
pub fn search_template(config: &Config) -> (t: String)
    ensures
        t@ == template_of(*config),
        valid_template(t@),
{
    proof {
        lemma_default_template_valid();
    }
    match &config.search_engine {
        Some(stored) => {
            if validate_search_template(stored.as_str()).is_ok() {
                stored.clone()
            } else {
                String::from_str(DEFAULT_SEARCH_TEMPLATE)
            }
        },
        None => String::from_str(DEFAULT_SEARCH_TEMPLATE),
    }
}

/// The configuration that stores a new search template, or why the
/// template is refused.
pub fn set_search_template(template: &str) -> (r: Result<Config, SearchTemplateError>)
    ensures
        r is Ok <==> valid_template(template@),
        r matches Ok(c) ==> c.search_engine matches Some(s) && s@ == template@,
        r matches Err(e) ==> template_error(template@) == Some(e),
{
    match validate_search_template(template) {
        Ok(()) => Ok(Config { search_engine: Some(string_of(&chars_of(template))) }),
        Err(e) => Err(e),
    }
}

/// The configuration after the search template is reset: none stored.
pub fn reset_search_template() -> (c: Config)
    ensures
        c.search_engine is None,
{
    Config { search_engine: None }
}

/// A template that was set is the one searches then use.
pub proof fn lemma_set_template_is_used(template: Seq<char>, config: Config)
    requires
        valid_template(template),
        config.search_engine matches Some(s) && s@ == template,
    ensures
        template_of(config) == template,
{
}

/// After a reset, searches use the default template.
pub proof fn lemma_reset_uses_default(config: Config)
    requires
        config.search_engine is None,
    ensures
        template_of(config) == DEFAULT_SEARCH_TEMPLATE@,
{
}

/// What typed text stands for: a URL to load as it is, or a search query.
#[derive(Debug, Clone)]
pub enum UrlInput {
    /// A URL, with `https://` put in front where the text had no scheme.
    Url(String),
    /// Text to search for (trimmed, not yet escaped).
    Query(String),
}

/// The characters of a `UrlInput`.
pub enum UrlInputView {
    Url(Seq<char>),
    Query(Seq<char>),
}

impl View for UrlInput {
    type V = UrlInputView;

    open spec fn view(&self) -> UrlInputView {
        match self {
            UrlInput::Url(u) => UrlInputView::Url(u@),
            UrlInput::Query(q) => UrlInputView::Query(q@),
        }
    }
}

/// What typed text stands for: the URL it is loaded as directly, or else
/// its trimmed text as a search query.
pub open spec fn url_input_of(input: Seq<char>) -> UrlInputView {
    match direct_url(input) {
        Some(u) => UrlInputView::Url(u),
        None => UrlInputView::Query(trim(input)),
    }
}

/// The URL that typed text is loaded as directly, if it is one: text
/// (trimmed) that starts with `http://` or `https://` is kept; text with a
/// dot and no space gets `https://` in front; anything else is a search.
pub open spec fn direct_url(input: Seq<char>) -> Option<Seq<char>> {
    let t = trim(input);
    if is_web_url(t) {
        Some(t)
    } else if contains_seq(t, "."@) && !contains_seq(t, " "@) {
        Some("https://"@ + t)
    } else {
        None
    }
}

/// Decides whether typed text is a URL or a search query.
pub fn normalize_url(input: &str) -> (r: UrlInput)
    ensures
        r@ == url_input_of(input@),
        match direct_url(input@) {
            Some(u) => r matches UrlInput::Url(s) && s@ == u,
            None => r matches UrlInput::Query(q) && q@ == trim(input@),
        },
{
    let t = trim_chars(&chars_of(input));
    if is_web_url_exec(&t) {
        return UrlInput::Url(string_of(&t));
    }
    if contains(&t, &chars_of(".")) && !contains(&t, &chars_of(" ")) {
        return UrlInput::Url(string_of(&concat(&chars_of("https://"), &t)));
    }
    UrlInput::Query(string_of(&t))
}

/// The search URL for an already escaped query: every `{query}` in the
/// template replaced by it.
pub fn search_url(template: &str, escaped_query: &str) -> (url: String)
    ensures
        url@ == replace_all(template@, query_placeholder(), escaped_query@),
{
    let placeholder = chars_of("{query}");
    proof {
        reveal_strlit("{query}");
    }
    string_of(&replace(&chars_of(template), &placeholder, &chars_of(escaped_query)))
}


/// The command-line arguments that name pages to open: all but the
/// program's name, skipping empty ones, flags (starting with `-`) and those
/// that are not valid text (`None`).
pub open spec fn url_arguments(args: Seq<Option<Seq<char>>>) -> Seq<Seq<char>>
    decreases args.len(),
{
    if args.len() <= 1 {
        Seq::<Seq<char>>::empty()
    } else {
        let prev = url_arguments(args.drop_last());
        match args.last() {
            Some(a) => if a.len() > 0 && a[0] != '-' {
                prev.push(a)
            } else {
                prev
            },
            None => prev,
        }
    }
}

/// What the URL arguments of a command line stand for, in order.
pub fn urls_from_arguments(args: &Vec<Option<String>>) -> (r: Vec<UrlInput>)
    ensures
        r@.len() == url_arguments(args@.map_values(|a: Option<String>| crate::tabs::opt_chars(a))).len(),
        forall|k: int| 0 <= k < r@.len() ==> match direct_url(
            url_arguments(args@.map_values(|a: Option<String>| crate::tabs::opt_chars(a)))[k],
        ) {
            Some(u) => #[trigger] r@[k] matches UrlInput::Url(s) && s@ == u,
            None => r@[k] matches UrlInput::Query(q) && q@ == trim(
                url_arguments(args@.map_values(|a: Option<String>| crate::tabs::opt_chars(a)))[k],
            ),
        },
{
    let ghost views = args@.map_values(|a: Option<String>| crate::tabs::opt_chars(a));
    let mut r: Vec<UrlInput> = Vec::new();
    let mut i: usize = 1;
    if args.len() == 0 {
        return r;
    }
    assert(url_arguments(views.take(1)) =~= Seq::<Seq<char>>::empty());
    while i < args.len()
        invariant
            1 <= i <= args@.len(),
            views == args@.map_values(|a: Option<String>| crate::tabs::opt_chars(a)),
            r@.len() == url_arguments(views.take(i as int)).len(),
            forall|k: int| 0 <= k < r@.len() ==> match direct_url(url_arguments(views.take(i as int))[k]) {
                Some(u) => #[trigger] r@[k] matches UrlInput::Url(s) && s@ == u,
                None => r@[k] matches UrlInput::Query(q) && q@ == trim(url_arguments(views.take(i as int))[k]),
            },
        decreases args@.len() - i,
    {
        let ghost prev = url_arguments(views.take(i as int));
        assert(views.take(i + 1).drop_last() =~= views.take(i as int));
        assert(views.take(i + 1).last() == crate::tabs::opt_chars(args@[i as int]));
        if let Some(a) = &args[i] {
            let t = chars_of(a.as_str());
            if t.len() > 0 && t[0] != '-' {
                let u = normalize_url(a.as_str());
                r.push(u);
                assert(url_arguments(views.take(i + 1)) == prev.push(a@));
            }
        }
        i += 1;
    }
    assert(views.take(i as int) =~= views);
    r
}

proof fn lemma_replace_keeps_replacement(s: Seq<char>, pat: Seq<char>, rep: Seq<char>)
    requires
        pat.len() > 0,
        contains_seq(s, pat),
    ensures
        contains_seq(replace_all(s, pat, rep), rep),
    decreases s.len(),
{
    let i = choose|i: int| occurs_at(s, pat, i);
    if pat.is_prefix_of(s) {
        let r = replace_all(s, pat, rep);
        assert(r.subrange(0, rep.len() as int) =~= rep);
        assert(occurs_at(r, rep, 0));
    } else {
        assert(i != 0) by {
            if i == 0 {
                assert(s.subrange(0, pat.len() as int) == pat);
            }
        }
        let t = s.drop_first();
        assert(occurs_at(t, pat, i - 1)) by {
            assert(t.subrange(i - 1, i - 1 + pat.len()) =~= s.subrange(i, i + pat.len()));
        }
        lemma_replace_keeps_replacement(t, pat, rep);
        let rt = replace_all(t, pat, rep);
        let j = choose|j: int| occurs_at(rt, rep, j);
        let r = replace_all(s, pat, rep);
        assert(r == seq![s[0]] + rt);
        assert(r.subrange(j + 1, j + 1 + rep.len()) =~= rt.subrange(j, j + rep.len()));
        assert(occurs_at(r, rep, j + 1));
    }
}

/// A search URL made from a valid template holds the escaped query.
pub proof fn lemma_search_url_has_query(template: Seq<char>, escaped_query: Seq<char>)
    requires
        valid_template(template),
    ensures
        contains_seq(replace_all(template, query_placeholder(), escaped_query), escaped_query),
{
    reveal_strlit("{query}");
    lemma_replace_keeps_replacement(template, query_placeholder(), escaped_query);
}
/// `https://` holds no space, so put in front of text without a space it
/// gives text without a space.
proof fn lemma_https_prefix_no_space(t: Seq<char>)
    requires
        !contains_seq(t, " "@),
    ensures
        !contains_seq("https://"@ + t, " "@),
{
    reveal_strlit("https://");
    reveal_strlit(" ");
    let u = "https://"@ + t;
    if contains_seq(u, " "@) {
        let i = choose|i: int| occurs_at(u, " "@, i);
        assert(u.subrange(i, i + 1)[0] == ' ');
        assert(u[i] == ' ');
        if i < 8 {
            assert(u[i] == "https://"@[i]);
        } else {
            assert(u[i] == t[i - 8]);
            assert(t.subrange(i - 8, i - 7) =~= " "@);
            assert(occurs_at(t, " "@, i - 8));
        }
    }
}

/// Typed text with a space in it (once trimmed) that does not start with
/// `http://` or `https://` is searched for, never loaded as a URL; and a URL
/// made from typed text holds a space only where the text itself started
/// with a web scheme.
pub proof fn lemma_spaced_text_is_a_search(input: Seq<char>)
    ensures
        contains_seq(trim(input), " "@) && !is_web_url(trim(input)) ==> url_input_of(input)
            == UrlInputView::Query(trim(input)),
        url_input_of(input) matches UrlInputView::Url(u) ==> (!contains_seq(u, " "@) || is_web_url(
            trim(input),
        )),
{
    let t = trim(input);
    if !is_web_url(t) && contains_seq(t, "."@) && !contains_seq(t, " "@) {
        lemma_https_prefix_no_space(t);
    }
}

} // verus!
