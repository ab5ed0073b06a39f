//! The Bitwarden/Vaultwarden integration's logic: vault status, matching of
//! stored login URLs against the current page, credential selection, CLI
//! output handling and the script that fills a login form.
use vstd::prelude::*;
use vstd::utf8::{decode_utf8, valid_utf8};
use crate::text::{
    after_last_char, after_last_char_chars, ascii_lowercase, before_char, before_char_chars,
    after_first, chars_of, concat, find_char, replace, replace_all, seq_eq, split_once,
    slice, string_of, strip_trailing, strip_trailing_chars, to_ascii_lowercase, trim, trim_chars,
};

verus! {

/// The state of the vault as the CLI reports it.
#[derive(Debug, Clone, PartialEq, Eq)]
pub enum VaultStatus {
    Unauthenticated,
    Locked,
    Unlocked,
    Unknown(String),
}

/// The CLI's status report.
#[derive(Debug, Clone, PartialEq, Eq)]
pub struct BwStatus {
    pub server_url: Option<String>,
    pub user_email: Option<String>,
    pub status: VaultStatus,
}

/// The fields of `bw status` output, as read from its JSON.
#[derive(Debug, Clone)]
pub struct RawStatus {
    pub server_url: Option<String>,
    pub user_email: Option<String>,
    pub status: String,
}

/// A login that can fill a page.
#[derive(Debug, Clone, PartialEq, Eq)]
pub struct Credential {
    pub name: String,
    pub username: String,
    pub password: String,
}

/// What can go wrong when talking to the password manager.
#[derive(Debug)]
pub enum PasswordError {
    CommandFailed(String),
    InvalidJson(String),
    MissingPassword,
    NoCredentials(String),
    NoCredentialSelected,
    NoCurrentUrl,
}

/// The status string spelled `unauthenticated`, `locked` or `unlocked` maps to
/// its state, any other string to `Unknown` with that string.
pub fn status_from_raw(raw: RawStatus) -> (status: BwStatus)
    ensures
        status.server_url == raw.server_url,
        status.user_email == raw.user_email,
        raw.status@ == "unauthenticated"@ ==> status.status == VaultStatus::Unauthenticated,
        raw.status@ == "locked"@ ==> status.status == VaultStatus::Locked,
        raw.status@ == "unlocked"@ ==> status.status == VaultStatus::Unlocked,
        raw.status@ != "unauthenticated"@ && raw.status@ != "locked"@ && raw.status@
            != "unlocked"@ ==> (status.status matches VaultStatus::Unknown(s) && s@
            == raw.status@),
{
    proof {
        reveal_strlit("unauthenticated");
        reveal_strlit("locked");
        reveal_strlit("unlocked");
        assert("unauthenticated"@.len() == 15 && "locked"@.len() == 6 && "unlocked"@.len() == 8);
    }
    let state = chars_of(raw.status.as_str());
    let status = if seq_eq(&state, &chars_of("unauthenticated")) {
        VaultStatus::Unauthenticated
    } else if seq_eq(&state, &chars_of("locked")) {
        VaultStatus::Locked
    } else if seq_eq(&state, &chars_of("unlocked")) {
        VaultStatus::Unlocked
    } else {
        VaultStatus::Unknown(raw.status.clone())
    };
    BwStatus { server_url: raw.server_url, user_email: raw.user_email, status }
}


/// A character that ends the host part of a URL.
pub open spec fn ends_authority(c: char) -> bool {
    c == '/' || c == '?' || c == '#'
}

/// The part of `s` before the first `/`, `?` or `#`.
pub open spec fn before_path(s: Seq<char>) -> Seq<char>
    decreases s.len(),
{
    if s.len() == 0 {
        s
    } else if ends_authority(s[0]) {
        Seq::<char>::empty()
    } else {
        seq![s[0]] + before_path(s.drop_first())
    }
}

/// The text of `url` after its first `://`, or the whole text.
pub open spec fn after_scheme(url: Seq<char>) -> Seq<char> {
    match after_first(url, "://"@) {
        Some(rest) => rest,
        None => url,
    }
}

/// The host and port written in `url`: the part between the scheme and the
/// path, after any user information, trimmed, without trailing dots.
pub open spec fn authority_of(url: Seq<char>) -> Seq<char> {
    strip_trailing(trim(after_last_char(before_path(after_scheme(trim(url))), '@')), '.')
}

/// The host of an authority: a bracketed IPv6 address with its brackets, or
/// the part before the port.
pub open spec fn host_part(authority: Seq<char>) -> Seq<char> {
    if authority.len() > 0 && authority[0] == '[' {
        if authority.contains(']') {
            before_char(authority, ']').push(']')
        } else {
            authority
        }
    } else {
        before_char(authority, ':')
    }
}

/// The lower-case host named by a URL, if it names one.
pub open spec fn host_of(url: Seq<char>) -> Option<Seq<char>> {
    let h = ascii_lowercase(trim(host_part(authority_of(url))));
    if h.len() == 0 {
        None
    } else {
        Some(h)
    }
}

proof fn lemma_before_path(s: Seq<char>, i: int)
    requires
        0 <= i <= s.len(),
        forall|j: int| 0 <= j < i ==> !ends_authority(s[j]),
        i == s.len() || ends_authority(s[i]),
    ensures
        before_path(s) == s.take(i),
    decreases i,
{
    if i > 0 {
        lemma_before_path(s.drop_first(), i - 1);
        assert(seq![s[0]] + s.drop_first().take(i - 1) =~= s.take(i));
    } else {
        assert(s.take(0) =~= Seq::<char>::empty());
        if s.len() == 0 {
            assert(s =~= Seq::<char>::empty());
        }
    }
}

fn before_path_chars(s: &Vec<char>) -> (r: Vec<char>)
    ensures
        r@ == before_path(s@),
{
    let mut i: usize = 0;
    while i < s.len() && !(s[i] == '/' || s[i] == '?' || s[i] == '#')
        invariant
            i <= s.len(),
            forall|j: int| 0 <= j < i ==> !ends_authority(s@[j]),
        decreases s.len() - i,
    {
        i += 1;
    }
    proof {
        lemma_before_path(s@, i as int);
    }
    slice(s, 0, i)
}

/// The host that `url` names, in lower case, if it names one.
pub fn host(url: &str) -> (h: Option<String>)
    ensures
        h matches Some(x) ==> host_of(url@) == Some(x@),
        h is None ==> host_of(url@) is None,
{
    let trimmed = trim_chars(&chars_of(url));
    let scheme_end = chars_of("://");
    proof {
        reveal_strlit("://");
    }
    let rest = match split_once(&trimmed, &scheme_end) {
        Some((_, after)) => after,
        None => trimmed.clone(),
    };
    assert(rest@ == after_scheme(trim(url@)));
    let authority = before_path_chars(&rest);
    let user_free = after_last_char_chars(&authority, '@');
    let authority = strip_trailing_chars(&trim_chars(&user_free), '.');
    let part = if authority.len() > 0 && authority[0] == '[' {
        match find_char(&authority, ']') {
            Some(_) => {
                let mut h = before_char_chars(&authority, ']');
                h.push(']');
                h
            },
            None => authority.clone(),
        }
    } else {
        before_char_chars(&authority, ':')
    };
    let lowered = to_ascii_lowercase(&trim_chars(&part));
    if lowered.len() == 0 {
        None
    } else {
        Some(string_of(&lowered))
    }
}

/// Whether a stored login URL applies to the current page: the same URL, or
/// a page on the stored host or on one of its subdomains.
pub open spec fn urls_match_spec(stored: Seq<char>, current: Seq<char>) -> bool {
    stored == current || match (host_of(stored), host_of(current)) {
        (Some(s), Some(c)) => c == s || (seq!['.'] + s).is_suffix_of(c),
        _ => false,
    }
}

/// Whether a stored login URL applies to the current page. A URL always
/// matches itself, and a host matches its subdomains but not other hosts that
/// merely end in the same letters.
pub fn urls_match(stored: &str, current: &str) -> (r: bool)
    ensures
        r == urls_match_spec(stored@, current@),
{
    let s = chars_of(stored);
    let c = chars_of(current);
    if seq_eq(&s, &c) {
        return true;
    }
    match (host(stored), host(current)) {
        (Some(stored_host), Some(current_host)) => {
            let sh = chars_of(stored_host.as_str());
            let ch = chars_of(current_host.as_str());
            if seq_eq(&ch, &sh) {
                return true;
            }
            let mut dotted: Vec<char> = Vec::new();
            dotted.push('.');
            let dotted = concat(&dotted, &sh);
            assert(dotted@ =~= seq!['.'] + sh@);
            if dotted.len() > ch.len() {
                return false;
            }
            let tail = slice(&ch, ch.len() - dotted.len(), ch.len());
            seq_eq(&tail, &dotted)
        },
        _ => false,
    }
}


impl PasswordError {
    /// The message shown for the error.
    pub fn message(&self) -> (m: String)
        ensures
            m@ == password_error_message(*self),
    {
        match self {
            PasswordError::CommandFailed(message) => string_of(
                &concat(&chars_of("Bitwarden CLI failed: "), &chars_of(message.as_str())),
            ),
            PasswordError::InvalidJson(message) => string_of(
                &concat(&chars_of("invalid Bitwarden CLI output: "), &chars_of(message.as_str())),
            ),
            PasswordError::MissingPassword => String::from_str("unlock requires a password"),
            PasswordError::NoCredentials(url) => string_of(
                &concat(&chars_of("no credentials found for "), &chars_of(url.as_str())),
            ),
            PasswordError::NoCredentialSelected => String::from_str("no credential selected"),
            PasswordError::NoCurrentUrl => String::from_str("current tab has no URL"),
        }
    }
}

/// The message shown for a password-manager error.
pub open spec fn password_error_message(e: PasswordError) -> Seq<char> {
    match e {
        PasswordError::CommandFailed(m) => "Bitwarden CLI failed: "@ + m@,
        PasswordError::InvalidJson(m) => "invalid Bitwarden CLI output: "@ + m@,
        PasswordError::MissingPassword => "unlock requires a password"@,
        PasswordError::NoCredentials(url) => "no credentials found for "@ + url@,
        PasswordError::NoCredentialSelected => "no credential selected"@,
        PasswordError::NoCurrentUrl => "current tab has no URL"@,
    }
}

/// A URL stored with a vault item.
#[derive(Debug, Clone)]
pub struct BwUri {
    pub uri: Option<String>,
}

/// The login part of a vault item.
#[derive(Debug, Clone)]
pub struct BwLogin {
    pub username: Option<String>,
    pub password: Option<String>,
    pub uris: Vec<BwUri>,
}

/// A vault item as `bw list items` reports it.
#[derive(Debug, Clone)]
pub struct BwItem {
    pub name: String,
    pub login: Option<BwLogin>,
}

/// Whether a stored URL entry applies to the page at `url`.
pub open spec fn uri_matches(u: BwUri, url: Seq<char>) -> bool {
    match u.uri {
        Some(stored) => urls_match_spec(stored@, url),
        None => false,
    }
}

/// Whether one of a login's stored URLs applies to the page at `url`.
pub open spec fn login_matches(login: BwLogin, url: Seq<char>) -> bool {
    exists|i: int| 0 <= i < login.uris@.len() && uri_matches(#[trigger] login.uris@[i], url)
}

/// Whether a vault item's login applies to the page at `url`.
pub open spec fn item_matches(item: BwItem, url: Seq<char>) -> bool {
    match item.login {
        Some(login) => login_matches(login, url),
        None => false,
    }
}

/// The characters of a credential's name, username and password.
pub struct CredentialView {
    pub name: Seq<char>,
    pub username: Seq<char>,
    pub password: Seq<char>,
}

impl View for Credential {
    type V = CredentialView;

    open spec fn view(&self) -> CredentialView {
        CredentialView { name: self.name@, username: self.username@, password: self.password@ }
    }
}

/// The credential that a vault item gives: it needs a login with a password;
/// a missing username is empty.
pub open spec fn credential_of(item: BwItem) -> Option<CredentialView> {
    match item.login {
        Some(login) => match login.password {
            Some(password) => Some(
                CredentialView {
                    name: item.name@,
                    username: match login.username {
                        Some(u) => u@,
                        None => Seq::<char>::empty(),
                    },
                    password: password@,
                },
            ),
            None => None,
        },
        None => None,
    }
}

/// The credentials of the items that match `url`, in order.
pub open spec fn matching_credentials_of(items: Seq<BwItem>, url: Seq<char>) -> Seq<CredentialView>
    decreases items.len(),
{
    if items.len() == 0 {
        Seq::<CredentialView>::empty()
    } else {
        let rest = matching_credentials_of(items.drop_last(), url);
        let item = items.last();
        if item_matches(item, url) && credential_of(item) is Some {
            rest.push(credential_of(item)->0)
        } else {
            rest
        }
    }
}

impl BwUri {
    /// Whether this stored URL applies to the page at `url`.
    pub fn matches_url(&self, url: &str) -> (r: bool)
        ensures
            r == uri_matches(*self, url@),
    {
        match &self.uri {
            Some(stored) => urls_match(stored.as_str(), url),
            None => false,
        }
    }
}

impl BwLogin {
    /// Whether one of this login's stored URLs applies to the page at `url`.
    pub fn matches_url(&self, url: &str) -> (r: bool)
        ensures
            r == login_matches(*self, url@),
    {
        let mut i: usize = 0;
        while i < self.uris.len()
            invariant
                i <= self.uris.len(),
                forall|j: int| 0 <= j < i ==> !uri_matches(#[trigger] self.uris@[j], url@),
            decreases self.uris.len() - i,
        {
            if self.uris[i].matches_url(url) {
                return true;
            }
            i += 1;
        }
        false
    }
}

impl BwItem {
    /// Whether this item's login applies to the page at `url`.
    pub fn matches_url(&self, url: &str) -> (r: bool)
        ensures
            r == item_matches(*self, url@),
    {
        match &self.login {
            Some(login) => login.matches_url(url),
            None => false,
        }
    }

    /// The credential this item gives, if it has a login with a password.
    pub fn into_credential(self) -> (c: Option<Credential>)
        ensures
            c matches Some(x) ==> credential_of(self) == Some(x@),
            c is None ==> credential_of(self) is None,
    {
        credential_from(&self)
    }
}

fn credential_from(item: &BwItem) -> (c: Option<Credential>)
    ensures
        c matches Some(x) ==> credential_of(*item) == Some(x@),
        c is None ==> credential_of(*item) is None,
{
    match &item.login {
        Some(login) => match &login.password {
            Some(password) => {
                let username = match &login.username {
                    Some(u) => u.clone(),
                    None => String::new(),
                };
                Some(
                    Credential { name: item.name.clone(), username, password: password.clone() },
                )
            },
            None => None,
        },
        None => None,
    }
}

/// The credentials of the listed items that apply to the page at `url`; no
/// such credential is an error that names the URL.
pub fn matching_credentials(items: Vec<BwItem>, url: &str) -> (r: Result<
    Vec<Credential>,
    PasswordError,
>)
    ensures
        r matches Ok(v) ==> v@.map_values(|c: Credential| c@) == matching_credentials_of(
            items@,
            url@,
        ) && v@.len() > 0,
        r matches Err(e) ==> matching_credentials_of(items@, url@).len() == 0 && (e matches PasswordError::NoCredentials(u) && u@ == url@),
{
    let mut out: Vec<Credential> = Vec::new();
    let mut i: usize = 0;
    while i < items.len()
        invariant
            i <= items.len(),
            out@.map_values(|c: Credential| c@) == matching_credentials_of(items@.take(i as int), url@),
        decreases items.len() - i,
    {
        let item = &items[i];
        assert(items@.take(i + 1).drop_last() =~= items@.take(i as int));
        assert(items@.take(i + 1).last() == items@[i as int]);
        if item.matches_url(url) {
            let ghost before = out@;
            match credential_from(item) {
                Some(c) => {
                    out.push(c);
                    assert(out@.map_values(|c: Credential| c@) =~= before.map_values(
                        |c: Credential| c@,
                    ).push(c@));
                },
                None => {},
            }
        }
        i += 1;
    }
    assert(items@.take(i as int) =~= items@);
    if out.len() == 0 {
        return Err(PasswordError::NoCredentials(String::from_str(url)));
    }
    Ok(out)
}


/// A lower-case hexadecimal digit.
pub open spec fn hex_lower(d: int) -> char {
    seq!['0', '1', '2', '3', '4', '5', '6', '7', '8', '9', 'a', 'b', 'c', 'd', 'e', 'f'][d]
}

/// How one character is written inside a JSON string: quote, backslash and
/// the control characters below U+0020 are escaped, everything else is kept.
pub open spec fn json_escape_char(c: char) -> Seq<char> {
    if c == '"' {
        seq!['\\', '"']
    } else if c == '\\' {
        seq!['\\', '\\']
    } else if c == '\u{8}' {
        seq!['\\', 'b']
    } else if c == '\u{c}' {
        seq!['\\', 'f']
    } else if c == '\n' {
        seq!['\\', 'n']
    } else if c == '\r' {
        seq!['\\', 'r']
    } else if c == '\t' {
        seq!['\\', 't']
    } else if (c as u32) < 0x20 {
        seq!['\\', 'u', '0', '0', hex_lower((c as int) / 16), hex_lower((c as int) % 16)]
    } else {
        seq![c]
    }
}

/// The characters of `s` escaped for a JSON string.
pub open spec fn json_escape(s: Seq<char>) -> Seq<char>
    decreases s.len(),
{
    if s.len() == 0 {
        s
    } else {
        json_escape(s.drop_last()) + json_escape_char(s.last())
    }
}

/// `s` as a JSON string literal.
pub open spec fn json_quoted(s: Seq<char>) -> Seq<char> {
    seq!['"'] + json_escape(s) + seq!['"']
}

/// `serde_json::to_string` on a string: the string as a JSON string literal,
/// in quotes, with quote, backslash and the control characters escaped (as
/// `json_quoted` states). Serializing a `str` into memory does not fail, so
/// the error arm, which gives the empty literal `""` as a stand-in, is never
/// taken and the quoted text is what comes back.
#[verifier::external_body]
fn json_string(value: &str) -> (r: String)
    ensures
        r@ == json_quoted(value@),
{
    match serde_json::to_string(value) {
        Ok(text) => text,
        Err(_) => "\"\"".to_string(),
    }
}

/// The script that fills a page's login form; `__USERNAME__` and
/// `__PASSWORD__` stand for the credential's values.
pub const FILL_SCRIPT_TEMPLATE: &'static str = r#"
(function() {
    const username = __USERNAME__;
    const password = __PASSWORD__;

    function visible(el) {
        const rect = el.getBoundingClientRect();
        const style = window.getComputedStyle(el);
        return rect.width > 0 && rect.height > 0 &&
            style.visibility !== 'hidden' &&
            style.display !== 'none' &&
            !el.disabled && !el.readOnly;
    }

    function setValue(el, value) {
        el.focus();
        el.value = value;
        el.dispatchEvent(new Event('input', { bubbles: true }));
        el.dispatchEvent(new Event('change', { bubbles: true }));
    }

    const inputs = Array.from(document.querySelectorAll('input')).filter(visible);
    const passwordField = inputs.find(el => el.type === 'password');
    const usernameField = inputs.find(el => {
        const type = (el.type || '').toLowerCase();
        const name = `${el.name || ''} ${el.id || ''} ${el.autocomplete || ''}`.toLowerCase();
        return el !== passwordField &&
            ['text', 'email', 'tel', 'url', 'search', ''].includes(type) &&
            (name.includes('user') || name.includes('email') || name.includes('login') ||
                name.includes('account') || name.includes('identifier'));
    }) || inputs.find(el => {
        const type = (el.type || '').toLowerCase();
        return el !== passwordField && ['text', 'email', 'tel', 'url', 'search', ''].includes(type);
    });

    if (usernameField) {
        setValue(usernameField, username);
    }
    if (passwordField) {
        setValue(passwordField, password);
    }

    return passwordField ? 'filled' : 'no-password-field';
})()
"#;

/// The form-filling script for a username and password: the template with the
/// username's JSON literal in place of `__USERNAME__`, then the password's in
/// place of `__PASSWORD__`, so that the values are never read as code.
pub fn build_fill_js(username: &str, password: &str) -> (js: String)
    ensures
        js@ == replace_all(
            replace_all(FILL_SCRIPT_TEMPLATE@, "__USERNAME__"@, json_quoted(username@)),
            "__PASSWORD__"@,
            json_quoted(password@),
        ),
{
    let template = chars_of(FILL_SCRIPT_TEMPLATE);
    let user_marker = chars_of("__USERNAME__");
    let password_marker = chars_of("__PASSWORD__");
    proof {
        reveal_strlit("__USERNAME__");
        reveal_strlit("__PASSWORD__");
    }
    let user_json = chars_of(json_string(username).as_str());
    let password_json = chars_of(json_string(password).as_str());
    let filled = replace(&template, &user_marker, &user_json);
    string_of(&replace(&filled, &password_marker, &password_json))
}

/// The text of bytes that the CLI printed, as `String::from_utf8_lossy` reads
/// them.
pub uninterp spec fn utf8_lossy(bytes: Seq<u8>) -> Seq<char>;

/// `String::from_utf8_lossy`: valid UTF-8 decodes to its characters; in other
/// input, invalid sequences become U+FFFD (not stated beyond the name).
#[verifier::external_body]
fn lossy_text(bytes: &[u8]) -> (r: String)
    ensures
        r@ == utf8_lossy(bytes@),
        valid_utf8(bytes@) ==> r@ == decode_utf8(bytes@),
{
    String::from_utf8_lossy(bytes).into_owned()
}

/// The message for a failed CLI call: its standard error output, trimmed, or
/// `unknown error` when that is empty.
pub fn stderr_text(stderr: &[u8]) -> (m: String)
    ensures
        m@ == (if trim(utf8_lossy(stderr@)).len() == 0 {
            "unknown error"@
        } else {
            trim(utf8_lossy(stderr@))
        }),
{
    let message = trim_chars(&chars_of(lossy_text(stderr).as_str()));
    if message.len() == 0 {
        String::from_str("unknown error")
    } else {
        string_of(&message)
    }
}

/// The session token that `bw unlock --raw` printed: its trimmed output, which
/// must not be empty.
pub fn unlock_token(stdout: &[u8]) -> (r: Result<String, PasswordError>)
    ensures
        r matches Ok(t) ==> t@ == trim(utf8_lossy(stdout@)) && t@.len() > 0,
        r is Err ==> trim(utf8_lossy(stdout@)).len() == 0,
        r matches Err(e) ==> (e matches PasswordError::CommandFailed(m) && m@
            == "unlock did not return a session token"@),
{
    let token = trim_chars(&chars_of(lossy_text(stdout).as_str()));
    if token.len() == 0 {
        return Err(
            PasswordError::CommandFailed(String::from_str("unlock did not return a session token")),
        );
    }
    Ok(string_of(&token))
}

/// Unlocking needs a master password.
pub fn check_unlock_password(password: &str) -> (r: Result<(), PasswordError>)
    ensures
        r is Ok <==> password@.len() > 0,
        r matches Err(e) ==> e is MissingPassword,
{
    if password.unicode_len() == 0 {
        Err(PasswordError::MissingPassword)
    } else {
        Ok(())
    }
}

/// The session token for listing items, which exists only once the vault is
/// unlocked.
pub fn unlocked_session(session: &Option<String>) -> (r: Result<String, PasswordError>)
    ensures
        r matches Ok(t) ==> session == Some(t),
        r is Err ==> session is None,
        r matches Err(e) ==> (e matches PasswordError::CommandFailed(m) && m@
            == "vault is locked; run :bw unlock"@),
{
    match session {
        Some(token) => Ok(token.clone()),
        None => Err(PasswordError::CommandFailed(String::from_str("vault is locked; run :bw unlock"))),
    }
}

fn duplicate(c: &Credential) -> (r: Credential)
    ensures
        r == *c,
{
    Credential { name: c.name.clone(), username: c.username.clone(), password: c.password.clone() }
}

/// The credential chosen without asking: the only one, when there is exactly
/// one; with several the user picks in a dialog.
pub fn only_credential(credentials: &Vec<Credential>) -> (c: Option<Credential>)
    ensures
        credentials@.len() == 1 ==> c == Some(credentials@[0]),
        credentials@.len() != 1 ==> c is None,
{
    if credentials.len() == 1 {
        Some(duplicate(&credentials[0]))
    } else {
        None
    }
}

/// The credential picked in the chooser dialog: the selected row's, if the
/// dialog was accepted.
pub fn picked_credential(credentials: &Vec<Credential>, selected: Option<usize>, accepted: bool) -> (c: Option<Credential>)
    ensures
        c is Some <==> accepted && selected is Some && selected->0 < credentials@.len(),
        c matches Some(x) ==> x == credentials@[selected->0 as int],
{
    if !accepted {
        return None;
    }
    match selected {
        Some(index) if index < credentials.len() => Some(duplicate(&credentials[index])),
        _ => None,
    }
}

/// Whether a vault item gives a credential for the page at `url`: its login
/// matches the page and has a password.
pub open spec fn gives_credential(item: BwItem, url: Seq<char>) -> bool {
    item_matches(item, url) && credential_of(item) is Some
}

/// The credentials for a page are those of all the items that give one, in
/// the items' order: none is dropped and none is added, so there are exactly
/// as many as such items.
pub proof fn lemma_matching_credentials_are_all_matching_items(items: Seq<BwItem>, url: Seq<char>)
    ensures
        matching_credentials_of(items, url) == items.filter(|i: BwItem| gives_credential(i, url)).map_values(
            |i: BwItem| credential_of(i)->0,
        ),
        matching_credentials_of(items, url).len() == items.filter(|i: BwItem| gives_credential(i, url)).len(),
    decreases items.len(),
{
    let pred = |i: BwItem| gives_credential(i, url);
    reveal_with_fuel(Seq::filter, 1);
    if items.len() > 0 {
        lemma_matching_credentials_are_all_matching_items(items.drop_last(), url);
        assert(items.filter(pred) == if pred(items.last()) {
            items.drop_last().filter(pred).push(items.last())
        } else {
            items.drop_last().filter(pred)
        });
        assert(matching_credentials_of(items, url) =~= items.filter(pred).map_values(
            |i: BwItem| credential_of(i)->0,
        ));
    } else {
        assert(items.filter(pred).len() == 0);
        assert(matching_credentials_of(items, url) =~= items.filter(pred).map_values(
            |i: BwItem| credential_of(i)->0,
        ));
    }
}

} // verus!
