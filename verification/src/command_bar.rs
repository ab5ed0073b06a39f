//! The command bar's logic: which input shows completions, moving through
//! them, what Enter does in each mode, terminal commands and their output,
//! and how a URL is shown.
use vstd::prelude::*;
use vstd::utf8::{decode_utf8, is_ascii_chars, valid_utf8};
use crate::commands::{texts, CommandSuggestion};
use crate::modes::Mode;
use crate::text::{
    chars_of, concat, decimal_i32, int_decimal, push_all, slice, string_of, trim, trim_chars,
    trim_start, trim_start_chars,
};

verus! {

/// The most completions the bar lists.
pub const MAX_COMPLETIONS: usize = 8;

/// How many completions are listed out of `count`.
pub fn visible_suggestion_count(count: usize) -> (n: usize)
    ensures
        n == if count < 8 {
            count
        } else {
            8
        },
{
    if count < MAX_COMPLETIONS {
        count
    } else {
        MAX_COMPLETIONS
    }
}

/// The completion selected after moving down: the next one, wrapping
/// around; none when no completion is listed.
pub fn select_next_completion(selected: usize, count: usize) -> (r: Option<usize>)
    requires
        count == 0 || selected < usize::MAX,
    ensures
        count == 0 <==> r is None,
        r matches Some(n) ==> n == (selected + 1) % (count as int),
{
    if count == 0 {
        return None;
    }
    Some((selected + 1) % count)
}

/// The completion selected after moving up: the previous one, wrapping
/// around; none when no completion is listed.
pub fn select_previous_completion(selected: usize, count: usize) -> (r: Option<usize>)
    ensures
        count == 0 <==> r is None,
        r matches Some(n) ==> n == if selected == 0 {
            count - 1
        } else {
            selected - 1
        },
{
    if count == 0 {
        return None;
    }
    if selected == 0 {
        Some(count - 1)
    } else {
        Some(selected - 1)
    }
}

/// The text that choosing a completion puts in the bar: the selected
/// suggestion's completion (the last one if the selection is past the end),
/// followed by a space when the command takes arguments.
pub fn apply_selected_completion(suggestions: &Vec<CommandSuggestion>, selected: usize) -> (r: Option<String>)
    ensures
        suggestions@.len() == 0 <==> r is None,
        r matches Some(t) ==> {
            let k = if selected < suggestions@.len() {
                selected as int
            } else {
                suggestions@.len() - 1
            };
            t@ == suggestions@[k]@.completion + if suggestions@[k].accepts_args {
                " "@
            } else {
                ""@
            }
        },
{
    if suggestions.len() == 0 {
        return None;
    }
    let k = if selected < suggestions.len() {
        selected
    } else {
        suggestions.len() - 1
    };
    let s = &suggestions[k];
    let suffix = if s.accepts_args {
        chars_of(" ")
    } else {
        chars_of("")
    };
    Some(string_of(&concat(&chars_of(s.completion.as_str()), &suffix)))
}

/// Aliases joined with `, `.
pub open spec fn joined(names: Seq<Seq<char>>) -> Seq<char>
    decreases names.len(),
{
    if names.len() == 0 {
        Seq::<char>::empty()
    } else if names.len() == 1 {
        names[0]
    } else {
        joined(names.drop_last()) + ", "@ + names.last()
    }
}

fn join_names(names: &Vec<String>) -> (r: Vec<char>)
    ensures
        r@ == joined(texts(names@)),
{
    let mut r: Vec<char> = Vec::new();
    let mut i: usize = 0;
    assert(texts(names@).take(0) =~= Seq::<Seq<char>>::empty());
    while i < names.len()
        invariant
            i <= names@.len(),
            r@ == joined(texts(names@).take(i as int)),
        decreases names@.len() - i,
    {
        let ghost prev = r@;
        if i > 0 {
            push_all(&mut r, &chars_of(", "));
        }
        push_all(&mut r, &chars_of(names[i].as_str()));
        let ghost t = texts(names@).take(i + 1);
        assert(t.drop_last() =~= texts(names@).take(i as int));
        assert(t.last() == names@[i as int]@);
        if i == 0 {
            assert(r@ =~= t[0]);
        } else {
            assert(r@ =~= prev + ", "@ + t.last());
        }
        i += 1;
    }
    assert(texts(names@).take(i as int) =~= texts(names@));
    r
}

/// The two columns of a completion row: `> :name [aliases]` (with a space
/// in place of `>` when not selected) and `usage - description`.
pub open spec fn completion_columns(s: crate::commands::SuggestionInfo, selected: bool) -> (Seq<char>, Seq<char>) {
    let marker = if selected {
        ">"@
    } else {
        " "@
    };
    let aliases = if s.aliases.len() == 0 {
        Seq::<char>::empty()
    } else {
        " ["@ + joined(s.aliases) + "]"@
    };
    (marker + " :"@ + s.name + aliases, s.usage + " - "@ + s.description)
}

/// The text of a completion row, before markup.
pub fn completion_row(suggestion: &CommandSuggestion, selected: bool) -> (r: (String, String))
    ensures
        (r.0@, r.1@) == completion_columns(suggestion@, selected),
{
    let marker = if selected {
        chars_of(">")
    } else {
        chars_of(" ")
    };
    let aliases = if suggestion.aliases.len() == 0 {
        Vec::new()
    } else {
        concat(&concat(&chars_of(" ["), &join_names(&suggestion.aliases)), &chars_of("]"))
    };
    let command = concat(
        &concat(&concat(&marker, &chars_of(" :")), &chars_of(suggestion.name.as_str())),
        &aliases,
    );
    let description = concat(
        &concat(&chars_of(suggestion.usage.as_str()), &chars_of(" - ")),
        &chars_of(suggestion.description.as_str()),
    );
    (string_of(&command), string_of(&description))
}

/// The label of a tab-search row: `▶ title`, or a space in place of the
/// arrow when not selected.
pub fn tab_search_row(title: &str, selected: bool) -> (r: String)
    ensures
        r@ == (if selected {
            "▶"@
        } else {
            " "@
        }) + " "@ + title@,
{
    let marker = if selected {
        chars_of("▶")
    } else {
        chars_of(" ")
    };
    string_of(&concat(&concat(&marker, &chars_of(" ")), &chars_of(title)))
}

/// The height of the completion list showing `rows` rows.
pub fn completion_list_height(rows: usize) -> (h: i32)
    ensures
        h == 12 + 22 * (if rows < 8 {
            rows as int
        } else {
            8
        }),
{
    let n = visible_suggestion_count(rows) as i32;
    12 + n * 22
}

/// Whether the bar's text asks for command completions: it starts with `:`
/// after any leading white space.
pub fn shows_command_completions(text: &str) -> (r: bool)
    ensures
        r == (trim_start(text@).len() > 0 && trim_start(text@)[0] == ':'),
{
    let t = trim_start_chars(&chars_of(text));
    t.len() > 0 && t[0] == ':'
}

/// Whether a tab search jumps straight to its only match: a non-blank query
/// with exactly one matching tab.
pub fn should_open_unique_tab(query: &str, match_count: usize) -> (r: bool)
    ensures
        r == (trim(query@).len() > 0 && match_count == 1),
{
    trim_chars(&chars_of(query)).len() > 0 && match_count == 1
}

/// The query of a tab search: the text after a leading `/`.
pub fn tab_search_query(text: &str) -> (q: String)
    ensures
        q@ == if text@.len() > 0 && text@[0] == '/' {
            text@.drop_first()
        } else {
            text@
        },
{
    let t = chars_of(text);
    if t.len() > 0 && t[0] == '/' {
        string_of(&slice(&t, 1, t.len()))
    } else {
        string_of(&t)
    }
}

/// The command that `!` input runs: the trimmed input without its leading
/// `!`, trimmed again.
pub open spec fn terminal_command_of(input: Seq<char>) -> Seq<char> {
    let t = trim(input);
    if t.len() > 0 && t[0] == '!' {
        trim(t.drop_first())
    } else {
        trim(input)
    }
}

/// The shell command of terminal input.
pub fn terminal_command(input: &str) -> (c: String)
    ensures
        c@ == terminal_command_of(input@),
{
    let t = trim_chars(&chars_of(input));
    if t.len() > 0 && t[0] == '!' {
        string_of(&trim_chars(&slice(&t, 1, t.len())))
    } else {
        string_of(&trim_chars(&chars_of(input)))
    }
}

/// What a finished terminal command left.
#[derive(Debug, Clone)]
pub struct TerminalOutput {
    pub command: String,
    /// The exit code; none when a signal ended the command.
    pub status: Option<i32>,
    pub stdout: String,
    pub stderr: String,
}

/// The report of a finished command: `$ command`, its exit status (or
/// `signal`), and each output stream that is not empty under a heading.
pub open spec fn terminal_report(command: Seq<char>, status: Option<i32>, stdout: Seq<char>, stderr: Seq<char>) -> Seq<char> {
    let code = match status {
        Some(c) => int_decimal(c as int),
        None => "signal"@,
    };
    "$ "@ + command + "\n\nexit: "@ + code + (if stdout.len() > 0 {
        "\n\nstdout:\n"@ + stdout
    } else {
        Seq::<char>::empty()
    }) + (if stderr.len() > 0 {
        "\n\nstderr:\n"@ + stderr
    } else {
        Seq::<char>::empty()
    })
}

/// The text shown for a finished command.
pub fn format_terminal_output(output: &TerminalOutput) -> (text: String)
    ensures
        text@ == terminal_report(output.command@, output.status, output.stdout@, output.stderr@),
{
    let code = match output.status {
        Some(c) => decimal_i32(c),
        None => chars_of("signal"),
    };
    let mut text = concat(
        &concat(&concat(&chars_of("$ "), &chars_of(output.command.as_str())), &chars_of("\n\nexit: ")),
        &code,
    );
    let out = chars_of(output.stdout.as_str());
    let err = chars_of(output.stderr.as_str());
    let ghost head = text@;
    if out.len() > 0 {
        push_all(&mut text, &chars_of("\n\nstdout:\n"));
        push_all(&mut text, &out);
    }
    let ghost mid = text@;
    assert(mid =~= head + (if out@.len() > 0 {
        "\n\nstdout:\n"@ + out@
    } else {
        Seq::<char>::empty()
    }));
    if err.len() > 0 {
        push_all(&mut text, &chars_of("\n\nstderr:\n"));
        push_all(&mut text, &err);
    }
    assert(text@ =~= mid + (if err@.len() > 0 {
        "\n\nstderr:\n"@ + err@
    } else {
        Seq::<char>::empty()
    }));
    string_of(&text)
}

/// The text shown when a command could not be started.
pub fn terminal_start_failure(error: &str) -> (text: String)
    ensures
        text@ == "Failed to start command:\n"@ + error@,
{
    string_of(&concat(&chars_of("Failed to start command:\n"), &chars_of(error)))
}

/// The value of a hexadecimal digit.
pub open spec fn hex_value(c: char) -> Option<u8> {
    if '0' <= c && c <= '9' {
        Some((c as u32 - '0' as u32) as u8)
    } else if 'a' <= c && c <= 'f' {
        Some((c as u32 - 'a' as u32 + 10) as u8)
    } else if 'A' <= c && c <= 'F' {
        Some((c as u32 - 'A' as u32 + 10) as u8)
    } else {
        None
    }
}

/// The value of a hexadecimal digit.
pub fn hex_digit(c: char) -> (r: Option<u8>)
    ensures
        r == hex_value(c),
{
    if '0' <= c && c <= '9' {
        Some((c as u32 - '0' as u32) as u8)
    } else if 'a' <= c && c <= 'f' {
        Some((c as u32 - 'a' as u32 + 10) as u8)
    } else if 'A' <= c && c <= 'F' {
        Some((c as u32 - 'A' as u32 + 10) as u8)
    } else {
        None
    }
}

/// The byte that two hexadecimal digits write.
pub fn hex_byte(high: char, low: char) -> (r: Option<u8>)
    ensures
        r == match (hex_value(high), hex_value(low)) {
            (Some(h), Some(l)) => Some((h * 16 + l) as u8),
            _ => None,
        },
{
    match (hex_digit(high), hex_digit(low)) {
        (Some(h), Some(l)) => {
            assert(h * 16 + l < 256);
            Some(h * 16 + l)
        },
        _ => None,
    }
}

/// A `%XX` escape starts `s`.
pub open spec fn escape_at_start(s: Seq<char>) -> bool {
    2 < s.len() && s[0] == '%' && hex_value(s[1]) is Some && hex_value(s[2]) is Some
}

/// The bytes of the run of `%XX` escapes that starts `s`.
pub open spec fn escape_run_bytes(s: Seq<char>) -> Seq<u8>
    decreases s.len(),
{
    if escape_at_start(s) {
        seq![(hex_value(s[1]).unwrap() * 16 + hex_value(s[2]).unwrap()) as u8] + escape_run_bytes(
            s.skip(3),
        )
    } else {
        Seq::<u8>::empty()
    }
}

/// The number of characters the run of `%XX` escapes that starts `s` takes.
pub open spec fn escape_run_len(s: Seq<char>) -> nat
    decreases s.len(),
{
    if escape_at_start(s) {
        3 + escape_run_len(s.skip(3))
    } else {
        0
    }
}

/// A run of escapes fits in the text, and one that starts it is at least one escape long.
pub proof fn lemma_escape_run_len(s: Seq<char>)
    ensures
        escape_run_len(s) <= s.len(),
        escape_at_start(s) ==> escape_run_len(s) >= 3,
    decreases s.len(),
{
    if escape_at_start(s) {
        lemma_escape_run_len(s.skip(3));
    }
}

/// A URL as shown: each run of `%XX` escapes that spells non-ASCII UTF-8
/// text is decoded; other escapes, and everything else, stay as they are.
pub open spec fn readable(s: Seq<char>) -> Seq<char>
    decreases s.len(),
{
    if s.len() == 0 {
        Seq::<char>::empty()
    } else if !escape_at_start(s) {
        seq![s[0]] + readable(s.drop_first())
    } else {
        let n = escape_run_len(s);
        let d = escape_run_bytes(s);
        proof {
            lemma_escape_run_len(s);
        }
        (if valid_utf8(d) && !is_ascii_chars(decode_utf8(d)) {
            decode_utf8(d)
        } else {
            s.take(n as int)
        }) + readable(s.skip(n as int))
    }
}

/// Text without `%` is shown as it is.
pub proof fn lemma_readable_without_escapes(s: Seq<char>)
    requires
        !s.contains('%'),
    ensures
        readable(s) == s,
    decreases s.len(),
{
    if s.len() > 0 {
        assert(s[0] != '%');
        let t = s.drop_first();
        assert(!t.contains('%')) by {
            if t.contains('%') {
                let k = choose|k: int| 0 <= k < t.len() && t[k] == '%';
                assert(s[k + 1] == '%');
            }
        }
        lemma_readable_without_escapes(t);
        assert(seq![s[0]] + t =~= s);
    }
}

/// `std::str::from_utf8`: the text of bytes that are valid UTF-8, and none
/// for any other bytes.
#[verifier::external_body]
fn utf8_text(bytes: &[u8]) -> (r: Option<String>)
    ensures
        r is Some <==> valid_utf8(bytes@),
        r matches Some(t) ==> t@ == decode_utf8(bytes@),
{
    match std::str::from_utf8(bytes) {
        Ok(text) => Some(text.to_string()),
        Err(_) => None,
    }
}

/// A URL (or part of one) with escaped non-ASCII text decoded for display;
/// escapes of ASCII characters, such as `%2F`, are kept.
pub fn readable_percent_encoding(input: &str) -> (r: String)
    ensures
        r@ == readable(input@),
{
    let t = chars_of(input);
    let n = t.len();
    let mut out: Vec<char> = Vec::new();
    let mut i: usize = 0;
    assert(t@.skip(0) =~= t@);
    while i < n
        invariant
            i <= n == t@.len(),
            out@ + readable(t@.skip(i as int)) == readable(t@),
        decreases n - i,
    {
        let ghost rest = t@.skip(i as int);
        let is_escape = n - i > 2 && t[i] == '%' && hex_digit(t[i + 1]).is_some() && hex_digit(
            t[i + 2],
        ).is_some();
        assert(is_escape == escape_at_start(rest));
        if !is_escape {
            let ghost before = out@;
            out.push(t[i]);
            assert(rest.drop_first() =~= t@.skip(i + 1));
            assert(out@ + readable(t@.skip(i + 1)) =~= before + (seq![rest[0]] + readable(rest.drop_first())));
            i += 1;
        } else {
            let start = i;
            let mut decoded: Vec<u8> = Vec::new();
            let mut j: usize = i;
            proof {
                lemma_escape_run_len(rest);
            }
            while n - j > 2 && t[j] == '%' && hex_digit(t[j + 1]).is_some() && hex_digit(t[j + 2]).is_some()
                invariant
                    start <= j <= n == t@.len(),
                    rest == t@.skip(start as int),
                    decoded@ + escape_run_bytes(t@.skip(j as int)) == escape_run_bytes(rest),
                    (j - start) + escape_run_len(t@.skip(j as int)) == escape_run_len(rest),
                decreases n - j,
            {
                let ghost sj = t@.skip(j as int);
                assert(escape_at_start(sj));
                assert(sj.skip(3) =~= t@.skip(j + 3));
                let b = hex_byte(t[j + 1], t[j + 2]);
                let byte = match b {
                    Some(v) => v,
                    None => 0,
                };
                let ghost d0 = decoded@;
                decoded.push(byte);
                assert(decoded@ + escape_run_bytes(t@.skip(j + 3)) =~= d0 + escape_run_bytes(sj));
                j += 3;
            }
            proof {
                let sj = t@.skip(j as int);
                assert(!escape_at_start(sj));
                assert(escape_run_bytes(sj) == Seq::<u8>::empty());
                assert(decoded@ =~= escape_run_bytes(rest));
                assert(t@.skip(j as int) =~= rest.skip(escape_run_len(rest) as int));
            }
            let ghost before = out@;
            let mut replaced = false;
            match utf8_text(decoded.as_slice()) {
                Some(text) => {
                    if !text.as_str().is_ascii() {
                        push_all(&mut out, &chars_of(text.as_str()));
                        replaced = true;
                    }
                },
                None => {},
            }
            if !replaced {
                push_all(&mut out, &slice(&t, start, j));
                assert(t@.subrange(start as int, j as int) =~= rest.take(escape_run_len(rest) as int));
            }
            assert(out@ + readable(t@.skip(j as int)) =~= before + readable(rest));
            i = j;
        }
    }
    assert(t@.skip(i as int) =~= Seq::<char>::empty());
    assert(out@ + Seq::<char>::empty() =~= out@);
    string_of(&out)
}

/// How the bar shows a URL: nothing for no URL; the whole URL (made
/// readable) when it is neither `http` nor `https`; else the origin
/// (`https://` left out) and the rest (made readable) apart.
#[derive(Debug, Clone)]
pub enum UrlLabel {
    Empty,
    Plain(String),
    Split { origin: String, detail: String },
}

/// Where a URL's origin ends: at the first `/`, `?` or `#`, or at its end.
pub open spec fn origin_end(s: Seq<char>) -> int
    decreases s.len(),
{
    if s.len() == 0 {
        0
    } else if s[0] == '/' || s[0] == '?' || s[0] == '#' {
        0
    } else {
        1 + origin_end(s.drop_first())
    }
}

proof fn lemma_origin_end(s: Seq<char>)
    ensures
        0 <= origin_end(s) <= s.len(),
        forall|k: int| 0 <= k < origin_end(s) ==> #[trigger] s[k] != '/' && s[k] != '?' && s[k] != '#',
        origin_end(s) < s.len() ==> (s[origin_end(s)] == '/' || s[origin_end(s)] == '?' || s[origin_end(s)] == '#'),
    decreases s.len(),
{
    if s.len() > 0 && !(s[0] == '/' || s[0] == '?' || s[0] == '#') {
        lemma_origin_end(s.drop_first());
        assert forall|k: int| 0 <= k < origin_end(s) implies #[trigger] s[k] != '/' && s[k] != '?' && s[k] != '#' by {
            if k > 0 {
                assert(s[k] == s.drop_first()[k - 1]);
            }
        }
    }
}

/// The label parts of a URL.
pub open spec fn url_label_of(url: Seq<char>) -> (int, Seq<char>, Seq<char>) {
    if url.len() == 0 {
        (0, Seq::<char>::empty(), Seq::<char>::empty())
    } else if "https://"@.is_prefix_of(url) || "http://"@.is_prefix_of(url) {
        let https = "https://"@.is_prefix_of(url);
        let scheme = if https {
            Seq::<char>::empty()
        } else {
            "http://"@
        };
        let rest = if https {
            url.skip(8)
        } else {
            url.skip(7)
        };
        let e = origin_end(rest);
        (2, scheme + rest.take(e), readable(rest.skip(e)))
    } else {
        (1, readable(url), Seq::<char>::empty())
    }
}

/// Splits a URL for display.
pub fn url_label(url: &str) -> (r: UrlLabel)
    ensures
        match r {
            UrlLabel::Empty => url_label_of(url@).0 == 0,
            UrlLabel::Plain(p) => url_label_of(url@).0 == 1 && p@ == url_label_of(url@).1,
            UrlLabel::Split { origin, detail } => url_label_of(url@).0 == 2 && origin@ == url_label_of(
                url@,
            ).1 && detail@ == url_label_of(url@).2,
        },
{
    let u = chars_of(url);
    if u.len() == 0 {
        return UrlLabel::Empty;
    }
    let https = crate::text::starts_with(&u, &chars_of("https://"));
    let http = crate::text::starts_with(&u, &chars_of("http://"));
    if !https && !http {
        return UrlLabel::Plain(readable_percent_encoding(url));
    }
    proof {
        reveal_strlit("https://");
        reveal_strlit("http://");
    }
    let (scheme, rest) = if https {
        (Vec::new(), slice(&u, 8, u.len()))
    } else {
        (chars_of("http://"), slice(&u, 7, u.len()))
    };
    assert(rest@ =~= (if https {
        u@.skip(8)
    } else {
        u@.skip(7)
    }));
    let mut e: usize = 0;
    proof {
        lemma_origin_end(rest@);
    }
    while e < rest.len() && rest[e] != '/' && rest[e] != '?' && rest[e] != '#'
        invariant
            e <= origin_end(rest@) <= rest@.len(),
            forall|k: int| 0 <= k < origin_end(rest@) ==> #[trigger] rest@[k] != '/' && rest@[k] != '?' && rest@[k] != '#',
            origin_end(rest@) < rest@.len() ==> (rest@[origin_end(rest@)] == '/' || rest@[origin_end(rest@)] == '?'
                || rest@[origin_end(rest@)] == '#'),
        decreases rest.len() - e,
    {
        e += 1;
    }
    let origin = concat(&scheme, &slice(&rest, 0, e));
    let detail_chars = slice(&rest, e, rest.len());
    assert(detail_chars@ =~= rest@.skip(e as int));
    let detail = readable_percent_encoding(string_of(&detail_chars).as_str());
    UrlLabel::Split { origin: string_of(&origin), detail }
}

/// Whether the mode edits text in the bar's entry (else the bar shows the
/// page's URL).
pub fn mode_uses_entry(mode: Mode) -> (r: bool)
    ensures
        r == (mode == Mode::UrlNormal || mode == Mode::UrlInsert || mode == Mode::Command || mode
            == Mode::Terminal),
{
    match mode {
        Mode::UrlNormal | Mode::UrlInsert | Mode::Command | Mode::Terminal => true,
        _ => false,
    }
}

/// Whether the entry shows a block cursor: in URL Normal mode.
pub fn mode_uses_block_cursor(mode: Mode) -> (r: bool)
    ensures
        r == (mode == Mode::UrlNormal),
{
    match mode {
        Mode::UrlNormal => true,
        _ => false,
    }
}

/// What pressing Enter in the bar does.
#[derive(Debug, Clone)]
pub enum EntryAction {
    /// Run a `:` command line.
    RunCommand(String),
    /// Run a shell command.
    RunTerminal(String),
    /// Load what was typed (a URL or a search), in a new tab or the
    /// current one.
    Open { input: String, new_tab: bool },
}

/// The action for Enter: the mode decides; in the modes that edit a URL the
/// text is opened, in a new tab when that was asked for. The bar then
/// returns to Normal mode.
pub fn entry_action(mode: Mode, text: &str, new_tab: bool) -> (r: EntryAction)
    ensures
        mode == Mode::Command ==> (r matches EntryAction::RunCommand(t) && t@ == text@),
        mode == Mode::Terminal ==> (r matches EntryAction::RunTerminal(t) && t@ == text@),
        mode != Mode::Command && mode != Mode::Terminal ==> (r matches EntryAction::Open {
            input,
            new_tab: n,
        } && input@ == text@ && n == new_tab),
{
    let t = string_of(&chars_of(text));
    match mode {
        Mode::Command => EntryAction::RunCommand(t),
        Mode::Terminal => EntryAction::RunTerminal(t),
        _ => EntryAction::Open { input: t, new_tab },
    }
}

} // verus!
