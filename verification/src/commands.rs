//! The `:` commands: their table, the completions offered while typing, and
//! what an entered command line asks the browser to do.
use vstd::prelude::*;
use crate::navigation::{
    lemma_preset_templates_valid, preset_search_template, preset_template, template_error,
    template_error_text, valid_template, validate_search_template, url_input_of, normalize_url,
    UrlInput, UrlInputView,
};
use crate::passwords::{BwStatus, VaultStatus};
use crate::text::{
    after_first, before_first, chars_of, concat, contains_seq, find_ws, is_ws, seq_eq, slice,
    split_once, starts_with, string_of, strip_leading, strip_leading_chars, trim, trim_chars,
    trim_start, trim_start_chars, contains,
};

verus! {

/// A subcommand of a command, such as `status` of `:bw`.
#[derive(Debug)]
pub struct SubcommandSpec {
    pub name: String,
    pub aliases: Vec<String>,
    pub usage: String,
    pub description: String,
    pub accepts_args: bool,
}

/// A `:` command with its aliases, help text and subcommands.
#[derive(Debug)]
pub struct CommandSpec {
    pub name: String,
    pub aliases: Vec<String>,
    pub usage: String,
    pub description: String,
    pub accepts_args: bool,
    pub subcommands: Vec<SubcommandSpec>,
}

/// A completion offered for the command line.
#[derive(Debug)]
pub struct CommandSuggestion {
    pub name: String,
    pub aliases: Vec<String>,
    pub usage: String,
    pub description: String,
    /// The command-line text that choosing the suggestion puts in the bar.
    pub completion: String,
    pub accepts_args: bool,
}

/// The characters of a subcommand's fields.
pub struct SubcommandInfo {
    pub name: Seq<char>,
    pub aliases: Seq<Seq<char>>,
    pub usage: Seq<char>,
    pub description: Seq<char>,
    pub accepts_args: bool,
}

/// The characters of a command's fields.
pub struct CommandInfo {
    pub name: Seq<char>,
    pub aliases: Seq<Seq<char>>,
    pub usage: Seq<char>,
    pub description: Seq<char>,
    pub accepts_args: bool,
    pub subcommands: Seq<SubcommandInfo>,
}

/// The characters of a suggestion's fields.
pub struct SuggestionInfo {
    pub name: Seq<char>,
    pub aliases: Seq<Seq<char>>,
    pub usage: Seq<char>,
    pub description: Seq<char>,
    pub completion: Seq<char>,
    pub accepts_args: bool,
}

/// The characters of each string.
pub open spec fn texts(v: Seq<String>) -> Seq<Seq<char>> {
    v.map_values(|s: String| s@)
}

impl View for SubcommandSpec {
    type V = SubcommandInfo;

    open spec fn view(&self) -> SubcommandInfo {
        SubcommandInfo {
            name: self.name@,
            aliases: texts(self.aliases@),
            usage: self.usage@,
            description: self.description@,
            accepts_args: self.accepts_args,
        }
    }
}

impl View for CommandSpec {
    type V = CommandInfo;

    open spec fn view(&self) -> CommandInfo {
        CommandInfo {
            name: self.name@,
            aliases: texts(self.aliases@),
            usage: self.usage@,
            description: self.description@,
            accepts_args: self.accepts_args,
            subcommands: self.subcommands@.map_values(|s: SubcommandSpec| s@),
        }
    }
}

impl View for CommandSuggestion {
    type V = SuggestionInfo;

    open spec fn view(&self) -> SuggestionInfo {
        SuggestionInfo {
            name: self.name@,
            aliases: texts(self.aliases@),
            usage: self.usage@,
            description: self.description@,
            completion: self.completion@,
            accepts_args: self.accepts_args,
        }
    }
}

/// The subcommands of `:pin`.
pub open spec fn pin_subcommands() -> Seq<SubcommandInfo> {
    seq![
        SubcommandInfo { name: "on"@, aliases: seq![], usage: ":pin on"@, description: "Pin the current tab"@, accepts_args: false },
        SubcommandInfo { name: "off"@, aliases: seq![], usage: ":pin off"@, description: "Unpin the current tab"@, accepts_args: false },
    ]
}

/// The subcommands of `:bw`.
pub open spec fn bw_subcommands() -> Seq<SubcommandInfo> {
    seq![
        SubcommandInfo { name: "status"@, aliases: seq![], usage: ":bw status"@, description: "Show vault, server, and account status"@, accepts_args: false },
        SubcommandInfo { name: "server"@, aliases: seq![], usage: ":bw server URL"@, description: "Configure the Bitwarden or Vaultwarden server"@, accepts_args: true },
        SubcommandInfo { name: "unlock"@, aliases: seq![], usage: ":bw unlock"@, description: "Unlock the vault"@, accepts_args: false },
        SubcommandInfo { name: "lock"@, aliases: seq![], usage: ":bw lock"@, description: "Lock the vault"@, accepts_args: false },
        SubcommandInfo { name: "fill"@, aliases: seq![], usage: ":bw fill"@, description: "Fill login fields on the current page"@, accepts_args: false },
        SubcommandInfo { name: "copy-user"@, aliases: seq!["copy-username"@], usage: ":bw copy-user"@, description: "Copy the matching username"@, accepts_args: false },
        SubcommandInfo { name: "copy-pass"@, aliases: seq!["copy-password"@], usage: ":bw copy-pass"@, description: "Copy the matching password"@, accepts_args: false },
    ]
}

/// The subcommands of `:search-engine`: the named engines and `reset`.
pub open spec fn search_engine_subcommands() -> Seq<SubcommandInfo> {
    seq![
        SubcommandInfo { name: "google"@, aliases: seq![], usage: ":search-engine google"@, description: "Search with Google"@, accepts_args: false },
        SubcommandInfo { name: "yandex"@, aliases: seq![], usage: ":search-engine yandex"@, description: "Search with Yandex"@, accepts_args: false },
        SubcommandInfo { name: "duckduckgo"@, aliases: seq!["ddg"@], usage: ":search-engine duckduckgo"@, description: "Search with DuckDuckGo"@, accepts_args: false },
        SubcommandInfo { name: "bing"@, aliases: seq![], usage: ":search-engine bing"@, description: "Search with Bing"@, accepts_args: false },
        SubcommandInfo { name: "brave"@, aliases: seq![], usage: ":search-engine brave"@, description: "Search with Brave"@, accepts_args: false },
        SubcommandInfo { name: "reset"@, aliases: seq![], usage: ":search-engine reset"@, description: "Restore the default search engine (DuckDuckGo)"@, accepts_args: false },
    ]
}

/// A command without subcommands.
pub open spec fn simple_command(
    name: Seq<char>,
    aliases: Seq<Seq<char>>,
    usage: Seq<char>,
    description: Seq<char>,
    accepts_args: bool,
) -> CommandInfo {
    CommandInfo { name, aliases, usage, description, accepts_args, subcommands: seq![] }
}

/// The table of `:` commands, in the order the completions list them.
pub open spec fn command_table() -> Seq<CommandInfo> {
    seq![
        simple_command("open"@, seq!["o"@], ":open URL"@, "Open URL or search in the current tab"@, true),
        simple_command("tabopen"@, seq!["tabnew"@, "to"@], ":tabopen [URL]"@, "Open a new tab"@, true),
        simple_command("close"@, seq!["c"@, "tabclose"@], ":close"@, "Close the current tab"@, false),
        simple_command("quit"@, seq!["q"@], ":quit"@, "Close the browser window"@, false),
        simple_command("reload"@, seq!["r"@], ":reload"@, "Reload the current page"@, false),
        simple_command("back"@, seq![], ":back"@, "Go back in the current tab"@, false),
        simple_command("forward"@, seq![], ":forward"@, "Go forward in the current tab"@, false),
        simple_command("group"@, seq!["groupnew"@], ":group NAME"@, "Create a group with the current tab"@, true),
        simple_command("groupadd"@, seq![], ":groupadd NAME"@, "Add the current tab to a group"@, true),
        simple_command("groupcollapse"@, seq!["gcollapse"@], ":groupcollapse [NAME]"@, "Collapse the current or named group"@, true),
        simple_command("groupexpand"@, seq!["gexpand"@], ":groupexpand [NAME]"@, "Expand the current or named group"@, true),
        CommandInfo { name: "pin"@, aliases: seq![], usage: ":pin [on|off]"@, description: "Pin or unpin the current tab"@, accepts_args: true, subcommands: pin_subcommands() },
        simple_command("firefox-import"@, seq![], ":firefox-import"@, "Import open Firefox tabs"@, false),
        CommandInfo { name: "search-engine"@, aliases: seq![], usage: ":search-engine [PRESET|TEMPLATE|reset]"@, description: "Show or set the default search engine"@, accepts_args: true, subcommands: search_engine_subcommands() },
        CommandInfo { name: "bw"@, aliases: seq!["bitwarden"@, "vaultwarden"@], usage: ":bw SUBCOMMAND"@, description: "Manage Bitwarden or Vaultwarden integration"@, accepts_args: true, subcommands: bw_subcommands() },
    ]
}

fn owned(s: &str) -> (r: String)
    ensures
        r@ == s@,
{
    String::from_str(s)
}

fn no_names() -> (v: Vec<String>)
    ensures
        texts(v@) == Seq::<Seq<char>>::empty(),
{
    let v: Vec<String> = Vec::new();
    assert(texts(v@) =~= Seq::<Seq<char>>::empty());
    v
}

fn one_name(a: &str) -> (v: Vec<String>)
    ensures
        texts(v@) == seq![a@],
{
    let mut v: Vec<String> = Vec::new();
    v.push(owned(a));
    assert(texts(v@) =~= seq![a@]);
    v
}

fn two_names(a: &str, b: &str) -> (v: Vec<String>)
    ensures
        texts(v@) == seq![a@, b@],
{
    let mut v: Vec<String> = Vec::new();
    v.push(owned(a));
    v.push(owned(b));
    assert(texts(v@) =~= seq![a@, b@]);
    v
}

fn subcommand(
    name: &str,
    aliases: Vec<String>,
    usage: &str,
    description: &str,
    accepts_args: bool,
) -> (s: SubcommandSpec)
    ensures
        s@ == (SubcommandInfo {
            name: name@,
            aliases: texts(aliases@),
            usage: usage@,
            description: description@,
            accepts_args,
        }),
{
    SubcommandSpec {
        name: owned(name),
        aliases,
        usage: owned(usage),
        description: owned(description),
        accepts_args,
    }
}

fn command(
    name: &str,
    aliases: Vec<String>,
    usage: &str,
    description: &str,
    accepts_args: bool,
    subcommands: Vec<SubcommandSpec>,
) -> (c: CommandSpec)
    ensures
        c@ == (CommandInfo {
            name: name@,
            aliases: texts(aliases@),
            usage: usage@,
            description: description@,
            accepts_args,
            subcommands: subcommands@.map_values(|s: SubcommandSpec| s@),
        }),
{
    CommandSpec {
        name: owned(name),
        aliases,
        usage: owned(usage),
        description: owned(description),
        accepts_args,
        subcommands,
    }
}

fn no_subcommands() -> (v: Vec<SubcommandSpec>)
    ensures
        v@.map_values(|s: SubcommandSpec| s@) == Seq::<SubcommandInfo>::empty(),
{
    let v: Vec<SubcommandSpec> = Vec::new();
    assert(v@.map_values(|s: SubcommandSpec| s@) =~= Seq::<SubcommandInfo>::empty());
    v
}

fn search_engine_subcommand_specs() -> (v: Vec<SubcommandSpec>)
    ensures
        v@.map_values(|s: SubcommandSpec| s@) == search_engine_subcommands(),
{
    let mut v: Vec<SubcommandSpec> = Vec::new();
    v.push(subcommand("google", no_names(), ":search-engine google", "Search with Google", false));
    v.push(subcommand("yandex", no_names(), ":search-engine yandex", "Search with Yandex", false));
    v.push(subcommand("duckduckgo", one_name("ddg"), ":search-engine duckduckgo", "Search with DuckDuckGo", false));
    v.push(subcommand("bing", no_names(), ":search-engine bing", "Search with Bing", false));
    v.push(subcommand("brave", no_names(), ":search-engine brave", "Search with Brave", false));
    v.push(subcommand("reset", no_names(), ":search-engine reset", "Restore the default search engine (DuckDuckGo)", false));
    assert(v@.map_values(|s: SubcommandSpec| s@) =~= search_engine_subcommands());
    v
}

fn pin_subcommand_specs() -> (v: Vec<SubcommandSpec>)
    ensures
        v@.map_values(|s: SubcommandSpec| s@) == pin_subcommands(),
{
    let mut v: Vec<SubcommandSpec> = Vec::new();
    v.push(subcommand("on", no_names(), ":pin on", "Pin the current tab", false));
    v.push(subcommand("off", no_names(), ":pin off", "Unpin the current tab", false));
    assert(v@.map_values(|s: SubcommandSpec| s@) =~= pin_subcommands());
    v
}

fn bw_subcommand_specs() -> (v: Vec<SubcommandSpec>)
    ensures
        v@.map_values(|s: SubcommandSpec| s@) == bw_subcommands(),
{
    let mut v: Vec<SubcommandSpec> = Vec::new();
    v.push(subcommand("status", no_names(), ":bw status", "Show vault, server, and account status", false));
    v.push(subcommand("server", no_names(), ":bw server URL", "Configure the Bitwarden or Vaultwarden server", true));
    v.push(subcommand("unlock", no_names(), ":bw unlock", "Unlock the vault", false));
    v.push(subcommand("lock", no_names(), ":bw lock", "Lock the vault", false));
    v.push(subcommand("fill", no_names(), ":bw fill", "Fill login fields on the current page", false));
    v.push(subcommand("copy-user", one_name("copy-username"), ":bw copy-user", "Copy the matching username", false));
    v.push(subcommand("copy-pass", one_name("copy-password"), ":bw copy-pass", "Copy the matching password", false));
    assert(v@.map_values(|s: SubcommandSpec| s@) =~= bw_subcommands());
    v
}

/// The table of `:` commands.
pub fn command_specs() -> (v: Vec<CommandSpec>)
    ensures
        v@.map_values(|c: CommandSpec| c@) == command_table(),
{
    let mut v: Vec<CommandSpec> = Vec::new();
    v.push(command("open", one_name("o"), ":open URL", "Open URL or search in the current tab", true, no_subcommands()));
    v.push(command("tabopen", two_names("tabnew", "to"), ":tabopen [URL]", "Open a new tab", true, no_subcommands()));
    v.push(command("close", two_names("c", "tabclose"), ":close", "Close the current tab", false, no_subcommands()));
    v.push(command("quit", one_name("q"), ":quit", "Close the browser window", false, no_subcommands()));
    v.push(command("reload", one_name("r"), ":reload", "Reload the current page", false, no_subcommands()));
    v.push(command("back", no_names(), ":back", "Go back in the current tab", false, no_subcommands()));
    v.push(command("forward", no_names(), ":forward", "Go forward in the current tab", false, no_subcommands()));
    v.push(command("group", one_name("groupnew"), ":group NAME", "Create a group with the current tab", true, no_subcommands()));
    v.push(command("groupadd", no_names(), ":groupadd NAME", "Add the current tab to a group", true, no_subcommands()));
    v.push(command("groupcollapse", one_name("gcollapse"), ":groupcollapse [NAME]", "Collapse the current or named group", true, no_subcommands()));
    v.push(command("groupexpand", one_name("gexpand"), ":groupexpand [NAME]", "Expand the current or named group", true, no_subcommands()));
    v.push(command("pin", no_names(), ":pin [on|off]", "Pin or unpin the current tab", true, pin_subcommand_specs()));
    v.push(command("firefox-import", no_names(), ":firefox-import", "Import open Firefox tabs", false, no_subcommands()));
    v.push(command("search-engine", no_names(), ":search-engine [PRESET|TEMPLATE|reset]", "Show or set the default search engine", true, search_engine_subcommand_specs()));
    v.push(command("bw", two_names("bitwarden", "vaultwarden"), ":bw SUBCOMMAND", "Manage Bitwarden or Vaultwarden integration", true, bw_subcommand_specs()));
    assert(v@.map_values(|c: CommandSpec| c@) =~= command_table());
    v
}


/// Whether a command or subcommand name matches what was typed: exactly, or
/// as a prefix while the word is still being typed.
pub open spec fn name_matches(candidate: Seq<char>, input: Seq<char>, exact: bool) -> bool {
    if exact {
        candidate == input
    } else {
        input.is_prefix_of(candidate)
    }
}

/// Whether a name or one of its aliases matches what was typed.
pub open spec fn any_name_matches(
    name: Seq<char>,
    aliases: Seq<Seq<char>>,
    input: Seq<char>,
    exact: bool,
) -> bool {
    name_matches(name, input, exact) || exists|i: int|
        0 <= i < aliases.len() && name_matches(#[trigger] aliases[i], input, exact)
}

/// The command part of the bar's text: after leading white space and one `:`,
/// and the white space after it.
pub open spec fn command_input_of(input: Seq<char>) -> Seq<char> {
    let t = trim_start(input);
    if t.len() > 0 && t[0] == ':' {
        trim_start(t.drop_first())
    } else {
        t
    }
}

/// The first word of `s` and, if white space follows it, the rest from that
/// white space on.
pub open spec fn split_token_of(s: Seq<char>) -> (Seq<char>, Option<Seq<char>>) {
    if exists|k: int| 0 <= k < s.len() && is_ws(#[trigger] s[k]) {
        let k = choose|k: int|
            0 <= k < s.len() && is_ws(s[k]) && forall|j: int| 0 <= j < k ==> !is_ws(#[trigger] s[j]);
        (s.take(k), Some(s.skip(k)))
    } else {
        (s, None)
    }
}

/// The completion for a command.
pub open spec fn top_suggestion(c: CommandInfo) -> SuggestionInfo {
    SuggestionInfo {
        name: c.name,
        aliases: c.aliases,
        usage: c.usage,
        description: c.description,
        completion: seq![':'] + c.name,
        accepts_args: c.accepts_args,
    }
}

/// The completion for a subcommand of a command.
pub open spec fn sub_suggestion(c: CommandInfo, s: SubcommandInfo) -> SuggestionInfo {
    SuggestionInfo {
        name: c.name + seq![' '] + s.name,
        aliases: s.aliases,
        usage: s.usage,
        description: s.description,
        completion: seq![':'] + c.name + seq![' '] + s.name,
        accepts_args: s.accepts_args,
    }
}

/// The completions for the commands whose name or an alias matches.
pub open spec fn matching_commands(table: Seq<CommandInfo>, input: Seq<char>, exact: bool) -> Seq<
    SuggestionInfo,
>
    decreases table.len(),
{
    if table.len() == 0 {
        Seq::<SuggestionInfo>::empty()
    } else {
        let rest = matching_commands(table.drop_last(), input, exact);
        let c = table.last();
        if any_name_matches(c.name, c.aliases, input, exact) {
            rest.push(top_suggestion(c))
        } else {
            rest
        }
    }
}

/// The completions for the subcommands of `c` whose name or an alias matches.
pub open spec fn matching_subcommands(
    c: CommandInfo,
    subs: Seq<SubcommandInfo>,
    input: Seq<char>,
    exact: bool,
) -> Seq<SuggestionInfo>
    decreases subs.len(),
{
    if subs.len() == 0 {
        Seq::<SuggestionInfo>::empty()
    } else {
        let rest = matching_subcommands(c, subs.drop_last(), input, exact);
        let s = subs.last();
        if any_name_matches(s.name, s.aliases, input, exact) {
            rest.push(sub_suggestion(c, s))
        } else {
            rest
        }
    }
}

/// The first command whose name or an alias is exactly `name`.
pub open spec fn exact_command(table: Seq<CommandInfo>, name: Seq<char>) -> Option<CommandInfo>
    decreases table.len(),
{
    if table.len() == 0 {
        None
    } else if any_name_matches(table[0].name, table[0].aliases, name, true) {
        Some(table[0])
    } else {
        exact_command(table.drop_first(), name)
    }
}

/// The completions for the command-bar text `input`: every command for an
/// empty command; the commands that the word starts while it is not a known
/// command; once a known command is followed by white space, its matching
/// subcommands (matched exactly once the subcommand is followed by white
/// space), or the command alone if it has none.
pub open spec fn suggestions_for(table: Seq<CommandInfo>, input: Seq<char>) -> Seq<SuggestionInfo> {
    let ci = command_input_of(input);
    if ci.len() == 0 {
        table.map_values(|c: CommandInfo| top_suggestion(c))
    } else {
        let (name, args) = split_token_of(ci);
        match exact_command(table, name) {
            None => matching_commands(table, name, false),
            Some(c) => match args {
                None => seq![top_suggestion(c)],
                Some(a) => if c.subcommands.len() == 0 {
                    seq![top_suggestion(c)]
                } else {
                    let (sub_name, sub_args) = split_token_of(trim_start(a));
                    matching_subcommands(c, c.subcommands, sub_name, sub_args is Some)
                },
            },
        }
    }
}

proof fn lemma_split_token(s: Seq<char>, k: int)
    requires
        0 <= k < s.len(),
        is_ws(s[k]),
        forall|j: int| 0 <= j < k ==> !is_ws(s[j]),
    ensures
        split_token_of(s) == (s.take(k), Some(s.skip(k))),
{
    let k2 = choose|k2: int|
        0 <= k2 < s.len() && is_ws(s[k2]) && forall|j: int| 0 <= j < k2 ==> !is_ws(#[trigger] s[j]);
    assert(k2 == k) by {
        if k2 < k {
            assert(!is_ws(s[k2]));
        } else if k2 > k {
            assert(!is_ws(s[k]));
        }
    }
}

fn split_token(s: &Vec<char>) -> (r: (Vec<char>, Option<Vec<char>>))
    ensures
        split_token_of(s@) == (r.0@, match r.1 {
            Some(rest) => Some(rest@),
            None => None,
        }),
{
    match find_ws(s) {
        Some(k) => {
            proof {
                lemma_split_token(s@, k as int);
            }
            (slice(s, 0, k), Some(slice(s, k, s.len())))
        },
        None => {
            assert(!exists|k: int| 0 <= k < s@.len() && is_ws(#[trigger] s@[k]));
            (s.clone(), None)
        },
    }
}

fn command_input(input: &str) -> (r: Vec<char>)
    ensures
        r@ == command_input_of(input@),
{
    let t = trim_start_chars(&chars_of(input));
    if t.len() > 0 && t[0] == ':' {
        let rest = slice(&t, 1, t.len());
        assert(rest@ =~= t@.drop_first());
        trim_start_chars(&rest)
    } else {
        t
    }
}

fn name_matches_exec(candidate: &String, input: &Vec<char>, exact: bool) -> (r: bool)
    ensures
        r == name_matches(candidate@, input@, exact),
{
    let c = chars_of(candidate.as_str());
    if exact {
        seq_eq(&c, input)
    } else {
        starts_with(&c, input)
    }
}

fn any_name_matches_exec(name: &String, aliases: &Vec<String>, input: &Vec<char>, exact: bool) -> (r: bool)
    ensures
        r == any_name_matches(name@, texts(aliases@), input@, exact),
{
    if name_matches_exec(name, input, exact) {
        return true;
    }
    let mut i: usize = 0;
    while i < aliases.len()
        invariant
            i <= aliases.len(),
            forall|j: int| 0 <= j < i ==> !name_matches(#[trigger] texts(aliases@)[j], input@, exact),
        decreases aliases.len() - i,
    {
        if name_matches_exec(&aliases[i], input, exact) {
            assert(texts(aliases@)[i as int] == aliases@[i as int]@);
            return true;
        }
        i += 1;
    }
    false
}

fn clone_strings(v: &Vec<String>) -> (r: Vec<String>)
    ensures
        r@ == v@,
{
    let mut r: Vec<String> = Vec::new();
    let mut i: usize = 0;
    while i < v.len()
        invariant
            i <= v.len(),
            r@ == v@.take(i as int),
        decreases v.len() - i,
    {
        r.push(v[i].clone());
        i += 1;
        assert(r@ =~= v@.take(i as int));
    }
    assert(v@.take(i as int) =~= v@);
    r
}

fn top_level_suggestion(spec: &CommandSpec) -> (s: CommandSuggestion)
    ensures
        s@ == top_suggestion(spec@),
{
    let mut colon: Vec<char> = Vec::new();
    colon.push(':');
    let completion = concat(&colon, &chars_of(spec.name.as_str()));
    assert(colon@ =~= seq![':']);
    CommandSuggestion {
        name: spec.name.clone(),
        aliases: clone_strings(&spec.aliases),
        usage: spec.usage.clone(),
        description: spec.description.clone(),
        completion: string_of(&completion),
        accepts_args: spec.accepts_args,
    }
}

fn subcommand_suggestion(spec: &CommandSpec, sub: &SubcommandSpec) -> (s: CommandSuggestion)
    ensures
        s@ == sub_suggestion(spec@, sub@),
{
    let mut space: Vec<char> = Vec::new();
    space.push(' ');
    let mut colon: Vec<char> = Vec::new();
    colon.push(':');
    let name = concat(&concat(&chars_of(spec.name.as_str()), &space), &chars_of(sub.name.as_str()));
    let completion = concat(&colon, &name);
    assert(space@ =~= seq![' ']);
    assert(colon@ =~= seq![':']);
    assert(completion@ =~= seq![':'] + spec.name@ + seq![' '] + sub.name@);
    CommandSuggestion {
        name: string_of(&name),
        aliases: clone_strings(&sub.aliases),
        usage: sub.usage.clone(),
        description: sub.description.clone(),
        completion: string_of(&completion),
        accepts_args: sub.accepts_args,
    }
}

proof fn lemma_views_take<T: View>(v: Seq<T>, i: int)
    requires
        0 <= i < v.len(),
    ensures
        v.take(i + 1).map_values(|x: T| x@).drop_last() == v.take(i).map_values(|x: T| x@),
        v.take(i + 1).map_values(|x: T| x@).last() == v[i]@,
{
    assert(v.take(i + 1).map_values(|x: T| x@).drop_last() =~= v.take(i).map_values(|x: T| x@));
}

fn find_exact_command(specs: &Vec<CommandSpec>, name: &Vec<char>) -> (r: Option<usize>)
    ensures
        r matches Some(k) ==> k < specs@.len() && exact_command(
            specs@.map_values(|c: CommandSpec| c@),
            name@,
        ) == Some(specs@[k as int]@),
        r is None ==> exact_command(specs@.map_values(|c: CommandSpec| c@), name@) is None,
{
    let ghost table = specs@.map_values(|c: CommandSpec| c@);
    let mut i: usize = 0;
    assert(table.skip(0) =~= table);
    while i < specs.len()
        invariant
            i <= specs.len(),
            table == specs@.map_values(|c: CommandSpec| c@),
            exact_command(table, name@) == exact_command(table.skip(i as int), name@),
        decreases specs.len() - i,
    {
        assert(table.skip(i as int)[0] == specs@[i as int]@);
        if any_name_matches_exec(&specs[i].name, &specs[i].aliases, name, true) {
            return Some(i);
        }
        assert(table.skip(i as int).drop_first() =~= table.skip(i + 1));
        i += 1;
    }
    assert(table.skip(i as int) =~= Seq::<CommandInfo>::empty());
    None
}

/// The completions for the command-bar text `input`, in table order; each
/// completion is `:` followed by the suggestion's name.
pub fn command_suggestions(input: &str) -> (r: Vec<CommandSuggestion>)
    ensures
        r@.map_values(|s: CommandSuggestion| s@) == suggestions_for(command_table(), input@),
{
    let specs = command_specs();
    let ghost table = specs@.map_values(|c: CommandSpec| c@);
    let ci = command_input(input);
    let mut out: Vec<CommandSuggestion> = Vec::new();
    if ci.len() == 0 {
        let mut i: usize = 0;
        while i < specs.len()
            invariant
                i <= specs.len(),
                table == specs@.map_values(|c: CommandSpec| c@),
                out@.map_values(|s: CommandSuggestion| s@) == table.take(i as int).map_values(
                    |c: CommandInfo| top_suggestion(c),
                ),
            decreases specs.len() - i,
        {
            assert(table[i as int] == specs@[i as int]@);
            let ghost before = out@;
            let suggestion = top_level_suggestion(&specs[i]);
            out.push(suggestion);
            assert(out@.map_values(|s: CommandSuggestion| s@) =~= before.map_values(
                |s: CommandSuggestion| s@,
            ).push(suggestion@));
            assert(table.take(i + 1).map_values(|c: CommandInfo| top_suggestion(c)) =~= table.take(
                i as int,
            ).map_values(|c: CommandInfo| top_suggestion(c)).push(top_suggestion(table[i as int])));
            i += 1;
        }
        assert(table.take(i as int) =~= table);
        return out;
    }
    let (name, args) = split_token(&ci);
    let found = find_exact_command(&specs, &name);
    match found {
        None => {
            let mut j: usize = 0;
            while j < specs.len()
                invariant
                    j <= specs.len(),
                    table == specs@.map_values(|c: CommandSpec| c@),
                    out@.map_values(|s: CommandSuggestion| s@) == matching_commands(
                        table.take(j as int),
                        name@,
                        false,
                    ),
                decreases specs.len() - j,
            {
                proof {
                    lemma_views_take(specs@, j as int);
                }
                assert(table.take(j + 1).drop_last() =~= table.take(j as int));
                assert(table.take(j + 1).last() == specs@[j as int]@);
                if any_name_matches_exec(&specs[j].name, &specs[j].aliases, &name, false) {
                    let ghost before = out@;
                    out.push(top_level_suggestion(&specs[j]));
                    assert(out@.map_values(|s: CommandSuggestion| s@) =~= before.map_values(
                        |s: CommandSuggestion| s@,
                    ).push(top_suggestion(specs@[j as int]@)));
                }
                j += 1;
            }
            assert(table.take(j as int) =~= table);
            out
        },
        Some(k) => {
            let spec = &specs[k];
            match args {
                None => {
                    out.push(top_level_suggestion(spec));
                    assert(out@.map_values(|s: CommandSuggestion| s@) =~= seq![top_suggestion(spec@)]);
                    out
                },
                Some(a) => {
                    if spec.subcommands.len() == 0 {
                        out.push(top_level_suggestion(spec));
                        assert(out@.map_values(|s: CommandSuggestion| s@) =~= seq![top_suggestion(spec@)]);
                        return out;
                    }
                    let rest = trim_start_chars(&a);
                    let (sub_name, sub_args) = split_token(&rest);
                    let exact = sub_args.is_some();
                    let subs = &spec.subcommands;
                    let ghost sub_table = subs@.map_values(|s: SubcommandSpec| s@);
                    let mut j: usize = 0;
                    while j < subs.len()
                        invariant
                            j <= subs.len(),
                            sub_table == subs@.map_values(|s: SubcommandSpec| s@),
                            out@.map_values(|s: CommandSuggestion| s@) == matching_subcommands(
                                spec@,
                                sub_table.take(j as int),
                                sub_name@,
                                exact,
                            ),
                        decreases subs.len() - j,
                    {
                        proof {
                            lemma_views_take(subs@, j as int);
                        }
                        assert(sub_table.take(j + 1).drop_last() =~= sub_table.take(j as int));
                        assert(sub_table.take(j + 1).last() == subs@[j as int]@);
                        if any_name_matches_exec(&subs[j].name, &subs[j].aliases, &sub_name, exact) {
                            let ghost before = out@;
                            out.push(subcommand_suggestion(spec, &subs[j]));
                            assert(out@.map_values(|s: CommandSuggestion| s@) =~= before.map_values(
                                |s: CommandSuggestion| s@,
                            ).push(sub_suggestion(spec@, subs@[j as int]@)));
                        }
                        j += 1;
                    }
                    assert(sub_table.take(j as int) =~= sub_table);
                    out
                },
            }
        },
    }
}


/// What a `:bw` command line asks for.
#[derive(Debug)]
pub enum BwAction {
    Status,
    SetServer(String),
    /// `:bw server` without a URL.
    MissingServer,
    Unlock,
    Lock,
    Fill,
    CopyUsername,
    CopyPassword,
    /// An unknown subcommand: show the list of subcommands.
    Help,
}

/// What an entered command line asks the browser to do.
#[derive(Debug)]
pub enum CommandAction {
    /// Load what was typed in the current tab: a URL, or a search with the
    /// configured search engine.
    Navigate(UrlInput),
    /// Open a new tab with what was typed: a URL, or a search.
    OpenTab(UrlInput),
    CloseTab,
    Quit,
    Reload,
    Back,
    Forward,
    /// Create a group and move the current tab into it.
    CreateGroup(String),
    /// Move the current tab into a group.
    AddToGroup(String),
    /// Collapse the named group, or the current tab's group.
    CollapseGroup(Option<String>),
    /// Expand the named group, or the current tab's group.
    ExpandGroup(Option<String>),
    TogglePin,
    SetPin(bool),
    Bitwarden(BwAction),
    /// Import the open tabs of the newest Firefox session.
    FirefoxImport,
    /// Show the search-engine template in effect.
    ShowSearchEngine,
    /// Store this (valid) search-engine template.
    SetSearchEngine(String),
    /// Forget the stored search-engine template.
    ResetSearchEngine,
    /// Nothing happens; the message says why.
    Warning(String),
}

/// The characters of a `:bw` action.
pub enum BwActionView {
    Status,
    SetServer(Seq<char>),
    MissingServer,
    Unlock,
    Lock,
    Fill,
    CopyUsername,
    CopyPassword,
    Help,
}

/// The characters of a command action.
pub enum CommandActionView {
    Navigate(UrlInputView),
    OpenTab(UrlInputView),
    CloseTab,
    Quit,
    Reload,
    Back,
    Forward,
    CreateGroup(Seq<char>),
    AddToGroup(Seq<char>),
    CollapseGroup(Option<Seq<char>>),
    ExpandGroup(Option<Seq<char>>),
    TogglePin,
    SetPin(bool),
    Bitwarden(BwActionView),
    FirefoxImport,
    ShowSearchEngine,
    SetSearchEngine(Seq<char>),
    ResetSearchEngine,
    Warning(Seq<char>),
}

impl View for BwAction {
    type V = BwActionView;

    open spec fn view(&self) -> BwActionView {
        match self {
            BwAction::Status => BwActionView::Status,
            BwAction::SetServer(url) => BwActionView::SetServer(url@),
            BwAction::MissingServer => BwActionView::MissingServer,
            BwAction::Unlock => BwActionView::Unlock,
            BwAction::Lock => BwActionView::Lock,
            BwAction::Fill => BwActionView::Fill,
            BwAction::CopyUsername => BwActionView::CopyUsername,
            BwAction::CopyPassword => BwActionView::CopyPassword,
            BwAction::Help => BwActionView::Help,
        }
    }
}

/// The characters of an optional name.
pub open spec fn opt_text(o: Option<String>) -> Option<Seq<char>> {
    match o {
        Some(s) => Some(s@),
        None => None,
    }
}

impl View for CommandAction {
    type V = CommandActionView;

    open spec fn view(&self) -> CommandActionView {
        match self {
            CommandAction::Navigate(u) => CommandActionView::Navigate(u@),
            CommandAction::OpenTab(u) => CommandActionView::OpenTab(u@),
            CommandAction::CloseTab => CommandActionView::CloseTab,
            CommandAction::Quit => CommandActionView::Quit,
            CommandAction::Reload => CommandActionView::Reload,
            CommandAction::Back => CommandActionView::Back,
            CommandAction::Forward => CommandActionView::Forward,
            CommandAction::CreateGroup(n) => CommandActionView::CreateGroup(n@),
            CommandAction::AddToGroup(n) => CommandActionView::AddToGroup(n@),
            CommandAction::CollapseGroup(n) => CommandActionView::CollapseGroup(opt_text(*n)),
            CommandAction::ExpandGroup(n) => CommandActionView::ExpandGroup(opt_text(*n)),
            CommandAction::TogglePin => CommandActionView::TogglePin,
            CommandAction::SetPin(b) => CommandActionView::SetPin(*b),
            CommandAction::Bitwarden(a) => CommandActionView::Bitwarden(a@),
            CommandAction::FirefoxImport => CommandActionView::FirefoxImport,
            CommandAction::ShowSearchEngine => CommandActionView::ShowSearchEngine,
            CommandAction::SetSearchEngine(t) => CommandActionView::SetSearchEngine(t@),
            CommandAction::ResetSearchEngine => CommandActionView::ResetSearchEngine,
            CommandAction::Warning(m) => CommandActionView::Warning(m@),
        }
    }
}

/// A line split at its first space into a trimmed word and trimmed rest, or
/// the whole line and an empty rest.
pub open spec fn word_and_rest(line: Seq<char>) -> (Seq<char>, Seq<char>) {
    match (before_first(line, " "@), after_first(line, " "@)) {
        (Some(word), Some(rest)) => (trim(word), trim(rest)),
        _ => (trim(line), Seq::<char>::empty()),
    }
}

/// The command word and its argument in an entered line: leading colons and
/// surrounding white space go, the word ends at the first space.
pub open spec fn command_line_of(input: Seq<char>) -> (Seq<char>, Seq<char>) {
    word_and_rest(trim(strip_leading(input, ':')))
}

/// What the arguments of `:bw` ask for.
pub open spec fn bw_action_of(args: Seq<char>) -> BwActionView {
    let (sub, rest) = word_and_rest(args);
    if sub.len() == 0 || sub == "status"@ {
        BwActionView::Status
    } else if sub == "server"@ {
        if rest.len() == 0 {
            BwActionView::MissingServer
        } else {
            BwActionView::SetServer(rest)
        }
    } else if sub == "unlock"@ {
        BwActionView::Unlock
    } else if sub == "lock"@ {
        BwActionView::Lock
    } else if sub == "fill"@ {
        BwActionView::Fill
    } else if sub == "copy-user"@ || sub == "copy-username"@ {
        BwActionView::CopyUsername
    } else if sub == "copy-pass"@ || sub == "copy-password"@ {
        BwActionView::CopyPassword
    } else {
        BwActionView::Help
    }
}

/// What the argument of `:search-engine` asks for: nothing shows the
/// template in effect, `reset` forgets the stored one, an engine's name
/// chooses its template, and anything else is taken as a template of its own,
/// refused with a warning unless it is valid.
pub open spec fn search_engine_action_of(args: Seq<char>) -> CommandActionView {
    if args.len() == 0 {
        CommandActionView::ShowSearchEngine
    } else if args == "reset"@ {
        CommandActionView::ResetSearchEngine
    } else {
        match preset_template(args) {
            Some(t) => CommandActionView::SetSearchEngine(t),
            None => match template_error(args) {
                None => CommandActionView::SetSearchEngine(args),
                Some(e) => CommandActionView::Warning(template_error_text(e)),
            },
        }
    }
}

/// What an entered command line asks for.
pub open spec fn command_action_of(input: Seq<char>) -> CommandActionView {
    let (cmd, args) = command_line_of(input);
    if cmd == "open"@ || cmd == "o"@ {
        if args.len() == 0 {
            CommandActionView::Warning(":open requires a URL argument"@)
        } else {
            CommandActionView::Navigate(url_input_of(args))
        }
    } else if cmd == "tabopen"@ || cmd == "tabnew"@ || cmd == "to"@ {
        if args.len() == 0 {
            CommandActionView::OpenTab(UrlInputView::Url("about:blank"@))
        } else {
            CommandActionView::OpenTab(url_input_of(args))
        }
    } else if cmd == "close"@ || cmd == "c"@ || cmd == "tabclose"@ {
        CommandActionView::CloseTab
    } else if cmd == "quit"@ || cmd == "q"@ {
        CommandActionView::Quit
    } else if cmd == "reload"@ || cmd == "r"@ {
        CommandActionView::Reload
    } else if cmd == "back"@ {
        CommandActionView::Back
    } else if cmd == "forward"@ {
        CommandActionView::Forward
    } else if cmd == "group"@ || cmd == "groupnew"@ {
        if args.len() == 0 {
            CommandActionView::Warning(":group requires a name"@)
        } else {
            CommandActionView::CreateGroup(args)
        }
    } else if cmd == "groupadd"@ {
        if args.len() == 0 {
            CommandActionView::Warning(":groupadd requires a name"@)
        } else {
            CommandActionView::AddToGroup(args)
        }
    } else if cmd == "groupcollapse"@ || cmd == "gcollapse"@ {
        CommandActionView::CollapseGroup(if args.len() == 0 { None } else { Some(args) })
    } else if cmd == "groupexpand"@ || cmd == "gexpand"@ {
        CommandActionView::ExpandGroup(if args.len() == 0 { None } else { Some(args) })
    } else if cmd == "pin"@ {
        if args.len() == 0 {
            CommandActionView::TogglePin
        } else if args == "on"@ {
            CommandActionView::SetPin(true)
        } else if args == "off"@ {
            CommandActionView::SetPin(false)
        } else {
            CommandActionView::Warning(":pin accepts no argument, 'on', or 'off'"@)
        }
    } else if cmd == "bw"@ || cmd == "bitwarden"@ || cmd == "vaultwarden"@ {
        CommandActionView::Bitwarden(bw_action_of(args))
    } else if cmd == "firefox-import"@ {
        CommandActionView::FirefoxImport
    } else if cmd == "search-engine"@ {
        search_engine_action_of(args)
    } else {
        CommandActionView::Warning("unknown command: '"@ + cmd + "'"@)
    }
}

fn word_and_rest_exec(line: &Vec<char>) -> (r: (Vec<char>, Vec<char>))
    ensures
        word_and_rest(line@) == (r.0@, r.1@),
{
    let space = chars_of(" ");
    proof {
        reveal_strlit(" ");
    }
    match split_once(line, &space) {
        Some((word, rest)) => (trim_chars(&word), trim_chars(&rest)),
        None => (trim_chars(line), Vec::new()),
    }
}

fn is_word(word: &Vec<char>, literal: &str) -> (r: bool)
    ensures
        r == (word@ == literal@),
{
    seq_eq(word, &chars_of(literal))
}

fn bw_action(args: &Vec<char>) -> (a: BwAction)
    ensures
        a@ == bw_action_of(args@),
{
    let (sub, rest) = word_and_rest_exec(args);
    if sub.len() == 0 || is_word(&sub, "status") {
        BwAction::Status
    } else if is_word(&sub, "server") {
        if rest.len() == 0 {
            BwAction::MissingServer
        } else {
            BwAction::SetServer(string_of(&rest))
        }
    } else if is_word(&sub, "unlock") {
        BwAction::Unlock
    } else if is_word(&sub, "lock") {
        BwAction::Lock
    } else if is_word(&sub, "fill") {
        BwAction::Fill
    } else if is_word(&sub, "copy-user") || is_word(&sub, "copy-username") {
        BwAction::CopyUsername
    } else if is_word(&sub, "copy-pass") || is_word(&sub, "copy-password") {
        BwAction::CopyPassword
    } else {
        BwAction::Help
    }
}

fn optional_name(args: &Vec<char>) -> (r: Option<String>)
    ensures
        opt_text(r) == (if args@.len() == 0 { None } else { Some(args@) }),
{
    if args.len() == 0 {
        None
    } else {
        Some(string_of(args))
    }
}

fn search_engine_action(args: &Vec<char>) -> (a: CommandAction)
    ensures
        a@ == search_engine_action_of(args@),
{
    if args.len() == 0 {
        CommandAction::ShowSearchEngine
    } else if is_word(args, "reset") {
        CommandAction::ResetSearchEngine
    } else {
        let text = string_of(args);
        match preset_search_template(text.as_str()) {
            Some(t) => CommandAction::SetSearchEngine(t),
            None => match validate_search_template(text.as_str()) {
                Ok(()) => CommandAction::SetSearchEngine(text),
                Err(e) => CommandAction::Warning(e.message()),
            },
        }
    }
}

/// What the entered command line `input` asks the browser to do.
pub fn parse_command(input: &str) -> (a: CommandAction)
    ensures
        a@ == command_action_of(input@),
{
    let line = trim_chars(&strip_leading_chars(&chars_of(input), ':'));
    let (cmd, args) = word_and_rest_exec(&line);
    if is_word(&cmd, "open") || is_word(&cmd, "o") {
        if args.len() == 0 {
            CommandAction::Warning(String::from_str(":open requires a URL argument"))
        } else {
            CommandAction::Navigate(normalize_url(string_of(&args).as_str()))
        }
    } else if is_word(&cmd, "tabopen") || is_word(&cmd, "tabnew") || is_word(&cmd, "to") {
        if args.len() == 0 {
            CommandAction::OpenTab(UrlInput::Url(String::from_str("about:blank")))
        } else {
            CommandAction::OpenTab(normalize_url(string_of(&args).as_str()))
        }
    } else if is_word(&cmd, "close") || is_word(&cmd, "c") || is_word(&cmd, "tabclose") {
        CommandAction::CloseTab
    } else if is_word(&cmd, "quit") || is_word(&cmd, "q") {
        CommandAction::Quit
    } else if is_word(&cmd, "reload") || is_word(&cmd, "r") {
        CommandAction::Reload
    } else if is_word(&cmd, "back") {
        CommandAction::Back
    } else if is_word(&cmd, "forward") {
        CommandAction::Forward
    } else if is_word(&cmd, "group") || is_word(&cmd, "groupnew") {
        if args.len() == 0 {
            CommandAction::Warning(String::from_str(":group requires a name"))
        } else {
            CommandAction::CreateGroup(string_of(&args))
        }
    } else if is_word(&cmd, "groupadd") {
        if args.len() == 0 {
            CommandAction::Warning(String::from_str(":groupadd requires a name"))
        } else {
            CommandAction::AddToGroup(string_of(&args))
        }
    } else if is_word(&cmd, "groupcollapse") || is_word(&cmd, "gcollapse") {
        CommandAction::CollapseGroup(optional_name(&args))
    } else if is_word(&cmd, "groupexpand") || is_word(&cmd, "gexpand") {
        CommandAction::ExpandGroup(optional_name(&args))
    } else if is_word(&cmd, "pin") {
        if args.len() == 0 {
            CommandAction::TogglePin
        } else if is_word(&args, "on") {
            CommandAction::SetPin(true)
        } else if is_word(&args, "off") {
            CommandAction::SetPin(false)
        } else {
            CommandAction::Warning(String::from_str(":pin accepts no argument, 'on', or 'off'"))
        }
    } else if is_word(&cmd, "bw") || is_word(&cmd, "bitwarden") || is_word(&cmd, "vaultwarden") {
        CommandAction::Bitwarden(bw_action(&args))
    } else if is_word(&cmd, "firefox-import") {
        CommandAction::FirefoxImport
    } else if is_word(&cmd, "search-engine") {
        search_engine_action(&args)
    } else {
        let message = concat(&concat(&chars_of("unknown command: '"), &cmd), &chars_of("'"));
        CommandAction::Warning(string_of(&message))
    }
}

/// A search-engine template that a command line stores is always a valid
/// one: a web URL with a `{query}` placeholder.
pub proof fn lemma_stored_search_engine_valid(input: Seq<char>)
    ensures
        command_action_of(input) matches CommandActionView::SetSearchEngine(t) ==> valid_template(t),
{
    let (cmd, args) = command_line_of(input);
    lemma_preset_templates_valid(args);
}

/// The text of the status dialog for a vault status.
pub open spec fn status_text(status: BwStatus) -> Seq<char> {
    let vault = match status.status {
        VaultStatus::Unauthenticated => "unauthenticated"@,
        VaultStatus::Locked => "locked"@,
        VaultStatus::Unlocked => "unlocked"@,
        VaultStatus::Unknown(value) => value@,
    };
    let server = match status.server_url {
        Some(url) => url@,
        None => "not configured"@,
    };
    let user = match status.user_email {
        Some(email) => email@,
        None => "not signed in"@,
    };
    "Status: "@ + vault + "\nServer: "@ + server + "\nUser: "@ + user
}

/// The text of the status dialog: vault state, server and account.
pub fn format_status(status: &BwStatus) -> (text: String)
    ensures
        text@ == status_text(*status),
{
    let vault = match &status.status {
        VaultStatus::Unauthenticated => chars_of("unauthenticated"),
        VaultStatus::Locked => chars_of("locked"),
        VaultStatus::Unlocked => chars_of("unlocked"),
        VaultStatus::Unknown(value) => chars_of(value.as_str()),
    };
    let server = match &status.server_url {
        Some(url) => chars_of(url.as_str()),
        None => chars_of("not configured"),
    };
    let user = match &status.user_email {
        Some(email) => chars_of(email.as_str()),
        None => chars_of("not signed in"),
    };
    let text = concat(&chars_of("Status: "), &vault);
    let text = concat(&text, &chars_of("\nServer: "));
    let text = concat(&text, &server);
    let text = concat(&text, &chars_of("\nUser: "));
    let text = concat(&text, &user);
    string_of(&text)
}

/// `:pin` with an argument sets the pin state that the argument names: `on`
/// pins and `off` unpins; whatever pin state a command line sets, it is
/// "pinned" exactly when the argument is `on`.
pub proof fn lemma_pin_argument_sets_state(input: Seq<char>)
    ensures
        command_action_of(input) matches CommandActionView::SetPin(pinned) ==> (pinned
            <==> command_line_of(input).1 == "on"@),
        command_line_of(input).0 == "pin"@ && (command_line_of(input).1 == "on"@
            || command_line_of(input).1 == "off"@) ==> command_action_of(input)
            == CommandActionView::SetPin(command_line_of(input).1 == "on"@),
{
    reveal_strlit("on");
    reveal_strlit("off");
    reveal_strlit("pin");
    reveal_strlit("open");
    reveal_strlit("o");
    reveal_strlit("tabopen");
    reveal_strlit("tabnew");
    reveal_strlit("to");
    reveal_strlit("close");
    reveal_strlit("c");
    reveal_strlit("tabclose");
    reveal_strlit("quit");
    reveal_strlit("q");
    reveal_strlit("reload");
    reveal_strlit("r");
    reveal_strlit("back");
    reveal_strlit("forward");
    reveal_strlit("group");
    reveal_strlit("groupnew");
    reveal_strlit("groupadd");
    reveal_strlit("groupcollapse");
    reveal_strlit("gcollapse");
    reveal_strlit("groupexpand");
    reveal_strlit("gexpand");
    let (cmd, args) = command_line_of(input);
    if cmd == "pin"@ && (args == "on"@ || args == "off"@) {
        assert(cmd.len() == 3 && cmd[0] == 'p');
        assert("open"@.len() == 4);
        assert("o"@.len() == 1);
        assert("tabopen"@.len() == 7);
        assert("tabnew"@.len() == 6);
        assert("to"@.len() == 2);
        assert("close"@.len() == 5);
        assert("c"@.len() == 1);
        assert("tabclose"@.len() == 8);
        assert("quit"@.len() == 4);
        assert("q"@.len() == 1);
        assert("reload"@.len() == 6);
        assert("r"@.len() == 1);
        assert("back"@.len() == 4);
        assert("forward"@.len() == 7);
        assert("group"@.len() == 5);
        assert("groupnew"@.len() == 8);
        assert("groupadd"@.len() == 8);
        assert("groupcollapse"@.len() == 13);
        assert("gcollapse"@.len() == 9);
        assert("groupexpand"@.len() == 11);
        assert("gexpand"@.len() == 7);
        assert(args.len() != 0);
        if args == "on"@ {
            assert(command_action_of(input) == CommandActionView::SetPin(true));
        } else {
            assert(args != "on"@);
            assert(command_action_of(input) == CommandActionView::SetPin(false));
        }
    }
}

} // verus!
