//! Importing the open tabs of a Firefox session: the `mozLz40` session file,
//! the tabs that can be imported, and the groups they bring along.
use vstd::prelude::*;
use vstd::relations::injective_on;
use vstd::set_lib::{lemma_int_range, lemma_len_subset, lemma_map_size, set_int_range};
use vstd::slice::slice_subrange;
use crate::tabs::{
    copy_opt, group_views, opt_chars, tab_views, GroupView, TabGroupSnapshot, TabSnapshot, TabView,
};
use crate::text::{
    chars_of, concat, decimal, decimal_u128, lemma_decimal_injective, seq_eq, starts_with,
    string_of, trim, trim_chars,
};

verus! {

#[verifier::external_type_specification]
#[verifier::external_body]
pub struct ExIoError(std::io::Error);

#[verifier::external_type_specification]
#[verifier::external_body]
pub struct ExDecompressError(lz4_flex::block::DecompressError);

/// Why importing a Firefox session failed.
#[derive(Debug)]
pub enum FirefoxImportError {
    ProfileNotFound,
    SessionNotFound,
    InvalidSession(String),
    Io(std::io::Error),
}

impl From<std::io::Error> for FirefoxImportError {
    fn from(error: std::io::Error) -> (r: Self) {
        FirefoxImportError::Io(error)
    }
}

impl vstd::std_specs::convert::FromSpecImpl<std::io::Error> for FirefoxImportError {
    open spec fn obeys_from_spec() -> bool {
        true
    }

    open spec fn from_spec(error: std::io::Error) -> Self {
        FirefoxImportError::Io(error)
    }
}

/// The text of an I/O error, as its `Display` writes it. It comes from the
/// operating system's error messages, so nothing is stated of it.
#[verifier::external_body]
fn io_error_text(error: &std::io::Error) -> String {
    format!("{}", error)
}

impl FirefoxImportError {
    /// The message shown for the error.
    pub fn message(&self) -> (m: String)
        ensures
            self is ProfileNotFound ==> m@ == "Firefox profile not found"@,
            self is SessionNotFound ==> m@ == "Firefox recovery session not found"@,
            self matches FirefoxImportError::InvalidSession(detail) ==> m@
                == "invalid Firefox session: "@ + detail@,
            self is Io ==> "failed to read Firefox session: "@.is_prefix_of(m@),
    {
        match self {
            FirefoxImportError::ProfileNotFound => String::from_str("Firefox profile not found"),
            FirefoxImportError::SessionNotFound => String::from_str(
                "Firefox recovery session not found",
            ),
            FirefoxImportError::InvalidSession(detail) => string_of(
                &concat(&chars_of("invalid Firefox session: "), &chars_of(detail.as_str())),
            ),
            FirefoxImportError::Io(error) => {
                let text = concat(
                    &chars_of("failed to read Firefox session: "),
                    &chars_of(io_error_text(error).as_str()),
                );
                string_of(&text)
            },
        }
    }
}

/// The entry that a Firefox tab shows when the session does not say: the
/// first (Firefox counts entries from 1).
pub fn default_entry_index() -> (i: usize)
    ensures
        i == 1,
{
    1
}

/// What `lz4_flex` decompresses an LZ4 block with its size prepended to.
pub uninterp spec fn lz4_size_prepended_decoded(input: Seq<u8>) -> Option<Seq<u8>>;

/// `lz4_flex::block::decompress_size_prepended`: the block's uncompressed
/// bytes, named `lz4_size_prepended_decoded`. Input shorter than the 4-byte
/// size is an error. The decoding itself is not restated here.
#[verifier::external_body]
fn lz4_decompress(input: &[u8]) -> (r: Result<Vec<u8>, lz4_flex::block::DecompressError>)
    ensures
        r matches Ok(v) ==> lz4_size_prepended_decoded(input@) == Some(v@),
        r is Err ==> lz4_size_prepended_decoded(input@) is None,
        input@.len() < 4 ==> r is Err,
{
    lz4_flex::block::decompress_size_prepended(input)
}

/// The texts that `lz4_flex`'s `DecompressError` is displayed as, one for
/// each of its variants.
pub open spec fn lz4_error_message(m: Seq<char>) -> bool {
    ||| m == "literal is out of bounds of the input"@
    ||| m == "expected another byte, found none"@
    ||| m == "0 is not a valid match offset"@
    ||| m == "the offset to copy is not contained in the decompressed buffer"@
    ||| exists|expected: nat, actual: nat|
        m == "provided output is too small for the decompressed data, actual "@ + decimal(actual)
            + ", expected "@ + decimal(expected)
}

/// The text of an LZ4 decompression error, as its `Display` writes it: one
/// of the texts of `lz4_error_message`. Which variant the error is cannot be
/// seen here, so which of them it is stays open.
#[verifier::external_body]
fn decompress_error_text(error: &lz4_flex::block::DecompressError) -> (r: String)
    ensures
        lz4_error_message(r@),
{
    format!("{}", error)
}

/// The magic bytes at the start of a Firefox session file.
pub open spec fn moz_lz4_header() -> Seq<u8> {
    seq![0x6du8, 0x6fu8, 0x7au8, 0x4cu8, 0x7au8, 0x34u8, 0x30u8, 0x00u8]
}

/// The JSON of a `mozLz40` session file: the bytes after the 8-byte header,
/// decompressed as an LZ4 block with its size prepended. A file without the
/// header, or whose block does not decompress, is an invalid session.
pub fn decompress_session(data: &[u8]) -> (r: Result<Vec<u8>, FirefoxImportError>)
    ensures
        !moz_lz4_header().is_prefix_of(data@) ==> (r matches Err(
            FirefoxImportError::InvalidSession(m),
        ) && m@ == "missing mozLz40 header"@),
        moz_lz4_header().is_prefix_of(data@) ==> match lz4_size_prepended_decoded(data@.skip(8)) {
            Some(json) => r matches Ok(v) && v@ == json,
            None => r matches Err(FirefoxImportError::InvalidSession(m)) && lz4_error_message(m@),
        },
{
    let header: [u8; 8] = [0x6d, 0x6f, 0x7a, 0x4c, 0x7a, 0x34, 0x30, 0x00];
    assert(header@ =~= moz_lz4_header());
    if data.len() < 8 {
        return Err(FirefoxImportError::InvalidSession(String::from_str("missing mozLz40 header")));
    }
    let mut i: usize = 0;
    while i < 8
        invariant
            i <= 8 <= data@.len(),
            header@ == moz_lz4_header(),
            forall|j: int| 0 <= j < i ==> data@[j] == header@[j],
        decreases 8 - i,
    {
        if data[i] != header[i] {
            assert(data@.subrange(0, 8)[i as int] != moz_lz4_header()[i as int]);
            return Err(
                FirefoxImportError::InvalidSession(String::from_str("missing mozLz40 header")),
            );
        }
        i += 1;
    }
    assert(data@.subrange(0, 8) =~= moz_lz4_header());
    let body = slice_subrange(data, 8, data.len());
    assert(body@ =~= data@.skip(8));
    match lz4_decompress(body) {
        Ok(json) => Ok(json),
        Err(error) => Err(FirefoxImportError::InvalidSession(decompress_error_text(&error))),
    }
}


/// The name a Firefox group is imported under before it is made unique: its
/// trimmed name, or `Firefox Group` for a blank one.
pub open spec fn group_base(name: Seq<char>) -> Seq<char> {
    if trim(name).len() == 0 {
        "Firefox Group"@
    } else {
        trim(name)
    }
}

/// A group name with a number: `base (k)`.
pub open spec fn numbered_name(base: Seq<char>, k: nat) -> Seq<char> {
    base + " ("@ + decimal(k) + ")"@
}

/// `k` is the smallest number from 2 on whose numbered name is unused.
pub open spec fn is_first_free_number(base: Seq<char>, used: Seq<Seq<char>>, k: nat) -> bool {
    &&& k >= 2
    &&& !used.contains(numbered_name(base, k))
    &&& forall|j: nat| 2 <= j < k ==> used.contains(#[trigger] numbered_name(base, j))
}

/// The name an imported group gets: its base name if no earlier group took
/// it, else the base name with the smallest free number from 2 on.
pub open spec fn unique_name_in(name: Seq<char>, used: Seq<Seq<char>>) -> Seq<char> {
    let base = group_base(name);
    if !used.contains(base) {
        base
    } else {
        numbered_name(base, choose|k: nat| is_first_free_number(base, used, k))
    }
}

/// Different numbers give different numbered names.
pub proof fn lemma_numbered_name_injective(base: Seq<char>, a: nat, b: nat)
    requires
        numbered_name(base, a) == numbered_name(base, b),
    ensures
        a == b,
{
    reveal_strlit(" (");
    reveal_strlit(")");
    let sa = numbered_name(base, a);
    let sb = numbered_name(base, b);
    assert(sa.subrange(base.len() + 2 as int, sa.len() - 1) =~= decimal(a));
    assert(sb.subrange(base.len() + 2 as int, sb.len() - 1) =~= decimal(b));
    assert(decimal(a).len() == decimal(b).len());
    lemma_decimal_injective(a, b);
}

/// Among the numbers `2..=used.len() + 2` one gives an unused name: the
/// numbered names are all different and `used` holds fewer of them.
pub proof fn lemma_some_number_free(base: Seq<char>, used: Seq<Seq<char>>)
    ensures
        exists|k: nat| 2 <= k <= used.len() + 2 && !used.contains(#[trigger] numbered_name(base, k)),
{
    let n = used.len() as int;
    if forall|k: nat| 2 <= k <= used.len() + 2 ==> used.contains(#[trigger] numbered_name(base, k)) {
        let r = set_int_range(2, n + 3);
        let f = |k: int| numbered_name(base, k as nat);
        lemma_int_range(2, n + 3);
        assert(injective_on(f, r)) by {
            assert forall|x1: int, x2: int|
                r.contains(x1) && r.contains(x2) && #[trigger] f(x1) == #[trigger] f(x2) implies x1
                == x2 by {
                lemma_numbered_name_injective(base, x1 as nat, x2 as nat);
            }
        }
        let a = r.map(f);
        lemma_map_size(r, a, f);
        assert(a.subset_of(used.to_set())) by {
            assert forall|x: Seq<char>| a.contains(x) implies used.to_set().contains(x) by {
                let k = choose|k: int| r.contains(k) && x == f(k);
                assert(used.contains(numbered_name(base, k as nat)));
            }
        }
        used.lemma_cardinality_of_set();
        lemma_len_subset(a, used.to_set());
        assert(false);
    }
}

proof fn lemma_first_free_exists(base: Seq<char>, used: Seq<Seq<char>>, m: nat)
    requires
        m >= 2,
        !used.contains(numbered_name(base, m)),
    ensures
        exists|k: nat| k <= m && is_first_free_number(base, used, k),
    decreases m,
{
    if forall|j: nat| 2 <= j < m ==> used.contains(#[trigger] numbered_name(base, j)) {
        assert(is_first_free_number(base, used, m));
    } else {
        let j = choose|j: nat| 2 <= j < m && !used.contains(#[trigger] numbered_name(base, j));
        lemma_first_free_exists(base, used, j);
    }
}

proof fn lemma_first_free_unique(base: Seq<char>, used: Seq<Seq<char>>, k1: nat, k2: nat)
    requires
        is_first_free_number(base, used, k1),
        is_first_free_number(base, used, k2),
    ensures
        k1 == k2,
{
    if k1 < k2 {
        assert(used.contains(numbered_name(base, k1)));
    } else if k2 < k1 {
        assert(used.contains(numbered_name(base, k2)));
    }
}

/// The characters of each string.
pub open spec fn names_of(v: Seq<String>) -> Seq<Seq<char>> {
    v.map_values(|s: String| s@)
}

fn contains_name(used: &Vec<String>, name: &Vec<char>) -> (r: bool)
    ensures
        r == names_of(used@).contains(name@),
{
    let mut i: usize = 0;
    while i < used.len()
        invariant
            i <= used.len(),
            forall|j: int| 0 <= j < i ==> names_of(used@)[j] != name@,
        decreases used.len() - i,
    {
        if seq_eq(&chars_of(used[i].as_str()), name) {
            assert(names_of(used@)[i as int] == name@);
            return true;
        }
        i += 1;
    }
    false
}

fn numbered_name_exec(base: &Vec<char>, k: u128) -> (r: Vec<char>)
    ensures
        r@ == numbered_name(base@, k as nat),
{
    let r = concat(&concat(&concat(base, &chars_of(" (")), &decimal_u128(k)), &chars_of(")"));
    r
}

/// Gives a group a name that no group in `used` has and records it there:
/// the trimmed name (`Firefox Group` if blank), or that name with the
/// smallest free number from 2 on, as in `Work (2)`.
pub fn unique_group_name(name: &str, used: &mut Vec<String>) -> (r: String)
    ensures
        r@ == unique_name_in(name@, names_of(old(used)@)),
        !names_of(old(used)@).contains(r@),
        names_of(final(used)@) == names_of(old(used)@).push(r@),
{
    let ghost used0 = names_of(used@);
    let trimmed = trim_chars(&chars_of(name));
    let base = if trimmed.len() == 0 {
        chars_of("Firefox Group")
    } else {
        trimmed
    };
    assert(base@ == group_base(name@));
    if !contains_name(used, &base) {
        let r = string_of(&base);
        used.push(r.clone());
        assert(names_of(used@) =~= used0.push(r@));
        return r;
    }
    let n = used.len();
    proof {
        lemma_some_number_free(base@, used0);
    }
    let mut k: u128 = 2;
    while k <= n as u128 + 2
        invariant
            2 <= k <= n + 3,
            n == used@.len(),
            used0 == names_of(used@),
            used0 == names_of(old(used)@),
            base@ == group_base(name@),
            used0.contains(base@),
            exists|m: nat| 2 <= m <= n + 2 && !used0.contains(#[trigger] numbered_name(base@, m)),
            forall|j: nat| 2 <= j < k ==> used0.contains(#[trigger] numbered_name(base@, j)),
        decreases n + 3 - k,
    {
        let candidate = numbered_name_exec(&base, k);
        if !contains_name(used, &candidate) {
            proof {
                assert(is_first_free_number(base@, used0, k as nat));
                let c = choose|c: nat| is_first_free_number(base@, used0, c);
                lemma_first_free_exists(base@, used0, k as nat);
                lemma_first_free_unique(base@, used0, c, k as nat);
            }
            let r = string_of(&candidate);
            used.push(r.clone());
            assert(names_of(used@) =~= used0.push(r@));
            return r;
        }
        k += 1;
    }
    proof {
        let m = choose|m: nat| 2 <= m <= n + 2 && !used0.contains(#[trigger] numbered_name(base@, m));
        assert(used0.contains(numbered_name(base@, m)));
    }
    String::new()
}


/// One entry of a Firefox tab's history.
#[derive(Debug, Clone)]
pub struct FirefoxEntry {
    pub url: String,
}

/// A tab of a Firefox session window.
#[derive(Debug, Clone)]
pub struct FirefoxTab {
    /// The 1-based position of the shown entry in `entries`.
    pub index: usize,
    pub entries: Vec<FirefoxEntry>,
    pub pinned: bool,
    pub group_id: Option<String>,
    pub image: Option<String>,
}

/// A tab group of a Firefox session window.
#[derive(Debug, Clone)]
pub struct FirefoxGroup {
    pub id: String,
    pub name: String,
    pub collapsed: bool,
    pub color: Option<String>,
}

/// A window of a Firefox session.
#[derive(Debug, Clone)]
pub struct FirefoxWindow {
    pub tabs: Vec<FirefoxTab>,
    pub groups: Vec<FirefoxGroup>,
}

/// The parts of a Firefox session that an import reads.
#[derive(Debug, Clone)]
pub struct FirefoxSession {
    pub windows: Vec<FirefoxWindow>,
}

/// The tabs and groups taken from a Firefox session.
#[derive(Debug, Clone)]
pub struct FirefoxImport {
    pub tabs: Vec<TabSnapshot>,
    pub groups: Vec<TabGroupSnapshot>,
}

/// A window's group under the name it is imported with.
pub struct NamedGroup {
    pub id: Seq<char>,
    pub name: Seq<char>,
    pub collapsed: bool,
    pub color: Option<Seq<char>>,
}

/// The names in a list of named groups.
pub open spec fn group_names(named: Seq<NamedGroup>) -> Seq<Seq<char>> {
    named.map_values(|g: NamedGroup| g.name)
}

/// A window's groups with unique names, given the names that earlier windows
/// took: each group in turn gets `unique_name_in` of the names taken so far.
pub open spec fn name_groups(groups: Seq<FirefoxGroup>, used: Seq<Seq<char>>) -> Seq<NamedGroup>
    decreases groups.len(),
{
    if groups.len() == 0 {
        Seq::<NamedGroup>::empty()
    } else {
        let prev = name_groups(groups.drop_last(), used);
        let g = groups.last();
        prev.push(
            NamedGroup {
                id: g.id@,
                name: unique_name_in(g.name@, used + group_names(prev)),
                collapsed: g.collapsed,
                color: opt_chars(g.color),
            },
        )
    }
}

/// The group that a tab's group id refers to: the last group of the window
/// with that id.
pub open spec fn group_for_id(named: Seq<NamedGroup>, id: Seq<char>) -> Option<NamedGroup>
    decreases named.len(),
{
    if named.len() == 0 {
        None
    } else if named.last().id == id {
        Some(named.last())
    } else {
        group_for_id(named.drop_last(), id)
    }
}

/// The URL that a Firefox tab shows: the entry at its 1-based index (an index
/// of 0 counts as 1), if there is one.
pub open spec fn current_entry_url(t: FirefoxTab) -> Option<Seq<char>> {
    let pos = if t.index == 0 {
        0
    } else {
        t.index - 1
    };
    if pos < t.entries@.len() {
        Some(t.entries@[pos as int].url@)
    } else {
        None
    }
}

/// A URL that the import keeps: an `http://` or `https://` one.
pub open spec fn is_web_url(url: Seq<char>) -> bool {
    "http://"@.is_prefix_of(url) || "https://"@.is_prefix_of(url)
}

/// A tab's favicon if it is an inline image (`data:image/...`).
pub open spec fn kept_favicon(image: Option<String>) -> Option<Seq<char>> {
    match image {
        Some(i) => if "data:image/"@.is_prefix_of(i@) {
            Some(i@)
        } else {
            None
        },
        None => None,
    }
}

/// The named group that a tab belongs to, if any.
pub open spec fn tab_group(t: FirefoxTab, named: Seq<NamedGroup>) -> Option<NamedGroup> {
    match t.group_id {
        Some(id) => group_for_id(named, id@),
        None => None,
    }
}

/// The state of an import: tabs and groups so far, and the groups already
/// taken from the current window.
pub struct ImportState {
    pub tabs: Seq<TabView>,
    pub groups: Seq<GroupView>,
    pub seen: Seq<Seq<char>>,
}

/// Importing one tab: a tab whose shown URL is a web page is added with its
/// pin, group and inline favicon; its group is added the first time a tab of
/// the window uses it.
pub open spec fn import_tab(st: ImportState, t: FirefoxTab, named: Seq<NamedGroup>) -> ImportState {
    match current_entry_url(t) {
        None => st,
        Some(url) => if !is_web_url(url) {
            st
        } else {
            let g = tab_group(t, named);
            let tab = TabView {
                url,
                title: None,
                pinned: t.pinned,
                group: match g {
                    Some(ng) => Some(ng.name),
                    None => None,
                },
                favicon: kept_favicon(t.image),
            };
            match g {
                Some(ng) => if st.seen.contains(ng.name) {
                    ImportState { tabs: st.tabs.push(tab), groups: st.groups, seen: st.seen }
                } else {
                    ImportState {
                        tabs: st.tabs.push(tab),
                        groups: st.groups.push(
                            GroupView { name: ng.name, collapsed: ng.collapsed, color: ng.color },
                        ),
                        seen: st.seen.push(ng.name),
                    }
                },
                None => ImportState { tabs: st.tabs.push(tab), groups: st.groups, seen: st.seen },
            }
        },
    }
}

/// Importing a window's tabs in order.
pub open spec fn import_tabs_of(st: ImportState, tabs: Seq<FirefoxTab>, named: Seq<NamedGroup>) -> ImportState
    decreases tabs.len(),
{
    if tabs.len() == 0 {
        st
    } else {
        import_tab(import_tabs_of(st, tabs.drop_last(), named), tabs.last(), named)
    }
}

/// The result of importing windows: the tabs, the groups, and the group
/// names taken.
pub struct SessionImport {
    pub tabs: Seq<TabView>,
    pub groups: Seq<GroupView>,
    pub used: Seq<Seq<char>>,
}

/// Importing one more window.
pub open spec fn import_window(st: SessionImport, w: FirefoxWindow) -> SessionImport {
    let named = name_groups(w.groups@, st.used);
    let r = import_tabs_of(
        ImportState { tabs: st.tabs, groups: st.groups, seen: Seq::<Seq<char>>::empty() },
        w.tabs@,
        named,
    );
    SessionImport { tabs: r.tabs, groups: r.groups, used: st.used + group_names(named) }
}

/// Importing windows in order.
pub open spec fn import_windows_of(windows: Seq<FirefoxWindow>) -> SessionImport
    decreases windows.len(),
{
    if windows.len() == 0 {
        SessionImport {
            tabs: Seq::<TabView>::empty(),
            groups: Seq::<GroupView>::empty(),
            used: Seq::<Seq<char>>::empty(),
        }
    } else {
        import_window(import_windows_of(windows.drop_last()), windows.last())
    }
}

/// The view of a group that holds its imported name.
pub open spec fn named_view(g: FirefoxGroup) -> NamedGroup {
    NamedGroup { id: g.id@, name: g.name@, collapsed: g.collapsed, color: opt_chars(g.color) }
}

fn find_group(named: &Vec<FirefoxGroup>, id: &String) -> (r: Option<usize>)
    ensures
        r matches Some(k) ==> k < named@.len() && group_for_id(
            named@.map_values(|g: FirefoxGroup| named_view(g)),
            id@,
        ) == Some(named_view(named@[k as int])),
        r is None ==> group_for_id(named@.map_values(|g: FirefoxGroup| named_view(g)), id@) is None,
{
    let ghost views = named@.map_values(|g: FirefoxGroup| named_view(g));
    let target = chars_of(id.as_str());
    let mut k: usize = named.len();
    assert(views.take(k as int) =~= views);
    while k > 0
        invariant
            k <= named@.len(),
            views == named@.map_values(|g: FirefoxGroup| named_view(g)),
            target@ == id@,
            group_for_id(views, id@) == group_for_id(views.take(k as int), id@),
        decreases k,
    {
        assert(views.take(k as int).last() == named_view(named@[k - 1]));
        assert(views.take(k as int).drop_last() =~= views.take(k - 1));
        if seq_eq(&chars_of(named[k - 1].id.as_str()), &target) {
            return Some(k - 1);
        }
        k -= 1;
    }
    None
}

fn contains_string(v: &Vec<String>, s: &String) -> (r: bool)
    ensures
        r == names_of(v@).contains(s@),
{
    contains_name(v, &chars_of(s.as_str()))
}

pub fn is_web_url_exec(url: &Vec<char>) -> (r: bool)
    ensures
        r == is_web_url(url@),
{
    starts_with(url, &chars_of("http://")) || starts_with(url, &chars_of("https://"))
}

fn kept_favicon_exec(image: &Option<String>) -> (r: Option<String>)
    ensures
        opt_chars(r) == kept_favicon(*image),
{
    match image {
        Some(i) => {
            if starts_with(&chars_of(i.as_str()), &chars_of("data:image/")) {
                Some(i.clone())
            } else {
                None
            }
        },
        None => None,
    }
}


/// Gives each of a window's groups its unique import name, in order, and
/// records the names in `used`.
fn name_window_groups(groups: &Vec<FirefoxGroup>, used: &mut Vec<String>) -> (named: Vec<FirefoxGroup>)
    ensures
        named@.map_values(|g: FirefoxGroup| named_view(g)) == name_groups(
            groups@,
            names_of(old(used)@),
        ),
        names_of(final(used)@) == names_of(old(used)@) + group_names(
            name_groups(groups@, names_of(old(used)@)),
        ),
{
    let ghost used0 = names_of(used@);
    let mut named: Vec<FirefoxGroup> = Vec::new();
    let mut i: usize = 0;
    assert(groups@.take(0) =~= Seq::<FirefoxGroup>::empty());
    assert(used0 + group_names(Seq::<NamedGroup>::empty()) =~= used0);
    assert(named@.map_values(|g: FirefoxGroup| named_view(g)) =~= Seq::<NamedGroup>::empty());
    while i < groups.len()
        invariant
            i <= groups.len(),
            named@.map_values(|g: FirefoxGroup| named_view(g)) == name_groups(
                groups@.take(i as int),
                used0,
            ),
            names_of(used@) == used0 + group_names(name_groups(groups@.take(i as int), used0)),
        decreases groups.len() - i,
    {
        let ghost prev = name_groups(groups@.take(i as int), used0);
        let g = &groups[i];
        let name = unique_group_name(g.name.as_str(), used);
        let copy = FirefoxGroup {
            id: g.id.clone(),
            name,
            collapsed: g.collapsed,
            color: copy_opt(&g.color),
        };
        let ghost before = named@;
        named.push(copy);
        proof {
            assert(groups@.take(i + 1).drop_last() =~= groups@.take(i as int));
            assert(groups@.take(i + 1).last() == groups@[i as int]);
            let next = name_groups(groups@.take(i + 1), used0);
            assert(next == prev.push(named_view(copy)));
            assert(named@.map_values(|g: FirefoxGroup| named_view(g)) =~= before.map_values(
                |g: FirefoxGroup| named_view(g),
            ).push(named_view(copy)));
            assert(group_names(next) =~= group_names(prev).push(copy.name@));
            assert(names_of(used@) =~= used0 + group_names(next));
        }
        i += 1;
    }
    assert(groups@.take(i as int) =~= groups@);
    named
}


/// The named groups of a window as the import spec sees them.
pub open spec fn named_views(named: Seq<FirefoxGroup>) -> Seq<NamedGroup> {
    named.map_values(|g: FirefoxGroup| named_view(g))
}

/// Imports one Firefox tab into `tabs` and `groups` (see `import_tab`);
/// `seen` holds the names of the window's groups already added.
fn import_one_tab(
    t: &FirefoxTab,
    named: &Vec<FirefoxGroup>,
    tabs: &mut Vec<TabSnapshot>,
    groups: &mut Vec<TabGroupSnapshot>,
    seen: &mut Vec<String>,
)
    ensures
        ({
            let r = import_tab(
                ImportState {
                    tabs: tab_views(old(tabs)@),
                    groups: group_views(old(groups)@),
                    seen: names_of(old(seen)@),
                },
                *t,
                named_views(named@),
            );
            &&& tab_views(final(tabs)@) == r.tabs
            &&& group_views(final(groups)@) == r.groups
            &&& names_of(final(seen)@) == r.seen
        }),
{
    let pos: usize = if t.index == 0 {
        0
    } else {
        t.index - 1
    };
    if pos >= t.entries.len() {
        return;
    }
    let url = &t.entries[pos].url;
    if !is_web_url_exec(&chars_of(url.as_str())) {
        return;
    }
    let found = match &t.group_id {
        Some(id) => find_group(named, id),
        None => None,
    };
    let ghost tabs0 = tabs@;
    let ghost groups0 = groups@;
    let ghost seen0 = seen@;
    let group = match found {
        Some(k) => {
            let ng = &named[k];
            if !contains_string(seen, &ng.name) {
                groups.push(
                    TabGroupSnapshot {
                        name: ng.name.clone(),
                        collapsed: ng.collapsed,
                        color: copy_opt(&ng.color),
                    },
                );
                seen.push(ng.name.clone());
                assert(group_views(groups@) =~= group_views(groups0).push(
                    GroupView {
                        name: ng.name@,
                        collapsed: ng.collapsed,
                        color: opt_chars(ng.color),
                    },
                ));
                assert(names_of(seen@) =~= names_of(seen0).push(ng.name@));
            }
            Some(ng.name.clone())
        },
        None => None,
    };
    let snapshot = TabSnapshot {
        url: url.clone(),
        title: None,
        pinned: t.pinned,
        group,
        favicon: kept_favicon_exec(&t.image),
    };
    tabs.push(snapshot);
    assert(tab_views(tabs@) =~= tab_views(tabs0).push(snapshot@));
}

/// Imports a window's tabs in order (see `import_tabs_of`), starting with
/// no group of the window added yet.
fn import_window_tabs(
    wtabs: &Vec<FirefoxTab>,
    named: &Vec<FirefoxGroup>,
    tabs: &mut Vec<TabSnapshot>,
    groups: &mut Vec<TabGroupSnapshot>,
)
    ensures
        ({
            let r = import_tabs_of(
                ImportState {
                    tabs: tab_views(old(tabs)@),
                    groups: group_views(old(groups)@),
                    seen: Seq::<Seq<char>>::empty(),
                },
                wtabs@,
                named_views(named@),
            );
            &&& tab_views(final(tabs)@) == r.tabs
            &&& group_views(final(groups)@) == r.groups
        }),
{
    let ghost init = ImportState {
        tabs: tab_views(tabs@),
        groups: group_views(groups@),
        seen: Seq::<Seq<char>>::empty(),
    };
    let ghost nv = named_views(named@);
    let mut seen: Vec<String> = Vec::new();
    let mut i: usize = 0;
    assert(wtabs@.take(0) =~= Seq::<FirefoxTab>::empty());
    assert(names_of(seen@) =~= Seq::<Seq<char>>::empty());
    while i < wtabs.len()
        invariant
            i <= wtabs.len(),
            nv == named_views(named@),
            ({
                let st = import_tabs_of(init, wtabs@.take(i as int), nv);
                &&& tab_views(tabs@) == st.tabs
                &&& group_views(groups@) == st.groups
                &&& names_of(seen@) == st.seen
            }),
        decreases wtabs.len() - i,
    {
        proof {
            assert(wtabs@.take(i + 1).drop_last() =~= wtabs@.take(i as int));
            assert(wtabs@.take(i + 1).last() == wtabs@[i as int]);
        }
        import_one_tab(&wtabs[i], named, tabs, groups, &mut seen);
        i += 1;
    }
    assert(wtabs@.take(i as int) =~= wtabs@);
}

/// The tabs and groups that an import takes from a Firefox session: the web
/// page each tab shows, with its pin, group and inline favicon, window after
/// window; each group once, under a name no earlier group took.
pub fn import_session(session: &FirefoxSession) -> (r: FirefoxImport)
    ensures
        tab_views(r.tabs@) == import_windows_of(session.windows@).tabs,
        group_views(r.groups@) == import_windows_of(session.windows@).groups,
{
    let mut tabs: Vec<TabSnapshot> = Vec::new();
    let mut groups: Vec<TabGroupSnapshot> = Vec::new();
    let mut used: Vec<String> = Vec::new();
    let mut w: usize = 0;
    assert(session.windows@.take(0) =~= Seq::<FirefoxWindow>::empty());
    assert(tab_views(tabs@) =~= Seq::<TabView>::empty());
    assert(group_views(groups@) =~= Seq::<GroupView>::empty());
    assert(names_of(used@) =~= Seq::<Seq<char>>::empty());
    while w < session.windows.len()
        invariant
            w <= session.windows.len(),
            ({
                let st = import_windows_of(session.windows@.take(w as int));
                &&& tab_views(tabs@) == st.tabs
                &&& group_views(groups@) == st.groups
                &&& names_of(used@) == st.used
            }),
        decreases session.windows.len() - w,
    {
        proof {
            assert(session.windows@.take(w + 1).drop_last() =~= session.windows@.take(w as int));
            assert(session.windows@.take(w + 1).last() == session.windows@[w as int]);
        }
        let window = &session.windows[w];
        let named = name_window_groups(&window.groups, &mut used);
        import_window_tabs(&window.tabs, &named, &mut tabs, &mut groups);
        w += 1;
    }
    assert(session.windows@.take(w as int) =~= session.windows@);
    FirefoxImport { tabs, groups }
}

/// The order of two modification times, where an unknown time comes first.
pub open spec fn time_le(a: Option<i128>, b: Option<i128>) -> bool {
    match (a, b) {
        (None, _) => true,
        (Some(_), None) => false,
        (Some(x), Some(y)) => x <= y,
    }
}

/// The session file to import among candidates with these modification
/// times (nanoseconds from the Unix epoch, `None` where unknown): the latest
/// one, the last of them if several are latest. No candidate means no
/// session.
pub fn latest_session(modified: &Vec<Option<i128>>) -> (r: Result<usize, FirefoxImportError>)
    ensures
        modified@.len() == 0 <==> r is Err,
        r is Err ==> r matches Err(FirefoxImportError::SessionNotFound),
        r matches Ok(i) ==> {
            &&& i < modified@.len()
            &&& forall|j: int| 0 <= j < modified@.len() ==> time_le(modified@[j], modified@[i as int])
            &&& forall|j: int| i < j < modified@.len() ==> !time_le(modified@[i as int], modified@[j])
        },
{
    if modified.len() == 0 {
        return Err(FirefoxImportError::SessionNotFound);
    }
    let mut best: usize = 0;
    let mut k: usize = 1;
    while k < modified.len()
        invariant
            1 <= k <= modified.len(),
            best < k,
            forall|j: int| 0 <= j < k ==> time_le(modified@[j], modified@[best as int]),
            forall|j: int| best < j < k ==> !time_le(modified@[best as int], modified@[j]),
        decreases modified.len() - k,
    {
        let later = match (modified[best], modified[k]) {
            (None, _) => true,
            (Some(_), None) => false,
            (Some(x), Some(y)) => x <= y,
        };
        if later {
            best = k;
        }
        k += 1;
    }
    Ok(best)
}

/// An imported group name is one that was not taken yet.
pub proof fn lemma_unique_name_fresh(name: Seq<char>, used: Seq<Seq<char>>)
    ensures
        !used.contains(unique_name_in(name, used)),
{
    let base = group_base(name);
    if used.contains(base) {
        lemma_some_number_free(base, used);
        let m = choose|k: nat| 2 <= k <= used.len() + 2 && !used.contains(#[trigger] numbered_name(base, k));
        lemma_first_free_exists(base, used, m);
    }
}

/// The names a window's groups are imported under are new: none was taken
/// before, and no two are the same.
pub proof fn lemma_name_groups_fresh(groups: Seq<FirefoxGroup>, used: Seq<Seq<char>>)
    ensures
        name_groups(groups, used).len() == groups.len(),
        forall|i: int| 0 <= i < groups.len() ==> !used.contains(#[trigger] name_groups(groups, used)[i].name),
        forall|i: int, j: int| 0 <= i < j < groups.len() ==> (#[trigger] name_groups(groups, used)[i]).name
            != (#[trigger] name_groups(groups, used)[j]).name,
    decreases groups.len(),
{
    if groups.len() > 0 {
        let d = groups.drop_last();
        lemma_name_groups_fresh(d, used);
        let prev = name_groups(d, used);
        let taken = used + group_names(prev);
        let n = unique_name_in(groups.last().name@, taken);
        lemma_unique_name_fresh(groups.last().name@, taken);
        let r = name_groups(groups, used);
        assert forall|i: int| 0 <= i < groups.len() implies !used.contains(#[trigger] r[i].name) by {
            if i < d.len() {
                assert(r[i] == prev[i]);
            } else {
                if used.contains(n) {
                    let k = choose|k: int| 0 <= k < used.len() && used[k] == n;
                    assert(taken[k] == n);
                }
            }
        }
        assert forall|i: int, j: int| 0 <= i < j < groups.len() implies (#[trigger] r[i]).name != (#[trigger] r[j]).name by {
            if j < d.len() {
                assert(r[i] == prev[i] && r[j] == prev[j]);
            } else {
                assert(r[i] == prev[i]);
                assert(taken[used.len() + i] == prev[i].name);
            }
        }
    }
}

proof fn lemma_group_for_id_member(named: Seq<NamedGroup>, id: Seq<char>)
    ensures
        group_for_id(named, id) matches Some(g) ==> group_names(named).contains(g.name),
    decreases named.len(),
{
    if named.len() > 0 {
        if named.last().id == id {
            assert(group_names(named)[named.len() - 1] == named.last().name);
        } else {
            lemma_group_for_id_member(named.drop_last(), id);
            if let Some(g) = group_for_id(named.drop_last(), id) {
                let k = choose|k: int| 0 <= k < group_names(named.drop_last()).len() && group_names(named.drop_last())[k] == g.name;
                assert(group_names(named)[k] == g.name);
            }
        }
    }
}

/// A tab as an import makes it: a web page, no title, and at most an inline
/// image as favicon.
pub open spec fn imported_tab_ok(t: TabView) -> bool {
    &&& is_web_url(t.url)
    &&& t.title is None
    &&& (t.favicon matches Some(f) ==> "data:image/"@.is_prefix_of(f))
}

/// No two groups share a name.
pub open spec fn distinct_group_names(gs: Seq<GroupView>) -> bool {
    forall|i: int, j: int| 0 <= i < j < gs.len() ==> (#[trigger] gs[i]).name != (#[trigger] gs[j]).name
}

/// Some group has the name.
pub open spec fn has_group_named(gs: Seq<GroupView>, name: Seq<char>) -> bool {
    exists|j: int| 0 <= j < gs.len() && (#[trigger] gs[j]).name == name
}

/// Every tab's group is one of the groups.
pub open spec fn tab_groups_known(tabs: Seq<TabView>, gs: Seq<GroupView>) -> bool {
    forall|i: int| 0 <= i < tabs.len() ==> ((#[trigger] tabs[i]).group matches Some(g) ==> has_group_named(gs, g))
}

/// Whether a tab is in the named group.
pub open spec fn uses_group(t: TabView, name: Seq<char>) -> bool {
    t.group == Some(name)
}

/// Every group has a tab in it.
pub open spec fn groups_used(tabs: Seq<TabView>, gs: Seq<GroupView>) -> bool {
    forall|j: int|
        0 <= j < gs.len() ==> exists|i: int| 0 <= i < tabs.len() && #[trigger] uses_group(tabs[i], (#[trigger] gs[j]).name)
}

/// The groups come in the order of their first tabs: a tab of a group is
/// preceded by a tab of every earlier group.
pub open spec fn groups_in_first_use_order(tabs: Seq<TabView>, gs: Seq<GroupView>) -> bool {
    forall|j1: int, j2: int, i2: int|
        #![trigger uses_group(tabs[i2], gs[j2].name), gs[j1]]
        0 <= j1 < j2 < gs.len() && 0 <= i2 < tabs.len() && uses_group(tabs[i2], gs[j2].name) ==> exists|i1: int|
            0 <= i1 < i2 && #[trigger] uses_group(tabs[i1], gs[j1].name)
}

/// What holds of the tabs and groups imported so far.
pub open spec fn import_ok(tabs: Seq<TabView>, gs: Seq<GroupView>, used: Seq<Seq<char>>) -> bool {
    &&& forall|i: int| 0 <= i < tabs.len() ==> imported_tab_ok(#[trigger] tabs[i])
    &&& distinct_group_names(gs)
    &&& forall|j: int| 0 <= j < gs.len() ==> used.contains(#[trigger] gs[j].name)
    &&& tab_groups_known(tabs, gs)
    &&& groups_used(tabs, gs)
    &&& groups_in_first_use_order(tabs, gs)
}

/// Adding a tab of a known group, or of none, keeps every group used and the
/// groups in the order of first use.
proof fn lemma_first_use_same(tabs: Seq<TabView>, gs: Seq<GroupView>, tab: TabView)
    requires
        groups_used(tabs, gs),
        groups_in_first_use_order(tabs, gs),
    ensures
        groups_used(tabs.push(tab), gs),
        groups_in_first_use_order(tabs.push(tab), gs),
{
    let r = tabs.push(tab);
    assert forall|j: int| 0 <= j < gs.len() implies exists|i: int|
        0 <= i < r.len() && #[trigger] uses_group(r[i], (#[trigger] gs[j]).name) by {
        let i = choose|i: int| 0 <= i < tabs.len() && #[trigger] uses_group(tabs[i], gs[j].name);
        assert(r[i] == tabs[i]);
    }
    assert forall|j1: int, j2: int, i2: int|
        #![trigger uses_group(r[i2], gs[j2].name), gs[j1]]
        0 <= j1 < j2 < gs.len() && 0 <= i2 < r.len() && uses_group(r[i2], gs[j2].name) implies exists|i1: int|
        0 <= i1 < i2 && #[trigger] uses_group(r[i1], gs[j1].name) by {
        let i3 = if i2 < tabs.len() {
            assert(r[i2] == tabs[i2]);
            i2
        } else {
            let ip = choose|i: int| 0 <= i < tabs.len() && #[trigger] uses_group(tabs[i], gs[j2].name);
            assert(uses_group(tabs[ip], gs[j2].name));
            ip
        };
        assert(uses_group(tabs[i3], gs[j2].name));
        assert(gs[j1] == gs[j1]);
        let i1 = choose|i1: int| 0 <= i1 < i3 && #[trigger] uses_group(tabs[i1], gs[j1].name);
        assert(r[i1] == tabs[i1]);
    }
}

/// Adding a tab of a new group, with that group after the others, keeps
/// every group used and the groups in the order of first use.
proof fn lemma_first_use_new(tabs: Seq<TabView>, gs: Seq<GroupView>, tab: TabView, g: GroupView)
    requires
        groups_used(tabs, gs),
        groups_in_first_use_order(tabs, gs),
        tab_groups_known(tabs, gs),
        !has_group_named(gs, g.name),
        tab.group == Some(g.name),
    ensures
        groups_used(tabs.push(tab), gs.push(g)),
        groups_in_first_use_order(tabs.push(tab), gs.push(g)),
{
    assert forall|i: int| 0 <= i < tabs.len() implies !uses_group(#[trigger] tabs[i], g.name) by {
        if uses_group(tabs[i], g.name) {
            assert(has_group_named(gs, g.name));
        }
    }
    assert forall|j: int| 0 <= j < gs.len() implies (#[trigger] gs[j]).name != g.name by {
        if gs[j].name == g.name {
            assert(has_group_named(gs, g.name));
        }
    }
    lemma_new_group_used(tabs, gs, tab, g);
    lemma_new_group_order(tabs, gs, tab, g);
}

proof fn lemma_new_group_used(tabs: Seq<TabView>, gs: Seq<GroupView>, tab: TabView, g: GroupView)
    requires
        groups_used(tabs, gs),
        tab.group == Some(g.name),
    ensures
        groups_used(tabs.push(tab), gs.push(g)),
{
    let r = tabs.push(tab);
    let q = gs.push(g);
    assert forall|j: int| 0 <= j < q.len() implies exists|i: int|
        0 <= i < r.len() && #[trigger] uses_group(r[i], (#[trigger] q[j]).name) by {
        if j < gs.len() {
            assert(q[j] == gs[j]);
            let i = choose|i: int| 0 <= i < tabs.len() && #[trigger] uses_group(tabs[i], gs[j].name);
            assert(r[i] == tabs[i]);
        } else {
            assert(uses_group(r[tabs.len() as int], q[j].name));
        }
    }
}

proof fn lemma_new_group_order(tabs: Seq<TabView>, gs: Seq<GroupView>, tab: TabView, g: GroupView)
    requires
        groups_used(tabs, gs),
        groups_in_first_use_order(tabs, gs),
        forall|i: int| 0 <= i < tabs.len() ==> !uses_group(#[trigger] tabs[i], g.name),
        forall|j: int| 0 <= j < gs.len() ==> (#[trigger] gs[j]).name != g.name,
        tab.group == Some(g.name),
    ensures
        groups_in_first_use_order(tabs.push(tab), gs.push(g)),
{
    let r = tabs.push(tab);
    let q = gs.push(g);
    assert forall|j1: int, j2: int, i2: int|
        #![trigger uses_group(r[i2], q[j2].name), q[j1]]
        0 <= j1 < j2 < q.len() && 0 <= i2 < r.len() && uses_group(r[i2], q[j2].name) implies exists|i1: int|
        0 <= i1 < i2 && #[trigger] uses_group(r[i1], q[j1].name) by {
        assert(q[j1] == gs[j1]);
        if i2 < tabs.len() {
            assert(r[i2] == tabs[i2]);
            if j2 == gs.len() {
                assert(!uses_group(tabs[i2], g.name));
            }
            assert(q[j2] == gs[j2]);
            assert(uses_group(tabs[i2], gs[j2].name));
            let i1 = choose|i1: int| 0 <= i1 < i2 && #[trigger] uses_group(tabs[i1], gs[j1].name);
            assert(r[i1] == tabs[i1]);
        } else {
            if j2 < gs.len() {
                assert(q[j2] == gs[j2]);
                assert(gs[j2].name != g.name);
            }
            let i1 = choose|i1: int| 0 <= i1 < tabs.len() && #[trigger] uses_group(tabs[i1], gs[j1].name);
            assert(r[i1] == tabs[i1]);
        }
    }
}

/// What holds while a window's tabs are imported: besides `import_ok` for
/// the names taken including the window's, the groups added from this
/// window are exactly those named in `seen`.
pub open spec fn window_import_ok(st: ImportState, used: Seq<Seq<char>>, named: Seq<NamedGroup>) -> bool {
    &&& import_ok(st.tabs, st.groups, used + group_names(named))
    &&& forall|k: int| 0 <= k < st.seen.len() ==> has_group_named(st.groups, #[trigger] st.seen[k])
    &&& forall|j: int| 0 <= j < st.groups.len() && group_names(named).contains(#[trigger] st.groups[j].name)
        ==> st.seen.contains(st.groups[j].name)
}

proof fn lemma_import_tab_ok(st: ImportState, t: FirefoxTab, used: Seq<Seq<char>>, named: Seq<NamedGroup>)
    requires
        window_import_ok(st, used, named),
    ensures
        window_import_ok(import_tab(st, t, named), used, named),
{
    let r = import_tab(st, t, named);
    let all = used + group_names(named);
    if let Some(url) = current_entry_url(t) {
        if is_web_url(url) {
            let g = tab_group(t, named);
            let tab = r.tabs.last();
            assert(r.tabs == st.tabs.push(tab));
            assert(imported_tab_ok(tab)) by {
                reveal_strlit("data:image/");
            }
            assert forall|i: int| 0 <= i < r.tabs.len() implies imported_tab_ok(#[trigger] r.tabs[i]) by {
                if i < st.tabs.len() {
                    assert(r.tabs[i] == st.tabs[i]);
                }
            }
            match g {
                Some(ng) => {
                    if let Some(id) = t.group_id {
                        lemma_group_for_id_member(named, id@);
                    }
                    assert(group_names(named).contains(ng.name));
                    if st.seen.contains(ng.name) {
                        lemma_first_use_same(st.tabs, st.groups, tab);
                        let k = choose|k: int| 0 <= k < st.seen.len() && st.seen[k] == ng.name;
                        assert(has_group_named(st.groups, st.seen[k]));
                        assert forall|i: int| 0 <= i < r.tabs.len() implies ((#[trigger] r.tabs[i]).group matches Some(gn)
                            ==> has_group_named(r.groups, gn)) by {
                            if i < st.tabs.len() {
                                assert(r.tabs[i] == st.tabs[i]);
                            }
                        }
                    } else {
                        let ng_view = GroupView { name: ng.name, collapsed: ng.collapsed, color: ng.color };
                        assert(r.groups == st.groups.push(ng_view));
                        assert forall|j: int| 0 <= j < st.groups.len() implies (#[trigger] st.groups[j]).name != ng.name by {
                            if st.groups[j].name == ng.name {
                                assert(st.seen.contains(st.groups[j].name));
                            }
                        }
                        assert(!has_group_named(st.groups, ng.name));
                        lemma_first_use_new(st.tabs, st.groups, tab, ng_view);
                        assert(distinct_group_names(r.groups)) by {
                            assert forall|i: int, j: int| 0 <= i < j < r.groups.len() implies (#[trigger] r.groups[i]).name
                                != (#[trigger] r.groups[j]).name by {
                                assert(r.groups[i] == st.groups[i]);
                                if j < st.groups.len() {
                                    assert(r.groups[j] == st.groups[j]);
                                }
                            }
                        }
                        assert(all.contains(ng.name)) by {
                            let k = choose|k: int| 0 <= k < group_names(named).len() && group_names(named)[k] == ng.name;
                            assert(all[used.len() + k] == ng.name);
                        }
                        assert forall|j: int| 0 <= j < r.groups.len() implies all.contains(#[trigger] r.groups[j].name) by {
                            if j < st.groups.len() {
                                assert(r.groups[j] == st.groups[j]);
                            }
                        }
                        assert(has_group_named(r.groups, ng.name)) by {
                            assert(r.groups[st.groups.len() as int].name == ng.name);
                        }
                        assert forall|gn: Seq<char>| has_group_named(st.groups, gn) implies has_group_named(r.groups, gn) by {
                            let j = choose|j: int| 0 <= j < st.groups.len() && (#[trigger] st.groups[j]).name == gn;
                            assert(r.groups[j] == st.groups[j]);
                        }
                        assert forall|i: int| 0 <= i < r.tabs.len() implies ((#[trigger] r.tabs[i]).group matches Some(gn)
                            ==> has_group_named(r.groups, gn)) by {
                            if i < st.tabs.len() {
                                assert(r.tabs[i] == st.tabs[i]);
                            }
                        }
                        assert forall|k: int| 0 <= k < r.seen.len() implies has_group_named(r.groups, #[trigger] r.seen[k]) by {
                            if k < st.seen.len() {
                                assert(r.seen[k] == st.seen[k]);
                            }
                        }
                        assert forall|j: int| 0 <= j < r.groups.len() && group_names(named).contains(
                            #[trigger] r.groups[j].name,
                        ) implies r.seen.contains(r.groups[j].name) by {
                            if j < st.groups.len() {
                                assert(r.groups[j] == st.groups[j]);
                                let k = choose|k: int| 0 <= k < st.seen.len() && st.seen[k] == st.groups[j].name;
                                assert(r.seen[k] == st.seen[k]);
                            } else {
                                assert(r.seen[st.seen.len() as int] == ng.name);
                            }
                        }
                    }
                },
                None => {
                    lemma_first_use_same(st.tabs, st.groups, tab);
                    assert forall|i: int| 0 <= i < r.tabs.len() implies ((#[trigger] r.tabs[i]).group matches Some(gn)
                        ==> has_group_named(r.groups, gn)) by {
                        if i < st.tabs.len() {
                            assert(r.tabs[i] == st.tabs[i]);
                        }
                    }
                },
            }
        }
    }
}

proof fn lemma_import_tabs_ok(st: ImportState, tabs: Seq<FirefoxTab>, used: Seq<Seq<char>>, named: Seq<NamedGroup>)
    requires
        window_import_ok(st, used, named),
    ensures
        window_import_ok(import_tabs_of(st, tabs, named), used, named),
    decreases tabs.len(),
{
    if tabs.len() > 0 {
        lemma_import_tabs_ok(st, tabs.drop_last(), used, named);
        lemma_import_tab_ok(import_tabs_of(st, tabs.drop_last(), named), tabs.last(), used, named);
    }
}

/// What an import of Firefox windows gives: tabs of web pages only, without
/// titles and with only inline-image favicons; groups with distinct names;
/// every tab's group among the imported groups; every imported group used by
/// some tab; and the groups in the order of their first tabs.
pub proof fn lemma_import_well_formed(windows: Seq<FirefoxWindow>)
    ensures
        import_ok(
            import_windows_of(windows).tabs,
            import_windows_of(windows).groups,
            import_windows_of(windows).used,
        ),
    decreases windows.len(),
{
    if windows.len() > 0 {
        let d = windows.drop_last();
        lemma_import_well_formed(d);
        let st = import_windows_of(d);
        let w = windows.last();
        let named = name_groups(w.groups@, st.used);
        lemma_name_groups_fresh(w.groups@, st.used);
        let all = st.used + group_names(named);
        let init = ImportState { tabs: st.tabs, groups: st.groups, seen: Seq::<Seq<char>>::empty() };
        assert(window_import_ok(init, st.used, named)) by {
            assert forall|j: int| 0 <= j < st.groups.len() implies all.contains(#[trigger] st.groups[j].name) by {
                let k = choose|k: int| 0 <= k < st.used.len() && st.used[k] == st.groups[j].name;
                assert(all[k] == st.groups[j].name);
            }
            assert forall|j: int| 0 <= j < init.groups.len() && group_names(named).contains(#[trigger] init.groups[j].name)
                implies init.seen.contains(init.groups[j].name) by {
                let k = choose|k: int| 0 <= k < group_names(named).len() && group_names(named)[k] == init.groups[j].name;
                assert(group_names(named)[k] == named[k].name);
                assert(!st.used.contains(named[k].name));
            }
        }
        lemma_import_tabs_ok(init, w.tabs@, st.used, named);
    }
}
} // verus!
