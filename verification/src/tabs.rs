//! Tabs, tab groups and pins: the saved form of a tab and a group, and the
//! rules that order, show, hide, label and size tabs.
use vstd::prelude::*;
use crate::firefox::numbered_name;
use crate::text::decimal;
use crate::text::{
    after_first, ascii_lowercase, chars_of, concat, decimal_u128, seq_eq, split_once, string_of,
    to_ascii_lowercase, trim, trim_chars,
};

verus! {

/// The saved state of a tab.
#[derive(Debug, Clone)]
pub struct TabSnapshot {
    pub url: String,
    pub title: Option<String>,
    pub pinned: bool,
    pub group: Option<String>,
    pub favicon: Option<String>,
}

/// The saved state of a tab group.
#[derive(Debug, Clone)]
pub struct TabGroupSnapshot {
    pub name: String,
    pub collapsed: bool,
    pub color: Option<String>,
}

/// The characters of an optional string.
pub open spec fn opt_chars(o: Option<String>) -> Option<Seq<char>> {
    match o {
        Some(s) => Some(s@),
        None => None,
    }
}

/// The characters of a tab snapshot's fields.
pub struct TabView {
    pub url: Seq<char>,
    pub title: Option<Seq<char>>,
    pub pinned: bool,
    pub group: Option<Seq<char>>,
    pub favicon: Option<Seq<char>>,
}

/// The characters of a group snapshot's fields.
pub struct GroupView {
    pub name: Seq<char>,
    pub collapsed: bool,
    pub color: Option<Seq<char>>,
}

impl View for TabSnapshot {
    type V = TabView;

    open spec fn view(&self) -> TabView {
        TabView {
            url: self.url@,
            title: opt_chars(self.title),
            pinned: self.pinned,
            group: opt_chars(self.group),
            favicon: opt_chars(self.favicon),
        }
    }
}

impl View for TabGroupSnapshot {
    type V = GroupView;

    open spec fn view(&self) -> GroupView {
        GroupView { name: self.name@, collapsed: self.collapsed, color: opt_chars(self.color) }
    }
}

/// The views of a list of tab snapshots.
pub open spec fn tab_views(s: Seq<TabSnapshot>) -> Seq<TabView> {
    s.map_values(|t: TabSnapshot| t@)
}

/// The views of a list of group snapshots.
pub open spec fn group_views(s: Seq<TabGroupSnapshot>) -> Seq<GroupView> {
    s.map_values(|g: TabGroupSnapshot| g@)
}

/// A copy of an optional string.
pub fn copy_opt(o: &Option<String>) -> (r: Option<String>)
    ensures
        r == *o,
{
    match o {
        Some(s) => Some(s.clone()),
        None => None,
    }
}


/// The position of the first element of `s` with property `p`.
pub open spec fn first_index<A>(s: Seq<A>, p: spec_fn(A) -> bool) -> Option<int>
    decreases s.len(),
{
    if s.len() == 0 {
        None
    } else if p(s[0]) {
        Some(0)
    } else {
        match first_index(s.drop_first(), p) {
            Some(i) => Some(i + 1),
            None => None,
        }
    }
}

/// `first_index` finds the first element with the property, or says that
/// none has it.
pub proof fn lemma_first_index<A>(s: Seq<A>, p: spec_fn(A) -> bool)
    ensures
        match first_index(s, p) {
            Some(i) => 0 <= i < s.len() && p(s[i]) && forall|j: int| 0 <= j < i ==> !p(#[trigger] s[j]),
            None => forall|j: int| 0 <= j < s.len() ==> !p(#[trigger] s[j]),
        },
    decreases s.len(),
{
    if s.len() > 0 && !p(s[0]) {
        let t = s.drop_first();
        lemma_first_index(t, p);
        match first_index(t, p) {
            Some(i) => {
                assert(s[i + 1] == t[i]);
                assert forall|j: int| 0 <= j < i + 1 implies !p(#[trigger] s[j]) by {
                    if j > 0 {
                        assert(s[j] == t[j - 1]);
                    }
                }
            },
            None => {
                assert forall|j: int| 0 <= j < s.len() implies !p(#[trigger] s[j]) by {
                    if j > 0 {
                        assert(s[j] == t[j - 1]);
                    }
                }
            },
        }
    }
}

/// A position that is the first with the property is what `first_index`
/// gives.
pub proof fn lemma_first_index_at<A>(s: Seq<A>, p: spec_fn(A) -> bool, i: int)
    requires
        0 <= i < s.len(),
        p(s[i]),
        forall|j: int| 0 <= j < i ==> !p(#[trigger] s[j]),
    ensures
        first_index(s, p) == Some(i),
{
    lemma_first_index(s, p);
}

/// No element has the property exactly when `first_index` finds none.
pub proof fn lemma_first_index_none<A>(s: Seq<A>, p: spec_fn(A) -> bool)
    requires
        forall|j: int| 0 <= j < s.len() ==> !p(#[trigger] s[j]),
    ensures
        first_index(s, p) is None,
{
    lemma_first_index(s, p);
}

/// A tab's pin and group.
#[derive(Debug, Clone)]
pub struct TabMeta {
    pub pinned: bool,
    pub group: Option<String>,
}

/// The pin and group that an imported or restored tab is given: those of
/// its snapshot.
pub fn snapshot_meta(snapshot: &TabSnapshot) -> (m: TabMeta)
    ensures
        m.pinned == snapshot.pinned,
        m.group == snapshot.group,
{
    TabMeta { pinned: snapshot.pinned, group: copy_opt(&snapshot.group) }
}

/// A tab group: its name, whether it is collapsed, and its color.
#[derive(Debug, Clone)]
pub struct GroupState {
    pub name: String,
    pub collapsed: bool,
    pub color: String,
}

/// The characters of a group's fields.
pub struct GroupStateView {
    pub name: Seq<char>,
    pub collapsed: bool,
    pub color: Seq<char>,
}

impl View for GroupState {
    type V = GroupStateView;

    open spec fn view(&self) -> GroupStateView {
        GroupStateView { name: self.name@, collapsed: self.collapsed, color: self.color@ }
    }
}

/// The views of a list of groups.
pub open spec fn group_states(gs: Seq<GroupState>) -> Seq<GroupStateView> {
    gs.map_values(|g: GroupState| g@)
}

/// The colors a group can have, in the order new groups take them.
pub open spec fn group_colors() -> Seq<Seq<char>> {
    seq![
        "blue"@,
        "purple"@,
        "cyan"@,
        "orange"@,
        "yellow"@,
        "pink"@,
        "green"@,
        "red"@,
        "gray"@,
    ]
}

/// The color that the group created as the `index`-th one gets: the colors
/// in turn, starting over after the last.
pub fn default_group_color(index: usize) -> (c: String)
    ensures
        c@ == group_colors()[(index % 9) as int],
{
    let k = index % 9;
    if k == 0 {
        String::from_str("blue")
    } else if k == 1 {
        String::from_str("purple")
    } else if k == 2 {
        String::from_str("cyan")
    } else if k == 3 {
        String::from_str("orange")
    } else if k == 4 {
        String::from_str("yellow")
    } else if k == 5 {
        String::from_str("pink")
    } else if k == 6 {
        String::from_str("green")
    } else if k == 7 {
        String::from_str("red")
    } else {
        String::from_str("gray")
    }
}

/// A group color as given (trimmed, in lower case) if it is one of the
/// group colors.
pub open spec fn normalized_color(color: Option<Seq<char>>) -> Option<Seq<char>> {
    match color {
        Some(c) => {
            let lower = ascii_lowercase(trim(c));
            if group_colors().contains(lower) {
                Some(lower)
            } else {
                None
            }
        },
        None => None,
    }
}

/// Reads a color name: trimmed and in lower case, kept only if it is one of
/// the group colors.
pub fn normalize_group_color(color: Option<&str>) -> (r: Option<String>)
    ensures
        opt_chars(r) == normalized_color(
            match color {
                Some(c) => Some(c@),
                None => None,
            },
        ),
{
    let c = match color {
        Some(c) => c,
        None => {
            return None;
        },
    };
    assert(color == Some(c));
    let lower = to_ascii_lowercase(&trim_chars(&chars_of(c)));
    let names = [
        "blue",
        "purple",
        "cyan",
        "orange",
        "yellow",
        "pink",
        "green",
        "red",
        "gray",
    ];
    assert(forall|k: int| 0 <= k < 9 ==> names@[k]@ == #[trigger] group_colors()[k]);
    let mut k: usize = 0;
    while k < 9
        invariant
            k <= 9,
            lower@ == ascii_lowercase(trim(c@)),
            color == Some(c),
            forall|j: int| 0 <= j < 9 ==> names@[j]@ == #[trigger] group_colors()[j],
            forall|j: int| 0 <= j < k ==> group_colors()[j] != lower@,
        decreases 9 - k,
    {
        if seq_eq(&chars_of(names[k]), &lower) {
            assert(group_colors().contains(lower@)) by {
                assert(group_colors()[k as int] == lower@);
            }
            let r = string_of(&lower);
            assert(normalized_color(Some(c@)) == Some(lower@));
            return Some(r);
        }
        k += 1;
    }
    assert(!group_colors().contains(lower@)) by {
        if group_colors().contains(lower@) {
            let j = choose|j: int| 0 <= j < group_colors().len() && group_colors()[j] == lower@;
            assert(group_colors()[j] != lower@);
        }
    }
    None
}

/// A group name as typed, trimmed; a blank one names no group.
pub open spec fn clean_name(name: Seq<char>) -> Option<Seq<char>> {
    if trim(name).len() == 0 {
        None
    } else {
        Some(trim(name))
    }
}

/// Reads a group name: trimmed, and none if blank.
pub fn clean_group_name(name: Option<&str>) -> (r: Option<String>)
    ensures
        match name {
            Some(n) => opt_chars(r) == clean_name(n@),
            None => r is None,
        },
{
    match name {
        Some(n) => {
            let t = trim_chars(&chars_of(n));
            if t.len() == 0 {
                None
            } else {
                Some(string_of(&t))
            }
        },
        None => None,
    }
}

/// Whether a tab belongs to the named group.
pub open spec fn in_group(m: TabMeta, name: Seq<char>) -> bool {
    m.group matches Some(g) && g@ == name
}

/// The position of the named group in the group list.
pub open spec fn group_index(groups: Seq<GroupStateView>, name: Seq<char>) -> Option<int>
    decreases groups.len(),
{
    if groups.len() == 0 {
        None
    } else if groups[0].name == name {
        Some(0)
    } else {
        match group_index(groups.drop_first(), name) {
            Some(i) => Some(i + 1),
            None => None,
        }
    }
}

/// `group_index` finds the first group with the name, or says that none
/// has it.
pub proof fn lemma_group_index(groups: Seq<GroupStateView>, name: Seq<char>)
    ensures
        match group_index(groups, name) {
            Some(i) => 0 <= i < groups.len() && groups[i].name == name && forall|j: int|
                0 <= j < i ==> (#[trigger] groups[j]).name != name,
            None => forall|j: int| 0 <= j < groups.len() ==> (#[trigger] groups[j]).name != name,
        },
    decreases groups.len(),
{
    if groups.len() > 0 && groups[0].name != name {
        let t = groups.drop_first();
        lemma_group_index(t, name);
        match group_index(t, name) {
            Some(i) => {
                assert(groups[i + 1] == t[i]);
                assert forall|j: int| 0 <= j < i + 1 implies (#[trigger] groups[j]).name != name by {
                    if j > 0 {
                        assert(groups[j] == t[j - 1]);
                    }
                }
            },
            None => {
                assert forall|j: int| 0 <= j < groups.len() implies (#[trigger] groups[j]).name != name by {
                    if j > 0 {
                        assert(groups[j] == t[j - 1]);
                    }
                }
            },
        }
    }
}

/// The first page of the named group.
pub open spec fn first_group_page(metas: Seq<TabMeta>, name: Seq<char>) -> Option<int> {
    first_index(metas, |m: TabMeta| in_group(m, name))
}

/// Whether the named group is collapsed (an unknown group is not).
pub open spec fn group_is_collapsed(groups: Seq<GroupStateView>, name: Seq<char>) -> bool {
    match group_index(groups, name) {
        Some(i) => groups[i].collapsed,
        None => false,
    }
}

/// The named group's color, if the group is known.
pub open spec fn group_color_of(groups: Seq<GroupStateView>, name: Seq<char>) -> Option<Seq<char>> {
    match group_index(groups, name) {
        Some(i) => Some(groups[i].color),
        None => None,
    }
}

/// The position of the named group, if there is such a group.
pub fn find_group_index(groups: &Vec<GroupState>, name: &str) -> (r: Option<usize>)
    ensures
        match r {
            Some(i) => i < groups@.len() && group_index(group_states(groups@), name@) == Some(i as int),
            None => group_index(group_states(groups@), name@) is None,
        },
{
    let target = chars_of(name);
    let mut i: usize = 0;
    while i < groups.len()
        invariant
            i <= groups.len(),
            target@ == name@,
            forall|j: int| 0 <= j < i ==> (#[trigger] groups@[j]).name@ != name@,
        decreases groups.len() - i,
    {
        if seq_eq(&chars_of(groups[i].name.as_str()), &target) {
            proof {
                lemma_group_index(group_states(groups@), name@);
                if let Some(k) = group_index(group_states(groups@), name@) {
                    if k < i {
                        assert(group_states(groups@)[k] == groups@[k]@);
                    }
                    assert(group_states(groups@)[i as int] == groups@[i as int]@);
                }
            }
            return Some(i);
        }
        i += 1;
    }
    proof {
        lemma_group_index(group_states(groups@), name@);
        if let Some(k) = group_index(group_states(groups@), name@) {
            assert(group_states(groups@)[k] == groups@[k]@);
        }
    }
    None
}

/// Whether the named group is collapsed.
pub fn group_collapsed(groups: &Vec<GroupState>, name: &str) -> (r: bool)
    ensures
        r == group_is_collapsed(group_states(groups@), name@),
{
    match find_group_index(groups, name) {
        Some(i) => groups[i].collapsed,
        None => false,
    }
}

/// The named group's color.
pub fn group_color(groups: &Vec<GroupState>, name: &str) -> (r: Option<String>)
    ensures
        opt_chars(r) == group_color_of(group_states(groups@), name@),
{
    match find_group_index(groups, name) {
        Some(i) => Some(groups[i].color.clone()),
        None => None,
    }
}

fn meta_in_group(m: &TabMeta, name: &Vec<char>) -> (r: bool)
    ensures
        r == in_group(*m, name@),
{
    match &m.group {
        Some(g) => seq_eq(&chars_of(g.as_str()), name),
        None => false,
    }
}

/// The first page of the named group.
pub fn find_first_group_page(metas: &Vec<TabMeta>, name: &str) -> (r: Option<usize>)
    ensures
        match r {
            Some(i) => i < metas@.len() && first_group_page(metas@, name@) == Some(i as int),
            None => first_group_page(metas@, name@) is None,
        },
{
    let target = chars_of(name);
    let mut i: usize = 0;
    while i < metas.len()
        invariant
            i <= metas.len(),
            target@ == name@,
            forall|j: int| 0 <= j < i ==> !in_group(#[trigger] metas@[j], name@),
        decreases metas.len() - i,
    {
        if meta_in_group(&metas[i], &target) {
            proof {
                lemma_first_index_at(metas@, |m: TabMeta| in_group(m, name@), i as int);
            }
            return Some(i);
        }
        i += 1;
    }
    proof {
        lemma_first_index_none(metas@, |m: TabMeta| in_group(m, name@));
    }
    None
}

/// The number of tabs in the named group.
pub open spec fn group_size(metas: Seq<TabMeta>, name: Seq<char>) -> nat
    decreases metas.len(),
{
    if metas.len() == 0 {
        0
    } else {
        group_size(metas.drop_last(), name) + if in_group(metas.last(), name) {
            1nat
        } else {
            0nat
        }
    }
}

/// Counts the tabs of the named group.
pub fn group_tab_count(metas: &Vec<TabMeta>, name: &str) -> (n: usize)
    ensures
        n == group_size(metas@, name@),
{
    let target = chars_of(name);
    let mut n: usize = 0;
    let mut i: usize = 0;
    assert(metas@.take(0) =~= Seq::<TabMeta>::empty());
    while i < metas.len()
        invariant
            i <= metas.len(),
            target@ == name@,
            n == group_size(metas@.take(i as int), name@),
            n <= i,
        decreases metas.len() - i,
    {
        assert(metas@.take(i + 1).drop_last() =~= metas@.take(i as int));
        if meta_in_group(&metas[i], &target) {
            n += 1;
        }
        i += 1;
    }
    assert(metas@.take(i as int) =~= metas@);
    n
}

/// Where a tab goes in the tab bar: pinned tabs first, then grouped tabs in
/// the order of their groups (a tab of an unknown group after those of known
/// groups), then the rest.
pub open spec fn page_rank(m: TabMeta, groups: Seq<GroupStateView>) -> (int, int) {
    if m.pinned {
        (0, 0)
    } else {
        match m.group {
            Some(g) => (
                1,
                match group_index(groups, g@) {
                    Some(i) => i,
                    None => usize::MAX as int,
                },
            ),
            None => (2, usize::MAX as int),
        }
    }
}

/// Rank `a` comes strictly before rank `b`.
pub open spec fn rank_lt(a: (int, int), b: (int, int)) -> bool {
    a.0 < b.0 || (a.0 == b.0 && a.1 < b.1)
}

/// Page `i` comes before page `j` in the tab bar: by rank, and in their
/// present order when the ranks are equal.
pub open spec fn page_before(metas: Seq<TabMeta>, groups: Seq<GroupStateView>, i: int, j: int) -> bool {
    let a = page_rank(metas[i], groups);
    let b = page_rank(metas[j], groups);
    rank_lt(a, b) || (a == b && i < j)
}

/// `order` lists the pages `0..n` in tab-bar order: each page once, every
/// page before the pages that come after it.
pub open spec fn is_tab_order(metas: Seq<TabMeta>, groups: Seq<GroupStateView>, order: Seq<usize>) -> bool {
    &&& order.len() == metas.len()
    &&& forall|k: int| 0 <= k < order.len() ==> order[k] < metas.len()
    &&& forall|p: usize| p < metas.len() ==> order.contains(p)
    &&& forall|a: int, b: int|
        0 <= a < b < order.len() ==> page_before(metas, groups, #[trigger] order[a] as int, #[trigger] order[b] as int)
}

/// A rank held in machine integers, as a pair of integers.
pub open spec fn rank_pair(r: (u8, usize)) -> (int, int) {
    (r.0 as int, r.1 as int)
}

fn rank_of(m: &TabMeta, groups: &Vec<GroupState>) -> (r: (u8, usize))
    ensures
        rank_pair(r) == page_rank(*m, group_states(groups@)),
{
    if m.pinned {
        (0, 0)
    } else {
        match &m.group {
            Some(g) => match find_group_index(groups, g.as_str()) {
                Some(i) => (1, i),
                None => (1, usize::MAX),
            },
            None => (2, usize::MAX),
        }
    }
}

fn rank_le_exec(a: (u8, usize), b: (u8, usize)) -> (r: bool)
    ensures
        r == !rank_lt((b.0 as int, b.1 as int), (a.0 as int, a.1 as int)),
{
    a.0 < b.0 || (a.0 == b.0 && a.1 <= b.1)
}

fn ranks_of(metas: &Vec<TabMeta>, groups: &Vec<GroupState>) -> (ranks: Vec<(u8, usize)>)
    ensures
        ranks@.len() == metas@.len(),
        forall|k: int| 0 <= k < metas@.len() ==> rank_pair(#[trigger] ranks@[k]) == page_rank(metas@[k], group_states(groups@)),
{
    let mut ranks: Vec<(u8, usize)> = Vec::new();
    let mut i: usize = 0;
    while i < metas.len()
        invariant
            i <= metas.len(),
            ranks@.len() == i,
            forall|k: int| 0 <= k < i ==> rank_pair(#[trigger] ranks@[k]) == page_rank(metas@[k], group_states(groups@)),
        decreases metas.len() - i,
    {
        let r = rank_of(&metas[i], groups);
        ranks.push(r);
        i += 1;
    }
    ranks
}

/// The pages in the order the tab bar shows them: sorted by rank, keeping
/// the present order of pages of equal rank.
pub fn ordered_pages(metas: &Vec<TabMeta>, groups: &Vec<GroupState>) -> (order: Vec<usize>)
    ensures
        is_tab_order(metas@, group_states(groups@), order@),
{
    let n = metas.len();
    let ranks = ranks_of(metas, groups);
    let mut order: Vec<usize> = Vec::new();
    let mut i: usize = 0;
    while i < n
        invariant
            i <= n == metas.len() == ranks@.len(),
            forall|k: int| 0 <= k < n ==> rank_pair(#[trigger] ranks@[k]) == page_rank(metas@[k], group_states(groups@)),
            order@.len() == i,
            forall|k: int| 0 <= k < order@.len() ==> order@[k] < i,
            forall|p: usize| p < i ==> order@.contains(p),
            forall|a: int, b: int|
                0 <= a < b < order@.len() ==> page_before(metas@, group_states(groups@), #[trigger] order@[a] as int, #[trigger] order@[b] as int),
        decreases n - i,
    {
        let key = ranks[i];
        let mut pos: usize = 0;
        while pos < order.len() && rank_le_exec(ranks[order[pos]], key)
            invariant
                pos <= order@.len() == i < n == ranks@.len() == metas.len(),
                key == ranks@[i as int],
                forall|k: int| 0 <= k < order@.len() ==> order@[k] < i,
                forall|k: int| 0 <= k < pos ==> !rank_lt(
                    page_rank(metas@[i as int], group_states(groups@)),
                    page_rank(metas@[#[trigger] order@[k] as int], group_states(groups@)),
                ),
                forall|k: int| 0 <= k < n ==> rank_pair(#[trigger] ranks@[k]) == page_rank(metas@[k], group_states(groups@)),
            decreases order@.len() - pos,
        {
            pos += 1;
        }
        let ghost before = order@;
        proof {
            if pos < before.len() {
                let e = before[pos as int] as int;
                assert(rank_lt(page_rank(metas@[i as int], group_states(groups@)), page_rank(metas@[e], group_states(groups@))));
                assert forall|k: int| pos <= k < before.len() implies rank_lt(
                    page_rank(metas@[i as int], group_states(groups@)),
                    page_rank(metas@[#[trigger] before[k] as int], group_states(groups@)),
                ) by {
                    if k > pos {
                        assert(page_before(metas@, group_states(groups@), before[pos as int] as int, before[k] as int));
                    }
                }
            }
        }
        order.insert(pos, i);
        proof {
            assert(order@ == before.insert(pos as int, i));
            assert forall|a: int, b: int|
                0 <= a < b < order@.len() implies page_before(metas@, group_states(groups@), #[trigger] order@[a] as int, #[trigger] order@[b] as int) by {
                if b < pos {
                    assert(order@[a] == before[a] && order@[b] == before[b]);
                } else if b == pos {
                    assert(order@[a] == before[a]);
                } else if a < pos {
                    assert(order@[a] == before[a] && order@[b] == before[b - 1]);
                } else if a == pos {
                    assert(order@[b] == before[b - 1]);
                } else {
                    assert(order@[a] == before[a - 1] && order@[b] == before[b - 1]);
                }
            }
            assert forall|p: usize| p < i + 1 implies order@.contains(p) by {
                if p == i {
                    assert(order@[pos as int] == i);
                } else {
                    assert(before.contains(p));
                    let k = choose|k: int| 0 <= k < before.len() && before[k] == p;
                    if k < pos {
                        assert(order@[k] == p);
                    } else {
                        assert(order@[k + 1] == p);
                    }
                }
            }
            assert forall|k: int| 0 <= k < order@.len() implies order@[k] < i + 1 by {
                if k < pos {
                    assert(order@[k] == before[k]);
                } else if k > pos {
                    assert(order@[k] == before[k - 1]);
                }
            }
        }
        i += 1;
    }
    order
}

/// The tabs' pins and groups after the pages are put in `order`.
pub open spec fn reordered(metas: Seq<TabMeta>, order: Seq<usize>) -> Seq<TabMeta> {
    order.map_values(|p: usize| metas[p as int])
}

/// Pages left where they are.
pub open spec fn unmoved(n: nat) -> Seq<usize> {
    Seq::new(n, |k: int| k as usize)
}

/// Once the tabs are in tab-bar order, laying them out again moves none:
/// the tab-bar order of the reordered tabs is the order they stand in.
pub proof fn lemma_tab_order_settles(metas: Seq<TabMeta>, groups: Seq<GroupStateView>, order: Seq<usize>)
    requires
        is_tab_order(metas, groups, order),
        metas.len() <= usize::MAX,
    ensures
        is_tab_order(reordered(metas, order), groups, unmoved(metas.len())),
{
    let m2 = reordered(metas, order);
    let id = unmoved(metas.len());
    assert forall|a: int, b: int| 0 <= a < b < id.len() implies page_before(
        m2,
        groups,
        #[trigger] id[a] as int,
        #[trigger] id[b] as int,
    ) by {
        assert(page_before(metas, groups, order[a] as int, order[b] as int));
    }
    assert forall|p: usize| p < m2.len() implies id.contains(p) by {
        assert(id[p as int] == p);
    }
}

/// Whether a page is shown: a tab outside any group, or in an expanded
/// group, is; of a collapsed group only the group's first tab is. A page
/// past the last is shown.
pub open spec fn page_shown(metas: Seq<TabMeta>, groups: Seq<GroupStateView>, page: int) -> bool {
    if page < 0 || page >= metas.len() {
        true
    } else {
        match metas[page].group {
            None => true,
            Some(g) => !group_is_collapsed(groups, g@) || first_group_page(metas, g@) == Some(page),
        }
    }
}

/// Whether the page is shown in the tab bar.
pub fn should_show_page(metas: &Vec<TabMeta>, groups: &Vec<GroupState>, page: usize) -> (r: bool)
    ensures
        r == page_shown(metas@, group_states(groups@), page as int),
{
    if page >= metas.len() {
        return true;
    }
    match &metas[page].group {
        None => true,
        Some(g) => {
            if !group_collapsed(groups, g.as_str()) {
                return true;
            }
            match find_first_group_page(metas, g.as_str()) {
                Some(first) => first == page,
                None => false,
            }
        },
    }
}

/// The shown pages among the first `n`, in order.
pub open spec fn shown_pages(metas: Seq<TabMeta>, groups: Seq<GroupStateView>, n: int) -> Seq<usize>
    decreases n,
{
    if n <= 0 {
        Seq::<usize>::empty()
    } else if page_shown(metas, groups, n - 1) {
        shown_pages(metas, groups, n - 1).push((n - 1) as usize)
    } else {
        shown_pages(metas, groups, n - 1)
    }
}

/// The pages that the tab bar shows, in order.
pub fn visible_pages(metas: &Vec<TabMeta>, groups: &Vec<GroupState>) -> (v: Vec<usize>)
    ensures
        v@ == shown_pages(metas@, group_states(groups@), metas@.len() as int),
{
    let mut v: Vec<usize> = Vec::new();
    let mut page: usize = 0;
    while page < metas.len()
        invariant
            page <= metas.len(),
            v@ == shown_pages(metas@, group_states(groups@), page as int),
        decreases metas.len() - page,
    {
        if should_show_page(metas, groups, page) {
            v.push(page);
        }
        page += 1;
    }
    v
}

/// The position of the first `page` in `pages`.
pub open spec fn page_position(pages: Seq<u32>, page: u32) -> Option<int>
    decreases pages.len(),
{
    if pages.len() == 0 {
        None
    } else if pages[0] == page {
        Some(0)
    } else {
        match page_position(pages.drop_first(), page) {
            Some(i) => Some(i + 1),
            None => None,
        }
    }
}

proof fn lemma_page_position(pages: Seq<u32>, page: u32)
    ensures
        match page_position(pages, page) {
            Some(i) => 0 <= i < pages.len() && pages[i] == page && forall|j: int| 0 <= j < i ==> #[trigger] pages[j] != page,
            None => forall|j: int| 0 <= j < pages.len() ==> #[trigger] pages[j] != page,
        },
    decreases pages.len(),
{
    if pages.len() > 0 && pages[0] != page {
        let t = pages.drop_first();
        lemma_page_position(t, page);
        match page_position(t, page) {
            Some(i) => {
                assert(pages[i + 1] == t[i]);
                assert forall|j: int| 0 <= j < i + 1 implies #[trigger] pages[j] != page by {
                    if j > 0 {
                        assert(pages[j] == t[j - 1]);
                    }
                }
            },
            None => {
                assert forall|j: int| 0 <= j < pages.len() implies #[trigger] pages[j] != page by {
                    if j > 0 {
                        assert(pages[j] == t[j - 1]);
                    }
                }
            },
        }
    }
}

/// The page `offset` places from `current` among `pages`, if `current` is
/// one of them and that place exists.
pub open spec fn page_at_offset(pages: Seq<u32>, current: u32, offset: int) -> Option<u32> {
    match page_position(pages, current) {
        Some(i) => if 0 <= i + offset < pages.len() {
            Some(pages[i + offset])
        } else {
            None
        },
        None => None,
    }
}

/// The position of `current` among `pages`.
fn position_of(pages: &[u32], current: u32) -> (r: Option<usize>)
    ensures
        match r {
            Some(i) => i < pages@.len() && page_position(pages@, current) == Some(i as int),
            None => page_position(pages@, current) is None,
        },
{
    let mut i: usize = 0;
    while i < pages.len()
        invariant
            i <= pages@.len(),
            forall|j: int| 0 <= j < i ==> pages@[j] != current,
        decreases pages@.len() - i,
    {
        if pages[i] == current {
            proof {
                lemma_page_position(pages@, current);
            }
            return Some(i);
        }
        i += 1;
    }
    proof {
        lemma_page_position(pages@, current);
    }
    None
}

/// The visible page `offset` places from the current one: none at either
/// end of the tab bar, or when the current page is not visible.
pub fn adjacent_page(visible: &[u32], current: u32, offset: isize) -> (r: Option<u32>)
    ensures
        r == page_at_offset(visible@, current, offset as int),
{
    match position_of(visible, current) {
        Some(i) => {
            let target: i128 = i as i128 + offset as i128;
            if target < 0 || target >= visible.len() as i128 {
                None
            } else {
                let t = target as usize;
                assert(t as int == i + offset);
                Some(visible[t])
            }
        },
        None => None,
    }
}

/// Where moving the current tab by `offset` places puts it: the position of
/// the visible page that far away, if there is one.
pub fn move_target(visible: &[u32], current: u32, offset: isize) -> (r: Option<u32>)
    ensures
        r == page_at_offset(visible@, current, offset as int),
{
    adjacent_page(visible, current, offset)
}

/// The page to switch to so that the current page is a shown one: none if
/// it already is, else the first shown page, if any.
pub open spec fn page_to_show(metas: Seq<TabMeta>, groups: Seq<GroupStateView>, current: Option<usize>) -> Option<usize> {
    let shown = shown_pages(metas, groups, metas.len() as int);
    if current matches Some(c) && c < metas.len() && page_shown(metas, groups, c as int) {
        None
    } else if shown.len() > 0 {
        Some(shown[0])
    } else {
        None
    }
}

/// The page to switch to when the current page is hidden (or there is no
/// current page): the first shown page.
pub fn ensure_current_page_visible(
    metas: &Vec<TabMeta>,
    groups: &Vec<GroupState>,
    current: Option<usize>,
) -> (r: Option<usize>)
    ensures
        r == page_to_show(metas@, group_states(groups@), current),
{
    if let Some(c) = current {
        if c < metas.len() && should_show_page(metas, groups, c) {
            return None;
        }
    }
    let visible = visible_pages(metas, groups);
    if visible.len() > 0 {
        Some(visible[0])
    } else {
        None
    }
}

/// The text of a group's badge: its name, with the number of its tabs when
/// it is collapsed, as in `Work (3)`.
pub open spec fn badge_text(name: Seq<char>, collapsed: bool, count: nat) -> Seq<char> {
    if collapsed {
        numbered_name(name, count)
    } else {
        name
    }
}

/// How a tab's label looks.
#[derive(Debug, Clone)]
pub struct TabLabel {
    /// A pinned tab shows its icon only.
    pub pinned: bool,
    /// The color of the line under the tab: its group's color.
    pub line_color: Option<String>,
    /// The group badge, shown on the first tab of a group.
    pub badge: Option<String>,
    /// The badge's color.
    pub badge_color: Option<String>,
}

/// The badge a page's label shows: on an unpinned page that is its group's
/// first, the group's badge text.
pub open spec fn badge_of(metas: Seq<TabMeta>, groups: Seq<GroupStateView>, page: int) -> Option<Seq<char>> {
    let m = metas[page];
    if m.pinned {
        None
    } else {
        match m.group {
            None => None,
            Some(g) => if first_group_page(metas, g@) == Some(page) {
                Some(badge_text(g@, group_is_collapsed(groups, g@), group_size(metas, g@)))
            } else {
                None
            },
        }
    }
}

/// The color of a page's group, among the group colors.
pub open spec fn line_color_of(metas: Seq<TabMeta>, groups: Seq<GroupStateView>, page: int) -> Option<Seq<char>> {
    match metas[page].group {
        Some(g) => normalized_color(group_color_of(groups, g@)),
        None => None,
    }
}

/// How the label of a page looks: pinned or not, the line in its group's
/// color, and on the first tab of a group the group's badge in that color.
pub fn tab_label(metas: &Vec<TabMeta>, groups: &Vec<GroupState>, page: usize) -> (l: TabLabel)
    requires
        page < metas@.len(),
    ensures
        l.pinned == metas@[page as int].pinned,
        opt_chars(l.line_color) == line_color_of(metas@, group_states(groups@), page as int),
        opt_chars(l.badge) == badge_of(metas@, group_states(groups@), page as int),
        l.badge is Some ==> opt_chars(l.badge_color) == line_color_of(metas@, group_states(groups@), page as int),
        l.badge is None ==> l.badge_color is None,
{
    let m = &metas[page];
    let line_color = match &m.group {
        Some(g) => match group_color(groups, g.as_str()) {
            Some(c) => normalize_group_color(Some(c.as_str())),
            None => normalize_group_color(None),
        },
        None => None,
    };
    if m.pinned {
        return TabLabel { pinned: true, line_color, badge: None, badge_color: None };
    }
    let g = match &m.group {
        Some(g) => g,
        None => {
            return TabLabel { pinned: false, line_color, badge: None, badge_color: None };
        },
    };
    let first = find_first_group_page(metas, g.as_str());
    if first != Some(page) {
        return TabLabel { pinned: false, line_color, badge: None, badge_color: None };
    }
    let name = chars_of(g.as_str());
    let text = if group_collapsed(groups, g.as_str()) {
        let count = group_tab_count(metas, g.as_str());
        string_of(
            &concat(
                &concat(&concat(&name, &chars_of(" (")), &decimal_u128(count as u128)),
                &chars_of(")"),
            ),
        )
    } else {
        string_of(&name)
    };
    let badge_color = copy_opt(&line_color);
    TabLabel { pinned: false, line_color, badge: Some(text), badge_color }
}

/// `x` held to the range of `i32`, as saturating arithmetic does.
pub open spec fn sat_i32(x: int) -> int {
    if x < i32::MIN {
        i32::MIN as int
    } else if x > i32::MAX {
        i32::MAX as int
    } else {
        x
    }
}

/// The width left for unpinned tabs: the tab bar's width less 28 for each
/// pinned tab, 24 at the end and the group badges' width, each step
/// saturating.
pub open spec fn width_for_regular_tabs(total: i32, pinned: i32, badges: i32) -> int {
    sat_i32(sat_i32(sat_i32(total - sat_i32(pinned * 28)) - 24) - badges)
}

/// The width of each unpinned tab, if there is room to lay them out: the
/// width left shared among them, held between 80 and 220.
pub open spec fn regular_width(total: i32, pinned: i32, regular: i32, badges: i32) -> Option<int> {
    if total <= 0 || regular <= 0 {
        None
    } else {
        let available = width_for_regular_tabs(total, pinned, badges);
        if available < 0 {
            Some(80)
        } else {
            let w = available / (regular as int);
            Some(
                if w < 80 {
                    80
                } else if w > 220 {
                    220
                } else {
                    w
                },
            )
        }
    }
}

fn sat_i32_exec(x: i64) -> (r: i32)
    ensures
        r as int == sat_i32(x as int),
{
    if x < i32::MIN as i64 {
        i32::MIN
    } else if x > i32::MAX as i64 {
        i32::MAX
    } else {
        x as i32
    }
}

/// The width of each unpinned tab for a tab bar `total_width` wide, with
/// `pinned_count` pinned and `regular_count` other tabs and group badges
/// `group_badge_width` wide in all.
pub fn regular_tab_width(total_width: i32, pinned_count: i32, regular_count: i32, group_badge_width: i32) -> (r: Option<i32>)
    ensures
        match r {
            Some(w) => regular_width(total_width, pinned_count, regular_count, group_badge_width) == Some(w as int),
            None => regular_width(total_width, pinned_count, regular_count, group_badge_width) is None,
        },
{
    if total_width <= 0 || regular_count <= 0 {
        return None;
    }
    let reserved = sat_i32_exec(pinned_count as i64 * 28);
    let a1 = sat_i32_exec(total_width as i64 - reserved as i64);
    let a2 = sat_i32_exec(a1 as i64 - 24);
    let available = sat_i32_exec(a2 as i64 - group_badge_width as i64);
    if available < 0 {
        return Some(80);
    }
    let w = available / regular_count;
    assert(w as int == available as int / regular_count as int);
    if w < 80 {
        Some(80)
    } else if w > 220 {
        Some(220)
    } else {
        Some(w)
    }
}

/// The groups after making sure that a group of the given name (trimmed)
/// exists: a new one is added, expanded, in the next default color; a blank
/// name changes nothing.
pub open spec fn with_group(gs: Seq<GroupStateView>, name: Seq<char>) -> Seq<GroupStateView> {
    match clean_name(name) {
        None => gs,
        Some(n) => if group_index(gs, n) is Some {
            gs
        } else {
            gs.push(GroupStateView { name: n, collapsed: false, color: group_colors()[(gs.len() % 9) as int] })
        },
    }
}

/// Creates the named group unless it exists.
pub fn ensure_group(groups: &mut Vec<GroupState>, name: &str)
    ensures
        group_states(final(groups)@) == with_group(group_states(old(groups)@), name@),
{
    let clean = match clean_group_name(Some(name)) {
        Some(n) => n,
        None => {
            return;
        },
    };
    if find_group_index(groups, clean.as_str()).is_some() {
        return;
    }
    let color = default_group_color(groups.len());
    let ghost before = group_states(groups@);
    groups.push(GroupState { name: clean, collapsed: false, color });
    assert(group_states(groups@) =~= before.push(groups@.last()@));
}

/// The color a group read from a snapshot gets: the snapshot's if it is a
/// group color, else the default color for its position.
pub open spec fn snapshot_color(color: Option<Seq<char>>, position: nat) -> Seq<char> {
    match normalized_color(color) {
        Some(c) => c,
        None => group_colors()[(position % 9) as int],
    }
}

/// The groups read from saved snapshots, in order: a blank name is skipped,
/// and so is a name that an earlier snapshot took.
pub open spec fn groups_from_snapshots(snaps: Seq<TabGroupSnapshot>) -> Seq<GroupStateView>
    decreases snaps.len(),
{
    if snaps.len() == 0 {
        Seq::<GroupStateView>::empty()
    } else {
        let prev = groups_from_snapshots(snaps.drop_last());
        let s = snaps.last();
        match clean_name(s.name@) {
            None => prev,
            Some(n) => if group_index(prev, n) is Some {
                prev
            } else {
                prev.push(
                    GroupStateView {
                        name: n,
                        collapsed: s.collapsed,
                        color: snapshot_color(opt_chars(s.color), prev.len()),
                    },
                )
            },
        }
    }
}

/// Replaces the groups with those of saved snapshots.
pub fn set_group_snapshots(groups: &mut Vec<GroupState>, snapshots: &[TabGroupSnapshot])
    ensures
        group_states(final(groups)@) == groups_from_snapshots(snapshots@),
{
    groups.clear();
    let mut i: usize = 0;
    assert(snapshots@.take(0) =~= Seq::<TabGroupSnapshot>::empty());
    assert(group_states(groups@) =~= Seq::<GroupStateView>::empty());
    while i < snapshots.len()
        invariant
            i <= snapshots@.len(),
            group_states(groups@) == groups_from_snapshots(snapshots@.take(i as int)),
        decreases snapshots@.len() - i,
    {
        assert(snapshots@.take(i + 1).drop_last() =~= snapshots@.take(i as int));
        assert(snapshots@.take(i + 1).last() == snapshots@[i as int]);
        let snap = &snapshots[i];
        if let Some(name) = clean_group_name(Some(snap.name.as_str())) {
            if find_group_index(groups, name.as_str()).is_none() {
                let color = match normalize_group_color(
                    match &snap.color {
                        Some(c) => Some(c.as_str()),
                        None => None,
                    },
                ) {
                    Some(c) => c,
                    None => default_group_color(groups.len()),
                };
                let ghost before = group_states(groups@);
                groups.push(GroupState { name, collapsed: snap.collapsed, color });
                assert(group_states(groups@) =~= before.push(groups@.last()@));
            }
        }
        i += 1;
    }
    assert(snapshots@.take(i as int) =~= snapshots@);
}

/// The groups after one imported group is merged in: a group of that name
/// takes its collapsed state and, if it names a group color, its color; a
/// new name is added at the end.
pub open spec fn merge_group(gs: Seq<GroupStateView>, s: GroupView) -> Seq<GroupStateView> {
    match group_index(gs, s.name) {
        Some(i) => gs.update(
            i,
            GroupStateView {
                name: gs[i].name,
                collapsed: s.collapsed,
                color: match normalized_color(s.color) {
                    Some(c) => c,
                    None => gs[i].color,
                },
            },
        ),
        None => gs.push(
            GroupStateView { name: s.name, collapsed: s.collapsed, color: snapshot_color(s.color, gs.len()) },
        ),
    }
}

/// The groups after imported groups are merged in, in order.
pub open spec fn merge_groups(gs: Seq<GroupStateView>, imported: Seq<GroupView>) -> Seq<GroupStateView>
    decreases imported.len(),
{
    if imported.len() == 0 {
        gs
    } else {
        merge_group(merge_groups(gs, imported.drop_last()), imported.last())
    }
}

/// Merges imported groups into the groups.
pub fn import_groups(groups: &mut Vec<GroupState>, imported: &[TabGroupSnapshot])
    ensures
        group_states(final(groups)@) == merge_groups(group_states(old(groups)@), group_views(imported@)),
{
    let ghost g0 = group_states(groups@);
    let mut i: usize = 0;
    assert(group_views(imported@.take(0)) =~= Seq::<GroupView>::empty());
    while i < imported.len()
        invariant
            i <= imported@.len(),
            group_states(groups@) == merge_groups(g0, group_views(imported@.take(i as int))),
        decreases imported@.len() - i,
    {
        assert(group_views(imported@.take(i + 1)).drop_last() =~= group_views(imported@.take(i as int)));
        assert(group_views(imported@.take(i + 1)).last() == imported@[i as int]@);
        let snap = &imported[i];
        let color = normalize_group_color(
            match &snap.color {
                Some(c) => Some(c.as_str()),
                None => None,
            },
        );
        let ghost before = group_states(groups@);
        match find_group_index(groups, snap.name.as_str()) {
            Some(k) => {
                let name = groups[k].name.clone();
                let old_color = groups[k].color.clone();
                let new_color = match color {
                    Some(c) => c,
                    None => old_color,
                };
                groups.set(k, GroupState { name, collapsed: snap.collapsed, color: new_color });
                assert(group_states(groups@) =~= before.update(k as int, groups@[k as int]@));
            },
            None => {
                let c = match color {
                    Some(c) => c,
                    None => default_group_color(groups.len()),
                };
                groups.push(GroupState { name: snap.name.clone(), collapsed: snap.collapsed, color: c });
                assert(group_states(groups@) =~= before.push(groups@.last()@));
            },
        }
        i += 1;
    }
    assert(imported@.take(i as int) =~= imported@);
}

/// Whether some tab belongs to the named group.
pub open spec fn group_in_use(metas: Seq<TabMeta>, name: Seq<char>) -> bool {
    exists|p: int| 0 <= p < metas.len() && in_group(#[trigger] metas[p], name)
}

/// The groups that some tab still belongs to, in order.
pub open spec fn groups_in_use(gs: Seq<GroupStateView>, metas: Seq<TabMeta>) -> Seq<GroupStateView>
    decreases gs.len(),
{
    if gs.len() == 0 {
        gs
    } else if group_in_use(metas, gs.last().name) {
        groups_in_use(gs.drop_last(), metas).push(gs.last())
    } else {
        groups_in_use(gs.drop_last(), metas)
    }
}

/// Drops the groups that no tab belongs to.
pub fn remove_empty_groups(groups: &mut Vec<GroupState>, metas: &Vec<TabMeta>)
    ensures
        group_states(final(groups)@) == groups_in_use(group_states(old(groups)@), metas@),
{
    let ghost g0 = group_states(groups@);
    let mut kept: Vec<GroupState> = Vec::new();
    let mut i: usize = 0;
    assert(g0.take(0) =~= Seq::<GroupStateView>::empty());
    while i < groups.len()
        invariant
            i <= groups@.len(),
            g0 == group_states(groups@),
            group_states(kept@) == groups_in_use(g0.take(i as int), metas@),
        decreases groups@.len() - i,
    {
        assert(g0.take(i + 1).drop_last() =~= g0.take(i as int));
        assert(g0.take(i + 1).last() == groups@[i as int]@);
        let used = find_first_group_page(metas, groups[i].name.as_str()).is_some();
        proof {
            let name = groups@[i as int].name@;
            lemma_first_index(metas@, |m: TabMeta| in_group(m, name));
            if let Some(p) = first_group_page(metas@, name) {
                assert(in_group(metas@[p], name));
            }
        }
        if used {
            let ghost before = group_states(kept@);
            let g = &groups[i];
            kept.push(GroupState { name: g.name.clone(), collapsed: g.collapsed, color: g.color.clone() });
            assert(group_states(kept@) =~= before.push(kept@.last()@));
        }
        i += 1;
    }
    assert(g0.take(i as int) =~= g0);
    *groups = kept;
}

/// The snapshots of the groups, each with its color.
pub fn group_snapshots(groups: &Vec<GroupState>) -> (r: Vec<TabGroupSnapshot>)
    ensures
        group_views(r@) == group_states(groups@).map_values(
            |g: GroupStateView| GroupView { name: g.name, collapsed: g.collapsed, color: Some(g.color) },
        ),
{
    let mut r: Vec<TabGroupSnapshot> = Vec::new();
    let mut i: usize = 0;
    while i < groups.len()
        invariant
            i <= groups@.len(),
            group_views(r@) == group_states(groups@.take(i as int)).map_values(
                |g: GroupStateView| GroupView { name: g.name, collapsed: g.collapsed, color: Some(g.color) },
            ),
        decreases groups@.len() - i,
    {
        let g = &groups[i];
        let ghost before = group_views(r@);
        r.push(TabGroupSnapshot { name: g.name.clone(), collapsed: g.collapsed, color: Some(g.color.clone()) });
        assert(group_views(r@) =~= before.push(r@.last()@));
        assert(group_states(groups@.take(i + 1)).map_values(
            |g: GroupStateView| GroupView { name: g.name, collapsed: g.collapsed, color: Some(g.color) },
        ) =~= group_states(groups@.take(i as int)).map_values(
            |g: GroupStateView| GroupView { name: g.name, collapsed: g.collapsed, color: Some(g.color) },
        ).push(r@.last()@));
        i += 1;
    }
    assert(groups@.take(i as int) =~= groups@);
    r
}

/// The groups with the named one collapsed or expanded, if it exists.
pub open spec fn with_collapsed(gs: Seq<GroupStateView>, name: Seq<char>, collapsed: bool) -> Seq<GroupStateView> {
    match group_index(gs, name) {
        Some(i) => gs.update(i, GroupStateView { name: gs[i].name, collapsed, color: gs[i].color }),
        None => gs,
    }
}

/// Collapses or expands the named group; false if there is no such group.
pub fn set_collapsed(groups: &mut Vec<GroupState>, name: &str, collapsed: bool) -> (found: bool)
    ensures
        found == group_index(group_states(old(groups)@), name@) is Some,
        group_states(final(groups)@) == with_collapsed(group_states(old(groups)@), name@, collapsed),
{
    match find_group_index(groups, name) {
        Some(k) => {
            let ghost before = group_states(groups@);
            let g = GroupState { name: groups[k].name.clone(), collapsed, color: groups[k].color.clone() };
            groups.set(k, g);
            assert(group_states(groups@) =~= before.update(k as int, groups@[k as int]@));
            true
        },
        None => false,
    }
}

/// Collapses or expands every group.
pub fn set_all_collapsed(groups: &mut Vec<GroupState>, collapsed: bool)
    ensures
        group_states(final(groups)@) == group_states(old(groups)@).map_values(
            |g: GroupStateView| GroupStateView { name: g.name, collapsed, color: g.color },
        ),
{
    let ghost g0 = group_states(groups@);
    let mut i: usize = 0;
    while i < groups.len()
        invariant
            i <= groups@.len() == g0.len(),
            forall|k: int| 0 <= k < i ==> #[trigger] group_states(groups@)[k] == (GroupStateView {
                name: g0[k].name,
                collapsed,
                color: g0[k].color,
            }),
            forall|k: int| i <= k < g0.len() ==> #[trigger] group_states(groups@)[k] == g0[k],
        decreases groups@.len() - i,
    {
        let ghost before = group_states(groups@);
        let g = GroupState { name: groups[i].name.clone(), collapsed, color: groups[i].color.clone() };
        assert(before[i as int] == g0[i as int]);
        assert(g@ == (GroupStateView { name: g0[i as int].name, collapsed, color: g0[i as int].color }));
        groups.set(i, g);
        assert(group_states(groups@) =~= before.update(i as int, g@));
        i += 1;
    }
    assert(group_states(groups@) =~= g0.map_values(
        |g: GroupStateView| GroupStateView { name: g.name, collapsed, color: g.color },
    ));
}

/// No two groups share a name, and every group has one of the group colors.
pub open spec fn groups_well_formed(gs: Seq<GroupStateView>) -> bool {
    &&& forall|i: int, j: int| 0 <= i < j < gs.len() ==> (#[trigger] gs[i]).name != (#[trigger] gs[j]).name
    &&& forall|i: int| 0 <= i < gs.len() ==> group_colors().contains(#[trigger] gs[i].color)
}

proof fn lemma_normalized_is_group_color(color: Option<Seq<char>>)
    ensures
        normalized_color(color) matches Some(c) ==> group_colors().contains(c),
{
}

proof fn lemma_default_color_is_group_color(k: nat)
    ensures
        group_colors().contains(group_colors()[(k % 9) as int]),
{
    assert(0 <= (k % 9) < group_colors().len());
}

/// Making sure a group exists keeps the groups well formed.
pub proof fn lemma_with_group_well_formed(gs: Seq<GroupStateView>, name: Seq<char>)
    requires
        groups_well_formed(gs),
    ensures
        groups_well_formed(with_group(gs, name)),
{
    lemma_default_color_is_group_color(gs.len());
    if let Some(n) = clean_name(name) {
        lemma_group_index(gs, n);
        let r = with_group(gs, name);
        if group_index(gs, n) is None {
            assert forall|i: int, j: int| 0 <= i < j < r.len() implies (#[trigger] r[i]).name != (#[trigger] r[j]).name by {
                if j == gs.len() {
                    assert(gs[i].name != n);
                }
            }
        }
    }
}

/// Groups read from snapshots are well formed, and each name is a trimmed,
/// non-blank one.
pub proof fn lemma_snapshot_groups_well_formed(snaps: Seq<TabGroupSnapshot>)
    ensures
        groups_well_formed(groups_from_snapshots(snaps)),
        forall|i: int| 0 <= i < groups_from_snapshots(snaps).len() ==> clean_name(
            #[trigger] groups_from_snapshots(snaps)[i].name,
        ) is Some,
    decreases snaps.len(),
{
    if snaps.len() > 0 {
        let prev = groups_from_snapshots(snaps.drop_last());
        lemma_snapshot_groups_well_formed(snaps.drop_last());
        let s = snaps.last();
        lemma_default_color_is_group_color(prev.len());
        lemma_normalized_is_group_color(opt_chars(s.color));
        if let Some(n) = clean_name(s.name@) {
            lemma_group_index(prev, n);
            let r = groups_from_snapshots(snaps);
            if group_index(prev, n) is None {
                assert forall|i: int, j: int| 0 <= i < j < r.len() implies (#[trigger] r[i]).name != (#[trigger] r[j]).name by {
                    if j == prev.len() {
                        assert(prev[i].name != n);
                    }
                }
                assert(trim(trim(s.name@)) == trim(s.name@)) by {
                    crate::text::lemma_trim_idempotent(s.name@);
                }
                assert forall|i: int| 0 <= i < r.len() implies clean_name(#[trigger] r[i].name) is Some by {
                    if i < prev.len() {
                        assert(r[i] == prev[i]);
                    }
                }
            }
        }
    }
}

/// Merging imported groups keeps the groups well formed.
pub proof fn lemma_merge_groups_well_formed(gs: Seq<GroupStateView>, imported: Seq<GroupView>)
    requires
        groups_well_formed(gs),
    ensures
        groups_well_formed(merge_groups(gs, imported)),
    decreases imported.len(),
{
    if imported.len() > 0 {
        let prev = merge_groups(gs, imported.drop_last());
        lemma_merge_groups_well_formed(gs, imported.drop_last());
        let s = imported.last();
        lemma_group_index(prev, s.name);
        lemma_default_color_is_group_color(prev.len());
        lemma_normalized_is_group_color(s.color);
        let r = merge_group(prev, s);
        match group_index(prev, s.name) {
            Some(k) => {
                assert forall|i: int, j: int| 0 <= i < j < r.len() implies (#[trigger] r[i]).name != (#[trigger] r[j]).name by {
                    assert(r[i].name == prev[i].name && r[j].name == prev[j].name);
                }
                assert forall|i: int| 0 <= i < r.len() implies group_colors().contains(#[trigger] r[i].color) by {
                    if i != k {
                        assert(r[i] == prev[i]);
                    }
                }
            },
            None => {
                assert forall|i: int, j: int| 0 <= i < j < r.len() implies (#[trigger] r[i]).name != (#[trigger] r[j]).name by {
                    if j == prev.len() {
                        assert(prev[i].name != s.name);
                    }
                }
            },
        }
    }
}

/// Whether no two groups share a name.
pub open spec fn distinct_names(gs: Seq<GroupStateView>) -> bool {
    forall|i: int, j: int| 0 <= i < j < gs.len() ==> (#[trigger] gs[i]).name != (#[trigger] gs[j]).name
}

/// Whether some imported group has the name.
pub open spec fn names_group(imported: Seq<GroupView>, name: Seq<char>) -> bool {
    exists|j: int| 0 <= j < imported.len() && (#[trigger] imported[j]).name == name
}

/// The collapsed state of the last imported group with the name.
pub open spec fn last_collapsed(imported: Seq<GroupView>, name: Seq<char>) -> bool
    decreases imported.len(),
{
    if imported.len() == 0 {
        false
    } else if imported.last().name == name {
        imported.last().collapsed
    } else {
        last_collapsed(imported.drop_last(), name)
    }
}

/// The known color of the last imported group with the name whose color is
/// a known one, if there is such a group.
pub open spec fn last_known_color(imported: Seq<GroupView>, name: Seq<char>) -> Option<Seq<char>>
    decreases imported.len(),
{
    if imported.len() == 0 {
        None
    } else if imported.last().name == name && normalized_color(imported.last().color) is Some {
        normalized_color(imported.last().color)
    } else {
        last_known_color(imported.drop_last(), name)
    }
}

/// The color the named group has after the import, at position `i`: the
/// last known color imported for it; else the color it had; else, for a new
/// group, the default color of its position.
pub open spec fn imported_color(
    gs: Seq<GroupStateView>,
    imported: Seq<GroupView>,
    name: Seq<char>,
    i: int,
) -> Seq<char> {
    match last_known_color(imported, name) {
        Some(c) => c,
        None => match group_index(gs, name) {
            Some(k) => gs[k].color,
            None => group_colors()[i % 9],
        },
    }
}

/// Whether the groups hold the imported name at a position with the state
/// that the import gives it.
pub open spec fn merged_as(
    r: Seq<GroupStateView>,
    gs: Seq<GroupStateView>,
    imported: Seq<GroupView>,
    name: Seq<char>,
) -> bool {
    exists|i: int|
        0 <= i < r.len() && (#[trigger] r[i]).name == name && r[i].collapsed == last_collapsed(
            imported,
            name,
        ) && r[i].color == imported_color(gs, imported, name, i)
}

proof fn lemma_last_known_color_named(imported: Seq<GroupView>, name: Seq<char>)
    ensures
        last_known_color(imported, name) is Some ==> names_group(imported, name),
    decreases imported.len(),
{
    if imported.len() > 0 {
        let rest = imported.drop_last();
        lemma_last_known_color_named(rest, name);
        if imported.last().name == name {
            assert(imported[imported.len() - 1].name == name);
        } else if last_known_color(rest, name) is Some {
            let j = choose|j: int| 0 <= j < rest.len() && (#[trigger] rest[j]).name == name;
            assert(imported[j] == rest[j]);
        }
    }
}

proof fn lemma_group_index_distinct(gs: Seq<GroupStateView>, k: int)
    requires
        distinct_names(gs),
        0 <= k < gs.len(),
    ensures
        group_index(gs, gs[k].name) == Some(k),
{
    lemma_group_index(gs, gs[k].name);
}

/// Merging imported groups into groups with distinct names: the names stay
/// distinct; the groups already there keep their place and name, and those
/// that no imported group names are unchanged; every added group carries an
/// imported name; and each imported name ends with a group whose collapsed
/// state is that of the last imported group of that name, and whose color is
/// the known color of the last such group that has one, else the color it
/// had, else the default color of its position. Groups that start well
/// formed, with known colors too, stay so.
pub proof fn lemma_merge_groups_effect(gs: Seq<GroupStateView>, imported: Seq<GroupView>)
    requires
        distinct_names(gs),
    ensures
        distinct_names(merge_groups(gs, imported)),
        groups_well_formed(gs) ==> groups_well_formed(merge_groups(gs, imported)),
        gs.len() <= merge_groups(gs, imported).len(),
        forall|k: int| 0 <= k < gs.len() ==> (#[trigger] merge_groups(gs, imported)[k]).name == gs[k].name,
        forall|k: int|
            0 <= k < gs.len() && !names_group(imported, gs[k].name) ==> (#[trigger] merge_groups(
                gs,
                imported,
            )[k]) == gs[k],
        forall|i: int|
            gs.len() <= i < merge_groups(gs, imported).len() ==> names_group(
                imported,
                (#[trigger] merge_groups(gs, imported)[i]).name,
            ),
        forall|name: Seq<char>|
            #[trigger] names_group(imported, name) ==> merged_as(
                merge_groups(gs, imported),
                gs,
                imported,
                name,
            ),
    decreases imported.len(),
{
    if groups_well_formed(gs) {
        lemma_merge_groups_well_formed(gs, imported);
    }
    if imported.len() > 0 {
        let rest = imported.drop_last();
        let prev = merge_groups(gs, rest);
        lemma_merge_groups_effect(gs, rest);
        let s = imported.last();
        let n = imported.len() - 1;
        assert(imported[n] == s);
        let r = merge_group(prev, s);
        assert(r == merge_groups(gs, imported));
        lemma_group_index(prev, s.name);
        lemma_group_index(gs, s.name);
        assert(distinct_names(r)) by {
            assert forall|i: int, j: int| 0 <= i < j < r.len() implies (#[trigger] r[i]).name != (#[trigger] r[j]).name by {
                if j < prev.len() {
                    assert(r[i].name == prev[i].name && r[j].name == prev[j].name);
                } else {
                    assert(prev[i].name != s.name);
                }
            }
        }
        assert forall|k: int|
            0 <= k < gs.len() && !names_group(imported, gs[k].name) implies (#[trigger] r[k]) == gs[k] by {
            if names_group(rest, gs[k].name) {
                let j = choose|j: int| 0 <= j < rest.len() && (#[trigger] rest[j]).name == gs[k].name;
                assert(imported[j] == rest[j]);
            }
            assert(prev[k] == gs[k]);
        }
        assert forall|i: int| gs.len() <= i < r.len() implies names_group(imported, (#[trigger] r[i]).name) by {
            if i < prev.len() {
                assert(names_group(rest, prev[i].name));
                let j = choose|j: int| 0 <= j < rest.len() && (#[trigger] rest[j]).name == prev[i].name;
                assert(imported[j] == rest[j]);
            }
        }
        assert forall|name: Seq<char>| #[trigger] names_group(imported, name) implies merged_as(
            r,
            gs,
            imported,
            name,
        ) by {
            if name == s.name {
                assert(last_collapsed(imported, name) == s.collapsed);
                lemma_last_known_color_named(rest, name);
                match group_index(prev, name) {
                    Some(k) => {
                        assert(r[k].name == name);
                        if normalized_color(s.color) is None {
                            assert(last_known_color(imported, name) == last_known_color(rest, name));
                            if names_group(rest, name) {
                                assert(merged_as(prev, gs, rest, name));
                                let i = choose|i: int|
                                    0 <= i < prev.len() && (#[trigger] prev[i]).name == name
                                        && prev[i].collapsed == last_collapsed(rest, name)
                                        && prev[i].color == imported_color(gs, rest, name, i);
                                assert(i == k);
                            } else {
                                assert(k < gs.len());
                                assert(prev[k] == gs[k]);
                                lemma_group_index_distinct(gs, k);
                            }
                        }
                    },
                    None => {
                        let p = prev.len() as int;
                        assert(r[p].name == name);
                        if normalized_color(s.color) is None {
                            if names_group(rest, name) {
                                assert(merged_as(prev, gs, rest, name));
                            }
                            assert(!names_group(rest, name));
                            assert forall|k: int| 0 <= k < gs.len() implies (#[trigger] gs[k]).name != name by {
                                assert(prev[k].name == gs[k].name);
                            }
                            lemma_group_index(gs, name);
                            assert(imported_color(gs, imported, name, p) == group_colors()[p % 9]);
                        }
                    },
                }
            } else {
                let j = choose|j: int| 0 <= j < imported.len() && (#[trigger] imported[j]).name == name;
                assert(j != n);
                assert(rest[j] == imported[j]);
                assert(names_group(rest, name));
                assert(merged_as(prev, gs, rest, name));
                let i = choose|i: int|
                    0 <= i < prev.len() && (#[trigger] prev[i]).name == name && prev[i].collapsed
                        == last_collapsed(rest, name) && prev[i].color == imported_color(gs, rest, name, i);
                assert(r[i] == prev[i]);
                assert(last_collapsed(imported, name) == last_collapsed(rest, name));
                assert(last_known_color(imported, name) == last_known_color(rest, name));
                assert(imported_color(gs, imported, name, i) == imported_color(gs, rest, name, i));
            }
        }
    }
}

proof fn lemma_groups_in_use_from(gs: Seq<GroupStateView>, metas: Seq<TabMeta>)
    ensures
        forall|i: int| 0 <= i < groups_in_use(gs, metas).len() ==> gs.contains(
            #[trigger] groups_in_use(gs, metas)[i],
        ),
        groups_in_use(gs, metas).len() <= gs.len(),
    decreases gs.len(),
{
    if gs.len() > 0 {
        lemma_groups_in_use_from(gs.drop_last(), metas);
        let prev = groups_in_use(gs.drop_last(), metas);
        let r = groups_in_use(gs, metas);
        assert forall|i: int| 0 <= i < r.len() implies gs.contains(#[trigger] r[i]) by {
            if i < prev.len() {
                assert(r[i] == prev[i]);
                assert(gs.drop_last().contains(prev[i]));
                let k = choose|k: int| 0 <= k < gs.drop_last().len() && gs.drop_last()[k] == prev[i];
                assert(gs[k] == prev[i]);
            } else {
                assert(gs[gs.len() - 1] == r[i]);
            }
        }
    }
}

/// Dropping unused groups keeps the groups well formed.
pub proof fn lemma_groups_in_use_well_formed(gs: Seq<GroupStateView>, metas: Seq<TabMeta>)
    requires
        groups_well_formed(gs),
    ensures
        groups_well_formed(groups_in_use(gs, metas)),
    decreases gs.len(),
{
    if gs.len() > 0 {
        let d = gs.drop_last();
        assert(groups_well_formed(d)) by {
            assert forall|i: int, j: int| 0 <= i < j < d.len() implies (#[trigger] d[i]).name != (#[trigger] d[j]).name by {
                assert(d[i] == gs[i] && d[j] == gs[j]);
            }
            assert forall|i: int| 0 <= i < d.len() implies group_colors().contains(#[trigger] d[i].color) by {
                assert(d[i] == gs[i]);
            }
        }
        lemma_groups_in_use_well_formed(d, metas);
        lemma_groups_in_use_from(d, metas);
        let prev = groups_in_use(d, metas);
        let r = groups_in_use(gs, metas);
        if group_in_use(metas, gs.last().name) {
            assert forall|i: int, j: int| 0 <= i < j < r.len() implies (#[trigger] r[i]).name != (#[trigger] r[j]).name by {
                if j == prev.len() {
                    assert(d.contains(prev[i]));
                    let k = choose|k: int| 0 <= k < d.len() && d[k] == prev[i];
                    assert(gs[k] == prev[i]);
                    assert(gs[k].name != gs[gs.len() - 1].name);
                } else {
                    assert(r[i] == prev[i] && r[j] == prev[j]);
                }
            }
            assert forall|i: int| 0 <= i < r.len() implies group_colors().contains(#[trigger] r[i].color) by {
                if i < prev.len() {
                    assert(r[i] == prev[i]);
                } else {
                    assert(r[i] == gs[gs.len() - 1]);
                }
            }
        }
    }
}

/// Collapsing or expanding a group keeps the groups well formed.
pub proof fn lemma_with_collapsed_well_formed(gs: Seq<GroupStateView>, name: Seq<char>, collapsed: bool)
    requires
        groups_well_formed(gs),
    ensures
        groups_well_formed(with_collapsed(gs, name, collapsed)),
        with_collapsed(gs, name, collapsed).len() == gs.len(),
{
    lemma_group_index(gs, name);
    let r = with_collapsed(gs, name, collapsed);
    assert forall|i: int, j: int| 0 <= i < j < r.len() implies (#[trigger] r[i]).name != (#[trigger] r[j]).name by {
        assert(r[i].name == gs[i].name && r[j].name == gs[j].name);
    }
    assert forall|i: int| 0 <= i < r.len() implies group_colors().contains(#[trigger] r[i].color) by {
        assert(r[i].color == gs[i].color);
    }
}

/// The group of the current page, if there is a current page in a group.
pub open spec fn current_group(metas: Seq<TabMeta>, current: Option<usize>) -> Option<Seq<char>> {
    match current {
        Some(c) => if c < metas.len() {
            opt_chars(metas[c as int].group)
        } else {
            None
        },
        None => None,
    }
}

fn current_group_name(metas: &Vec<TabMeta>, current: Option<usize>) -> (r: Option<String>)
    ensures
        opt_chars(r) == current_group(metas@, current),
{
    match current {
        Some(c) => if c < metas.len() {
            copy_opt(&metas[c].group)
        } else {
            None
        },
        None => None,
    }
}

/// The group a command acts on: the named one (trimmed), or the current
/// page's group when no name (or a blank one) is given.
pub open spec fn resolved_group(name: Option<Seq<char>>, current: Option<Seq<char>>) -> Option<Seq<char>> {
    match name {
        Some(n) => match clean_name(n) {
            Some(c) => Some(c),
            None => current,
        },
        None => current,
    }
}

/// Resolves the group a command acts on.
pub fn resolve_group_name(metas: &Vec<TabMeta>, current: Option<usize>, name: Option<&str>) -> (r: Option<String>)
    ensures
        opt_chars(r) == resolved_group(
            match name {
                Some(n) => Some(n@),
                None => None,
            },
            current_group(metas@, current),
        ),
{
    match clean_group_name(name) {
        Some(n) => Some(n),
        None => current_group_name(metas, current),
    }
}

/// What collapsing or expanding a group came to.
#[derive(Debug, Clone)]
pub enum CollapseOutcome {
    /// No name was given and the current page is in no group.
    NoGroup,
    /// No group has the name.
    UnknownGroup(String),
    /// The group was changed; on collapsing the current page's own group,
    /// the page to switch to is its first page.
    Changed { switch_to: Option<usize> },
}

/// The page to switch to when the group `target` is collapsed: its first
/// page, if it is the current page's group.
pub open spec fn collapse_target(metas: Seq<TabMeta>, current: Option<usize>, target: Seq<char>) -> Option<usize> {
    if current_group(metas, current) == Some(target) {
        match first_group_page(metas, target) {
            Some(p) => Some(p as usize),
            None => None,
        }
    } else {
        None
    }
}

/// Collapses or expands the named group (or the current page's group).
pub fn set_group_collapsed(
    groups: &mut Vec<GroupState>,
    metas: &Vec<TabMeta>,
    current: Option<usize>,
    name: Option<&str>,
    collapsed: bool,
) -> (r: CollapseOutcome)
    ensures
        ({
            let target = resolved_group(
                match name {
                    Some(n) => Some(n@),
                    None => None,
                },
                current_group(metas@, current),
            );
            match target {
                None => r is NoGroup && final(groups)@ == old(groups)@,
                Some(t) => {
                    &&& group_states(final(groups)@) == with_collapsed(group_states(old(groups)@), t, collapsed)
                    &&& (group_index(group_states(old(groups)@), t) is None <==> r is UnknownGroup)
                    &&& (r matches CollapseOutcome::UnknownGroup(u) ==> u@ == t)
                    &&& (r matches CollapseOutcome::Changed { switch_to } ==> switch_to == if collapsed {
                        collapse_target(metas@, current, t)
                    } else {
                        None
                    })
                },
            }
        }),
{
    let target = match resolve_group_name(metas, current, name) {
        Some(t) => t,
        None => {
            return CollapseOutcome::NoGroup;
        },
    };
    let current_target = match current_group_name(metas, current) {
        Some(g) => {
            if seq_eq(&chars_of(g.as_str()), &chars_of(target.as_str())) {
                match find_first_group_page(metas, target.as_str()) {
                    Some(p) => Some(p),
                    None => None,
                }
            } else {
                None
            }
        },
        None => None,
    };
    if !set_collapsed(groups, target.as_str(), collapsed) {
        return CollapseOutcome::UnknownGroup(target);
    }
    CollapseOutcome::Changed {
        switch_to: if collapsed {
            current_target
        } else {
            None
        },
    }
}

/// Flips the current page's group between collapsed and expanded.
pub fn toggle_group(groups: &mut Vec<GroupState>, metas: &Vec<TabMeta>, current: Option<usize>) -> (r: CollapseOutcome)
    ensures
        match current_group(metas@, current) {
            None => r is NoGroup && final(groups)@ == old(groups)@,
            Some(g) => match resolved_group(Some(g), current_group(metas@, current)) {
                None => r is NoGroup && final(groups)@ == old(groups)@,
                Some(t) => group_states(final(groups)@) == with_collapsed(
                    group_states(old(groups)@),
                    t,
                    !group_is_collapsed(group_states(old(groups)@), g),
                ),
            },
        },
{
    let name = match current_group_name(metas, current) {
        Some(n) => n,
        None => {
            return CollapseOutcome::NoGroup;
        },
    };
    let collapsed = group_collapsed(groups, name.as_str());
    set_group_collapsed(groups, metas, current, Some(name.as_str()), !collapsed)
}

/// Collapses or expands every group; on collapsing, the page to switch to
/// is the first page of the current page's group.
pub fn set_all_groups_collapsed(
    groups: &mut Vec<GroupState>,
    metas: &Vec<TabMeta>,
    current: Option<usize>,
    collapsed: bool,
) -> (switch_to: Option<usize>)
    ensures
        group_states(final(groups)@) == group_states(old(groups)@).map_values(
            |g: GroupStateView| GroupStateView { name: g.name, collapsed, color: g.color },
        ),
        switch_to == if collapsed {
            match current_group(metas@, current) {
                Some(g) => collapse_target(metas@, current, g),
                None => None,
            }
        } else {
            None
        },
{
    let target = match current_group_name(metas, current) {
        Some(g) => match find_first_group_page(metas, g.as_str()) {
            Some(p) => Some(p),
            None => None,
        },
        None => None,
    };
    set_all_collapsed(groups, collapsed);
    if collapsed {
        target
    } else {
        None
    }
}

/// A tab pinned or unpinned: pinning takes it out of its group.
pub open spec fn pinned_meta(m: TabMeta, pinned: bool) -> (bool, Option<Seq<char>>) {
    (pinned, if pinned {
        None
    } else {
        opt_chars(m.group)
    })
}

/// The tab with its pin set; a pinned tab leaves its group.
pub fn set_pin(meta: &TabMeta, pinned: bool) -> (r: TabMeta)
    ensures
        (r.pinned, opt_chars(r.group)) == pinned_meta(*meta, pinned),
{
    TabMeta {
        pinned,
        group: if pinned {
            None
        } else {
            copy_opt(&meta.group)
        },
    }
}

/// The tab with its pin flipped.
pub fn toggle_pin(meta: &TabMeta) -> (r: TabMeta)
    ensures
        (r.pinned, opt_chars(r.group)) == pinned_meta(*meta, !meta.pinned),
{
    set_pin(meta, !meta.pinned)
}

/// Puts a tab in the named group (trimmed), creating the group if needed; a
/// tab in a group is not pinned. A blank name changes nothing.
pub fn add_to_group(groups: &mut Vec<GroupState>, meta: &TabMeta, name: &str) -> (r: Option<TabMeta>)
    ensures
        group_states(final(groups)@) == with_group(group_states(old(groups)@), name@),
        match clean_name(name@) {
            None => r is None,
            Some(n) => r matches Some(m) && !m.pinned && opt_chars(m.group) == Some(n),
        },
{
    ensure_group(groups, name);
    match clean_group_name(Some(name)) {
        Some(n) => Some(TabMeta { pinned: false, group: Some(n) }),
        None => None,
    }
}

/// The first existing tab, from position `k` on, showing `url` and not
/// taken yet.
pub open spec fn free_match_from(existing: Seq<Seq<char>>, url: Seq<char>, taken: Seq<Option<int>>, k: int) -> Option<int>
    decreases existing.len() - k,
{
    if k < 0 || k >= existing.len() {
        None
    } else if existing[k] == url && !taken.contains(Some(k)) {
        Some(k)
    } else {
        free_match_from(existing, url, taken, k + 1)
    }
}

/// For each imported tab in turn, the existing tab it updates: the first
/// one with the same URL that no earlier imported tab took; none means the
/// tab is added.
pub open spec fn import_matches(existing: Seq<Seq<char>>, urls: Seq<Seq<char>>) -> Seq<Option<int>>
    decreases urls.len(),
{
    if urls.len() == 0 {
        Seq::<Option<int>>::empty()
    } else {
        let prev = import_matches(existing, urls.drop_last());
        prev.push(free_match_from(existing, urls.last(), prev, 0))
    }
}

/// The URLs of tab snapshots.
pub open spec fn snapshot_urls(tabs: Seq<TabSnapshot>) -> Seq<Seq<char>> {
    tabs.map_values(|t: TabSnapshot| t.url@)
}

/// The positions, in a list of matches, as integers.
pub open spec fn match_ints(m: Seq<Option<usize>>) -> Seq<Option<int>> {
    m.map_values(|o: Option<usize>| match o {
        Some(k) => Some(k as int),
        None => None,
    })
}

/// Pairs imported tabs with the open tabs (by URL) they update.
pub fn match_imported_tabs(existing: &Vec<String>, tabs: &[TabSnapshot]) -> (r: Vec<Option<usize>>)
    ensures
        match_ints(r@) == import_matches(names_of_strings(existing@), snapshot_urls(tabs@)),
{
    let ghost ex = names_of_strings(existing@);
    let mut used: Vec<bool> = Vec::new();
    let mut j: usize = 0;
    while j < existing.len()
        invariant
            j <= existing@.len(),
            used@.len() == j,
            forall|k: int| 0 <= k < j ==> !used@[k],
        decreases existing@.len() - j,
    {
        used.push(false);
        j += 1;
    }
    let mut r: Vec<Option<usize>> = Vec::new();
    let mut i: usize = 0;
    assert(snapshot_urls(tabs@).take(0) =~= Seq::<Seq<char>>::empty());
    assert(match_ints(r@) =~= Seq::<Option<int>>::empty());
    while i < tabs.len()
        invariant
            i <= tabs@.len(),
            ex == names_of_strings(existing@),
            used@.len() == existing@.len(),
            match_ints(r@) == import_matches(ex, snapshot_urls(tabs@).take(i as int)),
            forall|k: int| 0 <= k < used@.len() ==> used@[k] == match_ints(r@).contains(Some(k)),
        decreases tabs@.len() - i,
    {
        let ghost prev = match_ints(r@);
        assert(snapshot_urls(tabs@).take(i + 1).drop_last() =~= snapshot_urls(tabs@).take(i as int));
        assert(snapshot_urls(tabs@).take(i + 1).last() == tabs@[i as int].url@);
        let url = chars_of(tabs[i].url.as_str());
        let mut k: usize = 0;
        let mut found: Option<usize> = None;
        while k < existing.len()
            invariant_except_break
                found is None,
                free_match_from(ex, url@, prev, 0) == free_match_from(ex, url@, prev, k as int),
            invariant
                k <= existing@.len() == used@.len() == ex.len(),
                ex == names_of_strings(existing@),
                url@ == tabs@[i as int].url@,
                prev == match_ints(r@),
                forall|q: int| 0 <= q < used@.len() ==> used@[q] == prev.contains(Some(q)),
            ensures
                match found {
                    Some(q) => q < used@.len() && free_match_from(ex, url@, prev, 0) == Some(q as int),
                    None => free_match_from(ex, url@, prev, 0) is None,
                },
            decreases existing@.len() - k,
        {
            if !used[k] && seq_eq(&chars_of(existing[k].as_str()), &url) {
                assert(ex[k as int] == existing@[k as int]@);
                found = Some(k);
                break;
            }
            k += 1;
        }
        let ghost m = free_match_from(ex, url@, prev, 0);
        r.push(found);
        proof {
            assert(match_ints(r@) =~= prev.push(m));
        }
        if let Some(q) = found {
            used.set(q, true);
        }
        proof {
            assert forall|q: int| 0 <= q < used@.len() implies used@[q] == match_ints(r@).contains(Some(q)) by {
                let mr = match_ints(r@);
                if prev.contains(Some(q)) {
                    let w = choose|w: int| 0 <= w < prev.len() && prev[w] == Some(q);
                    assert(mr[w] == Some(q));
                }
                if mr.contains(Some(q)) {
                    let w = choose|w: int| 0 <= w < mr.len() && mr[w] == Some(q);
                    if w < prev.len() {
                        assert(prev[w] == Some(q));
                    }
                }
                assert(mr[prev.len() as int] == m);
                if let Some(fq) = found {
                    if fq as int == q {
                        assert(m == Some(q));
                    }
                }
                if mr[prev.len() as int] == Some(q) {
                    assert(found is Some);
                }
            }
        }
        i += 1;
    }
    assert(snapshot_urls(tabs@).take(i as int) =~= snapshot_urls(tabs@));
    r
}

/// The characters of each string.
pub open spec fn names_of_strings(v: Seq<String>) -> Seq<Seq<char>> {
    v.map_values(|s: String| s@)
}

proof fn lemma_free_match(existing: Seq<Seq<char>>, url: Seq<char>, taken: Seq<Option<int>>, k: int)
    requires
        0 <= k,
    ensures
        free_match_from(existing, url, taken, k) matches Some(q) ==> k <= q < existing.len()
            && existing[q] == url && !taken.contains(Some(q)),
    decreases existing.len() - k,
{
    if k < existing.len() && !(existing[k] == url && !taken.contains(Some(k))) {
        lemma_free_match(existing, url, taken, k + 1);
    }
}

/// An import updates an open tab only with a tab of the same URL, and each
/// open tab at most once.
pub proof fn lemma_import_matches_sound(existing: Seq<Seq<char>>, urls: Seq<Seq<char>>)
    ensures
        import_matches(existing, urls).len() == urls.len(),
        forall|i: int| 0 <= i < urls.len() ==> (#[trigger] import_matches(existing, urls)[i] matches Some(k)
            ==> 0 <= k < existing.len() && existing[k] == urls[i]),
        forall|i: int, j: int| 0 <= i < j < urls.len() ==> (#[trigger] import_matches(existing, urls)[i] matches Some(k)
            ==> #[trigger] import_matches(existing, urls)[j] != Some(k)),
    decreases urls.len(),
{
    if urls.len() > 0 {
        let d = urls.drop_last();
        lemma_import_matches_sound(existing, d);
        let prev = import_matches(existing, d);
        let m = import_matches(existing, urls);
        lemma_free_match(existing, urls.last(), prev, 0);
        assert forall|i: int| 0 <= i < urls.len() implies (#[trigger] m[i] matches Some(k) ==> 0 <= k
            < existing.len() && existing[k] == urls[i]) by {
            if i < d.len() {
                assert(m[i] == prev[i]);
                assert(urls[i] == d[i]);
            }
        }
        assert forall|i: int, j: int| 0 <= i < j < urls.len() implies (#[trigger] m[i] matches Some(k)
            ==> #[trigger] m[j] != Some(k)) by {
            assert(m[i] == prev[i]);
            if j < d.len() {
                assert(m[j] == prev[j]);
            } else if let Some(k) = m[i] {
                assert(prev.contains(Some(k)));
            }
        }
    }
}

/// A title worth keeping for a tab: the given one trimmed, unless blank.
pub fn title_to_cache(title: &str) -> (r: Option<String>)
    ensures
        opt_chars(r) == clean_name(title@),
{
    clean_group_name(Some(title))
}

/// The title a tab is saved with: the page's own title unless it is blank,
/// else the one kept for the tab.
pub fn saved_title(live: Option<&str>, cached: Option<&str>) -> (r: Option<String>)
    ensures
        opt_chars(r) == match live {
            Some(t) => if trim(t@).len() > 0 {
                Some(t@)
            } else {
                match cached {
                    Some(c) => Some(c@),
                    None => None,
                }
            },
            None => match cached {
                Some(c) => Some(c@),
                None => None,
            },
        },
{
    if let Some(t) = live {
        if trim_chars(&chars_of(t)).len() > 0 {
            return Some(string_of(&chars_of(t)));
        }
    }
    match cached {
        Some(c) => Some(string_of(&chars_of(c))),
        None => None,
    }
}

/// The first of two optional strings that is present, or the empty string.
pub open spec fn first_present(a: Option<Seq<char>>, b: Option<Seq<char>>) -> Seq<char> {
    match a {
        Some(x) => x,
        None => match b {
            Some(y) => y,
            None => Seq::<char>::empty(),
        },
    }
}

fn first_present_exec(a: Option<&str>, b: Option<&str>) -> (r: String)
    ensures
        r@ == first_present(
            match a {
                Some(x) => Some(x@),
                None => None,
            },
            match b {
                Some(y) => Some(y@),
                None => None,
            },
        ),
{
    match a {
        Some(x) => string_of(&chars_of(x)),
        None => match b {
            Some(y) => string_of(&chars_of(y)),
            None => String::new(),
        },
    }
}

/// The URL shown for a tab: the page's URL, else the one it will load.
pub fn display_url(loaded: Option<&str>, pending: Option<&str>) -> (r: String)
    ensures
        r@ == first_present(
            match loaded {
                Some(x) => Some(x@),
                None => None,
            },
            match pending {
                Some(y) => Some(y@),
                None => None,
            },
        ),
{
    first_present_exec(loaded, pending)
}

/// The URL a tab is saved or matched with: the one it will load, else the
/// page's URL.
pub fn saved_url(pending: Option<&str>, loaded: Option<&str>) -> (r: String)
    ensures
        r@ == first_present(
            match pending {
                Some(x) => Some(x@),
                None => None,
            },
            match loaded {
                Some(y) => Some(y@),
                None => None,
            },
        ),
{
    first_present_exec(pending, loaded)
}

/// When the `offset`-th unloaded tab is prewarmed, in milliseconds: 500,
/// then every 150.
pub fn prewarm_delay_ms(offset: u64) -> (ms: u64)
    requires
        offset * 150 + 500 <= u64::MAX,
    ensures
        ms == 500 + offset * 150,
{
    500 + offset * 150
}

/// Whether a tab waiting to load is prewarmed: not while it is, and not
/// again.
pub fn should_prewarm(pending: bool, prewarmed: bool, prewarming: bool) -> (r: bool)
    ensures
        r == (pending && !prewarmed && !prewarming),
{
    pending && !prewarmed && !prewarming
}

/// Whether the current tab may be closed: the last tab stays.
pub fn can_close_tab(n_pages: u32) -> (r: bool)
    ensures
        r == (n_pages > 1),
{
    n_pages > 1
}

/// The base64 text of a `data:` URI's payload: what follows `;base64,`.
pub fn favicon_base64(data_uri: &str) -> (r: Option<String>)
    ensures
        opt_chars(r) == after_first(data_uri@, ";base64,"@),
{
    let marker = chars_of(";base64,");
    proof {
        reveal_strlit(";base64,");
    }
    match split_once(&chars_of(data_uri), &marker) {
        Some((_, encoded)) => Some(string_of(&encoded)),
        None => None,
    }
}

/// A saved tab read back: a bare URL is a tab with nothing else set.
pub fn tab_from_url(url: String) -> (t: TabSnapshot)
    ensures
        t@ == (TabView { url: url@, title: None, pinned: false, group: None, favicon: None }),
{
    TabSnapshot { url, title: None, pinned: false, group: None, favicon: None }
}

/// A saved tab read back from its fields; its group name is trimmed, and a
/// blank one is no group.
pub fn tab_from_fields(
    url: String,
    title: Option<String>,
    pinned: bool,
    group: Option<String>,
    favicon: Option<String>,
) -> (t: TabSnapshot)
    ensures
        t@ == (TabView {
            url: url@,
            title: opt_chars(title),
            pinned,
            group: match group {
                Some(g) => clean_name(g@),
                None => None,
            },
            favicon: opt_chars(favicon),
        }),
{
    let group = match &group {
        Some(g) => clean_group_name(Some(g.as_str())),
        None => None,
    };
    TabSnapshot { url, title, pinned, group, favicon }
}

/// Collapsing or expanding every group keeps the groups well formed.
pub proof fn lemma_all_collapsed_well_formed(gs: Seq<GroupStateView>, collapsed: bool)
    requires
        groups_well_formed(gs),
    ensures
        groups_well_formed(
            gs.map_values(|g: GroupStateView| GroupStateView { name: g.name, collapsed, color: g.color }),
        ),
{
    let r = gs.map_values(|g: GroupStateView| GroupStateView { name: g.name, collapsed, color: g.color });
    assert forall|i: int, j: int| 0 <= i < j < r.len() implies (#[trigger] r[i]).name != (#[trigger] r[j]).name by {
        assert(r[i].name == gs[i].name && r[j].name == gs[j].name);
    }
    assert forall|i: int| 0 <= i < r.len() implies group_colors().contains(#[trigger] r[i].color) by {
        assert(r[i].color == gs[i].color);
    }
}

/// The first page is always shown: it is the first page of its own group.
/// So as long as there is a tab, some tab is visible.
pub proof fn lemma_first_page_shown(metas: Seq<TabMeta>, groups: Seq<GroupStateView>)
    requires
        0 < metas.len() <= usize::MAX,
    ensures
        page_shown(metas, groups, 0),
        shown_pages(metas, groups, metas.len() as int).len() > 0,
{
    if let Some(g) = metas[0].group {
        lemma_first_index_at(metas, |m: TabMeta| in_group(m, g@), 0);
    }
    lemma_shown_pages(metas, groups, metas.len() as int);
    assert(shown_pages(metas, groups, 1).len() > 0) by {
        assert(shown_pages(metas, groups, 0).len() == 0);
    }
    lemma_shown_pages_grow(metas, groups, 1, metas.len() as int);
}

proof fn lemma_shown_pages_grow(metas: Seq<TabMeta>, groups: Seq<GroupStateView>, a: int, b: int)
    requires
        0 <= a <= b,
    ensures
        shown_pages(metas, groups, a).len() <= shown_pages(metas, groups, b).len(),
    decreases b - a,
{
    if a < b {
        lemma_shown_pages_grow(metas, groups, a, b - 1);
    }
}

/// The shown pages are the pages below `n` that are shown, in increasing
/// order.
pub proof fn lemma_shown_pages(metas: Seq<TabMeta>, groups: Seq<GroupStateView>, n: int)
    requires
        0 <= n <= usize::MAX,
    ensures
        forall|k: int| 0 <= k < shown_pages(metas, groups, n).len() ==> {
            let p = #[trigger] shown_pages(metas, groups, n)[k];
            p < n && page_shown(metas, groups, p as int)
        },
        forall|a: int, b: int| 0 <= a < b < shown_pages(metas, groups, n).len() ==> #[trigger] shown_pages(
            metas,
            groups,
            n,
        )[a] < #[trigger] shown_pages(metas, groups, n)[b],
    decreases n,
{
    if n > 0 {
        lemma_shown_pages(metas, groups, n - 1);
        let prev = shown_pages(metas, groups, n - 1);
        let cur = shown_pages(metas, groups, n);
        let last = (n - 1) as usize;
        assert(last as int == n - 1);
        assert forall|k: int| 0 <= k < cur.len() implies {
            let p = #[trigger] cur[k];
            p < n && page_shown(metas, groups, p as int)
        } by {
            if k < prev.len() {
                assert(cur[k] == prev[k]);
            } else {
                assert(cur == prev.push(last));
                assert(cur[k] == last);
            }
        }
        assert forall|a: int, b: int| 0 <= a < b < cur.len() implies #[trigger] cur[a] < #[trigger] cur[b] by {
            assert(cur[a] == prev[a]);
            if b < prev.len() {
                assert(cur[b] == prev[b]);
            } else {
                assert(cur == prev.push(last));
                assert(cur[b] == last);
                assert(prev[a] < n - 1);
            }
        }
    }
}

/// The page that `ensure_current_page_visible` switches to is a shown one,
/// and with at least one tab there is always a shown page to be on.
pub proof fn lemma_page_to_show_is_shown(metas: Seq<TabMeta>, groups: Seq<GroupStateView>, current: Option<usize>)
    requires
        metas.len() <= usize::MAX,
    ensures
        page_to_show(metas, groups, current) matches Some(p) ==> p < metas.len() && page_shown(
            metas,
            groups,
            p as int,
        ),
        metas.len() > 0 && page_to_show(metas, groups, current) is None ==> (current matches Some(c)
            && c < metas.len() && page_shown(metas, groups, c as int)),
{
    lemma_shown_pages(metas, groups, metas.len() as int);
    if metas.len() > 0 {
        lemma_first_page_shown(metas, groups);
    }
}

/// How many of the shown pages are pinned and how many are not.
pub open spec fn shown_counts(metas: Seq<TabMeta>, groups: Seq<GroupStateView>, n: int) -> (nat, nat)
    decreases n,
{
    if n <= 0 {
        (0, 0)
    } else {
        let (p, r) = shown_counts(metas, groups, n - 1);
        if !page_shown(metas, groups, n - 1) {
            (p, r)
        } else if metas[n - 1].pinned {
            (p + 1, r)
        } else {
            (p, r + 1)
        }
    }
}

/// Counts the shown tabs that are pinned and those that are not, for
/// sharing the tab bar's width.
pub fn visible_tab_counts(metas: &Vec<TabMeta>, groups: &Vec<GroupState>) -> (r: (usize, usize))
    ensures
        (r.0 as nat, r.1 as nat) == shown_counts(metas@, group_states(groups@), metas@.len() as int),
{
    let mut pinned: usize = 0;
    let mut regular: usize = 0;
    let mut page: usize = 0;
    while page < metas.len()
        invariant
            page <= metas.len(),
            pinned + regular <= page,
            (pinned as nat, regular as nat) == shown_counts(metas@, group_states(groups@), page as int),
        decreases metas.len() - page,
    {
        if should_show_page(metas, groups, page) {
            if metas[page].pinned {
                pinned += 1;
            } else {
                regular += 1;
            }
        }
        page += 1;
    }
    (pinned, regular)
}

/// How far a page has loaded.
#[derive(Debug, Clone, Copy, PartialEq, Eq)]
pub enum LoadStage {
    Started,
    Redirected,
    Committed,
    Finished,
    /// Any other load event.
    Other,
}

/// What a load event changes on a tab.
#[derive(Debug, Clone, Copy, PartialEq, Eq)]
pub enum LoadEffect {
    /// Nothing.
    Nothing,
    /// Show the spinner in place of the icon.
    ShowSpinner,
    /// Show the icon again.
    ShowIcon,
    /// The background load into a blank page is done: the tab is prewarmed.
    Prewarmed,
}

/// What a load event does to a tab: while a tab is prewarmed in the
/// background only the end of that load counts; otherwise loading shows the
/// spinner and a finished load the icon.
pub fn load_event_effect(prewarming: bool, stage: LoadStage) -> (e: LoadEffect)
    ensures
        prewarming ==> e == (if stage == LoadStage::Finished {
            LoadEffect::Prewarmed
        } else {
            LoadEffect::Nothing
        }),
        !prewarming ==> e == match stage {
            LoadStage::Started | LoadStage::Redirected | LoadStage::Committed => LoadEffect::ShowSpinner,
            LoadStage::Finished => LoadEffect::ShowIcon,
            LoadStage::Other => LoadEffect::Nothing,
        },
{
    if prewarming {
        return match stage {
            LoadStage::Finished => LoadEffect::Prewarmed,
            _ => LoadEffect::Nothing,
        };
    }
    match stage {
        LoadStage::Started | LoadStage::Redirected | LoadStage::Committed => LoadEffect::ShowSpinner,
        LoadStage::Finished => LoadEffect::ShowIcon,
        LoadStage::Other => LoadEffect::Nothing,
    }
}

/// A tab has a badge exactly when it is unpinned and the first tab of its
/// group. The badge is the group's name while the group is expanded; only a
/// collapsed group's badge adds the number of its tabs, in brackets.
pub proof fn lemma_badge_counts_only_when_collapsed(metas: Seq<TabMeta>, groups: Seq<GroupStateView>, page: int)
    requires
        0 <= page < metas.len(),
    ensures
        badge_of(metas, groups, page) is Some <==> (!metas[page].pinned && metas[page].group is Some
            && first_group_page(metas, metas[page].group->0@) == Some(page)),
        badge_of(metas, groups, page) matches Some(b) ==> ({
            let g = metas[page].group->0@;
            if group_is_collapsed(groups, g) {
                b == g + " ("@ + decimal(group_size(metas, g)) + ")"@
            } else {
                b == g
            }
        }),
{
}

} // verus!
