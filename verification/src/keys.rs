//! What each key does in each mode: the Normal-mode bindings with their count
//! and `g` prefixes, the URL editor's Vim-like motions and edits, and the
//! handling of Insert, Command, Terminal and Hint mode keys, and the list of
//! shortcuts the help dialog shows.
use vstd::prelude::*;
use crate::text::{
    char_is_alphanumeric, chars_of, concat, decimal_i32, digit_value, int_decimal, is_alphanumeric,
    is_digit, is_whitespace, is_ws, string_of,
};

verus! {

/// A key press, as far as the bindings tell keys apart.
#[derive(Debug, Clone, Copy, PartialEq, Eq, Structural)]
pub enum Key {
    /// A key whose key symbol is the printable character itself.
    Char(char),
    /// Another key that produces a character, such as a keypad digit.
    Text(char),
    Escape,
    /// Return or keypad Enter.
    Return,
    Tab,
    Up,
    Down,
    /// Shift, Control, Alt or Super.
    Modifier,
    /// Any other key.
    Other,
}

/// The digit that a key types, if it types one.
pub open spec fn key_digit_of(key: Key) -> Option<u32> {
    match key {
        Key::Char(c) => if is_digit(c) {
            Some(digit_value(c) as u32)
        } else {
            None
        },
        Key::Text(c) => if is_digit(c) {
            Some(digit_value(c) as u32)
        } else {
            None
        },
        _ => None,
    }
}

/// The digit that a key types, if it types one.
pub fn key_digit(key: Key) -> (d: Option<u32>)
    ensures
        d == key_digit_of(key),
{
    let c = match key {
        Key::Char(c) => c,
        Key::Text(c) => c,
        _ => {
            return None;
        },
    };
    if '0' <= c && c <= '9' {
        Some((c as u32) - ('0' as u32))
    } else {
        None
    }
}

/// The largest count that a Normal-mode prefix can hold.
pub const MAX_COUNT: u32 = 9999;

/// `current` with the digit appended, bounded by `MAX_COUNT`.
pub open spec fn appended_count(current: u32, digit: u32) -> u32 {
    if current * 10 + digit <= MAX_COUNT {
        (current * 10 + digit) as u32
    } else {
        MAX_COUNT
    }
}

/// Appends a typed digit to a count prefix; the count never exceeds
/// `MAX_COUNT`.
pub fn append_count(current: u32, digit: u32) -> (r: u32)
    ensures
        r == appended_count(current, digit),
        r <= MAX_COUNT,
{
    let value: u64 = current as u64 * 10 + digit as u64;
    if value <= MAX_COUNT as u64 {
        value as u32
    } else {
        MAX_COUNT
    }
}

/// The pending prefix of a Normal-mode key sequence: a count and a `g`.
#[derive(Debug, Clone, Copy, PartialEq, Eq, Structural)]
pub struct NormalPrefix {
    pub g: bool,
    pub count: u32,
}

/// No pending prefix.
pub fn new_normal_prefix() -> (prefix: NormalPrefix)
    ensures
        prefix == (NormalPrefix { g: false, count: 0 }),
{
    NormalPrefix { g: false, count: 0 }
}

/// What a Normal-mode key asks the window to do.
#[derive(Debug, Clone, Copy, PartialEq, Eq, Structural)]
pub enum NormalAction {
    /// The key is consumed and nothing happens.
    Ignore,
    /// The key goes on to the web page.
    PassThrough,
    ScrollToTop,
    ScrollToBottom,
    /// Scroll the page by `(x, y)` pixels.
    Scroll(i32, i32),
    /// Move the current tab this many places to the left.
    MoveTabLeft(u32),
    /// Move the current tab this many places to the right.
    MoveTabRight(u32),
    ShowShortcuts,
    EnterInsert,
    /// Edit the current page's URL in URL Normal mode.
    EditUrl,
    /// Type a URL for a new tab in URL Insert mode.
    EditUrlForNewTab,
    EnterCommand,
    EnterTerminal,
    EnterHint,
    Reload,
    ZoomIn,
    ZoomOut,
    ZoomReset,
    FirstTab,
    LastTab,
    Back,
    Forward,
    /// Select the tab this many places to the left.
    PreviousTab(u32),
    /// Select the tab this many places to the right.
    NextTab(u32),
    CloseTab,
    TogglePin,
}

/// Pixels scrolled by `h`, `j`, `k` and `l`.
pub const SCROLL_STEP: i32 = 60;

/// Pixels scrolled by `d` and `u`.
pub const SCROLL_PAGE: i32 = 600;

/// The Normal-mode binding of a printable key, with the count that precedes it.
pub open spec fn normal_binding(c: char, count: u32) -> NormalAction {
    if c == 'j' {
        NormalAction::Scroll(0, SCROLL_STEP)
    } else if c == 'k' {
        NormalAction::Scroll(0, (-SCROLL_STEP) as i32)
    } else if c == 'h' {
        NormalAction::Scroll((-SCROLL_STEP) as i32, 0)
    } else if c == 'l' {
        NormalAction::Scroll(SCROLL_STEP, 0)
    } else if c == 'd' {
        NormalAction::Scroll(0, SCROLL_PAGE)
    } else if c == 'u' {
        NormalAction::Scroll(0, (-SCROLL_PAGE) as i32)
    } else if c == 'G' {
        NormalAction::ScrollToBottom
    } else if c == 'i' {
        NormalAction::EnterInsert
    } else if c == 'o' {
        NormalAction::EditUrl
    } else if c == 'O' {
        NormalAction::EditUrlForNewTab
    } else if c == ':' {
        NormalAction::EnterCommand
    } else if c == '!' {
        NormalAction::EnterTerminal
    } else if c == 'f' {
        NormalAction::EnterHint
    } else if c == 'r' {
        NormalAction::Reload
    } else if c == '+' || c == '=' {
        NormalAction::ZoomIn
    } else if c == '-' {
        NormalAction::ZoomOut
    } else if c == '0' {
        NormalAction::ZoomReset
    } else if c == '^' {
        NormalAction::FirstTab
    } else if c == '$' {
        NormalAction::LastTab
    } else if c == 'H' {
        NormalAction::Back
    } else if c == 'L' {
        NormalAction::Forward
    } else if c == 'J' {
        NormalAction::PreviousTab(count)
    } else if c == 'K' {
        NormalAction::NextTab(count)
    } else if c == 'x' {
        NormalAction::CloseTab
    } else if c == 'p' {
        NormalAction::TogglePin
    } else {
        NormalAction::PassThrough
    }
}

/// What the key after a pending `g` does, with the count before the `g`.
pub open spec fn g_sequence_action(key: Key, count: u32) -> NormalAction {
    if key == Key::Char('g') {
        NormalAction::ScrollToTop
    } else if key == Key::Char('J') {
        NormalAction::MoveTabLeft(count)
    } else if key == Key::Char('K') {
        NormalAction::MoveTabRight(count)
    } else {
        NormalAction::Ignore
    }
}

/// A count of zero stands for one.
pub open spec fn at_least_one(count: u32) -> u32 {
    if count == 0 {
        1
    } else {
        count
    }
}

/// The binding of a key in Normal mode once no prefix is pending: `?` shows
/// the shortcuts; without a page every other key passes through; otherwise
/// printable keys follow `normal_binding`.
pub open spec fn normal_key_action(key: Key, count: u32, has_page: bool) -> NormalAction {
    if key == Key::Char('?') {
        NormalAction::ShowShortcuts
    } else if !has_page {
        NormalAction::PassThrough
    } else {
        match key {
            Key::Char(c) => normal_binding(c, count),
            _ => NormalAction::PassThrough,
        }
    }
}

fn binding(c: char, count: u32) -> (a: NormalAction)
    ensures
        a == normal_binding(c, count),
{
    if c == 'j' {
        NormalAction::Scroll(0, SCROLL_STEP)
    } else if c == 'k' {
        NormalAction::Scroll(0, -SCROLL_STEP)
    } else if c == 'h' {
        NormalAction::Scroll(-SCROLL_STEP, 0)
    } else if c == 'l' {
        NormalAction::Scroll(SCROLL_STEP, 0)
    } else if c == 'd' {
        NormalAction::Scroll(0, SCROLL_PAGE)
    } else if c == 'u' {
        NormalAction::Scroll(0, -SCROLL_PAGE)
    } else if c == 'G' {
        NormalAction::ScrollToBottom
    } else if c == 'i' {
        NormalAction::EnterInsert
    } else if c == 'o' {
        NormalAction::EditUrl
    } else if c == 'O' {
        NormalAction::EditUrlForNewTab
    } else if c == ':' {
        NormalAction::EnterCommand
    } else if c == '!' {
        NormalAction::EnterTerminal
    } else if c == 'f' {
        NormalAction::EnterHint
    } else if c == 'r' {
        NormalAction::Reload
    } else if c == '+' || c == '=' {
        NormalAction::ZoomIn
    } else if c == '-' {
        NormalAction::ZoomOut
    } else if c == '0' {
        NormalAction::ZoomReset
    } else if c == '^' {
        NormalAction::FirstTab
    } else if c == '$' {
        NormalAction::LastTab
    } else if c == 'H' {
        NormalAction::Back
    } else if c == 'L' {
        NormalAction::Forward
    } else if c == 'J' {
        NormalAction::PreviousTab(count)
    } else if c == 'K' {
        NormalAction::NextTab(count)
    } else if c == 'x' {
        NormalAction::CloseTab
    } else if c == 'p' {
        NormalAction::TogglePin
    } else {
        NormalAction::PassThrough
    }
}

/// One key press in Normal mode: the prefix that remains and the action.
///
/// Modifier keys change nothing. After a `g`, the next key ends the sequence
/// (`gg`, `gJ`, `gK`) and clears the prefix. Digits build the count (a leading
/// `0` is not a digit but the zoom-reset key), and `g` starts a sequence,
/// keeping the count. Any other key clears the prefix and acts with its count.
pub fn normal_mode_key(prefix: NormalPrefix, key: Key, has_page: bool) -> (res: (
    NormalPrefix,
    NormalAction,
))
    ensures
        key == Key::Modifier ==> res == (prefix, NormalAction::Ignore),
        key != Key::Modifier && prefix.g ==> res == (NormalPrefix { g: false, count: 0 },
        g_sequence_action(key, at_least_one(prefix.count))),
        key != Key::Modifier && !prefix.g && key_digit_of(key) is Some && (key_digit_of(key)->0
            != 0 || prefix.count != 0) ==> res == (NormalPrefix {
            g: false,
            count: appended_count(prefix.count, key_digit_of(key)->0),
        }, NormalAction::Ignore),
        key != Key::Modifier && !prefix.g && !(key_digit_of(key) is Some && (key_digit_of(key)->0
            != 0 || prefix.count != 0)) && key == Key::Char('g') ==> res == (NormalPrefix {
            g: true,
            count: prefix.count,
        }, NormalAction::Ignore),
        key != Key::Modifier && !prefix.g && !(key_digit_of(key) is Some && (key_digit_of(key)->0
            != 0 || prefix.count != 0)) && key != Key::Char('g') ==> res == (NormalPrefix {
            g: false,
            count: 0,
        }, normal_key_action(key, at_least_one(prefix.count), has_page)),
{
    if let Key::Modifier = key {
        return (prefix, NormalAction::Ignore);
    }
    let count = if prefix.count == 0 {
        1
    } else {
        prefix.count
    };
    if prefix.g {
        let cleared = NormalPrefix { g: false, count: 0 };
        let action = match key {
            Key::Char('g') => NormalAction::ScrollToTop,
            Key::Char('J') => NormalAction::MoveTabLeft(count),
            Key::Char('K') => NormalAction::MoveTabRight(count),
            _ => NormalAction::Ignore,
        };
        return (cleared, action);
    }
    if let Some(d) = key_digit(key) {
        if d != 0 || prefix.count != 0 {
            return (
                NormalPrefix { g: false, count: append_count(prefix.count, d) },
                NormalAction::Ignore,
            );
        }
    }
    if let Key::Char('g') = key {
        return (NormalPrefix { g: true, count: prefix.count }, NormalAction::Ignore);
    }
    let cleared = NormalPrefix { g: false, count: 0 };
    if let Key::Char('?') = key {
        return (cleared, NormalAction::ShowShortcuts);
    }
    if !has_page {
        return (cleared, NormalAction::PassThrough);
    }
    match key {
        Key::Char(c) => (cleared, binding(c, count)),
        _ => (cleared, NormalAction::PassThrough),
    }
}


/// A character class that word motions skip over.
#[derive(Debug, Clone, Copy, PartialEq, Eq, Structural)]
pub enum CharClass {
    /// Letters, digits, `_` and `-`: the words of a URL.
    UrlWord,
    /// Letters, digits and `_`.
    Word,
    /// White space.
    Space,
    /// Neither white space nor a word character.
    Punctuation,
}

/// Whether `c` belongs to the class.
pub open spec fn in_class(c: char, class: CharClass) -> bool {
    match class {
        CharClass::UrlWord => char_is_alphanumeric(c) || c == '_' || c == '-',
        CharClass::Word => char_is_alphanumeric(c) || c == '_',
        CharClass::Space => is_ws(c),
        CharClass::Punctuation => !is_ws(c) && !(char_is_alphanumeric(c) || c == '_'),
    }
}

/// Whether `c` belongs to the class.
pub fn in_class_exec(c: char, class: CharClass) -> (r: bool)
    ensures
        r == in_class(c, class),
{
    match class {
        CharClass::UrlWord => is_alphanumeric(c) || c == '_' || c == '-',
        CharClass::Word => is_alphanumeric(c) || c == '_',
        CharClass::Space => is_whitespace(c),
        CharClass::Punctuation => !is_whitespace(c) && !(is_alphanumeric(c) || c == '_'),
    }
}

/// The first position at or after `p` whose character's membership in the
/// class differs from `member` (or the end of `s`).
pub open spec fn forward_while(s: Seq<char>, p: int, class: CharClass, member: bool) -> int
    decreases s.len() - p,
{
    if 0 <= p < s.len() && in_class(s[p], class) == member {
        forward_while(s, p + 1, class, member)
    } else {
        p
    }
}

/// The last position at or before `p` whose preceding character's membership
/// in the class differs from `member` (or the start of `s`).
pub open spec fn backward_while(s: Seq<char>, p: int, class: CharClass, member: bool) -> int
    decreases p,
{
    if 0 < p <= s.len() && in_class(s[p - 1], class) == member {
        backward_while(s, p - 1, class, member)
    } else {
        p
    }
}

proof fn lemma_forward_bounds(s: Seq<char>, p: int, class: CharClass, member: bool)
    requires
        0 <= p <= s.len(),
    ensures
        p <= forward_while(s, p, class, member) <= s.len(),
    decreases s.len() - p,
{
    if p < s.len() && in_class(s[p], class) == member {
        lemma_forward_bounds(s, p + 1, class, member);
    }
}

proof fn lemma_backward_bounds(s: Seq<char>, p: int, class: CharClass, member: bool)
    requires
        0 <= p <= s.len(),
    ensures
        0 <= backward_while(s, p, class, member) <= p,
    decreases p,
{
    if 0 < p && in_class(s[p - 1], class) == member {
        lemma_backward_bounds(s, p - 1, class, member);
    }
}

fn forward_exec(s: &Vec<char>, p: usize, class: CharClass, member: bool) -> (r: usize)
    requires
        p <= s.len(),
    ensures
        r == forward_while(s@, p as int, class, member),
        p <= r <= s.len(),
{
    let mut q = p;
    while q < s.len() && in_class_exec(s[q], class) == member
        invariant
            p <= q <= s.len(),
            forward_while(s@, p as int, class, member) == forward_while(s@, q as int, class, member),
        decreases s.len() - q,
    {
        q += 1;
    }
    q
}

fn backward_exec(s: &Vec<char>, p: usize, class: CharClass, member: bool) -> (r: usize)
    requires
        p <= s.len(),
    ensures
        r == backward_while(s@, p as int, class, member),
        r <= p,
{
    let mut q = p;
    while q > 0 && in_class_exec(s[q - 1], class) == member
        invariant
            q <= p <= s.len(),
            backward_while(s@, p as int, class, member) == backward_while(
                s@,
                q as int,
                class,
                member,
            ),
        decreases q,
    {
        q -= 1;
    }
    q
}

/// The smaller of `cursor` and `len`.
pub open spec fn capped(cursor: int, len: int) -> int {
    if cursor < len {
        cursor
    } else {
        len
    }
}

/// Where `w` moves in a URL: past the rest of the current word, then past
/// the punctuation after it.
pub open spec fn next_url_word(s: Seq<char>, cursor: int) -> int {
    let p = capped(cursor, s.len() as int);
    forward_while(s, forward_while(s, p, CharClass::UrlWord, true), CharClass::UrlWord, false)
}

/// Where `b` moves in a URL: back over punctuation, then to the start of the
/// word before it.
pub open spec fn previous_url_word(s: Seq<char>, cursor: int) -> int {
    let p = capped(cursor, s.len() as int);
    backward_while(s, backward_while(s, p, CharClass::UrlWord, false), CharClass::UrlWord, true)
}

/// Where Ctrl+w deletes back to: over trailing white space, then over a run of
/// word characters or a run of punctuation.
pub open spec fn previous_word(s: Seq<char>, cursor: int) -> int {
    let p = capped(cursor, s.len() as int);
    let start = backward_while(s, p, CharClass::Space, true);
    if start <= 0 {
        0
    } else if in_class(s[start - 1], CharClass::Word) {
        backward_while(s, start, CharClass::Word, true)
    } else {
        backward_while(s, start, CharClass::Punctuation, true)
    }
}

/// The character index where the next URL word starts after `cursor`.
pub fn next_url_word_start(text: &str, cursor: usize) -> (r: usize)
    ensures
        r == next_url_word(text@, cursor as int),
        capped(cursor as int, text@.len() as int) <= r <= text@.len(),
{
    let s = chars_of(text);
    let p = if cursor < s.len() {
        cursor
    } else {
        s.len()
    };
    let q = forward_exec(&s, p, CharClass::UrlWord, true);
    forward_exec(&s, q, CharClass::UrlWord, false)
}

/// The character index where the URL word before `cursor` starts.
pub fn previous_url_word_start(text: &str, cursor: usize) -> (r: usize)
    ensures
        r == previous_url_word(text@, cursor as int),
        r <= capped(cursor as int, text@.len() as int),
{
    let s = chars_of(text);
    let p = if cursor < s.len() {
        cursor
    } else {
        s.len()
    };
    let q = backward_exec(&s, p, CharClass::UrlWord, false);
    backward_exec(&s, q, CharClass::UrlWord, true)
}

/// The character index that Ctrl+w deletes back to from `cursor`.
pub fn previous_word_start(text: &str, cursor: usize) -> (r: usize)
    ensures
        r == previous_word(text@, cursor as int),
        r <= capped(cursor as int, text@.len() as int),
{
    let s = chars_of(text);
    let p = if cursor < s.len() {
        cursor
    } else {
        s.len()
    };
    let start = backward_exec(&s, p, CharClass::Space, true);
    if start == 0 {
        return 0;
    }
    if in_class_exec(s[start - 1], CharClass::Word) {
        backward_exec(&s, start, CharClass::Word, true)
    } else {
        backward_exec(&s, start, CharClass::Punctuation, true)
    }
}

/// The cursor of the URL editor in URL Normal mode, which sits on a character:
/// `requested` moved into `0..len`, or 0 for empty text.
pub open spec fn normal_cursor_of(len: int, requested: int) -> int {
    if len == 0 {
        0
    } else if requested < 0 {
        0
    } else if requested > len - 1 {
        len - 1
    } else {
        requested
    }
}

/// The cursor of the URL editor in URL Insert mode, which sits between
/// characters: `requested` moved into `0..=len`.
pub open spec fn insert_cursor_of(len: int, requested: int) -> int {
    if requested < 0 {
        0
    } else if requested > len {
        len
    } else {
        requested
    }
}

/// The URL Normal mode cursor for a text of `len` characters.
pub fn normal_cursor(len: i32, requested: i32) -> (c: i32)
    requires
        len >= 0,
    ensures
        c == normal_cursor_of(len as int, requested as int),
        len == 0 ==> c == 0,
        len > 0 ==> 0 <= c < len,
{
    if len == 0 {
        0
    } else if requested < 0 {
        0
    } else if requested > len - 1 {
        len - 1
    } else {
        requested
    }
}

/// The URL Insert mode cursor for a text of `len` characters.
pub fn insert_cursor(len: i32, requested: i32) -> (c: i32)
    requires
        len >= 0,
    ensures
        c == insert_cursor_of(len as int, requested as int),
        0 <= c <= len,
{
    if requested < 0 {
        0
    } else if requested > len {
        len
    } else {
        requested
    }
}

/// The characters `start..end` of an entry.
#[derive(Debug, Clone, Copy, PartialEq, Eq, Structural)]
pub struct TextRange {
    pub start: i32,
    pub end: i32,
}

/// What a key does to the URL editor in URL Normal mode.
#[derive(Debug, Clone, Copy, PartialEq, Eq, Structural)]
pub enum UrlNormalOutcome {
    /// The key goes to the entry (Return submits the URL).
    PassThrough,
    /// Leave the editor for Normal mode.
    Cancel,
    /// The key is consumed and nothing changes.
    Ignore,
    /// Delete the characters `start..end` if given, then place the cursor;
    /// with `insert` the editor enters URL Insert mode.
    Edit { delete: Option<TextRange>, cursor: i32, insert: bool },
}

/// A cursor motion in URL Normal mode.
pub open spec fn url_move(len: int, requested: int) -> UrlNormalOutcome {
    UrlNormalOutcome::Edit {
        delete: None,
        cursor: normal_cursor_of(len, requested) as i32,
        insert: false,
    }
}

/// Entering URL Insert mode at a position.
pub open spec fn url_insert_at(len: int, requested: int) -> UrlNormalOutcome {
    UrlNormalOutcome::Edit {
        delete: None,
        cursor: insert_cursor_of(len, requested) as i32,
        insert: true,
    }
}

/// The effect of a key in URL Normal mode on the text `s` with the cursor
/// at `cursor`.
pub open spec fn url_normal_effect(s: Seq<char>, cursor: int, key: Key) -> UrlNormalOutcome {
    let len = s.len() as int;
    if key == Key::Return {
        UrlNormalOutcome::PassThrough
    } else if key == Key::Escape {
        UrlNormalOutcome::Cancel
    } else if key == Key::Char('h') {
        url_move(len, cursor - 1)
    } else if key == Key::Char('l') {
        url_move(len, cursor + 1)
    } else if key == Key::Char('w') {
        url_move(len, next_url_word(s, cursor))
    } else if key == Key::Char('b') {
        url_move(len, previous_url_word(s, cursor))
    } else if key == Key::Char('0') {
        url_move(len, 0)
    } else if key == Key::Char('$') {
        url_move(len, len - 1)
    } else if key == Key::Char('i') {
        url_insert_at(len, cursor)
    } else if key == Key::Char('a') {
        url_insert_at(len, cursor + 1)
    } else if key == Key::Char('I') {
        url_insert_at(len, 0)
    } else if key == Key::Char('A') {
        url_insert_at(len, len)
    } else if key == Key::Char('x') {
        if cursor < len {
            UrlNormalOutcome::Edit {
                delete: Some(TextRange { start: cursor as i32, end: (cursor + 1) as i32 }),
                cursor: normal_cursor_of(len - 1, cursor) as i32,
                insert: false,
            }
        } else {
            UrlNormalOutcome::Ignore
        }
    } else if key == Key::Char('D') {
        UrlNormalOutcome::Edit {
            delete: Some(TextRange { start: cursor as i32, end: len as i32 }),
            cursor: normal_cursor_of(cursor, cursor - 1) as i32,
            insert: false,
        }
    } else if key == Key::Char('C') {
        UrlNormalOutcome::Edit {
            delete: Some(TextRange { start: cursor as i32, end: len as i32 }),
            cursor: insert_cursor_of(cursor, cursor) as i32,
            insert: true,
        }
    } else {
        UrlNormalOutcome::Ignore
    }
}

/// A key press in URL Normal mode, on the editor text `text` with the cursor
/// at `cursor` (which the editor keeps within the text).
pub fn url_normal_key(text: &str, cursor: i32, key: Key) -> (r: UrlNormalOutcome)
    requires
        0 <= cursor <= text@.len() < i32::MAX,
    ensures
        r == url_normal_effect(text@, cursor as int, key),
{
    let s = chars_of(text);
    let len = s.len() as i32;
    match key {
        Key::Return => UrlNormalOutcome::PassThrough,
        Key::Escape => UrlNormalOutcome::Cancel,
        Key::Char('h') => UrlNormalOutcome::Edit {
            delete: None,
            cursor: normal_cursor(len, cursor - 1),
            insert: false,
        },
        Key::Char('l') => UrlNormalOutcome::Edit {
            delete: None,
            cursor: normal_cursor(len, cursor + 1),
            insert: false,
        },
        Key::Char('w') => {
            let target = next_url_word_start(text, cursor as usize);
            UrlNormalOutcome::Edit {
                delete: None,
                cursor: normal_cursor(len, target as i32),
                insert: false,
            }
        },
        Key::Char('b') => {
            let target = previous_url_word_start(text, cursor as usize);
            UrlNormalOutcome::Edit {
                delete: None,
                cursor: normal_cursor(len, target as i32),
                insert: false,
            }
        },
        Key::Char('0') => UrlNormalOutcome::Edit {
            delete: None,
            cursor: normal_cursor(len, 0),
            insert: false,
        },
        Key::Char('$') => UrlNormalOutcome::Edit {
            delete: None,
            cursor: normal_cursor(len, len - 1),
            insert: false,
        },
        Key::Char('i') => UrlNormalOutcome::Edit {
            delete: None,
            cursor: insert_cursor(len, cursor),
            insert: true,
        },
        Key::Char('a') => UrlNormalOutcome::Edit {
            delete: None,
            cursor: insert_cursor(len, cursor + 1),
            insert: true,
        },
        Key::Char('I') => UrlNormalOutcome::Edit {
            delete: None,
            cursor: insert_cursor(len, 0),
            insert: true,
        },
        Key::Char('A') => UrlNormalOutcome::Edit {
            delete: None,
            cursor: insert_cursor(len, len),
            insert: true,
        },
        Key::Char('x') => {
            if cursor < len {
                UrlNormalOutcome::Edit {
                    delete: Some(TextRange { start: cursor, end: cursor + 1 }),
                    cursor: normal_cursor(len - 1, cursor),
                    insert: false,
                }
            } else {
                UrlNormalOutcome::Ignore
            }
        },
        Key::Char('D') => UrlNormalOutcome::Edit {
            delete: Some(TextRange { start: cursor, end: len }),
            cursor: normal_cursor(cursor, cursor - 1),
            insert: false,
        },
        Key::Char('C') => UrlNormalOutcome::Edit {
            delete: Some(TextRange { start: cursor, end: len }),
            cursor: insert_cursor(cursor, cursor),
            insert: true,
        },
        _ => UrlNormalOutcome::Ignore,
    }
}

/// The characters that Ctrl+w deletes from an entry: the selection if there is
/// one (`start..end` in either order), else from the start of the previous
/// word to the cursor.
pub open spec fn word_deletion(selection: Option<(i32, i32)>, s: Seq<char>, cursor: int) -> Option<
    (int, int),
> {
    match selection {
        Some((a, b)) => Some(
            (if a <= b {
                a as int
            } else {
                b as int
            }, if a <= b {
                b as int
            } else {
                a as int
            }),
        ),
        None => {
            let c = if cursor < 0 {
                0
            } else {
                cursor
            };
            let start = previous_word(s, c);
            if start < c {
                Some((start, c))
            } else {
                None
            }
        },
    }
}

/// The range that Ctrl+w deletes from an entry holding `text`, with the given
/// selection and cursor; the entry then puts its cursor at the range's start.
pub fn delete_word_range(selection: Option<(i32, i32)>, text: &str, cursor: i32) -> (r: Option<
    (i32, i32),
>)
    requires
        text@.len() <= i32::MAX,
    ensures
        r matches Some((a, b)) ==> word_deletion(selection, text@, cursor as int) == Some(
            (a as int, b as int),
        ),
        r is None ==> word_deletion(selection, text@, cursor as int) is None,
{
    match selection {
        Some((a, b)) => {
            if a <= b {
                Some((a, b))
            } else {
                Some((b, a))
            }
        },
        None => {
            let c: i32 = if cursor < 0 {
                0
            } else {
                cursor
            };
            let start = previous_word_start(text, c as usize);
            if (start as i32) < c {
                Some((start as i32, c))
            } else {
                None
            }
        },
    }
}

/// What a key does in Insert, URL Insert, Command, Terminal or Hint mode.
#[derive(Debug, Clone, Copy, PartialEq, Eq, Structural)]
pub enum ModeKeyAction {
    /// The key goes on to the focused widget.
    PassThrough,
    /// The key is consumed and nothing happens.
    Ignore,
    /// Return to Normal mode.
    Cancel,
    /// Return from URL Insert to URL Normal mode.
    ToUrlNormal,
    /// Delete the previous word in the command bar (Ctrl+w).
    DeleteWord,
    /// Complete the command from the selected suggestion.
    ApplyCompletion,
    NextCompletion,
    PreviousCompletion,
    /// Add a character to the typed hint label.
    TypeHint(char),
}

/// A key in Insert mode: Ctrl+w in the command bar deletes a word, Escape
/// returns to Normal mode, other keys go to the page.
pub fn insert_mode_key(key: Key, control: bool, entry_focused: bool) -> (a: ModeKeyAction)
    ensures
        a == (if entry_focused && control && key == Key::Char('w') {
            ModeKeyAction::DeleteWord
        } else if key == Key::Escape {
            ModeKeyAction::Cancel
        } else {
            ModeKeyAction::PassThrough
        }),
{
    if entry_focused && control && key == Key::Char('w') {
        ModeKeyAction::DeleteWord
    } else if let Key::Escape = key {
        ModeKeyAction::Cancel
    } else {
        ModeKeyAction::PassThrough
    }
}

/// A key in URL Insert mode: Escape returns to URL Normal mode, Ctrl+w in the
/// command bar deletes a word, other keys type.
pub fn url_insert_mode_key(key: Key, control: bool, entry_focused: bool) -> (a: ModeKeyAction)
    ensures
        a == (if key == Key::Escape {
            ModeKeyAction::ToUrlNormal
        } else if entry_focused && control && key == Key::Char('w') {
            ModeKeyAction::DeleteWord
        } else {
            ModeKeyAction::PassThrough
        }),
{
    if let Key::Escape = key {
        ModeKeyAction::ToUrlNormal
    } else if entry_focused && control && key == Key::Char('w') {
        ModeKeyAction::DeleteWord
    } else {
        ModeKeyAction::PassThrough
    }
}

/// A key in Command mode: Escape cancels; in the focused command bar Tab,
/// Down and Up work the completion list; other keys type.
pub fn command_mode_key(key: Key, entry_focused: bool) -> (a: ModeKeyAction)
    ensures
        a == (if key == Key::Escape {
            ModeKeyAction::Cancel
        } else if entry_focused && key == Key::Tab {
            ModeKeyAction::ApplyCompletion
        } else if entry_focused && key == Key::Down {
            ModeKeyAction::NextCompletion
        } else if entry_focused && key == Key::Up {
            ModeKeyAction::PreviousCompletion
        } else {
            ModeKeyAction::PassThrough
        }),
{
    match key {
        Key::Escape => ModeKeyAction::Cancel,
        Key::Tab if entry_focused => ModeKeyAction::ApplyCompletion,
        Key::Down if entry_focused => ModeKeyAction::NextCompletion,
        Key::Up if entry_focused => ModeKeyAction::PreviousCompletion,
        _ => ModeKeyAction::PassThrough,
    }
}

/// A key in Terminal mode: Escape cancels, other keys type.
pub fn terminal_mode_key(key: Key) -> (a: ModeKeyAction)
    ensures
        a == (if key == Key::Escape {
            ModeKeyAction::Cancel
        } else {
            ModeKeyAction::PassThrough
        }),
{
    if let Key::Escape = key {
        ModeKeyAction::Cancel
    } else {
        ModeKeyAction::PassThrough
    }
}

/// The characters that hint labels are made of.
pub open spec fn is_hint_char(c: char) -> bool {
    c == 'a' || c == 's' || c == 'd' || c == 'f' || c == 'g' || c == 'h' || c == 'j' || c == 'k'
        || c == 'l'
}

/// The hint-label character that a key types, if any.
pub open spec fn hint_char_of(key: Key) -> Option<char> {
    match key {
        Key::Char(c) => if is_hint_char(c) {
            Some(c)
        } else {
            None
        },
        Key::Text(c) => if is_hint_char(c) {
            Some(c)
        } else {
            None
        },
        _ => None,
    }
}

/// A key in Hint mode: Escape cancels, a hint-label character is typed, and
/// every other key is swallowed.
pub fn hint_mode_key(key: Key) -> (a: ModeKeyAction)
    ensures
        a == (if key == Key::Escape {
            ModeKeyAction::Cancel
        } else if hint_char_of(key) is Some {
            ModeKeyAction::TypeHint(hint_char_of(key)->0)
        } else {
            ModeKeyAction::Ignore
        }),
{
    let c = match key {
        Key::Escape => {
            return ModeKeyAction::Cancel;
        },
        Key::Char(c) => c,
        Key::Text(c) => c,
        _ => {
            return ModeKeyAction::Ignore;
        },
    };
    if c == 'a' || c == 's' || c == 'd' || c == 'f' || c == 'g' || c == 'h' || c == 'j' || c
        == 'k' || c == 'l' {
        ModeKeyAction::TypeHint(c)
    } else {
        ModeKeyAction::Ignore
    }
}


/// The keyboard shortcuts that the help dialog lists, by section.
pub open spec fn shortcut_table() -> Seq<(Seq<char>, Seq<(Seq<char>, Seq<char>)>)> {
    seq![
        ("Navigation"@, seq![
            ("h"@, "Scroll left"@),
            ("j"@, "Scroll down"@),
            ("k"@, "Scroll up"@),
            ("l"@, "Scroll right"@),
            ("d"@, "Scroll down further"@),
            ("u"@, "Scroll up further"@),
            ("gg"@, "Jump to top"@),
            ("G"@, "Jump to bottom"@),
        ]),
        ("Page"@, seq![
            ("H"@, "Go back"@),
            ("L"@, "Go forward"@),
            ("r"@, "Reload page"@),
            ("f"@, "Show link hints"@),
            ("+ / ="@, "Increase page zoom by 10%"@),
            ("-"@, "Decrease page zoom by 10%"@),
            ("0"@, "Reset page zoom to 100%"@),
        ]),
        ("Tabs"@, seq![
            ("J"@, "Select previous tab"@),
            ("K"@, "Select next tab"@),
            ("N J / N K"@, "Select multiple tabs away"@),
            ("^"@, "Select first tab"@),
            ("$"@, "Select last tab"@),
            ("O"@, "Open in new tab"@),
            ("x"@, "Close current tab"@),
            ("p"@, "Pin or unpin current tab"@),
            ("gJ"@, "Move current tab left"@),
            ("gK"@, "Move current tab right"@),
            ("N gJ / N gK"@, "Move current tab multiple places"@),
        ]),
        ("Modes and Input"@, seq![
            ("o"@, "Edit current URL"@),
            ("URL: h/l, w/b, 0/$"@, "Move URL cursor"@),
            ("URL: i/a/I/A"@, "Enter URL Insert mode"@),
            ("URL: x/D/C"@, "Delete URL text"@),
            ("i"@, "Enter Insert mode"@),
            (":"@, "Enter Command mode"@),
            ("!"@, "Run a terminal command"@),
            ("Enter"@, "Submit input"@),
            ("Esc"@, "Return to Normal mode"@),
            ("?"@, "Show shortcuts"@),
        ]),
        ("Hint Mode"@, seq![
            ("a s d f g h j k l"@, "Filter and activate hints"@),
            ("Esc"@, "Cancel link hints"@),
        ]),
        ("Commands"@, seq![
            (":open URL, :o URL"@, "Open URL"@),
            (":tabopen URL, :tabnew URL, :to URL"@, "Open tab"@),
            (":close, :c"@, "Close tab"@),
            (":group NAME"@, "Create group with current tab"@),
            (":groupadd NAME"@, "Add current tab to group"@),
            (":groupcollapse [NAME]"@, "Collapse current or named group"@),
            (":groupexpand [NAME]"@, "Expand current or named group"@),
            (":pin [on|off]"@, "Pin or unpin current tab"@),
            (":firefox-import"@, "Import open Firefox tabs"@),
            (":bw status"@, "Show Bitwarden or Vaultwarden status"@),
            (":bw server URL"@, "Configure a Vaultwarden server"@),
            (":bw unlock"@, "Unlock the vault"@),
            (":bw fill"@, "Fill login fields"@),
            (":reload, :r"@, "Reload"@),
            (":back"@, "Back"@),
            (":forward"@, "Forward"@),
            (":quit, :q"@, "Quit"@),
        ]),
    ]
}

/// A section of the shortcut list: its title and its (keys, action) rows.
#[derive(Debug, Clone)]
pub struct ShortcutSection {
    pub title: String,
    pub rows: Vec<(String, String)>,
}

/// The characters of a section.
pub open spec fn section_view(s: ShortcutSection) -> (Seq<char>, Seq<(Seq<char>, Seq<char>)>) {
    (s.title@, s.rows@.map_values(|r: (String, String)| (r.0@, r.1@)))
}

fn row(keys: &str, action: &str) -> (r: (String, String))
    ensures
        r.0@ == keys@,
        r.1@ == action@,
{
    (String::from_str(keys), String::from_str(action))
}

fn navigation_shortcuts() -> (s: ShortcutSection)
    ensures
        section_view(s) == shortcut_table()[0],
{
    let mut rows: Vec<(String, String)> = Vec::new();
    rows.push(row("h", "Scroll left"));
    rows.push(row("j", "Scroll down"));
    rows.push(row("k", "Scroll up"));
    rows.push(row("l", "Scroll right"));
    rows.push(row("d", "Scroll down further"));
    rows.push(row("u", "Scroll up further"));
    rows.push(row("gg", "Jump to top"));
    rows.push(row("G", "Jump to bottom"));
    let s = ShortcutSection { title: String::from_str("Navigation"), rows };
    assert(section_view(s) =~= shortcut_table()[0]);
    s
}

fn page_shortcuts() -> (s: ShortcutSection)
    ensures
        section_view(s) == shortcut_table()[1],
{
    let mut rows: Vec<(String, String)> = Vec::new();
    rows.push(row("H", "Go back"));
    rows.push(row("L", "Go forward"));
    rows.push(row("r", "Reload page"));
    rows.push(row("f", "Show link hints"));
    rows.push(row("+ / =", "Increase page zoom by 10%"));
    rows.push(row("-", "Decrease page zoom by 10%"));
    rows.push(row("0", "Reset page zoom to 100%"));
    let s = ShortcutSection { title: String::from_str("Page"), rows };
    assert(section_view(s) =~= shortcut_table()[1]);
    s
}

fn tabs_shortcuts() -> (s: ShortcutSection)
    ensures
        section_view(s) == shortcut_table()[2],
{
    let mut rows: Vec<(String, String)> = Vec::new();
    rows.push(row("J", "Select previous tab"));
    rows.push(row("K", "Select next tab"));
    rows.push(row("N J / N K", "Select multiple tabs away"));
    rows.push(row("^", "Select first tab"));
    rows.push(row("$", "Select last tab"));
    rows.push(row("O", "Open in new tab"));
    rows.push(row("x", "Close current tab"));
    rows.push(row("p", "Pin or unpin current tab"));
    rows.push(row("gJ", "Move current tab left"));
    rows.push(row("gK", "Move current tab right"));
    rows.push(row("N gJ / N gK", "Move current tab multiple places"));
    let s = ShortcutSection { title: String::from_str("Tabs"), rows };
    assert(section_view(s) =~= shortcut_table()[2]);
    s
}

fn modes_and_input_shortcuts() -> (s: ShortcutSection)
    ensures
        section_view(s) == shortcut_table()[3],
{
    let mut rows: Vec<(String, String)> = Vec::new();
    rows.push(row("o", "Edit current URL"));
    rows.push(row("URL: h/l, w/b, 0/$", "Move URL cursor"));
    rows.push(row("URL: i/a/I/A", "Enter URL Insert mode"));
    rows.push(row("URL: x/D/C", "Delete URL text"));
    rows.push(row("i", "Enter Insert mode"));
    rows.push(row(":", "Enter Command mode"));
    rows.push(row("!", "Run a terminal command"));
    rows.push(row("Enter", "Submit input"));
    rows.push(row("Esc", "Return to Normal mode"));
    rows.push(row("?", "Show shortcuts"));
    let s = ShortcutSection { title: String::from_str("Modes and Input"), rows };
    assert(section_view(s) =~= shortcut_table()[3]);
    s
}

fn hint_mode_shortcuts() -> (s: ShortcutSection)
    ensures
        section_view(s) == shortcut_table()[4],
{
    let mut rows: Vec<(String, String)> = Vec::new();
    rows.push(row("a s d f g h j k l", "Filter and activate hints"));
    rows.push(row("Esc", "Cancel link hints"));
    let s = ShortcutSection { title: String::from_str("Hint Mode"), rows };
    assert(section_view(s) =~= shortcut_table()[4]);
    s
}

fn commands_shortcuts() -> (s: ShortcutSection)
    ensures
        section_view(s) == shortcut_table()[5],
{
    let mut rows: Vec<(String, String)> = Vec::new();
    rows.push(row(":open URL, :o URL", "Open URL"));
    rows.push(row(":tabopen URL, :tabnew URL, :to URL", "Open tab"));
    rows.push(row(":close, :c", "Close tab"));
    rows.push(row(":group NAME", "Create group with current tab"));
    rows.push(row(":groupadd NAME", "Add current tab to group"));
    rows.push(row(":groupcollapse [NAME]", "Collapse current or named group"));
    rows.push(row(":groupexpand [NAME]", "Expand current or named group"));
    rows.push(row(":pin [on|off]", "Pin or unpin current tab"));
    rows.push(row(":firefox-import", "Import open Firefox tabs"));
    rows.push(row(":bw status", "Show Bitwarden or Vaultwarden status"));
    rows.push(row(":bw server URL", "Configure a Vaultwarden server"));
    rows.push(row(":bw unlock", "Unlock the vault"));
    rows.push(row(":bw fill", "Fill login fields"));
    rows.push(row(":reload, :r", "Reload"));
    rows.push(row(":back", "Back"));
    rows.push(row(":forward", "Forward"));
    rows.push(row(":quit, :q", "Quit"));
    let s = ShortcutSection { title: String::from_str("Commands"), rows };
    assert(section_view(s) =~= shortcut_table()[5]);
    s
}

/// The shortcut list that the help dialog shows.
pub fn shortcut_sections() -> (v: Vec<ShortcutSection>)
    ensures
        v@.map_values(|s: ShortcutSection| section_view(s)) == shortcut_table(),
{
    let mut v: Vec<ShortcutSection> = Vec::new();
    v.push(navigation_shortcuts());
    v.push(page_shortcuts());
    v.push(tabs_shortcuts());
    v.push(modes_and_input_shortcuts());
    v.push(hint_mode_shortcuts());
    v.push(commands_shortcuts());
    assert(v@.map_values(|s: ShortcutSection| section_view(s)) =~= shortcut_table());
    v
}

/// The script that scrolls the page smoothly by `x` and `y` pixels.
pub fn scroll_script(x: i32, y: i32) -> (js: String)
    ensures
        js@ == "window.scrollBy({left: "@ + int_decimal(x as int) + ", top: "@ + int_decimal(y as int)
            + ", behavior: 'smooth'})"@,
{
    let js = concat(
        &concat(
            &concat(&concat(&chars_of("window.scrollBy({left: "), &decimal_i32(x)), &chars_of(", top: ")),
            &decimal_i32(y),
        ),
        &chars_of(", behavior: 'smooth'})"),
    );
    string_of(&js)
}
/// Whether two actions scroll by opposite amounts along one axis: the first
/// forward (down or right) by a positive amount, the second back by as much.
pub open spec fn opposite_scrolls(forward: NormalAction, back: NormalAction, vertical: bool) -> bool {
    match (forward, back) {
        (NormalAction::Scroll(fx, fy), NormalAction::Scroll(bx, by)) => if vertical {
            fx == 0 && bx == 0 && fy > 0 && by + fy == 0
        } else {
            fy == 0 && by == 0 && fx > 0 && bx + fx == 0
        },
        _ => false,
    }
}

/// In Normal mode on a page, whatever the count: `j` scrolls down and `k`
/// scrolls up by as much, `l` scrolls right and `h` left by as much, and `d`
/// scrolls a page down and `u` a page up; a page is more than a step.
pub proof fn lemma_scroll_keys_are_opposite(count: u32)
    ensures
        opposite_scrolls(
            normal_key_action(Key::Char('j'), count, true),
            normal_key_action(Key::Char('k'), count, true),
            true,
        ),
        opposite_scrolls(
            normal_key_action(Key::Char('l'), count, true),
            normal_key_action(Key::Char('h'), count, true),
            false,
        ),
        opposite_scrolls(
            normal_key_action(Key::Char('d'), count, true),
            normal_key_action(Key::Char('u'), count, true),
            true,
        ),
        normal_key_action(Key::Char('d'), count, true) matches NormalAction::Scroll(_, page)
            && normal_key_action(Key::Char('j'), count, true) matches NormalAction::Scroll(_, step)
            && page > step,
{
}

} // verus!
