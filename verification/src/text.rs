//! Character-level string utilities with their mathematical meaning.
use vstd::prelude::*;

verus! {

/// The Unicode `White_Space` property: the characters that `char::is_whitespace`
/// (and so `str::trim`) treats as white space.
pub open spec fn is_ws(c: char) -> bool {
    ||| ('\u{9}' <= c && c <= '\u{d}')
    ||| c == ' '
    ||| c == '\u{85}'
    ||| c == '\u{a0}'
    ||| c == '\u{1680}'
    ||| ('\u{2000}' <= c && c <= '\u{200a}')
    ||| c == '\u{2028}'
    ||| c == '\u{2029}'
    ||| c == '\u{202f}'
    ||| c == '\u{205f}'
    ||| c == '\u{3000}'
}

/// `char::is_whitespace`: true exactly for the characters with the Unicode
/// `White_Space` property, which `is_ws` lists.
#[verifier::external_body]
pub(crate) fn is_whitespace(c: char) -> (res: bool)
    ensures
        res == is_ws(c),
{
    c.is_whitespace()
}

/// The characters of a string slice, in order.
pub fn chars_of(s: &str) -> (v: Vec<char>)
    ensures
        v@ == s@,
{
    let n = s.unicode_len();
    let mut v: Vec<char> = Vec::new();
    let mut i: usize = 0;
    while i < n
        invariant
            n == s@.len(),
            i <= n,
            v@ == s@.take(i as int),
        decreases n - i,
    {
        let c = s.get_char(i);
        v.push(c);
        i += 1;
        assert(v@ =~= s@.take(i as int));
    }
    assert(v@ =~= s@);
    v
}

/// `String::push`: appends one character.
#[verifier::external_body]
fn push_char(s: &mut String, c: char)
    ensures
        final(s)@ == old(s)@.push(c),
{
    s.push(c);
}

/// The string made of the given characters.
pub fn string_of(v: &Vec<char>) -> (s: String)
    ensures
        s@ == v@,
{
    let mut s = String::new();
    let mut i: usize = 0;
    while i < v.len()
        invariant
            i <= v.len(),
            s@ == v@.take(i as int),
        decreases v.len() - i,
    {
        push_char(&mut s, v[i]);
        i += 1;
        assert(s@ =~= v@.take(i as int));
    }
    assert(s@ =~= v@);
    s
}


/// True when `p` occurs in `s` starting at index `i`.
pub open spec fn occurs_at(s: Seq<char>, p: Seq<char>, i: int) -> bool {
    0 <= i && i + p.len() <= s.len() && s.subrange(i, i + p.len()) == p
}

/// True when `p` occurs somewhere in `s` (`str::contains`).
pub open spec fn contains_seq(s: Seq<char>, p: Seq<char>) -> bool {
    exists|i: int| occurs_at(s, p, i)
}

/// `s` without its leading white space (`str::trim_start`).
pub open spec fn trim_start(s: Seq<char>) -> Seq<char>
    decreases s.len(),
{
    if s.len() > 0 && is_ws(s[0]) {
        trim_start(s.drop_first())
    } else {
        s
    }
}

/// `s` without its trailing white space (`str::trim_end`).
pub open spec fn trim_end(s: Seq<char>) -> Seq<char>
    decreases s.len(),
{
    if s.len() > 0 && is_ws(s.last()) {
        trim_end(s.drop_last())
    } else {
        s
    }
}

/// `s` without leading and trailing white space (`str::trim`).
pub open spec fn trim(s: Seq<char>) -> Seq<char> {
    trim_end(trim_start(s))
}

proof fn lemma_trim_start_shape(s: Seq<char>)
    ensures
        trim_start(s).len() == 0 || !is_ws(trim_start(s)[0]),
    decreases s.len(),
{
    if s.len() > 0 && is_ws(s[0]) {
        lemma_trim_start_shape(s.drop_first());
    }
}

proof fn lemma_trim_end_shape(s: Seq<char>)
    ensures
        trim_end(s).len() == 0 || !is_ws(trim_end(s).last()),
        trim_end(s).len() <= s.len(),
        trim_end(s) == s.take(trim_end(s).len() as int),
    decreases s.len(),
{
    if s.len() > 0 && is_ws(s.last()) {
        lemma_trim_end_shape(s.drop_last());
        assert(s.drop_last().take(trim_end(s).len() as int) =~= s.take(trim_end(s).len() as int));
    } else {
        assert(s.take(s.len() as int) =~= s);
    }
}

/// Trimming twice is trimming once.
pub proof fn lemma_trim_idempotent(s: Seq<char>)
    ensures
        trim(trim(s)) == trim(s),
{
    let a = trim_start(s);
    lemma_trim_start_shape(s);
    lemma_trim_end_shape(a);
    let b = trim_end(a);
    if b.len() > 0 {
        assert(b[0] == a[0]);
    }
    assert(trim_start(b) == b);
    lemma_trim_end_shape(b);
    if b.len() > 0 {
        assert(trim_end(b) == b);
    } else {
        assert(trim_end(b) == b);
    }
}

/// Every occurrence of `pat` in `s`, scanned from the left without overlap,
/// replaced by `rep` (`str::replace` with a non-empty pattern).
pub open spec fn replace_all(s: Seq<char>, pat: Seq<char>, rep: Seq<char>) -> Seq<char>
    decreases s.len(),
{
    if pat.len() == 0 || s.len() < pat.len() {
        s
    } else if pat.is_prefix_of(s) {
        rep + replace_all(s.skip(pat.len() as int), pat, rep)
    } else {
        seq![s[0]] + replace_all(s.drop_first(), pat, rep)
    }
}

/// The characters of `s` from `i` (inclusive) to `j` (exclusive).
pub fn slice(s: &Vec<char>, i: usize, j: usize) -> (r: Vec<char>)
    requires
        i <= j <= s.len(),
    ensures
        r@ == s@.subrange(i as int, j as int),
{
    let mut r: Vec<char> = Vec::new();
    let mut k: usize = i;
    while k < j
        invariant
            i <= k <= j <= s.len(),
            r@ == s@.subrange(i as int, k as int),
        decreases j - k,
    {
        r.push(s[k]);
        k += 1;
        assert(r@ =~= s@.subrange(i as int, k as int));
    }
    r
}

/// Appends the characters of `w` to `v`.
pub fn push_all(v: &mut Vec<char>, w: &Vec<char>)
    ensures
        final(v)@ == old(v)@ + w@,
{
    let mut k: usize = 0;
    while k < w.len()
        invariant
            k <= w.len(),
            v@ == old(v)@ + w@.take(k as int),
        decreases w.len() - k,
    {
        v.push(w[k]);
        k += 1;
        assert(v@ =~= old(v)@ + w@.take(k as int));
    }
    assert(w@.take(w.len() as int) =~= w@);
}

/// The concatenation of two character sequences.
pub fn concat(a: &Vec<char>, b: &Vec<char>) -> (r: Vec<char>)
    ensures
        r@ == a@ + b@,
{
    let mut r = a.clone();
    assert(r@ == a@);
    push_all(&mut r, b);
    r
}

/// Whether two character sequences are equal.
pub fn seq_eq(a: &Vec<char>, b: &Vec<char>) -> (r: bool)
    ensures
        r == (a@ == b@),
{
    if a.len() != b.len() {
        return false;
    }
    let mut k: usize = 0;
    while k < a.len()
        invariant
            a.len() == b.len(),
            k <= a.len(),
            a@.take(k as int) == b@.take(k as int),
        decreases a.len() - k,
    {
        if a[k] != b[k] {
            assert(a@[k as int] != b@[k as int]);
            return false;
        }
        k += 1;
        assert(a@.take(k as int) =~= b@.take(k as int));
    }
    assert(a@ =~= a@.take(k as int));
    assert(b@ =~= b@.take(k as int));
    true
}

/// Whether `p` occurs in `s` at index `i`.
pub fn occurs_at_exec(s: &Vec<char>, p: &Vec<char>, i: usize) -> (r: bool)
    ensures
        r == occurs_at(s@, p@, i as int),
{
    if i > s.len() || p.len() > s.len() - i {
        return false;
    }
    let mut k: usize = 0;
    while k < p.len()
        invariant
            i + p.len() <= s.len(),
            k <= p.len(),
            s@.subrange(i as int, i + k) == p@.take(k as int),
        decreases p.len() - k,
    {
        if s[i + k] != p[k] {
            assert(s@.subrange(i as int, i + p.len())[k as int] != p@[k as int]);
            return false;
        }
        k += 1;
        assert(s@.subrange(i as int, i + k) =~= p@.take(k as int));
    }
    assert(p@ =~= p@.take(k as int));
    true
}

/// Whether `s` begins with `p` (`str::starts_with`).
pub fn starts_with(s: &Vec<char>, p: &Vec<char>) -> (r: bool)
    ensures
        r == p@.is_prefix_of(s@),
{
    let r = occurs_at_exec(s, p, 0);
    assert(r == p@.is_prefix_of(s@)) by {
        if p@.len() <= s@.len() {
            assert(s@.subrange(0, 0 + p@.len() as int) == s@.subrange(0, p@.len() as int));
        }
    }
    r
}

/// The first index where `p` occurs in `s` (`str::find`).
pub fn find_seq(s: &Vec<char>, p: &Vec<char>) -> (r: Option<usize>)
    ensures
        r matches Some(i) ==> occurs_at(s@, p@, i as int) && forall|j: int|
            0 <= j < i ==> !occurs_at(s@, p@, j),
        r is None ==> !contains_seq(s@, p@),
{
    if p.len() > s.len() {
        assert forall|j: int| !occurs_at(s@, p@, j) by {}
        return None;
    }
    let last = s.len() - p.len();
    let mut i: usize = 0;
    while i < last
        invariant
            i <= last,
            last + p.len() == s.len(),
            forall|j: int| 0 <= j < i ==> !occurs_at(s@, p@, j),
        decreases last - i,
    {
        if occurs_at_exec(s, p, i) {
            return Some(i);
        }
        i += 1;
    }
    if occurs_at_exec(s, p, last) {
        return Some(last);
    }
    assert forall|j: int| !occurs_at(s@, p@, j) by {
        if j > last {
            assert(j + p@.len() > s@.len());
        }
    }
    None
}

/// Whether `p` occurs in `s` (`str::contains`).
pub fn contains(s: &Vec<char>, p: &Vec<char>) -> (r: bool)
    ensures
        r == contains_seq(s@, p@),
{
    match find_seq(s, p) {
        Some(_) => true,
        None => false,
    }
}

/// The first index of the character `c` in `s`.
pub fn find_char(s: &Vec<char>, c: char) -> (r: Option<usize>)
    ensures
        r matches Some(i) ==> i < s@.len() && s@[i as int] == c && forall|j: int|
            0 <= j < i ==> s@[j] != c,
        r is None ==> !s@.contains(c),
{
    let mut i: usize = 0;
    while i < s.len()
        invariant
            i <= s.len(),
            forall|j: int| 0 <= j < i ==> s@[j] != c,
        decreases s.len() - i,
    {
        if s[i] == c {
            return Some(i);
        }
        i += 1;
    }
    None
}

/// The first index of a white-space character in `s`.
pub fn find_ws(s: &Vec<char>) -> (r: Option<usize>)
    ensures
        r matches Some(i) ==> i < s@.len() && is_ws(s@[i as int]) && forall|j: int|
            0 <= j < i ==> !is_ws(s@[j]),
        r is None ==> forall|j: int| 0 <= j < s@.len() ==> !is_ws(s@[j]),
{
    let mut i: usize = 0;
    while i < s.len()
        invariant
            i <= s.len(),
            forall|j: int| 0 <= j < i ==> !is_ws(s@[j]),
        decreases s.len() - i,
    {
        if is_whitespace(s[i]) {
            return Some(i);
        }
        i += 1;
    }
    None
}

proof fn lemma_trim_start_skip(s: Seq<char>, i: int)
    requires
        0 <= i <= s.len(),
        forall|j: int| 0 <= j < i ==> is_ws(s[j]),
    ensures
        trim_start(s) == trim_start(s.skip(i)),
    decreases i,
{
    if i > 0 {
        lemma_trim_start_skip(s.drop_first(), i - 1);
        assert(s.drop_first().skip(i - 1) =~= s.skip(i));
    } else {
        assert(s.skip(0) =~= s);
    }
}

/// The number of leading white-space characters of `s`.
pub fn leading_ws(s: &Vec<char>) -> (i: usize)
    ensures
        i <= s.len(),
        trim_start(s@) == s@.skip(i as int),
{
    let mut i: usize = 0;
    while i < s.len() && is_whitespace(s[i])
        invariant
            i <= s.len(),
            forall|j: int| 0 <= j < i ==> is_ws(s@[j]),
        decreases s.len() - i,
    {
        i += 1;
    }
    proof {
        lemma_trim_start_skip(s@, i as int);
    }
    i
}

proof fn lemma_trim_end_take(s: Seq<char>, j: int)
    requires
        0 <= j <= s.len(),
        forall|k: int| j <= k < s.len() ==> is_ws(s[k]),
    ensures
        trim_end(s) == trim_end(s.take(j)),
    decreases s.len() - j,
{
    if j < s.len() {
        lemma_trim_end_take(s.drop_last(), j);
        assert(s.drop_last().take(j) =~= s.take(j));
    } else {
        assert(s.take(j) =~= s);
    }
}

/// The length of `s` without its trailing white space.
pub fn end_without_ws(s: &Vec<char>) -> (j: usize)
    ensures
        j <= s.len(),
        trim_end(s@) == s@.take(j as int),
{
    let mut j: usize = s.len();
    while j > 0 && is_whitespace(s[j - 1])
        invariant
            j <= s.len(),
            forall|k: int| j <= k < s@.len() ==> is_ws(s@[k]),
        decreases j,
    {
        j -= 1;
    }
    proof {
        lemma_trim_end_take(s@, j as int);
    }
    j
}

/// `s` without leading white space.
pub fn trim_start_chars(s: &Vec<char>) -> (r: Vec<char>)
    ensures
        r@ == trim_start(s@),
{
    let i = leading_ws(s);
    slice(s, i, s.len())
}

/// `s` without trailing white space.
pub fn trim_end_chars(s: &Vec<char>) -> (r: Vec<char>)
    ensures
        r@ == trim_end(s@),
{
    let j = end_without_ws(s);
    slice(s, 0, j)
}

/// `s` without leading and trailing white space.
pub fn trim_chars(s: &Vec<char>) -> (r: Vec<char>)
    ensures
        r@ == trim(s@),
{
    let t = trim_start_chars(s);
    trim_end_chars(&t)
}

proof fn lemma_replace_step(s: Seq<char>, pat: Seq<char>, rep: Seq<char>, i: int)
    requires
        pat.len() > 0,
        0 <= i < s.len(),
    ensures
        occurs_at(s, pat, i) ==> replace_all(s.skip(i), pat, rep) == rep + replace_all(
            s.skip(i + pat.len()),
            pat,
            rep,
        ),
        !occurs_at(s, pat, i) ==> replace_all(s.skip(i), pat, rep) == seq![s[i]] + replace_all(
            s.skip(i + 1),
            pat,
            rep,
        ),
{
    let t = s.skip(i);
    assert(t.drop_first() =~= s.skip(i + 1));
    if i + pat.len() <= s.len() {
        assert(t.skip(pat.len() as int) =~= s.skip(i + pat.len()));
        assert(occurs_at(s, pat, i) <==> pat.is_prefix_of(t)) by {
            assert(t.subrange(0, pat.len() as int) =~= s.subrange(i, i + pat.len()));
        }
    } else {
        assert(replace_all(t.drop_first(), pat, rep) == t.drop_first());
        assert(t =~= seq![s[i]] + t.drop_first());
    }
}

/// `s` with every occurrence of the non-empty pattern `pat` replaced by `rep`.
pub fn replace(s: &Vec<char>, pat: &Vec<char>, rep: &Vec<char>) -> (r: Vec<char>)
    requires
        pat.len() > 0,
    ensures
        r@ == replace_all(s@, pat@, rep@),
{
    let mut out: Vec<char> = Vec::new();
    let mut i: usize = 0;
    assert(s@.skip(0) =~= s@);
    while i < s.len()
        invariant
            pat.len() > 0,
            i <= s.len(),
            out@ + replace_all(s@.skip(i as int), pat@, rep@) == replace_all(s@, pat@, rep@),
        decreases s.len() - i,
    {
        proof {
            lemma_replace_step(s@, pat@, rep@, i as int);
        }
        if occurs_at_exec(s, pat, i) {
            let ghost before = out@;
            push_all(&mut out, rep);
            assert(out@ + replace_all(s@.skip(i + pat.len()), pat@, rep@) =~= before + (rep@
                + replace_all(s@.skip(i + pat.len()), pat@, rep@)));
            i = i + pat.len();
        } else {
            let ghost before = out@;
            out.push(s[i]);
            assert(out@ + replace_all(s@.skip(i + 1), pat@, rep@) =~= before + (seq![s@[i as int]]
                + replace_all(s@.skip(i + 1), pat@, rep@)));
            i = i + 1;
        }
    }
    assert(s@.skip(i as int) =~= Seq::<char>::empty());
    assert(out@ + Seq::<char>::empty() =~= out@);
    out
}


/// The decimal digit character for `d < 10`.
pub open spec fn digit(d: nat) -> char {
    seq!['0', '1', '2', '3', '4', '5', '6', '7', '8', '9'][d as int]
}

/// The decimal representation of a natural number, without leading zeros.
pub open spec fn decimal(n: nat) -> Seq<char>
    decreases n,
{
    if n < 10 {
        seq![digit(n)]
    } else {
        decimal(n / 10).push(digit(n % 10))
    }
}

/// The decimal representation of an integer, with `-` before a negative one
/// (what `to_string` gives for Rust's integer types).
pub open spec fn int_decimal(n: int) -> Seq<char> {
    if n < 0 {
        seq!['-'] + decimal((-n) as nat)
    } else {
        decimal(n as nat)
    }
}

/// An ASCII decimal digit.
pub open spec fn is_digit(c: char) -> bool {
    '0' <= c && c <= '9'
}

/// The value of an ASCII digit.
pub open spec fn digit_value(c: char) -> nat {
    (c as int - '0' as int) as nat
}

/// The value of a sequence of decimal digits.
pub open spec fn digits_value(s: Seq<char>) -> nat
    decreases s.len(),
{
    if s.len() == 0 {
        0
    } else {
        digits_value(s.drop_last()) * 10 + digit_value(s.last())
    }
}

/// A non-empty sequence of decimal digits.
pub open spec fn all_digits(s: Seq<char>) -> bool {
    s.len() > 0 && forall|i: int| 0 <= i < s.len() ==> is_digit(s[i])
}

/// The integer that `s` writes: an optional `+` or `-` followed by at least
/// one decimal digit.
pub open spec fn parse_int(s: Seq<char>) -> Option<int> {
    if s.len() > 0 && s[0] == '-' && all_digits(s.drop_first()) {
        Some(-digits_value(s.drop_first()))
    } else if s.len() > 0 && s[0] == '+' && all_digits(s.drop_first()) {
        Some(digits_value(s.drop_first()) as int)
    } else if all_digits(s) {
        Some(digits_value(s) as int)
    } else {
        None
    }
}

/// What `str::parse::<i32>` accepts and returns.
pub open spec fn parse_i32(s: Seq<char>) -> Option<i32> {
    match parse_int(s) {
        Some(v) => if i32::MIN <= v <= i32::MAX {
            Some(v as i32)
        } else {
            None
        },
        None => None,
    }
}

/// The digit character for `d`.
pub fn digit_char(d: u64) -> (c: char)
    requires
        d < 10,
    ensures
        c == digit(d as nat),
{
    match d {
        0 => '0',
        1 => '1',
        2 => '2',
        3 => '3',
        4 => '4',
        5 => '5',
        6 => '6',
        7 => '7',
        8 => '8',
        _ => '9',
    }
}

/// The decimal representation of `n`.
pub fn decimal_u128(n: u128) -> (r: Vec<char>)
    ensures
        r@ == decimal(n as nat),
    decreases n,
{
    if n < 10 {
        let mut r: Vec<char> = Vec::new();
        r.push(digit_char(n as u64));
        assert(r@ =~= seq![digit(n as nat)]);
        r
    } else {
        let mut r = decimal_u128(n / 10);
        r.push(digit_char((n % 10) as u64));
        r
    }
}

/// The decimal representation of `n`.
pub fn decimal_u64(n: u64) -> (r: Vec<char>)
    ensures
        r@ == decimal(n as nat),
{
    decimal_u128(n as u128)
}

/// The decimal representation of `n`, as `i32::to_string` writes it.
pub fn decimal_i32(n: i32) -> (r: Vec<char>)
    ensures
        r@ == int_decimal(n as int),
{
    if n < 0 {
        let m: i64 = n as i64;
        let mut r: Vec<char> = Vec::new();
        r.push('-');
        let digits = decimal_u64((-m) as u64);
        push_all(&mut r, &digits);
        r
    } else {
        decimal_u64(n as u64)
    }
}

proof fn lemma_digits_value_prefix(s: Seq<char>, k: int)
    requires
        0 <= k <= s.len(),
    ensures
        digits_value(s.take(k)) <= digits_value(s),
    decreases s.len() - k,
{
    if k < s.len() {
        lemma_digits_value_prefix(s, k + 1);
        assert(s.take(k + 1).drop_last() =~= s.take(k));
    } else {
        assert(s.take(k) =~= s);
    }
}

/// The value of the digits `s[from..]` if it is at most `i32::MAX + 1`.
fn digits_value_bounded(s: &Vec<char>, from: usize) -> (r: Option<u64>)
    requires
        from < s.len(),
        forall|i: int| from <= i < s.len() ==> is_digit(s@[i]),
    ensures
        r matches Some(v) ==> v == digits_value(s@.skip(from as int)) && v <= 2147483648,
        r is None ==> digits_value(s@.skip(from as int)) > 2147483648,
{
    let ghost t = s@.skip(from as int);
    let mut v: u64 = 0;
    let mut k: usize = from;
    assert(t.take(0) =~= Seq::<char>::empty());
    while k < s.len()
        invariant
            from <= k <= s.len(),
            t == s@.skip(from as int),
            forall|i: int| from <= i < s.len() ==> is_digit(s@[i]),
            v == digits_value(t.take(k - from)),
            v <= 2147483648,
        decreases s.len() - k,
    {
        let c = s[k];
        let d: u64 = (c as u32 - '0' as u32) as u64;
        assert(t.take(k + 1 - from).drop_last() =~= t.take(k - from));
        v = v * 10 + d;
        k += 1;
        if v > 2147483648 {
            proof {
                lemma_digits_value_prefix(t, k - from);
            }
            return None;
        }
    }
    assert(t.take(k - from) =~= t);
    Some(v)
}

/// `str::parse::<i32>` on the characters `s`.
pub fn parse_i32_chars(s: &Vec<char>) -> (r: Option<i32>)
    ensures
        r == parse_i32(s@),
{
    if s.len() == 0 {
        return None;
    }
    let negative = s[0] == '-';
    let from: usize = if s[0] == '-' || s[0] == '+' {
        1
    } else {
        0
    };
    if from >= s.len() {
        assert(!all_digits(s@.drop_first()));
        assert(!is_digit(s@[0]));
        return None;
    }
    let mut k: usize = from;
    while k < s.len()
        invariant
            from <= k <= s.len(),
            from <= 1,
            s.len() > 0,
            from == 1 <==> (s@[0] == '-' || s@[0] == '+'),
            forall|i: int| from <= i < k ==> is_digit(s@[i]),
        decreases s.len() - k,
    {
        if !(s[k] >= '0' && s[k] <= '9') {
            assert(from == 1 ==> !is_digit(s@[0]));
            assert(!all_digits(s@.skip(from as int))) by {
                assert(s@.skip(from as int)[k - from] == s@[k as int]);
            }
            assert(s@.skip(0) =~= s@);
            assert(s@.skip(1) =~= s@.drop_first());
            return None;
        }
        k += 1;
    }
    assert(all_digits(s@.skip(from as int)));
    assert(s@.skip(0) =~= s@);
    assert(s@.skip(1) =~= s@.drop_first());
    match digits_value_bounded(s, from) {
        None => None,
        Some(v) => {
            if negative {
                Some((0 - (v as i64)) as i32)
            } else if v <= 2147483647 {
                Some(v as i32)
            } else {
                None
            }
        },
    }
}

/// Each digit character is an ASCII digit of the right value.
pub proof fn lemma_digit(d: nat)
    requires
        d < 10,
    ensures
        is_digit(digit(d)),
        digit_value(digit(d)) == d,
{
    let t = seq!['0', '1', '2', '3', '4', '5', '6', '7', '8', '9'];
    assert(t[0] == '0' && t[1] == '1' && t[2] == '2' && t[3] == '3' && t[4] == '4');
    assert(t[5] == '5' && t[6] == '6' && t[7] == '7' && t[8] == '8' && t[9] == '9');
}

/// The digits of `decimal(n)` are decimal digits whose value is `n`.
pub proof fn lemma_decimal_value(n: nat)
    ensures
        all_digits(decimal(n)),
        digits_value(decimal(n)) == n,
    decreases n,
{
    if n < 10 {
        lemma_digit(n);
        assert(seq![digit(n)].drop_last() =~= Seq::<char>::empty());
        assert(digits_value(seq![digit(n)]) == digits_value(Seq::<char>::empty()) * 10
            + digit_value(digit(n)));
    } else {
        lemma_decimal_value(n / 10);
        lemma_digit(n % 10);
        let d = decimal(n / 10).push(digit(n % 10));
        assert(d.drop_last() =~= decimal(n / 10));
        assert(forall|i: int| 0 <= i < d.len() - 1 ==> d[i] == decimal(n / 10)[i]);
        assert(d.last() == digit(n % 10));
        assert(digits_value(d) == digits_value(decimal(n / 10)) * 10 + digit_value(digit(n % 10)));
        assert(digits_value(decimal(n)) == (n / 10) * 10 + n % 10);
    }
}

/// The characters of `int_decimal(n)` are digits and perhaps a leading `-`.
pub proof fn lemma_int_decimal_chars(n: int)
    ensures
        forall|k: int| 0 <= k < int_decimal(n).len() ==> #[trigger] int_decimal(n)[k] == '-' || is_digit(
            int_decimal(n)[k],
        ),
{
    if n < 0 {
        let m = (-n) as nat;
        lemma_decimal_value(m);
        assert forall|k: int| 0 <= k < int_decimal(n).len() implies #[trigger] int_decimal(n)[k] == '-'
            || is_digit(int_decimal(n)[k]) by {
            if k > 0 {
                assert(int_decimal(n)[k] == decimal(m)[k - 1]);
            }
        }
    } else {
        lemma_decimal_value(n as nat);
    }
}

/// Different numbers have different decimal representations.
pub proof fn lemma_decimal_injective(a: nat, b: nat)
    requires
        decimal(a) == decimal(b),
    ensures
        a == b,
{
    lemma_decimal_value(a);
    lemma_decimal_value(b);
}

/// Parsing the decimal representation of an `i32` gives the number back.
pub proof fn lemma_parse_i32_decimal(n: i32)
    ensures
        parse_i32(int_decimal(n as int)) == Some(n),
{
    if n < 0 {
        let m = (-n) as nat;
        lemma_decimal_value(m);
        let s = seq!['-'] + decimal(m);
        assert(s.drop_first() =~= decimal(m));
    } else {
        lemma_decimal_value(n as nat);
        assert(decimal(n as nat)[0] != '-' && decimal(n as nat)[0] != '+');
    }
}


/// `char::is_alphanumeric`: the Unicode `Alphabetic` or `Numeric` property.
pub uninterp spec fn char_is_alphanumeric(c: char) -> bool;

/// `char::is_alphanumeric`. Its result is named `char_is_alphanumeric`; on
/// ASCII characters it holds exactly for letters and digits. What it gives on
/// other characters follows the Unicode tables and is not stated here.
#[verifier::external_body]
pub(crate) fn is_alphanumeric(c: char) -> (res: bool)
    ensures
        res == char_is_alphanumeric(c),
        (c as u32) < 128 ==> (res <==> ('a' <= c <= 'z' || 'A' <= c <= 'Z' || '0' <= c <= '9')),
{
    c.is_alphanumeric()
}


/// `s` without all copies of `c` at its start (`str::trim_start_matches`).
pub open spec fn strip_leading(s: Seq<char>, c: char) -> Seq<char>
    decreases s.len(),
{
    if s.len() > 0 && s[0] == c {
        strip_leading(s.drop_first(), c)
    } else {
        s
    }
}

/// `s` without all copies of `c` at its end (`str::trim_end_matches`).
pub open spec fn strip_trailing(s: Seq<char>, c: char) -> Seq<char>
    decreases s.len(),
{
    if s.len() > 0 && s.last() == c {
        strip_trailing(s.drop_last(), c)
    } else {
        s
    }
}

/// The part of `s` before the first `c`, or all of `s`.
pub open spec fn before_char(s: Seq<char>, c: char) -> Seq<char>
    decreases s.len(),
{
    if s.len() == 0 {
        s
    } else if s[0] == c {
        Seq::<char>::empty()
    } else {
        seq![s[0]] + before_char(s.drop_first(), c)
    }
}

/// The part of `s` after the last `c`, or all of `s`.
pub open spec fn after_last_char(s: Seq<char>, c: char) -> Seq<char>
    decreases s.len(),
{
    if s.len() == 0 {
        s
    } else if s.last() == c {
        Seq::<char>::empty()
    } else {
        after_last_char(s.drop_last(), c).push(s.last())
    }
}

/// An ASCII upper-case letter in lower case; other characters unchanged.
pub open spec fn ascii_lower(c: char) -> char {
    if 'A' <= c && c <= 'Z' {
        ((c as u32) + 32) as char
    } else {
        c
    }
}

/// `s` with ASCII letters in lower case (`str::to_ascii_lowercase`).
pub open spec fn ascii_lowercase(s: Seq<char>) -> Seq<char> {
    s.map_values(|c: char| ascii_lower(c))
}

proof fn lemma_strip_leading_skip(s: Seq<char>, c: char, i: int)
    requires
        0 <= i <= s.len(),
        forall|j: int| 0 <= j < i ==> s[j] == c,
    ensures
        strip_leading(s, c) == strip_leading(s.skip(i), c),
    decreases i,
{
    if i > 0 {
        lemma_strip_leading_skip(s.drop_first(), c, i - 1);
        assert(s.drop_first().skip(i - 1) =~= s.skip(i));
    } else {
        assert(s.skip(0) =~= s);
    }
}

/// `s` without the copies of `c` at its start.
pub fn strip_leading_chars(s: &Vec<char>, c: char) -> (r: Vec<char>)
    ensures
        r@ == strip_leading(s@, c),
{
    let mut i: usize = 0;
    while i < s.len() && s[i] == c
        invariant
            i <= s.len(),
            forall|j: int| 0 <= j < i ==> s@[j] == c,
        decreases s.len() - i,
    {
        i += 1;
    }
    proof {
        lemma_strip_leading_skip(s@, c, i as int);
    }
    slice(s, i, s.len())
}

proof fn lemma_strip_trailing_take(s: Seq<char>, c: char, j: int)
    requires
        0 <= j <= s.len(),
        forall|k: int| j <= k < s.len() ==> s[k] == c,
    ensures
        strip_trailing(s, c) == strip_trailing(s.take(j), c),
    decreases s.len() - j,
{
    if j < s.len() {
        lemma_strip_trailing_take(s.drop_last(), c, j);
        assert(s.drop_last().take(j) =~= s.take(j));
    } else {
        assert(s.take(j) =~= s);
    }
}

/// `s` without the copies of `c` at its end.
pub fn strip_trailing_chars(s: &Vec<char>, c: char) -> (r: Vec<char>)
    ensures
        r@ == strip_trailing(s@, c),
{
    let mut j: usize = s.len();
    while j > 0 && s[j - 1] == c
        invariant
            j <= s.len(),
            forall|k: int| j <= k < s@.len() ==> s@[k] == c,
        decreases j,
    {
        j -= 1;
    }
    proof {
        lemma_strip_trailing_take(s@, c, j as int);
    }
    slice(s, 0, j)
}

proof fn lemma_before_char(s: Seq<char>, c: char, i: int)
    requires
        0 <= i <= s.len(),
        forall|j: int| 0 <= j < i ==> s[j] != c,
        i == s.len() || s[i] == c,
    ensures
        before_char(s, c) == s.take(i),
    decreases i,
{
    if i > 0 {
        lemma_before_char(s.drop_first(), c, i - 1);
        assert(seq![s[0]] + s.drop_first().take(i - 1) =~= s.take(i));
    } else if s.len() == 0 {
        assert(s.take(0) =~= s);
    } else {
        assert(s.take(0) =~= Seq::<char>::empty());
    }
}

/// The part of `s` before the first `c`, or all of `s`.
pub fn before_char_chars(s: &Vec<char>, c: char) -> (r: Vec<char>)
    ensures
        r@ == before_char(s@, c),
{
    let end = match find_char(s, c) {
        Some(i) => i,
        None => s.len(),
    };
    proof {
        lemma_before_char(s@, c, end as int);
    }
    slice(s, 0, end)
}

proof fn lemma_after_last_char(s: Seq<char>, c: char, j: int)
    requires
        0 <= j <= s.len(),
        forall|k: int| j <= k < s.len() ==> s[k] != c,
        j == 0 || s[j - 1] == c,
    ensures
        after_last_char(s, c) == s.skip(j),
    decreases s.len() - j,
{
    if j < s.len() {
        lemma_after_last_char(s.drop_last(), c, j);
        assert(s.drop_last().skip(j).push(s.last()) =~= s.skip(j));
    } else {
        assert(s.skip(j) =~= Seq::<char>::empty());
        if s.len() > 0 {
            assert(s.last() == c);
        }
    }
}

/// The part of `s` after the last `c`, or all of `s`.
pub fn after_last_char_chars(s: &Vec<char>, c: char) -> (r: Vec<char>)
    ensures
        r@ == after_last_char(s@, c),
{
    let mut j: usize = s.len();
    while j > 0 && s[j - 1] != c
        invariant
            j <= s.len(),
            forall|k: int| j <= k < s@.len() ==> s@[k] != c,
        decreases j,
    {
        j -= 1;
    }
    proof {
        lemma_after_last_char(s@, c, j as int);
    }
    slice(s, j, s.len())
}

/// `s` with ASCII letters in lower case.
pub fn to_ascii_lowercase(s: &Vec<char>) -> (r: Vec<char>)
    ensures
        r@ == ascii_lowercase(s@),
{
    let mut r: Vec<char> = Vec::new();
    let mut i: usize = 0;
    while i < s.len()
        invariant
            i <= s.len(),
            r@ == ascii_lowercase(s@.take(i as int)),
        decreases s.len() - i,
    {
        let c = s[i];
        let lower = if 'A' <= c && c <= 'Z' {
            ((c as u8) + 32) as char
        } else {
            c
        };
        r.push(lower);
        i += 1;
        assert(r@ =~= ascii_lowercase(s@.take(i as int)));
    }
    assert(s@.take(i as int) =~= s@);
    r
}


/// The part of `s` after the first occurrence of the non-empty pattern `p`,
/// if `p` occurs (the second half of `str::split_once`).
pub open spec fn after_first(s: Seq<char>, p: Seq<char>) -> Option<Seq<char>>
    decreases s.len(),
{
    if p.len() == 0 {
        None
    } else if p.is_prefix_of(s) {
        Some(s.skip(p.len() as int))
    } else if s.len() == 0 {
        None
    } else {
        after_first(s.drop_first(), p)
    }
}

/// The part of `s` before the first occurrence of the non-empty pattern `p`,
/// if `p` occurs (the first half of `str::split_once`).
pub open spec fn before_first(s: Seq<char>, p: Seq<char>) -> Option<Seq<char>>
    decreases s.len(),
{
    if p.len() == 0 {
        None
    } else if p.is_prefix_of(s) {
        Some(Seq::<char>::empty())
    } else if s.len() == 0 {
        None
    } else {
        match before_first(s.drop_first(), p) {
            Some(b) => Some(seq![s[0]] + b),
            None => None,
        }
    }
}

proof fn lemma_first_occurrence(s: Seq<char>, p: Seq<char>, i: int)
    requires
        p.len() > 0,
        occurs_at(s, p, i),
        forall|j: int| 0 <= j < i ==> !occurs_at(s, p, j),
    ensures
        after_first(s, p) == Some(s.skip(i + p.len())),
        before_first(s, p) == Some(s.take(i)),
    decreases i,
{
    if i == 0 {
        assert(s.subrange(0, p.len() as int) == p);
        assert(p.is_prefix_of(s));
        assert(s.take(0) =~= Seq::<char>::empty());
    } else {
        assert(!occurs_at(s, p, 0));
        assert(!p.is_prefix_of(s));
        let t = s.drop_first();
        assert forall|j: int| 0 <= j < i - 1 implies !occurs_at(t, p, j) by {
            assert(!occurs_at(s, p, j + 1));
            if j + p.len() <= t.len() {
                assert(t.subrange(j, j + p.len()) =~= s.subrange(j + 1, j + 1 + p.len()));
            }
        }
        assert(t.subrange(i - 1, i - 1 + p.len()) =~= s.subrange(i, i + p.len()));
        lemma_first_occurrence(t, p, i - 1);
        assert(t.skip(i - 1 + p.len()) =~= s.skip(i + p.len()));
        assert(seq![s[0]] + t.take(i - 1) =~= s.take(i));
    }
}

proof fn lemma_no_occurrence(s: Seq<char>, p: Seq<char>)
    requires
        p.len() > 0,
        !contains_seq(s, p),
    ensures
        after_first(s, p) is None,
        before_first(s, p) is None,
    decreases s.len(),
{
    assert(!occurs_at(s, p, 0));
    if p.len() <= s.len() {
        assert(s.subrange(0, p.len() as int) =~= s.subrange(0, 0 + p.len() as int));
    }
    if s.len() > 0 {
        let t = s.drop_first();
        assert forall|j: int| !occurs_at(t, p, j) by {
            assert(!occurs_at(s, p, j + 1));
            if 0 <= j && j + p.len() <= t.len() {
                assert(t.subrange(j, j + p.len()) =~= s.subrange(j + 1, j + 1 + p.len()));
            }
        }
        lemma_no_occurrence(t, p);
    }
}

/// `str::split_once` with a non-empty pattern: the text before and after the
/// first occurrence of `p`.
pub fn split_once(s: &Vec<char>, p: &Vec<char>) -> (r: Option<(Vec<char>, Vec<char>)>)
    requires
        p.len() > 0,
    ensures
        r matches Some((a, b)) ==> before_first(s@, p@) == Some(a@) && after_first(s@, p@)
            == Some(b@),
        r is None ==> before_first(s@, p@) is None && after_first(s@, p@) is None,
{
    match find_seq(s, p) {
        Some(i) => {
            proof {
                lemma_first_occurrence(s@, p@, i as int);
            }
            assert(occurs_at(s@, p@, i as int));
            assert(i + p.len() <= s.len());
            Some((slice(s, 0, i), slice(s, i + p.len(), s.len())))
        },
        None => {
            proof {
                lemma_no_occurrence(s@, p@);
            }
            None
        },
    }
}

} // verus!
