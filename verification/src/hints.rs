//! Link hints: the scripts that label the page's clickable elements, filter
//! the labels as hint keys are typed and report what was activated, and
//! reading that report.
use vstd::prelude::*;
use crate::text::{
    chars_of, concat, decimal, decimal_u128, digit, digit_char, int_decimal, parse_i32,
    parse_i32_chars, replace, replace_all, seq_eq, slice, string_of,
};

verus! {

/// The script that labels the visible clickable elements with hints;
/// `__QUST_HINT_SIZE__` and `__QUST_HINT_ALPHA__` stand for the label size and
/// background opacity.
pub const INJECT_HINTS_JS: &'static str = r#"
(function() {
    document.querySelectorAll('.qust-hint').forEach(el => el.remove());

    const CHARS = 'asdfghjkl';
    const topLayer = (function() {
        if (document.fullscreenElement) {
            return document.fullscreenElement;
        }
        const dialogs = document.querySelectorAll('dialog[open]');
        for (let i = dialogs.length - 1; i >= 0; i--) {
            try {
                if (dialogs[i].matches(':modal')) {
                    return dialogs[i];
                }
            } catch (error) {
                break;
            }
        }
        return null;
    })();
    const root = topLayer || document;
    const container = topLayer || document.body;
    const elements = root.querySelectorAll('a, button, input, select, textarea, iframe, [onclick], [role="button"], [role="link"], [role="menuitem"], [role="option"]');
    const visible = [];

    for (const candidate of elements) {
        let el = candidate;
        let rect = el.getBoundingClientRect();
        if ((rect.width <= 0 || rect.height <= 0) &&
            el instanceof HTMLInputElement && el.labels && el.labels.length > 0) {
            el = el.labels[0];
            rect = el.getBoundingClientRect();
        }
        if (rect.width > 0 && rect.height > 0 &&
            rect.top >= 0 && rect.top < window.innerHeight &&
            rect.left >= 0 && rect.left < window.innerWidth) {
            const frameDescription = el.tagName === 'IFRAME'
                ? `${el.src || ''} ${el.title || ''} ${el.name || ''}`
                : '';
            const isChallengeFrame = /challenges\.cloudflare\.com|turnstile|captcha/i.test(frameDescription);
            const clickX = isChallengeFrame
                ? rect.left + Math.min(28, rect.width / 2)
                : rect.left + rect.width / 2;
            const clickY = rect.top + rect.height / 2;
            const useNativeClick = isChallengeFrame || el.matches('input, select, textarea, iframe');
            visible.push({ el, rect, clickX, clickY, useNativeClick });
        }
    }

    let labelWidth = 1;
    let capacity = CHARS.length;
    while (capacity < visible.length) {
        labelWidth++;
        capacity *= CHARS.length;
    }

    function generateLabel(index) {
        let label = '';
        for (let position = 0; position < labelWidth; position++) {
            label = CHARS[index % CHARS.length] + label;
            index = Math.floor(index / CHARS.length);
        }
        return label;
    }

    const hints = [];
    for (let i = 0; i < visible.length; i++) {
        const { el, rect, clickX, clickY, useNativeClick } = visible[i];
        const label = generateLabel(i);

        const hint = document.createElement('div');
        hint.className = 'qust-hint';
        hint.dataset.label = label;
        hint.textContent = label;
        hint.style.cssText = `
            position: fixed;
            left: ${rect.left}px;
            top: ${rect.top}px;
            z-index: 2147483647;
            background: rgba(241, 196, 15, __QUST_HINT_ALPHA__);
            color: #000;
            font-size: __QUST_HINT_SIZE__px;
            font-weight: bold;
            font-family: monospace;
            padding: 1px 4px;
            border-radius: 3px;
            border: 1px solid #000;
            pointer-events: none;
        `;
        container.appendChild(hint);
        hints.push({ label, el, clickX, clickY, useNativeClick });
    }

    window.__qust_hints = hints;
    return visible.length.toString();
})()
"#;

/// The script that removes the hint labels.
pub const REMOVE_HINTS_JS: &'static str = r#"
(function() {
    document.querySelectorAll('.qust-hint').forEach(el => el.remove());
    delete window.__qust_hints;
})()
"#;

/// The hint filter script up to the typed text.
pub const FILTER_JS_START: &'static str = r#"
(function() {
    const typed = '"#;

/// The hint filter script between the typed text and the color of an exact
/// match.
pub const FILTER_JS_MATCH: &'static str = r#"';
    const hints = document.querySelectorAll('.qust-hint');
    let matchCount = 0;
    let exactMatch = null;

    for (const hint of hints) {
        const label = hint.dataset.label;
        if (label === typed) {
            exactMatch = label;
            matchCount++;
            hint.style.background = 'rgba(46, 204, 113, "#;

/// The hint filter script between the two label colors.
pub const FILTER_JS_PARTIAL: &'static str = r#")';
        } else if (label.startsWith(typed)) {
            matchCount++;
            hint.style.background = 'rgba(241, 196, 15, "#;

/// The rest of the hint filter script.
pub const FILTER_JS_END: &'static str = r#")';
        } else {
            hint.style.display = 'none';
        }
    }

    if (exactMatch && matchCount === 1) {
        const hintData = window.__qust_hints;
        if (hintData) {
            for (const h of hintData) {
                if (h.label === exactMatch) {
                    const x = Math.round(h.clickX);
                    const y = Math.round(h.clickY);
                    document.querySelectorAll('.qust-hint').forEach(el => el.remove());
                    delete window.__qust_hints;
                    if (!h.useNativeClick && h.el && h.el.isConnected) {
                        h.el.click();
                        return 'clicked';
                    }
                    return 'native:' + x + ':' + y;
                }
            }
        }
        document.querySelectorAll('.qust-hint').forEach(el => el.remove());
        delete window.__qust_hints;
        return 'none';
    }

    if (matchCount === 0) {
        document.querySelectorAll('.qust-hint').forEach(el => el.remove());
        delete window.__qust_hints;
        return 'none';
    }

    return 'filtering';
})()
"#;


/// The CSS alpha of an opacity given in percent, with two decimals (`75`
/// gives `0.75`).
pub open spec fn alpha_text(opacity: nat) -> Seq<char> {
    decimal(opacity / 100) + "."@ + seq![digit((opacity % 100) / 10), digit(opacity % 10)]
}

/// The CSS alpha of an opacity in percent.
pub fn opacity_alpha(opacity: u8) -> (a: String)
    ensures
        a@ == alpha_text(opacity as nat),
{
    let whole = decimal_u128((opacity / 100) as u128);
    let mut frac: Vec<char> = Vec::new();
    frac.push(digit_char(((opacity % 100) / 10) as u64));
    frac.push(digit_char((opacity % 10) as u64));
    assert(frac@ =~= seq![digit(((opacity as nat) % 100) / 10), digit((opacity as nat) % 10)]);
    string_of(&concat(&concat(&whole, &chars_of(".")), &frac))
}

/// The hint script for labels `size` pixels high on a background of the
/// given opacity.
pub open spec fn inject_script(size: nat, opacity: nat) -> Seq<char> {
    replace_all(
        replace_all(INJECT_HINTS_JS@, "__QUST_HINT_SIZE__"@, decimal(size)),
        "__QUST_HINT_ALPHA__"@,
        alpha_text(opacity),
    )
}

/// The script that shows the hint labels.
pub fn build_inject_hints_js(size: u16, opacity: u8) -> (js: String)
    ensures
        js@ == inject_script(size as nat, opacity as nat),
{
    let size_mark = chars_of("__QUST_HINT_SIZE__");
    let alpha_mark = chars_of("__QUST_HINT_ALPHA__");
    proof {
        reveal_strlit("__QUST_HINT_SIZE__");
        reveal_strlit("__QUST_HINT_ALPHA__");
    }
    let sized = replace(&chars_of(INJECT_HINTS_JS), &size_mark, &decimal_u128(size as u128));
    let alpha = chars_of(opacity_alpha(opacity).as_str());
    string_of(&replace(&sized, &alpha_mark, &alpha))
}

/// The script that filters the hint labels by what was typed and activates
/// the one that alone matches it.
pub open spec fn filter_script(typed: Seq<char>, opacity: nat) -> Seq<char> {
    FILTER_JS_START@ + typed + FILTER_JS_MATCH@ + alpha_text(opacity) + FILTER_JS_PARTIAL@
        + alpha_text(opacity) + FILTER_JS_END@
}

/// The hint filter script for the typed hint keys.
pub fn build_filter_js(typed: &str, opacity: u8) -> (js: String)
    ensures
        js@ == filter_script(typed@, opacity as nat),
{
    let alpha = chars_of(opacity_alpha(opacity).as_str());
    let js = concat(
        &concat(
            &concat(
                &concat(
                    &concat(&concat(&chars_of(FILTER_JS_START), &chars_of(typed)), &chars_of(FILTER_JS_MATCH)),
                    &alpha,
                ),
                &chars_of(FILTER_JS_PARTIAL),
            ),
            &alpha,
        ),
        &chars_of(FILTER_JS_END),
    );
    string_of(&js)
}

/// The pieces of `s` between `:` separators (`str::split(':')`).
pub open spec fn colon_fields(s: Seq<char>) -> Seq<Seq<char>>
    decreases s.len(),
{
    if s.len() == 0 {
        seq![Seq::<char>::empty()]
    } else {
        let rest = colon_fields(s.drop_first());
        if s[0] == ':' {
            seq![Seq::<char>::empty()] + rest
        } else {
            rest.update(0, seq![s[0]] + rest[0])
        }
    }
}

proof fn lemma_colon_fields_nonempty(s: Seq<char>)
    ensures
        colon_fields(s).len() >= 1,
    decreases s.len(),
{
    if s.len() > 0 {
        lemma_colon_fields_nonempty(s.drop_first());
    }
}

/// The click point a hint filter result asks for: `native:X:Y` with two
/// integers.
pub open spec fn native_click_of(result: Seq<char>) -> Option<(i32, i32)> {
    let f = colon_fields(result);
    if f.len() == 3 && f[0] == "native"@ && parse_i32(f[1]) is Some && parse_i32(f[2]) is Some {
        Some((parse_i32(f[1]).unwrap(), parse_i32(f[2]).unwrap()))
    } else {
        None
    }
}

fn colon_split(s: &Vec<char>) -> (r: Vec<Vec<char>>)
    ensures
        r@.len() == colon_fields(s@).len(),
        forall|k: int| 0 <= k < r@.len() ==> #[trigger] r@[k]@ == colon_fields(s@)[k],
    decreases s@.len(),
{
    proof {
        lemma_colon_fields_nonempty(s@);
    }
    let mut fields: Vec<Vec<char>> = Vec::new();
    let mut current: Vec<char> = Vec::new();
    let mut i: usize = s.len();
    assert(s@.skip(s@.len() as int) =~= Seq::<char>::empty());
    while i > 0
        invariant
            i <= s@.len(),
            ({
                let f = colon_fields(s@.skip(i as int));
                &&& f.len() == fields@.len() + 1
                &&& f[0] == current@
                &&& forall|k: int| 0 <= k < fields@.len() ==> #[trigger] fields@[k]@ == f[fields@.len() - k]
            }),
        decreases i,
    {
        let ghost t = s@.skip(i - 1);
        assert(t.drop_first() =~= s@.skip(i as int));
        assert(t[0] == s@[i - 1]);
        let c = s[i - 1];
        if c == ':' {
            let done = current;
            fields.push(done);
            current = Vec::new();
        } else {
            let mut next: Vec<char> = Vec::new();
            next.push(c);
            crate::text::push_all(&mut next, &current);
            current = next;
        }
        i -= 1;
    }
    assert(s@.skip(0) =~= s@);
    let mut r: Vec<Vec<char>> = Vec::new();
    r.push(current);
    let mut k: usize = fields.len();
    while k > 0
        invariant
            k <= fields@.len(),
            colon_fields(s@).len() == fields@.len() + 1,
            colon_fields(s@)[0] == r@[0]@,
            forall|q: int| 0 <= q < fields@.len() ==> #[trigger] fields@[q]@ == colon_fields(s@)[fields@.len() - q],
            r@.len() == fields@.len() - k + 1,
            forall|q: int| 0 <= q < r@.len() ==> #[trigger] r@[q]@ == colon_fields(s@)[q],
        decreases k,
    {
        let f = slice(&fields[k - 1], 0, fields[k - 1].len());
        assert(f@ =~= fields@[k - 1]@);
        r.push(f);
        k -= 1;
    }
    r
}

/// Reads the click point out of a hint filter result.
pub fn parse_native_click(result: &str) -> (r: Option<(i32, i32)>)
    ensures
        r == native_click_of(result@),
{
    let fields = colon_split(&chars_of(result));
    if fields.len() != 3 || !seq_eq(&fields[0], &chars_of("native")) {
        return None;
    }
    let x = parse_i32_chars(&fields[1]);
    let y = parse_i32_chars(&fields[2]);
    match (x, y) {
        (Some(x), Some(y)) => Some((x, y)),
        _ => None,
    }
}

/// The report a hint filter gives when it asks for a click at a point.
pub open spec fn native_click_report(x: i32, y: i32) -> Seq<char> {
    "native:"@ + int_decimal(x as int) + ":"@ + int_decimal(y as int)
}

proof fn lemma_colon_fields_concat(a: Seq<char>, b: Seq<char>)
    requires
        !a.contains(':'),
    ensures
        colon_fields(a + b)[0] == a + colon_fields(b)[0],
        colon_fields(a + b).len() == colon_fields(b).len(),
        forall|k: int| 1 <= k < colon_fields(b).len() ==> #[trigger] colon_fields(a + b)[k] == colon_fields(b)[k],
    decreases a.len(),
{
    lemma_colon_fields_nonempty(b);
    if a.len() > 0 {
        let t = a.drop_first();
        assert(!t.contains(':')) by {
            if t.contains(':') {
                let k = choose|k: int| 0 <= k < t.len() && t[k] == ':';
                assert(a[k + 1] == ':');
            }
        }
        lemma_colon_fields_concat(t, b);
        assert((a + b).drop_first() =~= t + b);
        assert(a[0] != ':');
        assert(seq![a[0]] + (t + colon_fields(b)[0]) =~= a + colon_fields(b)[0]);
    } else {
        assert(a + b =~= b);
        assert(a + colon_fields(b)[0] =~= colon_fields(b)[0]);
    }
}

proof fn lemma_int_decimal_no_colon(n: int)
    ensures
        !int_decimal(n).contains(':'),
{
    let s = int_decimal(n);
    crate::text::lemma_int_decimal_chars(n);
    if s.contains(':') {
        let k = choose|k: int| 0 <= k < s.len() && s[k] == ':';
        assert(s[k] == '-' || crate::text::is_digit(s[k]));
    }
}

/// A click report reads back as the point it was made for.
pub proof fn lemma_native_click_roundtrip(x: i32, y: i32)
    ensures
        native_click_of(native_click_report(x, y)) == Some((x, y)),
{
    reveal_strlit("native:");
    reveal_strlit(":");
    reveal_strlit("native");
    let dx = int_decimal(x as int);
    let dy = int_decimal(y as int);
    lemma_int_decimal_no_colon(x as int);
    lemma_int_decimal_no_colon(y as int);
    crate::text::lemma_parse_i32_decimal(x);
    crate::text::lemma_parse_i32_decimal(y);
    let tail = seq![':'] + dy;
    assert(colon_fields(dy).len() == 1) by {
        lemma_colon_fields_nonempty(dy);
        assert(dy + Seq::<char>::empty() =~= dy);
        lemma_colon_fields_concat(dy, Seq::<char>::empty());
    }
    assert(colon_fields(dy)[0] == dy) by {
        assert(dy + Seq::<char>::empty() =~= dy);
        lemma_colon_fields_concat(dy, Seq::<char>::empty());
    }
    assert(tail.drop_first() =~= dy);
    let ft = colon_fields(tail);
    assert(ft =~= seq![Seq::<char>::empty()] + colon_fields(dy));
    let mid = dx + tail;
    lemma_colon_fields_concat(dx, tail);
    let fm = colon_fields(mid);
    assert(fm.len() == 2);
    assert(fm[0] =~= dx);
    assert(fm[1] == dy);
    let whole = native_click_report(x, y);
    let head = "native"@;
    assert(!head.contains(':')) by {
        if head.contains(':') {
            let k = choose|k: int| 0 <= k < head.len() && head[k] == ':';
            assert(head[k] != ':');
        }
    }
    let colon_mid = seq![':'] + mid;
    assert(whole =~= head + colon_mid);
    assert(colon_mid.drop_first() =~= mid);
    assert(colon_fields(colon_mid) =~= seq![Seq::<char>::empty()] + fm);
    lemma_colon_fields_concat(head, colon_mid);
    let fw = colon_fields(whole);
    assert(fw.len() == 3);
    assert(fw[0] =~= head);
    assert(fw[1] == dx);
    assert(fw[2] == dy);
}

/// Whether a hint filter result ends hint mode: a click was made or asked
/// for, or nothing matched.
pub fn hint_filter_finished(result: &str) -> (r: bool)
    ensures
        r == ("native:"@.is_prefix_of(result@) || result@ == "clicked"@ || result@ == "none"@),
{
    let t = chars_of(result);
    crate::text::starts_with(&t, &chars_of("native:")) || seq_eq(&t, &chars_of("clicked")) || seq_eq(
        &t,
        &chars_of("none"),
    )
}
} // verus!
