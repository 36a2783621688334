//! The string syntax of the tail payload: escaping, unescaping and the
//! extraction of `"key":"value"` fields.

use vstd::prelude::*;
use crate::text::{
    chars_of, is_whitespace_char, matches_at, push_char, starts_with, string_of, trim_start,
};
use vstd::string::StrSliceExecFns;
use vstd::utf8::is_scalar;

verus! {

/// The lower-case hexadecimal digit of `d` (for `0 <= d < 16`).
pub open spec fn hex_lower_spec(d: int) -> char {
    if d < 10 {
        (d + 48) as char
    } else {
        (d + 87) as char
    }
}

/// What the escaper writes for one character.
pub open spec fn escape_char(c: char) -> Seq<char> {
    if c == '"' {
        seq!['\\', '"']
    } else if c == '\\' {
        seq!['\\', '\\']
    } else if c == '\n' {
        seq!['\\', 'n']
    } else if c == '\r' {
        seq!['\\', 'r']
    } else if c == '\t' {
        seq!['\\', 't']
    } else if (c as u32) < 0x20 {
        seq![
            '\\',
            'u',
            '0',
            '0',
            hex_lower_spec((c as u32) as int / 16),
            hex_lower_spec((c as u32) as int % 16),
        ]
    } else {
        seq![c]
    }
}

/// The escaped form of every character of `s`, in order.
pub open spec fn escape_body(s: Seq<char>) -> Seq<char>
    decreases s.len(),
{
    if s.len() == 0 {
        seq![]
    } else {
        escape_char(s[0]) + escape_body(s.drop_first())
    }
}

/// `s` as a quoted JSON string.
pub open spec fn json_string(s: Seq<char>) -> Seq<char> {
    seq!['"'] + escape_body(s) + seq!['"']
}

/// Escaping distributes over concatenation.
pub proof fn lemma_escape_body_concat(a: Seq<char>, b: Seq<char>)
    ensures
        escape_body(a + b) == escape_body(a) + escape_body(b),
    decreases a.len(),
{
    if a.len() == 0 {
        assert(a + b == b);
    } else {
        assert((a + b).drop_first() == a.drop_first() + b);
        lemma_escape_body_concat(a.drop_first(), b);
        assert(escape_body(a + b) == escape_char(a[0]) + escape_body(a.drop_first() + b));
    }
}

proof fn lemma_escape_body_push(s: Seq<char>, c: char)
    ensures
        escape_body(s.push(c)) == escape_body(s) + escape_char(c),
{
    lemma_escape_body_concat(s, seq![c]);
    assert(s.push(c) == s + seq![c]);
    assert(seq![c].drop_first() == Seq::<char>::empty());
    assert(escape_body(seq![c]) == escape_char(c) + escape_body(Seq::<char>::empty()));
}

/// The lower-case hexadecimal digit of `d`.
fn hex_lower(d: u32) -> (c: char)
    requires
        d < 16,
    ensures
        c == hex_lower_spec(d as int),
{
    if d < 10 {
        ((d as u8) + 48) as char
    } else {
        ((d as u8) + 87) as char
    }
}

/// `s` as a quoted JSON string: quotes, backslashes, line breaks and tabs
/// become two-character escapes, other control characters `\u00XX`.
pub fn json_escape(s: &str) -> (r: String)
    ensures
        r@ == json_string(s@),
{
    let v = chars_of(s);
    let mut out = String::new();
    push_char(&mut out, '"');
    let mut i: usize = 0;
    assert(v@.take(0) == Seq::<char>::empty());
    while i < v.len()
        invariant
            i <= v@.len(),
            out@ == seq!['"'] + escape_body(v@.take(i as int)),
        decreases v@.len() - i,
    {
        let c = v[i];
        let ghost before = out@;
        if c == '"' {
            push_char(&mut out, '\\');
            push_char(&mut out, '"');
        } else if c == '\\' {
            push_char(&mut out, '\\');
            push_char(&mut out, '\\');
        } else if c == '\n' {
            push_char(&mut out, '\\');
            push_char(&mut out, 'n');
        } else if c == '\r' {
            push_char(&mut out, '\\');
            push_char(&mut out, 'r');
        } else if c == '\t' {
            push_char(&mut out, '\\');
            push_char(&mut out, 't');
        } else if (c as u32) < 0x20 {
            let n = c as u32;
            push_char(&mut out, '\\');
            push_char(&mut out, 'u');
            push_char(&mut out, '0');
            push_char(&mut out, '0');
            push_char(&mut out, hex_lower(n / 16));
            push_char(&mut out, hex_lower(n % 16));
        } else {
            push_char(&mut out, c);
        }
        assert(out@ == before + escape_char(c));
        proof {
            lemma_escape_body_push(v@.take(i as int), c);
            assert(v@.take(i + 1) == v@.take(i as int).push(c));
        }
        i = i + 1;
    }
    push_char(&mut out, '"');
    assert(v@.take(v@.len() as int) == v@);
    out
}


/// The value of a hexadecimal digit (either case), or `-1` for any other character.
pub open spec fn hex_digit_value(c: char) -> int {
    let n = c as u32;
    if 48 <= n <= 57 {
        n - 48
    } else if 97 <= n <= 102 {
        n - 87
    } else if 65 <= n <= 70 {
        n - 55
    } else {
        -1
    }
}

/// The number that the hexadecimal digits `d` spell.
pub open spec fn hex_number(d: Seq<char>) -> int
    decreases d.len(),
{
    if d.len() == 0 {
        0
    } else {
        hex_number(d.drop_last()) * 16 + hex_digit_value(d.last())
    }
}

/// `h` without one leading `+` sign.
pub open spec fn unsigned_digits(h: Seq<char>) -> Seq<char> {
    if h.len() > 0 && h[0] == '+' {
        h.drop_first()
    } else {
        h
    }
}

/// Every character of `d` is a hexadecimal digit.
pub open spec fn all_hex_digits(d: Seq<char>) -> bool {
    forall|j: int| 0 <= j < d.len() ==> hex_digit_value(#[trigger] d[j]) >= 0
}

/// `u32::from_str_radix(h, 16)`: an optional `+`, then one or more
/// hexadecimal digits whose value fits in a `u32`.
pub open spec fn parse_hex_u32(h: Seq<char>) -> Option<u32> {
    let d = unsigned_digits(h);
    if d.len() == 0 || !all_hex_digits(d) || hex_number(d) > u32::MAX {
        None
    } else {
        Some(hex_number(d) as u32)
    }
}

/// The character a `\u` escape with the digits `h` stands for, if any.
pub open spec fn unicode_escape_value(h: Seq<char>) -> Seq<char> {
    match parse_hex_u32(h) {
        Some(n) => if is_scalar(n) {
            seq![n as char]
        } else {
            seq![]
        },
        None => seq![],
    }
}

/// The character that a two-character escape `\e` stands for.
pub open spec fn escaped_char(e: char) -> char {
    if e == 'n' {
        '\n'
    } else if e == 'r' {
        '\r'
    } else if e == 't' {
        '\t'
    } else {
        e
    }
}

/// `s` with its escapes resolved: `\n`, `\r`, `\t` become the control
/// characters, `\u` takes up to four following characters as hexadecimal and
/// yields that character when they name one (nothing otherwise), a backslash
/// before any other character yields that character, and a final lone
/// backslash yields nothing.
pub open spec fn unescape_spec(s: Seq<char>) -> Seq<char>
    decreases s.len(),
{
    if s.len() == 0 {
        seq![]
    } else if s[0] != '\\' {
        seq![s[0]] + unescape_spec(s.drop_first())
    } else if s.len() == 1 {
        seq![]
    } else if s[1] == 'u' {
        let k = if s.len() < 6 {
            s.len() as int
        } else {
            6
        };
        unicode_escape_value(s.subrange(2, k)) + unescape_spec(s.skip(k))
    } else {
        seq![escaped_char(s[1])] + unescape_spec(s.skip(2))
    }
}

pub open spec fn pow16(n: nat) -> int
    decreases n,
{
    if n == 0 {
        1
    } else {
        16 * pow16((n - 1) as nat)
    }
}

proof fn lemma_hex_number_bound(d: Seq<char>)
    requires
        all_hex_digits(d),
    ensures
        0 <= hex_number(d) < pow16(d.len()),
    decreases d.len(),
{
    if d.len() > 0 {
        let p = d.drop_last();
        assert forall|j: int| 0 <= j < p.len() implies hex_digit_value(#[trigger] p[j]) >= 0 by {
            assert(p[j] == d[j]);
        }
        lemma_hex_number_bound(p);
        let h = hex_number(p);
        let q = pow16(p.len());
        let x = hex_digit_value(d.last());
        assert(d.last() == d[d.len() - 1]);
        assert(0 <= x < 16);
        assert(pow16(d.len()) == 16 * q);
        assert(0 <= h * 16 + x < 16 * q) by (nonlinear_arith)
            requires
                0 <= h < q,
                0 <= x < 16,
        ;
    }
}

/// The value of the hexadecimal digit `c`, if it is one.
fn hex_digit(c: char) -> (r: Option<u32>)
    ensures
        r matches Some(x) ==> x == hex_digit_value(c) && x < 16,
        r is None ==> hex_digit_value(c) < 0,
{
    let n = c as u32;
    if 48 <= n && n <= 57 {
        Some(n - 48)
    } else if 97 <= n && n <= 102 {
        Some(n - 87)
    } else if 65 <= n && n <= 70 {
        Some(n - 55)
    } else {
        None
    }
}

/// `u32::from_str_radix` in base 16 on the characters `v[lo..hi]`, which are
/// at most four.
fn parse_hex(v: &Vec<char>, lo: usize, hi: usize) -> (r: Option<u32>)
    requires
        lo <= hi <= v@.len(),
        hi - lo <= 4,
    ensures
        r == parse_hex_u32(v@.subrange(lo as int, hi as int)),
{
    let ghost h = v@.subrange(lo as int, hi as int);
    let mut a = lo;
    if lo < hi && v[lo] == '+' {
        a = lo + 1;
    }
    let ghost d = v@.subrange(a as int, hi as int);
    assert(d == unsigned_digits(h));
    if a == hi {
        return None;
    }
    let mut acc: u32 = 0;
    let mut i = a;
    while i < hi
        invariant
            lo <= a <= i <= hi <= v@.len(),
            hi - lo <= 4,
            d == v@.subrange(a as int, hi as int),
            h == v@.subrange(lo as int, hi as int),
            d == unsigned_digits(h),
            forall|j: int| 0 <= j < i - a ==> hex_digit_value(#[trigger] d[j]) >= 0,
            acc == hex_number(d.take(i - a)),
            acc < pow16((i - a) as nat),
        decreases hi - i,
    {
        match hex_digit(v[i]) {
            Some(x) => {
                let ghost t = d.take(i - a + 1);
                assert(t.drop_last() == d.take(i - a));
                assert(t.last() == v@[i as int]);
                assert(pow16((i - a + 1) as nat) == 16 * pow16((i - a) as nat));
                assert(pow16(0) == 1 && pow16(1) == 16 && pow16(2) == 256 && pow16(3) == 4096) by {
                    reveal_with_fuel(pow16, 4);
                }
                assert(acc * 16 + x < 65536);
                acc = acc * 16 + x;
                i = i + 1;
            },
            None => {
                assert(d[i - a] == v@[i as int]);
                assert(hex_digit_value(d[i - a]) < 0);
                return None;
            },
        }
    }
    assert(d.take(i - a) == d);
    proof {
        lemma_hex_number_bound(d);
        reveal_with_fuel(pow16, 5);
    }
    Some(acc)
}

/// `char::from_u32`: the character whose scalar value is `n`.
///
/// Calls `char::from_u32`, which the standard library documents as
/// returning `None` exactly when `n` is a surrogate or beyond `char::MAX`,
/// that is, when `n` is not a Unicode scalar value.
#[verifier::external_body]
fn char_from_u32(n: u32) -> (r: Option<char>)
    ensures
        r is Some <==> is_scalar(n),
        r matches Some(c) ==> c as u32 == n,
{
    char::from_u32(n)
}

/// `s` with its escapes resolved (see [`unescape_spec`]).
pub fn unescape(s: &str) -> (r: String)
    ensures
        r@ == unescape_spec(s@),
{
    let v = chars_of(s);
    let len = v.len();
    let mut out = String::new();
    let mut i: usize = 0;
    assert(v@.skip(0) == v@);
    while i < len
        invariant
            len == v@.len(),
            i <= len,
            unescape_spec(v@) == out@ + unescape_spec(v@.skip(i as int)),
        decreases len - i,
    {
        let ghost t = v@.skip(i as int);
        let ghost before = out@;
        let c = v[i];
        assert(t[0] == c);
        if c != '\\' {
            push_char(&mut out, c);
            assert(t.drop_first() == v@.skip(i + 1));
            i = i + 1;
        } else if i + 1 == len {
            assert(t.len() == 1);
            assert(v@.skip(len as int) == Seq::<char>::empty());
            i = len;
        } else {
            let e = v[i + 1];
            assert(t[1] == e);
            if e == 'u' {
                let k = if len - i < 6 {
                    len
                } else {
                    i + 6
                };
                assert(t.subrange(2, k - i) == v@.subrange(i + 2, k as int));
                assert(t.skip(k - i) == v@.skip(k as int));
                match parse_hex(&v, i + 2, k) {
                    Some(n) => {
                        match char_from_u32(n) {
                            Some(ch) => {
                                push_char(&mut out, ch);
                                proof {
                                    vstd::utf8::char_u32_cast(ch, n);
                                }
                            },
                            None => {},
                        }
                    },
                    None => {},
                }
                assert(out@ == before + unicode_escape_value(t.subrange(2, k - i)));
                i = k;
            } else {
                let x = if e == 'n' {
                    '\n'
                } else if e == 'r' {
                    '\r'
                } else if e == 't' {
                    '\t'
                } else {
                    e
                };
                push_char(&mut out, x);
                assert(t.skip(2) == v@.skip(i + 2));
                i = i + 2;
            }
        }
    }
    assert(v@.skip(len as int) == Seq::<char>::empty());
    out
}

/// Where `p` first occurs in `s`, counted from the start; past `s.len()`
/// when it does not occur.
pub open spec fn find_pos(s: Seq<char>, p: Seq<char>) -> nat
    decreases s.len(),
{
    if starts_with(s, p) {
        0
    } else if s.len() == 0 {
        1
    } else {
        1 + find_pos(s.drop_first(), p)
    }
}

/// The position of the first occurrence of `p` in `s` (`str::find`).
pub open spec fn find_spec(s: Seq<char>, p: Seq<char>) -> Option<int> {
    let k = find_pos(s, p);
    if k + p.len() <= s.len() {
        Some(k as int)
    } else {
        None
    }
}

/// The first position, at or after `0`, of `p` in `v`.
fn find_chars(v: &Vec<char>, p: &Vec<char>) -> (r: Option<usize>)
    ensures
        match r {
            Some(k) => find_spec(v@, p@) == Some(k as int),
            None => find_spec(v@, p@) is None,
        },
{
    let len = v.len();
    let mut i: usize = 0;
    assert(v@.skip(0) == v@);
    while i < len
        invariant
            i <= len == v@.len(),
            find_pos(v@, p@) == i + find_pos(v@.skip(i as int), p@),
        decreases len - i,
    {
        if matches_at(v, i, p) {
            return Some(i);
        }
        assert(v@.skip(i as int).drop_first() == v@.skip(i + 1));
        i = i + 1;
    }
    if matches_at(v, len, p) {
        return Some(len);
    }
    None
}

/// `"key":`, the text that introduces a field.
pub open spec fn field_pattern(key: Seq<char>) -> Seq<char> {
    seq!['"'] + key + seq!['"', ':']
}

/// How far a scan over `s` runs before it stops at an unescaped `"`: a
/// backslash skips itself and the character after it. A result of at least
/// `s.len()` means there is no such quote.
pub open spec fn quote_scan(s: Seq<char>) -> nat
    decreases s.len(),
{
    if s.len() == 0 {
        0
    } else if s[0] == '\\' {
        if s.len() < 2 {
            2
        } else {
            2 + quote_scan(s.skip(2))
        }
    } else if s[0] == '"' {
        0
    } else {
        1 + quote_scan(s.drop_first())
    }
}

/// The raw text of the field `key` in `json`, quotes included, and the text
/// after it: the first `"key":` is found, white space after it is skipped,
/// and a quoted string must follow.
pub open spec fn extract_raw_spec(json: Seq<char>, key: Seq<char>) -> Option<
    (Seq<char>, Seq<char>),
> {
    let pat = field_pattern(key);
    match find_spec(json, pat) {
        None => None,
        Some(at) => {
            let r = trim_start(json.skip(at + pat.len()));
            if r.len() == 0 || r[0] != '"' {
                None
            } else {
                let e = 1 + quote_scan(r.skip(1)) as int;
                if e >= r.len() {
                    None
                } else {
                    Some((r.take(e + 1), r.skip(e + 1)))
                }
            }
        },
    }
}

/// The value of the string field `key` in `json`, without its enclosing
/// quotes and with its escapes resolved, and the text after the field.
pub open spec fn extract_string_spec(json: Seq<char>, key: Seq<char>) -> Option<
    (Seq<char>, Seq<char>),
> {
    match extract_raw_spec(json, key) {
        Some((raw, rest)) => Some((unescape_spec(raw.subrange(1, raw.len() - 1)), rest)),
        None => None,
    }
}

/// The position of the unescaped `"` that ends a string whose text starts at
/// `from`, if there is one.
fn closing_quote(v: &Vec<char>, from: usize) -> (r: Option<usize>)
    requires
        from <= v@.len(),
    ensures
        match r {
            Some(e) => e == from + quote_scan(v@.skip(from as int)) && e < v@.len(),
            None => from + quote_scan(v@.skip(from as int)) >= v@.len(),
        },
{
    let len = v.len();
    let mut end = from;
    while end < len
        invariant
            from <= end <= len == v@.len(),
            from + quote_scan(v@.skip(from as int)) == end + quote_scan(v@.skip(end as int)),
        decreases len - end,
    {
        let ghost t = v@.skip(end as int);
        assert(t[0] == v@[end as int]);
        if v[end] == '\\' {
            if len - end < 2 {
                return None;
            }
            assert(t.skip(2) == v@.skip(end + 2));
            end = end + 2;
        } else if v[end] == '"' {
            return Some(end);
        } else {
            assert(t.drop_first() == v@.skip(end + 1));
            end = end + 1;
        }
    }
    assert(v@.skip(len as int) == Seq::<char>::empty());
    None
}

/// The raw text of the field `key` in `json`, quotes included, and the text
/// after it (see [`extract_raw_spec`]).
fn extract_raw_field<'a>(json: &'a str, key: &str) -> (r: Option<(&'a str, String)>)
    ensures
        match r {
            Some((raw, rest)) => extract_raw_spec(json@, key@) == Some((raw@, rest@)),
            None => extract_raw_spec(json@, key@) is None,
        },
{
    let v = chars_of(json);
    let len = v.len();
    let k = chars_of(key);
    let mut pat: Vec<char> = Vec::new();
    pat.push('"');
    let mut m: usize = 0;
    while m < k.len()
        invariant
            m <= k@.len(),
            pat@ == seq!['"'] + k@.take(m as int),
        decreases k@.len() - m,
    {
        pat.push(k[m]);
        m = m + 1;
        assert(k@.take(m as int) == k@.take(m - 1).push(k@[m - 1]));
    }
    pat.push('"');
    pat.push(':');
    assert(k@.take(k@.len() as int) == k@);
    assert(pat@ == field_pattern(key@));
    let at = match find_chars(&v, &pat) {
        Some(a) => a,
        None => {
            return None;
        },
    };
    let start = at + pat.len();
    let mut i = start;
    assert(v@.skip(start as int) == v@.skip(i as int));
    while i < len && is_whitespace_char(v[i])
        invariant
            start <= i <= len == v@.len(),
            trim_start(v@.skip(start as int)) == trim_start(v@.skip(i as int)),
        decreases len - i,
    {
        assert(v@.skip(i as int).drop_first() == v@.skip(i + 1));
        i = i + 1;
    }
    let ghost r = v@.skip(i as int);
    assert(trim_start(v@.skip(start as int)) == r);
    if i >= len || v[i] != '"' {
        return None;
    }
    assert(r.skip(1) == v@.skip(i + 1));
    let end = match closing_quote(&v, i + 1) {
        Some(e) => e,
        None => {
            return None;
        },
    };
    let raw = json.substring_char(i, end + 1);
    let rest = string_of(&v, end + 1, len);
    assert(r.take(end - i + 1) == v@.subrange(i as int, end + 1));
    assert(r.skip(end - i + 1) == v@.subrange(end + 1, len as int));
    Some((raw, rest))
}

/// The value of the string field `key` in `json` and the text after the
/// field (see [`extract_string_spec`]).
pub fn extract_string_field(json: &str, key: &str) -> (r: Option<(String, String)>)
    ensures
        match r {
            Some((value, rest)) => extract_string_spec(json@, key@) == Some((value@, rest@)),
            None => extract_string_spec(json@, key@) is None,
        },
{
    let (raw, rest) = match extract_raw_field(json, key) {
        Some(found) => found,
        None => {
            return None;
        },
    };
    let rv = chars_of(raw);
    let inner = string_of(&rv, 1, rv.len() - 1);
    let value = unescape(inner.as_str());
    Some((value, rest))
}

/// The name of the URL field.
pub open spec fn url_key() -> Seq<char> {
    seq!['u', 'r', 'l']
}

/// The name of the title field.
pub open spec fn title_key() -> Seq<char> {
    seq!['t', 'i', 't', 'l', 'e']
}

/// The payload text for a configuration: `{"url":<url>,"title":<title>}`.
pub open spec fn config_json(url: Seq<char>, title: Seq<char>) -> Seq<char> {
    seq!['{'] + field_pattern(url_key()) + json_string(url) + seq![','] + field_pattern(title_key())
        + json_string(title) + seq!['}']
}

/// The URL and the title that the payload text `json` holds: the first
/// `url` field, then the first `title` field after it.
pub open spec fn parse_config(json: Seq<char>) -> Option<(Seq<char>, Seq<char>)> {
    match extract_string_spec(json, url_key()) {
        Some((url, rest)) => match extract_string_spec(rest, title_key()) {
            Some((title, _)) => Some((url, title)),
            None => None,
        },
        None => None,
    }
}

proof fn lemma_hex_lower_value(d: int)
    requires
        0 <= d < 16,
    ensures
        hex_digit_value(hex_lower_spec(d)) == d,
        hex_lower_spec(d) != '"',
        hex_lower_spec(d) != '\\',
        hex_lower_spec(d) != '+',
{
}

/// A scan that starts on escaped text stops at the quote that follows it.
proof fn lemma_quote_scan_escaped(x: Seq<char>, tail: Seq<char>)
    ensures
        quote_scan(escape_body(x) + seq!['"'] + tail) == escape_body(x).len(),
    decreases x.len(),
{
    let e = escape_body(x);
    let s = e + seq!['"'] + tail;
    if x.len() == 0 {
        assert(s[0] == '"');
    } else {
        let c = x[0];
        let u = escape_char(c);
        let b = escape_body(x.drop_first());
        let rest = b + seq!['"'] + tail;
        assert(e == u + b);
        assert(s == u + rest);
        lemma_quote_scan_escaped(x.drop_first(), tail);
        if u.len() == 1 {
            assert(s[0] == c);
            assert(s.drop_first() == rest);
        } else if u.len() == 2 {
            assert(s[0] == '\\');
            assert(s.skip(2) == rest);
        } else {
            let n = (c as u32) as int;
            lemma_hex_lower_value(n / 16);
            lemma_hex_lower_value(n % 16);
            assert(u.len() == 6);
            assert(s[0] == '\\');
            let s2 = s.skip(2);
            assert(s2[0] == '0');
            let s3 = s2.drop_first();
            assert(s3[0] == '0');
            let s4 = s3.drop_first();
            assert(s4[0] == hex_lower_spec(n / 16));
            let s5 = s4.drop_first();
            assert(s5[0] == hex_lower_spec(n % 16));
            assert(s5.drop_first() == rest);
            assert(quote_scan(s5) == 1 + quote_scan(rest));
            assert(quote_scan(s4) == 1 + quote_scan(s5));
            assert(quote_scan(s3) == 1 + quote_scan(s4));
            assert(quote_scan(s2) == 1 + quote_scan(s3));
        }
    }
}

/// Resolving the escapes of escaped text gives the text back.
pub proof fn lemma_unescape_escape(x: Seq<char>)
    ensures
        unescape_spec(escape_body(x)) == x,
    decreases x.len(),
{
    if x.len() == 0 {
    } else {
        let c = x[0];
        let u = escape_char(c);
        let b = escape_body(x.drop_first());
        let s = escape_body(x);
        assert(s == u + b);
        lemma_unescape_escape(x.drop_first());
        if u.len() == 1 {
            assert(s[0] == c);
            assert(s.drop_first() == b);
            assert(unescape_spec(s) == seq![c] + unescape_spec(b));
        } else if u.len() == 2 {
            assert(s[0] == '\\');
            assert(s[1] == u[1]);
            assert(s.skip(2) == b);
            assert(unescape_spec(s) == seq![escaped_char(u[1])] + unescape_spec(b));
        } else {
            let n = (c as u32) as int;
            lemma_hex_lower_value(n / 16);
            lemma_hex_lower_value(n % 16);
            let h = s.subrange(2, 6);
            assert(h == seq!['0', '0', hex_lower_spec(n / 16), hex_lower_spec(n % 16)]);
            assert(s.skip(6) == b);
            assert(unsigned_digits(h) == h);
            assert(all_hex_digits(h));
            assert(h.drop_last().drop_last().drop_last().drop_last() == Seq::<char>::empty());
            assert(hex_number(h) == n) by {
                reveal_with_fuel(hex_number, 5);
                assert(h.drop_last() == seq!['0', '0', hex_lower_spec(n / 16)]);
                assert(h.drop_last().drop_last() == seq!['0', '0']);
                assert(h.drop_last().drop_last().drop_last() == seq!['0']);
            }
            assert(parse_hex_u32(h) == Some(c as u32));
            vstd::utf8::char_u32_cast(c, c as u32);
            assert(unicode_escape_value(h) == seq![c]);
            assert(unescape_spec(s) == unicode_escape_value(h) + unescape_spec(s.skip(6)));
        }
        assert(seq![c] + x.drop_first() == x);
    }
}

/// The field `key` holding `x` and followed by `after` is read back as `x`
/// and `after`, wherever `"key":` first occurs.
proof fn lemma_extract_field(
    json: Seq<char>,
    before: Seq<char>,
    key: Seq<char>,
    x: Seq<char>,
    after: Seq<char>,
)
    requires
        json == before + field_pattern(key) + json_string(x) + after,
        find_spec(json, field_pattern(key)) == Some(before.len() as int),
    ensures
        extract_raw_spec(json, key) == Some((json_string(x), after)),
        extract_string_spec(json, key) == Some((x, after)),
{
    let pat = field_pattern(key);
    let e = escape_body(x);
    let r0 = json.skip((before.len() + pat.len()) as int);
    assert(r0 == json_string(x) + after);
    assert(r0[0] == '"');
    assert(trim_start(r0) == r0);
    assert(r0.skip(1) == e + seq!['"'] + after);
    lemma_quote_scan_escaped(x, after);
    assert(r0.take(e.len() + 2int) == json_string(x));
    assert(r0.skip(e.len() + 2int) == after);
    assert(json_string(x).subrange(1, json_string(x).len() - 1) == e);
    lemma_unescape_escape(x);
}

/// Reading back the payload text of a configuration gives the
/// configuration.
pub proof fn lemma_config_json_roundtrip(url: Seq<char>, title: Seq<char>)
    ensures
        parse_config(config_json(url, title)) == Some((url, title)),
{
    let up = field_pattern(url_key());
    let tp = field_pattern(title_key());
    let json = config_json(url, title);
    let after_url = seq![','] + tp + json_string(title) + seq!['}'];
    assert(json == seq!['{'] + up + json_string(url) + after_url);
    assert(!starts_with(json, up)) by {
        assert(json.take(up.len() as int)[0] != up[0]);
    }
    assert(json.drop_first() == up + (json_string(url) + after_url));
    assert(starts_with(json.drop_first(), up)) by {
        assert(json.drop_first().take(up.len() as int) == up);
    }
    assert(find_pos(json.drop_first(), up) == 0);
    assert(json.len() > 0);
    assert(find_pos(json, up) == 1);
    lemma_extract_field(json, seq!['{'], url_key(), url, after_url);
    let after_title = seq!['}'];
    assert(after_url == seq![','] + tp + json_string(title) + after_title);
    assert(!starts_with(after_url, tp)) by {
        assert(after_url.take(tp.len() as int)[0] != tp[0]);
    }
    assert(after_url.drop_first() == tp + (json_string(title) + after_title));
    assert(starts_with(after_url.drop_first(), tp)) by {
        assert(after_url.drop_first().take(tp.len() as int) == tp);
    }
    assert(find_pos(after_url.drop_first(), tp) == 0);
    assert(after_url.len() > 0);
    assert(find_pos(after_url, tp) == 1);
    lemma_extract_field(after_url, seq![','], title_key(), title, after_title);
}

/// A field that holds an escaped string, alone between braces, is read
/// back whole, quotes included, with the closing brace left over.
pub proof fn lemma_extract_raw_escaped(key: Seq<char>, s: Seq<char>)
    ensures
        extract_raw_spec(seq!['{'] + field_pattern(key) + json_string(s) + seq!['}'], key) == Some(
            (json_string(s), seq!['}']),
        ),
{
    let pat = field_pattern(key);
    let json = seq!['{'] + pat + json_string(s) + seq!['}'];
    assert(!starts_with(json, pat)) by {
        assert(json.take(pat.len() as int)[0] != pat[0]);
    }
    assert(json.drop_first() == pat + (json_string(s) + seq!['}']));
    assert(starts_with(json.drop_first(), pat)) by {
        assert(json.drop_first().take(pat.len() as int) == pat);
    }
    assert(find_pos(json.drop_first(), pat) == 0);
    assert(find_pos(json, pat) == 1);
    lemma_extract_field(json, seq!['{'], key, s, seq!['}']);
}

/// The escaper writes every character at or above U+0020 other than `"`
/// and `\` as it is.
pub proof fn lemma_escape_keeps_text(c: char)
    requires
        c as u32 >= 0x20,
        c != '"',
        c != '\\',
    ensures
        escape_char(c) == seq![c],
{
}

/// A string of characters at or above U+0020 without `"` or `\` is written
/// between quotes exactly as it is.
pub proof fn lemma_json_string_of_plain_text(s: Seq<char>)
    requires
        forall|i: int|
            0 <= i < s.len() ==> (#[trigger] s[i]) as u32 >= 0x20 && s[i] != '"' && s[i] != '\\',
    ensures
        json_string(s) == seq!['"'] + s + seq!['"'],
    decreases s.len(),
{
    lemma_escape_body_plain(s);
}

proof fn lemma_escape_body_plain(s: Seq<char>)
    requires
        forall|i: int|
            0 <= i < s.len() ==> (#[trigger] s[i]) as u32 >= 0x20 && s[i] != '"' && s[i] != '\\',
    ensures
        escape_body(s) == s,
    decreases s.len(),
{
    if s.len() > 0 {
        assert(s[0] as u32 >= 0x20 && s[0] != '"' && s[0] != '\\');
        assert forall|i: int| 0 <= i < s.drop_first().len() implies (#[trigger] s.drop_first()[i]) as u32
            >= 0x20 && s.drop_first()[i] != '"' && s.drop_first()[i] != '\\' by {
            assert(s.drop_first()[i] == s[i + 1]);
        }
        lemma_escape_body_plain(s.drop_first());
        assert(seq![s[0]] + s.drop_first() == s);
    }
}

/// What the escaper writes for a character is JSON: no raw control
/// character, no raw `"` or `\`, and every backslash starts `\"`, `\\`,
/// `\n`, `\r`, `\t`, or `\u` with four lower-case hexadecimal digits.
pub proof fn lemma_escape_char_is_json(c: char)
    ensures
        ({
            let e = escape_char(c);
            &&& e.len() > 0
            &&& forall|i: int| 0 <= i < e.len() ==> (#[trigger] e[i]) as u32 >= 0x20
            &&& e[0] != '\\' ==> e == seq![c] && c != '"'
            &&& e[0] == '\\' ==> (e.len() == 2 && (e[1] == '"' || e[1] == '\\' || e[1] == 'n'
                || e[1] == 'r' || e[1] == 't')) || (e.len() == 6 && e[1] == 'u' && forall|k: int|
                2 <= k < 6 ==> ('0' <= #[trigger] e[k] && e[k] <= '9') || ('a' <= e[k] && e[k]
                <= 'f'))
        }),
{
    let e = escape_char(c);
    if (c as u32) < 0x20 && c != '\n' && c != '\r' && c != '\t' {
        let n = (c as u32) as int;
        assert(0 <= n / 16 < 16 && 0 <= n % 16 < 16);
        assert(e[4] == hex_lower_spec(n / 16));
        assert(e[5] == hex_lower_spec(n % 16));
    }
}

proof fn lemma_four_digit_escape(h: Seq<char>, v3: int, v2: int, v1: int, v0: int)
    requires
        h.len() == 4,
        0 <= v3 < 16,
        0 <= v2 < 16,
        0 <= v1 < 16,
        0 <= v0 < 16,
        hex_digit_value(h[0]) == v3,
        hex_digit_value(h[1]) == v2,
        hex_digit_value(h[2]) == v1,
        hex_digit_value(h[3]) == v0,
    ensures
        ({
            let n = (v3 * 4096 + v2 * 256 + v1 * 16 + v0) as u32;
            unescape_spec(seq!['\\', 'u'] + h) == if is_scalar(n) {
                seq![n as char]
            } else {
                seq![]
            }
        }),
{
    let s = seq!['\\', 'u'] + h;
    assert(s.len() == 6);
    assert(s[0] == '\\' && s[1] == 'u');
    assert(s.subrange(2, 6) == h);
    assert(s.skip(6) == Seq::<char>::empty());
    assert(h[0] != '+');
    assert(unsigned_digits(h) == h);
    assert forall|k: int| 0 <= k < h.len() implies hex_digit_value(#[trigger] h[k]) >= 0 by {
        if k == 0 {
        } else if k == 1 {
        } else if k == 2 {
        } else {
        }
    }
    assert(all_hex_digits(h));
    assert(hex_number(h) == v3 * 4096 + v2 * 256 + v1 * 16 + v0) by {
        reveal_with_fuel(hex_number, 5);
        assert(h.drop_last() == seq![h[0], h[1], h[2]]);
        assert(h.drop_last().drop_last() == seq![h[0], h[1]]);
        assert(h.drop_last().drop_last().drop_last() == seq![h[0]]);
        assert(h.drop_last().drop_last().drop_last().drop_last() == Seq::<char>::empty());
    }
    assert(unescape_spec(s) == unicode_escape_value(h) + unescape_spec(s.skip(6)));
}

/// `\u` with four hexadecimal digits (either case) stands for the character
/// whose scalar value they spell, and for nothing when they spell a
/// surrogate.
pub proof fn lemma_unicode_escape_four_digits(v3: int, v2: int, v1: int, v0: int)
    requires
        0 <= v3 < 16,
        0 <= v2 < 16,
        0 <= v1 < 16,
        0 <= v0 < 16,
    ensures
        ({
            let lower = |d: int|
                if d < 10 {
                    (d + 48) as char
                } else {
                    (d + 87) as char
                };
            let upper = |d: int|
                if d < 10 {
                    (d + 48) as char
                } else {
                    (d + 55) as char
                };
            let n = (v3 * 4096 + v2 * 256 + v1 * 16 + v0) as u32;
            let expect = if is_scalar(n) {
                seq![n as char]
            } else {
                seq![]
            };
            &&& unescape_spec(seq!['\\', 'u', lower(v3), lower(v2), lower(v1), lower(v0)]) == expect
            &&& unescape_spec(seq!['\\', 'u', upper(v3), upper(v2), upper(v1), upper(v0)]) == expect
        }),
{
    let lower = |d: int|
        if d < 10 {
            (d + 48) as char
        } else {
            (d + 87) as char
        };
    let upper = |d: int|
        if d < 10 {
            (d + 48) as char
        } else {
            (d + 55) as char
        };
    let hl = seq![lower(v3), lower(v2), lower(v1), lower(v0)];
    let hu = seq![upper(v3), upper(v2), upper(v1), upper(v0)];
    assert(hex_digit_value(lower(v3)) == v3 && hex_digit_value(lower(v2)) == v2);
    assert(hex_digit_value(lower(v1)) == v1 && hex_digit_value(lower(v0)) == v0);
    assert(hex_digit_value(upper(v3)) == v3 && hex_digit_value(upper(v2)) == v2);
    assert(hex_digit_value(upper(v1)) == v1 && hex_digit_value(upper(v0)) == v0);
    lemma_four_digit_escape(hl, v3, v2, v1, v0);
    lemma_four_digit_escape(hu, v3, v2, v1, v0);
    assert(seq!['\\', 'u'] + hl == seq!['\\', 'u', lower(v3), lower(v2), lower(v1), lower(v0)]);
    assert(seq!['\\', 'u'] + hu == seq!['\\', 'u', upper(v3), upper(v2), upper(v1), upper(v0)]);
}

} // verus!
