//! The packer: the URL rules, the default title, and the product that a
//! packed application is made of (the bare packer followed by a tail).

use vstd::prelude::*;
use vstd::utf8::encode_utf8;
use crate::json::config_json;
use crate::tail::{append_tail, stripped, strip_tail, tail_config, with_tail, lemma_tail_roundtrip, AppConfig};
use crate::text::{
    all_whitespace, is_ascii_alphanumeric, is_whitespace, lemma_trim_ignores_added_whitespace,
    trim_end, trim_start, chars_of, copy_range, starts_with, strip_prefix_all, strip_prefix_all_chars, string_of, trim,
    trim_chars, matches_at,
};

verus! {

#[verifier::external_type_specification]
#[verifier::external_body]
pub struct ExPathBuf(std::path::PathBuf);

/// What packing produced.
#[derive(Debug)]
pub struct BuildOutput {
    /// Where the product was written.
    pub exe: std::path::PathBuf,
    /// The product's size in bytes.
    pub size: u64,
}

/// `https://`.
pub open spec fn https_scheme() -> Seq<char> {
    seq!['h', 't', 't', 'p', 's', ':', '/', '/']
}

/// `http://`.
pub open spec fn http_scheme() -> Seq<char> {
    seq!['h', 't', 't', 'p', ':', '/', '/']
}

/// The characters that end a URL's host: `/`, `?` and `#`.
pub open spec fn is_url_delimiter(c: char) -> bool {
    c == '/' || c == '?' || c == '#'
}

/// `s` up to its first `/`, `?` or `#`.
pub open spec fn first_segment(s: Seq<char>) -> Seq<char>
    decreases s.len(),
{
    if s.len() == 0 || is_url_delimiter(s[0]) {
        seq![]
    } else {
        seq![s[0]] + first_segment(s.drop_first())
    }
}

/// The host of `url`: trimmed, every leading `https://` and then every
/// leading `http://` removed, up to the first `/`, `?` or `#`.
pub open spec fn url_host(url: Seq<char>) -> Seq<char> {
    first_segment(strip_prefix_all(strip_prefix_all(trim(url), https_scheme()), http_scheme()))
}

/// The title used when a URL has no host.
pub open spec fn fallback_title() -> Seq<char> {
    seq!['W', 'e', 'b', '2', 'A', 'p', 'p']
}

/// The default application title for `url`: its host, or `Web2App` when the
/// host is empty.
pub open spec fn default_title_spec(url: Seq<char>) -> Seq<char> {
    if url_host(url).len() == 0 {
        fallback_title()
    } else {
        url_host(url)
    }
}

/// Where `c` first occurs in `s`; `s.len()` when it does not.
pub open spec fn char_pos(s: Seq<char>, c: char) -> nat
    decreases s.len(),
{
    if s.len() == 0 || s[0] == c {
        0
    } else {
        1 + char_pos(s.drop_first(), c)
    }
}

/// A host is well formed when it holds a dot and its first dot is neither
/// its first nor its last character.
pub open spec fn well_formed_host(h: Seq<char>) -> bool {
    let d = char_pos(h, '.');
    d < h.len() && d != 0 && d != h.len() - 1
}

/// The error for a URL that does not start with a scheme.
pub open spec fn scheme_error() -> Seq<char> {
    "URL 必须以 https:// 或 http:// 开头"@
}

/// The error for a URL without a host.
pub open spec fn empty_host_error() -> Seq<char> {
    "URL 主机名为空"@
}

/// The error for a URL whose host is malformed.
pub open spec fn invalid_host_error() -> Seq<char> {
    "URL 主机名无效"@
}

/// What is wrong with `url`, if anything: after trimming it must start with
/// `https://` or `http://`, and its host must be non-empty and well formed.
pub open spec fn url_error(url: Seq<char>) -> Option<Seq<char>> {
    let t = trim(url);
    if !(starts_with(t, https_scheme()) || starts_with(t, http_scheme())) {
        Some(scheme_error())
    } else if url_host(url).len() == 0 {
        Some(empty_host_error())
    } else if !well_formed_host(url_host(url)) {
        Some(invalid_host_error())
    } else {
        None
    }
}

/// `v` up to its first `/`, `?` or `#`.
fn first_segment_chars(v: &Vec<char>) -> (r: Vec<char>)
    ensures
        r@ == first_segment(v@),
{
    let len = v.len();
    let mut i: usize = 0;
    assert(v@.skip(0) == v@);
    assert(v@.take(0) == Seq::<char>::empty());
    while i < len && !(v[i] == '/' || v[i] == '?' || v[i] == '#')
        invariant
            i <= len == v@.len(),
            first_segment(v@) == v@.take(i as int) + first_segment(v@.skip(i as int)),
        decreases len - i,
    {
        let ghost t = v@.skip(i as int);
        assert(t[0] == v@[i as int]);
        assert(t.drop_first() == v@.skip(i + 1));
        assert(v@.take(i + 1) == v@.take(i as int) + seq![v@[i as int]]);
        i = i + 1;
    }
    assert(first_segment(v@.skip(i as int)) == Seq::<char>::empty());
    copy_range(v, 0, i)
}

/// The host of `url` (see [`url_host`]).
fn host_chars(url: &str) -> (r: Vec<char>)
    ensures
        r@ == url_host(url@),
{
    proof {
        reveal_strlit("https://");
        reveal_strlit("http://");
        assert("https://"@ == https_scheme());
        assert("http://"@ == http_scheme());
    }
    let v = chars_of(url);
    let t = trim_chars(&v);
    let a = strip_prefix_all_chars(&t, &chars_of("https://"));
    let b = strip_prefix_all_chars(&a, &chars_of("http://"));
    first_segment_chars(&b)
}

/// The default application title: the URL's host without its scheme, or
/// `Web2App` when that is empty.
pub fn default_title(url: &str) -> (r: String)
    ensures
        r@ == default_title_spec(url@),
{
    let host = host_chars(url);
    if host.len() == 0 {
        proof {
            reveal_strlit("Web2App");
            assert("Web2App"@ == fallback_title());
        }
        "Web2App".to_owned()
    } else {
        let r = string_of(&host, 0, host.len());
        assert(host@.subrange(0, host@.len() as int) == host@);
        r
    }
}

/// Checks that `url` is an http or https URL with a well formed host (see
/// [`url_error`]).
pub fn validate_url(url: &str) -> (r: Result<(), String>)
    ensures
        match r {
            Ok(()) => url_error(url@) is None,
            Err(m) => url_error(url@) == Some(m@),
        },
{
    proof {
        reveal_strlit("https://");
        reveal_strlit("http://");
        assert("https://"@ == https_scheme());
        assert("http://"@ == http_scheme());
    }
    let v = chars_of(url);
    let t = trim_chars(&v);
    assert(t@.skip(0) == t@);
    if !(matches_at(&t, 0, &chars_of("https://")) || matches_at(&t, 0, &chars_of("http://"))) {
        return Err("URL 必须以 https:// 或 http:// 开头".to_owned());
    }
    let host = host_chars(url);
    if host.len() == 0 {
        return Err("URL 主机名为空".to_owned());
    }
    let len = host.len();
    let mut i: usize = 0;
    assert(host@.skip(0) == host@);
    while i < len && host[i] != '.'
        invariant
            i <= len == host@.len(),
            char_pos(host@, '.') == i + char_pos(host@.skip(i as int), '.'),
        decreases len - i,
    {
        assert(host@.skip(i as int).drop_first() == host@.skip(i + 1));
        i = i + 1;
    }
    if i == len || i == 0 || i == len - 1 {
        return Err("URL 主机名无效".to_owned());
    }
    Ok(())
}

/// The product of packing `url` from the packer image `master`: the bare
/// packer (its own tail cut off) followed by a tail that holds `url` and its
/// default title; the URL's error when it is not valid.
pub fn build_product(master: &[u8], url: &str) -> (r: Result<Vec<u8>, String>)
    ensures
        match r {
            Ok(p) => url_error(url@) is None && p@ == with_tail(
                stripped(master@),
                url@,
                default_title_spec(url@),
            ),
            Err(m) => url_error(url@) == Some(m@),
        },
{
    match validate_url(url) {
        Ok(()) => {},
        Err(m) => {
            return Err(m);
        },
    }
    let title = default_title(url);
    let base = strip_tail(master);
    let config = AppConfig::new(url.to_owned(), title);
    Ok(append_tail(base, &config))
}

/// The product of a URL opens that URL under its default title, and its
/// bare program is the packer's.
pub proof fn lemma_product_opens_url(master: Seq<u8>, url: Seq<char>)
    requires
        encode_utf8(config_json(url, default_title_spec(url))).len() <= u64::MAX,
    ensures
        tail_config(with_tail(stripped(master), url, default_title_spec(url))) == Some(
            (url, default_title_spec(url)),
        ),
        stripped(with_tail(stripped(master), url, default_title_spec(url))) == stripped(
            stripped(master),
        ),
{
    lemma_tail_roundtrip(stripped(master), url, default_title_spec(url));
}

/// A character of a plain host name: an ASCII letter or digit, `-` or `.`.
pub open spec fn is_plain_host_char(c: char) -> bool {
    is_ascii_alphanumeric(c) || c == '-' || c == '.'
}

proof fn lemma_first_segment_whole(s: Seq<char>)
    requires
        forall|k: int| 0 <= k < s.len() ==> !is_url_delimiter(#[trigger] s[k]),
    ensures
        first_segment(s) == s,
    decreases s.len(),
{
    if s.len() > 0 {
        assert(!is_url_delimiter(s[0]));
        assert forall|k: int| 0 <= k < s.drop_first().len() implies !is_url_delimiter(
            #[trigger] s.drop_first()[k],
        ) by {
            assert(s.drop_first()[k] == s[k + 1]);
        }
        lemma_first_segment_whole(s.drop_first());
        assert(seq![s[0]] + s.drop_first() == s);
    }
}

proof fn lemma_char_pos_first(s: Seq<char>, c: char, i: int)
    requires
        0 <= i < s.len(),
        s[i] == c,
        forall|k: int| 0 <= k < i ==> #[trigger] s[k] != c,
    ensures
        char_pos(s, c) == i,
    decreases i,
{
    if i > 0 {
        assert(s[0] != c);
        assert forall|k: int| 0 <= k < i - 1 implies #[trigger] s.drop_first()[k] != c by {
            assert(s.drop_first()[k] == s[k + 1]);
        }
        lemma_char_pos_first(s.drop_first(), c, i - 1);
    }
}

/// The host of `https://` followed by a plain host name (ASCII letters,
/// digits, `-` and `.`) is that name.
pub proof fn lemma_https_plain_host(h: Seq<char>)
    requires
        forall|k: int| 0 <= k < h.len() ==> is_plain_host_char(#[trigger] h[k]),
    ensures
        url_host(seq!['h', 't', 't', 'p', 's', ':', '/', '/'] + h) == h,
        trim(seq!['h', 't', 't', 'p', 's', ':', '/', '/'] + h) == seq![
            'h',
            't',
            't',
            'p',
            's',
            ':',
            '/',
            '/',
        ] + h,
{
    let p = seq!['h', 't', 't', 'p', 's', ':', '/', '/'];
    let s = p + h;
    assert(p == https_scheme());
    assert(s[0] == 'h');
    assert(trim_start(s) == s);
    if h.len() > 0 {
        assert(s.last() == h[h.len() - 1]);
        assert(is_plain_host_char(h[h.len() - 1]));
    } else {
        assert(s.last() == '/');
    }
    assert(!is_whitespace(s.last()));
    assert(trim_end(s) == s);
    assert(starts_with(s, https_scheme())) by {
        assert(s.take(8) == p);
    }
    assert(s.skip(8) == h);
    assert(!starts_with(h, https_scheme())) by {
        if h.len() >= 8 {
            assert(is_plain_host_char(h[5]));
            assert(h.take(8)[5] == h[5]);
        }
    }
    assert(strip_prefix_all(s.skip(8), https_scheme()) == h);
    assert(strip_prefix_all(s, https_scheme()) == h);
    assert(!starts_with(h, http_scheme())) by {
        if h.len() >= 7 {
            assert(is_plain_host_char(h[4]));
            assert(h.take(7)[4] == h[4]);
        }
    }
    assert(strip_prefix_all(h, http_scheme()) == h);
    assert forall|k: int| 0 <= k < h.len() implies !is_url_delimiter(#[trigger] h[k]) by {
        assert(is_plain_host_char(h[k]));
    }
    lemma_first_segment_whole(h);
}

/// A URL `https://` + a plain host name is valid whenever its first dot has
/// characters on both sides: a URL is refused only for a missing scheme, an
/// empty host, or a misplaced first dot.
pub proof fn lemma_plain_https_url_valid(h: Seq<char>, i: int)
    requires
        forall|k: int| 0 <= k < h.len() ==> is_plain_host_char(#[trigger] h[k]),
        0 < i < h.len() - 1,
        h[i] == '.',
        forall|k: int| 0 <= k < i ==> #[trigger] h[k] != '.',
    ensures
        url_error(seq!['h', 't', 't', 'p', 's', ':', '/', '/'] + h) is None,
{
    let s = seq!['h', 't', 't', 'p', 's', ':', '/', '/'] + h;
    lemma_https_plain_host(h);
    assert(starts_with(trim(s), https_scheme())) by {
        assert(trim(s).take(8) == https_scheme());
    }
    lemma_char_pos_first(h, '.', i);
}

/// White space around a URL changes neither its host nor its default title.
pub proof fn lemma_host_ignores_surrounding_whitespace(w1: Seq<char>, url: Seq<char>, w2: Seq<char>)
    requires
        all_whitespace(w1),
        all_whitespace(w2),
    ensures
        url_host(w1 + url + w2) == url_host(url),
        default_title_spec(w1 + url + w2) == default_title_spec(url),
        url_error(w1 + url + w2) == url_error(url),
{
    lemma_trim_ignores_added_whitespace(w1, url, w2);
}

proof fn lemma_char_pos_found(s: Seq<char>, c: char)
    ensures
        char_pos(s, c) <= s.len(),
        char_pos(s, c) < s.len() ==> s[char_pos(s, c) as int] == c,
        forall|k: int| 0 <= k < char_pos(s, c) ==> #[trigger] s[k] != c,
    decreases s.len(),
{
    if s.len() > 0 && s[0] != c {
        lemma_char_pos_found(s.drop_first(), c);
        assert forall|k: int| 0 <= k < char_pos(s, c) implies #[trigger] s[k] != c by {
            if k > 0 {
                assert(s[k] == s.drop_first()[k - 1]);
            }
        }
    }
}

/// A URL is accepted only when, trimmed, it starts with `https://` or
/// `http://`, and its host has a first dot with characters on both sides.
pub proof fn lemma_valid_url_has_dotted_host(url: Seq<char>)
    requires
        url_error(url) is None,
    ensures
        starts_with(trim(url), seq!['h', 't', 't', 'p', 's', ':', '/', '/']) || starts_with(
            trim(url),
            seq!['h', 't', 't', 'p', ':', '/', '/'],
        ),
        exists|i: int|
            0 < i < url_host(url).len() - 1 && #[trigger] url_host(url)[i] == '.' && forall|k: int|
                0 <= k < i ==> #[trigger] url_host(url)[k] != '.',
{
    let h = url_host(url);
    lemma_char_pos_found(h, '.');
    let d = char_pos(h, '.') as int;
    assert(0 < d < h.len() - 1 && h[d] == '.');
    assert(https_scheme() == seq!['h', 't', 't', 'p', 's', ':', '/', '/']);
    assert(http_scheme() == seq!['h', 't', 't', 'p', ':', '/', '/']);
}

proof fn lemma_trim_end_keeps_prefix(a: Seq<char>, b: Seq<char>)
    requires
        a.len() > 0,
        !is_whitespace(a.last()),
    ensures
        trim_end(a + b) == a + trim_end(b),
    decreases b.len(),
{
    if b.len() == 0 {
        assert(a + b == a);
        assert(a + trim_end(b) == a);
    } else {
        assert((a + b).last() == b.last());
        if is_whitespace(b.last()) {
            assert((a + b).drop_last() == a + b.drop_last());
            lemma_trim_end_keeps_prefix(a, b.drop_last());
        }
    }
}

proof fn lemma_first_segment_stops(h: Seq<char>, d: char, r: Seq<char>)
    requires
        forall|k: int| 0 <= k < h.len() ==> !is_url_delimiter(#[trigger] h[k]),
        is_url_delimiter(d),
    ensures
        first_segment(h + seq![d] + r) == h,
    decreases h.len(),
{
    let t = h + seq![d] + r;
    if h.len() == 0 {
        assert(t[0] == d);
    } else {
        assert(t[0] == h[0]);
        assert(t.drop_first() == h.drop_first() + seq![d] + r);
        assert forall|k: int| 0 <= k < h.drop_first().len() implies !is_url_delimiter(
            #[trigger] h.drop_first()[k],
        ) by {
            assert(h.drop_first()[k] == h[k + 1]);
        }
        lemma_first_segment_stops(h.drop_first(), d, r);
        assert(seq![h[0]] + h.drop_first() == h);
    }
}

/// The host of `https://` + a plain host name ends at the first `/`, `?` or
/// `#` after it, whatever follows.
pub proof fn lemma_https_host_ends_at_delimiter(h: Seq<char>, d: char, rest: Seq<char>)
    requires
        forall|k: int| 0 <= k < h.len() ==> is_plain_host_char(#[trigger] h[k]),
        d == '/' || d == '?' || d == '#',
    ensures
        url_host(seq!['h', 't', 't', 'p', 's', ':', '/', '/'] + h + seq![d] + rest) == h,
{
    let p = seq!['h', 't', 't', 'p', 's', ':', '/', '/'];
    let a = p + h + seq![d];
    let s = a + rest;
    assert(p + h + seq![d] + rest == s);
    assert(s[0] == 'h');
    assert(trim_start(s) == s);
    assert(a.last() == d);
    lemma_trim_end_keeps_prefix(a, rest);
    let r = trim_end(rest);
    let t = a + r;
    assert(trim(s) == t);
    assert(p == https_scheme());
    assert(starts_with(t, https_scheme())) by {
        assert(t.take(8) == p);
    }
    let u = h + seq![d] + r;
    assert(t.skip(8) == u);
    assert(!starts_with(u, https_scheme())) by {
        if u.len() >= 8 {
            if h.len() > 5 {
                assert(is_plain_host_char(h[5]));
                assert(u.take(8)[5] == h[5]);
            } else {
                assert(u.take(8)[h.len() as int] == d);
            }
        }
    }
    assert(strip_prefix_all(u, https_scheme()) == u);
    assert(strip_prefix_all(t, https_scheme()) == u);
    assert(!starts_with(u, http_scheme())) by {
        if u.len() >= 7 {
            if h.len() > 4 {
                assert(is_plain_host_char(h[4]));
                assert(u.take(7)[4] == h[4]);
            } else {
                assert(u.take(7)[h.len() as int] == d);
            }
        }
    }
    assert(strip_prefix_all(u, http_scheme()) == u);
    assert forall|k: int| 0 <= k < h.len() implies !is_url_delimiter(#[trigger] h[k]) by {
        assert(is_plain_host_char(h[k]));
    }
    lemma_first_segment_stops(h, d, r);
}

} // verus!
