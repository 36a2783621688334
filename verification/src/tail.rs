//! The self-reproduction format: a configuration appended to the end of an
//! executable as `<payload JSON> <MAGIC:16> <payload_len:u64 LE>`.
//!
//! An executable without such a tail is a packer; one with a tail opens the
//! configured page. The length field comes last so that the tail is found by
//! counting 24 bytes back from the end, and an old tail is replaced by
//! cutting it off before a new one is appended.

use vstd::prelude::*;
use vstd::bytes::{spec_u64_from_le_bytes, spec_u64_to_le_bytes, u64_from_le_bytes, u64_to_le_bytes};
use vstd::utf8::{decode_utf8, encode_utf8, valid_utf8};
use crate::json::{
    config_json, extract_string_field, json_escape, lemma_config_json_roundtrip,
    parse_config, title_key, url_key,
};
use crate::text::{push_char, push_str};

verus! {

/// The tail's magic number, 16 bytes that are most unlikely to end a program
/// by chance.
pub const TAIL_MAGIC: &'static [u8; 16] = &[
    0x5fu8,
    0x5f,
    0x57,
    0x45,
    0x42,
    0x32,
    0x41,
    0x50,
    0x50,
    0x5f,
    0x54,
    0x41,
    0x49,
    0x4c,
    0x5f,
    0x5f,
];

/// The bytes of [`TAIL_MAGIC`]: `__WEB2APP_TAIL__`.
pub open spec fn tail_magic() -> Seq<u8> {
    seq![
        0x5fu8,
        0x5f,
        0x57,
        0x45,
        0x42,
        0x32,
        0x41,
        0x50,
        0x50,
        0x5f,
        0x54,
        0x41,
        0x49,
        0x4c,
        0x5f,
        0x5f,
    ]
}

/// Everything one Web2App application is configured with.
#[derive(Debug, Clone, PartialEq, Eq)]
pub struct AppConfig {
    /// The page to open.
    pub url: String,
    /// The window title.
    pub title: String,
}

impl AppConfig {
    pub fn new(url: String, title: String) -> (c: Self)
        ensures
            c.url@ == url@,
            c.title@ == title@,
    {
        AppConfig { url, title }
    }

    /// The configuration as tail payload JSON: `{"url":"...","title":"..."}`.
    pub fn to_json(&self) -> (r: String)
        ensures
            r@ == config_json(self.url@, self.title@),
    {
        let mut out = String::new();
        push_str(&mut out, "{\"url\":");
        let url = json_escape(self.url.as_str());
        push_str(&mut out, url.as_str());
        push_str(&mut out, ",\"title\":");
        let title = json_escape(self.title.as_str());
        push_str(&mut out, title.as_str());
        push_char(&mut out, '}');
        proof {
            reveal_strlit("{\"url\":");
            reveal_strlit(",\"title\":");
        }
        assert(out@ == config_json(self.url@, self.title@));
        out
    }

    /// The configuration that tail payload JSON holds, if it holds one
    /// (see [`parse_config`]).
    pub fn from_json(json: &str) -> (r: Option<Self>)
        ensures
            match r {
                Some(c) => parse_config(json@) == Some((c.url@, c.title@)),
                None => parse_config(json@) is None,
            },
    {
        proof {
            reveal_strlit("url");
            reveal_strlit("title");
            assert("url"@ == url_key());
            assert("title"@ == title_key());
        }
        let (url, rest) = match extract_string_field(json, "url") {
            Some(found) => found,
            None => {
                return None;
            },
        };
        let (title, _) = match extract_string_field(rest.as_str(), "title") {
            Some(found) => found,
            None => {
                return None;
            },
        };
        Some(AppConfig { url, title })
    }
}

/// Where the tail of `b` lies: the payload is `b[start..end]`, the magic
/// number follows at `end`, and the eight bytes after it give the payload's
/// length. `None` when `b` is too short, the magic number is missing, or the
/// length reaches back past the start of `b`.
pub open spec fn tail_bounds(b: Seq<u8>) -> Option<(int, int)> {
    if b.len() < 24 {
        None
    } else {
        let end = b.len() - 24;
        if b.subrange(end, end + 16) != tail_magic() {
            None
        } else {
            let n = spec_u64_from_le_bytes(b.subrange(b.len() - 8, b.len() as int));
            if n > end {
                None
            } else {
                Some((end - n, end))
            }
        }
    }
}

/// `b` without its tail: the bare program.
pub open spec fn stripped(b: Seq<u8>) -> Seq<u8> {
    match tail_bounds(b) {
        Some((start, _)) => b.take(start),
        None => b,
    }
}

/// The payload bytes of the tail of `b`.
pub open spec fn tail_payload(b: Seq<u8>) -> Option<Seq<u8>> {
    match tail_bounds(b) {
        Some((start, end)) => Some(b.subrange(start, end)),
        None => None,
    }
}

/// The URL and title configured by the tail of `b`: its payload must be
/// UTF-8 and hold a configuration.
pub open spec fn tail_config(b: Seq<u8>) -> Option<(Seq<char>, Seq<char>)> {
    match tail_payload(b) {
        Some(p) => if valid_utf8(p) {
            parse_config(decode_utf8(p))
        } else {
            None
        },
        None => None,
    }
}

/// The tail that records a configuration.
pub open spec fn tail_record(url: Seq<char>, title: Seq<char>) -> Seq<u8> {
    let p = encode_utf8(config_json(url, title));
    p + tail_magic() + spec_u64_to_le_bytes(p.len() as u64)
}

/// `b` with its old tail, if any, replaced by the tail of a configuration.
pub open spec fn with_tail(b: Seq<u8>, url: Seq<char>, title: Seq<char>) -> Seq<u8> {
    stripped(b) + tail_record(url, title)
}

/// The characters that the UTF-8 bytes `bytes` encode, if they are UTF-8.
///
/// Calls `std::str::from_utf8`, which the standard library documents as
/// succeeding exactly when its argument is valid UTF-8 and then returning the
/// string slice whose bytes they are.
#[verifier::external_body]
fn utf8_str(bytes: &[u8]) -> (r: Option<&str>)
    ensures
        r is Some <==> valid_utf8(bytes@),
        r matches Some(s) ==> s@ == decode_utf8(bytes@),
{
    std::str::from_utf8(bytes).ok()
}

/// Splits `bytes` by the tail format into (payload, bare program).
fn split_tail(bytes: &[u8]) -> (r: Option<(&[u8], &[u8])>)
    ensures
        match tail_bounds(bytes@) {
            Some((start, end)) => r matches Some((payload, base)) && payload@ == bytes@.subrange(
                start,
                end,
            ) && base@ == bytes@.take(start),
            None => r is None,
        },
{
    let len = bytes.len();
    if len < TAIL_MAGIC.len() + 8 {
        return None;
    }
    let tail_len_end = len;
    let magic_end = tail_len_end - 8;
    let magic_start = magic_end - TAIL_MAGIC.len();
    let mut k: usize = 0;
    while k < 16
        invariant
            len == bytes@.len(),
            magic_start + 24 == len,
            k <= 16,
            forall|m: int| 0 <= m < k ==> bytes@[magic_start + m] == tail_magic()[m],
        decreases 16 - k,
    {
        if bytes[magic_start + k] != TAIL_MAGIC[k] {
            assert(bytes@.subrange(magic_start as int, magic_start + 16)[k as int] != tail_magic()[k as int]);
            return None;
        }
        k = k + 1;
    }
    assert(bytes@.subrange(magic_start as int, magic_start + 16) == tail_magic());
    let len_bytes = &bytes[magic_end..tail_len_end];
    let payload_len = u64_from_le_bytes(len_bytes);
    let payload_end = magic_start;
    if payload_len > payload_end as u64 {
        return None;
    }
    let payload_start = payload_end - payload_len as usize;
    Some((&bytes[payload_start..payload_end], &bytes[0..payload_start]))
}

/// The bare program: `bytes` without its tail, or `bytes` itself when it has
/// none.
pub fn strip_tail(bytes: &[u8]) -> (r: &[u8])
    ensures
        r@ == stripped(bytes@),
{
    match split_tail(bytes) {
        Some((_, base)) => base,
        None => bytes,
    }
}

/// The configuration in the tail of `bytes`; `None` when there is no tail
/// or its payload is not a configuration.
pub fn extract_tail(bytes: &[u8]) -> (r: Option<AppConfig>)
    ensures
        match r {
            Some(c) => tail_config(bytes@) == Some((c.url@, c.title@)),
            None => tail_config(bytes@) is None,
        },
{
    let (payload, _) = match split_tail(bytes) {
        Some(parts) => parts,
        None => {
            return None;
        },
    };
    let s = match utf8_str(payload) {
        Some(s) => s,
        None => {
            return None;
        },
    };
    AppConfig::from_json(s)
}

/// Appends `b` to `out`.
fn push_bytes(out: &mut Vec<u8>, b: &[u8])
    ensures
        final(out)@ == old(out)@ + b@,
{
    let mut i: usize = 0;
    while i < b.len()
        invariant
            i <= b@.len(),
            out@ == old(out)@ + b@.take(i as int),
        decreases b@.len() - i,
    {
        out.push(b[i]);
        i = i + 1;
        assert(b@.take(i as int) == b@.take(i - 1).push(b@[i - 1]));
    }
    assert(b@.take(b@.len() as int) == b@);
}

/// `bytes` with its old tail cut off and the tail of `config` appended.
pub fn append_tail(bytes: &[u8], config: &AppConfig) -> (r: Vec<u8>)
    ensures
        r@ == with_tail(bytes@, config.url@, config.title@),
{
    let base = strip_tail(bytes);
    let payload = config.to_json();
    let payload_bytes = payload.as_str().as_bytes();
    let mut out: Vec<u8> = Vec::new();
    push_bytes(&mut out, base);
    push_bytes(&mut out, payload_bytes);
    push_bytes(&mut out, TAIL_MAGIC);
    let len_bytes = u64_to_le_bytes(payload_bytes.len() as u64);
    push_bytes(&mut out, len_bytes.as_slice());
    assert(out@ == with_tail(bytes@, config.url@, config.title@));
    out
}

/// Any payload followed by the magic number and its length is found as the
/// tail, whatever the bytes before it hold: only the last 24 bytes locate it.
pub proof fn lemma_tail_bounds_of(base: Seq<u8>, p: Seq<u8>)
    requires
        p.len() <= u64::MAX,
    ensures
        tail_bounds(base + p + tail_magic() + spec_u64_to_le_bytes(p.len() as u64)) == Some(
            (base.len() as int, (base.len() + p.len()) as int),
        ),
{
    vstd::bytes::lemma_auto_spec_u64_to_from_le_bytes();
    let le = spec_u64_to_le_bytes(p.len() as u64);
    let w = base + p + tail_magic() + le;
    assert(le.len() == 8);
    let end = base.len() + p.len();
    assert(w.len() == end + 24);
    assert(w.subrange(end as int, end + 16int) == tail_magic());
    assert(w.subrange(w.len() - 8, w.len() as int) == le);
    assert(spec_u64_from_le_bytes(le) == p.len());
}

/// The tail that [`with_tail`] appends is the one that `b` then has, and
/// cutting it off again gives back what was there before it.
pub proof fn lemma_with_tail_parts(b: Seq<u8>, url: Seq<char>, title: Seq<char>)
    requires
        encode_utf8(config_json(url, title)).len() <= u64::MAX,
    ensures
        stripped(with_tail(b, url, title)) == stripped(b),
        tail_payload(with_tail(b, url, title)) == Some(encode_utf8(config_json(url, title))),
{
    let sb = stripped(b);
    let p = encode_utf8(config_json(url, title));
    let le = spec_u64_to_le_bytes(p.len() as u64);
    let w = with_tail(b, url, title);
    assert(w == sb + p + tail_magic() + le);
    lemma_tail_bounds_of(sb, p);
    let end = sb.len() + p.len();
    assert(w.take(sb.len() as int) == sb);
    assert(w.subrange(sb.len() as int, end as int) == p);
}

/// Reading the tail that was just written gives the configuration back, and
/// the bare program is unchanged.
pub proof fn lemma_tail_roundtrip(b: Seq<u8>, url: Seq<char>, title: Seq<char>)
    requires
        encode_utf8(config_json(url, title)).len() <= u64::MAX,
    ensures
        tail_config(with_tail(b, url, title)) == Some((url, title)),
        stripped(with_tail(b, url, title)) == stripped(b),
{
    lemma_with_tail_parts(b, url, title);
    vstd::utf8::encode_utf8_valid_utf8(config_json(url, title));
    vstd::utf8::encode_utf8_decode_utf8(config_json(url, title));
    lemma_config_json_roundtrip(url, title);
}

/// Writing a second tail replaces the first: the second configuration is
/// read back and the bare program is the one before either was written.
pub proof fn lemma_tail_overwrite(
    b: Seq<u8>,
    url1: Seq<char>,
    title1: Seq<char>,
    url2: Seq<char>,
    title2: Seq<char>,
)
    requires
        encode_utf8(config_json(url1, title1)).len() <= u64::MAX,
        encode_utf8(config_json(url2, title2)).len() <= u64::MAX,
    ensures
        tail_config(with_tail(with_tail(b, url1, title1), url2, title2)) == Some((url2, title2)),
        stripped(with_tail(with_tail(b, url1, title1), url2, title2)) == stripped(b),
{
    lemma_with_tail_parts(b, url1, title1);
    lemma_tail_roundtrip(with_tail(b, url1, title1), url2, title2);
}

/// Bytes that do not end with a tail (too short, or no magic number 24
/// bytes before the end) hold no configuration and are their own bare
/// program.
pub proof fn lemma_untailed_bytes(b: Seq<u8>)
    requires
        b.len() < 24 || b.subrange(b.len() - 24, b.len() - 8) != tail_magic(),
    ensures
        tail_config(b) is None,
        stripped(b) == b,
{
}

} // verus!
