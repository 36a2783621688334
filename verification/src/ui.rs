//! The packer's start page and the file name of a product.

use vstd::prelude::*;
use crate::builder::{
    default_title, default_title_spec, is_plain_host_char, lemma_https_plain_host, url_error,
    url_host,
};
use crate::text::{chars_of, push_char, push_str, string_of};

verus! {

/// The packer's form page: a URL field and a pack button, all styles
/// inline, with no external resources.
pub const FORM_HTML: &'static str = r#"<!DOCTYPE html>
<html>
<head>
<meta charset="utf-8">
<title>Web2App 打包器</title>
<style>
  * { box-sizing: border-box; margin: 0; padding: 0; }
  body {
    font-family: "Segoe UI", system-ui, sans-serif;
    background: #0f1117; color: #e6e8ee;
    display: flex; justify-content: center; align-items: center;
    height: 100vh; overflow: hidden;
  }
  .card {
    width: 520px; padding: 36px 40px;
    background: #171a23; border: 1px solid #262b38; border-radius: 14px;
    box-shadow: 0 10px 40px rgba(0,0,0,.45);
  }
  h1 { font-size: 22px; margin-bottom: 6px; }
  p.sub { color: #8b93a7; font-size: 13px; margin-bottom: 26px; }
  label { display: block; font-size: 13px; color: #aab2c5; margin: 14px 0 6px; }
  input[type=text] {
    width: 100%; padding: 11px 13px; font-size: 14px;
    background: #0f1117; color: #e6e8ee;
    border: 1px solid #2b3142; border-radius: 8px; outline: none;
  }
  input:focus { border-color: #4f8cff; }
  button {
    width: 100%; margin-top: 26px; padding: 13px;
    font-size: 15px; font-weight: 600; cursor: pointer;
    color: #fff; background: #2f6bff; border: none; border-radius: 9px;
  }
  button:hover { background: #2a5fe8; }
  .status { margin-top: 16px; font-size: 13px; color: #7ee0a3; min-height: 18px; word-break: break-all; }
</style>
</head>
<body>
<div class="card">
  <h1>Web2App 打包器</h1>
  <p class="sub">输入网页地址，生成单文件桌面应用（产物自带打包能力）</p>

  <label for="url">网页 URL</label>
  <input type="text" id="url" placeholder="https://example.com" autofocus>

  <button id="pack">打 包</button>
  <div class="status" id="status"></div>
</div>
<script>
  const $ = id => document.getElementById(id);

  $('pack').addEventListener('click', () => {
    const url = $('url').value.trim();
    if (!url) { $('status').style.color = '#ff8f8f'; $('status').textContent = '请输入 URL'; return; }
    $('status').style.color = '#7ee0a3';
    $('status').textContent = '打包中…';
    window.ipc.postMessage('pack:' + url);
  });

  // 回车提交
  $('url').addEventListener('keydown', ev => {
    if (ev.key === 'Enter') $('pack').click();
  });
</script>
</body>
</html>"#;

/// The packer's form page (see [`FORM_HTML`]).
pub fn form_html() -> (r: String)
    ensures
        r@ == FORM_HTML@,
{
    FORM_HTML.to_owned()
}

/// A character that may stand in a file or directory name as it is: an ASCII
/// letter or digit, `-` or `.`.
pub open spec fn is_name_char(c: char) -> bool {
    let n = c as u32;
    (48 <= n <= 57) || (65 <= n <= 90) || (97 <= n <= 122) || c == '-' || c == '.'
}

/// `c` as it stands in a name: itself when allowed, `_` otherwise.
pub open spec fn name_char(c: char) -> char {
    if is_name_char(c) {
        c
    } else {
        '_'
    }
}

/// The default title of `url` with every character that may not stand in a
/// name replaced by `_`.
pub open spec fn safe_host(url: Seq<char>) -> Seq<char> {
    default_title_spec(url).map_values(|c: char| name_char(c))
}

/// `.exe`.
pub open spec fn exe_suffix() -> Seq<char> {
    seq!['.', 'e', 'x', 'e']
}

/// `web2app`, the name used when the host is empty.
pub open spec fn fallback_name() -> Seq<char> {
    seq!['w', 'e', 'b', '2', 'a', 'p', 'p']
}

/// The file name of the product for `url`: its safe host, or `web2app`, and
/// `.exe`.
pub open spec fn product_filename_spec(url: Seq<char>) -> Seq<char> {
    (if safe_host(url).len() == 0 {
        fallback_name()
    } else {
        safe_host(url)
    }) + exe_suffix()
}

/// The default title of `url` made safe for a file or directory name (see
/// [`safe_host`]).
pub fn safe_host_name(url: &str) -> (r: String)
    ensures
        r@ == safe_host(url@),
{
    let title = default_title(url);
    let v = chars_of(title.as_str());
    let mut out = String::new();
    let mut i: usize = 0;
    while i < v.len()
        invariant
            i <= v@.len(),
            v@ == default_title_spec(url@),
            out@ == v@.take(i as int).map_values(|c: char| name_char(c)),
        decreases v@.len() - i,
    {
        let c = v[i];
        let n = c as u32;
        if (48 <= n && n <= 57) || (65 <= n && n <= 90) || (97 <= n && n <= 122) || c == '-' || c
            == '.' {
            push_char(&mut out, c);
        } else {
            push_char(&mut out, '_');
        }
        assert(v@.take(i + 1) == v@.take(i as int).push(c));
        assert(v@.take(i + 1).map_values(|c: char| name_char(c)) == v@.take(i as int).map_values(
            |c: char| name_char(c),
        ).push(name_char(c)));
        i = i + 1;
    }
    assert(v@.take(v@.len() as int) == v@);
    out
}

/// The file name of the product for `url`: its host made safe, then `.exe`.
pub fn product_filename(url: &str) -> (r: String)
    ensures
        r@ == product_filename_spec(url@),
{
    proof {
        reveal_strlit("web2app");
        reveal_strlit(".exe");
        assert("web2app"@ == fallback_name());
        assert(".exe"@ == exe_suffix());
    }
    let host = safe_host_name(url);
    let mut out = if host.as_str().is_empty() {
        "web2app".to_owned()
    } else {
        host
    };
    push_str(&mut out, ".exe");
    out
}

/// Every character of a product's file name is an ASCII letter or digit,
/// `-`, `.` or `_`, and the name ends with `.exe`.
pub proof fn lemma_product_filename_safe(url: Seq<char>)
    ensures
        forall|i: int|
            0 <= i < product_filename_spec(url).len() ==> is_name_char(
                #[trigger] product_filename_spec(url)[i],
            ) || product_filename_spec(url)[i] == '_',
        product_filename_spec(url).len() >= 4,
        product_filename_spec(url).skip(product_filename_spec(url).len() - 4) == exe_suffix(),
{
    let name = product_filename_spec(url);
    let h = safe_host(url);
    let base = if h.len() == 0 {
        fallback_name()
    } else {
        h
    };
    assert(name == base + exe_suffix());
    assert forall|i: int| 0 <= i < name.len() implies is_name_char(#[trigger] name[i]) || name[i]
        == '_' by {
        if i < base.len() {
            if h.len() != 0 {
                assert(name[i] == name_char(default_title_spec(url)[i]));
            }
        }
    }
    assert(name.skip(name.len() - 4) == exe_suffix());
}

/// The product of a valid URL is named after the URL's host: the host made
/// safe, then `.exe`.
pub proof fn lemma_valid_url_names_product_by_host(url: Seq<char>)
    requires
        url_error(url) is None,
    ensures
        product_filename_spec(url) == url_host(url).map_values(|c: char| name_char(c)) + exe_suffix(),
{
    assert(url_host(url).len() != 0);
    assert(default_title_spec(url) == url_host(url));
    assert(safe_host(url).len() == url_host(url).len());
}

/// The product of `https://` + a plain host name (ASCII letters, digits,
/// `-` and `.`) is named after that host exactly: no character of it is
/// replaced.
pub proof fn lemma_plain_host_product_filename(h: Seq<char>)
    requires
        h.len() > 0,
        forall|k: int| 0 <= k < h.len() ==> is_plain_host_char(#[trigger] h[k]),
    ensures
        safe_host(seq!['h', 't', 't', 'p', 's', ':', '/', '/'] + h) == h,
        product_filename_spec(seq!['h', 't', 't', 'p', 's', ':', '/', '/'] + h) == h + seq![
            '.',
            'e',
            'x',
            'e',
        ],
{
    let url = seq!['h', 't', 't', 'p', 's', ':', '/', '/'] + h;
    lemma_https_plain_host(h);
    assert(default_title_spec(url) == h);
    assert forall|k: int| 0 <= k < h.len() implies #[trigger] safe_host(url)[k] == h[k] by {
        assert(is_plain_host_char(h[k]));
    }
    assert(safe_host(url) == h);
}

/// Each character of a product's name is the matching character of the
/// URL's default title when that is an ASCII letter or digit, `-` or `.`,
/// and `_` otherwise; `.exe` follows.
pub proof fn lemma_product_filename_chars(url: Seq<char>)
    ensures
        ({
            let t = default_title_spec(url);
            let f = product_filename_spec(url);
            &&& f.len() == t.len() + 4
            &&& f.skip(t.len() as int) == seq!['.', 'e', 'x', 'e']
            &&& forall|i: int|
                0 <= i < t.len() ==> #[trigger] f[i] == (if is_plain_host_char(t[i]) {
                    t[i]
                } else {
                    '_'
                })
        }),
{
    let t = default_title_spec(url);
    let f = product_filename_spec(url);
    assert(t.len() > 0);
    assert(safe_host(url).len() == t.len());
    assert(f == safe_host(url) + exe_suffix());
    assert(f.skip(t.len() as int) == exe_suffix());
    assert forall|i: int| 0 <= i < t.len() implies #[trigger] f[i] == (if is_plain_host_char(t[i]) {
        t[i]
    } else {
        '_'
    }) by {
        assert(f[i] == name_char(t[i]));
    }
}

} // verus!
