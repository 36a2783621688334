//! What the page window needs from the library: the close bridge script and
//! the name of an application's data directory.

use vstd::prelude::*;
use crate::builder::{default_title_spec, is_plain_host_char};
use crate::ui::{
    is_name_char, lemma_plain_host_product_filename, name_char, safe_host, safe_host_name,
};

verus! {

/// The script injected into every page: `window.__web2app.close()` asks the
/// native side, over IPC, to close the window.
pub const CLOSE_BRIDGE: &'static str = r#"window.__web2app = { close: () => { try { window.ipc.postMessage("__web2app_close__"); } catch (e) { console.warn(e); } } };"#;

/// The close bridge script (see [`CLOSE_BRIDGE`]).
pub fn native_close_bridge() -> (r: &'static str)
    ensures
        r@ == CLOSE_BRIDGE@,
{
    CLOSE_BRIDGE
}

/// `_default`, the directory name used when the host is empty.
pub open spec fn fallback_dir_name() -> Seq<char> {
    seq!['_', 'd', 'e', 'f', 'a', 'u', 'l', 't']
}

/// The name of the data directory of the application for `url`: its safe
/// host, or `_default`.
pub open spec fn data_dir_name_spec(url: Seq<char>) -> Seq<char> {
    if safe_host(url).len() == 0 {
        fallback_dir_name()
    } else {
        safe_host(url)
    }
}

/// The name of the data directory of the application for `url`, kept under
/// `Web2App/apps` in the user's application data.
pub fn data_dir_name(url: &str) -> (r: String)
    ensures
        r@ == data_dir_name_spec(url@),
{
    let host = safe_host_name(url);
    if host.as_str().is_empty() {
        proof {
            reveal_strlit("_default");
            assert("_default"@ == fallback_dir_name());
        }
        "_default".to_owned()
    } else {
        host
    }
}

/// Every character of a data directory's name is an ASCII letter or digit,
/// `-`, `.` or `_`.
pub proof fn lemma_data_dir_name_safe(url: Seq<char>)
    ensures
        forall|i: int|
            0 <= i < data_dir_name_spec(url).len() ==> is_name_char(
                #[trigger] data_dir_name_spec(url)[i],
            ) || data_dir_name_spec(url)[i] == '_',
{
    let name = data_dir_name_spec(url);
    assert forall|i: int| 0 <= i < name.len() implies is_name_char(#[trigger] name[i]) || name[i]
        == '_' by {
        if safe_host(url).len() != 0 {
            assert(name[i] == name_char(default_title_spec(url)[i]));
        }
    }
}

/// The data directory of `https://` + a plain host name (ASCII letters,
/// digits, `-` and `.`) is named after that host exactly.
pub proof fn lemma_plain_host_data_dir(h: Seq<char>)
    requires
        h.len() > 0,
        forall|k: int| 0 <= k < h.len() ==> is_plain_host_char(#[trigger] h[k]),
    ensures
        data_dir_name_spec(seq!['h', 't', 't', 'p', 's', ':', '/', '/'] + h) == h,
{
    lemma_plain_host_product_filename(h);
}

} // verus!
