//! The decisions of the executable's entry point: which mode to run in, and
//! what a message from the packer's page asks for.

use vstd::prelude::*;
use crate::text::{chars_of, matches_at, same_chars, starts_with, string_of};

verus! {

/// `--master`.
pub open spec fn master_flag() -> Seq<char> {
    seq!['-', '-', 'm', 'a', 's', 't', 'e', 'r']
}

/// `pack:`, the prefix of a pack request from the page.
pub open spec fn pack_prefix() -> Seq<char> {
    seq!['p', 'a', 'c', 'k', ':']
}

/// The command line (program name first) asks for the packer whatever the
/// tail says: it is exactly one argument, `--master`.
pub fn master_requested(args: &Vec<String>) -> (r: bool)
    ensures
        r == (args@.len() == 2 && args@[1]@ == master_flag()),
{
    proof {
        reveal_strlit("--master");
        assert("--master"@ == master_flag());
    }
    args.len() == 2 && same_chars(args[1].as_str(), "--master")
}

/// The URL that an IPC message from the packer's page asks to pack: the
/// message is `pack:` followed by the URL.
pub fn pack_request_url(message: &str) -> (r: Option<String>)
    ensures
        r is Some <==> starts_with(message@, pack_prefix()),
        r matches Some(url) ==> url@ == message@.skip(5),
{
    proof {
        reveal_strlit("pack:");
        assert("pack:"@ == pack_prefix());
    }
    let v = chars_of(message);
    assert(v@.skip(0) == v@);
    if matches_at(&v, 0, &chars_of("pack:")) {
        let url = string_of(&v, 5, v.len());
        assert(v@.subrange(5, v@.len() as int) == v@.skip(5));
        Some(url)
    } else {
        None
    }
}

} // verus!
