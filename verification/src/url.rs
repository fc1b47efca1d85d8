//! Hosts of addresses.
use vstd::prelude::*;

use crate::cli;

verus! {

/// The host that `reqwest::Url` finds in an address, if it is one with a host.
pub uninterp spec fn host_of(s: Seq<char>) -> Option<Seq<char>>;

/// Calls `reqwest::Url::parse` and then `host_str`. The result is named.
#[verifier::external_body]
pub(crate) fn host(s: &str) -> (r: Option<String>)
    ensures
        cli::opt_text(r) == host_of(s@),
{
    reqwest::Url::parse(s).ok().and_then(|u| u.host_str().map(|h| h.to_owned()))
}

} // verus!
