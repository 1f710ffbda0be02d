//! The host of a URL.

use vstd::prelude::*;

verus! {

/// The host of a URL, where the text is a URL that has one.
pub uninterp spec fn url_host(text: Seq<char>) -> Option<Seq<char>>;

/// `url::Url::parse` and `host_str`: the host as the crate normalises it.
#[verifier::external_body]
pub(crate) fn host_of_url(text: &str) -> (r: Option<String>)
    ensures
        match r {
            Some(host) => url_host(text@) == Some(host@),
            None => url_host(text@) is None,
        },
{
    url::Url::parse(text).ok().and_then(|u| u.host_str().map(|h| h.to_string()))
}

} // verus!
