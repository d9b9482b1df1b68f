//! Links to media.

use crate::text::{begins_with, starts_with};
use vstd::prelude::*;
use vstd::string::StrSliceExecFns;

verus! {

/// What a reference leads to from a base URL, if that is a URL.
pub uninterp spec fn url_join(base: Seq<char>, reference: Seq<char>) -> Option<Seq<char>>;

/// [`url::Url::join`] resolves a reference against a URL, here one that
/// [`url::Url::parse`] reads from a text. There is no result when the base is not
/// a URL or the reference cannot be resolved.
#[verifier::external_body]
pub(crate) fn join_url(base: &str, reference: &str) -> (r: Option<String>)
    ensures
        match r {
            Some(url) => url_join(base@, reference@) == Some(url@),
            None => url_join(base@, reference@) is None,
        },
{
    let base = url::Url::parse(base).ok()?;
    base.join(reference).ok().map(String::from)
}

/// Two parts that are not empty, with the only slash between them.
pub open spec fn is_two_parts(path: Seq<char>, at: int) -> bool {
    &&& 0 < at < path.len() - 1
    &&& path[at] == '/'
    &&& forall|i: int| 0 <= i < path.len() && i != at ==> path[i] != '/'
}

/// The server and the media ID of an `mxc` link, with the slash between them.
pub open spec fn mxc_path(url: Seq<char>) -> Option<Seq<char>> {
    if begins_with(url, "mxc://"@) && exists|at: int| is_two_parts(url.skip(6), at) {
        Some(url.skip(6))
    } else {
        None
    }
}

/// The link under which a client of a homeserver finds a media file: what an
/// `mxc` link leads to in the homeserver's downloads, or else the link itself.
/// It is missing when an `mxc` link leads to no URL.
pub open spec fn media_link(homeserver: Seq<char>, url: Seq<char>) -> Option<Seq<char>> {
    match mxc_path(url) {
        None => Some(url),
        Some(path) => match url_join(homeserver, "/_matrix/media/v1/download/"@) {
            None => None,
            Some(downloads) => url_join(downloads, path),
        },
    }
}

/// Reads the server and the media ID out of an `mxc` link.
pub fn parse_mxc(url: &str) -> (r: Option<String>)
    ensures
        match r {
            Some(path) => mxc_path(url@) == Some(path@),
            None => mxc_path(url@) is None,
        },
{
    proof {
        reveal_strlit("mxc://");
    }
    if !starts_with(url, "mxc://") {
        return None;
    }
    let n: usize = url.unicode_len();
    let path: &str = url.substring_char(6, n);
    assert(path@ =~= url@.skip(6));
    let len: usize = n - 6;
    let mut slashes: u8 = 0;
    let mut at: usize = 0;
    let mut i: usize = 0;
    while i < len
        invariant
            i <= len == path@.len(),
            slashes <= 2,
            slashes == 0 ==> forall|j: int| 0 <= j < i ==> path@[j] != '/',
            slashes == 1 ==> at < i && path@[at as int] == '/' && forall|j: int|
                0 <= j < i && j != at ==> path@[j] != '/',
            slashes == 2 ==> exists|j: int, k: int|
                0 <= j < k < i && path@[j] == '/' && path@[k] == '/',
        decreases len - i,
    {
        if path.get_char(i) == '/' {
            if slashes == 0 {
                slashes = 1;
                at = i;
            } else {
                proof {
                    if slashes == 1 {
                        assert(path@[at as int] == '/' && path@[i as int] == '/');
                    }
                }
                slashes = 2;
            }
        }
        i = i + 1;
    }
    if slashes == 1 && at > 0 && at < len - 1 {
        assert(is_two_parts(path@, at as int));
        Some(path.to_owned())
    } else {
        assert(forall|k: int| !is_two_parts(path@, k));
        None
    }
}

} // verus!
