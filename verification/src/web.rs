//! Routing of a web request to a bucket and a key: the host is read from
//! the authority that the request names, the bucket from the host, the
//! key from the path.

use crate::error::Error;
use vstd::prelude::*;

verus! {

/// The first index from `from` on at which `s` holds `c`; the length of
/// `s` if there is none.
pub open spec fn first_index(s: Seq<char>, c: char, from: int) -> int
    decreases s.len() - from,
{
    if from < 0 || from >= s.len() {
        s.len() as int
    } else if s[from] == c {
        from
    } else {
        first_index(s, c, from + 1)
    }
}

/// The host that an authority names, if the authority is well formed.
///
/// An authority is a host with an optional port: `host` or `host:port`.
/// A host that starts with `[` runs to the first `]`, which must end the
/// authority or be followed by `:`. Any other host runs to the first `:`,
/// or to the end. The empty authority names no host.
pub open spec fn authority_host(authority: Seq<char>) -> Option<Seq<char>> {
    if authority.len() == 0 {
        None
    } else if authority[0] == '[' {
        let close = first_index(authority, ']', 1);
        if close >= authority.len() {
            None
        } else if close + 1 == authority.len() {
            Some(authority)
        } else if authority[close + 1] == ':' {
            Some(authority.take(close + 1))
        } else {
            None
        }
    } else {
        let colon = first_index(authority, ':', 0);
        if colon >= authority.len() {
            Some(authority)
        } else {
            Some(authority.take(colon))
        }
    }
}

/// Scans `s` from `from` for `c`.
fn find_char(s: &str, c: char, from: usize, len: usize) -> (i: usize)
    requires
        len == s@.len(),
        from <= len,
    ensures
        i == first_index(s@, c, from as int),
        from <= i <= len,
        i < len ==> s@[i as int] == c,
{
    let mut i: usize = from;
    while i < len
        invariant
            len == s@.len(),
            from <= i <= len,
            first_index(s@, c, from as int) == first_index(s@, c, i as int),
        decreases len - i,
    {
        if s.get_char(i) == c {
            return i;
        }
        i += 1;
    }
    i
}

/// Extracts the host from the authority given by the `Host` header of a
/// request. An authority that names no host is a bad request.
pub fn authority_to_host(authority: &str) -> (res: Result<&str, Error>)
    ensures
        match res {
            Ok(host) => authority_host(authority@) == Some(host@),
            Err(e) => authority_host(authority@).is_none() && (e matches Error::BadRequest(text)
                && text@ == (if authority@.len() == 0 {
                "Authority is empty"@
            } else {
                "Authority has an illegal format"@
            })),
        },
{
    let len = authority.unicode_len();
    if len == 0 {
        return Err(Error::BadRequest(String::from_str("Authority is empty")));
    }
    if authority.get_char(0) == '[' {
        let close = find_char(authority, ']', 1, len);
        if close >= len {
            Err(Error::BadRequest(String::from_str("Authority has an illegal format")))
        } else if close + 1 == len {
            assert(authority@.subrange(0, len as int) =~= authority@);
            Ok(authority.substring_char(0, len))
        } else if authority.get_char(close + 1) == ':' {
            Ok(authority.substring_char(0, close + 1))
        } else {
            Err(Error::BadRequest(String::from_str("Authority has an illegal format")))
        }
    } else {
        let colon = find_char(authority, ':', 0, len);
        if colon >= len {
            assert(authority@.subrange(0, len as int) =~= authority@);
            Ok(authority.substring_char(0, len))
        } else {
            Ok(authority.substring_char(0, colon))
        }
    }
}

/// `s` ends with `suffix`.
pub open spec fn ends_with(s: Seq<char>, suffix: Seq<char>) -> bool {
    suffix.len() <= s.len() && s.subrange(s.len() - suffix.len(), s.len() as int) == suffix
}

/// The bucket that a host names under a root domain.
///
/// A host that does not end with the root domain is the bucket. Else the
/// bucket is the host without the root domain and without the dot
/// before it: a root domain that does not start with a dot takes one more
/// character with it, and where there is none to take, the host is the
/// bucket.
pub open spec fn bucket_of(host: Seq<char>, root: Seq<char>) -> Seq<char> {
    if !ends_with(host, root) {
        host
    } else if root.len() > 0 && root[0] == '.' {
        host.take(host.len() - root.len())
    } else if root.len() == host.len() {
        host
    } else {
        host.take(host.len() - root.len() - 1)
    }
}

/// Extracts the bucket name from the host of a request, given the root
/// domain under which buckets are served.
pub fn host_to_bucket<'a>(host: &'a str, root: &str) -> (bucket: &'a str)
    ensures
        bucket@ == bucket_of(host@, root@),
{
    let host_len = host.unicode_len();
    let root_len = root.unicode_len();
    if root_len > host_len {
        return host;
    }
    let len_diff = host_len - root_len;
    let mut k: usize = 0;
    while k < root_len
        invariant
            host_len == host@.len(),
            root_len == root@.len(),
            root_len <= host_len,
            len_diff == host_len - root_len,
            k <= root_len,
            forall|j: int| 0 <= j < k ==> host@[len_diff + j] == root@[j],
        decreases root_len - k,
    {
        if host.get_char(len_diff + k) != root.get_char(k) {
            proof {
                let tail = host@.subrange(host@.len() - root@.len(), host@.len() as int);
                assert(tail[k as int] == host@[len_diff + k]);
            }
            return host;
        }
        k += 1;
    }
    assert(host@.subrange(host@.len() - root@.len(), host@.len() as int) =~= root@);
    let starting_dot = root_len > 0 && root.get_char(0) == '.';
    if starting_dot {
        host.substring_char(0, len_diff)
    } else if len_diff == 0 {
        host
    } else {
        host.substring_char(0, len_diff - 1)
    }
}

/// The text that a percent-encoded path spells once each `%` followed by
/// two hexadecimal digits is replaced by the byte they name, if those
/// bytes are UTF-8; none if they are not.
pub uninterp spec fn percent_decoded(path: Seq<char>) -> Option<Seq<char>>;

#[verifier::external_type_specification]
#[verifier::external_body]
pub struct ExUtf8Error(core::str::Utf8Error);

/// Calls `percent_encoding::percent_decode_str` and `decode_utf8` on its
/// result. Trusted: success and the decoded text are a function of the
/// path alone, named [`percent_decoded`]; the call fails exactly when the
/// decoded bytes are not UTF-8.
#[verifier::external_body]
fn percent_decode_utf8(path: &str) -> (res: Result<String, core::str::Utf8Error>)
    ensures
        match res {
            Ok(text) => percent_decoded(path@) == Some(text@),
            Err(_) => percent_decoded(path@).is_none(),
        },
{
    match percent_encoding::percent_decode_str(path).decode_utf8() {
        Ok(text) => Ok(text.into_owned()),
        Err(e) => Err(e),
    }
}

/// What the optional authority of a request spells.
pub open spec fn opt_text(text: Option<&str>) -> Option<Seq<char>> {
    match text {
        Some(t) => Some(t@),
        None => None,
    }
}

/// Why a request cannot be routed, if it cannot: it has no `Host` header,
/// its authority names no host, or its path does not decode, in that
/// order.
pub open spec fn route_failure(authority: Option<Seq<char>>, path_decodes: bool) -> Option<
    Seq<char>,
> {
    match authority {
        None => Some("HOST header required"@),
        Some(a) => if a.len() == 0 {
            Some("Authority is empty"@)
        } else if authority_host(a).is_none() {
            Some("Authority has an illegal format"@)
        } else if !path_decodes {
            Some("Invalid UTF-8 in path"@)
        } else {
            None
        },
    }
}

/// Finds the bucket and the key that a request addresses, given the
/// authority of its `Host` header if it has one, the root domain under
/// which buckets are served, and the decoded path of its target. The
/// bucket is read from the host; the key is the decoded path.
pub fn route_decoded(
    authority: Option<&str>,
    root: &str,
    key: Result<String, core::str::Utf8Error>,
) -> (res: Result<(String, String), Error>)
    ensures
        match res {
            Ok((bucket, key_text)) => {
                &&& route_failure(opt_text(authority), key is Ok).is_none()
                &&& authority matches Some(a) && authority_host(a@) matches Some(host) && bucket@
                    == bucket_of(host, root@)
                &&& key matches Ok(k) && k == key_text
            },
            Err(e) => e matches Error::BadRequest(text) && route_failure(
                opt_text(authority),
                key is Ok,
            ) == Some(text@),
        },
{
    let authority = match authority {
        Some(a) => a,
        None => {
            return Err(Error::BadRequest(String::from_str("HOST header required")));
        },
    };
    let host = match authority_to_host(authority) {
        Ok(h) => h,
        Err(e) => {
            return Err(e);
        },
    };
    let bucket = host_to_bucket(host, root);
    match key {
        Ok(key_text) => Ok((String::from_str(bucket), key_text)),
        Err(_) => Err(Error::BadRequest(String::from_str("Invalid UTF-8 in path"))),
    }
}

/// Finds the bucket and the key that a request addresses, given the
/// authority of its `Host` header if it has one, the root domain under
/// which buckets are served, and the path of its target.
pub fn route(authority: Option<&str>, root: &str, path: &str) -> (res: Result<
    (String, String),
    Error,
>)
    ensures
        match res {
            Ok((bucket, key)) => {
                &&& route_failure(opt_text(authority), percent_decoded(path@).is_some()).is_none()
                &&& authority matches Some(a) && authority_host(a@) matches Some(host) && bucket@
                    == bucket_of(host, root@)
                &&& percent_decoded(path@) == Some(key@)
            },
            Err(e) => e matches Error::BadRequest(text) && route_failure(
                opt_text(authority),
                percent_decoded(path@).is_some(),
            ) == Some(text@),
        },
{
    route_decoded(authority, root, percent_decode_utf8(path))
}

} // verus!
