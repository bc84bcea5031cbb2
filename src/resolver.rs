//! Turning an attachment reference (a URL-like string) into a physical path,
//! and keeping such paths inside the vault.

use vstd::prelude::*;
use vstd::string::*;
use vstd::utf8::*;

use crate::error::VaultError;
use crate::text::{has_prefix, is_prefix, slice};

verus! {

/// The scheme prefixes a reference may carry, most specific first.
pub open spec fn scheme_prefix(i: int) -> Seq<char> {
    if i == 0 {
        "http://asset.localhost/"@
    } else if i == 1 {
        "https://asset.localhost/"@
    } else if i == 2 {
        "asset://localhost/"@
    } else {
        "asset://"@
    }
}

/// Number of known scheme prefixes.
pub const SCHEME_COUNT: usize = 4;

/// `u` without the first of the prefixes `i`, `i + 1`, ... that it starts with.
pub open spec fn strip_from(u: Seq<char>, i: int) -> Seq<char>
    decreases SCHEME_COUNT - i,
{
    if i < 0 || i >= SCHEME_COUNT {
        u
    } else if is_prefix(scheme_prefix(i), u) {
        u.subrange(scheme_prefix(i).len() as int, u.len() as int)
    } else {
        strip_from(u, i + 1)
    }
}

/// `u` without its scheme prefix; unchanged when it has none.
pub open spec fn stripped(u: Seq<char>) -> Seq<char> {
    strip_from(u, 0)
}

/// An ASCII hexadecimal digit.
pub open spec fn is_hex_digit(b: u8) -> bool {
    (48 <= b <= 57) || (65 <= b <= 70) || (97 <= b <= 102)
}

/// Value of an ASCII hexadecimal digit.
pub open spec fn hex_value(b: u8) -> int {
    if 48 <= b <= 57 {
        b - 48
    } else if 65 <= b <= 70 {
        b - 55
    } else {
        b - 87
    }
}

/// Percent-decoding of bytes: each `%` followed by two hexadecimal digits
/// becomes the byte they spell; every other byte, a lone `%` included,
/// stays as it is.
pub open spec fn percent_decoded(b: Seq<u8>) -> Seq<u8>
    decreases b.len(),
{
    if b.len() == 0 {
        Seq::empty()
    } else if b.len() >= 3 && b[0] == 37 && is_hex_digit(b[1]) && is_hex_digit(b[2]) {
        seq![(hex_value(b[1]) * 16 + hex_value(b[2])) as u8] + percent_decoded(
            b.subrange(3, b.len() as int),
        )
    } else {
        seq![b[0]] + percent_decoded(b.subrange(1, b.len() as int))
    }
}

/// The physical path a reference names: scheme stripped, then
/// percent-decoded as UTF-8; `None` where the bytes are not UTF-8.
pub open spec fn resolved(u: Seq<char>) -> Option<Seq<char>> {
    let bytes = percent_decoded(encode_utf8(stripped(u)));
    if valid_utf8(bytes) {
        Some(decode_utf8(bytes))
    } else {
        None
    }
}

/// A path separator of either host syntax.
pub open spec fn is_separator(c: char) -> bool {
    c == '/' || c == '\\'
}

/// `s` has a segment that is exactly `..`.
pub open spec fn has_parent_segment(s: Seq<char>) -> bool {
    exists|i: int| #![trigger s[i], s[i + 1]]
        0 <= i && i + 1 < s.len() && s[i] == '.' && s[i + 1] == '.' && (i == 0 || is_separator(
            s[i - 1],
        )) && (i + 2 == s.len() || is_separator(s[i + 2]))
}

/// `path` names something strictly below the directory `root`, and no
/// `..` segment can lead it back out.
pub open spec fn within_root(root: Seq<char>, path: Seq<char>) -> bool {
    &&& root.len() > 0
    &&& is_prefix(root, path)
    &&& path.len() > root.len()
    &&& (is_separator(root.last()) || is_separator(path[root.len() as int]))
    &&& !has_parent_segment(path)
}

fn scheme_prefix_text(i: usize) -> (r: &'static str)
    requires
        i < SCHEME_COUNT,
    ensures
        r@ == scheme_prefix(i as int),
{
    if i == 0 {
        "http://asset.localhost/"
    } else if i == 1 {
        "https://asset.localhost/"
    } else if i == 2 {
        "asset://localhost/"
    } else {
        "asset://"
    }
}

/// Removes the first matching scheme prefix from `url`.
pub fn strip_scheme(url: &str) -> (r: String)
    ensures
        r@ == stripped(url@),
{
    let mut i: usize = 0;
    while i < SCHEME_COUNT
        invariant
            i <= SCHEME_COUNT,
            stripped(url@) == strip_from(url@, i as int),
        decreases SCHEME_COUNT - i,
    {
        let p = scheme_prefix_text(i);
        if has_prefix(url, p) {
            let n = url.unicode_len();
            let m = p.unicode_len();
            return slice(url, m, n);
        }
        i = i + 1;
    }
    String::from_str(url)
}

/// Relies on percent_encoding::percent_decode_str with
/// PercentDecode::decode_utf8: `%` and two hex digits become one byte, other
/// bytes are kept, and the result is text exactly when those bytes are UTF-8.
#[verifier::external_body]
fn decode_percent_utf8(s: &str) -> (r: Option<String>)
    ensures
        r is Some <==> valid_utf8(percent_decoded(s.spec_bytes())),
        r matches Some(t) ==> t@ == decode_utf8(percent_decoded(s.spec_bytes())),
{
    percent_encoding::percent_decode_str(s).decode_utf8().ok().map(|t| t.into_owned())
}

/// Resolves an attachment reference to a physical path string.
pub fn parse_asset_url(url: &str) -> (r: Result<String, VaultError>)
    ensures
        r is Ok <==> resolved(url@) is Some,
        r matches Ok(p) ==> resolved(url@) == Some(p@),
        r matches Err(e) ==> e is DecodeError,
{
    let rest = strip_scheme(url);
    match decode_percent_utf8(rest.as_str()) {
        Some(p) => Ok(p),
        None => Err(VaultError::DecodeError),
    }
}

/// Whether `path` has a `..` segment.
pub fn contains_parent_segment(path: &str) -> (r: bool)
    ensures
        r == has_parent_segment(path@),
{
    let n = path.unicode_len();
    let mut i: usize = 0;
    while i < n
        invariant
            n == path@.len(),
            i <= n,
            forall|j: int|
                #![trigger path@[j], path@[j + 1]]
                0 <= j < i && j + 1 < n ==> !(path@[j] == '.' && path@[j + 1] == '.' && (j == 0
                    || is_separator(path@[j - 1])) && (j + 2 == n || is_separator(path@[j + 2]))),
        decreases n - i,
    {
        if i + 1 < n && path.get_char(i) == '.' && path.get_char(i + 1) == '.' {
            let before = i == 0 || {
                let c = path.get_char(i - 1);
                c == '/' || c == '\\'
            };
            let after = i + 2 == n || {
                let c = path.get_char(i + 2);
                c == '/' || c == '\\'
            };
            if before && after {
                return true;
            }
        }
        i = i + 1;
    }
    false
}

/// Whether `path` lies strictly below `root` with no `..` segment.
pub fn is_within_root(root: &str, path: &str) -> (r: bool)
    ensures
        r == within_root(root@, path@),
{
    let m = root.unicode_len();
    let n = path.unicode_len();
    if m == 0 || m >= n || !has_prefix(path, root) {
        return false;
    }
    let a = root.get_char(m - 1);
    let b = path.get_char(m);
    if !(a == '/' || a == '\\' || b == '/' || b == '\\') {
        return false;
    }
    !contains_parent_segment(path)
}

/// Resolves `url` and accepts the result only inside the vault `root`:
/// Every deletion or opening of a referenced file goes through this check.
pub fn resolve_within_root(root: &str, url: &str) -> (r: Result<String, VaultError>)
    ensures
        resolved(url@) is None ==> (r matches Err(e) && e is DecodeError),
        resolved(url@) matches Some(p) ==> {
            if within_root(root@, p) {
                (r matches Ok(q) && q@ == p)
            } else {
                (r matches Err(e) && e is SecurityRejected)
            }
        },
        r matches Ok(q) ==> within_root(root@, q@),
{
    match parse_asset_url(url) {
        Err(e) => Err(e),
        Ok(p) => {
            if is_within_root(root, p.as_str()) {
                Ok(p)
            } else {
                Err(VaultError::SecurityRejected)
            }
        },
    }
}

} // verus!
