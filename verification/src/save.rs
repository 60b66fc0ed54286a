//! Naming of saved page files: the page's domain made safe to use in a
//! file name, and a hash of its URL.

use vstd::prelude::*;
use vstd::string::*;
use crate::session::{hex16, hex_digits};
use crate::text::{chars_of, string_from_chars};
use crate::urls::{host, host_of, url_parses};

verus! {

/// Whether `char::is_alphanumeric` holds of `c` (Unicode alphabetic or
/// numeric).
pub uninterp spec fn alphanumeric(c: char) -> bool;

/// An ASCII letter or digit.
pub open spec fn is_ascii_alnum(c: char) -> bool {
    ('a' <= c && c <= 'z') || ('A' <= c && c <= 'Z') || ('0' <= c && c <= '9')
}

/// Calls `char::is_alphanumeric`; the result is named `alphanumeric`, and on
/// ASCII it holds exactly of letters and digits, as the documentation says.
#[verifier::external_body]
fn is_alphanumeric(c: char) -> (r: bool)
    ensures
        r == alphanumeric(c),
        (c as u32) < 128 ==> (r == is_ascii_alnum(c)),
{
    c.is_alphanumeric()
}

/// The character that stands for `c` in a sanitized domain.
pub open spec fn safe_char(c: char) -> char {
    if alphanumeric(c) || c == '.' || c == '-' {
        c
    } else {
        '_'
    }
}

/// Replaces every character of a domain that is not alphanumeric, `.` or
/// `-` with `_`.
pub fn sanitize_domain(domain: &str) -> (r: String)
    ensures
        r@ == domain@.map_values(|c: char| safe_char(c)),
{
    let chars = chars_of(domain);
    let mut out: Vec<char> = Vec::new();
    let mut i: usize = 0;
    while i < chars.len()
        invariant
            chars@ == domain@,
            i <= chars@.len(),
            out@ == chars@.take(i as int).map_values(|c: char| safe_char(c)),
        decreases chars@.len() - i,
    {
        let c = chars[i];
        let keep = is_alphanumeric(c) || c == '.' || c == '-';
        out.push(if keep { c } else { '_' });
        assert(chars@.take(i + 1).map_values(|c: char| safe_char(c)) =~= chars@.take(
            i as int,
        ).map_values(|c: char| safe_char(c)).push(safe_char(c)));
        i += 1;
    }
    assert(chars@.take(chars@.len() as int) =~= chars@);
    string_from_chars(&out)
}

/// The 64-bit hash `std::collections::hash_map::DefaultHasher` (created with
/// `new`) gives a string, as `str::hash` feeds it.
pub uninterp spec fn default_hash_of(s: Seq<char>) -> u64;

/// Hashes `s` with a fresh `DefaultHasher`; the result is named
/// `default_hash_of(s@)` (every `DefaultHasher::new` starts from the same
/// keys, so the hash is a function of the string).
#[verifier::external_body]
fn default_hash(s: &str) -> (h: u64)
    ensures
        h == default_hash_of(s@),
{
    let mut hasher = std::collections::hash_map::DefaultHasher::new();
    std::hash::Hash::hash(s, &mut hasher);
    std::hash::Hasher::finish(&hasher)
}

/// The domain a saved page is filed under: the URL's host, or `unknown`.
pub open spec fn saved_domain(url: Seq<char>) -> Seq<char> {
    if url_parses(url) && host_of(url) is Some {
        host_of(url).unwrap()
    } else {
        "unknown"@
    }
}

/// The file a page is saved to: its sanitized domain, `_`, sixteen hex
/// digits of the hash of its URL, and `.html`.
pub fn saved_file_name(url: &str) -> (r: String)
    ensures
        r@ == saved_domain(url@).map_values(|c: char| safe_char(c)) + "_"@ + hex_digits(
            default_hash_of(url@) as nat,
            16,
        ) + ".html"@,
{
    let domain = match host(url) {
        Some(h) => h,
        None => String::from_str("unknown"),
    };
    let mut name = sanitize_domain(domain.as_str());
    name.append("_");
    let h = hex16(default_hash(url));
    name.append(h.as_str());
    name.append(".html");
    name
}

} // verus!
