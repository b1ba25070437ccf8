//! Best-effort indicator-type classification, shared by the STIX and MISP
//! exports so that the two formats agree on what a raw indicator is.
//! Deliberately narrow: claiming a structured type that is wrong is worse
//! than claiming none.

use vstd::prelude::*;
use crate::text::{is_alphanumeric, trimmed, trim_str, chars_of, char_is_alphanumeric};
use crate::ip::{ipv4_syntax, ipv6_syntax, is_ipv4, is_ipv6};

verus! {

#[derive(Debug, Clone, Copy, PartialEq, Eq)]
pub enum IndicatorKind {
    Md5,
    Sha1,
    Sha256,
    Ipv4,
    Ipv6,
    Url,
    Domain,
    /// Matches none of the above.
    Unrecognized,
}

/// An ASCII hexadecimal digit.
pub open spec fn is_hex_digit(c: char) -> bool {
    ('0' <= c && c <= '9') || ('a' <= c && c <= 'f') || ('A' <= c && c <= 'F')
}

/// `len` ASCII hexadecimal digits.
pub open spec fn is_hex_spec(s: Seq<char>, len: nat) -> bool {
    s.len() == len && forall|i: int| 0 <= i < s.len() ==> is_hex_digit(#[trigger] s[i])
}

/// Starts with `p`.
pub open spec fn starts_with(s: Seq<char>, p: Seq<char>) -> bool {
    p.len() <= s.len() && s.take(p.len() as int) == p
}

/// A plausible DNS name: no slash or space, at least one dot, and every
/// dot-separated label non-empty and made of alphanumerics and hyphens.
pub open spec fn looks_like_domain_spec(s: Seq<char>) -> bool {
    &&& !s.contains('/')
    &&& !s.contains(' ')
    &&& s.contains('.')
    &&& s[0] != '.'
    &&& s.last() != '.'
    &&& forall|i: int| 0 <= i < s.len() - 1 && s[i] == '.' ==> #[trigger] s[i + 1] != '.'
    &&& forall|i: int| 0 <= i < s.len() && s[i] != '.' ==> is_alphanumeric(#[trigger] s[i]) || s[i] == '-'
}

/// The kind of an already-trimmed indicator: the first test that matches wins.
pub open spec fn kind_of(s: Seq<char>) -> IndicatorKind {
    if is_hex_spec(s, 32) {
        IndicatorKind::Md5
    } else if is_hex_spec(s, 40) {
        IndicatorKind::Sha1
    } else if is_hex_spec(s, 64) {
        IndicatorKind::Sha256
    } else if ipv4_syntax(s) {
        IndicatorKind::Ipv4
    } else if ipv6_syntax(s) {
        IndicatorKind::Ipv6
    } else if starts_with(s, "http://"@) || starts_with(s, "https://"@) {
        IndicatorKind::Url
    } else if looks_like_domain_spec(s) {
        IndicatorKind::Domain
    } else {
        IndicatorKind::Unrecognized
    }
}

/// The kind of a raw indicator (classified after trimming).
pub open spec fn classify_spec(raw: Seq<char>) -> IndicatorKind {
    kind_of(trimmed(raw))
}

fn is_hex_char(c: char) -> (b: bool)
    ensures
        b == is_hex_digit(c),
{
    ('0' <= c && c <= '9') || ('a' <= c && c <= 'f') || ('A' <= c && c <= 'F')
}

/// Exactly `len` ASCII hexadecimal digits.
pub fn is_hex(s: &Vec<char>, len: usize) -> (b: bool)
    ensures
        b == is_hex_spec(s@, len as nat),
{
    if s.len() != len {
        return false;
    }
    let mut i: usize = 0;
    while i < s.len()
        invariant
            i <= s@.len(),
            forall|k: int| 0 <= k < i ==> is_hex_digit(#[trigger] s@[k]),
        decreases s@.len() - i,
    {
        if !is_hex_char(s[i]) {
            return false;
        }
        i = i + 1;
    }
    true
}

/// Whether `s` begins with the characters of `p`.
pub fn has_prefix(s: &Vec<char>, p: &str) -> (b: bool)
    ensures
        b == starts_with(s@, p@),
{
    let pv = chars_of(p);
    if pv.len() > s.len() {
        return false;
    }
    let mut i: usize = 0;
    while i < pv.len()
        invariant
            pv@ == p@,
            pv@.len() <= s@.len(),
            i <= pv@.len(),
            forall|k: int| 0 <= k < i ==> s@[k] == pv@[k],
        decreases pv@.len() - i,
    {
        if s[i] != pv[i] {
            proof { assert(s@.take(pv@.len() as int)[i as int] != pv@[i as int]); }
            return false;
        }
        i = i + 1;
    }
    proof { assert(s@.take(pv@.len() as int) =~= pv@); }
    true
}

/// Whether `c` occurs in `s`.
pub fn has_char(s: &Vec<char>, c: char) -> (b: bool)
    ensures
        b == s@.contains(c),
{
    let mut i: usize = 0;
    while i < s.len()
        invariant
            i <= s@.len(),
            forall|k: int| 0 <= k < i ==> s@[k] != c,
        decreases s@.len() - i,
    {
        if s[i] == c {
            proof { assert(s@[i as int] == c); }
            return true;
        }
        i = i + 1;
    }
    false
}

/// No scheme or slash, at least one dot, and every label a plausible DNS label.
pub fn looks_like_domain(s: &Vec<char>) -> (b: bool)
    ensures
        b == looks_like_domain_spec(s@),
{
    if has_char(s, '/') || has_char(s, ' ') || !has_char(s, '.') {
        return false;
    }
    let n = s.len();
    if s[0] == '.' || s[n - 1] == '.' {
        return false;
    }
    let mut i: usize = 0;
    while i < n
        invariant
            n == s@.len(),
            n > 0,
            i <= n,
            forall|k: int| 0 <= k < i && k < n - 1 && s@[k] == '.' ==> #[trigger] s@[k + 1] != '.',
            forall|k: int| 0 <= k < i && s@[k] != '.' ==> is_alphanumeric(#[trigger] s@[k]) || s@[k] == '-',
        decreases n - i,
    {
        let c = s[i];
        if c == '.' {
            if i + 1 < n && s[i + 1] == '.' {
                return false;
            }
        } else if !(char_is_alphanumeric(c) || c == '-') {
            return false;
        }
        i = i + 1;
    }
    true
}

/// The kind of `s`, which is already trimmed.
pub fn kind_of_chars(s: &Vec<char>) -> (k: IndicatorKind)
    ensures
        k == kind_of(s@),
{
    if is_hex(s, 32) {
        return IndicatorKind::Md5;
    }
    if is_hex(s, 40) {
        return IndicatorKind::Sha1;
    }
    if is_hex(s, 64) {
        return IndicatorKind::Sha256;
    }
    if is_ipv4(s) {
        return IndicatorKind::Ipv4;
    }
    if is_ipv6(s) {
        return IndicatorKind::Ipv6;
    }
    if has_prefix(s, "http://") || has_prefix(s, "https://") {
        return IndicatorKind::Url;
    }
    if looks_like_domain(s) {
        return IndicatorKind::Domain;
    }
    IndicatorKind::Unrecognized
}

/// Classifies a raw indicator, after trimming surrounding white space.
pub fn classify(raw_indicator: &str) -> (k: IndicatorKind)
    ensures
        k == classify_spec(raw_indicator@),
{
    let s = trim_str(raw_indicator);
    let v = chars_of(s);
    kind_of_chars(&v)
}

} // verus!
