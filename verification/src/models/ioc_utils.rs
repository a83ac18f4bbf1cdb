//! Detection of the kind of an indicator from its raw value, and the
//! canonical form of a value of a given kind.

use crate::address::{check_ip, is_ip};
use crate::models::IocType;
use crate::text::{
    all_ascii, char_is_alphanumeric, char_is_ascii_hexdigit, check_matches_at, concat, contains_char, find,
    find_char, find_sub, is_alphanumeric, is_ascii_hexdigit, lemma_find_from,
    lowercase, position, slice, starts_with, substring, to_chars, to_lowercase, to_uppercase, trim,
    trim_bounds, uppercase,
};
use vstd::prelude::*;

verus! {

/// `CVE-` in any case of its letters.
pub open spec fn has_cve_prefix(s: Seq<char>) -> bool {
    &&& s.len() >= 4
    &&& (s[0] == 'C' || s[0] == 'c')
    &&& (s[1] == 'V' || s[1] == 'v')
    &&& (s[2] == 'E' || s[2] == 'e')
    &&& s[3] == '-'
}

/// 32, 40 or 64 hexadecimal digits: an MD5, SHA-1 or SHA-256 digest.
pub open spec fn is_hash(s: Seq<char>) -> bool {
    &&& (s.len() == 32 || s.len() == 40 || s.len() == 64)
    &&& forall|i: int| 0 <= i < s.len() ==> is_ascii_hexdigit(#[trigger] s[i])
}

pub open spec fn http_prefix() -> Seq<char> {
    seq!['h', 't', 't', 'p', ':', '/', '/']
}

pub open spec fn https_prefix() -> Seq<char> {
    seq!['h', 't', 't', 'p', 's', ':', '/', '/']
}

/// What ends the scheme of a URL.
pub open spec fn scheme_separator() -> Seq<char> {
    seq![':', '/', '/']
}

pub open spec fn has_url_prefix(s: Seq<char>) -> bool {
    starts_with(s, http_prefix()) || starts_with(s, https_prefix())
}

/// A character that a domain name may hold.
pub open spec fn is_domain_char(c: char) -> bool {
    is_alphanumeric(c) || c == '.' || c == '-'
}

/// A dotted name of letters, digits, dots and hyphens.
pub open spec fn looks_like_domain(s: Seq<char>) -> bool {
    &&& s.contains('.')
    &&& !s.contains(' ')
    &&& !s.contains('/')
    &&& !s.contains('@')
    &&& forall|i: int| 0 <= i < s.len() ==> is_domain_char(#[trigger] s[i])
}

/// What stands before the first `/` is an address: a network in CIDR
/// notation.
pub open spec fn is_cidr(s: Seq<char>) -> bool {
    &&& s.contains('/')
    &&& is_ip(s.subrange(0, position(s, '/')))
}

/// The kind that a trimmed value is detected as; the first rule that
/// matches decides.
pub open spec fn classify_trimmed(s: Seq<char>) -> Option<IocType> {
    if s.len() == 0 {
        None
    } else if has_cve_prefix(s) {
        Some(IocType::Cve)
    } else if is_hash(s) {
        Some(IocType::Hash)
    } else if has_url_prefix(s) {
        Some(IocType::Url)
    } else if s.contains('@') && s.contains('.') {
        Some(IocType::Email)
    } else if is_ip(s) {
        Some(IocType::Ip)
    } else if is_cidr(s) {
        Some(IocType::Ip)
    } else if looks_like_domain(s) {
        Some(IocType::Domain)
    } else {
        None
    }
}

/// The kind that a raw value is detected as, if any.
pub open spec fn classify(value: Seq<char>) -> Option<IocType> {
    classify_trimmed(trim(value))
}

/// The canonical form of a trimmed URL: scheme and authority in lower case,
/// what follows the authority as it is. Without `://`, or without a `/`
/// after it, all of it is in lower case.
pub open spec fn normalize_url(s: Seq<char>) -> Seq<char> {
    let i = find(s, scheme_separator());
    if i >= s.len() {
        lowercase(s)
    } else {
        let rest = s.subrange(i + 3, s.len() as int);
        let j = position(rest, '/');
        if j >= rest.len() {
            lowercase(s)
        } else {
            lowercase(s.subrange(0, i + 3)) + lowercase(rest.subrange(0, j)) + rest.subrange(
                j,
                rest.len() as int,
            )
        }
    }
}

/// The canonical form of a value of the given kind.
pub open spec fn normalize(value: Seq<char>, ioc_type: IocType) -> Seq<char> {
    let s = trim(value);
    match ioc_type {
        IocType::Cve => uppercase(s),
        IocType::Url => normalize_url(s),
        _ => lowercase(s),
    }
}

fn check_cve_prefix(s: &Vec<char>) -> (b: bool)
    ensures
        b == has_cve_prefix(s@),
{
    s.len() >= 4 && (s[0] == 'C' || s[0] == 'c') && (s[1] == 'V' || s[1] == 'v') && (s[2] == 'E'
        || s[2] == 'e') && s[3] == '-'
}

fn check_hash(s: &Vec<char>) -> (b: bool)
    ensures
        b == is_hash(s@),
{
    if !(s.len() == 32 || s.len() == 40 || s.len() == 64) {
        return false;
    }
    let mut i: usize = 0;
    while i < s.len()
        invariant
            i <= s.len(),
            forall|k: int| 0 <= k < i ==> is_ascii_hexdigit(#[trigger] s@[k]),
        decreases s.len() - i,
    {
        if !char_is_ascii_hexdigit(s[i]) {
            return false;
        }
        i = i + 1;
    }
    true
}

fn check_url_prefix(s: &Vec<char>) -> (b: bool)
    ensures
        b == has_url_prefix(s@),
{
    let http: Vec<char> = vec!['h', 't', 't', 'p', ':', '/', '/'];
    let https: Vec<char> = vec!['h', 't', 't', 'p', 's', ':', '/', '/'];
    assert(http@ =~= http_prefix());
    assert(https@ =~= https_prefix());
    check_matches_at(s, &http, 0) || check_matches_at(s, &https, 0)
}

fn check_cidr(s: &Vec<char>) -> (b: bool)
    ensures
        b == is_cidr(s@),
{
    if !contains_char(s, '/') {
        return false;
    }
    let p = find_char(s, '/');
    let left = slice(s, 0, p);
    check_ip(&left)
}

fn check_domain(s: &Vec<char>) -> (b: bool)
    ensures
        b == looks_like_domain(s@),
{
    if !contains_char(s, '.') || contains_char(s, ' ') || contains_char(s, '/') || contains_char(
        s,
        '@',
    ) {
        return false;
    }
    let mut i: usize = 0;
    while i < s.len()
        invariant
            i <= s.len(),
            forall|k: int| 0 <= k < i ==> is_domain_char(#[trigger] s@[k]),
        decreases s.len() - i,
    {
        let c = s[i];
        if !(char_is_alphanumeric(c) || c == '.' || c == '-') {
            return false;
        }
        i = i + 1;
    }
    true
}

/// Detects the kind of an indicator from its raw value. `None` where the
/// value is empty or no rule recognises it.
pub fn detect_ioc_type(value: &str) -> (r: Option<IocType>)
    ensures
        r == classify(value@),
{
    let chars = to_chars(value);
    let (a, b) = trim_bounds(&chars);
    let s = slice(&chars, a, b);
    if s.len() == 0 {
        None
    } else if check_cve_prefix(&s) {
        Some(IocType::Cve)
    } else if check_hash(&s) {
        Some(IocType::Hash)
    } else if check_url_prefix(&s) {
        Some(IocType::Url)
    } else if contains_char(&s, '@') && contains_char(&s, '.') {
        Some(IocType::Email)
    } else if check_ip(&s) {
        Some(IocType::Ip)
    } else if check_cidr(&s) {
        Some(IocType::Ip)
    } else if check_domain(&s) {
        Some(IocType::Domain)
    } else {
        None
    }
}

/// The canonical form of a value of the given kind: trimmed; in upper case
/// for a CVE; for a URL with scheme and authority in lower case; in lower
/// case for every other kind. The canonical form of a value that is ASCII
/// between the whitespace at its ends is its own canonical form.
pub fn normalize_ioc(value: &str, ioc_type: &IocType) -> (r: String)
    ensures
        r@ == normalize(value@, *ioc_type),
        all_ascii(trim(value@)) ==> normalize(r@, *ioc_type) == r@,
{
    proof {
        if all_ascii(trim(value@)) {
            crate::laws::lemma_normalize_idempotent_ascii(value@, *ioc_type);
        }
    }
    let chars = to_chars(value);
    let (a, b) = trim_bounds(&chars);
    let trimmed = substring(value, a, b);
    match ioc_type {
        IocType::Cve => to_uppercase(trimmed.as_str()),
        IocType::Url => {
            let s = slice(&chars, a, b);
            let sep: Vec<char> = vec![':', '/', '/'];
            assert(sep@ =~= scheme_separator());
            let i = find_sub(&s, &sep);
            if i >= s.len() {
                to_lowercase(trimmed.as_str())
            } else {
                proof {
                    lemma_find_from(s@, sep@, 0);
                }
                let rest = slice(&s, i + 3, s.len());
                let j = find_char(&rest, '/');
                if j >= rest.len() {
                    to_lowercase(trimmed.as_str())
                } else {
                    let scheme = substring(trimmed.as_str(), 0, i + 3);
                    let host = substring(trimmed.as_str(), i + 3, i + 3 + j);
                    let path = substring(trimmed.as_str(), i + 3 + j, s.len());
                    let low_scheme = to_lowercase(scheme.as_str());
                    let low_host = to_lowercase(host.as_str());
                    let front = concat(low_scheme.as_str(), low_host.as_str());
                    proof {
                        let t = s@;
                        let r = t.subrange(i + 3, t.len() as int);
                        assert(host@ =~= r.subrange(0, j as int));
                        assert(path@ =~= r.subrange(j as int, r.len() as int));
                    }
                    concat(front.as_str(), path.as_str())
                }
            }
        },
        _ => to_lowercase(trimmed.as_str()),
    }
}

} // verus!
