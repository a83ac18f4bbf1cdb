//! The textual grammar of IPv4 and IPv6 addresses.
//!
//! An IPv4 address is four decimal octets separated by dots, none with a
//! superfluous leading zero. An IPv6 address is eight groups of one to four
//! hexadecimal digits separated by colons; one run of zero groups may be
//! written `::`, and the last two groups may be written as an IPv4 address.

use crate::text::{
    char_is_ascii_digit, char_is_ascii_hexdigit, find, find_sub, is_ascii_digit,
    is_ascii_hexdigit, lemma_find_from, slice, split, split_chars, views,
};
use vstd::prelude::*;

verus! {

/// The number that a string of decimal digits denotes.
pub open spec fn decimal_value(p: Seq<char>) -> int
    decreases p.len(),
{
    if p.len() == 0 {
        0
    } else {
        decimal_value(p.drop_last()) * 10 + (p.last() as u32 - 0x30)
    }
}

pub open spec fn all_digits(p: Seq<char>) -> bool {
    forall|i: int| 0 <= i < p.len() ==> is_ascii_digit(#[trigger] p[i])
}

pub open spec fn all_hexdigits(p: Seq<char>) -> bool {
    forall|i: int| 0 <= i < p.len() ==> is_ascii_hexdigit(#[trigger] p[i])
}

/// One to three decimal digits that denote at most 255, with no leading
/// zero before another digit.
pub open spec fn is_dec_octet(p: Seq<char>) -> bool {
    &&& 1 <= p.len() <= 3
    &&& all_digits(p)
    &&& (p.len() > 1 ==> p[0] != '0')
    &&& decimal_value(p) <= 255
}

/// One to four hexadecimal digits.
pub open spec fn is_hex_group(p: Seq<char>) -> bool {
    &&& 1 <= p.len() <= 4
    &&& all_hexdigits(p)
}

pub open spec fn is_ipv4(s: Seq<char>) -> bool {
    let parts = split(s, '.');
    &&& parts.len() == 4
    &&& forall|k: int| 0 <= k < 4 ==> is_dec_octet(#[trigger] parts[k])
}

/// How many 16-bit groups a colon-separated list denotes: each piece is a
/// hexadecimal group, except that the last may be an IPv4 address (two
/// groups) where `v4_tail` allows it. `None` if a piece is neither.
pub open spec fn group_count(parts: Seq<Seq<char>>, v4_tail: bool) -> Option<int> {
    if parts.len() == 0 {
        None
    } else if !(forall|k: int| 0 <= k < parts.len() - 1 ==> is_hex_group(#[trigger] parts[k])) {
        None
    } else if is_hex_group(parts.last()) {
        Some(parts.len() as int)
    } else if v4_tail && is_ipv4(parts.last()) {
        Some(parts.len() as int + 1)
    } else {
        None
    }
}

/// The two colons that stand for a run of zero groups.
pub open spec fn double_colon() -> Seq<char> {
    seq![':', ':']
}

/// The groups of one side of a `::`: none where the side is empty.
pub open spec fn side_count(side: Seq<char>, v4_tail: bool) -> Option<int> {
    if side.len() == 0 {
        Some(0)
    } else {
        group_count(split(side, ':'), v4_tail)
    }
}

pub open spec fn is_ipv6(s: Seq<char>) -> bool {
    let at = find(s, double_colon());
    if at >= s.len() {
        group_count(split(s, ':'), true) == Some(8int)
    } else {
        let head = side_count(s.subrange(0, at), false);
        let tail = side_count(s.subrange(at + 2, s.len() as int), true);
        &&& head is Some
        &&& tail is Some
        &&& head->0 + tail->0 <= 7
    }
}

/// An IPv4 or an IPv6 address.
pub open spec fn is_ip(s: Seq<char>) -> bool {
    is_ipv4(s) || is_ipv6(s)
}

pub fn check_dec_octet(p: &Vec<char>) -> (b: bool)
    ensures
        b == is_dec_octet(p@),
{
    if p.len() < 1 || p.len() > 3 {
        return false;
    }
    let mut value: u32 = 0;
    let mut i: usize = 0;
    while i < p.len()
        invariant
            i <= p.len() <= 3,
            all_digits(p@.take(i as int)),
            value == decimal_value(p@.take(i as int)),
            value <= 999,
            i <= 2 ==> value <= 99,
            i <= 1 ==> value <= 9,
            i == 0 ==> value == 0,
        decreases p.len() - i,
    {
        let c = p[i];
        if !char_is_ascii_digit(c) {
            assert(!is_ascii_digit(p@[i as int]));
            return false;
        }
        proof {
            assert(p@.take(i + 1).drop_last() =~= p@.take(i as int));
            assert(p@.take(i + 1).last() == c);
        }
        value = value * 10 + (c as u32 - 0x30);
        i = i + 1;
    }
    assert(p@.take(p.len() as int) =~= p@);
    if p.len() > 1 && p[0] == '0' {
        return false;
    }
    value <= 255
}

pub fn check_hex_group(p: &Vec<char>) -> (b: bool)
    ensures
        b == is_hex_group(p@),
{
    if p.len() < 1 || p.len() > 4 {
        return false;
    }
    let mut i: usize = 0;
    while i < p.len()
        invariant
            i <= p.len(),
            forall|k: int| 0 <= k < i ==> is_ascii_hexdigit(#[trigger] p@[k]),
        decreases p.len() - i,
    {
        if !char_is_ascii_hexdigit(p[i]) {
            return false;
        }
        i = i + 1;
    }
    true
}

/// Whether the characters spell an IPv4 address.
pub fn check_ipv4(v: &Vec<char>) -> (b: bool)
    ensures
        b == is_ipv4(v@),
{
    let parts = split_chars(v, '.');
    if parts.len() != 4 {
        return false;
    }
    let mut k: usize = 0;
    while k < 4
        invariant
            k <= 4,
            parts@.len() == 4,
            views(parts@) == split(v@, '.'),
            forall|j: int| 0 <= j < k ==> is_dec_octet(#[trigger] split(v@, '.')[j]),
        decreases 4 - k,
    {
        assert(views(parts@)[k as int] == parts@[k as int]@);
        if !check_dec_octet(&parts[k]) {
            return false;
        }
        k = k + 1;
    }
    true
}

/// The number of 16-bit groups that the pieces denote, if they are groups
/// and there are at most eight pieces.
fn count_groups(parts: &Vec<Vec<char>>, v4_tail: bool) -> (r: Option<usize>)
    ensures
        r is Some <==> parts@.len() <= 8 && group_count(views(parts@), v4_tail) is Some,
        r is Some ==> r->0 == group_count(views(parts@), v4_tail)->0,
{
    let n = parts.len();
    if n == 0 || n > 8 {
        return None;
    }
    let ghost model = views(parts@);
    let mut k: usize = 0;
    while k < n - 1
        invariant
            k <= n - 1,
            n == parts@.len(),
            model == views(parts@),
            forall|j: int| 0 <= j < k ==> is_hex_group(#[trigger] model[j]),
        decreases n - 1 - k,
    {
        assert(model[k as int] == parts@[k as int]@);
        if !check_hex_group(&parts[k]) {
            return None;
        }
        k = k + 1;
    }
    assert(parts@[n - 1]@ == model.last());
    if check_hex_group(&parts[n - 1]) {
        Some(n)
    } else if v4_tail && check_ipv4(&parts[n - 1]) {
        Some(n + 1)
    } else {
        None
    }
}

/// The groups of one side of a `::`, if they are groups and at most seven.
fn count_side(side: &Vec<char>, v4_tail: bool) -> (r: Option<usize>)
    ensures
        r is Some <==> side_count(side@, v4_tail) is Some && side_count(side@, v4_tail)->0 <= 7,
        r is Some ==> r->0 == side_count(side@, v4_tail)->0,
{
    if side.len() == 0 {
        return Some(0);
    }
    let parts = split_chars(side, ':');
    match count_groups(&parts, v4_tail) {
        Some(n) => if n <= 7 {
            Some(n)
        } else {
            None
        },
        None => None,
    }
}

/// Whether the characters spell an IPv6 address.
pub fn check_ipv6(v: &Vec<char>) -> (b: bool)
    ensures
        b == is_ipv6(v@),
{
    let pat: Vec<char> = vec![':', ':'];
    assert(pat@ =~= double_colon());
    let at = find_sub(v, &pat);
    if at >= v.len() {
        let parts = split_chars(v, ':');
        match count_groups(&parts, true) {
            Some(n) => n == 8,
            None => false,
        }
    } else {
        proof {
            lemma_find_from(v@, pat@, 0);
        }
        let head = slice(v, 0, at);
        let tail = slice(v, at + 2, v.len());
        match count_side(&head, false) {
            None => false,
            Some(h) => match count_side(&tail, true) {
                None => false,
                Some(t) => t <= 7 - h,
            },
        }
    }
}

/// Whether the characters spell an IPv4 or an IPv6 address.
pub fn check_ip(v: &Vec<char>) -> (b: bool)
    ensures
        b == is_ip(v@),
{
    check_ipv4(v) || check_ipv6(v)
}

} // verus!
