//! The canonical form keeps the kind: which values are detected as the same
//! kind after they were put in canonical form, and what follows for looking
//! them up.

use crate::address::{
    double_colon, group_count, is_dec_octet, is_hex_group, is_ip,
    is_ipv4, is_ipv6, side_count,
};
use crate::laws::{
    lemma_ascii_lower_char, lemma_ascii_upper_char, lemma_lowercase_ascii,
    lemma_normalize_idempotent_ascii, lemma_normalize_url_ascii, lemma_trim_ascii,
    lemma_uppercase_ascii, lowered_upto,
};
use crate::models::ioc_utils::{
    classify, classify_trimmed, has_cve_prefix, has_url_prefix, http_prefix, https_prefix,
    is_cidr, is_domain_char, is_hash, looks_like_domain, normalize, normalize_url,
};
use crate::models::{IndicatorView, IocType};
use crate::storage::lookup;
use crate::text::{
    all_ascii, ascii_lower_char, ascii_lowercase, find, find_from, is_alphanumeric, is_ascii,
    is_ascii_digit, is_ascii_hexdigit, is_ascii_lower, is_ascii_upper, is_trimmed,
    lemma_find_from, lemma_position_contains, lemma_position_from, lemma_trimmed_fixed, lowercase,
    matches_at, position, position_from, split, split_from, starts_with, trim, uppercase,
};
use vstd::prelude::*;

verus! {

/// A character that is no letter stands in the lower-case form of an ASCII
/// character exactly where it stands in the character.
pub proof fn lemma_lower_char_other(ch: char, c: char)
    requires
        is_ascii(ch),
        !is_ascii_upper(c),
        !is_ascii_lower(c),
    ensures
        (ascii_lower_char(ch) == c) == (ch == c),
{
}

/// A lower-case letter is the lower-case form of itself and of its
/// upper-case letter, and of nothing else; an upper-case letter is the
/// lower-case form of nothing.
pub proof fn lemma_lower_char_letter(ch: char, low: char, up: char)
    requires
        is_ascii(ch),
        is_ascii_lower(low),
        up as u32 + 32 == low as u32,
    ensures
        (ascii_lower_char(ch) == low) == (ch == low || ch == up),
        ascii_lower_char(ch) != up,
{
}

/// What lower case does to the classes of ASCII characters.
pub proof fn lemma_lower_char_classes(ch: char)
    requires
        is_ascii(ch),
    ensures
        is_ascii_hexdigit(ascii_lower_char(ch)) == is_ascii_hexdigit(ch),
        is_ascii_digit(ascii_lower_char(ch)) == is_ascii_digit(ch),
        is_ascii_digit(ch) ==> ascii_lower_char(ch) == ch,
        is_alphanumeric(ascii_lower_char(ch)) == is_alphanumeric(ch),
        is_domain_char(ascii_lower_char(ch)) == is_domain_char(ch),
{
    lemma_ascii_lower_char(ch);
}

/// The lower-case form of a part is the part of the lower-case form.
pub proof fn lemma_lower_subrange(s: Seq<char>, a: int, b: int)
    requires
        0 <= a <= b <= s.len(),
    ensures
        ascii_lowercase(s).subrange(a, b) == ascii_lowercase(s.subrange(a, b)),
        all_ascii(s) ==> all_ascii(s.subrange(a, b)),
{
    assert(ascii_lowercase(s).subrange(a, b) =~= ascii_lowercase(s.subrange(a, b)));
    if all_ascii(s) {
        assert forall|i: int| 0 <= i < b - a implies is_ascii(#[trigger] s.subrange(a, b)[i]) by {
            assert(is_ascii(s[a + i]));
        }
    }
}

/// A character that is no letter is first found in the lower-case form of
/// an ASCII string where it is first found in the string.
pub proof fn lemma_position_lower(s: Seq<char>, c: char, from: int)
    requires
        all_ascii(s),
        !is_ascii_upper(c),
        !is_ascii_lower(c),
        0 <= from <= s.len(),
    ensures
        position_from(ascii_lowercase(s), c, from) == position_from(s, c, from),
    decreases s.len() - from,
{
    if from < s.len() {
        lemma_lower_char_other(s[from], c);
        if s[from] != c {
            lemma_position_lower(s, c, from + 1);
        }
    }
}

/// A string holds a character that is no letter exactly if its lower-case
/// form holds it.
pub proof fn lemma_contains_lower(s: Seq<char>, c: char)
    requires
        all_ascii(s),
        !is_ascii_upper(c),
        !is_ascii_lower(c),
    ensures
        ascii_lowercase(s).contains(c) == s.contains(c),
{
    lemma_position_lower(s, c, 0);
    lemma_position_contains(s, c);
    lemma_position_contains(ascii_lowercase(s), c);
}

/// The double colon is first found in the lower-case form of an ASCII
/// string where it is first found in the string.
pub proof fn lemma_find_colons_lower(s: Seq<char>, from: int)
    requires
        all_ascii(s),
        0 <= from <= s.len(),
    ensures
        find_from(ascii_lowercase(s), double_colon(), from) == find_from(s, double_colon(), from),
    decreases s.len() - from,
{
    let n = ascii_lowercase(s);
    let pat = double_colon();
    if from < s.len() {
        assert(matches_at(n, pat, from) == matches_at(s, pat, from)) by {
            if from + 2 <= s.len() {
                lemma_lower_char_other(s[from], ':');
                lemma_lower_char_other(s[from + 1], ':');
                if matches_at(s, pat, from) {
                    assert(s[from + 0] == pat[0] && s[from + 1] == pat[1]);
                    assert forall|k: int| 0 <= k < pat.len() implies n[from + k] == #[trigger] pat[k] by {}
                }
                if matches_at(n, pat, from) {
                    assert(n[from + 0] == pat[0] && n[from + 1] == pat[1]);
                    assert forall|k: int| 0 <= k < pat.len() implies s[from + k] == #[trigger] pat[k] by {}
                }
            }
        }
        if !matches_at(s, pat, from) {
            lemma_find_colons_lower(s, from + 1);
        }
    }
}

/// The pieces of the lower-case form of an ASCII string, split at a
/// character that is no letter, are the lower-case forms of the pieces of
/// the string.
pub proof fn lemma_split_lower(s: Seq<char>, sep: char, from: int)
    requires
        all_ascii(s),
        !is_ascii_upper(sep),
        !is_ascii_lower(sep),
        0 <= from <= s.len(),
    ensures
        split_from(ascii_lowercase(s), sep, from).len() == split_from(s, sep, from).len(),
        forall|k: int|
            0 <= k < split_from(s, sep, from).len() ==> #[trigger] split_from(
                ascii_lowercase(s),
                sep,
                from,
            )[k] == ascii_lowercase(split_from(s, sep, from)[k]) && all_ascii(
                split_from(s, sep, from)[k],
            ),
    decreases s.len() - from,
{
    let n = ascii_lowercase(s);
    let p = position_from(s, sep, from);
    lemma_position_lower(s, sep, from);
    lemma_position_from(s, sep, from);
    if p >= s.len() {
        lemma_lower_subrange(s, from, s.len() as int);
    } else {
        lemma_lower_subrange(s, from, p);
        lemma_split_lower(s, sep, p + 1);
        let rest = split_from(s, sep, p + 1);
        let rest_n = split_from(n, sep, p + 1);
        let parts = split_from(s, sep, from);
        let parts_n = split_from(n, sep, from);
        assert(parts =~= seq![s.subrange(from, p)] + rest);
        assert(parts_n =~= seq![n.subrange(from, p)] + rest_n);
        assert forall|k: int| 0 <= k < parts.len() implies #[trigger] parts_n[k]
            == ascii_lowercase(parts[k]) && all_ascii(parts[k]) by {
            if k > 0 {
                assert(parts[k] == rest[k - 1]);
                assert(parts_n[k] == rest_n[k - 1]);
            }
        }
    }
}

/// Every character of a string is the separator or stands in one of the
/// pieces; so where every character of every piece is of some kind, every
/// character of the string is the separator or of that kind.
pub proof fn lemma_split_covers(s: Seq<char>, sep: char, from: int, good: spec_fn(char) -> bool)
    requires
        0 <= from <= s.len(),
        forall|k: int, j: int|
            0 <= k < split_from(s, sep, from).len() && 0 <= j < split_from(s, sep, from)[k].len()
                ==> good(#[trigger] split_from(s, sep, from)[k][j]),
    ensures
        forall|i: int| from <= i < s.len() ==> #[trigger] s[i] == sep || good(s[i]),
        split_from(s, sep, from).len() >= 1,
    decreases s.len() - from,
{
    let p = position_from(s, sep, from);
    lemma_position_from(s, sep, from);
    let parts = split_from(s, sep, from);
    if p >= s.len() {
        assert(parts =~= seq![s.subrange(from, s.len() as int)]);
        assert forall|i: int| from <= i < s.len() implies #[trigger] s[i] == sep || good(s[i]) by {
            assert(parts[0][i - from] == s[i]);
        }
    } else {
        let rest = split_from(s, sep, p + 1);
        assert(parts =~= seq![s.subrange(from, p)] + rest);
        assert forall|k: int, j: int|
            0 <= k < rest.len() && 0 <= j < rest[k].len() implies good(#[trigger] rest[k][j]) by {
            assert(parts[k + 1] == rest[k]);
            assert(good(parts[k + 1][j]));
        }
        lemma_split_covers(s, sep, p + 1, good);
        assert forall|i: int| from <= i < s.len() implies #[trigger] s[i] == sep || good(s[i]) by {
            if i < p {
                assert(parts[0][i - from] == s[i]);
            }
        }
    }
}

/// A string without the separator is one piece.
pub proof fn lemma_split_single(s: Seq<char>, sep: char)
    requires
        !s.contains(sep),
    ensures
        split(s, sep) == seq![s],
{
    lemma_position_contains(s, sep);
    assert(s.subrange(0, s.len() as int) =~= s);
}

/// A character of an IPv4 address.
pub open spec fn is_v4_char(c: char) -> bool {
    is_ascii_digit(c) || c == '.'
}

/// A character of an IP address.
pub open spec fn is_ip_char(c: char) -> bool {
    is_ascii_hexdigit(c) || c == '.' || c == ':'
}

/// An IPv4 address is not empty and holds digits and dots only.
pub proof fn lemma_ipv4_chars(s: Seq<char>)
    requires
        is_ipv4(s),
    ensures
        s.len() > 0,
        forall|i: int| 0 <= i < s.len() ==> is_v4_char(#[trigger] s[i]),
{
    let parts = split(s, '.');
    let good = |c: char| is_ascii_digit(c);
    assert forall|k: int, j: int|
        0 <= k < parts.len() && 0 <= j < parts[k].len() implies good(#[trigger] parts[k][j]) by {
        assert(is_dec_octet(parts[k]));
    }
    lemma_split_covers(s, '.', 0, good);
    if s.len() == 0 {
        assert(split_from(s, '.', 0) =~= seq![s.subrange(0, 0)]);
    }
}

/// The pieces that count as groups hold the characters of addresses only.
proof fn lemma_group_chars(parts: Seq<Seq<char>>, v4_tail: bool)
    requires
        group_count(parts, v4_tail) is Some,
    ensures
        forall|k: int, j: int|
            0 <= k < parts.len() && 0 <= j < parts[k].len() ==> is_ascii_hexdigit(
                #[trigger] parts[k][j],
            ) || parts[k][j] == '.',
{
    assert forall|k: int, j: int|
        0 <= k < parts.len() && 0 <= j < parts[k].len() implies is_ascii_hexdigit(
        #[trigger] parts[k][j],
    ) || parts[k][j] == '.' by {
        if k < parts.len() - 1 {
            assert(is_hex_group(parts[k]));
        } else if is_hex_group(parts.last()) {
        } else {
            lemma_ipv4_chars(parts.last());
            assert(is_v4_char(parts[k][j]));
        }
    }
}

/// The characters of one side of a double colon are those of addresses.
proof fn lemma_side_chars(side: Seq<char>, v4_tail: bool)
    requires
        side_count(side, v4_tail) is Some,
    ensures
        forall|i: int| 0 <= i < side.len() ==> is_ip_char(#[trigger] side[i]),
{
    if side.len() > 0 {
        let parts = split(side, ':');
        lemma_group_chars(parts, v4_tail);
        let good = |c: char| is_ascii_hexdigit(c) || c == '.';
        lemma_split_covers(side, ':', 0, good);
    }
}

/// An IP address is not empty and holds hexadecimal digits, dots and colons
/// only.
pub proof fn lemma_ip_chars(s: Seq<char>)
    requires
        is_ip(s),
    ensures
        s.len() > 0,
        forall|i: int| 0 <= i < s.len() ==> is_ip_char(#[trigger] s[i]),
{
    if is_ipv4(s) {
        lemma_ipv4_chars(s);
        assert forall|i: int| 0 <= i < s.len() implies is_ip_char(#[trigger] s[i]) by {
            assert(is_v4_char(s[i]));
        }
    } else {
        let at = find(s, double_colon());
        lemma_find_from(s, double_colon(), 0);
        if at >= s.len() {
            let parts = split(s, ':');
            lemma_group_chars(parts, true);
            let good = |c: char| is_ascii_hexdigit(c) || c == '.';
            lemma_split_covers(s, ':', 0, good);
            if s.len() == 0 {
                assert(split_from(s, ':', 0) =~= seq![s.subrange(0, 0)]);
                assert(parts.len() == 1);
                assert(!is_hex_group(parts.last()));
                lemma_not_ipv4_empty(parts.last());
            }
        } else {
            let head = s.subrange(0, at);
            let tail = s.subrange(at + 2, s.len() as int);
            lemma_side_chars(head, false);
            lemma_side_chars(tail, true);
            assert(s[at + 0] == double_colon()[0] && s[at + 1] == double_colon()[1]);
            assert forall|i: int| 0 <= i < s.len() implies is_ip_char(#[trigger] s[i]) by {
                if i < at {
                    assert(head[i] == s[i]);
                } else if i >= at + 2 {
                    assert(tail[i - at - 2] == s[i]);
                }
            }
        }
    }
}

/// The empty string is no IPv4 address.
proof fn lemma_not_ipv4_empty(s: Seq<char>)
    requires
        s.len() == 0,
    ensures
        !is_ipv4(s),
{
    assert(split_from(s, '.', 0) =~= seq![s.subrange(0, 0)]);
}

/// The lower-case form of an ASCII IPv4 address is the address itself.
pub proof fn lemma_ipv4_lower(s: Seq<char>)
    requires
        all_ascii(s),
        is_ipv4(s),
    ensures
        ascii_lowercase(s) == s,
{
    lemma_ipv4_chars(s);
    assert forall|i: int| 0 <= i < s.len() implies ascii_lower_char(s[i]) == s[i] by {
        assert(is_v4_char(s[i]));
    }
    assert(ascii_lowercase(s) =~= s);
}

/// The lower-case forms of pieces that count as groups count as as many
/// groups.
proof fn lemma_group_count_lower(parts: Seq<Seq<char>>, lowered: Seq<Seq<char>>, v4_tail: bool)
    requires
        group_count(parts, v4_tail) is Some,
        lowered.len() == parts.len(),
        forall|k: int|
            0 <= k < parts.len() ==> #[trigger] lowered[k] == ascii_lowercase(parts[k])
                && all_ascii(parts[k]),
    ensures
        group_count(lowered, v4_tail) == group_count(parts, v4_tail),
{
    assert forall|k: int| 0 <= k < parts.len() && is_hex_group(parts[k]) implies is_hex_group(
        #[trigger] lowered[k],
    ) by {
        assert forall|j: int| 0 <= j < lowered[k].len() implies is_ascii_hexdigit(
            #[trigger] lowered[k][j],
        ) by {
            lemma_lower_char_classes(parts[k][j]);
            assert(is_ascii_hexdigit(parts[k][j]));
        }
    }
    assert forall|k: int| 0 <= k < parts.len() - 1 implies is_hex_group(#[trigger] lowered[k]) by {
        assert(is_hex_group(parts[k]));
    }
    let last = parts.len() - 1;
    assert(lowered.last() == lowered[last] && parts.last() == parts[last]);
    if !is_hex_group(parts.last()) {
        lemma_ipv4_lower(parts.last());
    }
}

/// The lower-case form of one side of a double colon counts as as many
/// groups as the side.
proof fn lemma_side_count_lower(side: Seq<char>, v4_tail: bool)
    requires
        all_ascii(side),
        side_count(side, v4_tail) is Some,
    ensures
        side_count(ascii_lowercase(side), v4_tail) == side_count(side, v4_tail),
{
    if side.len() > 0 {
        lemma_split_lower(side, ':', 0);
        lemma_group_count_lower(split(side, ':'), split(ascii_lowercase(side), ':'), v4_tail);
    }
}

/// The lower-case form of an ASCII IP address is an IP address.
pub proof fn lemma_ip_lower(s: Seq<char>)
    requires
        all_ascii(s),
        is_ip(s),
    ensures
        is_ip(ascii_lowercase(s)),
{
    let n = ascii_lowercase(s);
    if is_ipv4(s) {
        lemma_ipv4_lower(s);
    } else {
        lemma_find_colons_lower(s, 0);
        let at = find(s, double_colon());
        lemma_find_from(s, double_colon(), 0);
        if at >= s.len() {
            lemma_split_lower(s, ':', 0);
            lemma_group_count_lower(split(s, ':'), split(n, ':'), true);
        } else {
            lemma_lower_subrange(s, 0, at);
            lemma_lower_subrange(s, at + 2, s.len() as int);
            lemma_side_count_lower(s.subrange(0, at), false);
            lemma_side_count_lower(s.subrange(at + 2, s.len() as int), true);
        }
    }
}

/// The prefix `CVE-` stands in the lower-case form of an ASCII string
/// exactly if it stands in the string.
proof fn lemma_cve_prefix_lower(s: Seq<char>)
    requires
        all_ascii(s),
    ensures
        has_cve_prefix(ascii_lowercase(s)) == has_cve_prefix(s),
{
    let n = ascii_lowercase(s);
    if s.len() >= 4 {
        lemma_lower_char_other(s[3], '-');
        assert(n[0] == ascii_lower_char(s[0]) && n[1] == ascii_lower_char(s[1]) && n[2]
            == ascii_lower_char(s[2]) && n[3] == ascii_lower_char(s[3]));
        lemma_lower_char_letter(s[0], 'c', 'C');
        lemma_lower_char_letter(s[1], 'v', 'V');
        lemma_lower_char_letter(s[2], 'e', 'E');
    }
}

/// The lower-case form of an ASCII string is a digest exactly if the string
/// is.
proof fn lemma_hash_lower(s: Seq<char>)
    requires
        all_ascii(s),
    ensures
        is_hash(ascii_lowercase(s)) == is_hash(s),
{
    let n = ascii_lowercase(s);
    if is_hash(s) {
        assert forall|i: int| 0 <= i < n.len() implies is_ascii_hexdigit(#[trigger] n[i]) by {
            lemma_lower_char_classes(s[i]);
        }
    }
    if is_hash(n) {
        assert forall|i: int| 0 <= i < s.len() implies is_ascii_hexdigit(#[trigger] s[i]) by {
            lemma_lower_char_classes(s[i]);
            assert(is_ascii_hexdigit(n[i]));
        }
    }
}

/// A string whose first character is a character of addresses, or whose
/// characters are those of domain names, begins with no URL scheme.
proof fn lemma_no_url_prefix(n: Seq<char>)
    requires
        n.len() > 0,
        is_ip_char(n[0]) || is_domain_char(n[0]) && forall|i: int|
            0 <= i < n.len() ==> is_domain_char(#[trigger] n[i]),
        all_ascii(n),
    ensures
        !has_url_prefix(n),
{
    if starts_with(n, http_prefix()) {
        assert(n[0] == http_prefix()[0]);
        assert(n[4] == http_prefix()[4]);
        if !is_ip_char(n[0]) {
            assert(is_domain_char(n[4]));
        }
    }
    if starts_with(n, https_prefix()) {
        assert(n[0] == https_prefix()[0]);
        assert(n[5] == https_prefix()[5]);
        if !is_ip_char(n[0]) {
            assert(is_domain_char(n[5]));
        }
    }
}

/// The upper-case form of a trimmed ASCII value that is detected as a CVE
/// is detected as a CVE.
proof fn lemma_kind_cve(s: Seq<char>)
    requires
        all_ascii(s),
        is_trimmed(s),
        classify_trimmed(s) == Some(IocType::Cve),
    ensures
        classify_trimmed(uppercase(s)) == Some(IocType::Cve),
{
    let n = uppercase(s);
    lemma_uppercase_ascii(s);
    lemma_ascii_upper_char(s[0]);
    lemma_ascii_upper_char(s[1]);
    lemma_ascii_upper_char(s[2]);
    lemma_ascii_upper_char(s[3]);
    assert(n[0] == 'C' && n[1] == 'V' && n[2] == 'E' && n[3] == '-');
}

/// The lower-case form of a trimmed ASCII value that is detected as a
/// digest is detected as a digest.
proof fn lemma_kind_hash(s: Seq<char>)
    requires
        all_ascii(s),
        is_trimmed(s),
        classify_trimmed(s) == Some(IocType::Hash),
    ensures
        classify_trimmed(lowercase(s)) == Some(IocType::Hash),
{
    lemma_lowercase_ascii(s);
    lemma_cve_prefix_lower(s);
    lemma_hash_lower(s);
}

/// A string that begins with a URL scheme still begins with it when some
/// front part of the string is put in lower case; the result begins with
/// no `CVE-` and is no digest.
proof fn lemma_url_prefix_lowered(n: Seq<char>, s: Seq<char>, upto: int)
    requires
        all_ascii(s),
        lowered_upto(n, s, upto),
        has_url_prefix(s),
    ensures
        has_url_prefix(n),
        !has_cve_prefix(n),
        !is_hash(n),
        n.len() > 0,
{
    let pre = if starts_with(s, http_prefix()) {
        http_prefix()
    } else {
        https_prefix()
    };
    assert(starts_with(s, pre));
    assert forall|k: int| 0 <= k < pre.len() implies n[0 + k] == #[trigger] pre[k] by {
        assert(s[0 + k] == pre[k]);
        assert(!is_ascii_upper(pre[k]));
        assert(n[k] == s[k] || n[k] == ascii_lower_char(s[k]));
    }
    assert(starts_with(n, pre));
    assert(n[0] == pre[0]);
    assert(n[4] == pre[4]);
    assert(n[5] == pre[5]);
    assert(!is_ascii_hexdigit(n[4]) || !is_ascii_hexdigit(n[5]));
}

/// The canonical form of a trimmed ASCII value that is detected as a URL is
/// detected as a URL.
proof fn lemma_kind_url(s: Seq<char>)
    requires
        all_ascii(s),
        is_trimmed(s),
        classify_trimmed(s) == Some(IocType::Url),
    ensures
        classify_trimmed(normalize_url(s)) == Some(IocType::Url),
{
    let n = normalize_url(s);
    assert(has_url_prefix(s));
    assert(exists|upto: int| lowered_upto(n, s, upto)) by {
        lemma_normalize_url_ascii(s);
    }
    let upto = choose|upto: int| lowered_upto(n, s, upto);
    lemma_url_prefix_lowered(n, s, upto);
}

/// The lower-case form of a trimmed ASCII value that is detected as an
/// e-mail address is detected as an e-mail address, unless it begins with a
/// URL scheme.
proof fn lemma_kind_email(s: Seq<char>)
    requires
        all_ascii(s),
        is_trimmed(s),
        classify_trimmed(s) == Some(IocType::Email),
    ensures
        classify_trimmed(lowercase(s)) == if has_url_prefix(lowercase(s)) {
            Some(IocType::Url)
        } else {
            Some(IocType::Email)
        },
{
    let n = lowercase(s);
    lemma_lowercase_ascii(s);
    lemma_cve_prefix_lower(s);
    lemma_contains_lower(s, '@');
    lemma_contains_lower(s, '.');
    let i = choose|i: int| 0 <= i < n.len() && n[i] == '@';
    assert(!is_ascii_hexdigit(n[i]));
    assert(!is_hash(n));
}

/// The lower-case form of a trimmed ASCII value that is detected as an
/// address is detected as an address.
proof fn lemma_kind_ip(s: Seq<char>)
    requires
        all_ascii(s),
        is_trimmed(s),
        classify_trimmed(s) == Some(IocType::Ip),
    ensures
        classify_trimmed(lowercase(s)) == Some(IocType::Ip),
{
    let n = lowercase(s);
    lemma_lowercase_ascii(s);
    lemma_cve_prefix_lower(s);
    lemma_hash_lower(s);
    lemma_contains_lower(s, '@');
    lemma_contains_lower(s, '.');
    lemma_contains_lower(s, '/');
    lemma_position_lower(s, '/', 0);
    lemma_position_from(s, '/', 0);
    lemma_position_contains(s, '/');
    let p = position(s, '/');
    if is_ip(s) {
        lemma_ip_lower(s);
        lemma_ip_chars(s);
    } else {
        let left = s.subrange(0, p);
        lemma_lower_subrange(s, 0, p);
        lemma_ip_lower(left);
        lemma_ip_chars(left);
        assert(left[0] == s[0]);
        assert(is_cidr(n));
    }
    lemma_lower_char_classes(s[0]);
    lemma_lower_char_other(s[0], '.');
    lemma_lower_char_other(s[0], ':');
    assert(is_ip_char(n[0]));
    lemma_no_url_prefix(n);
}

/// The lower-case form of a trimmed ASCII value that is detected as a
/// domain name is detected as a domain name.
proof fn lemma_kind_domain(s: Seq<char>)
    requires
        all_ascii(s),
        is_trimmed(s),
        classify_trimmed(s) == Some(IocType::Domain),
    ensures
        classify_trimmed(lowercase(s)) == Some(IocType::Domain),
{
    let n = lowercase(s);
    lemma_lowercase_ascii(s);
    lemma_cve_prefix_lower(s);
    lemma_contains_lower(s, '@');
    lemma_contains_lower(s, '.');
    lemma_contains_lower(s, '/');
    lemma_contains_lower(s, ' ');
    assert forall|i: int| 0 <= i < n.len() implies is_domain_char(#[trigger] n[i]) by {
        lemma_lower_char_classes(s[i]);
        assert(is_domain_char(s[i]));
    }
    let d = choose|i: int| 0 <= i < n.len() && n[i] == '.';
    assert(!is_ascii_hexdigit(n[d]));
    assert(!is_hash(n));
    lemma_no_url_prefix(n);
    lemma_domain_is_no_address(s);
    assert(!is_cidr(n));
    assert(looks_like_domain(n));
}

/// The lower-case form of a trimmed ASCII value that is no address and
/// holds the characters of domain names only is no address.
proof fn lemma_domain_is_no_address(s: Seq<char>)
    requires
        all_ascii(s),
        !is_ip(s),
        forall|i: int| 0 <= i < s.len() ==> is_domain_char(#[trigger] s[i]),
    ensures
        !is_ip(ascii_lowercase(s)),
{
    let n = ascii_lowercase(s);
    assert forall|i: int| 0 <= i < n.len() implies is_domain_char(#[trigger] n[i]) by {
        lemma_lower_char_classes(s[i]);
        assert(is_domain_char(s[i]));
    }
    // an IPv4 address would be the value itself
    if is_ipv4(n) {
        lemma_ipv4_chars(n);
        assert forall|i: int| 0 <= i < s.len() implies s[i] == n[i] by {
            assert(is_v4_char(n[i]));
            lemma_lower_char_classes(s[i]);
            lemma_lower_char_other(s[i], '.');
            lemma_ascii_lower_char(s[i]);
        }
        assert(s =~= n);
    }
    // an IPv6 address holds colons
    if is_ipv6(n) {
        assert(!n.contains(':')) by {
            if n.contains(':') {
                let i = choose|i: int| 0 <= i < n.len() && n[i] == ':';
                assert(is_domain_char(n[i]));
            }
        }
        lemma_find_from(n, double_colon(), 0);
        let at = find(n, double_colon());
        if at < n.len() {
            assert(n[at + 0] == double_colon()[0]);
            assert(n.contains(':'));
        }
        lemma_split_single(n, ':');
        assert(split(n, ':').len() == 1);
    }
}

/// The canonical form of an ASCII value that is detected as something other
/// than an e-mail address is detected as the same kind. The canonical form
/// of one that is detected as an e-mail address is detected as an e-mail
/// address, unless it begins with a URL scheme: then it is detected as a
/// URL.
pub proof fn lemma_canonical_kind_ascii(v: Seq<char>)
    requires
        all_ascii(v),
        classify(v) is Some,
    ensures
        ({
            let t = classify(v)->0;
            let n = normalize(v, t);
            classify(n) == if t == IocType::Email && has_url_prefix(n) {
                Some(IocType::Url)
            } else {
                Some(t)
            }
        }),
{
    let s = trim(v);
    let t = classify(v)->0;
    let n = normalize(v, t);
    lemma_trim_ascii(v);
    match t {
        IocType::Cve => {
            lemma_kind_cve(s);
            lemma_uppercase_ascii(s);
        },
        IocType::Hash => {
            lemma_kind_hash(s);
            lemma_lowercase_ascii(s);
        },
        IocType::Url => {
            lemma_kind_url(s);
            lemma_normalize_url_ascii(s);
        },
        IocType::Email => {
            lemma_kind_email(s);
            lemma_lowercase_ascii(s);
        },
        IocType::Ip => {
            lemma_kind_ip(s);
            lemma_lowercase_ascii(s);
        },
        IocType::Domain => {
            lemma_kind_domain(s);
            lemma_lowercase_ascii(s);
        },
    }
    lemma_trimmed_fixed(n);
}

/// A value and its canonical form denote the same indicator. This holds of
/// every ASCII value whose kind is detected, but for those that are
/// detected as an e-mail address and begin with a URL scheme once they are
/// in lower case: their canonical form is detected as a URL.
pub proof fn lemma_lookup_canonical_ascii(rows: Seq<IndicatorView>, v: Seq<char>)
    requires
        all_ascii(v),
        classify(v) is Some,
        !(classify(v) == Some(IocType::Email) && has_url_prefix(lowercase(trim(v)))),
    ensures
        lookup(rows, normalize(v, classify(v)->0)) == lookup(rows, v),
{
    lemma_canonical_kind_ascii(v);
    lemma_trim_ascii(v);
    lemma_normalize_idempotent_ascii(v, classify(v)->0);
}

} // verus!
