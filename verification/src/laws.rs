//! Laws that relate the functions of the library to one another.

use crate::models::ioc_utils::{normalize, normalize_url, scheme_separator};
use crate::models::{severity_of_score, IndicatorView, IocType, Severity, SightingView};
use crate::storage::{
    add_sighting_result, id_index, key_index, lemma_id_index, lemma_key_index, lemma_union,
    merged, sightings_of, upserted, RepoError, ThreatIntelRepo,
};
use crate::models::Sighting;
use crate::text::{
    all_ascii, ascii_lower_char, ascii_lowercase, ascii_upper_char, ascii_uppercase, find,
    find_from, is_ascii, is_trimmed, is_whitespace, lemma_find_from, lemma_position_from,
    lemma_trim, lemma_trimmed_fixed, lowercase, matches_at, position, position_from, trim,
    uppercase,
};
use vstd::prelude::*;

verus! {

// ---------------------------------------------------------------------------
// Severity
// ---------------------------------------------------------------------------

/// Every score has a severity, and the scores from 0 to 100 are exactly
/// those with a severity other than unknown: the four levels tile that
/// range, each score in it falling to one level.
pub proof fn lemma_severity_tiles(score: int)
    ensures
        severity_of_score(score) != Severity::Unknown <==> 0 <= score <= 100,
        severity_of_score(score) == Severity::Low <==> 0 <= score <= 20,
        severity_of_score(score) == Severity::Medium <==> 21 <= score <= 50,
        severity_of_score(score) == Severity::High <==> 51 <= score <= 80,
        severity_of_score(score) == Severity::Critical <==> 81 <= score <= 100,
{
}

/// A higher score never has a lower severity, as long as the higher score
/// is one that has a level, or the lower one has none.
pub proof fn lemma_severity_monotone(low: int, high: int)
    requires
        low <= high,
        high <= 100 || low < 0 || low > 100,
    ensures
        severity_of_score(low).rank() <= severity_of_score(high).rank(),
{
}

// ---------------------------------------------------------------------------
// Canonical form
// ---------------------------------------------------------------------------

/// What lower case does to one ASCII character: the result is ASCII, lower
/// case leaves it as it is, and it is whitespace, a colon or a slash only
/// where the character was.
pub proof fn lemma_ascii_lower_char(c: char)
    requires
        is_ascii(c),
    ensures
        is_ascii(ascii_lower_char(c)),
        ascii_lower_char(ascii_lower_char(c)) == ascii_lower_char(c),
        is_whitespace(ascii_lower_char(c)) == is_whitespace(c),
        (ascii_lower_char(c) == ':') == (c == ':'),
        (ascii_lower_char(c) == '/') == (c == '/'),
{
}

/// What upper case does to one ASCII character.
pub proof fn lemma_ascii_upper_char(c: char)
    requires
        is_ascii(c),
    ensures
        is_ascii(ascii_upper_char(c)),
        ascii_upper_char(ascii_upper_char(c)) == ascii_upper_char(c),
        is_whitespace(ascii_upper_char(c)) == is_whitespace(c),
{
}

/// The lower-case form of a trimmed ASCII string is ASCII and trimmed, and
/// lower case and trimming leave it as it is.
pub proof fn lemma_lowercase_ascii(s: Seq<char>)
    requires
        all_ascii(s),
    ensures
        lowercase(s) == ascii_lowercase(s),
        all_ascii(lowercase(s)),
        lowercase(s).len() == s.len(),
        lowercase(lowercase(s)) == lowercase(s),
        is_trimmed(s) ==> is_trimmed(lowercase(s)) && trim(lowercase(s)) == lowercase(s),
{
    let n = ascii_lowercase(s);
    assert forall|i: int| 0 <= i < n.len() implies is_ascii(#[trigger] n[i]) by {
        lemma_ascii_lower_char(s[i]);
    }
    assert(ascii_lowercase(n) =~= n) by {
        assert forall|i: int| 0 <= i < n.len() implies ascii_lower_char(n[i]) == n[i] by {
            lemma_ascii_lower_char(s[i]);
        }
    }
    if is_trimmed(s) {
        if s.len() > 0 {
            lemma_ascii_lower_char(s[0]);
            lemma_ascii_lower_char(s[s.len() - 1]);
        }
        lemma_trimmed_fixed(n);
    }
}

/// The upper-case form of a trimmed ASCII string is ASCII and trimmed, and
/// upper case and trimming leave it as it is.
pub proof fn lemma_uppercase_ascii(s: Seq<char>)
    requires
        all_ascii(s),
    ensures
        uppercase(s) == ascii_uppercase(s),
        all_ascii(uppercase(s)),
        uppercase(uppercase(s)) == uppercase(s),
        is_trimmed(s) ==> is_trimmed(uppercase(s)) && trim(uppercase(s)) == uppercase(s),
{
    let n = ascii_uppercase(s);
    assert forall|i: int| 0 <= i < n.len() implies is_ascii(#[trigger] n[i]) by {
        lemma_ascii_upper_char(s[i]);
    }
    assert(ascii_uppercase(n) =~= n) by {
        assert forall|i: int| 0 <= i < n.len() implies ascii_upper_char(n[i]) == n[i] by {
            lemma_ascii_upper_char(s[i]);
        }
    }
    if is_trimmed(s) {
        if s.len() > 0 {
            lemma_ascii_upper_char(s[0]);
            lemma_ascii_upper_char(s[s.len() - 1]);
        }
        lemma_trimmed_fixed(n);
    }
}

/// What is trimmed off an ASCII string leaves an ASCII string.
pub proof fn lemma_trim_ascii(v: Seq<char>)
    requires
        all_ascii(v),
    ensures
        all_ascii(trim(v)),
        is_trimmed(trim(v)),
{
    lemma_trim(v);
    crate::text::lemma_skip_whitespace(v, 0);
    crate::text::lemma_drop_whitespace(v, v.len() as int);
}

/// `n` is `s` with lower case up to `upto` and as it is from there on.
pub open spec fn lowered_upto(n: Seq<char>, s: Seq<char>, upto: int) -> bool {
    &&& n.len() == s.len()
    &&& forall|k: int| 0 <= k < upto && k < s.len() ==> #[trigger] n[k] == ascii_lower_char(s[k])
    &&& forall|k: int| upto <= k < s.len() ==> #[trigger] n[k] == s[k]
}

/// Where the scheme separator is first found does not change when the
/// string is put in lower case up to some point at or after its end.
proof fn lemma_find_lowered(n: Seq<char>, s: Seq<char>, upto: int, from: int)
    requires
        all_ascii(s),
        lowered_upto(n, s, upto),
        0 <= from <= s.len(),
        find_from(s, scheme_separator(), from) + 3 <= upto || find_from(
            s,
            scheme_separator(),
            from,
        ) >= s.len(),
        upto >= s.len() || find_from(s, scheme_separator(), from) < s.len(),
    ensures
        find_from(n, scheme_separator(), from) == find_from(s, scheme_separator(), from),
    decreases s.len() - from,
{
    let sep = scheme_separator();
    if from < s.len() {
        // the three characters at `from` are the separator in both or in neither
        assert(matches_at(n, sep, from) == matches_at(s, sep, from)) by {
            if from + 3 <= s.len() {
                let i = find_from(s, sep, from);
                lemma_find_from(s, sep, from);
                assert forall|k: int| 0 <= k < 3 implies (n[from + k] == sep[k]) == (s[from + k]
                    == sep[k]) by {
                    lemma_ascii_lower_char(s[from + k]);
                }
                if matches_at(s, sep, from) {
                    assert forall|k: int| 0 <= k < sep.len() implies n[from + k] == #[trigger] sep[k] by {
                        assert(s[from + k] == sep[k]);
                    }
                }
                if matches_at(n, sep, from) {
                    assert forall|k: int| 0 <= k < sep.len() implies s[from + k] == #[trigger] sep[k] by {
                        assert(n[from + k] == sep[k]);
                    }
                }
            }
        }
        if !matches_at(s, sep, from) {
            lemma_find_lowered(n, s, upto, from + 1);
        }
    }
}

/// Where a slash is first found does not change when the string is put in
/// lower case up to some point.
proof fn lemma_position_lowered(n: Seq<char>, s: Seq<char>, upto: int, from: int)
    requires
        all_ascii(s),
        lowered_upto(n, s, upto),
        0 <= from <= s.len(),
    ensures
        position_from(n, '/', from) == position_from(s, '/', from),
    decreases s.len() - from,
{
    if from < s.len() {
        lemma_ascii_lower_char(s[from]);
        if s[from] != '/' {
            lemma_position_lowered(n, s, upto, from + 1);
        }
    }
}

/// The canonical form of a trimmed ASCII URL is ASCII and trimmed, and is
/// its own canonical form.
pub proof fn lemma_normalize_url_ascii(s: Seq<char>)
    requires
        all_ascii(s),
        is_trimmed(s),
    ensures
        all_ascii(normalize_url(s)),
        is_trimmed(normalize_url(s)),
        normalize_url(normalize_url(s)) == normalize_url(s),
        exists|upto: int| lowered_upto(normalize_url(s), s, upto),
{
    let sep = scheme_separator();
    let i = find(s, sep);
    lemma_find_from(s, sep, 0);
    lemma_lowercase_ascii(s);
    let whole = lowercase(s);
    assert(lowered_upto(whole, s, s.len() as int));
    if i >= s.len() {
        // no separator: all in lower case, and none appears
        assert(lowered_upto(whole, s, s.len() as int));
        lemma_find_lowered(whole, s, s.len() as int, 0);
        lemma_lowercase_ascii(whole);
    } else {
        let rest = s.subrange(i + 3, s.len() as int);
        let j = position(rest, '/');
        lemma_position_from(rest, '/', 0);
        if j >= rest.len() {
            // no slash after the separator: all in lower case, and none appears
            assert(lowered_upto(whole, s, s.len() as int));
            lemma_find_lowered(whole, s, s.len() as int, 0);
            let rest2 = whole.subrange(i + 3, whole.len() as int);
            assert(lowered_upto(rest2, rest, rest.len() as int));
            lemma_position_lowered(rest2, rest, rest.len() as int, 0);
            lemma_lowercase_ascii(whole);
        } else {
            let scheme = s.subrange(0, i + 3);
            let host = rest.subrange(0, j);
            let path = rest.subrange(j, rest.len() as int);
            lemma_lowercase_ascii(scheme);
            lemma_lowercase_ascii(host);
            let n = lowercase(scheme) + lowercase(host) + path;
            assert(normalize_url(s) == n);
            let upto = i + 3 + j;
            assert(lowered_upto(n, s, upto)) by {
                assert forall|k: int| 0 <= k < upto && k < s.len() implies #[trigger] n[k]
                    == ascii_lower_char(s[k]) by {
                    if k < i + 3 {
                        assert(n[k] == lowercase(scheme)[k]);
                        assert(scheme[k] == s[k]);
                    } else {
                        assert(n[k] == lowercase(host)[k - (i + 3)]);
                        assert(host[k - (i + 3)] == s[k]);
                    }
                }
                assert forall|k: int| upto <= k < s.len() implies #[trigger] n[k] == s[k] by {
                    assert(n[k] == path[k - upto]);
                }
            }
            assert(all_ascii(n)) by {
                assert forall|k: int| 0 <= k < n.len() implies is_ascii(#[trigger] n[k]) by {
                    lemma_ascii_lower_char(s[k]);
                }
            }
            assert(is_trimmed(n)) by {
                lemma_ascii_lower_char(s[0]);
                assert(n[0] == ascii_lower_char(s[0]));
                assert(n[n.len() - 1] == s[s.len() - 1]);
            }
            // the second pass finds the separator and the slash where the first did
            lemma_find_lowered(n, s, upto, 0);
            let rest2 = n.subrange(i + 3, n.len() as int);
            assert(lowered_upto(rest2, rest, j)) by {
                assert forall|k: int| 0 <= k < j && k < rest.len() implies #[trigger] rest2[k]
                    == ascii_lower_char(rest[k]) by {
                    assert(rest2[k] == n[k + i + 3]);
                }
                assert forall|k: int| j <= k < rest.len() implies #[trigger] rest2[k]
                    == rest[k] by {
                    assert(rest2[k] == n[k + i + 3]);
                }
            }
            lemma_position_lowered(rest2, rest, j, 0);
            assert(n.subrange(0, i + 3) =~= lowercase(scheme));
            assert(rest2.subrange(0, j) =~= lowercase(host));
            assert(rest2.subrange(j, rest2.len() as int) =~= path);
            lemma_lowercase_ascii(lowercase(scheme));
            lemma_lowercase_ascii(lowercase(host));
        }
    }
}

/// The canonical form of a value that is ASCII between the whitespace at
/// its ends is its own canonical form.
pub proof fn lemma_normalize_idempotent_ascii(v: Seq<char>, t: IocType)
    requires
        all_ascii(trim(v)),
    ensures
        normalize(normalize(v, t), t) == normalize(v, t),
{
    let s = trim(v);
    lemma_trim(v);
    match t {
        IocType::Cve => {
            lemma_uppercase_ascii(s);
            lemma_uppercase_ascii(uppercase(s));
        },
        IocType::Url => {
            lemma_normalize_url_ascii(s);
            lemma_trimmed_fixed(normalize_url(s));
        },
        _ => {
            lemma_lowercase_ascii(s);
            lemma_lowercase_ascii(lowercase(s));
        },
    }
}

// ---------------------------------------------------------------------------
// Upserts
// ---------------------------------------------------------------------------

/// The rows after one request after the other was accepted.
pub open spec fn upserted_all(rows: Seq<IndicatorView>, incoming: Seq<IndicatorView>) -> Seq<
    IndicatorView,
>
    decreases incoming.len(),
{
    if incoming.len() == 0 {
        rows
    } else {
        upserted(upserted_all(rows, incoming.drop_last()), incoming.last())
    }
}

/// Every one of the rows has this kind and value.
pub open spec fn all_of_key(incoming: Seq<IndicatorView>, t: IocType, value: Seq<char>) -> bool {
    forall|k: int|
        0 <= k < incoming.len() ==> (#[trigger] incoming[k]).ioc_type == t && incoming[k].value
            == value
}

/// The tags of all the rows.
pub open spec fn all_tags(incoming: Seq<IndicatorView>) -> Set<Seq<char>>
    decreases incoming.len(),
{
    if incoming.len() == 0 {
        Set::empty()
    } else {
        all_tags(incoming.drop_last()).union(incoming.last().tags.to_set())
    }
}

/// The sources of all the rows.
pub open spec fn all_sources(incoming: Seq<IndicatorView>) -> Set<u128>
    decreases incoming.len(),
{
    if incoming.len() == 0 {
        Set::empty()
    } else {
        all_sources(incoming.drop_last()).union(incoming.last().source_ids.to_set())
    }
}

/// One upsert into a row that exists: severity and confidence do not go
/// down, tags and sources are the unions, and the row is last seen when the
/// request was observed. The other rows stay as they are.
pub proof fn lemma_upsert_merges(rows: Seq<IndicatorView>, c: IndicatorView)
    requires
        key_index(rows, c.ioc_type, c.value, 0) < rows.len(),
    ensures
        ({
            let i = key_index(rows, c.ioc_type, c.value, 0);
            let before = rows[i];
            let after = upserted(rows, c)[i];
            &&& upserted(rows, c).len() == rows.len()
            &&& after.id == before.id
            &&& after.severity.rank() >= before.severity.rank()
            &&& after.severity.rank() >= c.severity.rank()
            &&& (after.severity == before.severity || after.severity == c.severity)
            &&& after.confidence >= before.confidence
            &&& after.confidence >= c.confidence
            &&& (after.confidence == before.confidence || after.confidence == c.confidence)
            &&& after.tags.to_set() == before.tags.to_set().union(c.tags.to_set())
            &&& after.source_ids.to_set() == before.source_ids.to_set().union(
                c.source_ids.to_set(),
            )
            &&& after.last_seen == c.last_seen
            &&& after.first_seen == before.first_seen
            &&& after.threat_score == before.threat_score
            &&& after.tlp == before.tlp
            &&& after.expiration == before.expiration
            &&& forall|k: int| 0 <= k < rows.len() && k != i ==> upserted(rows, c)[k] == rows[k]
        }),
{
    let i = key_index(rows, c.ioc_type, c.value, 0);
    lemma_key_index(rows, c.ioc_type, c.value, 0);
    lemma_union(rows[i].tags, c.tags);
    lemma_union(rows[i].source_ids, c.source_ids);
}

/// Any number of upserts of one kind and value into a store that has a row
/// for it: at every step severity and confidence of that row are at least
/// what they were and at least what the request says, and in the end its
/// tags are those that it had and those of all the requests, and its
/// sources likewise. The row stays where it is and keeps its identifier.
pub proof fn lemma_upserts_accumulate(
    rows: Seq<IndicatorView>,
    incoming: Seq<IndicatorView>,
    t: IocType,
    value: Seq<char>,
)
    requires
        key_index(rows, t, value, 0) < rows.len(),
        all_of_key(incoming, t, value),
    ensures
        ({
            let i = key_index(rows, t, value, 0);
            let end = upserted_all(rows, incoming);
            &&& end.len() == rows.len()
            &&& key_index(end, t, value, 0) == i
            &&& end[i].id == rows[i].id
            &&& end[i].severity.rank() >= rows[i].severity.rank()
            &&& end[i].confidence >= rows[i].confidence
            &&& forall|k: int|
                0 <= k < incoming.len() ==> end[i].severity.rank() >= (
                #[trigger] incoming[k]).severity.rank() && end[i].confidence
                    >= incoming[k].confidence
            &&& end[i].tags.to_set() == rows[i].tags.to_set().union(all_tags(incoming))
            &&& end[i].source_ids.to_set() == rows[i].source_ids.to_set().union(
                all_sources(incoming),
            )
        }),
    decreases incoming.len(),
{
    let i = key_index(rows, t, value, 0);
    lemma_key_index(rows, t, value, 0);
    if incoming.len() == 0 {
        assert(rows[i].tags.to_set().union(all_tags(incoming)) =~= rows[i].tags.to_set());
        assert(rows[i].source_ids.to_set().union(all_sources(incoming))
            =~= rows[i].source_ids.to_set());
    } else {
        let front = incoming.drop_last();
        let c = incoming.last();
        assert(all_of_key(front, t, value)) by {
            assert forall|k: int| 0 <= k < front.len() implies (#[trigger] front[k]).ioc_type == t
                && front[k].value == value by {
                assert(front[k] == incoming[k]);
            }
        }
        lemma_upserts_accumulate(rows, front, t, value);
        let mid = upserted_all(rows, front);
        assert(c.ioc_type == t && c.value == value);
        lemma_upsert_merges(mid, c);
        let end = upserted(mid, c);
        lemma_key_index(mid, t, value, 0);
        lemma_key_unchanged(mid, end, t, value, 0);
        assert forall|k: int| 0 <= k < incoming.len() implies end[i].severity.rank() >= (
        #[trigger] incoming[k]).severity.rank() && end[i].confidence >= incoming[k].confidence by {
            if k < front.len() {
                assert(front[k] == incoming[k]);
            }
        }
        assert(end[i].tags.to_set() =~= rows[i].tags.to_set().union(all_tags(incoming)));
        assert(end[i].source_ids.to_set() =~= rows[i].source_ids.to_set().union(
            all_sources(incoming),
        ));
    }
}

/// Rows that agree in kind and value are searched alike.
proof fn lemma_key_unchanged(
    a: Seq<IndicatorView>,
    b: Seq<IndicatorView>,
    t: IocType,
    value: Seq<char>,
    from: int,
)
    requires
        a.len() == b.len(),
        0 <= from <= a.len(),
        forall|k: int|
            0 <= k < a.len() ==> (#[trigger] a[k]).ioc_type == b[k].ioc_type && a[k].value
                == b[k].value,
    ensures
        key_index(b, t, value, from) == key_index(a, t, value, from),
    decreases a.len() - from,
{
    if from < a.len() {
        assert(a[from].ioc_type == b[from].ioc_type && a[from].value == b[from].value);
        if !(a[from].ioc_type == t && a[from].value == value) {
            lemma_key_unchanged(a, b, t, value, from + 1);
        }
    }
}

/// The first upsert of a kind and value creates the row, at the end of the
/// rows, and every later upsert of that kind and value finds it there.
pub proof fn lemma_first_upsert_creates(rows: Seq<IndicatorView>, c: IndicatorView)
    requires
        key_index(rows, c.ioc_type, c.value, 0) >= rows.len(),
    ensures
        upserted(rows, c) == rows.push(c),
        key_index(upserted(rows, c), c.ioc_type, c.value, 0) == rows.len(),
{
    lemma_key_index(rows, c.ioc_type, c.value, 0);
    let end = rows.push(c);
    lemma_key_index(end, c.ioc_type, c.value, 0);
    let i = key_index(end, c.ioc_type, c.value, 0);
    if i < rows.len() {
        assert(end[i] == rows[i]);
    }
    assert(end[rows.len() as int] == c);
}

/// Any number of upserts of one kind and value, at least one, into a store
/// that has no row for it: the first creates the row at the end of the
/// rows, under its identifier, and the others are merged into it. In the
/// end the severity and the confidence of the row are the highest of all
/// the requests, its tags are those of all the requests, and its sources
/// likewise. The rows that were there stay as they are.
pub proof fn lemma_upserts_from_nothing(
    rows: Seq<IndicatorView>,
    incoming: Seq<IndicatorView>,
    t: IocType,
    value: Seq<char>,
)
    requires
        key_index(rows, t, value, 0) >= rows.len(),
        incoming.len() > 0,
        all_of_key(incoming, t, value),
    ensures
        ({
            let n = rows.len() as int;
            let end = upserted_all(rows, incoming);
            &&& end.len() == n + 1
            &&& end.subrange(0, n) == rows
            &&& key_index(end, t, value, 0) == n
            &&& end[n].id == incoming[0].id
            &&& end[n].first_seen == incoming[0].first_seen
            &&& end[n].last_seen == incoming.last().last_seen
            &&& forall|k: int|
                0 <= k < incoming.len() ==> end[n].severity.rank() >= (
                #[trigger] incoming[k]).severity.rank() && end[n].confidence
                    >= incoming[k].confidence
            &&& exists|k: int|
                0 <= k < incoming.len() && end[n].severity == (#[trigger] incoming[k]).severity
            &&& exists|k: int|
                0 <= k < incoming.len() && end[n].confidence == (#[trigger] incoming[k]).confidence
            &&& end[n].tags.to_set() == all_tags(incoming)
            &&& end[n].source_ids.to_set() == all_sources(incoming)
        }),
    decreases incoming.len(),
{
    let n = rows.len() as int;
    let front = incoming.drop_last();
    let c = incoming.last();
    assert(c.ioc_type == t && c.value == value);
    if incoming.len() == 1 {
        assert(front.len() == 0);
        assert(upserted_all(rows, front) == rows);
        lemma_first_upsert_creates(rows, c);
        let end = upserted(rows, c);
        assert(end.subrange(0, n) =~= rows);
        assert(end[n] == incoming[0]);
        assert(all_tags(front) =~= Set::empty());
        assert(all_sources(front) =~= Set::empty());
        assert(all_tags(incoming) =~= c.tags.to_set());
        assert(all_sources(incoming) =~= c.source_ids.to_set());
    } else {
        assert(all_of_key(front, t, value)) by {
            assert forall|k: int| 0 <= k < front.len() implies (#[trigger] front[k]).ioc_type == t
                && front[k].value == value by {
                assert(front[k] == incoming[k]);
            }
        }
        lemma_upserts_from_nothing(rows, front, t, value);
        let mid = upserted_all(rows, front);
        lemma_upsert_merges(mid, c);
        let end = upserted(mid, c);
        lemma_key_unchanged(mid, end, t, value, 0);
        assert(front[0] == incoming[0]);
        assert(end.subrange(0, n) =~= mid.subrange(0, n));
        assert forall|k: int| 0 <= k < incoming.len() implies end[n].severity.rank() >= (
        #[trigger] incoming[k]).severity.rank() && end[n].confidence >= incoming[k].confidence by {
            if k < front.len() {
                assert(front[k] == incoming[k]);
            }
        }
        let ks = choose|k: int| 0 <= k < front.len() && mid[n].severity == (#[trigger] front[k]).severity;
        assert(front[ks] == incoming[ks]);
        if end[n].severity == c.severity {
            assert(incoming[incoming.len() - 1].severity == end[n].severity);
        } else {
            assert(incoming[ks].severity == end[n].severity);
        }
        let kc = choose|k: int|
            0 <= k < front.len() && mid[n].confidence == (#[trigger] front[k]).confidence;
        assert(front[kc] == incoming[kc]);
        if end[n].confidence == c.confidence {
            assert(incoming[incoming.len() - 1].confidence == end[n].confidence);
        } else {
            assert(incoming[kc].confidence == end[n].confidence);
        }
        assert(end[n].tags.to_set() =~= all_tags(incoming));
        assert(end[n].source_ids.to_set() =~= all_sources(incoming));
    }
}

// ---------------------------------------------------------------------------
// Sightings
// ---------------------------------------------------------------------------

/// After a sighting was recorded, its indicator was last seen no earlier
/// than the sighting was observed.
pub proof fn lemma_sighting_is_seen(
    pre: ThreatIntelRepo,
    post: ThreatIntelRepo,
    s: SightingView,
    r: Result<Sighting, RepoError>,
)
    requires
        add_sighting_result(pre, post, s, r),
        r is Ok,
    ensures
        ({
            let i = id_index(post.rows(), s.indicator_id, 0);
            &&& i < post.rows().len()
            &&& post.rows()[i].id == s.indicator_id
            &&& post.rows()[i].last_seen >= r->Ok_0@.observed_at
            &&& post.sighting_rows().last() == r->Ok_0@
        }),
{
    let i = id_index(pre.rows(), s.indicator_id, 0);
    lemma_id_index(pre.rows(), s.indicator_id, 0);
    lemma_id_index(post.rows(), s.indicator_id, 0);
    assert(post.rows()[i].id == s.indicator_id);
    let j = id_index(post.rows(), s.indicator_id, 0);
    if j < i {
        assert(post.rows()[j] == pre.rows()[j]);
    }
}

/// Of two sightings of one indicator, recorded one after the other, both
/// are counted, and the indicator was last seen when the second was
/// observed: at the later of the two times, where the second was observed
/// no earlier than the first.
pub proof fn lemma_sighted_twice(
    pre: ThreatIntelRepo,
    mid: ThreatIntelRepo,
    post: ThreatIntelRepo,
    first: SightingView,
    second: SightingView,
    r1: Result<Sighting, RepoError>,
    r2: Result<Sighting, RepoError>,
)
    requires
        add_sighting_result(pre, mid, first, r1),
        add_sighting_result(mid, post, second, r2),
        first.indicator_id == second.indicator_id,
        r1 is Ok,
    ensures
        r2 is Ok,
        sightings_of(post.sighting_rows(), first.indicator_id).len() == sightings_of(
            pre.sighting_rows(),
            first.indicator_id,
        ).len() + 2,
        ({
            let i = id_index(post.rows(), first.indicator_id, 0);
            &&& i < post.rows().len()
            &&& post.rows()[i].id == first.indicator_id
            &&& post.rows()[i].last_seen == second.observed_at
            &&& first.observed_at <= second.observed_at ==> post.rows()[i].last_seen
                >= first.observed_at
        }),
{
    let id = first.indicator_id;
    let i = id_index(pre.rows(), id, 0);
    lemma_id_index(pre.rows(), id, 0);
    lemma_id_index(mid.rows(), id, 0);
    lemma_id_index(post.rows(), id, 0);
    assert(mid.rows()[i].id == id);
    let j = id_index(mid.rows(), id, 0);
    if j < i {
        assert(mid.rows()[j] == pre.rows()[j]);
    }
    assert(j == i);
    assert(post.rows()[i].id == id);
    let k = id_index(post.rows(), id, 0);
    if k < i {
        assert(post.rows()[k] == mid.rows()[k]);
    }
    let pred = |s: SightingView| s.indicator_id == id;
    pre.sighting_rows().lemma_filter_push(first, pred);
    mid.sighting_rows().lemma_filter_push(second, pred);
}

} // verus!
