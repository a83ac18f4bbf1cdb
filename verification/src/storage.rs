//! The indicator store.
//!
//! The store holds indicators, enrichments, sightings and sources, and
//! enforces the identity and merge rules: there is one indicator for each
//! kind and canonical value, and a repeated observation is merged into it.
//! Every operation is one atomic step from one well-formed state to the next.
//!
//! An operation whose name ends in `_at` takes the current time, and the
//! identifier of a row that it may have to create, from its caller; the
//! operation without that ending takes them from the clock and from the
//! random number generator.

use crate::json::{JsonModel, JsonValue};
use crate::models::ioc_utils::{
    classify, detect_ioc_type, has_url_prefix, normalize, normalize_ioc,
};
use crate::models::{clone_opt_string, opt_json, DashboardStats, MICROS_PER_HOUR};
use crate::models::{
    clone_ids, CreateIndicatorRequest, CreateIndicatorRequestView, Indicator, IndicatorView,
    IocType, Severity, Tlp, MICROS_PER_DAY, severity_from_score, severity_of_score,
};
use crate::models::{
    Enrichment, EnrichmentView, IndicatorFilter, IocSource, IocSourceView, PaginatedResponse,
    Sighting, SightingView,
};
use crate::order::{lemma_rearranges_map, rearranges, sort, Ranked};
use crate::text::{
    all_ascii, clone_strings, concat, contains_str, contains_sub, has_sub,
    lemma_filter_subsequence, lowercase, str_eq, strs, to_chars, to_lowercase, trim,
};
use vstd::prelude::*;

verus! {

/// Why an operation failed.
#[derive(Debug, Clone, Copy, PartialEq, Eq, Structural)]
pub enum ErrorKind {
    /// The input cannot be accepted.
    Validation,
    /// What was asked for does not exist.
    NotFound,
    /// The store cannot hold what it was asked to hold.
    Storage,
}

/// A failed operation.
#[derive(Debug)]
pub struct RepoError {
    pub kind: ErrorKind,
    pub message: String,
}

impl RepoError {
    pub fn to_string(&self) -> (r: String)
        ensures
            r@ == self.message@,
    {
        self.message.clone()
    }
}

// ---------------------------------------------------------------------------
// Lists as sets
// ---------------------------------------------------------------------------

/// `a`, followed by the items of `b` that are not there yet, each once.
pub open spec fn union<T>(a: Seq<T>, b: Seq<T>) -> Seq<T>
    decreases b.len(),
{
    if b.len() == 0 {
        a
    } else {
        let r = union(a, b.drop_last());
        if r.contains(b.last()) {
            r
        } else {
            r.push(b.last())
        }
    }
}

/// As a set, the union of two lists is the union of their sets; it keeps the
/// first list at its front, and adds no item twice.
pub proof fn lemma_union<T>(a: Seq<T>, b: Seq<T>)
    ensures
        union(a, b).to_set() == a.to_set().union(b.to_set()),
        a.no_duplicates() ==> union(a, b).no_duplicates(),
        a.len() <= union(a, b).len() <= a.len() + b.len(),
        union(a, b).subrange(0, a.len() as int) == a,
    decreases b.len(),
{
    if b.len() == 0 {
        assert(b.to_set() =~= Set::empty());
        assert(a.to_set().union(b.to_set()) =~= a.to_set());
        assert(a.subrange(0, a.len() as int) =~= a);
    } else {
        let front = b.drop_last();
        let r = union(a, front);
        lemma_union(a, front);
        assert(b =~= front.push(b.last()));
        assert(b.to_set() =~= front.to_set().insert(b.last())) by {
            assert forall|x: T| b.to_set().contains(x) <==> front.to_set().insert(
                b.last(),
            ).contains(x) by {
                if b.contains(x) {
                    let i = choose|i: int| 0 <= i < b.len() && b[i] == x;
                    if i < front.len() {
                        assert(front[i] == x);
                    }
                }
                if front.contains(x) {
                    let i = choose|i: int| 0 <= i < front.len() && front[i] == x;
                    assert(b[i] == x);
                }
                if x == b.last() {
                    assert(b[b.len() - 1] == x);
                }
            }
        }
        if r.contains(b.last()) {
            assert(union(a, b).to_set() =~= a.to_set().union(b.to_set()));
        } else {
            let u = r.push(b.last());
            assert(u.to_set() =~= r.to_set().insert(b.last())) by {
                assert forall|x: T| u.to_set().contains(x) <==> r.to_set().insert(
                    b.last(),
                ).contains(x) by {
                    if u.contains(x) {
                        let i = choose|i: int| 0 <= i < u.len() && u[i] == x;
                        if i < r.len() {
                            assert(r[i] == x);
                        }
                    }
                    if r.contains(x) {
                        let i = choose|i: int| 0 <= i < r.len() && r[i] == x;
                        assert(u[i] == x);
                    }
                    if x == b.last() {
                        assert(u[u.len() - 1] == x);
                    }
                }
            }
            assert(union(a, b).to_set() =~= a.to_set().union(b.to_set()));
            assert(u.subrange(0, a.len() as int) =~= r.subrange(0, a.len() as int));
            if a.no_duplicates() {
                assert forall|i: int, j: int|
                    0 <= i < u.len() && 0 <= j < u.len() && i != j implies u[i] != u[j] by {
                    if i < r.len() && j < r.len() {
                        assert(r[i] != r[j]);
                    } else if i < r.len() {
                        assert(r[i] == u[i]);
                    } else {
                        assert(r[j] == u[j]);
                    }
                }
            }
        }
    }
}

/// The strings of `a`, followed by those of `b` that are not there yet.
pub fn union_strings(a: &Vec<String>, b: &Vec<String>) -> (r: Vec<String>)
    ensures
        strs(r@) == union(strs(a@), strs(b@)),
{
    let mut r = clone_strings(a);
    let mut i: usize = 0;
    assert(strs(b@).take(0) =~= Seq::empty());
    while i < b.len()
        invariant
            i <= b.len(),
            strs(r@) == union(strs(a@), strs(b@).take(i as int)),
        decreases b.len() - i,
    {
        proof {
            let next = strs(b@).take(i + 1);
            assert(next.drop_last() =~= strs(b@).take(i as int));
            assert(next.last() == b@[i as int]@);
        }
        if !contains_str(&r, b[i].as_str()) {
            let ghost before = strs(r@);
            r.push(b[i].clone());
            assert(strs(r@) =~= before.push(b@[i as int]@));
        }
        i = i + 1;
    }
    assert(strs(b@).take(b.len() as int) =~= strs(b@));
    r
}

/// Whether the list holds the identifier.
pub fn contains_id(v: &Vec<u128>, id: u128) -> (b: bool)
    ensures
        b == v@.contains(id),
{
    let mut i: usize = 0;
    while i < v.len()
        invariant
            i <= v.len(),
            forall|k: int| 0 <= k < i ==> v@[k] != id,
        decreases v.len() - i,
    {
        if v[i] == id {
            return true;
        }
        i = i + 1;
    }
    false
}

/// The identifiers of `a`, followed by those of `b` that are not there yet.
pub fn union_ids(a: &Vec<u128>, b: &Vec<u128>) -> (r: Vec<u128>)
    ensures
        r@ == union(a@, b@),
{
    let mut r = clone_ids(a);
    let mut i: usize = 0;
    assert(b@.take(0) =~= Seq::empty());
    while i < b.len()
        invariant
            i <= b.len(),
            r@ == union(a@, b@.take(i as int)),
        decreases b.len() - i,
    {
        proof {
            let next = b@.take(i + 1);
            assert(next.drop_last() =~= b@.take(i as int));
            assert(next.last() == b@[i as int]);
        }
        if !contains_id(&r, b[i]) {
            r.push(b[i]);
        }
        i = i + 1;
    }
    assert(b@.take(b.len() as int) =~= b@);
    r
}

// ---------------------------------------------------------------------------
// The rules of the upsert
// ---------------------------------------------------------------------------

/// The kind of the indicator that a request is about: the one it names, or
/// else the one that its value is detected as.
pub open spec fn resolve_type(req: CreateIndicatorRequestView) -> Option<IocType> {
    match req.ioc_type {
        Some(t) => Some(t),
        None => classify(req.value),
    }
}

/// When an indicator that is seen `now` and kept for `days` expires.
pub open spec fn expiration_of(now: i64, days: Option<i32>) -> Option<int> {
    match days {
        Some(d) => Some(now + d * MICROS_PER_DAY),
        None => None,
    }
}

/// The expiration is a time that a timestamp can hold.
pub open spec fn expiration_fits(now: i64, days: Option<i32>) -> bool {
    match expiration_of(now, days) {
        Some(t) => i64::MIN <= t <= i64::MAX,
        None => true,
    }
}

pub open spec fn or_empty<T>(o: Option<Seq<T>>) -> Seq<T> {
    match o {
        Some(s) => s,
        None => Seq::empty(),
    }
}

/// The row that a request stands for if no indicator has its key yet.
pub open spec fn candidate(
    req: CreateIndicatorRequestView,
    source_id: Option<u128>,
    id: u128,
    now: i64,
) -> IndicatorView
    recommends
        resolve_type(req) is Some,
        expiration_fits(now, req.expiration_days),
{
    let t = resolve_type(req)->0;
    let confidence = match req.confidence {
        Some(c) => c,
        None => 50,
    };
    IndicatorView {
        id,
        ioc_type: t,
        value: normalize(req.value, t),
        severity: match req.severity {
            Some(s) => s,
            None => Severity::Unknown,
        },
        confidence,
        threat_score: confidence,
        tlp: match req.tlp {
            Some(l) => l,
            None => Tlp::Amber,
        },
        first_seen: now,
        last_seen: now,
        expiration: match expiration_of(now, req.expiration_days) {
            Some(t) => Some(t as i64),
            None => None,
        },
        tags: union(Seq::empty(), or_empty(req.tags)),
        source_ids: match source_id {
            Some(s) => seq![s],
            None => Seq::empty(),
        },
        created_at: now,
        updated_at: now,
    }
}

/// The row after `incoming` was merged into `existing`: the higher severity
/// and confidence, the union of tags and of sources, the time of the new
/// observation; identity, score, label, expiration and first sighting stay.
pub open spec fn merged(existing: IndicatorView, incoming: IndicatorView) -> IndicatorView {
    IndicatorView {
        severity: existing.severity.higher(incoming.severity),
        confidence: if incoming.confidence > existing.confidence {
            incoming.confidence
        } else {
            existing.confidence
        },
        last_seen: incoming.last_seen,
        tags: union(existing.tags, incoming.tags),
        source_ids: union(existing.source_ids, incoming.source_ids),
        updated_at: incoming.updated_at,
        ..existing
    }
}

/// The first index at or after `from` of a row with this kind and value;
/// `rows.len()` if there is none.
pub open spec fn key_index(rows: Seq<IndicatorView>, t: IocType, value: Seq<char>, from: int) -> int
    decreases rows.len() - from,
{
    if from < 0 || from >= rows.len() {
        rows.len() as int
    } else if rows[from].ioc_type == t && rows[from].value == value {
        from
    } else {
        key_index(rows, t, value, from + 1)
    }
}

/// The first index at or after `from` of a row with this identifier;
/// `rows.len()` if there is none.
pub open spec fn id_index(rows: Seq<IndicatorView>, id: u128, from: int) -> int
    decreases rows.len() - from,
{
    if from < 0 || from >= rows.len() {
        rows.len() as int
    } else if rows[from].id == id {
        from
    } else {
        id_index(rows, id, from + 1)
    }
}

/// The first index at or after `from` of a row with this value, whatever
/// its kind; `rows.len()` if there is none.
pub open spec fn value_index(rows: Seq<IndicatorView>, value: Seq<char>, from: int) -> int
    decreases rows.len() - from,
{
    if from < 0 || from >= rows.len() {
        rows.len() as int
    } else if rows[from].value == value {
        from
    } else {
        value_index(rows, value, from + 1)
    }
}

pub proof fn lemma_key_index(rows: Seq<IndicatorView>, t: IocType, value: Seq<char>, from: int)
    requires
        0 <= from <= rows.len(),
    ensures
        from <= key_index(rows, t, value, from) <= rows.len(),
        key_index(rows, t, value, from) < rows.len() ==> {
            let i = key_index(rows, t, value, from);
            rows[i].ioc_type == t && rows[i].value == value
        },
        forall|k: int|
            from <= k < key_index(rows, t, value, from) ==> !((#[trigger] rows[k]).ioc_type == t
                && rows[k].value == value),
    decreases rows.len() - from,
{
    if from < rows.len() && !(rows[from].ioc_type == t && rows[from].value == value) {
        lemma_key_index(rows, t, value, from + 1);
    }
}

pub proof fn lemma_id_index(rows: Seq<IndicatorView>, id: u128, from: int)
    requires
        0 <= from <= rows.len(),
    ensures
        from <= id_index(rows, id, from) <= rows.len(),
        id_index(rows, id, from) < rows.len() ==> rows[id_index(rows, id, from)].id == id,
        forall|k: int| from <= k < id_index(rows, id, from) ==> (#[trigger] rows[k]).id != id,
    decreases rows.len() - from,
{
    if from < rows.len() && rows[from].id != id {
        lemma_id_index(rows, id, from + 1);
    }
}

/// No two rows have the same kind and value.
pub open spec fn keys_unique(rows: Seq<IndicatorView>) -> bool {
    forall|i: int, j: int|
        #![trigger rows[i], rows[j]]
        0 <= i < j < rows.len() ==> !(rows[i].ioc_type == rows[j].ioc_type && rows[i].value
            == rows[j].value)
}

/// No two rows have the same identifier.
pub open spec fn ids_unique(rows: Seq<IndicatorView>) -> bool {
    forall|i: int, j: int|
        #![trigger rows[i], rows[j]]
        0 <= i < j < rows.len() ==> rows[i].id != rows[j].id
}

/// No row carries a tag or a source twice.
pub open spec fn sets_distinct(rows: Seq<IndicatorView>) -> bool {
    forall|i: int|
        0 <= i < rows.len() ==> (#[trigger] rows[i]).tags.no_duplicates()
            && rows[i].source_ids.no_duplicates()
}

/// The rows after an accepted request: merged into the row that has the
/// candidate's key, or added at the end where no row has it.
pub open spec fn upserted(rows: Seq<IndicatorView>, incoming: IndicatorView) -> Seq<IndicatorView> {
    let i = key_index(rows, incoming.ioc_type, incoming.value, 0);
    if i < rows.len() {
        rows.update(i, merged(rows[i], incoming))
    } else {
        rows.push(incoming)
    }
}

/// What an upsert does to the rows, or why it is refused. It is refused as
/// invalid where the kind is neither given nor detected or the expiration is
/// out of range, and as a storage failure where it would add a row under an
/// identifier that another row has.
pub open spec fn upsert_outcome(
    rows: Seq<IndicatorView>,
    req: CreateIndicatorRequestView,
    source_id: Option<u128>,
    id: u128,
    now: i64,
) -> Result<Seq<IndicatorView>, ErrorKind> {
    if resolve_type(req) is None {
        Err(ErrorKind::Validation)
    } else if !expiration_fits(now, req.expiration_days) {
        Err(ErrorKind::Validation)
    } else {
        let c = candidate(req, source_id, id, now);
        if key_index(rows, c.ioc_type, c.value, 0) >= rows.len() && id_index(rows, id, 0)
            < rows.len() {
            Err(ErrorKind::Storage)
        } else {
            Ok(upserted(rows, c))
        }
    }
}

/// What is said of a value whose kind cannot be detected.
pub open spec fn undetected_message(value: Seq<char>) -> Seq<char> {
    "Could not detect IOC type for: "@ + value
}

/// What is said of an expiration that no timestamp can hold.
pub open spec fn out_of_range_message() -> Seq<char> {
    "Expiration is out of range"@
}

/// What is said of an identifier that another row has.
pub open spec fn in_use_message() -> Seq<char> {
    "Identifier is already in use"@
}

/// What is said of a request that is refused.
pub open spec fn refusal_message(req: CreateIndicatorRequestView, now: i64) -> Seq<char> {
    if resolve_type(req) is None {
        undetected_message(req.value)
    } else if !expiration_fits(now, req.expiration_days) {
        out_of_range_message()
    } else {
        in_use_message()
    }
}

/// Every row was first seen no later than last seen, and last seen no later
/// than updated.
pub open spec fn ordered_in_time(rows: Seq<IndicatorView>) -> bool {
    forall|i: int|
        0 <= i < rows.len() ==> (#[trigger] rows[i]).first_seen <= rows[i].last_seen
            <= rows[i].updated_at
}

/// No row was updated after `now`.
pub open spec fn not_after(rows: Seq<IndicatorView>, now: i64) -> bool {
    forall|i: int| 0 <= i < rows.len() ==> (#[trigger] rows[i]).updated_at <= now
}

// ---------------------------------------------------------------------------
// Time and identifiers
// ---------------------------------------------------------------------------

/// Calls `uuid::Uuid::new_v4` and hands out the 128 bits of the identifier.
/// Nothing is claimed of a random number.
#[verifier::external_body]
pub(crate) fn fresh_id() -> u128 {
    uuid::Uuid::new_v4().as_u128()
}

/// No instant that the clock can give lies before this many microseconds
/// from the epoch: the calendar of the clock begins after it.
pub const CLOCK_MIN_MICROS: i64 = -8_400_000_000_000_000_000;

/// No instant that the clock can give lies after this many microseconds
/// from the epoch: the calendar of the clock ends before it.
pub const CLOCK_MAX_MICROS: i64 = 8_300_000_000_000_000_000;

/// A number of days by which any instant of the clock can be moved, either
/// way, to give a time that a timestamp can hold.
pub const SURE_DAYS: i32 = 9_000_000;

/// A number of hours by which any instant of the clock can be moved, either
/// way, to give a time that a timestamp can hold.
pub const SURE_HOURS: i64 = 216_000_000;

/// The time is one that the clock can give.
pub open spec fn in_clock_range(now: i64) -> bool {
    CLOCK_MIN_MICROS <= now <= CLOCK_MAX_MICROS
}

/// Each of the times is one that the clock can give.
pub open spec fn clock_times(times: Seq<i64>) -> bool {
    forall|k: int| 0 <= k < times.len() ==> in_clock_range(#[trigger] times[k])
}

/// The expiration fits whatever the clock says: there is none, or it lies
/// no more than `SURE_DAYS` days away.
pub open spec fn days_are_sure(days: Option<i32>) -> bool {
    match days {
        Some(d) => -SURE_DAYS <= d <= SURE_DAYS,
        None => true,
    }
}

/// The expiry fits whatever the clock says: there is none, or it lies no
/// more than `SURE_HOURS` hours away.
pub open spec fn hours_are_sure(hours: Option<i64>) -> bool {
    match hours {
        Some(h) => -SURE_HOURS <= h <= SURE_HOURS,
        None => true,
    }
}

/// Calls `chrono::Utc::now` and hands out the microseconds since the epoch,
/// as `DateTime::timestamp_micros` gives them. Trusted: the time lies within
/// the calendar that a `DateTime` holds, which begins in the year -262143
/// and ends with the year 262142, some 8.3 and 8.2 million million seconds
/// from the epoch. Nothing else is claimed of the time: it may lie before
/// the time of an earlier call. On a machine whose clock stands before the
/// epoch or beyond that calendar the call does not return.
#[verifier::external_body]
pub(crate) fn clock_micros() -> (now: i64)
    ensures
        in_clock_range(now),
{
    chrono::Utc::now().timestamp_micros()
}

/// `now` moved by `amount` units of `unit` microseconds, where that is a
/// time that a timestamp can hold.
pub fn shift_time(now: i64, amount: i64, unit: i64) -> (r: Option<i64>)
    requires
        0 < unit <= MICROS_PER_DAY,
    ensures
        match r {
            Some(t) => t == now + amount * unit,
            None => !(i64::MIN <= now + amount * unit <= i64::MAX),
        },
{
    let wide: i128 = now as i128;
    let a: i128 = amount as i128;
    let u: i128 = unit as i128;
    assert(-0x8000_0000_0000_0000 * 86_400_000_000 <= a * u <= 0x8000_0000_0000_0000
        * 86_400_000_000) by (nonlinear_arith)
        requires
            -0x8000_0000_0000_0000 <= a < 0x8000_0000_0000_0000,
            0 < u <= 86_400_000_000,
    ;
    let t: i128 = wide + a * u;
    if t < i64::MIN as i128 || t > i64::MAX as i128 {
        None
    } else {
        Some(t as i64)
    }
}

/// The row that a request stands for: its kind resolved, its value in
/// canonical form, the defaults filled in. Refused as invalid where the kind
/// is neither given nor detected, or the expiration is out of range.
pub fn prepare_indicator(
    req: &CreateIndicatorRequest,
    source_id: Option<u128>,
    id: u128,
    now: i64,
) -> (r: Result<Indicator, RepoError>)
    ensures
        r is Ok <==> resolve_type(req@) is Some && expiration_fits(now, req@.expiration_days),
        r is Ok ==> r->Ok_0@ == candidate(req@, source_id, id, now),
        r is Err ==> r->Err_0.kind == ErrorKind::Validation && r->Err_0.message@ == refusal_message(
            req@,
            now,
        ),
{
    let ioc_type = match req.ioc_type {
        Some(t) => t,
        None => match detect_ioc_type(req.value.as_str()) {
            Some(t) => t,
            None => {
                return Err(
                    RepoError {
                        kind: ErrorKind::Validation,
                        message: concat("Could not detect IOC type for: ", req.value.as_str()),
                    },
                );
            },
        },
    };
    let expiration = match req.expiration_days {
        Some(days) => match shift_time(now, days as i64, MICROS_PER_DAY) {
            Some(t) => Some(t),
            None => {
                return Err(
                    RepoError {
                        kind: ErrorKind::Validation,
                        message: "Expiration is out of range".to_owned(),
                    },
                );
            },
        },
        None => None,
    };
    let value = normalize_ioc(req.value.as_str(), &ioc_type);
    let confidence = match req.confidence {
        Some(c) => c,
        None => 50,
    };
    let no_tags: Vec<String> = Vec::new();
    assert(strs(no_tags@) =~= Seq::empty());
    let tags = match &req.tags {
        Some(t) => union_strings(&no_tags, t),
        None => {
            assert(union(Seq::<Seq<char>>::empty(), Seq::empty()) =~= Seq::empty());
            no_tags
        },
    };
    let mut source_ids: Vec<u128> = Vec::new();
    match source_id {
        Some(s) => {
            source_ids.push(s);
            assert(source_ids@ =~= seq![s]);
        },
        None => {},
    }
    Ok(
        Indicator {
            id,
            ioc_type,
            value,
            severity: match req.severity {
                Some(s) => s,
                None => Severity::Unknown,
            },
            confidence,
            threat_score: confidence,
            tlp: match req.tlp {
                Some(l) => l,
                None => Tlp::Amber,
            },
            first_seen: now,
            last_seen: now,
            expiration,
            tags,
            source_ids,
            created_at: now,
            updated_at: now,
        },
    )
}

/// The row after `incoming` was merged into `existing`.
pub fn merge_indicator(existing: &Indicator, incoming: &Indicator) -> (r: Indicator)
    ensures
        r@ == merged(existing@, incoming@),
{
    Indicator {
        id: existing.id,
        ioc_type: existing.ioc_type,
        value: existing.value.clone(),
        severity: existing.severity.max(incoming.severity),
        confidence: if incoming.confidence > existing.confidence {
            incoming.confidence
        } else {
            existing.confidence
        },
        threat_score: existing.threat_score,
        tlp: existing.tlp,
        first_seen: existing.first_seen,
        last_seen: incoming.last_seen,
        expiration: existing.expiration,
        tags: union_strings(&existing.tags, &incoming.tags),
        source_ids: union_ids(&existing.source_ids, &incoming.source_ids),
        created_at: existing.created_at,
        updated_at: incoming.updated_at,
    }
}

/// A row that a request stands for carries no tag and no source twice.
pub proof fn lemma_candidate_distinct(
    req: CreateIndicatorRequestView,
    source_id: Option<u128>,
    id: u128,
    now: i64,
)
    ensures
        candidate(req, source_id, id, now).tags.no_duplicates(),
        candidate(req, source_id, id, now).source_ids.no_duplicates(),
{
    lemma_union(Seq::<Seq<char>>::empty(), or_empty(req.tags));
}

/// An upsert keeps the rows well formed, and in order in time where the
/// clock has not gone back.
pub proof fn lemma_upserted_wf(rows: Seq<IndicatorView>, c: IndicatorView, now: i64)
    requires
        keys_unique(rows),
        ids_unique(rows),
        sets_distinct(rows),
        c.tags.no_duplicates(),
        c.source_ids.no_duplicates(),
        key_index(rows, c.ioc_type, c.value, 0) >= rows.len() ==> id_index(rows, c.id, 0)
            >= rows.len(),
    ensures
        keys_unique(upserted(rows, c)),
        ids_unique(upserted(rows, c)),
        sets_distinct(upserted(rows, c)),
        ordered_in_time(rows) && not_after(rows, now) && c.first_seen == now && c.last_seen == now
            && c.updated_at == now ==> ordered_in_time(upserted(rows, c)) && not_after(
            upserted(rows, c),
            now,
        ),
{
    let post = upserted(rows, c);
    let at = key_index(rows, c.ioc_type, c.value, 0);
    lemma_key_index(rows, c.ioc_type, c.value, 0);
    lemma_id_index(rows, c.id, 0);
    if at < rows.len() {
        lemma_union(rows[at].tags, c.tags);
        lemma_union(rows[at].source_ids, c.source_ids);
        assert forall|i: int| 0 <= i < post.len() implies (#[trigger] post[i]).ioc_type
            == rows[i].ioc_type && post[i].value == rows[i].value && post[i].id == rows[i].id by {}
        assert forall|i: int| 0 <= i < post.len() implies (#[trigger] post[i]).tags.no_duplicates()
            && post[i].source_ids.no_duplicates() by {
            if i != at {
                assert(post[i] == rows[i]);
            }
        }
        if ordered_in_time(rows) && not_after(rows, now) && c.first_seen == now && c.last_seen
            == now && c.updated_at == now {
            assert forall|i: int| 0 <= i < post.len() implies (#[trigger] post[i]).first_seen
                <= post[i].last_seen <= post[i].updated_at <= now by {
                if i != at {
                    assert(post[i] == rows[i]);
                } else {
                    assert(rows[i].first_seen <= rows[i].last_seen <= rows[i].updated_at <= now);
                }
            }
        }
    } else {
        assert forall|i: int| 0 <= i < rows.len() implies #[trigger] post[i] == rows[i] by {}
        assert(post[rows.len() as int] == c);
        assert(keys_unique(post)) by {
            assert forall|i: int, j: int|
                #![trigger post[i], post[j]]
                0 <= i < j < post.len() implies !(post[i].ioc_type == post[j].ioc_type
                && post[i].value == post[j].value) by {
                assert(post[i] == rows[i]);
                if j < rows.len() {
                    assert(post[j] == rows[j]);
                }
            }
        }
        assert(ids_unique(post)) by {
            assert forall|i: int, j: int|
                #![trigger post[i], post[j]]
                0 <= i < j < post.len() implies post[i].id != post[j].id by {
                assert(post[i] == rows[i]);
                if j < rows.len() {
                    assert(post[j] == rows[j]);
                }
            }
        }
        assert forall|i: int| 0 <= i < post.len() implies (#[trigger] post[i]).tags.no_duplicates()
            && post[i].source_ids.no_duplicates() by {
            if i < rows.len() {
                assert(post[i] == rows[i]);
            }
        }
        if ordered_in_time(rows) && not_after(rows, now) && c.first_seen == now && c.last_seen
            == now && c.updated_at == now {
            assert forall|i: int| 0 <= i < post.len() implies (#[trigger] post[i]).first_seen
                <= post[i].last_seen <= post[i].updated_at <= now by {
                if i < rows.len() {
                    assert(post[i] == rows[i]);
                }
            }
        }
    }
}

// ---------------------------------------------------------------------------
// The store
// ---------------------------------------------------------------------------

/// The store. Its state is the four lists that `rows`, `enrichment_rows`,
/// `sighting_rows` and `source_rows` give.
pub struct ThreatIntelRepo {
    indicators: Vec<Indicator>,
    enrichments: Vec<Enrichment>,
    sightings: Vec<Sighting>,
    sources: Vec<IocSource>,
}

/// How `upsert_indicator_at` relates the store before and after it, the
/// request and what it returns.
pub open spec fn upsert_result(
    pre: ThreatIntelRepo,
    post: ThreatIntelRepo,
    req: CreateIndicatorRequestView,
    source_id: Option<u128>,
    id: u128,
    now: i64,
    r: Result<Indicator, RepoError>,
) -> bool {
    &&& post.enrichment_rows() == pre.enrichment_rows()
    &&& post.sighting_rows() == pre.sighting_rows()
    &&& post.source_rows() == pre.source_rows()
    &&& match upsert_outcome(pre.rows(), req, source_id, id, now) {
        Ok(rows) => {
            let c = candidate(req, source_id, id, now);
            &&& r is Ok
            &&& post.rows() == rows
            &&& r->Ok_0@ == rows[key_index(pre.rows(), c.ioc_type, c.value, 0)]
        },
        Err(kind) => {
            &&& r is Err
            &&& r->Err_0.kind == kind
            &&& post.rows() == pre.rows()
            &&& r->Err_0.message@ == refusal_message(req, now)
        },
    }
    &&& ordered_in_time(pre.rows()) && not_after(pre.rows(), now) ==> ordered_in_time(post.rows())
        && not_after(post.rows(), now)
}

/// A merge is owed to the request whatever the clock says: its kind is
/// given or detected, its expiration is sure to fit, and a row has its kind
/// and canonical value.
pub open spec fn merge_owed(rows: Seq<IndicatorView>, req: CreateIndicatorRequestView) -> bool {
    &&& resolve_type(req) is Some
    &&& days_are_sure(req.expiration_days)
    &&& key_index(rows, resolve_type(req)->0, normalize(req.value, resolve_type(req)->0), 0)
        < rows.len()
}

/// The row that the request is merged into.
pub open spec fn merge_target(rows: Seq<IndicatorView>, req: CreateIndicatorRequestView) -> int {
    key_index(rows, resolve_type(req)->0, normalize(req.value, resolve_type(req)->0), 0)
}

/// The row `r` is the row `e` after the request was merged into it: the
/// identifier and the key stay; the severity is the higher of the row's and
/// the one asked for, the confidence likewise, with unknown and 50 standing
/// for what is not asked; tags and sources, read as sets, are those of the
/// row and those of the request; score, label, expiration and the first
/// sighting stay.
pub open spec fn merged_as_asked(
    e: IndicatorView,
    req: CreateIndicatorRequestView,
    source_id: Option<u128>,
    r: IndicatorView,
) -> bool {
    let asked_severity = match req.severity {
        Some(s) => s,
        None => Severity::Unknown,
    };
    let asked_confidence = match req.confidence {
        Some(c) => c,
        None => 50,
    };
    let asked_sources: Seq<u128> = match source_id {
        Some(s) => seq![s],
        None => Seq::empty(),
    };
    &&& r.id == e.id
    &&& r.ioc_type == e.ioc_type
    &&& r.value == e.value
    &&& r.severity == e.severity.higher(asked_severity)
    &&& r.severity.rank() >= e.severity.rank()
    &&& r.confidence == if asked_confidence > e.confidence {
        asked_confidence
    } else {
        e.confidence
    }
    &&& r.confidence >= e.confidence
    &&& r.tags == union(e.tags, union(Seq::empty(), or_empty(req.tags)))
    &&& r.tags.to_set() == e.tags.to_set().union(or_empty(req.tags).to_set())
    &&& r.source_ids == union(e.source_ids, asked_sources)
    &&& r.source_ids.to_set() == e.source_ids.to_set().union(asked_sources.to_set())
    &&& r.threat_score == e.threat_score
    &&& r.tlp == e.tlp
    &&& r.expiration == e.expiration
    &&& r.first_seen == e.first_seen
    &&& r.created_at == e.created_at
    &&& r.last_seen == r.updated_at
}

/// An expiration that is sure to fit fits at every time that the clock can
/// give, and so does an expiry.
pub proof fn lemma_sure_to_fit(now: i64, days: Option<i32>, hours: Option<i64>)
    requires
        in_clock_range(now),
    ensures
        days_are_sure(days) ==> expiration_fits(now, days),
        hours_are_sure(hours) ==> expiry_fits(now, hours),
{
}

/// Where a merge is owed, an upsert at a time that the clock can give
/// succeeds, and gives the row after the request was merged into it.
pub proof fn lemma_merge_is_owed(
    pre: ThreatIntelRepo,
    post: ThreatIntelRepo,
    req: CreateIndicatorRequestView,
    source_id: Option<u128>,
    id: u128,
    now: i64,
    r: Result<Indicator, RepoError>,
)
    requires
        in_clock_range(now),
        upsert_result(pre, post, req, source_id, id, now, r),
        merge_owed(pre.rows(), req),
    ensures
        r is Ok,
        merged_as_asked(pre.rows()[merge_target(pre.rows(), req)], req, source_id, r->Ok_0@),
        post.rows() == pre.rows().update(merge_target(pre.rows(), req), r->Ok_0@),
{
    lemma_sure_to_fit(now, req.expiration_days, None);
    let c = candidate(req, source_id, id, now);
    let k = merge_target(pre.rows(), req);
    let e = pre.rows()[k];
    lemma_key_index(pre.rows(), c.ioc_type, c.value, 0);
    lemma_union(Seq::<Seq<char>>::empty(), or_empty(req.tags));
    lemma_union(e.tags, c.tags);
    lemma_union(e.source_ids, c.source_ids);
    assert(c.tags.to_set() =~= or_empty(req.tags).to_set()) by {
        assert(Seq::<Seq<char>>::empty().to_set() =~= Set::empty());
    }
    assert(r->Ok_0@.tags.to_set() =~= e.tags.to_set().union(or_empty(req.tags).to_set()));
}

impl ThreatIntelRepo {
    /// The indicators, in the order in which they were created.
    pub closed spec fn rows(&self) -> Seq<IndicatorView> {
        self.indicators@.map_values(|r: Indicator| r@)
    }

    /// The enrichments, in the order in which they were created.
    pub closed spec fn enrichment_rows(&self) -> Seq<EnrichmentView> {
        self.enrichments@.map_values(|r: Enrichment| r@)
    }

    /// The sightings, in the order in which they were recorded.
    pub closed spec fn sighting_rows(&self) -> Seq<SightingView> {
        self.sightings@.map_values(|r: Sighting| r@)
    }

    /// The sources, in the order in which they were created.
    pub closed spec fn source_rows(&self) -> Seq<IocSourceView> {
        self.sources@.map_values(|r: IocSource| r@)
    }

    /// The store is well formed: what must be unique is unique.
    pub open spec fn wf(&self) -> bool {
        &&& keys_unique(self.rows())
        &&& ids_unique(self.rows())
        &&& sets_distinct(self.rows())
        &&& enrichment_keys_unique(self.enrichment_rows())
        &&& source_names_unique(self.source_rows())
    }

    /// An empty store.
    pub fn new() -> (r: ThreatIntelRepo)
        ensures
            r.wf(),
            r.rows().len() == 0,
            r.enrichment_rows().len() == 0,
            r.sighting_rows().len() == 0,
            r.source_rows().len() == 0,
    {
        ThreatIntelRepo {
            indicators: Vec::new(),
            enrichments: Vec::new(),
            sightings: Vec::new(),
            sources: Vec::new(),
        }
    }

    fn find_key(&self, t: IocType, value: &str) -> (i: usize)
        ensures
            i == key_index(self.rows(), t, value@, 0),
            i <= self.indicators@.len(),
    {
        let mut i: usize = 0;
        while i < self.indicators.len()
            invariant
                i <= self.indicators@.len(),
                key_index(self.rows(), t, value@, 0) == key_index(self.rows(), t, value@, i as int),
            decreases self.indicators.len() - i,
        {
            assert(self.rows()[i as int] == self.indicators@[i as int]@);
            if self.indicators[i].ioc_type == t && str_eq(self.indicators[i].value.as_str(), value) {
                return i;
            }
            i = i + 1;
        }
        i
    }

    fn find_id(&self, id: u128) -> (i: usize)
        ensures
            i == id_index(self.rows(), id, 0),
            i <= self.indicators@.len(),
    {
        let mut i: usize = 0;
        while i < self.indicators.len()
            invariant
                i <= self.indicators@.len(),
                id_index(self.rows(), id, 0) == id_index(self.rows(), id, i as int),
            decreases self.indicators.len() - i,
        {
            assert(self.rows()[i as int] == self.indicators@[i as int]@);
            if self.indicators[i].id == id {
                return i;
            }
            i = i + 1;
        }
        i
    }

    fn find_value(&self, value: &str) -> (i: usize)
        ensures
            i == value_index(self.rows(), value@, 0),
            i <= self.indicators@.len(),
    {
        let mut i: usize = 0;
        while i < self.indicators.len()
            invariant
                i <= self.indicators@.len(),
                value_index(self.rows(), value@, 0) == value_index(self.rows(), value@, i as int),
            decreases self.indicators.len() - i,
        {
            assert(self.rows()[i as int] == self.indicators@[i as int]@);
            if str_eq(self.indicators[i].value.as_str(), value) {
                return i;
            }
            i = i + 1;
        }
        i
    }

    /// Creates the indicator that the request is about, or merges the
    /// request into the indicator that has its kind and canonical value.
    /// `id` is the identifier of the row if one is created, `now` the time
    /// of the observation. Returns the row as it is afterwards.
    pub fn upsert_indicator_at(
        &mut self,
        req: &CreateIndicatorRequest,
        source_id: Option<u128>,
        id: u128,
        now: i64,
    ) -> (r: Result<Indicator, RepoError>)
        requires
            old(self).wf(),
        ensures
            final(self).wf(),
            upsert_result(*old(self), *final(self), req@, source_id, id, now, r),
    {
        let incoming = match prepare_indicator(req, source_id, id, now) {
            Ok(row) => row,
            Err(e) => {
                return Err(e);
            },
        };
        let ghost c = incoming@;
        let ghost pre = self.rows();
        proof {
            lemma_candidate_distinct(req@, source_id, id, now);
        }
        let at = self.find_key(incoming.ioc_type, incoming.value.as_str());
        if at < self.indicators.len() {
            assert(self.indicators@[at as int]@ == pre[at as int]);
            let row = merge_indicator(&self.indicators[at], &incoming);
            let copy = row.clone();
            self.indicators.set(at, row);
            proof {
                assert(self.rows() =~= pre.update(at as int, merged(pre[at as int], c)));
                lemma_upserted_wf(pre, c, now);
            }
            Ok(copy)
        } else {
            let taken = self.find_id(id);
            if taken < self.indicators.len() {
                return Err(
                    RepoError {
                        kind: ErrorKind::Storage,
                        message: "Identifier is already in use".to_owned(),
                    },
                );
            }
            let copy = incoming.clone();
            self.indicators.push(incoming);
            proof {
                assert(self.rows() =~= pre.push(c));
                lemma_upserted_wf(pre, c, now);
            }
            Ok(copy)
        }
    }

    /// Creates the indicator that the request is about, or merges the
    /// request into the indicator that has its kind and canonical value,
    /// as `upsert_indicator_at` does with the time of the call and a new
    /// random identifier. Where the store has a row of the kind and
    /// canonical value of the request, and the expiration asked for is none
    /// or no more than `SURE_DAYS` days away, the merge succeeds whatever
    /// the clock says.
    pub fn upsert_indicator(&mut self, req: &CreateIndicatorRequest, source_id: Option<u128>) -> (r:
        Result<Indicator, RepoError>)
        requires
            old(self).wf(),
        ensures
            final(self).wf(),
            exists|id: u128, now: i64|
                in_clock_range(now) && #[trigger] upsert_result(
                    *old(self),
                    *final(self),
                    req@,
                    source_id,
                    id,
                    now,
                    r,
                ),
            resolve_type(req@) is None ==> r is Err && r->Err_0.kind == ErrorKind::Validation
                && r->Err_0.message@ == undetected_message(req@.value),
            resolve_type(req@) is Some && days_are_sure(req@.expiration_days) && r is Err
                ==> r->Err_0.kind == ErrorKind::Storage && !merge_owed(old(self).rows(), req@),
            merge_owed(old(self).rows(), req@) ==> r is Ok && merged_as_asked(
                old(self).rows()[merge_target(old(self).rows(), req@)],
                req@,
                source_id,
                r->Ok_0@,
            ) && final(self).rows() == old(self).rows().update(
                merge_target(old(self).rows(), req@),
                r->Ok_0@,
            ),
    {
        let id = fresh_id();
        let now = clock_micros();
        let r = self.upsert_indicator_at(req, source_id, id, now);
        proof {
            assert(upsert_result(*old(self), *self, req@, source_id, id, now, r));
            lemma_sure_to_fit(now, req@.expiration_days, None);
            if merge_owed(old(self).rows(), req@) {
                lemma_merge_is_owed(*old(self), *self, req@, source_id, id, now, r);
            }
        }
        r
    }

    /// The indicator with this identifier, if there is one.
    pub fn get_indicator(&self, id: u128) -> (r: Result<Option<Indicator>, RepoError>)
        ensures
            r is Ok,
            match r->Ok_0 {
                Some(row) => id_index(self.rows(), id, 0) < self.rows().len() && row@
                    == self.rows()[id_index(self.rows(), id, 0)],
                None => id_index(self.rows(), id, 0) >= self.rows().len(),
            },
    {
        let i = self.find_id(id);
        if i < self.indicators.len() {
            assert(self.rows()[i as int] == self.indicators@[i as int]@);
            Ok(Some(self.indicators[i].clone()))
        } else {
            Ok(None)
        }
    }

    /// The indicator that a raw value denotes, if the store has it: the one
    /// with the kind that the value is detected as and with its canonical
    /// form, or, where no kind is detected, the first one with exactly this
    /// value. An ASCII value whose kind is detected denotes what its
    /// canonical form denotes, unless it is detected as an e-mail address
    /// and begins with a URL scheme once it is in lower case.
    pub fn get_indicator_by_value(&self, value: &str) -> (r: Result<Option<Indicator>, RepoError>)
        ensures
            r is Ok,
            match r->Ok_0 {
                Some(row) => Some(row@) == lookup(self.rows(), value@),
                None => lookup(self.rows(), value@) is None,
            },
            all_ascii(value@) && classify(value@) is Some && !(classify(value@) == Some(
                IocType::Email,
            ) && has_url_prefix(lowercase(trim(value@)))) ==> match r->Ok_0 {
                Some(row) => Some(row@) == lookup(
                    self.rows(),
                    normalize(value@, classify(value@)->0),
                ),
                None => lookup(self.rows(), normalize(value@, classify(value@)->0)) is None,
            },
    {
        proof {
            if all_ascii(value@) && classify(value@) is Some && !(classify(value@) == Some(
                IocType::Email,
            ) && has_url_prefix(lowercase(trim(value@)))) {
                crate::canonical::lemma_lookup_canonical_ascii(self.rows(), value@);
            }
        }
        let i = match detect_ioc_type(value) {
            Some(t) => {
                let canonical = normalize_ioc(value, &t);
                self.find_key(t, canonical.as_str())
            },
            None => self.find_value(value),
        };
        if i < self.indicators.len() {
            assert(self.rows()[i as int] == self.indicators@[i as int]@);
            Ok(Some(self.indicators[i].clone()))
        } else {
            Ok(None)
        }
    }
}

/// The row that an upsert returns is in the store afterwards, under its
/// identifier.
pub proof fn lemma_upsert_findable(
    pre: ThreatIntelRepo,
    post: ThreatIntelRepo,
    req: CreateIndicatorRequestView,
    source_id: Option<u128>,
    r: Result<Indicator, RepoError>,
)
    requires
        exists|id: u128, now: i64| upsert_result(pre, post, req, source_id, id, now, r),
        r is Ok,
    ensures
        id_index(post.rows(), r->Ok_0@.id, 0) < post.rows().len(),
        post.rows()[id_index(post.rows(), r->Ok_0@.id, 0)].id == r->Ok_0@.id,
{
    let (id, now) = choose|id: u128, now: i64|
        upsert_result(pre, post, req, source_id, id, now, r);
    let c = candidate(req, source_id, id, now);
    let k = key_index(pre.rows(), c.ioc_type, c.value, 0);
    lemma_key_index(pre.rows(), c.ioc_type, c.value, 0);
    lemma_id_index(post.rows(), r->Ok_0@.id, 0);
    assert(post.rows()[k].id == r->Ok_0@.id);
}

/// The row that a raw value denotes.
pub open spec fn lookup(rows: Seq<IndicatorView>, value: Seq<char>) -> Option<IndicatorView> {
    let i = match classify(value) {
        Some(t) => key_index(rows, t, normalize(value, t), 0),
        None => value_index(rows, value, 0),
    };
    if i < rows.len() {
        Some(rows[i])
    } else {
        None
    }
}

/// The first index at or after `from` of the enrichment of this indicator,
/// type and provider; `rows.len()` if there is none.
pub open spec fn enrichment_index(
    rows: Seq<EnrichmentView>,
    indicator_id: u128,
    enrichment_type: Seq<char>,
    provider: Seq<char>,
    from: int,
) -> int
    decreases rows.len() - from,
{
    if from < 0 || from >= rows.len() {
        rows.len() as int
    } else if rows[from].indicator_id == indicator_id && rows[from].enrichment_type
        == enrichment_type && rows[from].provider == provider {
        from
    } else {
        enrichment_index(rows, indicator_id, enrichment_type, provider, from + 1)
    }
}

/// No two enrichments are of the same indicator, type and provider.
pub open spec fn enrichment_keys_unique(rows: Seq<EnrichmentView>) -> bool {
    forall|i: int, j: int|
        #![trigger rows[i], rows[j]]
        0 <= i < j < rows.len() ==> !(rows[i].indicator_id == rows[j].indicator_id
            && rows[i].enrichment_type == rows[j].enrichment_type && rows[i].provider
            == rows[j].provider)
}

/// No two sources have the same name.
pub open spec fn source_names_unique(rows: Seq<IocSourceView>) -> bool {
    forall|i: int, j: int|
        #![trigger rows[i], rows[j]]
        0 <= i < j < rows.len() ==> rows[i].name != rows[j].name
}


// ---------------------------------------------------------------------------
// Searching
// ---------------------------------------------------------------------------

/// `held` has every item of `wanted`.
pub open spec fn has_all(held: Seq<Seq<char>>, wanted: Seq<Seq<char>>) -> bool {
    forall|k: int| 0 <= k < wanted.len() ==> held.contains(#[trigger] wanted[k])
}

/// Whether a row is one that the filter asks for: every condition that the
/// filter gives holds of it.
pub open spec fn matches_filter(row: IndicatorView, f: &IndicatorFilter) -> bool {
    &&& f.ioc_type matches Some(t) ==> row.ioc_type == t
    &&& f.severity matches Some(s) ==> row.severity == s
    &&& f.min_confidence matches Some(c) ==> row.confidence >= c
    &&& f.min_threat_score matches Some(c) ==> row.threat_score >= c
    &&& f.tags matches Some(tags) ==> has_all(row.tags, strs(tags@))
    &&& f.source_id matches Some(s) ==> row.source_ids.contains(s)
    &&& f.first_seen_after matches Some(t) ==> row.first_seen >= t
    &&& f.first_seen_before matches Some(t) ==> row.first_seen <= t
    &&& f.search matches Some(q) ==> has_sub(lowercase(row.value), lowercase(q@))
}

/// The page that a filter asks for: at least 1, and 1 where none is given.
pub open spec fn page_number(f: &IndicatorFilter) -> int {
    match f.page {
        Some(p) => if p < 1 {
            1
        } else {
            p as int
        },
        None => 1,
    }
}

/// The page size that a filter asks for: from 1 to 1000, and 50 where none
/// is given.
pub open spec fn page_size(f: &IndicatorFilter) -> int {
    match f.per_page {
        Some(n) => if n < 1 {
            1
        } else if n > 1000 {
            1000
        } else {
            n as int
        },
        None => 50,
    }
}

/// The least number of pages of `per_page` rows that hold `total` rows.
pub open spec fn pages_for(total: int, per_page: int) -> int {
    (total + per_page - 1) / per_page
}

/// A count as a signed 64-bit number, which holds at most `i64::MAX`.
pub open spec fn counted(n: nat) -> i64 {
    if n > i64::MAX {
        i64::MAX
    } else {
        n as i64
    }
}

/// The rows of the page: those of `all` from `(page - 1) * per_page` on, at
/// most `per_page` of them.
pub open spec fn page_of(all: Seq<IndicatorView>, page: int, per_page: int) -> Seq<IndicatorView> {
    let from = (page - 1) * per_page;
    if from >= all.len() {
        Seq::empty()
    } else if from + per_page >= all.len() {
        all.subrange(from, all.len() as int)
    } else {
        all.subrange(from, from + per_page)
    }
}

/// `a` is listed at or before `b`: the one seen last comes first, and of two
/// seen at the same time the one with the lower identifier.
pub open spec fn listed_before(a: IndicatorView, b: IndicatorView) -> bool {
    a.last_seen > b.last_seen || (a.last_seen == b.last_seen && a.id <= b.id)
}

/// The rows are in the order in which a search lists them.
pub open spec fn in_search_order(all: Seq<IndicatorView>) -> bool {
    forall|i: int, j: int|
        #![trigger all[i], all[j]]
        0 <= i < j < all.len() ==> listed_before(all[i], all[j])
}

impl Ranked for Indicator {
    open spec fn goes_before(&self, other: &Self) -> bool {
        listed_before(self@, other@)
    }

    proof fn lemma_total(a: &Self, b: &Self) {
    }

    proof fn lemma_transitive(a: &Self, b: &Self, c: &Self) {
    }

    fn precedes(&self, other: &Self) -> (b: bool) {
        self.last_seen > other.last_seen || (self.last_seen == other.last_seen && self.id
            <= other.id)
    }
}

/// What the rows of a list of indicators hold.
pub open spec fn indicator_views(v: Seq<Indicator>) -> Seq<IndicatorView> {
    v.map_values(|r: Indicator| r@)
}

/// The rows that a filter keeps, in the order of the store.
pub open spec fn matching(rows: Seq<IndicatorView>, f: &IndicatorFilter) -> Seq<IndicatorView> {
    rows.filter(|r: IndicatorView| matches_filter(r, f))
}

/// Whether a row is one that the filter asks for.
pub fn row_matches(row: &Indicator, f: &IndicatorFilter) -> (b: bool)
    ensures
        b == matches_filter(row@, f),
{
    match f.ioc_type {
        Some(t) => if row.ioc_type != t {
            return false;
        },
        None => {},
    }
    match f.severity {
        Some(s) => if row.severity != s {
            return false;
        },
        None => {},
    }
    match f.min_confidence {
        Some(c) => if row.confidence < c {
            return false;
        },
        None => {},
    }
    match f.min_threat_score {
        Some(c) => if row.threat_score < c {
            return false;
        },
        None => {},
    }
    match f.source_id {
        Some(s) => if !contains_id(&row.source_ids, s) {
            return false;
        },
        None => {},
    }
    match f.first_seen_after {
        Some(t) => if row.first_seen < t {
            return false;
        },
        None => {},
    }
    match f.first_seen_before {
        Some(t) => if row.first_seen > t {
            return false;
        },
        None => {},
    }
    match &f.tags {
        Some(tags) => {
            let mut k: usize = 0;
            while k < tags.len()
                invariant
                    k <= tags.len(),
                    f.tags == Some(*tags),
                    forall|j: int| 0 <= j < k ==> row@.tags.contains(#[trigger] strs(tags@)[j]),
                decreases tags.len() - k,
            {
                assert(strs(tags@)[k as int] == tags@[k as int]@);
                if !contains_str(&row.tags, tags[k].as_str()) {
                    assert(!row@.tags.contains(strs(tags@)[k as int]));
                    assert(!has_all(row@.tags, strs(tags@)));
                    return false;
                }
                k = k + 1;
            }
        },
        None => {},
    }
    match &f.search {
        Some(q) => {
            let hay = to_chars(to_lowercase(row.value.as_str()).as_str());
            let needle = to_chars(to_lowercase(q.as_str()).as_str());
            if !contains_sub(&hay, &needle) {
                return false;
            }
        },
        None => {},
    }
    true
}

/// The page that a filter asks for.
pub fn requested_page(filter: &IndicatorFilter) -> (r: i64)
    ensures
        r == page_number(filter),
        r >= 1,
{
    match filter.page {
        Some(p) => if p < 1 {
            1
        } else {
            p
        },
        None => 1,
    }
}

/// The page size that a filter asks for.
pub fn requested_page_size(filter: &IndicatorFilter) -> (r: i64)
    ensures
        r == page_size(filter),
        1 <= r <= 1000,
{
    match filter.per_page {
        Some(n) => if n < 1 {
            1
        } else if n > 1000 {
            1000
        } else {
            n
        },
        None => 50,
    }
}

/// The least number of pages of `per_page` rows that hold `total` rows.
pub fn page_count(total: i64, per_page: i64) -> (r: i64)
    requires
        0 <= total,
        1 <= per_page,
    ensures
        r == pages_for(total as int, per_page as int),
        0 <= r <= total,
{
    assert(0 <= (total as int + per_page as int - 1) / (per_page as int) <= total) by (nonlinear_arith)
        requires
            0 <= total,
            1 <= per_page,
    ;
    ((total as i128 + per_page as i128 - 1) / (per_page as i128)) as i64
}

/// A count as a signed 64-bit number.
pub fn count_of(n: usize) -> (r: i64)
    ensures
        r == counted(n as nat),
{
    if n as u64 > 0x7fff_ffff_ffff_ffff {
        i64::MAX
    } else {
        n as i64
    }
}

impl ThreatIntelRepo {
    /// The indicators that the filter asks for, one page of them: the one
    /// seen last first, and of two seen at the same time the one with the
    /// lower identifier.
    pub fn search_indicators(&self, filter: &IndicatorFilter) -> (r: Result<
        PaginatedResponse<Indicator>,
        RepoError,
    >)
        ensures
            r is Ok,
            r->Ok_0.page == page_number(filter),
            r->Ok_0.per_page == page_size(filter),
            r->Ok_0.total == counted(matching(self.rows(), filter).len()),
            r->Ok_0.total_pages == pages_for(r->Ok_0.total as int, r->Ok_0.per_page as int),
            exists|all: Seq<IndicatorView>|
                #![trigger in_search_order(all)]
                in_search_order(all) && rearranges(all, matching(self.rows(), filter))
                    && indicator_views(r->Ok_0.data@) == page_of(
                    all,
                    page_number(filter),
                    page_size(filter),
                ),
    {
        let page: i64 = requested_page(filter);
        let per_page: i64 = requested_page_size(filter);
        let ghost pred = |r: IndicatorView| matches_filter(r, filter);
        let mut found: Vec<Indicator> = Vec::new();
        let mut i: usize = 0;
        assert(self.rows().take(0) =~= Seq::empty());
        assert(self.rows().take(0).filter(pred) =~= Seq::empty()) by {
            reveal(Seq::filter);
        }
        assert(indicator_views(found@) =~= Seq::empty());
        while i < self.indicators.len()
            invariant
                i <= self.indicators@.len(),
                pred == (|r: IndicatorView| matches_filter(r, filter)),
                indicator_views(found@) == self.rows().take(i as int).filter(pred),
            decreases self.indicators.len() - i,
        {
            proof {
                assert(self.rows()[i as int] == self.indicators@[i as int]@);
                assert(self.rows().take(i + 1) =~= self.rows().take(i as int).push(
                    self.rows()[i as int],
                ));
                self.rows().take(i as int).lemma_filter_push(self.rows()[i as int], pred);
            }
            if row_matches(&self.indicators[i], filter) {
                let ghost before = indicator_views(found@);
                found.push(self.indicators[i].clone());
                assert(indicator_views(found@) =~= before.push(self.rows()[i as int]));
            }
            i = i + 1;
        }
        assert(self.rows().take(self.indicators@.len() as int) =~= self.rows());
        let ghost kept = matching(self.rows(), filter);
        assert(indicator_views(found@) == kept);
        let total = count_of(found.len());
        let sorted = sort(found);
        let ghost all = indicator_views(sorted@);
        proof {
            lemma_rearranges_map(sorted@, found@, |r: Indicator| r@);
            assert(in_search_order(all)) by {
                assert forall|a: int, b: int|
                    #![trigger all[a], all[b]]
                    0 <= a < b < all.len() implies listed_before(all[a], all[b]) by {
                    assert(sorted@[a].goes_before(&sorted@[b]));
                }
            }
        }
        let n = sorted.len();
        // (page - 1) * per_page, or n where that is beyond the last row
        assert(0 <= (page as int - 1) * (per_page as int) <= 0x7fff_ffff_ffff_ffff * 1000) by (nonlinear_arith)
            requires
                1 <= page <= 0x7fff_ffff_ffff_ffff,
                1 <= per_page <= 1000,
        ;
        let skip: i128 = (page as i128 - 1) * (per_page as i128);
        let from: usize = if skip >= n as i128 {
            n
        } else {
            skip as usize
        };
        let to: usize = if (n - from) as i128 <= per_page as i128 {
            n
        } else {
            from + per_page as usize
        };
        let mut data: Vec<Indicator> = Vec::new();
        let mut k: usize = from;
        assert(indicator_views(data@) =~= all.subrange(from as int, from as int));
        while k < to
            invariant
                from <= k <= to <= n,
                n == sorted@.len(),
                all == indicator_views(sorted@),
                indicator_views(data@) == all.subrange(from as int, k as int),
            decreases to - k,
        {
            let ghost before = indicator_views(data@);
            data.push(sorted[k].clone());
            assert(indicator_views(data@) =~= before.push(all[k as int]));
            assert(all.subrange(from as int, k + 1) =~= all.subrange(from as int, k as int).push(
                all[k as int],
            ));
            k = k + 1;
        }
        assert(indicator_views(data@) =~= page_of(all, page as int, per_page as int));
        let total_pages = page_count(total, per_page);
        Ok(PaginatedResponse { data, total, page, per_page, total_pages })
    }
}

// ---------------------------------------------------------------------------
// Scores and expiry
// ---------------------------------------------------------------------------

/// The row after its threat score was set: the severity follows the score.
pub open spec fn rescored(row: IndicatorView, score: i32, now: i64) -> IndicatorView {
    IndicatorView {
        threat_score: score,
        severity: severity_of_score(score as int),
        updated_at: now,
        ..row
    }
}

/// The rows after the threat score of the indicator `id` was set.
pub open spec fn rows_rescored(rows: Seq<IndicatorView>, id: u128, score: i32, now: i64) -> Seq<
    IndicatorView,
> {
    let i = id_index(rows, id, 0);
    if i < rows.len() {
        rows.update(i, rescored(rows[i], score, now))
    } else {
        rows
    }
}

/// The row expired before `now`.
pub open spec fn expired(row: IndicatorView, now: i64) -> bool {
    row.expiration matches Some(t) && t < now
}

/// The rows that have not expired before `now`.
pub open spec fn unexpired(rows: Seq<IndicatorView>, now: i64) -> Seq<IndicatorView> {
    rows.filter(|r: IndicatorView| !expired(r, now))
}

/// A row that changes neither its key nor its identifier nor its tags and
/// sources leaves the rows well formed.
pub proof fn lemma_update_wf(rows: Seq<IndicatorView>, i: int, row: IndicatorView)
    requires
        keys_unique(rows),
        ids_unique(rows),
        sets_distinct(rows),
        0 <= i < rows.len(),
        row.id == rows[i].id,
        row.ioc_type == rows[i].ioc_type,
        row.value == rows[i].value,
        row.tags == rows[i].tags,
        row.source_ids == rows[i].source_ids,
    ensures
        keys_unique(rows.update(i, row)),
        ids_unique(rows.update(i, row)),
        sets_distinct(rows.update(i, row)),
{
    let post = rows.update(i, row);
    assert forall|k: int| 0 <= k < post.len() implies (#[trigger] post[k]).ioc_type
        == rows[k].ioc_type && post[k].value == rows[k].value && post[k].id == rows[k].id
        && post[k].tags == rows[k].tags && post[k].source_ids == rows[k].source_ids by {}
}

/// What a filter keeps of well-formed rows is well formed.
pub proof fn lemma_filter_wf(rows: Seq<IndicatorView>, pred: spec_fn(IndicatorView) -> bool)
    requires
        keys_unique(rows),
        ids_unique(rows),
        sets_distinct(rows),
    ensures
        keys_unique(rows.filter(pred)),
        ids_unique(rows.filter(pred)),
        sets_distinct(rows.filter(pred)),
        ordered_in_time(rows) ==> ordered_in_time(rows.filter(pred)),
        forall|now: i64| not_after(rows, now) ==> not_after(rows.filter(pred), now),
{
    let idx = lemma_filter_subsequence(rows, pred);
    let post = rows.filter(pred);
    assert forall|i: int, j: int|
        #![trigger post[i], post[j]]
        0 <= i < j < post.len() implies !(post[i].ioc_type == post[j].ioc_type && post[i].value
        == post[j].value) && post[i].id != post[j].id by {
        assert(idx[i] < idx[j]);
        assert(post[i] == rows[idx[i]] && post[j] == rows[idx[j]]);
    }
    assert forall|i: int| 0 <= i < post.len() implies (#[trigger] post[i]).tags.no_duplicates()
        && post[i].source_ids.no_duplicates() by {
        assert(post[i] == rows[idx[i]]);
    }
    if ordered_in_time(rows) {
        assert forall|i: int| 0 <= i < post.len() implies (#[trigger] post[i]).first_seen
            <= post[i].last_seen <= post[i].updated_at by {
            assert(post[i] == rows[idx[i]]);
        }
    }
    assert forall|now: i64| not_after(rows, now) implies not_after(post, now) by {
        assert forall|i: int| 0 <= i < post.len() implies (#[trigger] post[i]).updated_at
            <= now by {
            assert(post[i] == rows[idx[i]]);
        }
    }
}

/// How `update_threat_score_at` relates the store before and after it.
pub open spec fn rescore_result(
    pre: ThreatIntelRepo,
    post: ThreatIntelRepo,
    id: u128,
    score: i32,
    now: i64,
) -> bool {
    &&& post.rows() == rows_rescored(pre.rows(), id, score, now)
    &&& post.enrichment_rows() == pre.enrichment_rows()
    &&& post.sighting_rows() == pre.sighting_rows()
    &&& post.source_rows() == pre.source_rows()
    &&& ordered_in_time(pre.rows()) && not_after(pre.rows(), now) ==> ordered_in_time(post.rows())
        && not_after(post.rows(), now)
}

/// How `delete_expired_at` relates the store before and after it and the
/// number that it returns.
pub open spec fn sweep_result(pre: ThreatIntelRepo, post: ThreatIntelRepo, now: i64, removed: i64) -> bool {
    &&& post.rows() == unexpired(pre.rows(), now)
    &&& removed == counted((pre.rows().len() - post.rows().len()) as nat)
    &&& post.enrichment_rows() == pre.enrichment_rows()
    &&& post.sighting_rows() == pre.sighting_rows()
    &&& post.source_rows() == pre.source_rows()
    &&& ordered_in_time(pre.rows()) ==> ordered_in_time(post.rows())
}

impl ThreatIntelRepo {
    /// Sets the threat score of the indicator `id`, and its severity to the
    /// one that the score stands for. A store without that indicator is left
    /// as it is.
    pub fn update_threat_score_at(&mut self, id: u128, score: i32, now: i64) -> (r: Result<
        (),
        RepoError,
    >)
        requires
            old(self).wf(),
        ensures
            final(self).wf(),
            r is Ok,
            rescore_result(*old(self), *final(self), id, score, now),
    {
        let ghost pre = self.rows();
        let i = self.find_id(id);
        if i < self.indicators.len() {
            assert(self.indicators@[i as int]@ == pre[i as int]);
            let mut row = self.indicators[i].clone();
            row.threat_score = score;
            row.severity = severity_from_score(score);
            row.updated_at = now;
            assert(row@ == rescored(pre[i as int], score, now));
            self.indicators.set(i, row);
            proof {
                assert(self.rows() =~= rows_rescored(pre, id, score, now));
                lemma_update_wf(pre, i as int, rescored(pre[i as int], score, now));
                let post = self.rows();
                if ordered_in_time(pre) && not_after(pre, now) {
                    assert forall|k: int| 0 <= k < post.len() implies (#[trigger] post[k]).first_seen
                        <= post[k].last_seen <= post[k].updated_at <= now by {
                        assert(pre[k].first_seen <= pre[k].last_seen <= pre[k].updated_at <= now);
                    }
                }
            }
        }
        Ok(())
    }

    /// Sets the threat score of the indicator `id` as `update_threat_score_at`
    /// does, at the time of the call.
    pub fn update_threat_score(&mut self, id: u128, score: i32) -> (r: Result<(), RepoError>)
        requires
            old(self).wf(),
        ensures
            final(self).wf(),
            r is Ok,
            exists|now: i64|
                in_clock_range(now) && #[trigger] rescore_result(
                    *old(self),
                    *final(self),
                    id,
                    score,
                    now,
                ),
    {
        let now = clock_micros();
        let r = self.update_threat_score_at(id, score, now);
        assert(rescore_result(*old(self), *self, id, score, now));
        r
    }

    /// Removes the indicators that expired before `now`, and says how many
    /// they were.
    pub fn delete_expired_at(&mut self, now: i64) -> (r: Result<i64, RepoError>)
        requires
            old(self).wf(),
        ensures
            final(self).wf(),
            r is Ok,
            sweep_result(*old(self), *final(self), now, r->Ok_0),
    {
        let ghost pre = self.rows();
        let ghost pred = |r: IndicatorView| !expired(r, now);
        let mut kept: Vec<Indicator> = Vec::new();
        let mut i: usize = 0;
        assert(pre.take(0).filter(pred) =~= Seq::empty()) by {
            reveal(Seq::filter);
        }
        assert(indicator_views(kept@) =~= Seq::empty());
        while i < self.indicators.len()
            invariant
                i <= self.indicators@.len(),
                pre == self.rows(),
                pred == (|r: IndicatorView| !expired(r, now)),
                indicator_views(kept@) == pre.take(i as int).filter(pred),
            decreases self.indicators.len() - i,
        {
            proof {
                assert(pre[i as int] == self.indicators@[i as int]@);
                assert(pre.take(i + 1) =~= pre.take(i as int).push(pre[i as int]));
                pre.take(i as int).lemma_filter_push(pre[i as int], pred);
            }
            let gone = match self.indicators[i].expiration {
                Some(t) => t < now,
                None => false,
            };
            if !gone {
                let ghost before = indicator_views(kept@);
                kept.push(self.indicators[i].clone());
                assert(indicator_views(kept@) =~= before.push(pre[i as int]));
            }
            i = i + 1;
        }
        assert(pre.take(self.indicators@.len() as int) =~= pre);
        proof {
            lemma_filter_wf(pre, pred);
            pre.lemma_filter_len(pred);
        }
        let removed = count_of(self.indicators.len() - kept.len());
        self.indicators = kept;
        assert(self.rows() == unexpired(pre, now));
        Ok(removed)
    }

    /// Removes the indicators that have expired at the time of the call,
    /// and says how many they were.
    pub fn delete_expired(&mut self) -> (r: Result<i64, RepoError>)
        requires
            old(self).wf(),
        ensures
            final(self).wf(),
            r is Ok,
            exists|now: i64|
                in_clock_range(now) && #[trigger] sweep_result(
                    *old(self),
                    *final(self),
                    now,
                    r->Ok_0,
                ),
    {
        let now = clock_micros();
        let r = self.delete_expired_at(now);
        assert(sweep_result(*old(self), *self, now, r->Ok_0));
        r
    }
}

/// A row is gone after the sweep exactly if it had expired.
pub proof fn lemma_unexpired(rows: Seq<IndicatorView>, now: i64, row: IndicatorView)
    ensures
        unexpired(rows, now).contains(row) <==> rows.contains(row) && !expired(row, now),
{
    let pred = |r: IndicatorView| !expired(r, now);
    let idx = lemma_filter_subsequence(rows, pred);
    let post = rows.filter(pred);
    if post.contains(row) {
        let k = choose|k: int| 0 <= k < post.len() && post[k] == row;
        assert(rows[idx[k]] == row);
    }
    if rows.contains(row) && !expired(row, now) {
        let i = choose|i: int| 0 <= i < rows.len() && rows[i] == row;
        assert(pred(rows[i]));
        assert(idx.contains(i));
        let k = choose|k: int| 0 <= k < idx.len() && idx[k] == i;
        assert(post[k] == row);
    }
}

// ---------------------------------------------------------------------------
// Enrichments
// ---------------------------------------------------------------------------

/// When an enrichment that is fetched `now` and good for `hours` expires.
pub open spec fn expiry_of(now: i64, hours: Option<i64>) -> Option<int> {
    match hours {
        Some(h) => Some(now + h * MICROS_PER_HOUR),
        None => None,
    }
}

/// The expiry is a time that a timestamp can hold.
pub open spec fn expiry_fits(now: i64, hours: Option<i64>) -> bool {
    match expiry_of(now, hours) {
        Some(t) => i64::MIN <= t <= i64::MAX,
        None => true,
    }
}

/// The enrichment that a provider's result stands for.
pub open spec fn enrichment_candidate(
    indicator_id: u128,
    enrichment_type: Seq<char>,
    provider: Seq<char>,
    data: JsonModel,
    ttl_hours: Option<i64>,
    id: u128,
    now: i64,
) -> EnrichmentView {
    EnrichmentView {
        id,
        indicator_id,
        enrichment_type,
        data,
        provider,
        fetched_at: now,
        expires_at: match expiry_of(now, ttl_hours) {
            Some(t) => Some(t as i64),
            None => None,
        },
    }
}

/// The enrichments after `e` was stored: it replaces the data and the times
/// of the enrichment of the same indicator, type and provider, which keeps
/// its identifier, or is added at the end where there is none.
pub open spec fn enrichments_stored(rows: Seq<EnrichmentView>, e: EnrichmentView) -> Seq<
    EnrichmentView,
> {
    let i = enrichment_index(rows, e.indicator_id, e.enrichment_type, e.provider, 0);
    if i < rows.len() {
        rows.update(i, EnrichmentView { id: rows[i].id, ..e })
    } else {
        rows.push(e)
    }
}

pub proof fn lemma_enrichment_index(
    rows: Seq<EnrichmentView>,
    indicator_id: u128,
    enrichment_type: Seq<char>,
    provider: Seq<char>,
    from: int,
)
    requires
        0 <= from <= rows.len(),
    ensures
        from <= enrichment_index(rows, indicator_id, enrichment_type, provider, from) <= rows.len(),
        enrichment_index(rows, indicator_id, enrichment_type, provider, from) < rows.len() ==> {
            let i = enrichment_index(rows, indicator_id, enrichment_type, provider, from);
            rows[i].indicator_id == indicator_id && rows[i].enrichment_type == enrichment_type
                && rows[i].provider == provider
        },
        forall|k: int|
            from <= k < enrichment_index(rows, indicator_id, enrichment_type, provider, from) ==> !(
            (#[trigger] rows[k]).indicator_id == indicator_id && rows[k].enrichment_type
                == enrichment_type && rows[k].provider == provider),
    decreases rows.len() - from,
{
    if from < rows.len() && !(rows[from].indicator_id == indicator_id && rows[from].enrichment_type
        == enrichment_type && rows[from].provider == provider) {
        lemma_enrichment_index(rows, indicator_id, enrichment_type, provider, from + 1);
    }
}

/// Storing an enrichment keeps the keys of the enrichments unique.
pub proof fn lemma_enrichments_stored(rows: Seq<EnrichmentView>, e: EnrichmentView)
    requires
        enrichment_keys_unique(rows),
    ensures
        enrichment_keys_unique(enrichments_stored(rows, e)),
{
    let post = enrichments_stored(rows, e);
    let at = enrichment_index(rows, e.indicator_id, e.enrichment_type, e.provider, 0);
    lemma_enrichment_index(rows, e.indicator_id, e.enrichment_type, e.provider, 0);
    assert forall|i: int, j: int|
        #![trigger post[i], post[j]]
        0 <= i < j < post.len() implies !(post[i].indicator_id == post[j].indicator_id
        && post[i].enrichment_type == post[j].enrichment_type && post[i].provider
        == post[j].provider) by {
        if at < rows.len() {
            assert(post[i].indicator_id == rows[i].indicator_id && post[i].enrichment_type
                == rows[i].enrichment_type && post[i].provider == rows[i].provider);
            assert(post[j].indicator_id == rows[j].indicator_id && post[j].enrichment_type
                == rows[j].enrichment_type && post[j].provider == rows[j].provider);
        } else {
            assert(post[i] == rows[i]);
            if j < rows.len() {
                assert(post[j] == rows[j]);
            }
        }
    }
}

/// The enrichment was fetched at or after the other: it is listed first.
pub open spec fn fetched_before(a: EnrichmentView, b: EnrichmentView) -> bool {
    a.fetched_at >= b.fetched_at
}

/// The enrichments are listed from the one fetched last to the one fetched
/// first.
pub open spec fn newest_first(all: Seq<EnrichmentView>) -> bool {
    forall|i: int, j: int|
        #![trigger all[i], all[j]]
        0 <= i < j < all.len() ==> fetched_before(all[i], all[j])
}

impl Ranked for Enrichment {
    open spec fn goes_before(&self, other: &Self) -> bool {
        fetched_before(self@, other@)
    }

    proof fn lemma_total(a: &Self, b: &Self) {
    }

    proof fn lemma_transitive(a: &Self, b: &Self, c: &Self) {
    }

    fn precedes(&self, other: &Self) -> (b: bool) {
        self.fetched_at >= other.fetched_at
    }
}

/// What the rows of a list of enrichments hold.
pub open spec fn enrichment_views(v: Seq<Enrichment>) -> Seq<EnrichmentView> {
    v.map_values(|r: Enrichment| r@)
}

/// The enrichments of one indicator, in the order of the store.
pub open spec fn enrichments_of(rows: Seq<EnrichmentView>, indicator_id: u128) -> Seq<
    EnrichmentView,
> {
    rows.filter(|e: EnrichmentView| e.indicator_id == indicator_id)
}

/// How `add_enrichment_at` relates the store before and after it, what it
/// is given and what it returns.
pub open spec fn add_enrichment_result(
    pre: ThreatIntelRepo,
    post: ThreatIntelRepo,
    e: EnrichmentView,
    ttl_hours: Option<i64>,
    now: i64,
    r: Result<Enrichment, RepoError>,
) -> bool {
    &&& post.rows() == pre.rows()
    &&& post.sighting_rows() == pre.sighting_rows()
    &&& post.source_rows() == pre.source_rows()
    &&& if expiry_fits(now, ttl_hours) {
        &&& r is Ok
        &&& post.enrichment_rows() == enrichments_stored(pre.enrichment_rows(), e)
        &&& r->Ok_0@ == post.enrichment_rows()[enrichment_index(
            pre.enrichment_rows(),
            e.indicator_id,
            e.enrichment_type,
            e.provider,
            0,
        )]
    } else {
        &&& r is Err
        &&& r->Err_0.kind == ErrorKind::Validation
        &&& post.enrichment_rows() == pre.enrichment_rows()
    }
}

impl ThreatIntelRepo {
    fn find_enrichment(&self, indicator_id: u128, enrichment_type: &str, provider: &str) -> (i:
        usize)
        ensures
            i == enrichment_index(
                self.enrichment_rows(),
                indicator_id,
                enrichment_type@,
                provider@,
                0,
            ),
            i <= self.enrichments@.len(),
    {
        let mut i: usize = 0;
        while i < self.enrichments.len()
            invariant
                i <= self.enrichments@.len(),
                enrichment_index(self.enrichment_rows(), indicator_id, enrichment_type@, provider@, 0)
                    == enrichment_index(
                    self.enrichment_rows(),
                    indicator_id,
                    enrichment_type@,
                    provider@,
                    i as int,
                ),
            decreases self.enrichments.len() - i,
        {
            assert(self.enrichment_rows()[i as int] == self.enrichments@[i as int]@);
            let row = &self.enrichments[i];
            if row.indicator_id == indicator_id && str_eq(
                row.enrichment_type.as_str(),
                enrichment_type,
            ) && str_eq(row.provider.as_str(), provider) {
                return i;
            }
            i = i + 1;
        }
        i
    }

    /// Stores what a provider found out about an indicator, in place of what
    /// the same provider found out before under the same type. The result
    /// expires `ttl_hours` after `now`, or never where none are given.
    /// Returns the row as it is afterwards.
    pub fn add_enrichment_at(
        &mut self,
        indicator_id: u128,
        enrichment_type: &str,
        provider: &str,
        data: JsonValue,
        ttl_hours: Option<i64>,
        id: u128,
        now: i64,
    ) -> (r: Result<Enrichment, RepoError>)
        requires
            old(self).wf(),
        ensures
            final(self).wf(),
            add_enrichment_result(
                *old(self),
                *final(self),
                enrichment_candidate(
                    indicator_id,
                    enrichment_type@,
                    provider@,
                    data@,
                    ttl_hours,
                    id,
                    now,
                ),
                ttl_hours,
                now,
                r,
            ),
    {
        let expires_at = match ttl_hours {
            Some(h) => match shift_time(now, h, MICROS_PER_HOUR) {
                Some(t) => Some(t),
                None => {
                    return Err(
                        RepoError {
                            kind: ErrorKind::Validation,
                            message: "Expiry is out of range".to_owned(),
                        },
                    );
                },
            },
            None => None,
        };
        let ghost pre = self.enrichment_rows();
        let ghost e = enrichment_candidate(
            indicator_id,
            enrichment_type@,
            provider@,
            data@,
            ttl_hours,
            id,
            now,
        );
        let at = self.find_enrichment(indicator_id, enrichment_type, provider);
        let row_id = if at < self.enrichments.len() {
            assert(self.enrichments@[at as int]@ == pre[at as int]);
            self.enrichments[at].id
        } else {
            id
        };
        let row = Enrichment {
            id: row_id,
            indicator_id,
            enrichment_type: enrichment_type.to_owned(),
            data,
            provider: provider.to_owned(),
            fetched_at: now,
            expires_at,
        };
        let copy = row.clone();
        if at < self.enrichments.len() {
            self.enrichments.set(at, row);
        } else {
            self.enrichments.push(row);
        }
        proof {
            assert(self.enrichment_rows() =~= enrichments_stored(pre, e));
            lemma_enrichments_stored(pre, e);
        }
        Ok(copy)
    }

    /// Stores what a provider found out about an indicator as
    /// `add_enrichment_at` does, at the time of the call and, where a row is
    /// created, under a new random identifier.
    pub fn add_enrichment(
        &mut self,
        indicator_id: u128,
        enrichment_type: &str,
        provider: &str,
        data: JsonValue,
        ttl_hours: Option<i64>,
    ) -> (r: Result<Enrichment, RepoError>)
        requires
            old(self).wf(),
        ensures
            final(self).wf(),
            exists|id: u128, now: i64|
                in_clock_range(now) && add_enrichment_result(
                    *old(self),
                    *final(self),
                    #[trigger] enrichment_candidate(
                        indicator_id,
                        enrichment_type@,
                        provider@,
                        data@,
                        ttl_hours,
                        id,
                        now,
                    ),
                    ttl_hours,
                    now,
                    r,
                ),
            hours_are_sure(ttl_hours) ==> r is Ok,
            r is Err ==> r->Err_0.kind == ErrorKind::Validation,
    {
        let id = fresh_id();
        let now = clock_micros();
        proof {
            lemma_sure_to_fit(now, None, ttl_hours);
        }
        let ghost e = enrichment_candidate(
            indicator_id,
            enrichment_type@,
            provider@,
            data@,
            ttl_hours,
            id,
            now,
        );
        let r = self.add_enrichment_at(
            indicator_id,
            enrichment_type,
            provider,
            data,
            ttl_hours,
            id,
            now,
        );
        assert(add_enrichment_result(*old(self), *self, e, ttl_hours, now, r));
        r
    }

    /// The enrichments of an indicator, the one fetched last first. None is
    /// left out because it has expired.
    pub fn get_enrichments(&self, indicator_id: u128) -> (r: Result<Vec<Enrichment>, RepoError>)
        ensures
            r is Ok,
            newest_first(enrichment_views(r->Ok_0@)),
            rearranges(
                enrichment_views(r->Ok_0@),
                enrichments_of(self.enrichment_rows(), indicator_id),
            ),
    {
        let ghost rows = self.enrichment_rows();
        let ghost pred = |e: EnrichmentView| e.indicator_id == indicator_id;
        let mut found: Vec<Enrichment> = Vec::new();
        let mut i: usize = 0;
        assert(rows.take(0).filter(pred) =~= Seq::empty()) by {
            reveal(Seq::filter);
        }
        assert(enrichment_views(found@) =~= Seq::empty());
        while i < self.enrichments.len()
            invariant
                i <= self.enrichments@.len(),
                rows == self.enrichment_rows(),
                pred == (|e: EnrichmentView| e.indicator_id == indicator_id),
                enrichment_views(found@) == rows.take(i as int).filter(pred),
            decreases self.enrichments.len() - i,
        {
            proof {
                assert(rows[i as int] == self.enrichments@[i as int]@);
                assert(rows.take(i + 1) =~= rows.take(i as int).push(rows[i as int]));
                rows.take(i as int).lemma_filter_push(rows[i as int], pred);
            }
            if self.enrichments[i].indicator_id == indicator_id {
                let ghost before = enrichment_views(found@);
                found.push(self.enrichments[i].clone());
                assert(enrichment_views(found@) =~= before.push(rows[i as int]));
            }
            i = i + 1;
        }
        assert(rows.take(self.enrichments@.len() as int) =~= rows);
        let sorted = sort(found);
        proof {
            lemma_rearranges_map(sorted@, found@, |r: Enrichment| r@);
            let all = enrichment_views(sorted@);
            assert forall|a: int, b: int|
                #![trigger all[a], all[b]]
                0 <= a < b < all.len() implies fetched_before(all[a], all[b]) by {
                assert(sorted@[a].goes_before(&sorted@[b]));
            }
        }
        Ok(sorted)
    }
}

// ---------------------------------------------------------------------------
// Sightings
// ---------------------------------------------------------------------------

/// The row after it was sighted at `now`.
pub open spec fn sighted(row: IndicatorView, now: i64) -> IndicatorView {
    IndicatorView { last_seen: now, updated_at: now, ..row }
}

/// The sighting that is recorded.
pub open spec fn sighting_candidate(
    indicator_id: u128,
    source: Seq<char>,
    context: Option<JsonModel>,
    id: u128,
    now: i64,
) -> SightingView {
    SightingView { id, indicator_id, source, context, observed_at: now, created_at: now }
}

/// The sightings of one indicator, in the order of the store.
pub open spec fn sightings_of(rows: Seq<SightingView>, indicator_id: u128) -> Seq<SightingView> {
    rows.filter(|s: SightingView| s.indicator_id == indicator_id)
}

/// How `add_sighting_at` relates the store before and after it, the
/// sighting and what it returns: the sighting is recorded and the indicator
/// is last seen at its time, both or neither.
pub open spec fn add_sighting_result(
    pre: ThreatIntelRepo,
    post: ThreatIntelRepo,
    s: SightingView,
    r: Result<Sighting, RepoError>,
) -> bool {
    let i = id_index(pre.rows(), s.indicator_id, 0);
    &&& post.enrichment_rows() == pre.enrichment_rows()
    &&& post.source_rows() == pre.source_rows()
    &&& if i < pre.rows().len() {
        &&& r is Ok
        &&& r->Ok_0@ == s
        &&& post.sighting_rows() == pre.sighting_rows().push(s)
        &&& post.rows() == pre.rows().update(i, sighted(pre.rows()[i], s.observed_at))
    } else {
        &&& r is Err
        &&& r->Err_0.kind == ErrorKind::NotFound
        &&& post.sighting_rows() == pre.sighting_rows()
        &&& post.rows() == pre.rows()
    }
    &&& ordered_in_time(pre.rows()) && not_after(pre.rows(), s.observed_at) ==> ordered_in_time(
        post.rows(),
    ) && not_after(post.rows(), s.observed_at)
}

impl ThreatIntelRepo {
    /// Records that an indicator was observed at `now`, and sets the time at
    /// which the indicator was last seen to `now`. Fails, and records
    /// nothing, where the store has no indicator `indicator_id`.
    pub fn add_sighting_at(
        &mut self,
        indicator_id: u128,
        source: &str,
        context: Option<JsonValue>,
        id: u128,
        now: i64,
    ) -> (r: Result<Sighting, RepoError>)
        requires
            old(self).wf(),
        ensures
            final(self).wf(),
            add_sighting_result(
                *old(self),
                *final(self),
                sighting_candidate(indicator_id, source@, opt_json(context), id, now),
                r,
            ),
    {
        let ghost pre = self.rows();
        let ghost pre_sightings = self.sighting_rows();
        let ghost s = sighting_candidate(indicator_id, source@, opt_json(context), id, now);
        let i = self.find_id(indicator_id);
        if i >= self.indicators.len() {
            return Err(
                RepoError { kind: ErrorKind::NotFound, message: "Indicator not found".to_owned() },
            );
        }
        let sighting = Sighting {
            id,
            indicator_id,
            source: source.to_owned(),
            context,
            observed_at: now,
            created_at: now,
        };
        let copy = sighting.clone();
        self.sightings.push(sighting);
        assert(self.sighting_rows() =~= pre_sightings.push(s));
        assert(self.indicators@[i as int]@ == pre[i as int]);
        let mut row = self.indicators[i].clone();
        row.last_seen = now;
        row.updated_at = now;
        assert(row@ == sighted(pre[i as int], now));
        self.indicators.set(i, row);
        proof {
            let post = self.rows();
            assert(post =~= pre.update(i as int, sighted(pre[i as int], now)));
            lemma_update_wf(pre, i as int, sighted(pre[i as int], now));
            if ordered_in_time(pre) && not_after(pre, now) {
                assert forall|k: int| 0 <= k < post.len() implies (#[trigger] post[k]).first_seen
                    <= post[k].last_seen <= post[k].updated_at <= now by {
                    assert(pre[k].first_seen <= pre[k].last_seen <= pre[k].updated_at <= now);
                }
            }
        }
        Ok(copy)
    }

    /// Records that an indicator was observed as `add_sighting_at` does, at
    /// the time of the call and under a new random identifier.
    pub fn add_sighting(&mut self, indicator_id: u128, source: &str, context: Option<JsonValue>) -> (r:
        Result<Sighting, RepoError>)
        requires
            old(self).wf(),
        ensures
            final(self).wf(),
            exists|id: u128, now: i64|
                in_clock_range(now) && add_sighting_result(
                    *old(self),
                    *final(self),
                    #[trigger] sighting_candidate(indicator_id, source@, opt_json(context), id, now),
                    r,
                ),
            r is Ok <==> id_index(old(self).rows(), indicator_id, 0) < old(self).rows().len(),
            r is Ok ==> r->Ok_0@.indicator_id == indicator_id && r->Ok_0@.source == source@
                && r->Ok_0@.context == opt_json(context) && in_clock_range(r->Ok_0@.observed_at)
                && final(self).sighting_rows() == old(self).sighting_rows().push(r->Ok_0@)
                && final(self).rows() == old(self).rows().update(
                id_index(old(self).rows(), indicator_id, 0),
                sighted(
                    old(self).rows()[id_index(old(self).rows(), indicator_id, 0)],
                    r->Ok_0@.observed_at,
                ),
            ),
            r is Err ==> r->Err_0.kind == ErrorKind::NotFound && final(self).sighting_rows() == old(
                self,
            ).sighting_rows() && final(self).rows() == old(self).rows(),
    {
        let id = fresh_id();
        let now = clock_micros();
        let ghost s = sighting_candidate(indicator_id, source@, opt_json(context), id, now);
        let r = self.add_sighting_at(indicator_id, source, context, id, now);
        assert(add_sighting_result(*old(self), *self, s, r));
        r
    }

    /// How many sightings of the indicator are recorded.
    pub fn count_sightings(&self, indicator_id: u128) -> (r: Result<i64, RepoError>)
        ensures
            r is Ok,
            r->Ok_0 == counted(sightings_of(self.sighting_rows(), indicator_id).len()),
    {
        let ghost rows = self.sighting_rows();
        let ghost pred = |s: SightingView| s.indicator_id == indicator_id;
        let mut n: usize = 0;
        let mut i: usize = 0;
        assert(rows.take(0).filter(pred) =~= Seq::empty()) by {
            reveal(Seq::filter);
        }
        while i < self.sightings.len()
            invariant
                i <= self.sightings@.len(),
                rows == self.sighting_rows(),
                pred == (|s: SightingView| s.indicator_id == indicator_id),
                n == rows.take(i as int).filter(pred).len(),
                n <= i,
            decreases self.sightings.len() - i,
        {
            proof {
                assert(rows[i as int] == self.sightings@[i as int]@);
                assert(rows.take(i + 1) =~= rows.take(i as int).push(rows[i as int]));
                rows.take(i as int).lemma_filter_push(rows[i as int], pred);
            }
            if self.sightings[i].indicator_id == indicator_id {
                n = n + 1;
            }
            i = i + 1;
        }
        assert(rows.take(self.sightings@.len() as int) =~= rows);
        Ok(count_of(n))
    }
}

// ---------------------------------------------------------------------------
// Sources
// ---------------------------------------------------------------------------

/// `a` stands at or before `b` in the dictionary, characters compared by
/// their code points.
pub open spec fn lex_le(a: Seq<char>, b: Seq<char>) -> bool
    decreases a.len(),
{
    if a.len() == 0 {
        true
    } else if b.len() == 0 {
        false
    } else if (a[0] as u32) < (b[0] as u32) {
        true
    } else if (a[0] as u32) > (b[0] as u32) {
        false
    } else {
        lex_le(a.drop_first(), b.drop_first())
    }
}

pub proof fn lemma_lex_total(a: Seq<char>, b: Seq<char>)
    ensures
        lex_le(a, b) || lex_le(b, a),
    decreases a.len(),
{
    if a.len() > 0 && b.len() > 0 && (a[0] as u32) == (b[0] as u32) {
        lemma_lex_total(a.drop_first(), b.drop_first());
    }
}

pub proof fn lemma_lex_transitive(a: Seq<char>, b: Seq<char>, c: Seq<char>)
    requires
        lex_le(a, b),
        lex_le(b, c),
    ensures
        lex_le(a, c),
    decreases a.len(),
{
    if a.len() > 0 && b.len() > 0 && c.len() > 0 && (a[0] as u32) == (b[0] as u32) && (b[0] as u32)
        == (c[0] as u32) {
        lemma_lex_transitive(a.drop_first(), b.drop_first(), c.drop_first());
    }
}

/// Whether `a` stands at or before `b` in the dictionary.
pub fn lex_le_chars(a: &Vec<char>, b: &Vec<char>) -> (r: bool)
    ensures
        r == lex_le(a@, b@),
{
    let mut i: usize = 0;
    assert(a@.skip(0) =~= a@ && b@.skip(0) =~= b@);
    while i < a.len() && i < b.len()
        invariant
            i <= a.len(),
            i <= b.len(),
            lex_le(a@, b@) == lex_le(a@.skip(i as int), b@.skip(i as int)),
        decreases a.len() - i,
    {
        let x: u32 = a[i] as u32;
        let y: u32 = b[i] as u32;
        proof {
            assert(a@.skip(i as int)[0] == a@[i as int]);
            assert(b@.skip(i as int)[0] == b@[i as int]);
            assert(a@.skip(i as int).drop_first() =~= a@.skip(i + 1));
            assert(b@.skip(i as int).drop_first() =~= b@.skip(i + 1));
        }
        if x < y {
            return true;
        }
        if x > y {
            return false;
        }
        i = i + 1;
    }
    i >= a.len()
}

/// The source as it is when it is first stored at `now`.
pub open spec fn source_created(s: IocSourceView, now: i64) -> IocSourceView {
    IocSourceView { last_fetch: None, created_at: now, updated_at: now, ..s }
}

/// The source after `s` was stored over `existing` at `now`: address,
/// reliability and the switch are taken from `s`, everything else stays.
pub open spec fn source_updated(existing: IocSourceView, s: IocSourceView, now: i64) -> IocSourceView {
    IocSourceView {
        url: s.url,
        reliability_score: s.reliability_score,
        enabled: s.enabled,
        updated_at: now,
        ..existing
    }
}

/// The first index at or after `from` of the source with this name;
/// `rows.len()` if there is none.
pub open spec fn source_index(rows: Seq<IocSourceView>, name: Seq<char>, from: int) -> int
    decreases rows.len() - from,
{
    if from < 0 || from >= rows.len() {
        rows.len() as int
    } else if rows[from].name == name {
        from
    } else {
        source_index(rows, name, from + 1)
    }
}

pub proof fn lemma_source_index(rows: Seq<IocSourceView>, name: Seq<char>, from: int)
    requires
        0 <= from <= rows.len(),
    ensures
        from <= source_index(rows, name, from) <= rows.len(),
        source_index(rows, name, from) < rows.len() ==> rows[source_index(rows, name, from)].name
            == name,
        forall|k: int| from <= k < source_index(rows, name, from) ==> (#[trigger] rows[k]).name != name,
    decreases rows.len() - from,
{
    if from < rows.len() && rows[from].name != name {
        lemma_source_index(rows, name, from + 1);
    }
}

/// The sources after `s` was stored at `now`.
pub open spec fn sources_stored(rows: Seq<IocSourceView>, s: IocSourceView, now: i64) -> Seq<
    IocSourceView,
> {
    let i = source_index(rows, s.name, 0);
    if i < rows.len() {
        rows.update(i, source_updated(rows[i], s, now))
    } else {
        rows.push(source_created(s, now))
    }
}

/// The sources after the source `id` was fetched at `now`.
pub open spec fn sources_fetched(rows: Seq<IocSourceView>, id: u128, now: i64) -> Seq<IocSourceView> {
    Seq::new(
        rows.len(),
        |k: int|
            if rows[k].id == id {
                IocSourceView { last_fetch: Some(now), updated_at: now, ..rows[k] }
            } else {
                rows[k]
            },
    )
}

/// The sources are listed by name.
pub open spec fn by_name(all: Seq<IocSourceView>) -> bool {
    forall|i: int, j: int|
        #![trigger all[i], all[j]]
        0 <= i < j < all.len() ==> lex_le(all[i].name, all[j].name)
}

impl Ranked for IocSource {
    open spec fn goes_before(&self, other: &Self) -> bool {
        lex_le(self@.name, other@.name)
    }

    proof fn lemma_total(a: &Self, b: &Self) {
        lemma_lex_total(a@.name, b@.name);
    }

    proof fn lemma_transitive(a: &Self, b: &Self, c: &Self) {
        lemma_lex_transitive(a@.name, b@.name, c@.name);
    }

    fn precedes(&self, other: &Self) -> (b: bool) {
        let x = to_chars(self.name.as_str());
        let y = to_chars(other.name.as_str());
        lex_le_chars(&x, &y)
    }
}

/// What the rows of a list of sources hold.
pub open spec fn source_views(v: Seq<IocSource>) -> Seq<IocSourceView> {
    v.map_values(|r: IocSource| r@)
}

/// The sources that are switched on, in the order of the store.
pub open spec fn enabled_sources(rows: Seq<IocSourceView>) -> Seq<IocSourceView> {
    rows.filter(|s: IocSourceView| s.enabled)
}

/// How `upsert_source_at` relates the store before and after it, the source
/// and what it returns.
pub open spec fn upsert_source_result(
    pre: ThreatIntelRepo,
    post: ThreatIntelRepo,
    s: IocSourceView,
    now: i64,
    r: Result<IocSource, RepoError>,
) -> bool {
    &&& r is Ok
    &&& post.source_rows() == sources_stored(pre.source_rows(), s, now)
    &&& r->Ok_0@ == post.source_rows()[source_index(pre.source_rows(), s.name, 0)]
    &&& post.rows() == pre.rows()
    &&& post.enrichment_rows() == pre.enrichment_rows()
    &&& post.sighting_rows() == pre.sighting_rows()
}

/// How `update_source_fetch_time_at` relates the store before and after it.
pub open spec fn source_fetched_result(
    pre: ThreatIntelRepo,
    post: ThreatIntelRepo,
    id: u128,
    now: i64,
) -> bool {
    &&& post.source_rows() == sources_fetched(pre.source_rows(), id, now)
    &&& post.rows() == pre.rows()
    &&& post.enrichment_rows() == pre.enrichment_rows()
    &&& post.sighting_rows() == pre.sighting_rows()
}

impl ThreatIntelRepo {
    fn find_source(&self, name: &str) -> (i: usize)
        ensures
            i == source_index(self.source_rows(), name@, 0),
            i <= self.sources@.len(),
    {
        let mut i: usize = 0;
        while i < self.sources.len()
            invariant
                i <= self.sources@.len(),
                source_index(self.source_rows(), name@, 0) == source_index(
                    self.source_rows(),
                    name@,
                    i as int,
                ),
            decreases self.sources.len() - i,
        {
            assert(self.source_rows()[i as int] == self.sources@[i as int]@);
            if str_eq(self.sources[i].name.as_str(), name) {
                return i;
            }
            i = i + 1;
        }
        i
    }

    /// Stores a source under its name: a new source as it is given, with no
    /// fetch yet; over a source of the same name only its address, its
    /// reliability and its switch. Returns the row as it is afterwards.
    pub fn upsert_source_at(&mut self, source: &IocSource, now: i64) -> (r: Result<
        IocSource,
        RepoError,
    >)
        requires
            old(self).wf(),
        ensures
            final(self).wf(),
            upsert_source_result(*old(self), *final(self), source@, now, r),
    {
        let ghost pre = self.source_rows();
        let at = self.find_source(source.name.as_str());
        proof {
            lemma_source_index(pre, source@.name, 0);
        }
        if at < self.sources.len() {
            assert(self.sources@[at as int]@ == pre[at as int]);
            let mut row = self.sources[at].clone();
            row.url = clone_opt_string(&source.url);
            row.reliability_score = source.reliability_score;
            row.enabled = source.enabled;
            row.updated_at = now;
            assert(row@ == source_updated(pre[at as int], source@, now));
            let copy = row.clone();
            self.sources.set(at, row);
            proof {
                let post = self.source_rows();
                assert(post =~= sources_stored(pre, source@, now));
                assert forall|i: int, j: int|
                    #![trigger post[i], post[j]]
                    0 <= i < j < post.len() implies post[i].name != post[j].name by {
                    assert(post[i].name == pre[i].name);
                    assert(post[j].name == pre[j].name);
                }
            }
            Ok(copy)
        } else {
            let mut row = source.clone();
            row.last_fetch = None;
            row.created_at = now;
            row.updated_at = now;
            assert(row@ == source_created(source@, now));
            let copy = row.clone();
            self.sources.push(row);
            proof {
                let post = self.source_rows();
                assert(post =~= sources_stored(pre, source@, now));
                assert forall|i: int, j: int|
                    #![trigger post[i], post[j]]
                    0 <= i < j < post.len() implies post[i].name != post[j].name by {
                    assert(post[i] == pre[i]);
                    if j < pre.len() {
                        assert(post[j] == pre[j]);
                    }
                }
            }
            Ok(copy)
        }
    }

    /// Stores a source under its name as `upsert_source_at` does, at the
    /// time of the call.
    pub fn upsert_source(&mut self, source: &IocSource) -> (r: Result<IocSource, RepoError>)
        requires
            old(self).wf(),
        ensures
            final(self).wf(),
            exists|now: i64|
                in_clock_range(now) && #[trigger] upsert_source_result(
                    *old(self),
                    *final(self),
                    source@,
                    now,
                    r,
                ),
    {
        let now = clock_micros();
        let r = self.upsert_source_at(source, now);
        assert(upsert_source_result(*old(self), *self, source@, now, r));
        r
    }

    /// The sources that are switched on, by name.
    pub fn get_enabled_sources(&self) -> (r: Result<Vec<IocSource>, RepoError>)
        ensures
            r is Ok,
            by_name(source_views(r->Ok_0@)),
            rearranges(source_views(r->Ok_0@), enabled_sources(self.source_rows())),
    {
        let ghost rows = self.source_rows();
        let ghost pred = |s: IocSourceView| s.enabled;
        let mut found: Vec<IocSource> = Vec::new();
        let mut i: usize = 0;
        assert(rows.take(0).filter(pred) =~= Seq::empty()) by {
            reveal(Seq::filter);
        }
        assert(source_views(found@) =~= Seq::empty());
        while i < self.sources.len()
            invariant
                i <= self.sources@.len(),
                rows == self.source_rows(),
                pred == (|s: IocSourceView| s.enabled),
                source_views(found@) == rows.take(i as int).filter(pred),
            decreases self.sources.len() - i,
        {
            proof {
                assert(rows[i as int] == self.sources@[i as int]@);
                assert(rows.take(i + 1) =~= rows.take(i as int).push(rows[i as int]));
                rows.take(i as int).lemma_filter_push(rows[i as int], pred);
            }
            if self.sources[i].enabled {
                let ghost before = source_views(found@);
                found.push(self.sources[i].clone());
                assert(source_views(found@) =~= before.push(rows[i as int]));
            }
            i = i + 1;
        }
        assert(rows.take(self.sources@.len() as int) =~= rows);
        let sorted = sort(found);
        proof {
            lemma_rearranges_map(sorted@, found@, |r: IocSource| r@);
            let all = source_views(sorted@);
            assert forall|a: int, b: int|
                #![trigger all[a], all[b]]
                0 <= a < b < all.len() implies lex_le(all[a].name, all[b].name) by {
                assert(sorted@[a].goes_before(&sorted@[b]));
            }
        }
        Ok(sorted)
    }

    /// Notes that the source `source_id` was fetched at `now`. A store
    /// without that source is left as it is.
    pub fn update_source_fetch_time_at(&mut self, source_id: u128, now: i64) -> (r: Result<
        (),
        RepoError,
    >)
        requires
            old(self).wf(),
        ensures
            final(self).wf(),
            r is Ok,
            source_fetched_result(*old(self), *final(self), source_id, now),
    {
        let ghost pre = self.source_rows();
        let mut i: usize = 0;
        while i < self.sources.len()
            invariant
                i <= self.sources@.len(),
                self.sources@.len() == pre.len(),
                self.rows() == old(self).rows(),
                self.enrichment_rows() == old(self).enrichment_rows(),
                self.sighting_rows() == old(self).sighting_rows(),
                forall|k: int|
                    0 <= k < i ==> (#[trigger] self.source_rows()[k]) == sources_fetched(
                        pre,
                        source_id,
                        now,
                    )[k],
                forall|k: int| i <= k < pre.len() ==> (#[trigger] self.source_rows()[k]) == pre[k],
            decreases self.sources.len() - i,
        {
            assert(self.source_rows()[i as int] == self.sources@[i as int]@);
            if self.sources[i].id == source_id {
                let ghost before = self.source_rows();
                let mut row = self.sources[i].clone();
                row.last_fetch = Some(now);
                row.updated_at = now;
                self.sources.set(i, row);
                assert(self.source_rows() =~= before.update(i as int, row@));
            }
            i = i + 1;
        }
        proof {
            let post = self.source_rows();
            assert(post =~= sources_fetched(pre, source_id, now));
            assert forall|a: int, b: int|
                #![trigger post[a], post[b]]
                0 <= a < b < post.len() implies post[a].name != post[b].name by {
                assert(post[a].name == pre[a].name);
                assert(post[b].name == pre[b].name);
            }
        }
        Ok(())
    }

    /// Notes that the source `source_id` was fetched at the time of the
    /// call.
    pub fn update_source_fetch_time(&mut self, source_id: u128) -> (r: Result<(), RepoError>)
        requires
            old(self).wf(),
        ensures
            final(self).wf(),
            r is Ok,
            exists|now: i64|
                in_clock_range(now) && #[trigger] source_fetched_result(
                    *old(self),
                    *final(self),
                    source_id,
                    now,
                ),
    {
        let now = clock_micros();
        let r = self.update_source_fetch_time_at(source_id, now);
        assert(source_fetched_result(*old(self), *self, source_id, now));
        r
    }
}

// ---------------------------------------------------------------------------
// Statistics
// ---------------------------------------------------------------------------

/// The start of the day, in UTC, in which `now` lies.
pub open spec fn start_of_day(now: i64) -> int {
    now - (now as int) % (MICROS_PER_DAY as int)
}

/// The numbers on the dashboard at `now`: all indicators, those created
/// since the start of the day, those created in the last seven days, the
/// sources that are switched on, and the sightings of the last 24 hours. The breakdowns by kind, by severity and by tag are left empty.
pub open spec fn stats_of(repo: ThreatIntelRepo, now: i64, stats: DashboardStats) -> bool {
    &&& stats.total_indicators == counted(repo.rows().len())
    &&& stats.new_today == counted(
        repo.rows().filter(|r: IndicatorView| r.created_at >= start_of_day(now)).len(),
    )
    &&& stats.new_this_week == counted(
        repo.rows().filter(
            |r: IndicatorView| r.created_at >= now - 7 * MICROS_PER_DAY,
        ).len(),
    )
    &&& stats.active_sources == counted(enabled_sources(repo.source_rows()).len())
    &&& stats.recent_sightings == counted(
        repo.sighting_rows().filter(
            |s: SightingView| s.observed_at >= now - 24 * MICROS_PER_HOUR,
        ).len(),
    )
    &&& stats.indicators_by_type@.len() == 0
    &&& stats.indicators_by_severity@.len() == 0
    &&& stats.top_tags@.len() == 0
}

impl ThreatIntelRepo {
    /// How many indicators were created at or after `since`.
    fn count_created_since(&self, since: i128) -> (n: usize)
        ensures
            n == self.rows().filter(|r: IndicatorView| r.created_at >= since).len(),
    {
        let ghost rows = self.rows();
        let ghost pred = |r: IndicatorView| r.created_at >= since;
        let mut n: usize = 0;
        let mut i: usize = 0;
        assert(rows.take(0).filter(pred) =~= Seq::empty()) by {
            reveal(Seq::filter);
        }
        while i < self.indicators.len()
            invariant
                i <= self.indicators@.len(),
                rows == self.rows(),
                pred == (|r: IndicatorView| r.created_at >= since),
                n == rows.take(i as int).filter(pred).len(),
                n <= i,
            decreases self.indicators.len() - i,
        {
            proof {
                assert(rows[i as int] == self.indicators@[i as int]@);
                assert(rows.take(i + 1) =~= rows.take(i as int).push(rows[i as int]));
                rows.take(i as int).lemma_filter_push(rows[i as int], pred);
            }
            if self.indicators[i].created_at as i128 >= since {
                n = n + 1;
            }
            i = i + 1;
        }
        assert(rows.take(self.indicators@.len() as int) =~= rows);
        n
    }

    /// The numbers on the dashboard at `now`.
    pub fn get_stats_at(&self, now: i64) -> (r: Result<DashboardStats, RepoError>)
        ensures
            r is Ok,
            stats_of(*self, now, r->Ok_0),
    {
        let into_day: i64 = match now.checked_rem_euclid(MICROS_PER_DAY) {
            Some(m) => m,
            None => 0,
        };
        let today: i128 = now as i128 - into_day as i128;
        assert(today == start_of_day(now));
        let new_today = self.count_created_since(today);
        let new_this_week = self.count_created_since(now as i128 - 7 * (MICROS_PER_DAY as i128));
        let day_ago: i128 = now as i128 - 24 * (MICROS_PER_HOUR as i128);

        let ghost sources = self.source_rows();
        let ghost on = |s: IocSourceView| s.enabled;
        let mut active: usize = 0;
        let mut i: usize = 0;
        assert(sources.take(0).filter(on) =~= Seq::empty()) by {
            reveal(Seq::filter);
        }
        while i < self.sources.len()
            invariant
                i <= self.sources@.len(),
                sources == self.source_rows(),
                on == (|s: IocSourceView| s.enabled),
                active == sources.take(i as int).filter(on).len(),
                active <= i,
            decreases self.sources.len() - i,
        {
            proof {
                assert(sources[i as int] == self.sources@[i as int]@);
                assert(sources.take(i + 1) =~= sources.take(i as int).push(sources[i as int]));
                sources.take(i as int).lemma_filter_push(sources[i as int], on);
            }
            if self.sources[i].enabled {
                active = active + 1;
            }
            i = i + 1;
        }
        assert(sources.take(self.sources@.len() as int) =~= sources);

        let ghost sightings = self.sighting_rows();
        let ghost late = |s: SightingView| s.observed_at >= now - 24 * MICROS_PER_HOUR;
        let mut recent: usize = 0;
        let mut k: usize = 0;
        assert(sightings.take(0).filter(late) =~= Seq::empty()) by {
            reveal(Seq::filter);
        }
        while k < self.sightings.len()
            invariant
                k <= self.sightings@.len(),
                sightings == self.sighting_rows(),
                late == (|s: SightingView| s.observed_at >= now - 24 * MICROS_PER_HOUR),
                day_ago == now - 24 * MICROS_PER_HOUR,
                recent == sightings.take(k as int).filter(late).len(),
                recent <= k,
            decreases self.sightings.len() - k,
        {
            proof {
                assert(sightings[k as int] == self.sightings@[k as int]@);
                assert(sightings.take(k + 1) =~= sightings.take(k as int).push(sightings[k as int]));
                sightings.take(k as int).lemma_filter_push(sightings[k as int], late);
            }
            if self.sightings[k].observed_at as i128 >= day_ago {
                recent = recent + 1;
            }
            k = k + 1;
        }
        assert(sightings.take(self.sightings@.len() as int) =~= sightings);

        Ok(
            DashboardStats {
                total_indicators: count_of(self.indicators.len()),
                indicators_by_type: Vec::new(),
                indicators_by_severity: Vec::new(),
                new_today: count_of(new_today),
                new_this_week: count_of(new_this_week),
                active_sources: count_of(active),
                top_tags: Vec::new(),
                recent_sightings: count_of(recent),
            },
        )
    }

    /// The numbers on the dashboard at the time of the call.
    pub fn get_stats(&self) -> (r: Result<DashboardStats, RepoError>)
        ensures
            r is Ok,
            exists|now: i64| in_clock_range(now) && #[trigger] stats_of(*self, now, r->Ok_0),
    {
        let now = clock_micros();
        let r = self.get_stats_at(now);
        assert(stats_of(*self, now, r->Ok_0));
        r
    }
}

} // verus!
