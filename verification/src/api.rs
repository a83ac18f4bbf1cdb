//! What the service does with a request, apart from its transport: single
//! and bulk creation, enrichment on demand, and the answers to queries.

use crate::enrichment::{
    collected, contributes, is_pass, pass_over, result_views, EnrichmentEngine,
    EnrichmentProvider, EnrichmentResult, EnrichmentResultView, ProviderRunView,
};
use crate::models::{
    opt_strs, BulkImportRequest, BulkImportResponse, CreateIndicatorRequest,
    CreateIndicatorRequestView, Enrichment, EnrichmentView, Indicator, IndicatorResponse,
    IndicatorView, Tlp,
};
use crate::storage::{
    candidate, counted, enrichment_candidate, enrichment_views, enrichments_of, enrichments_stored,
    clock_times, expiry_fits, hours_are_sure, id_index, in_clock_range, key_index, lookup, merge_owed, merge_target,
    merged_as_asked, newest_first, or_empty, refusal_message, resolve_type, sightings_of,
    sources_fetched, undetected_message, upsert_outcome, ErrorKind, RepoError, ThreatIntelRepo,
};
use crate::collectors::{request_views, FeedCollector, FeedResult};
use crate::order::rearranges;
use crate::text::{clone_strings, concat, strs};
use vstd::prelude::*;

verus! {

/// The source under which a sighting is recorded where none is given.
pub const DEFAULT_SIGHTING_SOURCE: &'static str = "manual";

/// The status under which a failure is answered: 400 for input that cannot
/// be accepted, 404 for what does not exist, 500 for a failure of the
/// store.
pub open spec fn status_of(kind: ErrorKind) -> u16 {
    match kind {
        ErrorKind::Validation => 400,
        ErrorKind::NotFound => 404,
        ErrorKind::Storage => 500,
    }
}

/// The status under which a failure is answered.
pub fn status_code(kind: ErrorKind) -> (r: u16)
    ensures
        r == status_of(kind),
{
    match kind {
        ErrorKind::Validation => 400,
        ErrorKind::NotFound => 404,
        ErrorKind::Storage => 500,
    }
}

/// The source under which a sighting is recorded: the one that is given,
/// or `manual`.
pub fn sighting_source(given: Option<&str>) -> (r: String)
    ensures
        r@ == match given {
            Some(s) => s@,
            None => DEFAULT_SIGHTING_SOURCE@,
        },
{
    match given {
        Some(s) => s.to_owned(),
        None => DEFAULT_SIGHTING_SOURCE.to_owned(),
    }
}

/// A request of a batch with the defaults of the batch: its source and its
/// label where the request has none, and its tags after those of the
/// request.
pub open spec fn with_defaults(
    item: CreateIndicatorRequestView,
    source: Seq<char>,
    tlp: Option<Tlp>,
    tags: Option<Seq<Seq<char>>>,
) -> CreateIndicatorRequestView {
    CreateIndicatorRequestView {
        source: match item.source {
            Some(s) => Some(s),
            None => Some(source),
        },
        tlp: match item.tlp {
            Some(l) => Some(l),
            None => tlp,
        },
        tags: match tags {
            Some(bulk) => Some(or_empty(item.tags) + bulk),
            None => item.tags,
        },
        ..item
    }
}

/// A request of a batch with the defaults of the batch.
pub fn apply_bulk_defaults(
    item: CreateIndicatorRequest,
    source: &str,
    tlp: Option<Tlp>,
    tags: &Option<Vec<String>>,
) -> (r: CreateIndicatorRequest)
    ensures
        r@ == with_defaults(item@, source@, tlp, opt_strs(*tags)),
{
    let mut item = item;
    let ghost given = item@;
    if item.source.is_none() {
        item.source = Some(source.to_owned());
    }
    if item.tlp.is_none() {
        item.tlp = tlp;
    }
    match tags {
        Some(bulk) => {
            let mut own = match &item.tags {
                Some(t) => clone_strings(t),
                None => {
                    let none: Vec<String> = Vec::new();
                    assert(strs(none@) =~= or_empty(given.tags));
                    none
                },
            };
            let mut k: usize = 0;
            assert(strs(own@) =~= or_empty(given.tags) + strs(bulk@).take(0));
            while k < bulk.len()
                invariant
                    k <= bulk@.len(),
                    strs(own@) == or_empty(given.tags) + strs(bulk@).take(k as int),
                decreases bulk.len() - k,
            {
                let ghost before = strs(own@);
                own.push(bulk[k].clone());
                assert(strs(own@) =~= before.push(bulk@[k as int]@));
                assert(strs(bulk@).take(k + 1) =~= strs(bulk@).take(k as int).push(
                    bulk@[k as int]@,
                ));
                k = k + 1;
            }
            assert(strs(bulk@).take(bulk@.len() as int) =~= strs(bulk@));
            item.tags = Some(own);
        },
        None => {},
    }
    item
}

/// What is said of a request that failed: its value, a colon, and the
/// reason.
pub open spec fn failure_text(value: Seq<char>, reason: Seq<char>) -> Seq<char> {
    value + ": "@ + reason
}

/// What is said of a request that failed.
pub fn failure_line(value: &str, error: &RepoError) -> (r: String)
    ensures
        r@ == failure_text(value@, error.message@),
{
    let head = concat(value, ": ");
    concat(head.as_str(), error.message.as_str())
}

/// The kind of the request is neither given nor detected from its value.
pub open spec fn unresolvable(item: CreateIndicatorRequestView) -> bool {
    resolve_type(item) is None
}

/// The tally of a batch of `total` requests before any was tried.
pub fn new_tally(total: usize) -> (r: BulkImportResponse)
    ensures
        r.total == total,
        r.created == 0,
        r.updated == 0,
        r.failed == 0,
        r.errors@.len() == 0,
{
    BulkImportResponse { total, created: 0, updated: 0, failed: 0, errors: Vec::new() }
}

/// Notes how one request of a batch went: a success counts as created, a
/// failure is counted and its reason is kept under the value of the
/// request.
pub fn record_result(
    tally: BulkImportResponse,
    value: &str,
    result: &Result<Indicator, RepoError>,
) -> (r: BulkImportResponse)
    requires
        tally.created + tally.failed < usize::MAX,
    ensures
        r.total == tally.total,
        r.updated == tally.updated,
        match result {
            Ok(_) => r.created == tally.created + 1 && r.failed == tally.failed && strs(r.errors@)
                == strs(tally.errors@),
            Err(e) => r.created == tally.created && r.failed == tally.failed + 1 && strs(
                r.errors@,
            ) == strs(tally.errors@).push(failure_text(value@, e.message@)),
        },
{
    let mut tally = tally;
    let ghost before = strs(tally.errors@);
    match result {
        Ok(_) => {
            tally.created = tally.created + 1;
        },
        Err(e) => {
            tally.failed = tally.failed + 1;
            tally.errors.push(failure_line(value, e));
            assert(strs(tally.errors@) =~= before.push(failure_text(value@, e.message@)));
        },
    }
    tally
}

/// The requests of a batch, each with the defaults of the batch.
pub open spec fn batch_items(req: BulkImportRequest) -> Seq<CreateIndicatorRequestView> {
    Seq::new(
        req.indicators@.len(),
        |k: int| with_defaults(req.indicators@[k]@, req.source@, req.tlp, opt_strs(req.tags)),
    )
}

/// The rows and the reported failures after the requests were upserted one
/// after the other for the source `source_id`, the `k`-th at the time
/// `times[k]` and, where it creates a row, under the identifier `ids[k]`. A
/// request that is refused leaves the rows as they are and is reported
/// under its value.
pub open spec fn imported(
    rows: Seq<IndicatorView>,
    items: Seq<CreateIndicatorRequestView>,
    source_id: Option<u128>,
    ids: Seq<u128>,
    times: Seq<i64>,
) -> (Seq<IndicatorView>, Seq<Seq<char>>)
    decreases items.len(),
{
    if items.len() == 0 || ids.len() != items.len() || times.len() != items.len() {
        (rows, Seq::empty())
    } else {
        let before = imported(
            rows,
            items.drop_last(),
            source_id,
            ids.drop_last(),
            times.drop_last(),
        );
        let item = items.last();
        match upsert_outcome(before.0, item, source_id, ids.last(), times.last()) {
            Ok(after) => (after, before.1),
            Err(_) => (
                before.0,
                before.1.push(failure_text(item.value, refusal_message(item, times.last()))),
            ),
        }
    }
}

/// One more request: what it does to the rows and to the reported failures
/// that the requests before it left.
pub proof fn lemma_imported_step(
    rows: Seq<IndicatorView>,
    items: Seq<CreateIndicatorRequestView>,
    item: CreateIndicatorRequestView,
    source_id: Option<u128>,
    ids: Seq<u128>,
    times: Seq<i64>,
    id: u128,
    now: i64,
)
    requires
        ids.len() == items.len(),
        times.len() == items.len(),
    ensures
        imported(rows, items.push(item), source_id, ids.push(id), times.push(now)) == ({
            let before = imported(rows, items, source_id, ids, times);
            match upsert_outcome(before.0, item, source_id, id, now) {
                Ok(after) => (after, before.1),
                Err(_) => (
                    before.0,
                    before.1.push(failure_text(item.value, refusal_message(item, now))),
                ),
            }
        }),
{
    assert(items.push(item).drop_last() =~= items);
    assert(ids.push(id).drop_last() =~= ids);
    assert(times.push(now).drop_last() =~= times);
}

/// The requests of a batch, each with the defaults of the batch.
pub fn batch_requests(req: &BulkImportRequest) -> (items: Vec<CreateIndicatorRequest>)
    ensures
        request_views(items@) == batch_items(*req),
{
    let mut items: Vec<CreateIndicatorRequest> = Vec::new();
    let mut i: usize = 0;
    while i < req.indicators.len()
        invariant
            i <= req.indicators@.len(),
            items@.len() == i,
            forall|k: int| 0 <= k < i ==> (#[trigger] items@[k])@ == batch_items(*req)[k],
        decreases req.indicators.len() - i,
    {
        items.push(
            apply_bulk_defaults(
                req.indicators[i].clone(),
                req.source.as_str(),
                req.tlp,
                &req.tags,
            ),
        );
        i = i + 1;
    }
    assert(request_views(items@) =~= batch_items(*req));
    items
}

/// Upserts the requests one after the other for the source `source_id`,
/// each at the time at which its turn comes and, where it creates a row,
/// under a new random identifier. The failure of one request does not fail
/// another: it is counted, and reported with its reason under the value of
/// the request. Every success is counted as created. A request whose kind
/// is neither given nor detected always fails.
#[verifier::rlimit(40)]
pub fn upsert_each(
    repo: &mut ThreatIntelRepo,
    requests: &Vec<CreateIndicatorRequest>,
    source_id: Option<u128>,
) -> (r: BulkImportResponse)
    requires
        old(repo).wf(),
    ensures
        final(repo).wf(),
        final(repo).enrichment_rows() == old(repo).enrichment_rows(),
        final(repo).sighting_rows() == old(repo).sighting_rows(),
        final(repo).source_rows() == old(repo).source_rows(),
        r.total == requests@.len(),
        r.created + r.failed == r.total,
        r.updated == 0,
        r.errors@.len() == r.failed,
        exists|ids: Seq<u128>, times: Seq<i64>|
            ids.len() == r.total && times.len() == r.total && clock_times(times) && (
                final(repo).rows(),
                strs(r.errors@),
            ) == #[trigger] imported(
                old(repo).rows(),
                request_views(requests@),
                source_id,
                ids,
                times,
            ),
        forall|k: int|
            0 <= k < requests@.len() && unresolvable(#[trigger] request_views(requests@)[k])
                ==> strs(r.errors@).contains(
                failure_text(requests@[k]@.value, undetected_message(requests@[k]@.value)),
            ),
{
    let total = requests.len();
    let mut tally = new_tally(total);
    let mut i: usize = 0;
    let ghost items = request_views(requests@);
    let ghost start = repo.rows();
    let ghost mut ids: Seq<u128> = Seq::empty();
    let ghost mut times: Seq<i64> = Seq::empty();
    assert(strs(tally.errors@) =~= Seq::empty());
    assert(items.take(0) =~= Seq::empty());
    while i < total
        invariant
            i <= total,
            total == requests@.len(),
            items == request_views(requests@),
            start == old(repo).rows(),
            repo.wf(),
            repo.enrichment_rows() == old(repo).enrichment_rows(),
            repo.sighting_rows() == old(repo).sighting_rows(),
            repo.source_rows() == old(repo).source_rows(),
            tally.total == total,
            tally.updated == 0,
            tally.created + tally.failed == i,
            tally.errors@.len() == tally.failed,
            ids.len() == i,
            times.len() == i,
            clock_times(times),
            (repo.rows(), strs(tally.errors@)) == imported(
                start,
                items.take(i as int),
                source_id,
                ids,
                times,
            ),
            forall|k: int|
                0 <= k < i && unresolvable(#[trigger] items[k]) ==> strs(tally.errors@).contains(
                    failure_text(items[k].value, undetected_message(items[k].value)),
                ),
        decreases total - i,
    {
        let item = &requests[i];
        assert(item@ == items[i as int]);
        let ghost pre = *repo;
        let result = repo.upsert_indicator(item, source_id);
        let ghost before = strs(tally.errors@);
        tally = record_result(tally, item.value.as_str(), &result);
        proof {
            let (id, now) = choose|id: u128, now: i64|
                in_clock_range(now) && #[trigger] crate::storage::upsert_result(
                    pre,
                    *repo,
                    item@,
                    source_id,
                    id,
                    now,
                    result,
                );
            let next_ids = ids.push(id);
            let next_times = times.push(now);
            let next = items.take(i + 1);
            assert(next =~= items.take(i as int).push(item@));
            lemma_imported_step(start, items.take(i as int), item@, source_id, ids, times, id, now);
            let after = strs(tally.errors@);
            assert((repo.rows(), after) == imported(start, next, source_id, next_ids, next_times));
            assert forall|k: int| 0 <= k < i + 1 && unresolvable(#[trigger] items[k]) implies after.contains(
                failure_text(items[k].value, undetected_message(items[k].value)),
            ) by {
                let text = failure_text(items[k].value, undetected_message(items[k].value));
                if k < i {
                    assert(before.contains(text));
                    let j = choose|j: int| 0 <= j < before.len() && before[j] == text;
                    if result is Err {
                        assert(after[j] == text);
                    }
                } else {
                    assert(result is Err);
                    assert(after[after.len() - 1] == text);
                }
            }
            ids = next_ids;
            times = next_times;
        }
        i = i + 1;
    }
    assert(items.take(total as int) =~= items);
    proof {
        assert forall|k: int|
            0 <= k < requests@.len() && unresolvable(
                #[trigger] request_views(requests@)[k],
            ) implies strs(tally.errors@).contains(
            failure_text(requests@[k]@.value, undetected_message(requests@[k]@.value)),
        ) by {
            assert(items[k].value == requests@[k]@.value);
        }
    }
    tally
}

/// Imports a batch: each request gets the defaults of the batch and is
/// upserted on its own, without a source, as `upsert_each` does.
pub fn bulk_import(repo: &mut ThreatIntelRepo, req: BulkImportRequest) -> (r: BulkImportResponse)
    requires
        old(repo).wf(),
    ensures
        final(repo).wf(),
        final(repo).enrichment_rows() == old(repo).enrichment_rows(),
        final(repo).sighting_rows() == old(repo).sighting_rows(),
        final(repo).source_rows() == old(repo).source_rows(),
        r.total == req.indicators@.len(),
        r.created + r.failed == r.total,
        r.updated == 0,
        r.errors@.len() == r.failed,
        exists|ids: Seq<u128>, times: Seq<i64>|
            ids.len() == r.total && times.len() == r.total && clock_times(times) && (
                final(repo).rows(),
                strs(r.errors@),
            ) == #[trigger] imported(old(repo).rows(), batch_items(req), None, ids, times),
        forall|k: int|
            0 <= k < req.indicators@.len() && unresolvable(#[trigger] batch_items(req)[k])
                ==> strs(r.errors@).contains(
                failure_text(
                    req.indicators@[k]@.value,
                    undetected_message(req.indicators@[k]@.value),
                ),
            ),
{
    let requests = batch_requests(&req);
    let r = upsert_each(repo, &requests, None);
    proof {
        assert forall|k: int|
            0 <= k < req.indicators@.len() && unresolvable(
                #[trigger] batch_items(req)[k],
            ) implies strs(r.errors@).contains(
            failure_text(
                req.indicators@[k]@.value,
                undetected_message(req.indicators@[k]@.value),
            ),
        ) by {
            assert(request_views(requests@)[k] == batch_items(req)[k]);
            assert(requests@[k]@ == request_views(requests@)[k]);
        }
    }
    r
}

/// A feed that was passed over: the store is as it was, and nothing was
/// fetched and nothing failed.
pub open spec fn feed_passed_over(pre: ThreatIntelRepo, post: ThreatIntelRepo, result: FeedResult) -> bool {
    &&& post.rows() == pre.rows()
    &&& post.source_rows() == pre.source_rows()
    &&& result.indicators@.len() == 0
    &&& result.errors@.len() == 0
}

/// The collector was asked to fetch, and what it answered was taken in.
pub open spec fn feed_fetched<C: FeedCollector>(
    collector: &C,
    pre: ThreatIntelRepo,
    post: ThreatIntelRepo,
    source_id: u128,
    result: FeedResult,
) -> bool {
    exists|fetched: Result<Vec<CreateIndicatorRequest>, String>|
        #[trigger] call_ensures(C::fetch, (collector,), fetched) && feed_ingested(
            pre,
            post,
            source_id,
            fetched,
            result,
        )
}

/// What a refresh of a feed leaves behind, by what the collector answers.
/// The result carries the name that the collector gives. A collector that
/// says that it is not configured is passed over. One that says that it is
/// configured is asked to fetch, and what it answers is taken in.
pub open spec fn feed_refreshed<C: FeedCollector>(
    collector: &C,
    pre: ThreatIntelRepo,
    post: ThreatIntelRepo,
    source_id: u128,
    result: FeedResult,
) -> bool {
    &&& exists|name: &'static str|
        #[trigger] call_ensures(C::name, (collector,), name) && result.source@ == name@
    &&& exists|configured: bool|
        #[trigger] call_ensures(C::is_configured, (collector,), configured) && if configured {
            feed_fetched(collector, pre, post, source_id, result)
        } else {
            feed_passed_over(pre, post, result)
        }
}

/// Refreshes one feed for the source `source_id`. The collector is asked
/// for its name and whether it is configured. One that is not configured
/// is passed over: the store stays as it is. One that is configured is
/// asked to fetch, and what it answers is taken in as `ingest_feed` does:
/// what it fetched is upserted for the source and the fetch is noted on the
/// source, and a failed fetch changes nothing and is reported. Returns the
/// name of the feed, the requests that were fetched, and what failed.
pub fn refresh_feed<C: FeedCollector>(repo: &mut ThreatIntelRepo, collector: &C, source_id: u128) -> (r:
    FeedResult)
    requires
        old(repo).wf(),
    ensures
        final(repo).wf(),
        final(repo).enrichment_rows() == old(repo).enrichment_rows(),
        final(repo).sighting_rows() == old(repo).sighting_rows(),
        feed_refreshed(collector, *old(repo), *final(repo), source_id, r),
{
    let name = collector.name();
    let source = name.to_owned();
    let configured = collector.is_configured();
    if !configured {
        let r = FeedResult { source, indicators: Vec::new(), errors: Vec::new() };
        assert(call_ensures(C::name, (collector,), name) && r.source@ == name@);
        assert(call_ensures(C::is_configured, (collector,), configured));
        return r;
    }
    let fetched = collector.fetch();
    let ghost answer = fetched;
    let r = ingest_feed(repo, source, fetched, source_id);
    proof {
        assert(call_ensures(C::name, (collector,), name) && r.source@ == name@);
        assert(call_ensures(C::fetch, (collector,), answer));
        assert(feed_fetched(collector, *old(repo), *repo, source_id, r));
        assert(call_ensures(C::is_configured, (collector,), configured));
    }
    r
}

/// What the ingestion of a fetch leaves behind. A failed fetch changes
/// nothing and is reported with its reason. What a fetch yielded is
/// upserted for the source, request by request, and the source was fetched
/// at some time.
pub open spec fn feed_ingested(
    pre: ThreatIntelRepo,
    post: ThreatIntelRepo,
    source_id: u128,
    fetched: Result<Vec<CreateIndicatorRequest>, String>,
    result: FeedResult,
) -> bool {
    match fetched {
        Err(reason) => {
            &&& post.rows() == pre.rows()
            &&& post.source_rows() == pre.source_rows()
            &&& result.indicators@.len() == 0
            &&& strs(result.errors@) == seq![reason@]
        },
        Ok(items) => {
            &&& request_views(result.indicators@) == request_views(items@)
            &&& exists|ids: Seq<u128>, times: Seq<i64>, now: i64|
                ids.len() == items@.len() && times.len() == ids.len() && clock_times(times)
                    && in_clock_range(now) && (
                    post.rows(),
                    strs(result.errors@),
                ) == #[trigger] imported(
                    pre.rows(),
                    request_views(items@),
                    Some(source_id),
                    ids,
                    times,
                ) && post.source_rows() == #[trigger] sources_fetched(
                    pre.source_rows(),
                    source_id,
                    now,
                )
        },
    }
}

/// Takes in what the collector of the feed `source` fetched for the source
/// `source_id`: the requests are upserted for the source as `upsert_each`
/// does, and the fetch is noted on the source. A failed fetch is reported
/// and changes nothing. Returns the name of the feed, the requests that
/// were fetched, and what failed.
pub fn ingest_feed(
    repo: &mut ThreatIntelRepo,
    source: String,
    fetched: Result<Vec<CreateIndicatorRequest>, String>,
    source_id: u128,
) -> (r: FeedResult)
    requires
        old(repo).wf(),
    ensures
        final(repo).wf(),
        final(repo).enrichment_rows() == old(repo).enrichment_rows(),
        final(repo).sighting_rows() == old(repo).sighting_rows(),
        r.source@ == source@,
        feed_ingested(*old(repo), *final(repo), source_id, fetched, r),
{
    match fetched {
        Err(reason) => {
            let mut errors: Vec<String> = Vec::new();
            errors.push(reason);
            assert(strs(errors@) =~= seq![reason@]);
            FeedResult { source, indicators: Vec::new(), errors }
        },
        Ok(indicators) => {
            let tally = upsert_each(repo, &indicators, Some(source_id));
            let ghost mid = *repo;
            let noted = repo.update_source_fetch_time(source_id);
            let r = FeedResult { source, indicators, errors: tally.errors };
            proof {
                let (ids, times) = choose|ids: Seq<u128>, times: Seq<i64>|
                    ids.len() == tally.total && times.len() == tally.total && clock_times(times) && (
                        mid.rows(),
                        strs(tally.errors@),
                    ) == #[trigger] imported(
                        old(repo).rows(),
                        request_views(indicators@),
                        Some(source_id),
                        ids,
                        times,
                    );
                let now = choose|now: i64|
                    in_clock_range(now) && #[trigger] crate::storage::source_fetched_result(
                        mid,
                        *repo,
                        source_id,
                        now,
                    );
                assert(repo.source_rows() == sources_fetched(old(repo).source_rows(), source_id, now));
                assert((repo.rows(), strs(r.errors@)) == imported(
                    old(repo).rows(),
                    request_views(r.indicators@),
                    Some(source_id),
                    ids,
                    times,
                ));
            }
            r
        },
    }
}

/// The enrichments after the results of a pass were stored for an
/// indicator one after the other, the `k`-th at the time `times[k]` and,
/// where it creates a row, under the identifier `ids[k]`, each good for the
/// hours that it names. A result whose expiry no timestamp can hold is
/// passed over.
pub open spec fn results_stored(
    rows: Seq<EnrichmentView>,
    indicator_id: u128,
    results: Seq<EnrichmentResultView>,
    ids: Seq<u128>,
    times: Seq<i64>,
) -> (Seq<EnrichmentView>, nat)
    decreases results.len(),
{
    if results.len() == 0 || ids.len() != results.len() || times.len() != results.len() {
        (rows, 0)
    } else {
        let before = results_stored(
            rows,
            indicator_id,
            results.drop_last(),
            ids.drop_last(),
            times.drop_last(),
        );
        let r = results.last();
        if expiry_fits(times.last(), Some(r.3)) {
            (
                enrichments_stored(
                    before.0,
                    enrichment_candidate(
                        indicator_id,
                        r.0,
                        r.1,
                        r.2,
                        Some(r.3),
                        ids.last(),
                        times.last(),
                    ),
                ),
                before.1 + 1,
            )
        } else {
            before
        }
    }
}

/// Stores the results of an enrichment pass for an indicator, each good for
/// the hours that its provider says, at the time at which its turn comes,
/// and says how many were stored.
pub fn store_results(repo: &mut ThreatIntelRepo, indicator_id: u128, results: Vec<EnrichmentResult>) -> (stored:
    usize)
    requires
        old(repo).wf(),
    ensures
        final(repo).wf(),
        final(repo).rows() == old(repo).rows(),
        final(repo).sighting_rows() == old(repo).sighting_rows(),
        final(repo).source_rows() == old(repo).source_rows(),
        stored <= results@.len(),
        all_sure(result_views(results@)) ==> stored == results@.len(),
        exists|ids: Seq<u128>, times: Seq<i64>|
            ids.len() == results@.len() && times.len() == results@.len() && clock_times(times) && (
                final(repo).enrichment_rows(),
                stored as nat,
            ) == #[trigger] results_stored(
                old(repo).enrichment_rows(),
                indicator_id,
                result_views(results@),
                ids,
                times,
            ),
{
    let total = results.len();
    let ghost all = result_views(results@);
    let ghost start = repo.enrichment_rows();
    let ghost mut ids: Seq<u128> = Seq::empty();
    let ghost mut times: Seq<i64> = Seq::empty();
    let mut rest = results;
    let mut stored: usize = 0;
    assert(all.take(0) =~= Seq::empty());
    assert(result_views(rest@).skip(0) =~= result_views(rest@));
    while rest.len() > 0
        invariant
            repo.wf(),
            repo.rows() == old(repo).rows(),
            repo.sighting_rows() == old(repo).sighting_rows(),
            repo.source_rows() == old(repo).source_rows(),
            total == results@.len(),
            all == result_views(results@),
            start == old(repo).enrichment_rows(),
            stored + rest@.len() <= total,
            ids.len() + rest@.len() == total,
            times.len() == ids.len(),
            clock_times(times),
            all_sure(all) ==> stored == ids.len(),
            result_views(rest@) == all.skip(ids.len() as int),
            (repo.enrichment_rows(), stored as nat) == results_stored(
                start,
                indicator_id,
                all.take(ids.len() as int),
                ids,
                times,
            ),
        decreases rest.len(),
    {
        let ghost done = ids.len() as int;
        let ghost had = rest@;
        let ghost pre = *repo;
        let (enrichment_type, provider, data, ttl) = rest.remove(0);
        proof {
            assert(result_views(had)[0] == (enrichment_type@, provider@, data@, ttl));
            assert(all.skip(done)[0] == all[done]);
            assert(rest@.len() == had.len() - 1);
            assert forall|k: int| 0 <= k < rest@.len() implies result_views(rest@)[k] == all.skip(
                done + 1,
            )[k] by {
                assert(rest@[k] == had[k + 1]);
                assert(result_views(had)[k + 1] == all.skip(done)[k + 1]);
            }
            assert(result_views(rest@) =~= all.skip(done + 1));
        }
        let saved = repo.add_enrichment(
            indicator_id,
            enrichment_type.as_str(),
            provider.as_str(),
            data,
            Some(ttl),
        );
        proof {
            let (id, now) = choose|id: u128, now: i64|
                in_clock_range(now) && crate::storage::add_enrichment_result(
                    pre,
                    *repo,
                    #[trigger] enrichment_candidate(
                        indicator_id,
                        enrichment_type@,
                        provider@,
                        data@,
                        Some(ttl),
                        id,
                        now,
                    ),
                    Some(ttl),
                    now,
                    saved,
                );
            let next_ids = ids.push(id);
            let next_times = times.push(now);
            let next = all.take(done + 1);
            assert(next.drop_last() =~= all.take(done));
            assert(next_ids.drop_last() =~= ids);
            assert(next_times.drop_last() =~= times);
            assert(next.last() == all[done]);
            ids = next_ids;
            times = next_times;
        }
        if saved.is_ok() {
            stored = stored + 1;
        }
    }
    assert(all.take(total as int) =~= all);
    stored
}

/// Each of the results is good for a number of hours that is sure to fit.
pub open spec fn all_sure(results: Seq<EnrichmentResultView>) -> bool {
    forall|k: int| 0 <= k < results.len() ==> hours_are_sure(Some((#[trigger] results[k]).3))
}

/// What an enrichment pass leaves in the store: the results of a pass of
/// the engine over its providers, each of them asked about this indicator
/// and run as it answered, stored one after the other.
pub open spec fn pass_stored<P: EnrichmentProvider>(
    engine: EnrichmentEngine<P>,
    before: Seq<EnrichmentView>,
    after: Seq<EnrichmentView>,
    indicator: Indicator,
    stored: nat,
) -> bool {
    exists|runs: Seq<ProviderRunView>, ids: Seq<u128>, times: Seq<i64>|
        pass_over(engine.providers(), &indicator, runs) && is_pass(runs) && ids.len() == collected(
            runs,
        ).len() && times.len() == ids.len() && clock_times(times) && (all_sure(collected(runs))
            ==> stored == ids.len()) && (after, stored) == #[trigger] results_stored(
            before,
            indicator.id,
            collected(runs),
            ids,
            times,
        )
}

fn run_pass<P: EnrichmentProvider>(
    repo: &mut ThreatIntelRepo,
    engine: &EnrichmentEngine<P>,
    indicator: &Indicator,
) -> (stored: usize)
    requires
        old(repo).wf(),
    ensures
        final(repo).wf(),
        final(repo).rows() == old(repo).rows(),
        final(repo).sighting_rows() == old(repo).sighting_rows(),
        final(repo).source_rows() == old(repo).source_rows(),
        stored <= engine.provider_count(),
        pass_stored(
            *engine,
            old(repo).enrichment_rows(),
            final(repo).enrichment_rows(),
            *indicator,
            stored as nat,
        ),
{
    let results = engine.enrich_all(indicator);
    let ghost views = result_views(results@);
    let ghost runs = choose|runs: Seq<ProviderRunView>|
        pass_over(engine.providers(), indicator, runs) && is_pass(runs) && result_views(results@)
            == #[trigger] collected(runs);
    proof {
        runs.lemma_filter_len(|r: ProviderRunView| contributes(r));
        assert(views.len() == results@.len());
    }
    let stored = store_results(repo, indicator.id, results);
    proof {
        let (ids, times) = choose|ids: Seq<u128>, times: Seq<i64>|
            ids.len() == views.len() && times.len() == views.len() && clock_times(times) && (
                repo.enrichment_rows(),
                stored as nat,
            ) == #[trigger] results_stored(
                old(repo).enrichment_rows(),
                indicator.id,
                views,
                ids,
                times,
            );
        assert((repo.enrichment_rows(), stored as nat) == results_stored(
            old(repo).enrichment_rows(),
            indicator.id,
            collected(runs),
            ids,
            times,
        ));
    }
    stored
}

/// Runs an enrichment pass for the indicator `id` and stores what the
/// providers found. Fails, and stores nothing, where the store has no such
/// indicator; otherwise says how many results were stored.
pub fn enrich_indicator<P: EnrichmentProvider>(
    repo: &mut ThreatIntelRepo,
    engine: &EnrichmentEngine<P>,
    id: u128,
) -> (r: Result<usize, RepoError>)
    requires
        old(repo).wf(),
    ensures
        final(repo).wf(),
        final(repo).rows() == old(repo).rows(),
        final(repo).sighting_rows() == old(repo).sighting_rows(),
        final(repo).source_rows() == old(repo).source_rows(),
        r is Ok <==> id_index(old(repo).rows(), id, 0) < old(repo).rows().len(),
        r is Ok ==> r->Ok_0 <= engine.provider_count() && exists|indicator: Indicator|
            indicator@ == old(repo).rows()[id_index(old(repo).rows(), id, 0)]
                && #[trigger] pass_stored(
                *engine,
                old(repo).enrichment_rows(),
                final(repo).enrichment_rows(),
                indicator,
                r->Ok_0 as nat,
            ),
        r is Err ==> r->Err_0.kind == ErrorKind::NotFound,
        r is Err ==> final(repo).enrichment_rows() == old(repo).enrichment_rows(),
{
    let found = match repo.get_indicator(id) {
        Ok(found) => found,
        Err(e) => {
            return Err(e);
        },
    };
    match found {
        Some(indicator) => {
            proof {
                crate::storage::lemma_id_index(repo.rows(), id, 0);
            }
            let stored = run_pass(repo, engine, &indicator);
            assert(pass_stored(
                *engine,
                old(repo).enrichment_rows(),
                repo.enrichment_rows(),
                indicator,
                stored as nat,
            ));
            Ok(stored)
        },
        None => Err(
            RepoError { kind: ErrorKind::NotFound, message: "Indicator not found".to_owned() },
        ),
    }
}

/// Creates or merges one indicator as an upsert without a source does, and
/// then runs an enrichment pass for it. What the pass does never changes
/// what is returned: the indicator as the upsert left it, or the reason why
/// the upsert failed, in which case nothing is stored.
pub fn create_indicator<P: EnrichmentProvider>(
    repo: &mut ThreatIntelRepo,
    engine: &EnrichmentEngine<P>,
    req: &CreateIndicatorRequest,
) -> (r: Result<Indicator, RepoError>)
    requires
        old(repo).wf(),
    ensures
        final(repo).wf(),
        final(repo).sighting_rows() == old(repo).sighting_rows(),
        final(repo).source_rows() == old(repo).source_rows(),
        exists|id: u128, now: i64|
            in_clock_range(now) && match #[trigger] upsert_outcome(
                old(repo).rows(),
                req@,
                None,
                id,
                now,
            ) {
                Ok(rows) => r is Ok && final(repo).rows() == rows && r->Ok_0@ == rows[key_index(
                    old(repo).rows(),
                    candidate(req@, None, id, now).ioc_type,
                    candidate(req@, None, id, now).value,
                    0,
                )],
                Err(kind) => r is Err && r->Err_0.kind == kind && r->Err_0.message@
                    == refusal_message(req@, now) && final(repo).rows() == old(repo).rows(),
            },
        unresolvable(req@) ==> r is Err && r->Err_0.kind == ErrorKind::Validation,
        merge_owed(old(repo).rows(), req@) ==> r is Ok && merged_as_asked(
            old(repo).rows()[merge_target(old(repo).rows(), req@)],
            req@,
            None,
            r->Ok_0@,
        ),
        r is Err ==> final(repo).enrichment_rows() == old(repo).enrichment_rows(),
        r is Ok ==> exists|stored: nat|
            #[trigger] pass_stored(
                *engine,
                old(repo).enrichment_rows(),
                final(repo).enrichment_rows(),
                r->Ok_0,
                stored,
            ),
{
    let created = repo.upsert_indicator(req, None);
    proof {
        let (id, now) = choose|id: u128, now: i64|
            in_clock_range(now) && #[trigger] crate::storage::upsert_result(
                *old(repo),
                *repo,
                req@,
                None,
                id,
                now,
                created,
            );
        assert(upsert_outcome(old(repo).rows(), req@, None, id, now) is Ok ==> created is Ok);
    }
    match created {
        Ok(indicator) => {
            let stored = run_pass(repo, engine, &indicator);
            assert(pass_stored(
                *engine,
                old(repo).enrichment_rows(),
                repo.enrichment_rows(),
                indicator,
                stored as nat,
            ));
            Ok(indicator)
        },
        Err(e) => Err(e),
    }
}

/// The indicator `id` with its enrichments, the one fetched last first, and
/// the number of its sightings. Fails where the store has no such
/// indicator. No related indicators are named.
pub fn get_indicator_response(repo: &ThreatIntelRepo, id: u128) -> (r: Result<
    IndicatorResponse,
    RepoError,
>)
    ensures
        r is Ok <==> id_index(repo.rows(), id, 0) < repo.rows().len(),
        r is Err ==> r->Err_0.kind == ErrorKind::NotFound,
        r is Ok ==> {
            let resp = r->Ok_0;
            &&& resp.indicator@ == repo.rows()[id_index(repo.rows(), id, 0)]
            &&& newest_first(enrichment_views(resp.enrichments@))
            &&& rearranges(
                enrichment_views(resp.enrichments@),
                enrichments_of(repo.enrichment_rows(), id),
            )
            &&& resp.sightings_count == counted(sightings_of(repo.sighting_rows(), id).len())
            &&& resp.related_indicators@.len() == 0
        },
{
    let found = match repo.get_indicator(id) {
        Ok(found) => found,
        Err(e) => {
            return Err(e);
        },
    };
    let indicator = match found {
        Some(indicator) => indicator,
        None => {
            return Err(
                RepoError { kind: ErrorKind::NotFound, message: "Indicator not found".to_owned() },
            );
        },
    };
    let enrichments = match repo.get_enrichments(id) {
        Ok(list) => list,
        Err(e) => {
            return Err(e);
        },
    };
    let sightings_count = match repo.count_sightings(id) {
        Ok(n) => n,
        Err(e) => {
            return Err(e);
        },
    };
    Ok(IndicatorResponse { indicator, enrichments, sightings_count, related_indicators: Vec::new() })
}

/// The indicator that a raw value denotes, with its enrichments, the one
/// fetched last first; nothing where the store has no such indicator.
pub fn lookup_by_value(repo: &ThreatIntelRepo, value: &str) -> (r: Option<(Indicator, Vec<Enrichment>)>)
    ensures
        match r {
            Some(found) => {
                &&& Some(found.0@) == lookup(repo.rows(), value@)
                &&& newest_first(enrichment_views(found.1@))
                &&& rearranges(
                    enrichment_views(found.1@),
                    enrichments_of(repo.enrichment_rows(), found.0@.id),
                )
            },
            None => lookup(repo.rows(), value@) is None,
        },
{
    let found = match repo.get_indicator_by_value(value) {
        Ok(found) => found,
        Err(_) => None,
    };
    match found {
        Some(indicator) => {
            let enrichments = match repo.get_enrichments(indicator.id) {
                Ok(list) => list,
                Err(_) => Vec::new(),
            };
            Some((indicator, enrichments))
        },
        None => None,
    }
}

} // verus!
