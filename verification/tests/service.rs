use sentinelforge::api::{
    apply_bulk_defaults, batch_requests, bulk_import, create_indicator, enrich_indicator,
    failure_line, get_indicator_response, ingest_feed, lookup_by_value, new_tally,
    record_result, refresh_feed, sighting_source, status_code, store_results, upsert_each,
};
use sentinelforge::collectors::FeedCollector;
use sentinelforge::enrichment::{EnrichmentEngine, EnrichmentProvider};
use sentinelforge::json::JsonValue;
use sentinelforge::models::{
    BulkImportRequest, CreateIndicatorRequest, Indicator, IocType, Tlp,
};
use sentinelforge::storage::{ErrorKind, RepoError, ThreatIntelRepo};

struct Echo {
    fail: bool,
}

impl EnrichmentProvider for Echo {
    fn name(&self) -> &'static str {
        if self.fail {
            "broken"
        } else {
            "echo"
        }
    }

    fn enrichment_type(&self) -> &'static str {
        "note"
    }

    fn supports(&self, ioc_type: &IocType) -> bool {
        *ioc_type == IocType::Ip
    }

    fn enrich(&self, indicator: &Indicator) -> Result<Option<JsonValue>, String> {
        if self.fail {
            Err("provider is down".to_string())
        } else {
            Ok(Some(JsonValue::text(&indicator.value)))
        }
    }

    fn ttl_hours(&self) -> i64 {
        6
    }
}

fn request(value: &str) -> CreateIndicatorRequest {
    CreateIndicatorRequest {
        value: value.to_string(),
        ioc_type: None,
        severity: None,
        confidence: None,
        tlp: None,
        tags: None,
        source: None,
        expiration_days: None,
    }
}

fn strings(items: &[&str]) -> Vec<String> {
    items.iter().map(|s| s.to_string()).collect()
}

fn engine() -> EnrichmentEngine<Echo> {
    let mut e = EnrichmentEngine::new();
    e.add_provider(Echo { fail: true });
    e.add_provider(Echo { fail: false });
    e
}

#[test]
fn failures_map_to_statuses() {
    assert_eq!(status_code(ErrorKind::Validation), 400);
    assert_eq!(status_code(ErrorKind::NotFound), 404);
    assert_eq!(status_code(ErrorKind::Storage), 500);
}

#[test]
fn sighting_source_defaults_to_manual() {
    assert_eq!(sighting_source(None), "manual");
    assert_eq!(sighting_source(Some("sensor-7")), "sensor-7");
    assert_eq!(sighting_source(Some("")), "");
}

#[test]
fn bulk_defaults_fill_gaps_and_append_tags() {
    let bulk_tags = Some(strings(&["bulk", "x"]));
    let bare = apply_bulk_defaults(request("1.1.1.1"), "import", Some(Tlp::Red), &bulk_tags);
    assert_eq!(bare.source, Some("import".to_string()));
    assert_eq!(bare.tlp, Some(Tlp::Red));
    assert_eq!(bare.tags, Some(strings(&["bulk", "x"])));
    assert_eq!(bare.value, "1.1.1.1");

    let mut own = request("1.1.1.1");
    own.source = Some("mine".to_string());
    own.tlp = Some(Tlp::White);
    own.tags = Some(strings(&["x", "own"]));
    let kept = apply_bulk_defaults(own, "import", Some(Tlp::Red), &bulk_tags);
    assert_eq!(kept.source, Some("mine".to_string()));
    assert_eq!(kept.tlp, Some(Tlp::White));
    assert_eq!(kept.tags, Some(strings(&["x", "own", "bulk", "x"])));

    let none = apply_bulk_defaults(request("1.1.1.1"), "import", None, &None);
    assert_eq!(none.tlp, None);
    assert_eq!(none.tags, None);
}

#[test]
fn tally_counts_and_keeps_reasons() {
    let tally = new_tally(2);
    assert_eq!(tally.total, 2);
    let err: Result<Indicator, RepoError> =
        Err(RepoError { kind: ErrorKind::Validation, message: "bad".to_string() });
    let tally = record_result(tally, "v", &err);
    assert_eq!((tally.created, tally.failed), (0, 1));
    assert_eq!(tally.errors, strings(&["v: bad"]));
    let mut repo = ThreatIntelRepo::new();
    let ok = repo.upsert_indicator_at(&request("1.1.1.1"), None, 1, 0);
    let tally = record_result(tally, "1.1.1.1", &ok);
    assert_eq!((tally.total, tally.created, tally.updated, tally.failed), (2, 1, 0, 1));
    assert_eq!(tally.errors.len(), 1);
    assert_eq!(
        failure_line("x", &RepoError { kind: ErrorKind::Storage, message: "full".to_string() }),
        "x: full"
    );
}

#[test]
fn bulk_import_reports_the_item_that_fails() {
    let mut repo = ThreatIntelRepo::new();
    let req = BulkImportRequest {
        indicators: vec![request("8.8.8.8"), request(""), request("example.com")],
        source: "import".to_string(),
        tlp: Some(Tlp::Green),
        tags: Some(strings(&["bulk"])),
    };
    let resp = bulk_import(&mut repo, req);
    assert_eq!(resp.total, 3);
    assert_eq!(resp.created, 2);
    assert_eq!(resp.updated, 0);
    assert_eq!(resp.failed, 1);
    assert_eq!(resp.errors, strings(&[": Could not detect IOC type for: "]));
    let row = repo.get_indicator_by_value("8.8.8.8").unwrap().unwrap();
    assert_eq!(row.tlp, Tlp::Green);
    assert_eq!(row.tags, strings(&["bulk"]));
    assert!(repo.get_indicator_by_value("EXAMPLE.com").unwrap().is_some());
}

#[test]
fn bulk_import_of_nothing_and_of_duplicates() {
    let mut repo = ThreatIntelRepo::new();
    let empty = BulkImportRequest { indicators: vec![], source: "s".to_string(), tlp: None, tags: None };
    let resp = bulk_import(&mut repo, empty);
    assert_eq!((resp.total, resp.created, resp.failed), (0, 0, 0));
    assert!(resp.errors.is_empty());
    let twice = BulkImportRequest {
        indicators: vec![request("8.8.8.8"), request(" 8.8.8.8 "), request("???")],
        source: "s".to_string(),
        tlp: None,
        tags: None,
    };
    let resp = bulk_import(&mut repo, twice);
    assert_eq!((resp.total, resp.created, resp.updated, resp.failed), (3, 2, 0, 1));
    assert_eq!(resp.errors, strings(&["???: Could not detect IOC type for: ???"]));
    assert_eq!(repo.get_stats_at(0).unwrap().total_indicators, 1);
}

#[test]
fn create_enriches_and_returns_the_row() {
    let mut repo = ThreatIntelRepo::new();
    let row = create_indicator(&mut repo, &engine(), &request(" 8.8.8.8")).unwrap();
    assert_eq!(row.value, "8.8.8.8");
    let stored = repo.get_enrichments(row.id).unwrap();
    assert_eq!(stored.len(), 1);
    assert_eq!(stored[0].provider, "echo");
    assert_eq!(stored[0].enrichment_type, "note");
    assert_eq!(stored[0].expires_at, Some(stored[0].fetched_at + 6 * 3_600_000_000));
    assert_eq!(format!("{:?}", stored[0].data), format!("{:?}", JsonValue::text("8.8.8.8")));
    // a domain is supported by no provider here
    let other = create_indicator(&mut repo, &engine(), &request("example.com")).unwrap();
    assert!(repo.get_enrichments(other.id).unwrap().is_empty());
    let err = create_indicator(&mut repo, &engine(), &request("")).unwrap_err();
    assert_eq!(err.kind, ErrorKind::Validation);
}

#[test]
fn enrich_on_demand() {
    let mut repo = ThreatIntelRepo::new();
    repo.upsert_indicator_at(&request("8.8.8.8"), None, 5, 0).unwrap();
    assert_eq!(enrich_indicator(&mut repo, &engine(), 5).unwrap(), 1);
    assert_eq!(enrich_indicator(&mut repo, &engine(), 5).unwrap(), 1);
    assert_eq!(repo.get_enrichments(5).unwrap().len(), 1);
    let err = enrich_indicator(&mut repo, &engine(), 6).unwrap_err();
    assert_eq!(err.kind, ErrorKind::NotFound);
    assert_eq!(err.message, "Indicator not found");
    let none: EnrichmentEngine<Echo> = EnrichmentEngine::new();
    assert_eq!(enrich_indicator(&mut repo, &none, 5).unwrap(), 0);
}

#[test]
fn store_results_counts_what_was_stored() {
    let mut repo = ThreatIntelRepo::new();
    let results = vec![
        ("geoip".to_string(), "maxmind".to_string(), JsonValue::Null, 168),
        ("dns".to_string(), "dns".to_string(), JsonValue::Null, i64::MAX),
        ("geoip".to_string(), "maxmind".to_string(), JsonValue::Bool(true), 1),
    ];
    assert_eq!(store_results(&mut repo, 3, results), 2);
    let stored = repo.get_enrichments(3).unwrap();
    assert_eq!(stored.len(), 1);
    assert_eq!(format!("{:?}", stored[0].data), format!("{:?}", JsonValue::Bool(true)));
}

#[test]
fn indicator_response_attaches_enrichments_and_sightings() {
    let mut repo = ThreatIntelRepo::new();
    repo.upsert_indicator_at(&request("8.8.8.8"), None, 5, 0).unwrap();
    repo.add_enrichment_at(5, "dns", "dns", JsonValue::Null, None, 1, 10).unwrap();
    repo.add_enrichment_at(5, "geoip", "maxmind", JsonValue::Null, None, 2, 20).unwrap();
    repo.add_sighting_at(5, "manual", None, 1, 30).unwrap();
    let resp = get_indicator_response(&repo, 5).unwrap();
    assert_eq!(resp.indicator.id, 5);
    assert_eq!(resp.indicator.last_seen, 30);
    assert_eq!(resp.sightings_count, 1);
    assert_eq!(resp.enrichments.len(), 2);
    assert_eq!(resp.enrichments[0].enrichment_type, "geoip");
    assert!(resp.related_indicators.is_empty());
    let err = get_indicator_response(&repo, 6).unwrap_err();
    assert_eq!(err.kind, ErrorKind::NotFound);
}

#[test]
fn lookup_by_value_attaches_enrichments() {
    let mut repo = ThreatIntelRepo::new();
    let mut req = request("  EXAMPLE.com ");
    req.ioc_type = Some(IocType::Domain);
    repo.upsert_indicator_at(&req, None, 5, 0).unwrap();
    repo.add_enrichment_at(5, "whois", "whois", JsonValue::Null, None, 1, 10).unwrap();
    let (row, enrichments) = lookup_by_value(&repo, "Example.COM").unwrap();
    assert_eq!(row.value, "example.com");
    assert_eq!(enrichments.len(), 1);
    assert!(lookup_by_value(&repo, "missing.example").is_none());
    assert!(lookup_by_value(&repo, "").is_none());
}

struct Feed {
    configured: bool,
    answer: Result<Vec<&'static str>, &'static str>,
}

impl FeedCollector for Feed {
    fn name(&self) -> &'static str {
        "test_feed"
    }

    fn fetch(&self) -> Result<Vec<CreateIndicatorRequest>, String> {
        match &self.answer {
            Ok(values) => Ok(values.iter().map(|v| request(v)).collect()),
            Err(e) => Err(e.to_string()),
        }
    }

    fn is_configured(&self) -> bool {
        self.configured
    }
}

fn feed_source(id: u128) -> sentinelforge::models::IocSource {
    sentinelforge::models::IocSource {
        id,
        name: "test_feed".to_string(),
        source_type: "feed".to_string(),
        url: None,
        api_key_required: false,
        reliability_score: 50,
        enabled: true,
        last_fetch: None,
        created_at: 0,
        updated_at: 0,
    }
}

#[test]
fn batch_requests_apply_the_defaults_to_each() {
    let req = BulkImportRequest {
        indicators: vec![request("a.example"), request("b.example")],
        source: "import".to_string(),
        tlp: Some(Tlp::Red),
        tags: Some(strings(&["t"])),
    };
    let items = batch_requests(&req);
    assert_eq!(items.len(), 2);
    for (item, value) in items.iter().zip(["a.example", "b.example"]) {
        assert_eq!(item.value, value);
        assert_eq!(item.source, Some("import".to_string()));
        assert_eq!(item.tlp, Some(Tlp::Red));
        assert_eq!(item.tags, Some(strings(&["t"])));
    }
}

#[test]
fn upsert_each_tags_the_source() {
    let mut repo = ThreatIntelRepo::new();
    let items = vec![request("1.1.1.1"), request("nothing here"), request("1.1.1.1")];
    let tally = upsert_each(&mut repo, &items, Some(42));
    assert_eq!((tally.total, tally.created, tally.updated, tally.failed), (3, 2, 0, 1));
    assert_eq!(tally.errors, strings(&["nothing here: Could not detect IOC type for: nothing here"]));
    let row = repo.get_indicator_by_value("1.1.1.1").unwrap().unwrap();
    assert_eq!(row.source_ids, vec![42]);
    assert_eq!(repo.get_stats_at(0).unwrap().total_indicators, 1);
}

#[test]
fn refresh_feed_stores_what_was_fetched() {
    let mut repo = ThreatIntelRepo::new();
    repo.upsert_source_at(&feed_source(9), 5).unwrap();
    let feed = Feed { configured: true, answer: Ok(vec!["1.2.3.4", "", "evil.example"]) };
    let result = refresh_feed(&mut repo, &feed, 9);
    assert_eq!(result.source, "test_feed");
    assert_eq!(result.indicators.len(), 3);
    assert_eq!(result.errors, strings(&[": Could not detect IOC type for: "]));
    assert_eq!(repo.get_indicator_by_value("1.2.3.4").unwrap().unwrap().source_ids, vec![9]);
    assert!(repo.get_indicator_by_value("evil.example").unwrap().is_some());
    let source = repo.get_enabled_sources().unwrap().remove(0);
    assert!(source.last_fetch.unwrap() > 5);
}

#[test]
fn refresh_feed_passes_over_what_it_cannot_fetch() {
    let mut repo = ThreatIntelRepo::new();
    repo.upsert_source_at(&feed_source(9), 5).unwrap();
    let idle = Feed { configured: false, answer: Ok(vec!["1.2.3.4"]) };
    let result = refresh_feed(&mut repo, &idle, 9);
    assert!(result.indicators.is_empty());
    assert!(result.errors.is_empty());
    let broken = Feed { configured: true, answer: Err("timeout") };
    let result = refresh_feed(&mut repo, &broken, 9);
    assert!(result.indicators.is_empty());
    assert_eq!(result.errors, strings(&["timeout"]));
    assert_eq!(repo.get_stats_at(0).unwrap().total_indicators, 0);
    assert_eq!(repo.get_enabled_sources().unwrap()[0].last_fetch, None);
}

#[test]
fn ingest_feed_takes_in_a_fetch_or_reports_its_failure() {
    let mut repo = ThreatIntelRepo::new();
    repo.upsert_source_at(&feed_source(9), 5).unwrap();
    let failed = ingest_feed(&mut repo, "f".to_string(), Err("down".to_string()), 9);
    assert_eq!(failed.source, "f");
    assert!(failed.indicators.is_empty());
    assert_eq!(failed.errors, strings(&["down"]));
    assert_eq!(repo.get_enabled_sources().unwrap()[0].last_fetch, None);
    let fetched = Ok(vec![request("9.9.9.9"), request("9.9.9.9")]);
    let taken = ingest_feed(&mut repo, "f".to_string(), fetched, 9);
    assert_eq!(taken.indicators.len(), 2);
    assert!(taken.errors.is_empty());
    assert_eq!(repo.get_stats_at(0).unwrap().total_indicators, 1);
    assert_eq!(repo.get_indicator_by_value("9.9.9.9").unwrap().unwrap().source_ids, vec![9]);
    assert!(repo.get_enabled_sources().unwrap()[0].last_fetch.is_some());
    // nothing fetched: the fetch is noted all the same
    let mut other = ThreatIntelRepo::new();
    other.upsert_source_at(&feed_source(9), 5).unwrap();
    let nothing = ingest_feed(&mut other, "f".to_string(), Ok(vec![]), 9);
    assert!(nothing.indicators.is_empty());
    assert!(other.get_enabled_sources().unwrap()[0].last_fetch.is_some());
}
