use sentinelforge::json::JsonValue;
use sentinelforge::models::{
    severity_from_score, CreateIndicatorRequest, IndicatorFilter, IocSource, IocType, Severity, Tlp,
    MICROS_PER_DAY, MICROS_PER_HOUR,
};
use sentinelforge::storage::{
    ErrorKind, ThreatIntelRepo, CLOCK_MAX_MICROS, CLOCK_MIN_MICROS, SURE_DAYS, SURE_HOURS,
};

const T0: i64 = 1_700_000_000_000_000;

fn request(value: &str) -> CreateIndicatorRequest {
    CreateIndicatorRequest {
        value: value.to_string(),
        ioc_type: None,
        severity: None,
        confidence: None,
        tlp: None,
        tags: None,
        source: None,
        expiration_days: None,
    }
}

fn tags(items: &[&str]) -> Option<Vec<String>> {
    Some(items.iter().map(|s| s.to_string()).collect())
}

fn source(id: u128, name: &str, enabled: bool) -> IocSource {
    IocSource {
        id,
        name: name.to_string(),
        source_type: "feed".to_string(),
        url: None,
        api_key_required: false,
        reliability_score: 50,
        enabled,
        last_fetch: Some(1),
        created_at: 0,
        updated_at: 0,
    }
}

#[test]
fn severity_from_score_boundaries() {
    assert_eq!(severity_from_score(0), Severity::Low);
    assert_eq!(severity_from_score(20), Severity::Low);
    assert_eq!(severity_from_score(21), Severity::Medium);
    assert_eq!(severity_from_score(50), Severity::Medium);
    assert_eq!(severity_from_score(51), Severity::High);
    assert_eq!(severity_from_score(80), Severity::High);
    assert_eq!(severity_from_score(81), Severity::Critical);
    assert_eq!(severity_from_score(100), Severity::Critical);
    assert_eq!(severity_from_score(101), Severity::Unknown);
    assert_eq!(severity_from_score(-1), Severity::Unknown);
    assert_eq!(severity_from_score(i32::MAX), Severity::Unknown);
    assert_eq!(severity_from_score(i32::MIN), Severity::Unknown);
}

#[test]
fn severity_from_trait_agrees() {
    for score in -5..=110 {
        assert_eq!(Severity::from(score), severity_from_score(score));
    }
}

#[test]
fn severity_is_monotone_within_range() {
    let mut last = severity_from_score(0).ordinal();
    for score in 1..=100 {
        let now = severity_from_score(score).ordinal();
        assert!(now >= last);
        last = now;
    }
    assert_eq!(last, 4);
}

#[test]
fn severity_order_and_names() {
    assert!(Severity::Unknown.ordinal() < Severity::Low.ordinal());
    assert!(Severity::Low.ordinal() < Severity::Medium.ordinal());
    assert!(Severity::Medium.ordinal() < Severity::High.ordinal());
    assert!(Severity::High.ordinal() < Severity::Critical.ordinal());
    assert_eq!(Severity::High.max(Severity::Low), Severity::High);
    assert_eq!(Severity::Low.max(Severity::High), Severity::High);
    assert_eq!(Severity::Critical.as_str(), "critical");
    assert_eq!(IocType::Domain.to_string(), "domain");
    assert_eq!(IocType::Cve.as_str(), "cve");
    assert_eq!(Tlp::default(), Tlp::Amber);
    assert_eq!(Tlp::White.as_str(), "white");
}

#[test]
fn create_then_merge_keeps_the_higher_values() {
    let mut repo = ThreatIntelRepo::new();
    let first = repo.upsert_indicator_at(&request("8.8.8.8"), None, 1, T0).unwrap();
    assert_eq!(first.ioc_type, IocType::Ip);
    assert_eq!(first.value, "8.8.8.8");
    assert_eq!(first.severity, Severity::Unknown);
    assert_eq!(first.confidence, 50);
    assert_eq!(first.threat_score, 50);
    assert_eq!(first.tlp, Tlp::Amber);
    assert_eq!(first.first_seen, T0);
    assert_eq!(first.last_seen, T0);
    assert_eq!(first.created_at, T0);
    assert_eq!(first.updated_at, T0);
    assert_eq!(first.expiration, None);
    assert!(first.tags.is_empty());

    let mut again = request("8.8.8.8");
    again.severity = Some(Severity::High);
    again.confidence = Some(30);
    again.tags = tags(&["botnet"]);
    let merged = repo.upsert_indicator_at(&again, None, 2, T0 + 5).unwrap();
    assert_eq!(merged.id, 1);
    assert_eq!(merged.severity, Severity::High);
    assert_eq!(merged.confidence, 50);
    assert!(merged.tags.contains(&"botnet".to_string()));
    assert_eq!(merged.first_seen, T0);
    assert_eq!(merged.last_seen, T0 + 5);
    assert_eq!(merged.updated_at, T0 + 5);
    assert_eq!(merged.created_at, T0);
    assert_eq!(merged.threat_score, 50);
    assert_eq!(merged.tlp, Tlp::Amber);

    let all = repo.search_indicators(&IndicatorFilter::default()).unwrap();
    assert_eq!(all.total, 1);
}

#[test]
fn explicit_type_is_normalized_and_found_by_any_spelling() {
    let mut repo = ThreatIntelRepo::new();
    let mut req = request("  EXAMPLE.com ");
    req.ioc_type = Some(IocType::Domain);
    let row = repo.upsert_indicator_at(&req, None, 7, T0).unwrap();
    assert_eq!(row.value, "example.com");
    let found = repo.get_indicator_by_value("Example.COM").unwrap().unwrap();
    assert_eq!(found.id, 7);
    let canonical = repo.get_indicator_by_value("example.com").unwrap().unwrap();
    assert_eq!(canonical.id, 7);
    assert!(repo.get_indicator_by_value("other.example").unwrap().is_none());
}

#[test]
fn lookup_of_an_unclassifiable_value_is_literal() {
    let mut repo = ThreatIntelRepo::new();
    let mut req = request("Some Actor");
    req.ioc_type = Some(IocType::Domain);
    let row = repo.upsert_indicator_at(&req, None, 3, T0).unwrap();
    assert_eq!(row.value, "some actor");
    assert_eq!(repo.get_indicator_by_value("some actor").unwrap().unwrap().id, 3);
    assert!(repo.get_indicator_by_value("Some Actor").unwrap().is_none());
}

#[test]
fn upsert_rejects_what_it_cannot_classify() {
    let mut repo = ThreatIntelRepo::new();
    let err = repo.upsert_indicator_at(&request(""), None, 1, T0).unwrap_err();
    assert_eq!(err.kind, ErrorKind::Validation);
    assert_eq!(err.message, "Could not detect IOC type for: ");
    assert_eq!(err.to_string(), "Could not detect IOC type for: ");
    let err = repo.upsert_indicator_at(&request("not an indicator"), None, 1, T0).unwrap_err();
    assert_eq!(err.kind, ErrorKind::Validation);
    assert_eq!(err.message, "Could not detect IOC type for: not an indicator");
    assert_eq!(repo.search_indicators(&IndicatorFilter::default()).unwrap().total, 0);
}

#[test]
fn upsert_rejects_an_expiration_out_of_range() {
    let mut repo = ThreatIntelRepo::new();
    let mut req = request("8.8.8.8");
    req.expiration_days = Some(i32::MAX);
    let err = repo.upsert_indicator_at(&req, None, 1, i64::MAX - 10).unwrap_err();
    assert_eq!(err.kind, ErrorKind::Validation);
    req.expiration_days = Some(30);
    let row = repo.upsert_indicator_at(&req, None, 1, T0).unwrap();
    assert_eq!(row.expiration, Some(T0 + 30 * MICROS_PER_DAY));
    assert_eq!(MICROS_PER_DAY, 86_400_000_000);
}

#[test]
fn upsert_rejects_an_identifier_in_use() {
    let mut repo = ThreatIntelRepo::new();
    repo.upsert_indicator_at(&request("8.8.8.8"), None, 1, T0).unwrap();
    let err = repo.upsert_indicator_at(&request("9.9.9.9"), None, 1, T0).unwrap_err();
    assert_eq!(err.kind, ErrorKind::Storage);
    // a merge does not need the identifier
    assert!(repo.upsert_indicator_at(&request("8.8.8.8"), None, 1, T0).is_ok());
}

#[test]
fn repeated_upserts_accumulate_tags_and_sources_as_sets() {
    let mut repo = ThreatIntelRepo::new();
    let mut a = request("evil.example");
    a.tags = tags(&["x", "y", "x"]);
    a.severity = Some(Severity::Medium);
    a.confidence = Some(10);
    let row = repo.upsert_indicator_at(&a, Some(100), 1, T0).unwrap();
    assert_eq!(row.tags, vec!["x".to_string(), "y".to_string()]);
    assert_eq!(row.source_ids, vec![100]);

    let mut b = request("EVIL.example");
    b.tags = tags(&["y", "z"]);
    b.severity = Some(Severity::Low);
    b.confidence = Some(70);
    let row = repo.upsert_indicator_at(&b, Some(200), 2, T0 + 1).unwrap();
    assert_eq!(row.tags, vec!["x".to_string(), "y".to_string(), "z".to_string()]);
    assert_eq!(row.source_ids, vec![100, 200]);
    assert_eq!(row.severity, Severity::Medium);
    assert_eq!(row.confidence, 70);

    let mut c = request("evil.example");
    c.severity = Some(Severity::Critical);
    let row = repo.upsert_indicator_at(&c, Some(100), 3, T0 + 2).unwrap();
    assert_eq!(row.tags.len(), 3);
    assert_eq!(row.source_ids, vec![100, 200]);
    assert_eq!(row.severity, Severity::Critical);
    assert_eq!(row.confidence, 70);
    assert_eq!(row.id, 1);
}

#[test]
fn upsert_with_clock_and_random_identifier() {
    let mut repo = ThreatIntelRepo::new();
    let a = repo.upsert_indicator(&request("8.8.8.8"), None).unwrap();
    let b = repo.upsert_indicator(&request("9.9.9.9"), None).unwrap();
    assert_ne!(a.id, b.id);
    // after 2020 and before 2100, in microseconds
    assert!(a.first_seen > 1_577_836_800_000_000);
    assert!(a.first_seen < 4_102_444_800_000_000);
    assert!(b.first_seen >= a.first_seen);
    let again = repo.upsert_indicator(&request("8.8.8.8"), None).unwrap();
    assert_eq!(again.id, a.id);
    assert!(again.last_seen >= a.last_seen);
    let err = repo.upsert_indicator(&request(""), None).unwrap_err();
    assert_eq!(err.kind, ErrorKind::Validation);
}

#[test]
fn merge_with_the_clock_succeeds_and_keeps_the_row() {
    let mut repo = ThreatIntelRepo::new();
    let mut first = request(" Example.COM ");
    first.severity = Some(Severity::High);
    first.confidence = Some(80);
    first.tags = tags(&["a", "b"]);
    first.expiration_days = Some(30);
    let created = repo.upsert_indicator_at(&first, Some(7), 5, T0).unwrap();
    let mut second = request("example.com");
    second.severity = Some(Severity::Low);
    second.confidence = Some(90);
    second.tags = tags(&["b", "c"]);
    second.expiration_days = Some(SURE_DAYS);
    let merged = repo.upsert_indicator(&second, Some(8)).unwrap();
    assert_eq!(merged.id, 5);
    assert_eq!(merged.ioc_type, IocType::Domain);
    assert_eq!(merged.value, "example.com");
    assert_eq!(merged.severity, Severity::High);
    assert_eq!(merged.confidence, 90);
    assert_eq!(merged.tags, vec!["a", "b", "c"]);
    assert_eq!(merged.source_ids, vec![7, 8]);
    assert_eq!(merged.expiration, created.expiration);
    assert_eq!(merged.first_seen, T0);
    assert_eq!(merged.created_at, T0);
    assert_eq!(merged.threat_score, created.threat_score);
    assert_eq!(merged.last_seen, merged.updated_at);
    assert!(CLOCK_MIN_MICROS <= merged.last_seen && merged.last_seen <= CLOCK_MAX_MICROS);
    let third = repo.upsert_indicator(&request("EXAMPLE.com"), None).unwrap();
    assert_eq!(third.id, 5);
    assert_eq!(third.severity, Severity::High);
    assert_eq!(third.confidence, 90);
    assert_eq!(third.tags, vec!["a", "b", "c"]);
    assert_eq!(third.source_ids, vec![7, 8]);
}

#[test]
fn an_expiration_that_is_sure_fits_at_the_time_of_the_call() {
    let mut repo = ThreatIntelRepo::new();
    let mut far = request("8.8.8.8");
    far.expiration_days = Some(SURE_DAYS);
    let row = repo.upsert_indicator(&far, None).unwrap();
    assert_eq!(
        row.expiration,
        Some(row.first_seen + (SURE_DAYS as i64) * MICROS_PER_DAY)
    );
    let mut past = request("9.9.9.9");
    past.expiration_days = Some(-SURE_DAYS);
    let row = repo.upsert_indicator(&past, None).unwrap();
    assert_eq!(
        row.expiration,
        Some(row.first_seen - (SURE_DAYS as i64) * MICROS_PER_DAY)
    );
    let kept = repo
        .add_enrichment(row.id, "geoip", "maxmind", JsonValue::Null, Some(SURE_HOURS))
        .unwrap();
    assert_eq!(
        kept.expires_at,
        Some(kept.fetched_at + SURE_HOURS * MICROS_PER_HOUR)
    );
}

#[test]
fn get_indicator_by_identifier() {
    let mut repo = ThreatIntelRepo::new();
    repo.upsert_indicator_at(&request("8.8.8.8"), None, 11, T0).unwrap();
    assert_eq!(repo.get_indicator(11).unwrap().unwrap().value, "8.8.8.8");
    assert!(repo.get_indicator(12).unwrap().is_none());
}

#[test]
fn add_sighting_twice_counts_two_and_moves_last_seen() {
    let mut repo = ThreatIntelRepo::new();
    repo.upsert_indicator_at(&request("8.8.8.8"), None, 1, T0).unwrap();
    assert_eq!(repo.count_sightings(1).unwrap(), 0);
    let first = repo.add_sighting_at(1, "sensor", None, 50, T0 + 10).unwrap();
    assert_eq!(first.observed_at, T0 + 10);
    assert_eq!(first.created_at, T0 + 10);
    assert_eq!(first.source, "sensor");
    let second = repo
        .add_sighting_at(1, "manual", Some(JsonValue::text("seen in logs")), 51, T0 + 20)
        .unwrap();
    assert_eq!(repo.count_sightings(1).unwrap(), 2);
    let row = repo.get_indicator(1).unwrap().unwrap();
    assert_eq!(row.last_seen, second.observed_at);
    assert_eq!(row.last_seen, T0 + 20);
    assert!(row.last_seen >= first.observed_at);
    assert!(row.updated_at >= row.last_seen);
    assert_eq!(row.first_seen, T0);
    assert_eq!(repo.count_sightings(2).unwrap(), 0);
}

#[test]
fn add_sighting_of_a_missing_indicator_is_not_found() {
    let mut repo = ThreatIntelRepo::new();
    let err = repo.add_sighting_at(9, "sensor", None, 1, T0).unwrap_err();
    assert_eq!(err.kind, ErrorKind::NotFound);
    assert_eq!(repo.count_sightings(9).unwrap(), 0);
    let err = repo.add_sighting(9, "sensor", None).unwrap_err();
    assert_eq!(err.kind, ErrorKind::NotFound);
}

#[test]
fn add_sighting_with_clock() {
    let mut repo = ThreatIntelRepo::new();
    repo.upsert_indicator_at(&request("8.8.8.8"), None, 1, 0).unwrap();
    let s = repo.add_sighting(1, "sensor", None).unwrap();
    let row = repo.get_indicator(1).unwrap().unwrap();
    assert!(row.last_seen >= s.observed_at);
    assert!(s.observed_at > 1_577_836_800_000_000);
}

#[test]
fn update_threat_score_sets_severity() {
    let mut repo = ThreatIntelRepo::new();
    repo.upsert_indicator_at(&request("8.8.8.8"), None, 1, T0).unwrap();
    repo.update_threat_score_at(1, 85, T0 + 9).unwrap();
    let row = repo.get_indicator(1).unwrap().unwrap();
    assert_eq!(row.threat_score, 85);
    assert_eq!(row.severity, Severity::Critical);
    assert_eq!(row.updated_at, T0 + 9);
    assert_eq!(row.confidence, 50);
    repo.update_threat_score_at(1, 101, T0 + 10).unwrap();
    assert_eq!(repo.get_indicator(1).unwrap().unwrap().severity, Severity::Unknown);
    // no such row: nothing happens
    repo.update_threat_score_at(2, 10, T0 + 11).unwrap();
    assert!(repo.get_indicator(2).unwrap().is_none());
    repo.update_threat_score(1, 30).unwrap();
    assert_eq!(repo.get_indicator(1).unwrap().unwrap().severity, Severity::Medium);
}

#[test]
fn delete_expired_removes_exactly_the_expired() {
    let mut repo = ThreatIntelRepo::new();
    let mut short = request("1.1.1.1");
    short.expiration_days = Some(1);
    let mut long = request("2.2.2.2");
    long.expiration_days = Some(10);
    repo.upsert_indicator_at(&short, None, 1, T0).unwrap();
    repo.upsert_indicator_at(&long, None, 2, T0).unwrap();
    repo.upsert_indicator_at(&request("3.3.3.3"), None, 3, T0).unwrap();
    // exactly at the expiration nothing has expired yet
    assert_eq!(repo.delete_expired_at(T0 + MICROS_PER_DAY).unwrap(), 0);
    assert_eq!(repo.delete_expired_at(T0 + MICROS_PER_DAY + 1).unwrap(), 1);
    assert!(repo.get_indicator(1).unwrap().is_none());
    assert!(repo.get_indicator(2).unwrap().is_some());
    assert!(repo.get_indicator(3).unwrap().is_some());
    assert_eq!(repo.delete_expired_at(T0 + 11 * MICROS_PER_DAY).unwrap(), 1);
    assert!(repo.get_indicator(2).unwrap().is_none());
    assert!(repo.get_indicator(3).unwrap().is_some());
    assert_eq!(repo.delete_expired().unwrap(), 0);
}

#[test]
fn search_filters_combine() {
    let mut repo = ThreatIntelRepo::new();
    let mut a = request("alpha.example");
    a.severity = Some(Severity::High);
    a.confidence = Some(90);
    a.tags = tags(&["botnet", "c2"]);
    let mut b = request("10.0.0.1");
    b.severity = Some(Severity::High);
    b.confidence = Some(40);
    b.tags = tags(&["botnet"]);
    let mut c = request("beta.example");
    c.severity = Some(Severity::Low);
    c.confidence = Some(95);
    repo.upsert_indicator_at(&a, Some(7), 1, T0).unwrap();
    repo.upsert_indicator_at(&b, None, 2, T0 + 1).unwrap();
    repo.upsert_indicator_at(&c, Some(8), 3, T0 + 2).unwrap();
    repo.update_threat_score_at(3, 10, T0 + 2).unwrap();

    let mut f = IndicatorFilter::default();
    f.ioc_type = Some(IocType::Domain);
    let page = repo.search_indicators(&f).unwrap();
    assert_eq!(page.total, 2);
    assert_eq!(page.data.iter().map(|r| r.id).collect::<Vec<u128>>(), vec![3, 1]);

    let mut f = IndicatorFilter::default();
    f.severity = Some(Severity::High);
    f.min_confidence = Some(50);
    let page = repo.search_indicators(&f).unwrap();
    assert_eq!(page.data.iter().map(|r| r.id).collect::<Vec<u128>>(), vec![1]);

    let mut f = IndicatorFilter::default();
    f.tags = tags(&["botnet"]);
    assert_eq!(repo.search_indicators(&f).unwrap().total, 2);
    f.tags = tags(&["botnet", "c2"]);
    assert_eq!(repo.search_indicators(&f).unwrap().total, 1);
    f.tags = tags(&[]);
    assert_eq!(repo.search_indicators(&f).unwrap().total, 3);

    let mut f = IndicatorFilter::default();
    f.source_id = Some(8);
    assert_eq!(repo.search_indicators(&f).unwrap().data[0].id, 3);

    let mut f = IndicatorFilter::default();
    f.min_threat_score = Some(50);
    assert_eq!(repo.search_indicators(&f).unwrap().total, 1);

    let mut f = IndicatorFilter::default();
    f.first_seen_after = Some(T0 + 1);
    f.first_seen_before = Some(T0 + 1);
    assert_eq!(repo.search_indicators(&f).unwrap().data[0].id, 2);

    let mut f = IndicatorFilter::default();
    f.search = Some("EXAMPLE".to_string());
    assert_eq!(repo.search_indicators(&f).unwrap().total, 2);
    f.search = Some("".to_string());
    assert_eq!(repo.search_indicators(&f).unwrap().total, 3);
    f.search = Some("nothing".to_string());
    assert_eq!(repo.search_indicators(&f).unwrap().total, 0);
}

#[test]
fn search_pages_and_orders() {
    let mut repo = ThreatIntelRepo::new();
    // identifiers 5, 4, 3 seen at the same time, 2 and 1 later
    repo.upsert_indicator_at(&request("10.0.0.5"), None, 5, T0).unwrap();
    repo.upsert_indicator_at(&request("10.0.0.4"), None, 4, T0).unwrap();
    repo.upsert_indicator_at(&request("10.0.0.3"), None, 3, T0).unwrap();
    repo.upsert_indicator_at(&request("10.0.0.2"), None, 2, T0 + 1).unwrap();
    repo.upsert_indicator_at(&request("10.0.0.1"), None, 1, T0 + 2).unwrap();

    let page = repo.search_indicators(&IndicatorFilter::default()).unwrap();
    assert_eq!(page.page, 1);
    assert_eq!(page.per_page, 50);
    assert_eq!(page.total, 5);
    assert_eq!(page.total_pages, 1);
    assert_eq!(page.data.iter().map(|r| r.id).collect::<Vec<u128>>(), vec![1, 2, 3, 4, 5]);

    let mut f = IndicatorFilter::default();
    f.per_page = Some(2);
    f.page = Some(2);
    let page = repo.search_indicators(&f).unwrap();
    assert_eq!(page.total_pages, 3);
    assert_eq!(page.data.iter().map(|r| r.id).collect::<Vec<u128>>(), vec![3, 4]);
    f.page = Some(3);
    assert_eq!(repo.search_indicators(&f).unwrap().data.len(), 1);
    f.page = Some(4);
    assert_eq!(repo.search_indicators(&f).unwrap().data.len(), 0);
    f.page = Some(i64::MAX);
    assert_eq!(repo.search_indicators(&f).unwrap().data.len(), 0);

    f.page = Some(-3);
    f.per_page = Some(0);
    let page = repo.search_indicators(&f).unwrap();
    assert_eq!(page.page, 1);
    assert_eq!(page.per_page, 1);
    assert_eq!(page.total_pages, 5);
    assert_eq!(page.data.len(), 1);

    f.per_page = Some(5000);
    let page = repo.search_indicators(&f).unwrap();
    assert_eq!(page.per_page, 1000);
    assert_eq!(page.total_pages, 1);

    let empty = ThreatIntelRepo::new().search_indicators(&IndicatorFilter::default()).unwrap();
    assert_eq!(empty.total, 0);
    assert_eq!(empty.total_pages, 0);
}

#[test]
fn enrichments_replace_by_key_and_list_newest_first() {
    let mut repo = ThreatIntelRepo::new();
    let a = repo
        .add_enrichment_at(1, "geoip", "maxmind", JsonValue::text("old"), Some(168), 10, T0)
        .unwrap();
    assert_eq!(a.fetched_at, T0);
    assert_eq!(a.expires_at, Some(T0 + 168 * MICROS_PER_HOUR));
    repo.add_enrichment_at(1, "dns", "dns", JsonValue::Null, None, 11, T0 + 5).unwrap();
    repo.add_enrichment_at(2, "geoip", "maxmind", JsonValue::Null, None, 12, T0 + 6).unwrap();
    let b = repo
        .add_enrichment_at(1, "geoip", "maxmind", JsonValue::text("new"), None, 13, T0 + 9)
        .unwrap();
    assert_eq!(b.id, 10);
    assert_eq!(b.expires_at, None);
    assert_eq!(b.fetched_at, T0 + 9);
    let list = repo.get_enrichments(1).unwrap();
    assert_eq!(list.len(), 2);
    assert_eq!(list[0].enrichment_type, "geoip");
    assert_eq!(format!("{:?}", list[0].data), format!("{:?}", JsonValue::text("new")));
    assert_eq!(list[1].enrichment_type, "dns");
    assert_eq!(repo.get_enrichments(2).unwrap().len(), 1);
    assert_eq!(repo.get_enrichments(3).unwrap().len(), 0);
}

#[test]
fn enrichments_are_listed_even_when_stale() {
    let mut repo = ThreatIntelRepo::new();
    repo.add_enrichment_at(1, "dns", "dns", JsonValue::Null, Some(1), 5, 0).unwrap();
    // long after its expiry it is still there
    assert_eq!(repo.get_enrichments(1).unwrap().len(), 1);
    assert_eq!(repo.get_enrichments(1).unwrap()[0].expires_at, Some(MICROS_PER_HOUR));
}

#[test]
fn enrichment_expiry_out_of_range_is_refused() {
    let mut repo = ThreatIntelRepo::new();
    let err = repo
        .add_enrichment_at(1, "dns", "dns", JsonValue::Null, Some(i64::MAX), 5, T0)
        .unwrap_err();
    assert_eq!(err.kind, ErrorKind::Validation);
    assert_eq!(repo.get_enrichments(1).unwrap().len(), 0);
    let ok = repo.add_enrichment(1, "dns", "dns", JsonValue::Null, Some(24)).unwrap();
    assert_eq!(ok.expires_at, Some(ok.fetched_at + 24 * MICROS_PER_HOUR));
}

#[test]
fn sources_upsert_by_name_and_list_enabled_by_name() {
    let mut repo = ThreatIntelRepo::new();
    let made = repo.upsert_source_at(&source(1, "zeta", true), T0).unwrap();
    assert_eq!(made.last_fetch, None);
    assert_eq!(made.created_at, T0);
    repo.upsert_source_at(&source(2, "alpha", true), T0).unwrap();
    repo.upsert_source_at(&source(3, "mid", false), T0).unwrap();
    repo.upsert_source_at(&source(4, "Beta", true), T0).unwrap();
    let names: Vec<String> =
        repo.get_enabled_sources().unwrap().into_iter().map(|s| s.name).collect();
    assert_eq!(names, vec!["Beta".to_string(), "alpha".to_string(), "zeta".to_string()]);

    let mut changed = source(99, "zeta", false);
    changed.url = Some("https://feed.example".to_string());
    changed.reliability_score = 80;
    changed.source_type = "manual".to_string();
    let row = repo.upsert_source_at(&changed, T0 + 3).unwrap();
    assert_eq!(row.id, 1);
    assert_eq!(row.source_type, "feed");
    assert_eq!(row.url, Some("https://feed.example".to_string()));
    assert_eq!(row.reliability_score, 80);
    assert!(!row.enabled);
    assert_eq!(row.created_at, T0);
    assert_eq!(row.updated_at, T0 + 3);
    assert_eq!(repo.get_enabled_sources().unwrap().len(), 2);

    repo.update_source_fetch_time_at(2, T0 + 7).unwrap();
    let alpha = repo.get_enabled_sources().unwrap().into_iter().find(|s| s.id == 2).unwrap();
    assert_eq!(alpha.last_fetch, Some(T0 + 7));
    assert_eq!(alpha.updated_at, T0 + 7);
    repo.update_source_fetch_time_at(77, T0 + 8).unwrap();
    repo.update_source_fetch_time(4).unwrap();
    let beta = repo.get_enabled_sources().unwrap().into_iter().find(|s| s.id == 4).unwrap();
    assert!(beta.last_fetch.unwrap() > T0);
    assert!(repo.upsert_source(&source(5, "new", true)).unwrap().created_at > T0);
}

#[test]
fn stats_count_by_day_and_by_hours() {
    let mut repo = ThreatIntelRepo::new();
    let day = MICROS_PER_DAY;
    let midnight = 19_000 * day;
    let now = midnight + 10 * MICROS_PER_HOUR;
    repo.upsert_indicator_at(&request("10.0.0.1"), None, 1, midnight).unwrap();
    repo.upsert_indicator_at(&request("10.0.0.2"), None, 2, midnight - 1).unwrap();
    repo.upsert_indicator_at(&request("10.0.0.3"), None, 3, now - 7 * day).unwrap();
    repo.upsert_indicator_at(&request("10.0.0.4"), None, 4, now - 7 * day - 1).unwrap();
    repo.upsert_source_at(&source(1, "a", true), 0).unwrap();
    repo.upsert_source_at(&source(2, "b", false), 0).unwrap();
    repo.add_sighting_at(1, "s", None, 1, now - 24 * MICROS_PER_HOUR).unwrap();
    repo.add_sighting_at(1, "s", None, 2, now - 24 * MICROS_PER_HOUR - 1).unwrap();
    repo.add_sighting_at(2, "s", None, 3, now).unwrap();
    let stats = repo.get_stats_at(now).unwrap();
    assert_eq!(stats.total_indicators, 4);
    assert_eq!(stats.new_today, 1);
    assert_eq!(stats.new_this_week, 3);
    assert_eq!(stats.active_sources, 1);
    assert_eq!(stats.recent_sightings, 2);
    assert!(stats.indicators_by_type.is_empty());
    assert!(stats.indicators_by_severity.is_empty());
    assert!(stats.top_tags.is_empty());
    let live = repo.get_stats().unwrap();
    assert_eq!(live.total_indicators, 4);
    assert_eq!(live.new_today, 0);
}

#[test]
fn stats_before_the_epoch_use_the_day_that_holds_the_time() {
    let mut repo = ThreatIntelRepo::new();
    repo.upsert_indicator_at(&request("10.0.0.1"), None, 1, -MICROS_PER_DAY).unwrap();
    repo.upsert_indicator_at(&request("10.0.0.2"), None, 2, -MICROS_PER_DAY - 1).unwrap();
    let stats = repo.get_stats_at(-1).unwrap();
    assert_eq!(stats.new_today, 1);
    assert_eq!(stats.new_this_week, 2);
}
