use sentinelforge::enrichment::abuseipdb::categories::{PORT_SCAN, SSH};
use sentinelforge::enrichment::abuseipdb::{
    check_url as abuse_check_url, document as abuse_document, join_categories, report_form,
    report_url, AbuseIpDbData,
};
use sentinelforge::enrichment::dns::{domain_document, reverse_document};
use sentinelforge::enrichment::geoip::{can_look_up, document as geoip_document};
use sentinelforge::enrichment::virustotal::{
    classify_status, detection_ratio, enrichment_of, failure_message, lookup_url,
    not_found_document, report_document, Answer, VtAnalysisStats, VtAttributes, VtVotes,
};
use sentinelforge::enrichment::whois::{document as whois_document, parse_whois_response, WhoisProvider};
use sentinelforge::enrichment::{
    collect_results, EnrichmentEngine, EnrichmentProvider, Outcome, ProviderKind, ProviderRun,
};
use sentinelforge::json::JsonValue;
use sentinelforge::models::{DnsData, GeoIpData, Indicator, IocType, Severity, Tlp, WhoisData};

struct Fixed {
    kind: ProviderKind,
    answer: Result<Option<i64>, String>,
}

impl EnrichmentProvider for Fixed {
    fn name(&self) -> &'static str {
        self.kind.name()
    }

    fn enrichment_type(&self) -> &'static str {
        self.kind.enrichment_type()
    }

    fn supports(&self, ioc_type: &IocType) -> bool {
        self.kind.supports(ioc_type)
    }

    fn enrich(&self, _indicator: &Indicator) -> Result<Option<JsonValue>, String> {
        match &self.answer {
            Ok(Some(n)) => Ok(Some(JsonValue::Int(*n))),
            Ok(None) => Ok(None),
            Err(e) => Err(e.clone()),
        }
    }

    fn ttl_hours(&self) -> i64 {
        self.kind.ttl_hours()
    }
}

struct Plain;

impl EnrichmentProvider for Plain {
    fn name(&self) -> &'static str {
        "plain"
    }

    fn enrichment_type(&self) -> &'static str {
        "note"
    }

    fn supports(&self, _ioc_type: &IocType) -> bool {
        true
    }

    fn enrich(&self, indicator: &Indicator) -> Result<Option<JsonValue>, String> {
        Ok(Some(JsonValue::text(&indicator.value)))
    }
}

struct Told {
    hours: i64,
}

impl EnrichmentProvider for Told {
    fn name(&self) -> &'static str {
        "told"
    }

    fn enrichment_type(&self) -> &'static str {
        "echo"
    }

    fn supports(&self, ioc_type: &IocType) -> bool {
        *ioc_type == IocType::Domain
    }

    fn enrich(&self, indicator: &Indicator) -> Result<Option<JsonValue>, String> {
        Ok(Some(JsonValue::Text(indicator.value.clone())))
    }

    fn ttl_hours(&self) -> i64 {
        self.hours
    }
}

fn indicator(kind: IocType, value: &str) -> Indicator {
    Indicator {
        id: 1,
        ioc_type: kind,
        value: value.to_string(),
        severity: Severity::Unknown,
        confidence: 50,
        threat_score: 50,
        tlp: Tlp::Amber,
        first_seen: 0,
        last_seen: 0,
        expiration: None,
        tags: vec![],
        source_ids: vec![],
        created_at: 0,
        updated_at: 0,
    }
}

fn shown(v: &JsonValue) -> String {
    format!("{:?}", v)
}

fn object(members: Vec<(&str, JsonValue)>) -> JsonValue {
    JsonValue::Object(members.into_iter().map(|(k, v)| (k.to_string(), v)).collect())
}

fn texts(items: &[&str]) -> JsonValue {
    JsonValue::List(items.iter().map(|s| JsonValue::Text(s.to_string())).collect())
}

#[test]
fn provider_table() {
    let all = [
        ProviderKind::GeoIp,
        ProviderKind::Dns,
        ProviderKind::Whois,
        ProviderKind::AbuseIpDb,
        ProviderKind::VirusTotal,
    ];
    let names: Vec<&str> = all.iter().map(|k| k.name()).collect();
    assert_eq!(names, vec!["maxmind", "dns", "whois", "abuseipdb", "virustotal"]);
    let types: Vec<&str> = all.iter().map(|k| k.enrichment_type()).collect();
    assert_eq!(types, vec!["geoip", "dns", "whois", "reputation", "reputation"]);
    let ttls: Vec<i64> = all.iter().map(|k| k.ttl_hours()).collect();
    assert_eq!(ttls, vec![168, 24, 168, 12, 12]);
    let kinds = [
        IocType::Ip,
        IocType::Domain,
        IocType::Url,
        IocType::Hash,
        IocType::Email,
        IocType::Cve,
    ];
    let support = |k: ProviderKind| -> Vec<bool> { kinds.iter().map(|t| k.supports(t)).collect() };
    assert_eq!(support(ProviderKind::GeoIp), vec![true, false, false, false, false, false]);
    assert_eq!(support(ProviderKind::Dns), vec![true, true, false, false, false, false]);
    assert_eq!(support(ProviderKind::Whois), vec![false, true, false, false, false, false]);
    assert_eq!(support(ProviderKind::AbuseIpDb), vec![true, false, false, false, false, false]);
    assert_eq!(support(ProviderKind::VirusTotal), vec![true, true, true, true, false, false]);
}

#[test]
fn coordinator_isolates_failures_and_skips_unsupported() {
    let mut engine = EnrichmentEngine::new();
    engine.add_provider(Fixed { kind: ProviderKind::GeoIp, answer: Ok(Some(7)) });
    engine.add_provider(Fixed { kind: ProviderKind::AbuseIpDb, answer: Err("boom".to_string()) });
    engine.add_provider(Fixed { kind: ProviderKind::Dns, answer: Ok(None) });
    engine.add_provider(Fixed { kind: ProviderKind::Whois, answer: Ok(Some(9)) });
    let results = engine.enrich_all(&indicator(IocType::Ip, "8.8.8.8"));
    assert_eq!(results.len(), 1);
    assert_eq!(results[0].0, "geoip");
    assert_eq!(results[0].1, "maxmind");
    assert_eq!(shown(&results[0].2), shown(&JsonValue::Int(7)));
    assert_eq!(results[0].3, 168);
}

#[test]
fn coordinator_keeps_every_document_in_provider_order() {
    let mut engine = EnrichmentEngine::new();
    engine.add_provider(Fixed { kind: ProviderKind::VirusTotal, answer: Ok(Some(1)) });
    engine.add_provider(Fixed { kind: ProviderKind::AbuseIpDb, answer: Err("down".to_string()) });
    engine.add_provider(Fixed { kind: ProviderKind::Whois, answer: Ok(Some(2)) });
    engine.add_provider(Fixed { kind: ProviderKind::Dns, answer: Ok(Some(3)) });
    let results = engine.enrich_all(&indicator(IocType::Domain, "example.com"));
    let providers: Vec<&str> = results.iter().map(|r| r.1.as_str()).collect();
    assert_eq!(providers, vec!["virustotal", "whois", "dns"]);
    let runs = engine.run_providers(&indicator(IocType::Domain, "example.com"));
    assert_eq!(runs.len(), 4);
    assert!(matches!(runs[1].outcome, Outcome::NotAsked));
    assert!(!runs[1].supported);
    let none = engine.enrich_all(&indicator(IocType::Cve, "CVE-2020-1"));
    assert!(none.is_empty());
}

#[test]
fn coordinator_uses_the_default_ttl() {
    let mut engine = EnrichmentEngine::default();
    assert!(engine.enrich_all(&indicator(IocType::Ip, "1.1.1.1")).is_empty());
    engine.add_provider(Plain);
    let results = engine.enrich_all(&indicator(IocType::Ip, "1.1.1.1"));
    assert_eq!(results.len(), 1);
    assert_eq!(results[0].3, 24);
    assert_eq!(shown(&results[0].2), shown(&JsonValue::text("1.1.1.1")));
}

#[test]
fn collect_results_ignores_answers_of_unsupported_runs() {
    let run = |supported: bool, outcome: Outcome| ProviderRun {
        provider: "p".to_string(),
        enrichment_type: "t".to_string(),
        ttl_hours: 5,
        supported,
        outcome,
    };
    let results = collect_results(vec![
        run(false, Outcome::Data(JsonValue::Int(1))),
        run(true, Outcome::Failed("x".to_string())),
        run(true, Outcome::Data(JsonValue::Int(2))),
        run(true, Outcome::Empty),
        run(true, Outcome::Data(JsonValue::Int(3))),
    ]);
    assert_eq!(results.len(), 2);
    assert_eq!(shown(&results[0].2), shown(&JsonValue::Int(2)));
    assert_eq!(shown(&results[1].2), shown(&JsonValue::Int(3)));
    assert_eq!(results[0].3, 5);
}

#[test]
fn whois_response_is_read_line_by_line() {
    let raw = "% comment\r\n# other comment\n\nDomain Name: EXAMPLE.COM\r\n  Registrar:  First Registrar \nRegistrar: Second\nRegistrant Name: Alice\nregistrant: Bob\nRegistrant Org: Org One\nRegistrant Organization: Org Two\nRegistrant Country: IS\nName Server: NS1.EXAMPLE.COM\nnserver: ns2.example.com\nDomain Status: ok https://icann.org/epp#ok\nStatus: locked\nCreation Date: 2020-01-01\nEmpty:\nno colon here\nUpdated: http://x.example/a:b";
    let data = parse_whois_response(raw);
    assert_eq!(data.registrar, Some("First Registrar".to_string()));
    assert_eq!(data.registrant, Some("Bob".to_string()));
    assert_eq!(data.registrant_org, Some("Org Two".to_string()));
    assert_eq!(data.registrant_country, Some("IS".to_string()));
    assert_eq!(data.name_servers, vec!["ns1.example.com".to_string(), "ns2.example.com".to_string()]);
    assert_eq!(
        data.status,
        vec!["ok https://icann.org/epp#ok".to_string(), "locked".to_string()]
    );
    assert_eq!(data.raw, Some(raw.to_string()));
    assert_eq!(data.creation_date, None);
    assert_eq!(data.expiration_date, None);
    assert_eq!(data.updated_date, None);
}

#[test]
fn whois_document_needs_registrar_or_name_server() {
    assert!(whois_document(&WhoisData::default()).is_none());
    assert!(WhoisProvider::new().interpret("Registrant: Bob\nStatus: ok").is_none());
    assert!(WhoisProvider::default().interpret("").is_none());
    let doc = WhoisProvider::new().interpret("nserver: NS.example\nstatus: ok").unwrap();
    let expected = object(vec![
        ("registrar", JsonValue::Null),
        ("registrant", JsonValue::Null),
        ("registrant_org", JsonValue::Null),
        ("registrant_country", JsonValue::Null),
        ("name_servers", texts(&["ns.example"])),
        ("status", texts(&["ok"])),
    ]);
    assert_eq!(shown(&doc), shown(&expected));
    let doc = WhoisProvider::new().interpret("registrar name: R").unwrap();
    assert_eq!(shown(doc.get("registrar").unwrap()), shown(&JsonValue::text("R")));
}

#[test]
fn dns_documents() {
    let mut data = DnsData::default();
    assert!(domain_document(&data).is_none());
    data.aaaa_records.push("::1".to_string());
    data.txt_records.push("v=spf1".to_string());
    assert!(domain_document(&data).is_none());
    data.mx_records.push("mail.example.".to_string());
    let doc = domain_document(&data).unwrap();
    let expected = object(vec![
        ("a_records", texts(&[])),
        ("aaaa_records", texts(&["::1"])),
        ("mx_records", texts(&["mail.example."])),
        ("txt_records", texts(&["v=spf1"])),
        ("ns_records", texts(&[])),
        ("cname_records", texts(&[])),
    ]);
    assert_eq!(shown(&doc), shown(&expected));
    assert!(reverse_document(&vec![]).is_none());
    let doc = reverse_document(&vec!["dns.google.".to_string()]).unwrap();
    assert_eq!(shown(&doc), shown(&object(vec![("ptr_records", texts(&["dns.google."]))])));
}

#[test]
fn geoip_document_needs_country_or_network() {
    assert!(!can_look_up(false, false));
    assert!(can_look_up(true, false));
    assert!(can_look_up(false, true));
    let mut data = GeoIpData::default();
    data.city = Some("Reykjavik".to_string());
    assert!(geoip_document(&data).is_none());
    data.asn = Some(15169);
    data.latitude = Some("64.1466".to_string());
    data.isp = Some("not shown".to_string());
    let doc = geoip_document(&data).unwrap();
    let expected = object(vec![
        ("country_code", JsonValue::Null),
        ("country_name", JsonValue::Null),
        ("city", JsonValue::text("Reykjavik")),
        ("region", JsonValue::Null),
        ("latitude", JsonValue::Decimal("64.1466".to_string())),
        ("longitude", JsonValue::Null),
        ("asn", JsonValue::Int(15169)),
        ("as_org", JsonValue::Null),
    ]);
    assert_eq!(shown(&doc), shown(&expected));
    let mut by_country = GeoIpData::default();
    by_country.country_code = Some("IS".to_string());
    assert!(geoip_document(&by_country).is_some());
}

#[test]
fn abuseipdb_document_and_report() {
    let data = AbuseIpDbData {
        ip_address: "1.2.3.4".to_string(),
        is_public: true,
        ip_version: 4,
        is_whitelisted: Some(false),
        abuse_confidence_score: 87,
        country_code: Some("NL".to_string()),
        usage_type: None,
        isp: Some("ISP".to_string()),
        domain: None,
        hostnames: vec!["h.example".to_string()],
        total_reports: 12,
        num_distinct_users: 3,
        last_reported_at: None,
    };
    let expected = object(vec![
        ("abuse_confidence_score", JsonValue::Int(87)),
        ("country_code", JsonValue::text("NL")),
        ("usage_type", JsonValue::Null),
        ("isp", JsonValue::text("ISP")),
        ("domain", JsonValue::Null),
        ("hostnames", texts(&["h.example"])),
        ("total_reports", JsonValue::Int(12)),
        ("num_distinct_users", JsonValue::Int(3)),
        ("last_reported_at", JsonValue::Null),
        ("is_whitelisted", JsonValue::Bool(false)),
    ]);
    assert_eq!(shown(&abuse_document(&data)), shown(&expected));
    assert_eq!(join_categories(&vec![]), "");
    assert_eq!(join_categories(&vec![SSH]), "22");
    assert_eq!(join_categories(&vec![PORT_SCAN, SSH, -7, 0, i32::MIN]), "14,22,-7,0,-2147483648");
    assert_eq!(
        report_form("1.2.3.4", &vec![18, 22], Some("brute force")),
        vec![
            ("ip".to_string(), "1.2.3.4".to_string()),
            ("categories".to_string(), "18,22".to_string()),
            ("comment".to_string(), "brute force".to_string()),
        ]
    );
    assert_eq!(report_form("1.2.3.4", &vec![], None).len(), 2);
    assert_eq!(abuse_check_url(), "https://api.abuseipdb.com/api/v2/check");
    assert_eq!(report_url(), "https://api.abuseipdb.com/api/v2/report");
}

#[test]
fn virustotal_lookup_urls() {
    assert_eq!(
        lookup_url(&IocType::Ip, "8.8.8.8").unwrap(),
        "https://www.virustotal.com/api/v3/ip_addresses/8.8.8.8"
    );
    assert_eq!(
        lookup_url(&IocType::Domain, "example.com").unwrap(),
        "https://www.virustotal.com/api/v3/domains/example.com"
    );
    assert_eq!(
        lookup_url(&IocType::Hash, "d41d8cd98f00b204e9800998ecf8427e").unwrap(),
        "https://www.virustotal.com/api/v3/files/d41d8cd98f00b204e9800998ecf8427e"
    );
    // the identifier of a URL is its URL-safe Base64 form without padding
    assert_eq!(
        lookup_url(&IocType::Url, "http://example.com/a?b=c").unwrap(),
        "https://www.virustotal.com/api/v3/urls/aHR0cDovL2V4YW1wbGUuY29tL2E_Yj1j"
    );
    assert_eq!(
        lookup_url(&IocType::Url, "https://x.example/>>>?").unwrap(),
        "https://www.virustotal.com/api/v3/urls/aHR0cHM6Ly94LmV4YW1wbGUvPj4-Pw"
    );
    assert!(lookup_url(&IocType::Email, "a@b.c").is_none());
    assert!(lookup_url(&IocType::Cve, "CVE-2020-1").is_none());
}

#[test]
fn virustotal_answers() {
    assert_eq!(classify_status(404), Answer::Unknown);
    assert_eq!(classify_status(200), Answer::Report);
    assert_eq!(classify_status(299), Answer::Report);
    assert_eq!(classify_status(199), Answer::Failure);
    assert_eq!(classify_status(300), Answer::Failure);
    assert_eq!(classify_status(429), Answer::Failure);
    assert_eq!(classify_status(500), Answer::Failure);
    assert_eq!(failure_message(429, "quota"), "VirusTotal API error: 429 - quota");
    assert!(enrichment_of(not_found_document()).is_none());
    assert_eq!(shown(&not_found_document()), shown(&object(vec![("found", JsonValue::Bool(false))])));
    let kept = enrichment_of(object(vec![("found", JsonValue::Bool(true))])).unwrap();
    assert_eq!(shown(&kept), shown(&object(vec![("found", JsonValue::Bool(true))])));
    assert!(enrichment_of(object(vec![("other", JsonValue::Bool(false))])).is_some());
    assert!(enrichment_of(object(vec![("found", JsonValue::text("false"))])).is_some());
    assert!(enrichment_of(JsonValue::Null).is_some());
}

#[test]
fn virustotal_report_document() {
    let empty = VtAttributes {
        last_analysis_stats: None,
        last_analysis_date: None,
        reputation: None,
        total_votes: None,
        tags: None,
        country: None,
        continent: None,
        asn: None,
        as_owner: None,
        registrar: None,
        creation_date: None,
        meaningful_name: None,
        type_description: None,
        size: None,
    };
    let expected = object(vec![
        ("found", JsonValue::Bool(true)),
        ("reputation", JsonValue::Null),
        ("tags", JsonValue::Null),
    ]);
    assert_eq!(shown(&report_document(&empty)), shown(&expected));
    assert!(enrichment_of(report_document(&empty)).is_some());

    let stats = VtAnalysisStats {
        malicious: 5,
        suspicious: 2,
        harmless: 60,
        undetected: 3,
        timeout: Some(1),
    };
    assert_eq!(detection_ratio(&stats), "7/70");
    let big = VtAnalysisStats {
        malicious: i32::MAX,
        suspicious: i32::MAX,
        harmless: i32::MAX,
        undetected: i32::MAX,
        timeout: None,
    };
    assert_eq!(detection_ratio(&big), "4294967294/8589934588");
    let full = VtAttributes {
        last_analysis_stats: Some(stats),
        last_analysis_date: Some(1),
        reputation: Some(-12),
        total_votes: Some(VtVotes { harmless: 1, malicious: 9 }),
        tags: Some(vec!["trojan".to_string()]),
        country: Some("RU".to_string()),
        continent: Some("EU".to_string()),
        asn: Some(64512),
        as_owner: Some("Owner".to_string()),
        registrar: Some("Reg".to_string()),
        creation_date: Some(2),
        meaningful_name: Some("a.exe".to_string()),
        type_description: Some("Win32 EXE".to_string()),
        size: Some(1024),
    };
    let expected = object(vec![
        ("found", JsonValue::Bool(true)),
        ("reputation", JsonValue::Int(-12)),
        ("tags", texts(&["trojan"])),
        (
            "analysis",
            object(vec![
                ("malicious", JsonValue::Int(5)),
                ("suspicious", JsonValue::Int(2)),
                ("harmless", JsonValue::Int(60)),
                ("undetected", JsonValue::Int(3)),
                ("detection_ratio", JsonValue::text("7/70")),
            ]),
        ),
        ("votes", object(vec![("harmless", JsonValue::Int(1)), ("malicious", JsonValue::Int(9))])),
        ("country", JsonValue::text("RU")),
        ("asn", JsonValue::Int(64512)),
        ("as_owner", JsonValue::text("Owner")),
        ("registrar", JsonValue::text("Reg")),
        ("meaningful_name", JsonValue::text("a.exe")),
        ("type_description", JsonValue::text("Win32 EXE")),
        ("size", JsonValue::Int(1024)),
    ]);
    assert_eq!(shown(&report_document(&full)), shown(&expected));
}

#[test]
fn whois_provider_says_what_it_is() {
    let provider = WhoisProvider::new();
    assert_eq!(provider.kind(), ProviderKind::Whois);
    assert_eq!(provider.name(), "whois");
    assert_eq!(provider.enrichment_type(), "whois");
    assert_eq!(provider.ttl_hours(), 168);
    assert!(provider.supports(&IocType::Domain));
    for kind in [IocType::Ip, IocType::Url, IocType::Hash, IocType::Email, IocType::Cve] {
        assert!(!provider.supports(&kind));
    }
}

#[test]
fn virustotal_asks_for_a_url_of_any_length() {
    let mut url = String::from("http://example.com/");
    while url.len() < 300_000 {
        url.push_str("abcdefghij");
    }
    let address = lookup_url(&IocType::Url, &url).unwrap();
    let head = "https://www.virustotal.com/api/v3/urls/";
    assert!(address.starts_with(head));
    // four characters for each three bytes, and no padding
    assert_eq!(address.len(), head.len() + (url.len() * 4 + 2) / 3);
    assert!(address[head.len()..].starts_with("aHR0cDovL2V4YW1wbGUuY29tL2FiY2RlZmdoaWph"));
}

#[test]
fn coordinator_hands_each_provider_the_indicator() {
    let mut engine: EnrichmentEngine<Told> = EnrichmentEngine::new();
    engine.add_provider(Told { hours: 7 });
    engine.add_provider(Told { hours: 9 });
    let runs = engine.run_providers(&indicator(IocType::Domain, "example.com"));
    assert_eq!(runs.len(), 2);
    assert_eq!(runs[0].ttl_hours, 7);
    assert_eq!(runs[1].ttl_hours, 9);
    for run in runs.iter() {
        assert_eq!(run.provider, "told");
        assert_eq!(run.enrichment_type, "echo");
        assert!(run.supported);
        match &run.outcome {
            Outcome::Data(JsonValue::Text(s)) => assert_eq!(s, "example.com"),
            _ => panic!("the provider answered with the value"),
        }
    }
    let runs = engine.run_providers(&indicator(IocType::Ip, "8.8.8.8"));
    for run in runs.iter() {
        assert!(!run.supported);
        assert!(matches!(run.outcome, Outcome::NotAsked));
    }
    let results = engine.enrich_all(&indicator(IocType::Domain, "b.example"));
    assert_eq!(results.len(), 2);
    assert_eq!(results[0].3, 7);
    assert_eq!(results[1].3, 9);
    assert_eq!(shown(&results[0].2), shown(&JsonValue::Text("b.example".to_string())));
}
