use sentinelforge::models::ioc_utils::{detect_ioc_type, normalize_ioc};
use sentinelforge::models::IocType;

#[test]
fn detects_cve_in_any_case() {
    assert_eq!(detect_ioc_type("CVE-2021-44228"), Some(IocType::Cve));
    assert_eq!(detect_ioc_type("cve-2021-44228"), Some(IocType::Cve));
    assert_eq!(detect_ioc_type("  Cve-2014-0160 "), Some(IocType::Cve));
}

#[test]
fn detects_hashes_by_length() {
    assert_eq!(detect_ioc_type("d41d8cd98f00b204e9800998ecf8427e"), Some(IocType::Hash));
    assert_eq!(
        detect_ioc_type("DA39A3EE5E6B4B0D3255BFEF95601890AFD80709"),
        Some(IocType::Hash)
    );
    assert_eq!(
        detect_ioc_type("e3b0c44298fc1c149afbf4c8996fb92427ae41e4649b934ca495991b7852b855"),
        Some(IocType::Hash)
    );
    // 31 digits: no hash, and nothing else either
    assert_eq!(detect_ioc_type("d41d8cd98f00b204e9800998ecf8427"), None);
}

#[test]
fn detects_urls_and_emails() {
    assert_eq!(detect_ioc_type("http://example.com/a"), Some(IocType::Url));
    assert_eq!(detect_ioc_type("https://example.com"), Some(IocType::Url));
    assert_eq!(detect_ioc_type("user@example.com"), Some(IocType::Email));
    // the prefix is matched as written
    assert_eq!(detect_ioc_type("HTTP://foo@bar.com"), Some(IocType::Email));
}

#[test]
fn detects_addresses() {
    assert_eq!(detect_ioc_type("8.8.8.8"), Some(IocType::Ip));
    assert_eq!(detect_ioc_type("255.255.255.255"), Some(IocType::Ip));
    assert_eq!(detect_ioc_type("::1"), Some(IocType::Ip));
    assert_eq!(detect_ioc_type("::"), Some(IocType::Ip));
    assert_eq!(detect_ioc_type("2001:db8::ff00:42:8329"), Some(IocType::Ip));
    assert_eq!(detect_ioc_type("1:2:3:4:5:6:7:8"), Some(IocType::Ip));
    assert_eq!(detect_ioc_type("1:2:3:4:5:6:7::"), Some(IocType::Ip));
    assert_eq!(detect_ioc_type("::ffff:192.168.0.1"), Some(IocType::Ip));
    assert_eq!(detect_ioc_type("1:2:3:4:5:6:1.2.3.4"), Some(IocType::Ip));
    assert_eq!(detect_ioc_type("10.0.0.0/8"), Some(IocType::Ip));
    assert_eq!(detect_ioc_type("2001:db8::/32"), Some(IocType::Ip));
}

#[test]
fn rejects_malformed_addresses() {
    // each falls through to the domain rule or to nothing
    assert_eq!(detect_ioc_type("256.1.1.1"), Some(IocType::Domain));
    assert_eq!(detect_ioc_type("1.2.3"), Some(IocType::Domain));
    assert_eq!(detect_ioc_type("01.2.3.4"), Some(IocType::Domain));
    assert_eq!(detect_ioc_type("1:2:3:4:5:6:7:8:9"), None);
    assert_eq!(detect_ioc_type("1::2::3"), None);
    assert_eq!(detect_ioc_type(":::"), None);
    assert_eq!(detect_ioc_type("1:2:3:4:5:6:7:8::"), None);
    assert_eq!(detect_ioc_type("12345::"), None);
    assert_eq!(detect_ioc_type("1:2:3:4:5:6::1.2.3.4"), None);
}

#[test]
fn detects_domains() {
    assert_eq!(detect_ioc_type("example.com"), Some(IocType::Domain));
    assert_eq!(detect_ioc_type("sub-domain.example.co.uk"), Some(IocType::Domain));
    assert_eq!(detect_ioc_type("exa mple.com"), None);
    assert_eq!(detect_ioc_type("example_com"), None);
}

#[test]
fn detects_nothing_in_empty_input() {
    assert_eq!(detect_ioc_type(""), None);
    assert_eq!(detect_ioc_type("   \t\n"), None);
    assert_eq!(detect_ioc_type("localhost"), None);
}

#[test]
fn normalizes_by_kind() {
    assert_eq!(normalize_ioc("  EXAMPLE.com ", &IocType::Domain), "example.com");
    assert_eq!(normalize_ioc("User@Example.COM", &IocType::Email), "user@example.com");
    assert_eq!(normalize_ioc("2001:DB8::1", &IocType::Ip), "2001:db8::1");
    assert_eq!(
        normalize_ioc("D41D8CD98F00B204E9800998ECF8427E", &IocType::Hash),
        "d41d8cd98f00b204e9800998ecf8427e"
    );
    assert_eq!(normalize_ioc(" cve-2021-44228", &IocType::Cve), "CVE-2021-44228");
}

#[test]
fn normalizes_url_scheme_and_authority_only() {
    assert_eq!(
        normalize_ioc("HTTP://Example.COM/Path?Q=Abc", &IocType::Url),
        "http://example.com/Path?Q=Abc"
    );
    assert_eq!(normalize_ioc("HTTPS://Example.COM", &IocType::Url), "https://example.com");
    assert_eq!(normalize_ioc("Example.COM/Path", &IocType::Url), "example.com/path");
}

#[test]
fn normalizes_beyond_ascii_as_the_standard_library_does() {
    assert_eq!(normalize_ioc("BÜCHER.example", &IocType::Domain), "bücher.example");
    assert_eq!(normalize_ioc("\u{a0}Straße.example\u{2003}", &IocType::Cve), "STRASSE.EXAMPLE");
}

#[test]
fn normalize_is_idempotent_on_samples() {
    let samples = [
        ("  EXAMPLE.com ", IocType::Domain),
        ("HTTP://Example.COM/Path?Q=Abc", IocType::Url),
        ("HTTP://Example.COM", IocType::Url),
        ("cve-2021-44228 ", IocType::Cve),
        (" 2001:DB8::1", IocType::Ip),
        ("A@B.C", IocType::Email),
    ];
    for (value, kind) in samples.iter() {
        let once = normalize_ioc(value, kind);
        let twice = normalize_ioc(&once, kind);
        assert_eq!(once, twice);
    }
}

#[test]
fn cidr_is_judged_by_what_stands_before_the_first_slash() {
    assert_eq!(detect_ioc_type("10.0.0.0/8/9"), Some(IocType::Ip));
    assert_eq!(detect_ioc_type("::1/"), Some(IocType::Ip));
    assert_eq!(detect_ioc_type("/10.0.0.0"), None);
    assert_eq!(detect_ioc_type("example.com/8"), None);
}

#[test]
fn canonical_form_keeps_the_kind_but_for_mail_that_looks_like_a_url() {
    let samples = [
        "cve-2021-44228",
        "D41D8CD98F00B204E9800998ECF8427E",
        "http://Example.COM/Path",
        "https://EXAMPLE.com",
        "User@Example.COM",
        "2001:DB8::1",
        "::FFFF:1.2.3.4",
        "10.0.0.0/8",
        "2001:DB8::/32",
        "Sub-Domain.Example.CO.UK",
    ];
    for value in samples {
        let kind = detect_ioc_type(value).unwrap();
        let canonical = normalize_ioc(value, &kind);
        assert_eq!(detect_ioc_type(&canonical), Some(kind), "{}", value);
    }
    let odd = "HTTP://foo@bar.com";
    assert_eq!(detect_ioc_type(odd), Some(IocType::Email));
    let canonical = normalize_ioc(odd, &IocType::Email);
    assert_eq!(canonical, "http://foo@bar.com");
    assert_eq!(detect_ioc_type(&canonical), Some(IocType::Url));
}

#[test]
fn normalize_is_idempotent_beyond_ascii_on_samples() {
    let samples = [
        ("B\u{dc}CHER.example", IocType::Domain),
        ("\u{130}stanbul.example", IocType::Domain),
        ("\u{39f}\u{394}\u{39f}\u{3a3}.example", IocType::Domain),
        ("stra\u{df}e", IocType::Cve),
        ("HTTP://B\u{dc}CHER.example/\u{dc}ber", IocType::Url),
        ("\u{2003}\u{c9}cole@Example.FR\u{a0}", IocType::Email),
    ];
    for (value, kind) in samples.iter() {
        let once = normalize_ioc(value, kind);
        let twice = normalize_ioc(&once, kind);
        assert_eq!(once, twice, "{}", value);
    }
}
