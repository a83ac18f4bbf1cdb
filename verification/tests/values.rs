use sentinelforge::address::{check_ip, check_ipv4, check_ipv6};
use sentinelforge::json::JsonValue;
use sentinelforge::models::ioc_utils::detect_ioc_type;
use sentinelforge::models::IocType;
use sentinelforge::storage::{lex_le_chars, shift_time, union_ids, union_strings};
use sentinelforge::text::{
    char_is_whitespace, contains_sub, first_token_chars, i64_to_string, split_chars, split_lines,
    str_eq, substring, to_chars, trim_chars,
};

fn chars(s: &str) -> Vec<char> {
    s.chars().collect()
}

fn text(v: &Vec<char>) -> String {
    v.iter().collect()
}

fn shown(v: &JsonValue) -> String {
    format!("{:?}", v)
}

#[test]
fn whitespace_is_the_unicode_property() {
    for c in ['\t', '\n', '\u{b}', '\u{c}', '\r', ' ', '\u{85}', '\u{a0}', '\u{1680}', '\u{2000}',
        '\u{200a}', '\u{2028}', '\u{2029}', '\u{202f}', '\u{205f}', '\u{3000}']
    {
        assert!(char_is_whitespace(c));
    }
    for c in ['a', '0', '\u{8}', '\u{e}', '\u{200b}', '\u{feff}', '\u{180e}'] {
        assert!(!char_is_whitespace(c));
    }
    for n in 0..0x3100u32 {
        if let Some(c) = char::from_u32(n) {
            assert_eq!(char_is_whitespace(c), c.is_whitespace());
        }
    }
}

#[test]
fn trimming_agrees_with_the_standard_library() {
    for s in ["", " ", " a ", "\u{a0}a\u{3000}", "a b", "\t\r\n", "x", " x", "x ", "\u{2003}é\u{85}"] {
        assert_eq!(text(&trim_chars(&chars(s))), s.trim());
    }
}

#[test]
fn splitting_and_lines() {
    let parts = |s: &str, sep: char| -> Vec<String> {
        split_chars(&chars(s), sep).iter().map(text).collect()
    };
    assert_eq!(parts("a.b..c", '.'), vec!["a", "b", "", "c"]);
    assert_eq!(parts("", '.'), vec![""]);
    assert_eq!(parts(".", '.'), vec!["", ""]);
    assert_eq!(parts("abc", '.'), vec!["abc"]);
    let lines = |s: &str| -> Vec<String> { split_lines(&chars(s)).iter().map(text).collect() };
    for s in ["", "\n", "a", "a\n", "a\r\n", "a\r", "a\n\nb", "a\r\n\r\nb\r", "\r\n", "\r", "a\rb\n"] {
        let expected: Vec<String> = s.lines().map(|l| l.to_string()).collect();
        assert_eq!(lines(s), expected);
    }
}

#[test]
fn first_token_is_the_first_word() {
    for s in ["a b", "  a\tb", "abc", "1.2.3.4 # x", "\u{a0}x\u{2003}y"] {
        assert_eq!(text(&first_token_chars(&chars(s))), s.split_whitespace().next().unwrap());
    }
    assert_eq!(text(&first_token_chars(&chars("  "))), "  ");
    assert_eq!(text(&first_token_chars(&chars(""))), "");
}

#[test]
fn strings_are_built_and_compared() {
    assert_eq!(to_chars("héllo"), chars("héllo"));
    assert_eq!(substring("héllo", 1, 3), "él");
    assert!(str_eq("a", "a"));
    assert!(!str_eq("a", "A"));
    assert!(contains_sub(&chars("abc"), &chars("")));
    assert!(contains_sub(&chars(""), &chars("")));
    assert!(contains_sub(&chars("abc"), &chars("bc")));
    assert!(contains_sub(&chars("abc"), &chars("abc")));
    assert!(!contains_sub(&chars("abc"), &chars("abcd")));
    assert!(!contains_sub(&chars("abc"), &chars("ca")));
    assert!(lex_le_chars(&chars(""), &chars("a")));
    assert!(lex_le_chars(&chars("a"), &chars("a")));
    assert!(lex_le_chars(&chars("a"), &chars("ab")));
    assert!(!lex_le_chars(&chars("ab"), &chars("a")));
    assert!(lex_le_chars(&chars("Z"), &chars("a")));
    assert!(!lex_le_chars(&chars("b"), &chars("a")));
}

#[test]
fn numbers_in_decimal() {
    for n in [0i64, 1, 9, 10, 11, 99, 100, 12345, -1, -10, i64::MAX, i64::MIN] {
        assert_eq!(i64_to_string(n), n.to_string());
    }
}

#[test]
fn time_is_shifted_or_refused() {
    assert_eq!(shift_time(10, 2, 3), Some(16));
    assert_eq!(shift_time(10, -2, 3), Some(4));
    assert_eq!(shift_time(i64::MAX, 1, 1), None);
    assert_eq!(shift_time(i64::MIN, -1, 1), None);
    assert_eq!(shift_time(i64::MAX - 5, 5, 1), Some(i64::MAX));
    assert_eq!(shift_time(0, i64::MAX, 86_400_000_000), None);
}

#[test]
fn unions_keep_order_and_add_once() {
    let s = |items: &[&str]| -> Vec<String> { items.iter().map(|x| x.to_string()).collect() };
    assert_eq!(union_strings(&s(&["a", "b"]), &s(&["b", "c", "c", "a", "d"])), s(&["a", "b", "c", "d"]));
    assert_eq!(union_strings(&s(&[]), &s(&["x", "x"])), s(&["x"]));
    assert_eq!(union_strings(&s(&["x"]), &s(&[])), s(&["x"]));
    assert_eq!(union_ids(&vec![1, 2], &vec![2, 3, 3, 1]), vec![1, 2, 3]);
}

#[test]
fn addresses() {
    for s in ["0.0.0.0", "255.255.255.255", "10.0.0.1", "1.2.3.4"] {
        assert!(check_ipv4(&chars(s)), "{}", s);
        assert!(check_ip(&chars(s)), "{}", s);
        assert!(!check_ipv6(&chars(s)), "{}", s);
    }
    for s in ["", "1.2.3", "1.2.3.4.5", "256.0.0.0", "01.2.3.4", "1.2.3.04", "1..2.3", "a.b.c.d",
        "1.2.3.4 ", "1.2.3.-4", "1.2.3.1000", "00.0.0.0", "\u{661}.2.3.4"]
    {
        assert!(!check_ipv4(&chars(s)), "{}", s);
        assert!(!check_ip(&chars(s)), "{}", s);
    }
    let valid = [
        "::", "::1", "1::", "1:2:3:4:5:6:7:8", "1:2:3:4:5:6:7::", "::2:3:4:5:6:7:8",
        "1::3:4:5:6:7:8", "1:2:3:4::6:7:8", "::ffff:1.2.3.4", "1:2:3:4:5:6:1.2.3.4",
        "::1.2.3.4", "1::1.2.3.4", "1:2:3:4:5::1.2.3.4", "ABCD:ef01:2345:6789:abcd:EF01:2345:6789",
        "fe80::1", "2001:db8::", "0:0:0:0:0:0:0:0", "::0.0.0.0", "::ffff:255.255.255.255",
    ];
    for s in valid {
        assert!(check_ipv6(&chars(s)), "{}", s);
        assert!(check_ip(&chars(s)), "{}", s);
        assert!(!check_ipv4(&chars(s)), "{}", s);
    }
    let invalid = [
        "", ":", ":::", "1", "1:2", "1:2:3:4:5:6:7", "1:2:3:4:5:6:7:8:9", "1:2:3:4:5:6:7:8::",
        "::1:2:3:4:5:6:7:8", "1::2::3", "12345::", "g::", "1:2:3:4:5:6:7:1.2.3.4",
        "1:2:3:4:5:6::1.2.3.4", "1.2.3.4::", "1.2.3.4::1", "::1.2.3.4:5", "::1.2.3", "::1.2.3.256",
        ":1:2:3:4:5:6:7", "1:2:3:4:5:6:7:", "1:::2", "::01.2.3.4", "fe80::1%eth0", " ::1",
        "::ffff:1.2.3.4.5", "1:2:3:4:5:1.2.3.4", "::00000", "::1.2.3.4.", "::.1.2.3",
        "1:2:3:4:5:6:7:8::9", "::g", "1:2:3:4:5:6:7:8 ",
    ];
    for s in invalid {
        assert!(!check_ipv6(&chars(s)), "{}", s);
        assert!(!check_ip(&chars(s)), "{}", s);
    }
}

#[test]
fn domains_may_hold_letters_beyond_ascii() {
    assert_eq!(detect_ioc_type("bücher.example"), Some(IocType::Domain));
    assert_eq!(detect_ioc_type("пример.рф"), Some(IocType::Domain));
    assert_eq!(detect_ioc_type("例え.jp"), Some(IocType::Domain));
    assert_eq!(detect_ioc_type("a\u{2014}b.example"), None);
    assert_eq!(detect_ioc_type("a\u{2003}b.example"), None);
    assert_eq!(detect_ioc_type("x_y.example"), None);
}

#[test]
fn documents_are_set_read_and_copied() {
    let mut doc = JsonValue::object();
    assert!(doc.get("a").is_none());
    doc.set("a", JsonValue::Int(1));
    doc.set("b", JsonValue::texts(&vec!["x".to_string()]));
    doc.set("a", JsonValue::Bool(true));
    assert_eq!(shown(doc.get("a").unwrap()), shown(&JsonValue::Bool(true)));
    assert_eq!(
        shown(&doc),
        shown(&JsonValue::Object(vec![
            ("a".to_string(), JsonValue::Bool(true)),
            ("b".to_string(), JsonValue::List(vec![JsonValue::Text("x".to_string())])),
        ]))
    );
    let copy = doc.clone();
    assert_eq!(shown(&copy), shown(&doc));
    let mut scalar = JsonValue::Int(3);
    scalar.set("a", JsonValue::Null);
    assert_eq!(shown(&scalar), shown(&JsonValue::Int(3)));
    assert!(scalar.get("a").is_none());
    assert_eq!(shown(&JsonValue::opt_text(&None)), shown(&JsonValue::Null));
    assert_eq!(shown(&JsonValue::opt_text(&Some("t".to_string()))), shown(&JsonValue::text("t")));
    assert_eq!(shown(&JsonValue::opt_int(Some(-4))), shown(&JsonValue::Int(-4)));
    assert_eq!(shown(&JsonValue::opt_bool(None)), shown(&JsonValue::Null));
    assert_eq!(
        shown(&JsonValue::opt_decimal(&Some("1.5".to_string()))),
        shown(&JsonValue::Decimal("1.5".to_string()))
    );
    let first = JsonValue::Object(vec![
        ("k".to_string(), JsonValue::Int(1)),
        ("k".to_string(), JsonValue::Int(2)),
    ]);
    assert_eq!(shown(first.get("k").unwrap()), shown(&JsonValue::Int(1)));
}
