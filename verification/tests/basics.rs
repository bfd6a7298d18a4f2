//! Texts, numbers, times and settings.

use agora::api::{Address, Ip, ListenError};
use agora::auth::sha256_hex;
use agora::clock::{age_at, age_secs, format_utc_secs, now_secs, parse_utc_secs};
use agora::codec::{compact, parse, parse_or_reason, pretty};
use agora::config::{
    begin, duration_fits, parse_duration, Beginning, Config, ConfigError, Reading, RuntimeSection,
};
use agora::json::{self, Json};
use agora::num::{parse_unsigned, to_decimal, to_hex, to_padded};
use agora::order::{comes_before, sort};
use agora::paths::{is_same_path, join_path};
use agora::text::{
    is_control, is_white, lines_of, same, split_char, split_once_by, split_whitespace, trim, widen,
};

fn address(text: &str, ip: Ip, port: u16) -> Option<Address> {
    Some(Address {
        ip,
        port,
        text: text.to_owned(),
    })
}

fn home() -> Option<Address> {
    address("127.0.0.1:7680", Ip::V4(127, 0, 0, 1), 7680)
}

#[test]
fn utc_parse_matches_epoch() {
    assert_eq!(parse_utc_secs("1970-01-01T00:00:00Z"), Some(0));
    assert_eq!(parse_utc_secs("2026-09-03T00:00:00Z"), Some(1_788_393_600));
    assert_eq!(parse_utc_secs("garbage"), None);
}

#[test]
fn utc_format_is_the_inverse_of_parse() {
    assert_eq!(format_utc_secs(0), "1970-01-01T00:00:00Z");
    assert_eq!(format_utc_secs(1_788_393_600), "2026-09-03T00:00:00Z");
    assert_eq!(format_utc_secs(-5), "1970-01-01T00:00:00Z");
    for ts in [
        "2024-02-29T12:34:56Z",
        "2023-12-31T23:59:59Z",
        "2026-03-01T00:00:00Z",
        "2000-02-29T00:00:00Z",
        "2100-01-01T00:00:00Z",
    ] {
        assert_eq!(format_utc_secs(parse_utc_secs(ts).unwrap()), ts);
    }
}

#[test]
fn a_text_cut_inside_a_character_is_no_time() {
    for ts in [
        "2026年09月03日 00:00:00",
        "202é-01-01T00:00:00Z",
        "1970-0é-01T00:00:00Z",
        "1970-01-01T00:00:0é",
    ] {
        assert_eq!(parse_utc_secs(ts), None, "{ts}");
        assert_eq!(age_at(ts, 0), None, "{ts}");
        assert_eq!(age_secs(ts), None, "{ts}");
    }
}

#[test]
fn ages_count_from_the_time_that_is_written() {
    assert_eq!(age_at("1970-01-01T00:01:00Z", 100), Some(40));
    assert_eq!(age_at("1970-01-01T00:01:00Z", 10), Some(0));
    assert_eq!(age_at("never", 10), None);
    let age = age_secs("1970-01-01T00:01:00Z").unwrap() as i64;
    assert!(age > 1_700_000_000 && age <= now_secs() - 60);
    assert!(now_secs() > 1_700_000_000);
}

#[test]
fn durations_parse_units_and_reject_garbage() {
    assert_eq!(parse_duration("x", "5s").unwrap(), 5);
    assert_eq!(parse_duration("x", "30d").unwrap(), 30 * 86_400);
    assert!(parse_duration("x", "5").is_err());
    assert!(parse_duration("x", "5 s").is_err());
    assert!(parse_duration("x", "1w").is_err());
    assert!(duration_fits("5s"));
    assert!(!duration_fits("18446744073709551615d"));
    assert_eq!(
        parse_duration("x", "1w"),
        Err(ConfigError::Duration {
            field: "x",
            value: "1w".into()
        })
    );
}

#[test]
fn empty_and_missing_sections_fall_back_to_defaults() {
    assert_eq!(
        begin("/c", Reading::Missing),
        Ok(Beginning::Defaults)
    );
    let c = Config::default();
    assert!(c.durations_fit());
    assert_eq!(c.server.listen, "127.0.0.1:7680");
    let s = c.validate("rt", home(), None).unwrap();
    assert_eq!(s.listen.text, "127.0.0.1:7680");
    assert_eq!(s.node_id, "local");
    assert_eq!(s.raw.runtime.kind, "rt");
    let mut c = Config::default();
    c.node.id = "mac".into();
    let s = c.validate("rt", home(), None).unwrap();
    assert_eq!(s.node_id, "mac");
    assert_eq!(s.auth.pair_pending_max, 4);
}

#[test]
fn runtime_subsection_is_kept_opaque_for_the_implementation() {
    let c = RuntimeSection {
        kind: "rt".into(),
        sections: vec![(
            "rt".into(),
            json::object1("socket", Json::Str("x".into())),
        )],
    };
    let sec = c.section("rt");
    assert_eq!(sec.get_str("socket"), Some("x"));
    assert!(c.section("other").as_object().unwrap().is_empty());
}

#[test]
fn tls_listener_must_differ_in_port() {
    let mut c = Config::default();
    c.server.tls_listen = Some("0.0.0.0:7680".into());
    let r = c.validate(
        "rt",
        home(),
        address("0.0.0.0:7680", Ip::V4(0, 0, 0, 0), 7680),
    );
    assert!(matches!(r, Err(ConfigError::SamePort(7680))));
}

#[test]
fn settings_that_cannot_be_used_are_refused() {
    let mut c = Config::default();
    c.server.listen = "0.0.0.0:7680".into();
    let r = c.validate(
        "rt",
        address("0.0.0.0:7680", Ip::V4(0, 0, 0, 0), 7680),
        None,
    );
    assert!(matches!(
        r,
        Err(ConfigError::Listen(ListenError::NotLoopback(_)))
    ));
    let mut c = Config::default();
    c.server.listen = "nowhere".into();
    assert!(matches!(
        c.validate("rt", None, None),
        Err(ConfigError::Listen(ListenError::Parse(_)))
    ));
    let mut c = Config::default();
    c.server.tls_listen = Some("nowhere".into());
    assert!(matches!(
        c.validate("rt", home(), None),
        Err(ConfigError::TlsListenParse(s)) if s == "nowhere"
    ));
    let mut c = Config::default();
    c.node.id = "a:b".into();
    assert!(matches!(
        c.validate("rt", home(), None),
        Err(ConfigError::NodeId(s)) if s == "a:b"
    ));
    let mut c = Config::default();
    c.auth.pair_ttl = "soon".into();
    assert!(matches!(
        c.validate("rt", home(), None),
        Err(ConfigError::Duration { .. })
    ));
    assert!(matches!(
        begin("/c", Reading::Failed("denied".into())),
        Err(ConfigError::Read { .. })
    ));
    assert_eq!(
        begin("/c", Reading::Text("node: {}".into())),
        Ok(Beginning::Written("node: {}".into()))
    );
}

#[test]
fn characters_are_classed_as_std_classes_them() {
    let mut c: u32 = 0;
    while c <= 0x10ffff {
        if let Some(ch) = char::from_u32(c) {
            assert_eq!(is_white(ch), ch.is_whitespace(), "{c:x}");
            assert_eq!(is_control(ch), ch.is_control(), "{c:x}");
        }
        c += 1;
    }
}

#[test]
fn texts_are_cut_as_std_cuts_them() {
    for s in ["", " a  b\tc ", "\u{3000}x\u{a0}", "a\nb\r\nc\n", "a\rb", "a\n\nb"] {
        assert_eq!(trim(s), s.trim());
        assert_eq!(
            split_whitespace(s),
            s.split_whitespace().collect::<Vec<_>>()
        );
        assert_eq!(lines_of(s), s.lines().collect::<Vec<_>>());
        assert_eq!(split_char(s, ' '), s.split(' ').collect::<Vec<_>>());
    }
    assert_eq!(
        split_once_by("a\r\n\r\nb", "\r\n\r\n"),
        Some(("a".to_owned(), "b".to_owned()))
    );
    assert_eq!(split_once_by("ab", "x"), None);
    assert_eq!(widen("ab", 4), "ab  ");
    assert_eq!(widen("abcd", 2), "abcd");
    assert!(same("x", "x") && !same("x", "y"));
}

#[test]
fn texts_are_ordered_as_std_orders_them() {
    let v: Vec<String> = ["b", "a", "é", "z", "", "ab"]
        .iter()
        .map(|s| s.to_string())
        .collect();
    let mut want = v.clone();
    want.sort();
    assert_eq!(sort(v), want);
    assert!(comes_before("a", "b") && !comes_before("b", "a"));
}

#[test]
fn numbers_are_written_and_read() {
    assert_eq!(to_decimal(0), "0");
    assert_eq!(to_decimal(u64::MAX), u64::MAX.to_string());
    assert_eq!(to_padded(7, 3), "007");
    assert_eq!(to_hex(&[0x0f, 0xa0]), "0fa0");
    assert_eq!(parse_unsigned("42", 100), Some(42));
    assert_eq!(parse_unsigned("+42", 100), Some(42));
    assert_eq!(parse_unsigned("101", 100), None);
    assert_eq!(parse_unsigned("", 100), None);
}

#[test]
fn values_are_written_and_read_as_json() {
    let v = parse(r#"{"b":[1,-2,1.5,null,true],"a":"é"}"#.as_bytes()).unwrap();
    assert_eq!(compact(&v), r#"{"a":"é","b":[1,-2,1.5,null,true]}"#);
    assert_eq!(pretty(&json::object1("a", Json::Null)), "{\n  \"a\": null\n}");
    assert_eq!(parse(b"{"), None);
    assert!(parse_or_reason(b"{").is_err());
    assert!(json::is_equal(&v, &json::copy(&v)));
    assert!(!json::is_equal(&v, &Json::Null));
}

#[test]
fn a_carried_number_that_is_whole_is_read_as_an_integer() {
    let v = Json::Number(agora::json::Numeral::Other(serde_json::Number::from(5u64)));
    assert_eq!(compact(&v), "5");
    let back = parse(compact(&v).as_bytes()).unwrap();
    assert_eq!(back, Json::Number(agora::json::Numeral::Unsigned(5)));
}

#[test]
fn hashes_are_those_of_sha256() {
    assert_eq!(
        sha256_hex("abc"),
        "ba7816bf8f01cfea414140de5dae2223b00361a396177a9cb410ff61f20015ad"
    );
}

#[test]
fn paths_are_joined_as_std_joins_them() {
    for (a, b) in [("/x", "y"), ("/x/", "y"), ("/x", "/y"), ("", "y"), ("x", "")] {
        assert_eq!(
            join_path(a, b),
            std::path::Path::new(a).join(b).to_str().unwrap()
        );
    }
}

#[test]
fn paths_are_compared_as_std_compares_them() {
    let all = [
        "/h/bin", "/h//bin", "/h/./bin/", "h/bin", "./h/bin", "/h/../bin", "", ".", "/", "/h/bin/x",
    ];
    for a in all {
        for b in all {
            assert_eq!(
                is_same_path(a, b),
                std::path::Path::new(a) == std::path::Path::new(b),
                "{a} {b}"
            );
        }
    }
}
