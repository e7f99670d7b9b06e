use statusview::{decode_report, encode_report, Finish, Report, Start};

fn sample_running() -> Report {
    Report {
        artifacts: "art-417".to_string(),
        message: "fix the build".to_string(),
        refname: "refs/heads/main".to_string(),
        start: Start { time: 1700000000 },
        finish: None,
    }
}

fn sample_finished(ok: bool) -> Report {
    Report {
        artifacts: "art-418".to_string(),
        message: "release".to_string(),
        refname: "v1.2.3".to_string(),
        start: Start { time: 1700000000 },
        finish: Some(Finish { time: 1700003661, ok }),
    }
}

#[test]
fn encode_running_report_exact_text() {
    let text = encode_report(&sample_running());
    assert_eq!(
        text,
        "{\"artifacts\":\"art-417\",\"message\":\"fix the build\",\"ref\":\"refs/heads/main\",\"start\":{\"time\":1700000000},\"finish\":null}"
    );
}

#[test]
fn encode_finished_report_exact_text() {
    let text = encode_report(&sample_finished(true));
    assert_eq!(
        text,
        "{\"artifacts\":\"art-418\",\"message\":\"release\",\"ref\":\"v1.2.3\",\"start\":{\"time\":1700000000},\"finish\":{\"time\":1700003661,\"ok\":true}}"
    );
}

#[test]
fn round_trip_with_absent_finish() {
    let rep = sample_running();
    let back = decode_report(&encode_report(&rep)).unwrap();
    assert_eq!(back, rep);
}

#[test]
fn round_trip_with_present_finish() {
    for ok in [true, false] {
        let rep = sample_finished(ok);
        let back = decode_report(&encode_report(&rep)).unwrap();
        assert_eq!(back, rep);
    }
}

#[test]
fn round_trip_with_escaped_characters() {
    let rep = Report {
        artifacts: "a\"b".to_string(),
        message: "line one\nline two\ttabbed \\ done".to_string(),
        refname: "weird \u{1} ref \u{1f600}".to_string(),
        start: Start { time: 0 },
        finish: Some(Finish { time: 0, ok: false }),
    };
    let text = encode_report(&rep);
    let back = decode_report(&text).unwrap();
    assert_eq!(back, rep);
}

#[test]
fn escapes_use_canonical_forms() {
    let rep = Report {
        artifacts: String::new(),
        message: "\"\\\n".to_string(),
        refname: String::new(),
        start: Start { time: 7 },
        finish: None,
    };
    let text = encode_report(&rep);
    assert_eq!(
        text,
        "{\"artifacts\":\"\",\"message\":\"\\\"\\\\\\u000a\",\"ref\":\"\",\"start\":{\"time\":7},\"finish\":null}"
    );
}

#[test]
fn decode_rejects_malformed_bodies() {
    let bad = [
        "",
        "{}",
        "{\"artifacts\":\"a\"}",
        // wrong key order
        "{\"message\":\"m\",\"artifacts\":\"a\",\"ref\":\"r\",\"start\":{\"time\":1},\"finish\":null}",
        // unterminated string
        "{\"artifacts\":\"a,\"message\":\"m\",\"ref\":\"r\",\"start\":{\"time\":1},\"finish\":null}",
        // leading zero in a number
        "{\"artifacts\":\"a\",\"message\":\"m\",\"ref\":\"r\",\"start\":{\"time\":01},\"finish\":null}",
        // number out of range
        "{\"artifacts\":\"a\",\"message\":\"m\",\"ref\":\"r\",\"start\":{\"time\":18446744073709551616},\"finish\":null}",
        // bad finish
        "{\"artifacts\":\"a\",\"message\":\"m\",\"ref\":\"r\",\"start\":{\"time\":1},\"finish\":maybe}",
        // trailing garbage
        "{\"artifacts\":\"a\",\"message\":\"m\",\"ref\":\"r\",\"start\":{\"time\":1},\"finish\":null}x",
    ];
    for text in bad {
        let r = decode_report(text);
        assert!(r.is_err(), "accepted: {}", text);
        assert_eq!(r.unwrap_err(), "invalid report body");
    }
}

#[test]
fn decode_accepts_whitespace_between_tokens() {
    let text = "{\n  \"artifacts\": \"a\",\n  \"message\": \"m\",\n  \"ref\": \"r\",\n  \"start\": { \"time\": 42 },\n  \"finish\": {\r\n\t\"time\": 52, \"ok\": true }\n}\n";
    let rep = decode_report(text).unwrap();
    assert_eq!(rep.artifacts, "a");
    assert_eq!(rep.start.time, 42);
    let finish = rep.finish.unwrap();
    assert_eq!(finish.time, 52);
    assert!(finish.ok);
}

#[test]
fn whitespace_stays_outside_tokens() {
    // Space inside a keyword or a number splits it; space inside a string
    // is content.
    assert!(decode_report(
        "{\"artifacts\":\"a\",\"message\":\"m\",\"ref\":\"r\",\"start\":{\"time\":4 2},\"finish\":null}"
    )
    .is_err());
    assert!(decode_report(
        "{\"artifacts\":\"a\",\"message\":\"m\",\"ref\":\"r\",\"start\":{\"time\":1},\"finish\":nu ll}"
    )
    .is_err());
    let rep = decode_report(
        "{\"artifacts\":\" a \",\"message\":\"m\",\"ref\":\"r\",\"start\":{\"time\":1},\"finish\":null}"
    )
    .unwrap();
    assert_eq!(rep.artifacts, " a ");
}

#[test]
fn decode_accepts_largest_time() {
    let text = "{\"artifacts\":\"a\",\"message\":\"m\",\"ref\":\"r\",\"start\":{\"time\":18446744073709551615},\"finish\":null}";
    let rep = decode_report(text).unwrap();
    assert_eq!(rep.start.time, u64::MAX);
}

#[test]
fn decode_handles_escape_sequences() {
    let text = "{\"artifacts\":\"x\\\"y\",\"message\":\"a\\\\b\",\"ref\":\"c\\u0000d\",\"start\":{\"time\":2},\"finish\":null}";
    let rep = decode_report(text).unwrap();
    assert_eq!(rep.artifacts, "x\"y");
    assert_eq!(rep.message, "a\\b");
    assert_eq!(rep.refname, "c\u{0}d");
}

#[test]
fn decode_handles_standard_short_escapes() {
    // The short escapes every mainstream producer writes for control
    // characters, and the solidus escape.
    let text = "{\"artifacts\":\"a\\/b\",\"message\":\"l1\\nl2\\ttabbed\\r\\n\",\"ref\":\"\\b\\f\",\"start\":{\"time\":3},\"finish\":null}";
    let rep = decode_report(text).unwrap();
    assert_eq!(rep.artifacts, "a/b");
    assert_eq!(rep.message, "l1\nl2\ttabbed\r\n");
    assert_eq!(rep.refname, "\u{8}\u{c}");
}

#[test]
fn decode_handles_general_hex_escapes() {
    // \uXXXX in either hex case, anywhere in the basic plane.
    let text = "{\"artifacts\":\"caf\\u00e9\",\"message\":\"\\u20AC and \\u00E9\",\"ref\":\"r\",\"start\":{\"time\":4},\"finish\":null}";
    let rep = decode_report(text).unwrap();
    assert_eq!(rep.artifacts, "caf\u{e9}");
    assert_eq!(rep.message, "\u{20ac} and \u{e9}");
}

#[test]
fn decode_rejects_bad_escapes() {
    // An unknown escape, a truncated hex escape, and a lone surrogate.
    for text in [
        "{\"artifacts\":\"a\\qb\",\"message\":\"m\",\"ref\":\"r\",\"start\":{\"time\":1},\"finish\":null}",
        "{\"artifacts\":\"a\\u00\",\"message\":\"m\",\"ref\":\"r\",\"start\":{\"time\":1},\"finish\":null}",
        "{\"artifacts\":\"a\\uD800b\",\"message\":\"m\",\"ref\":\"r\",\"start\":{\"time\":1},\"finish\":null}",
    ] {
        assert!(decode_report(text).is_err(), "accepted: {}", text);
    }
}
