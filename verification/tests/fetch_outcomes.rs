use statusview::{get_json, get_string, APIErr, TransportOutcome};

#[test]
fn transport_failure_becomes_network_error() {
    let r = get_json(TransportOutcome::Failed("connection refused".to_string()));
    assert_eq!(
        r,
        Err(APIErr::Network("connection refused".to_string()))
    );
}

#[test]
fn unreadable_body_becomes_decode_error() {
    let r = get_json(TransportOutcome::BodyUnreadable("body stream died".to_string()));
    assert_eq!(r, Err(APIErr::Decode("body stream died".to_string())));
}

#[test]
fn invalid_body_becomes_decode_error() {
    let r = get_json(TransportOutcome::Received("not a report".to_string()));
    assert_eq!(r, Err(APIErr::Decode("invalid report body".to_string())));
}

#[test]
fn valid_body_decodes_to_equal_value() {
    let body = "{\"artifacts\":\"art-9\",\"message\":\"tidy\",\"ref\":\"refs/tags/v2\",\"start\":{\"time\":42},\"finish\":{\"time\":52,\"ok\":false}}";
    let rep = get_json(TransportOutcome::Received(body.to_string())).unwrap();
    assert_eq!(rep.artifacts, "art-9");
    assert_eq!(rep.message, "tidy");
    assert_eq!(rep.refname, "refs/tags/v2");
    assert_eq!(rep.start.time, 42);
    let finish = rep.finish.unwrap();
    assert_eq!(finish.time, 52);
    assert!(!finish.ok);
}

#[test]
fn log_fetch_hands_body_back_verbatim() {
    let body = "line 1\nline 2\n".to_string();
    let r = get_string(TransportOutcome::Received(body.clone()));
    assert_eq!(r, Ok(body));
}

#[test]
fn log_fetch_maps_failures_like_the_report() {
    assert_eq!(
        get_string(TransportOutcome::Failed("timed out".to_string())),
        Err(APIErr::Network("timed out".to_string()))
    );
    assert_eq!(
        get_string(TransportOutcome::BodyUnreadable("bad bytes".to_string())),
        Err(APIErr::Decode("bad bytes".to_string()))
    );
}
