use statusview::{
    format_duration, format_time, BuildStatus, DurationDisplay, Finish, Report, Start,
};

#[test]
fn epoch_at_zero_offset_with_fixed_now() {
    // now is fixed three hours after the instant, so every part of the
    // result is decided by the arguments.
    let td = format_time(0, 3 * 3600, 0);
    assert_eq!(td.raw, 0);
    assert_eq!(td.iso, "1970-01-01T00:00:00+00:00");
    assert_eq!(td.human, "3 hours ago");
}

#[test]
fn instant_at_positive_offset() {
    let td = format_time(0, 0, 3600);
    assert_eq!(td.iso, "1970-01-01T01:00:00+01:00");
    assert_eq!(td.raw, 0);
}

#[test]
fn future_instant_reads_forward() {
    let td = format_time(2 * 86400, 0, 0);
    assert_eq!(td.human, "in 2 days");
}

#[test]
fn two_calls_with_the_same_now_agree() {
    let a = format_time(1700000000, 1700003600, 7200);
    let b = format_time(1700000000, 1700003600, 7200);
    assert_eq!(a.human, b.human);
    assert_eq!(a.raw, b.raw);
    assert_eq!(a.iso, b.iso);
}

#[test]
fn one_hour_one_minute_one_second() {
    let d = format_duration(3661);
    match d {
        DurationDisplay::Interval { human, raw } => {
            assert_eq!(raw, 3661);
            assert_eq!(human, "1 hour, 1 minute and 1 second");
        }
        DurationDisplay::InvalidInterval { .. } => panic!("valid span classified invalid"),
    }
}

#[test]
fn zero_span_is_a_valid_interval() {
    match format_duration(0) {
        DurationDisplay::Interval { raw, .. } => assert_eq!(raw, 0),
        DurationDisplay::InvalidInterval { .. } => panic!("zero classified invalid"),
    }
}

#[test]
fn negative_span_is_an_invalid_interval() {
    assert_eq!(
        format_duration(-5),
        DurationDisplay::InvalidInterval { raw: -5 }
    );
}

fn report(start: u64, finish: Option<Finish>) -> Report {
    Report {
        artifacts: "a".to_string(),
        message: "m".to_string(),
        refname: "r".to_string(),
        start: Start { time: start },
        finish,
    }
}

#[test]
fn status_follows_the_finish_record() {
    assert_eq!(report(1, None).status(), BuildStatus::InProgress);
    assert_eq!(
        report(1, Some(Finish { time: 2, ok: true })).status(),
        BuildStatus::Succeeded
    );
    assert_eq!(
        report(1, Some(Finish { time: 2, ok: false })).status(),
        BuildStatus::Failed
    );
    assert_eq!(BuildStatus::InProgress.label(), "in progress... ");
    assert_eq!(BuildStatus::Succeeded.label(), "OK");
    assert_eq!(BuildStatus::Failed.label(), "ERR");
}

#[test]
fn run_seconds_uses_checked_subtraction() {
    assert_eq!(report(10, None).run_seconds(), None);
    assert_eq!(
        report(10, Some(Finish { time: 3671, ok: true })).run_seconds(),
        Some(Ok(3661))
    );
    // Clock skew: finish before start is surfaced, never wrapped around.
    assert_eq!(
        report(10, Some(Finish { time: 4, ok: true })).run_seconds(),
        Some(Err(()))
    );
}
