use vstd::prelude::*;

verus! {

/// Instants this far from the epoch (about a quarter million years) are
/// representable by the calendar the formatter relies on.
pub const MAX_FORMAT_SECONDS: u64 = 8_000_000_000_000;

/// Deltas of this many whole seconds are representable by the duration type
/// the formatter relies on.
pub const MAX_HUMAN_SECONDS: i64 = 9_223_372_036_854_775;

/// The RFC 3339 text of an instant at a fixed offset; a function of the two
/// arguments alone.
pub uninterp spec fn iso_of(secs: u64, offset_seconds: i32) -> Seq<char>;

/// The rough English phrase for a signed distance in time, "3 hours ago" or
/// "in 2 days"; a function of the delta alone.
pub uninterp spec fn relative_phrase_of(delta_seconds: i64) -> Seq<char>;

/// The precise present-tense English phrase for a non-negative span,
/// "1 hour, 1 minute and 1 second"; a function of the delta alone.
pub uninterp spec fn precise_phrase_of(delta_seconds: i64) -> Seq<char>;

/// Relies on chrono's FixedOffset::east_opt, DateTime::from_timestamp and
/// to_rfc3339: the RFC 3339 text of the instant at the given fixed offset.
/// Both are total and return None out of range; the documented ranges cover
/// every offset within a day and every instant up to MAX_FORMAT_SECONDS.
#[verifier::external_body]
fn iso8601_at_offset(secs: u64, offset_seconds: i32) -> (r: Option<String>)
    ensures
        (match r {
            Option::Some(s) => s@ == iso_of(secs, offset_seconds),
            Option::None => true,
        }),
        (secs <= MAX_FORMAT_SECONDS && -86400 < offset_seconds < 86400) ==> r is Some,
{
    let s64 = i64::try_from(secs).ok()?;
    let offset = chrono::FixedOffset::east_opt(offset_seconds)?;
    let dt = chrono::DateTime::<chrono::Utc>::from_timestamp(s64, 0)?;
    Some(dt.with_timezone(&offset).to_rfc3339())
}

/// Relies on chrono_humanize::HumanTime shown over a chrono::TimeDelta of
/// whole seconds: the rough English phrase depends on the delta alone.
/// TimeDelta::try_seconds is Some within MAX_HUMAN_SECONDS either way.
#[verifier::external_body]
fn humanize_relative(delta_seconds: i64) -> (r: Option<String>)
    ensures
        (match r {
            Option::Some(s) => s@ == relative_phrase_of(delta_seconds),
            Option::None => true,
        }),
        (-9_223_372_036_854_775 <= delta_seconds <= 9_223_372_036_854_775) ==> r is Some,
{
    let d = chrono::TimeDelta::try_seconds(delta_seconds)?;
    Some(chrono_humanize::HumanTime::from(d).to_string())
}

/// Relies on chrono_humanize::HumanTime::to_text_en with precise accuracy and
/// present tense, over a chrono::TimeDelta of whole seconds: the phrase
/// depends on the delta alone.
#[verifier::external_body]
fn humanize_precise(delta_seconds: i64) -> (r: Option<String>)
    ensures
        (match r {
            Option::Some(s) => s@ == precise_phrase_of(delta_seconds),
            Option::None => true,
        }),
        (-9_223_372_036_854_775 <= delta_seconds <= 9_223_372_036_854_775) ==> r is Some,
{
    let d = chrono::TimeDelta::try_seconds(delta_seconds)?;
    Some(
        chrono_humanize::HumanTime::from(d).to_text_en(
            chrono_humanize::Accuracy::Precise,
            chrono_humanize::Tense::Present,
        ),
    )
}

/// An instant rendered three ways: a relative phrase against the given now,
/// the raw epoch seconds unchanged, and the absolute RFC 3339 text.
#[derive(Clone, Debug)]
pub struct TimeDisplay {
    pub human: String,
    pub raw: u64,
    pub iso: String,
}

/// Renders an instant. The current instant and the viewer's offset are
/// explicit arguments, so the result is decided by the arguments alone and a
/// caller can check it against a fixed now.
pub fn format_time(unix_seconds: u64, now_seconds: u64, offset_seconds: i32) -> (r: TimeDisplay)
    requires
        unix_seconds <= MAX_FORMAT_SECONDS,
        now_seconds <= MAX_FORMAT_SECONDS,
        -86400 < offset_seconds < 86400,
    ensures
        r.raw == unix_seconds,
        r.iso@ == iso_of(unix_seconds, offset_seconds),
        r.human@ == relative_phrase_of((unix_seconds - now_seconds) as i64),
{
    let delta: i64 = unix_seconds as i64 - now_seconds as i64;
    let human = humanize_relative(delta).unwrap();
    let iso = iso8601_at_offset(unix_seconds, offset_seconds).unwrap();
    TimeDisplay { human, raw: unix_seconds, iso }
}

/// Rendering an instant is decided by the arguments alone: any two results
/// the renderer can hand back for the same instant, the same injected now
/// and the same offset agree in every field, across any two calls.
pub proof fn lemma_format_time_deterministic(
    unix_seconds: u64,
    now_seconds: u64,
    offset_seconds: i32,
    a: TimeDisplay,
    b: TimeDisplay,
)
    requires
        a.raw == unix_seconds,
        a.iso@ == iso_of(unix_seconds, offset_seconds),
        a.human@ == relative_phrase_of((unix_seconds - now_seconds) as i64),
        b.raw == unix_seconds,
        b.iso@ == iso_of(unix_seconds, offset_seconds),
        b.human@ == relative_phrase_of((unix_seconds - now_seconds) as i64),
    ensures
        a.raw == b.raw,
        a.iso@ == b.iso@,
        a.human@ == b.human@,
{
}

/// A span rendered as a phrase and the raw seconds, or the explicit
/// classification of a negative span as an invalid interval.
#[derive(Clone, Debug, PartialEq, Eq)]
pub enum DurationDisplay {
    Interval { human: String, raw: i64 },
    InvalidInterval { raw: i64 },
}

/// Renders a span of whole seconds. A negative span, as clock skew between
/// the start and finish records produces, is classified as an invalid
/// interval and never rendered as a negative duration.
pub fn format_duration(delta_seconds: i64) -> (r: DurationDisplay)
    requires
        delta_seconds <= MAX_HUMAN_SECONDS,
    ensures
        delta_seconds < 0 ==> (r == DurationDisplay::InvalidInterval { raw: delta_seconds }),
        delta_seconds >= 0 ==> (r matches DurationDisplay::Interval { human, raw } && human@
            == precise_phrase_of(delta_seconds) && raw == delta_seconds),
{
    if delta_seconds < 0 {
        DurationDisplay::InvalidInterval { raw: delta_seconds }
    } else {
        let human = humanize_precise(delta_seconds).unwrap();
        DurationDisplay::Interval { human, raw: delta_seconds }
    }
}

} // verus!
