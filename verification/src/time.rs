//! Time values. The pipeline works in Unix seconds (UTC); sessions are hour
//! buckets of event time; RFC 3339 text at the storage boundary comes from
//! chrono behind trusted wrappers.

use vstd::prelude::*;

verus! {

/// Exclusive upper bound on timestamps the pipeline handles: the first
/// instant of year 10000, past which the RFC 3339 rendering loses its
/// four-digit year.
pub const TS_MAX: i64 = 253402300800;

/// A timestamp the pipeline accepts.
pub open spec fn valid_ts(t: int) -> bool {
    0 <= t < TS_MAX as int
}

/// Session key of an event time: events in the same UTC calendar hour share
/// it, and each hour has its own.
pub open spec fn session_of(t: int) -> int {
    t / 3600
}

pub fn session_id_of(t: i64) -> (r: i64)
    requires
        valid_ts(t as int),
    ensures
        r as int == session_of(t as int),
{
    (((t as u64) / 3600u64) as i64)
}

/// Timestamps in the same calendar hour get the same session key.
pub proof fn lemma_session_same_hour(t1: int, t2: int)
    requires
        valid_ts(t1),
        valid_ts(t2),
        t1 / 3600 == t2 / 3600,
    ensures
        session_of(t1) == session_of(t2),
{
}

/// A timestamp one hour later gets the next session key.
pub proof fn lemma_session_next_hour(t: int)
    requires
        valid_ts(t),
        valid_ts(t + 3600),
    ensures
        session_of(t + 3600) == session_of(t) + 1,
{
    assert((t + 3600) / 3600 == t / 3600 + 1) by (nonlinear_arith)
        requires
            t >= 0,
    ;
}

/// The RFC 3339 rendering of a timestamp, named: it depends on the
/// timestamp alone.
pub uninterp spec fn rfc3339_of(t: int) -> Seq<char>;

/// What RFC 3339 text parses to, named: it depends on the text alone.
pub uninterp spec fn rfc3339_val(s: Seq<char>) -> Option<i64>;

/// The first second (UTC) of the day written as year-month-day, named: it
/// depends on the text alone.
pub uninterp spec fn day_start_val(s: Seq<char>) -> Option<i64>;

/// Relies on chrono's `DateTime::from_timestamp` and `to_rfc3339`: renders a
/// timestamp in range as RFC 3339 text, a function of the timestamp alone.
#[verifier::external_body]
pub fn format_rfc3339(t: i64) -> (r: String)
    requires
        valid_ts(t as int),
    ensures
        r@ == rfc3339_of(t as int),
{
    match chrono::DateTime::from_timestamp(t, 0) {
        Some(dt) => dt.to_rfc3339(),
        None => String::new(),
    }
}

/// Relies on chrono's `DateTime::parse_from_rfc3339`: the parse outcome is a
/// function of the text alone; offsets are resolved to UTC seconds.
#[verifier::external_body]
pub fn parse_rfc3339(s: &str) -> (r: Option<i64>)
    ensures
        r == rfc3339_val(s@),
{
    match chrono::DateTime::parse_from_rfc3339(s) {
        Ok(dt) => Some(dt.timestamp()),
        Err(_) => None,
    }
}

/// Relies on chrono's `NaiveDate::parse_from_str` (year-month-day) and
/// `NaiveDate::and_hms_opt`: the first second of the written day, a function
/// of the text alone.
#[verifier::external_body]
pub fn parse_day_start(s: &str) -> (r: Option<i64>)
    ensures
        r == day_start_val(s@),
{
    match chrono::NaiveDate::parse_from_str(s, "%Y-%m-%d") {
        Ok(d) => d.and_hms_opt(0, 0, 0).map(|ndt| ndt.and_utc().timestamp()),
        Err(_) => None,
    }
}

} // verus!
