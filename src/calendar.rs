//! Calendar computations on Unix instants, done by chrono and date_component.
use vstd::prelude::*;

verus! {

/// First second of the year 1 (0001-01-01T00:00:00Z), as a Unix instant.
pub const MIN_INSTANT: i64 = -62135596800;

/// Last second of the year 9999 (9999-12-31T23:59:59Z), as a Unix instant.
pub const MAX_INSTANT: i64 = 253402300799;

/// Seconds in a day.
pub const SECONDS_PER_DAY: i64 = 86400;

/// An instant, in seconds since the Unix epoch, that the calendar functions accept.
pub open spec fn instant_in_range(t: int) -> bool {
    MIN_INSTANT <= t <= MAX_INSTANT
}

/// Whether `t` lies between the years 1 and 9999, the instants that the
/// calendar functions accept.
pub fn supported_instant(t: i64) -> (r: bool)
    ensures
        r == instant_in_range(t as int),
{
    MIN_INSTANT <= t && t <= MAX_INSTANT
}

/// Years, months and days from the first instant to the second, as
/// `date_component::calculate` decomposes the interval along the calendar.
pub uninterp spec fn calendar_gap(start: int, end: int) -> (int, int, int);

/// The UTC calendar date of an instant, written `YYYY-MM-DD`.
pub uninterp spec fn utc_date_text(t: int) -> Seq<char>;

/// Relies on `date_component::calculate` on two UTC date-times: the whole
/// years, months and days between them.
#[verifier::external_body]
pub(crate) fn calendar_parts(start: i64, end: i64) -> (r: (i64, i64, i64))
    requires
        instant_in_range(start as int),
        instant_in_range(end as int),
    ensures
        (r.0 as int, r.1 as int, r.2 as int) == calendar_gap(start as int, end as int),
{
    let from = chrono::DateTime::from_timestamp(start, 0).unwrap();
    let to = chrono::DateTime::from_timestamp(end, 0).unwrap();
    let c = date_component::date_component::calculate(&from, &to);
    (c.year as i64, c.month as i64, c.day as i64)
}

/// Relies on chrono's `DateTime::format` with `%Y-%m-%d`: the UTC date of an instant.
#[verifier::external_body]
pub(crate) fn date_text(t: i64) -> (r: String)
    requires
        instant_in_range(t as int),
    ensures
        r@ == utc_date_text(t as int),
{
    chrono::DateTime::from_timestamp(t, 0).unwrap().format("%Y-%m-%d").to_string()
}

} // verus!
