//! A local wall-clock datetime paired with the instant it denotes.
//!
//! The civil fields (date and second-of-day) and the unix timestamp of a
//! `LocalDateTime` are tied together by the host timezone. The library
//! does not model the timezone itself; it relies on the documented bound
//! that a timezone offset is strictly less than one day, so the unix
//! timestamp always lies within a day of the naive (offset-free) reading
//! of the civil fields. Resolving a civil datetime to an instant is
//! delegated to the timezone library behind one trusted wrapper.

use vstd::prelude::*;
use chrono::TimeZone;
use crate::calendar::CivilDate;
use crate::calendar::MAX_YEAR;
use crate::calendar::MIN_YEAR;
use crate::calendar::epoch_days;
use crate::calendar::lemma_days_before_month_bounds;
use crate::calendar::lemma_days_before_year_nonneg;
use crate::calendar::to_epoch_days;

verus! {

/// A timezone offset is within one day of UTC, exclusive: the unix
/// timestamp of a local civil reading differs from its naive reading by
/// at most this many seconds.
pub const MAX_TZ_OFFSET: u32 = 86399;

/// Resolve a local civil datetime to a unix timestamp, if that wall-clock
/// reading exists in the host timezone (it may fall in a DST gap). Of an
/// ambiguous reading the earlier instant is taken.
///
/// Relies on chrono: `NaiveDate::from_ymd_opt` and
/// `NaiveTime::from_num_seconds_from_midnight_opt` accept exactly the
/// valid Gregorian dates and the second counts under one day;
/// `TimeZone::from_local_datetime` on `Local` maps a wall-clock reading
/// to the instants that display as it, offset by a `FixedOffset` bounded
/// strictly within one day; `MappedLocalTime::earliest` picks the first
/// of them; `DateTime::timestamp` counts unix seconds. Dates are counted
/// in the proleptic Gregorian calendar from the unix epoch, as
/// `epoch_days` does.
#[verifier::external_body]
pub fn resolve_local_timestamp(year: i32, month: u8, day: u8, secs: u32) -> (r: Option<i64>)
    requires
        year >= MIN_YEAR,
    ensures
        r is Some ==> epoch_days(year as int, month as int, day as int) * 86400 + secs
            - MAX_TZ_OFFSET <= r->0 <= epoch_days(year as int, month as int, day as int) * 86400
            + secs + MAX_TZ_OFFSET,
{
    let date = match chrono::NaiveDate::from_ymd_opt(year, month as u32, day as u32) {
        Some(d) => d,
        None => return None,
    };
    let time = match chrono::NaiveTime::from_num_seconds_from_midnight_opt(secs, 0) {
        Some(t) => t,
        None => return None,
    };
    match chrono::Local.from_local_datetime(&chrono::NaiveDateTime::new(date, time)).earliest() {
        Some(instant) => Some(instant.timestamp()),
        None => None,
    }
}

/// A local wall-clock datetime and the unix timestamp it denotes.
#[derive(Clone, Copy, Debug, PartialEq, Eq, Structural)]
pub struct LocalDateTime {
    /// The local calendar day.
    pub date: CivilDate,
    /// Seconds since local midnight.
    pub secs: u32,
    /// Unix timestamp of the instant.
    pub unix: i64,
}

impl LocalDateTime {
    /// The naive reading of the civil fields: seconds from the epoch if
    /// the wall clock were UTC.
    pub open spec fn naive_secs(self) -> int {
        self.date.days() * 86400 + self.secs
    }

    /// The civil fields form a date from 1970-01-02 through year 9999,
    /// the second count is under a day, and the timestamp is within a
    /// timezone offset of the naive reading.
    pub open spec fn wf(self) -> bool {
        &&& self.date.wf()
        &&& self.date.year <= MAX_YEAR
        &&& self.date.days() >= 1
        &&& self.secs < 86400
        &&& self.naive_secs() - MAX_TZ_OFFSET <= self.unix <= self.naive_secs() + MAX_TZ_OFFSET
    }

    /// Build a `LocalDateTime` from plain fields, checking that they are
    /// consistent: the caller typically reads them off one clock value.
    /// Rejects dates outside 1970-01-02..=9999-12-31, second counts of a
    /// day or more, and timestamps farther than a timezone offset from
    /// the naive reading.
    pub fn from_parts(year: i32, month: u8, day: u8, secs: u32, unix: i64) -> (r: Option<
        LocalDateTime,
    >)
        ensures
            r is Some ==> r->0.wf() && r->0.date == (CivilDate { year, month, day })
                && r->0.secs == secs && r->0.unix == unix,
            r is None ==> !(LocalDateTime {
                date: CivilDate { year, month, day },
                secs,
                unix,
            }).wf(),
    {
        let date = match CivilDate::new(year, month, day) {
            Some(d) => d,
            None => return None,
        };
        if secs >= 86400 {
            return None;
        }
        let days = to_epoch_days(&date);
        if days < 1 {
            return None;
        }
        let naive: i64 = (days as i64) * 86400 + (secs as i64);
        if unix < naive - (MAX_TZ_OFFSET as i64) || unix > naive + (MAX_TZ_OFFSET as i64) {
            return None;
        }
        Some(LocalDateTime { date, secs, unix })
    }

    /// Resolve a civil datetime against the host timezone. The result,
    /// when the reading exists, carries the civil fields given and the
    /// timestamp the timezone assigns to them. Readings on the epoch day
    /// itself or past year 9999 are not representable.
    pub fn resolve(date: CivilDate, secs: u32) -> (r: Option<LocalDateTime>)
        requires
            date.wf(),
            date.year <= MAX_YEAR,
            secs < 86400,
        ensures
            r is Some ==> r->0.wf() && r->0.date == date && r->0.secs == secs,
    {
        let days = to_epoch_days(&date);
        if days < 1 {
            return None;
        }
        match resolve_local_timestamp(date.year, date.month, date.day, secs) {
            Some(ts) => Some(LocalDateTime { date, secs, unix: ts }),
            None => None,
        }
    }

    /// The local datetime one second later: the instant advances by one
    /// second, and the wall clock reading advances with it. Fails only
    /// when the successor day would leave the representable range.
    pub fn plus_one_second(&self) -> (r: Option<LocalDateTime>)
        requires
            self.wf(),
        ensures
            r is Some ==> r->0.wf() && r->0.unix == self.unix + 1 && r->0.naive_secs()
                == self.naive_secs() + 1,
    {
        proof {
            lemma_days_before_year_nonneg(self.date.year as int);
            lemma_days_before_month_bounds(self.date.year as int, self.date.month as int);
        }
        if self.secs + 1 < 86400 {
            Some(LocalDateTime { date: self.date, secs: self.secs + 1, unix: self.unix + 1 })
        } else {
            let d = crate::calendar::next_day(&self.date);
            if d.year > MAX_YEAR {
                return None;
            }
            Some(LocalDateTime { date: d, secs: 0, unix: self.unix + 1 })
        }
    }
}

} // verus!
