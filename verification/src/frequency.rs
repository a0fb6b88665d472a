//! Recurrence evaluation: given a recurrence kind, the current local
//! datetime and the last recorded run, compute the unix time of the next
//! due run.
//!
//! `u64::MAX` is the "never" sentinel: it is returned when a recurrence
//! has no members to fire on, or when no firing wall-clock reading
//! exists within the search horizon (every candidate falls in a DST
//! gap). Callers treat it as an indefinite wait.
//!
//! The timezone is not modelled, so the contracts of the wall-clock
//! variants locate the result within a timezone offset
//! (`MAX_TZ_OFFSET`) of the naive reading of a firing civil datetime,
//! rather than pinning the exact instant; which candidate day resolves
//! first may depend on the host timezone's DST gaps.

use vstd::prelude::*;
use crate::calendar::CivilDate;
use crate::calendar::Month;
use crate::calendar::Weekday;
use crate::calendar::days_in_month;
use crate::calendar::days_in_month_spec;
use crate::calendar::days_before_month;
use crate::calendar::first_of_next_month;
use crate::calendar::lemma_days_before_month_monotone;
use crate::calendar::lemma_year_month_sum;
use crate::calendar::next_day;
use crate::calendar::weekday_num_of;
use crate::local_time::LocalDateTime;
use crate::local_time::MAX_TZ_OFFSET;
use crate::local_time::resolve_local_timestamp;

verus! {

/// A wall-clock time of day, as seconds since local midnight.
#[derive(Clone, Copy, Debug, PartialEq, Eq, Structural)]
pub struct TimeOfDay {
    pub secs: u32,
}

impl TimeOfDay {
    pub open spec fn wf(self) -> bool {
        self.secs < 86400
    }

    /// Build a time of day from hour, minute and second counts.
    pub fn from_hms(hour: u8, minute: u8, second: u8) -> (r: Option<TimeOfDay>)
        ensures
            r is Some <==> hour < 24 && minute < 60 && second < 60,
            r is Some ==> r->0.wf() && r->0.secs == hour * 3600 + minute * 60 + second,
    {
        if hour < 24 && minute < 60 && second < 60 {
            Some(TimeOfDay { secs: (hour as u32) * 3600 + (minute as u32) * 60 + (second as u32) })
        } else {
            None
        }
    }
}

/// The period of a fixed-period recurrence, as hours, minutes and
/// seconds that are summed.
#[derive(Clone, Copy, Debug, PartialEq, Eq, Structural)]
pub struct FixedPeriodInner {
    pub hours: u32,
    pub minutes: u32,
    pub seconds: u64,
}

impl FixedPeriodInner {
    /// The period in whole seconds.
    pub open spec fn period(self) -> int {
        self.hours * 3600 + self.minutes * 60 + self.seconds
    }

    pub open spec fn wf(self) -> bool {
        self.period() <= u64::MAX
    }

    /// The summed period must fit in a second count.
    pub fn new(hours: u32, minutes: u32, seconds: u64) -> (r: Self)
        requires
            (hours as int) * 3600 + (minutes as int) * 60 + seconds <= u64::MAX,
        ensures
            r == (FixedPeriodInner { hours, minutes, seconds }),
            r.wf(),
    {
        FixedPeriodInner { hours, minutes, seconds }
    }

    pub fn as_seconds(&self) -> (r: u64)
        requires
            self.wf(),
        ensures
            r == self.period(),
    {
        let mut seconds: u64 = (self.hours as u64) * 60 * 60;
        seconds = seconds + (self.minutes as u64) * 60;
        seconds = seconds + self.seconds;
        seconds
    }
}

/// When a job recurs.
#[derive(Clone, Debug)]
pub enum Frequency {
    Daily { time: TimeOfDay },
    Weekly { days: Vec<Weekday>, time: TimeOfDay },
    Monthly { day: u8, time: TimeOfDay },
    Yearly { months: Vec<Month>, day: u8, time: TimeOfDay },
    FixedPeriod(FixedPeriodInner),
}

impl Frequency {
    pub open spec fn wf(self) -> bool {
        match self {
            Frequency::Daily { time } => time.wf(),
            Frequency::Weekly { days, time } => time.wf(),
            Frequency::Monthly { day, time } => time.wf() && 1 <= day <= 31,
            Frequency::Yearly { months, day, time } => time.wf() && 1 <= day <= 31,
            Frequency::FixedPeriod(inner) => inner.wf(),
        }
    }
}

/// The calendar day a forward search starts on: `now`'s own day, or
/// the next when `now`'s time of day is already past the firing time.
pub open spec fn search_start_days(now: LocalDateTime, t: TimeOfDay) -> int {
    if now.secs > t.secs {
        now.date.days() + 1
    } else {
        now.date.days()
    }
}

/// `r` is the timestamp the timezone assigned to the firing reading
/// `(d, t)`: within an offset of its naive reading.
pub open spec fn candidate_near(r: u64, d: CivilDate, t: TimeOfDay) -> bool {
    &&& d.wf()
    &&& d.days() * 86400 + t.secs - MAX_TZ_OFFSET <= r as int <= d.days() * 86400 + t.secs
        + MAX_TZ_OFFSET
}

/// A daily recurrence fires at `t` on a day whose reading is not before
/// `now`'s.
pub open spec fn daily_next_ok(now: LocalDateTime, t: TimeOfDay, r: u64) -> bool {
    ||| r == u64::MAX
    ||| exists|d: CivilDate|
        #[trigger] candidate_near(r, d, t) && d.days() * 86400 + t.secs >= now.naive_secs()
            && search_start_days(now, t) <= d.days() <= search_start_days(now, t) + 99
}

/// A weekly recurrence fires at `t` on a listed weekday not before
/// `now`'s calendar day (the configured time of `now`'s own day counts
/// even when already past).
pub open spec fn weekly_next_ok(now: LocalDateTime, days: Seq<Weekday>, t: TimeOfDay, r: u64) -> bool {
    ||| r == u64::MAX
    ||| exists|d: CivilDate|
        #[trigger] candidate_near(r, d, t) && now.date.days() <= d.days() <= now.date.days() + 299
            && (exists|j: int| 0 <= j < days.len() && days[j].num() == d.weekday_num())
}

/// A monthly recurrence fires at `t` on a day of month `day`, not
/// before `now`'s reading.
pub open spec fn monthly_next_ok(now: LocalDateTime, day: u8, t: TimeOfDay, r: u64) -> bool {
    ||| r == u64::MAX
    ||| exists|d: CivilDate|
        #[trigger] candidate_near(r, d, t) && d.days() * 86400 + t.secs >= now.naive_secs()
            && d.day == day && search_start_days(now, t) <= d.days() <= search_start_days(now, t)
            + 99
}

/// A yearly recurrence fires at `t` on day `day` of a listed month, not
/// before `now`'s reading.
pub open spec fn yearly_next_ok(
    now: LocalDateTime,
    months: Seq<Month>,
    day: u8,
    t: TimeOfDay,
    r: u64,
) -> bool {
    ||| r == u64::MAX
    ||| exists|d: CivilDate|
        #[trigger] candidate_near(r, d, t) && d.days() * 86400 + t.secs >= now.naive_secs()
            && d.day == day && d.year <= now.date.year + 102 && (exists|j: int|
            0 <= j < months.len() && months[j].num() == d.month)
}

/// Decide well-formedness of a recurrence.
pub fn frequency_is_wf(f: &Frequency) -> (r: bool)
    ensures
        r == f.wf(),
{
    match f {
        Frequency::Daily { time } => time.secs < 86400,
        Frequency::Weekly { days, time } => time.secs < 86400,
        Frequency::Monthly { day, time } => time.secs < 86400 && 1 <= *day && *day <= 31,
        Frequency::Yearly { months, day, time } => time.secs < 86400 && 1 <= *day && *day <= 31,
        Frequency::FixedPeriod(inner) => {
            let base: u64 = (inner.hours as u64) * 3600 + (inner.minutes as u64) * 60;
            inner.seconds <= u64::MAX - base
        },
    }
}

/// Whether a weekday-from-Monday number is listed.
fn weekday_in(days: &Vec<Weekday>, wnum: u8) -> (r: bool)
    ensures
        r == exists|j: int| 0 <= j < days@.len() && days@[j].num() == wnum,
{
    let mut i: usize = 0;
    while i < days.len()
        invariant
            0 <= i <= days@.len(),
            forall|j: int| 0 <= j < i ==> days@[j].num() != wnum,
        decreases days@.len() - i,
    {
        if days[i].number() == wnum {
            return true;
        }
        i = i + 1;
    }
    false
}

/// Whether a month number is listed.
fn month_in(months: &Vec<Month>, mnum: u8) -> (r: bool)
    ensures
        r == exists|j: int| 0 <= j < months@.len() && months@[j].num() == mnum,
{
    let mut i: usize = 0;
    while i < months.len()
        invariant
            0 <= i <= months@.len(),
            forall|j: int| 0 <= j < i ==> months@[j].num() != mnum,
        decreases months@.len() - i,
    {
        if months[i].number() == mnum {
            return true;
        }
        i = i + 1;
    }
    false
}

/// The full contract of `Frequency::next`: what `r` may be for a
/// recurrence `f`, a current local datetime and a last recorded run.
pub open spec fn next_result_ok(f: Frequency, now: LocalDateTime, last: Option<u64>, r: u64) -> bool {
    &&& (match f {
        Frequency::FixedPeriod(inner) => (match last {
            Some(l) => (if l + inner.period() <= u64::MAX {
                r == l + inner.period()
            } else {
                r == u64::MAX
            }),
            None => r == now.unix,
        }),
        Frequency::Daily { time } => daily_next_ok(now, time, r),
        Frequency::Weekly { days, time } => weekly_next_ok(now, days@, time, r),
        Frequency::Monthly { day, time } => monthly_next_ok(now, day, time, r),
        Frequency::Yearly { months, day, time } => yearly_next_ok(now, months@, day, time, r),
    })
    &&& (!(f is FixedPeriod) && r != u64::MAX ==> r as int >= now.unix - 3 * MAX_TZ_OFFSET)
}

impl Frequency {
    /// The unix time of the next due run, given the current local
    /// datetime and the unix time of the last recorded run.
    ///
    /// `FixedPeriod` adds the period to the last run (saturating into
    /// the "never" sentinel), or is due at `now` when there is none; a
    /// long-overdue last run may thus place the result in the past,
    /// which reads as "run immediately". The wall-clock variants search
    /// forward day by day from `now` (from the next day when `now`'s
    /// time of day is already past the configured time, except for
    /// `Weekly`, which considers `now`'s whole day) and return the
    /// instant of the first reading the timezone can resolve, within a
    /// bounded horizon; `last_unix_time` is ignored.
    #[verifier::loop_isolation(false)]
    pub fn next(&self, now: &LocalDateTime, last_unix_time: Option<u64>) -> (r: u64)
        requires
            self.wf(),
            now.wf(),
        ensures
            next_result_ok(*self, *now, last_unix_time, r),
    {
        match self {
            Frequency::FixedPeriod(inner) => {
                match last_unix_time {
                    None => now.unix as u64,
                    Some(last) => {
                        let period = inner.as_seconds();
                        if last > u64::MAX - period {
                            u64::MAX
                        } else {
                            last + period
                        }
                    },
                }
            },
            Frequency::Daily { time } => {
                let t = time.secs;
                let mut cur: CivilDate = now.date;
                if now.secs > t {
                    cur = next_day(&now.date);
                }
                let mut k: u32 = 0;
                while k < 100
                    invariant
                        now.wf(),
                        t == time.secs,
                        t < 86400,
                        k <= 100,
                        cur.wf(),
                        cur.year <= now.date.year + 1 + k,
                        cur.days() == search_start_days(*now, *time) + k,
                        cur.days() * 86400 + t >= now.naive_secs(),
                    decreases 100 - k,
                {
                    if let Some(ts) = resolve_local_timestamp(cur.year, cur.month, cur.day, t) {
                        proof {
                            assert(ts >= 1);
                            assert(candidate_near(ts as u64, cur, *time));
                        }
                        return ts as u64;
                    }
                    cur = next_day(&cur);
                    k = k + 1;
                }
                u64::MAX
            },
            Frequency::Weekly { days, time } => {
                if days.len() == 0 {
                    return u64::MAX;
                }
                let t = time.secs;
                let mut cur: CivilDate = now.date;
                let mut k: u32 = 0;
                while k < 300
                    invariant
                        now.wf(),
                        t == time.secs,
                        t < 86400,
                        k <= 300,
                        cur.wf(),
                        cur.year <= now.date.year + 1 + k,
                        cur.days() == now.date.days() + k,
                    decreases 300 - k,
                {
                    let w = weekday_num_of(&cur);
                    if weekday_in(days, w) {
                        if let Some(ts) = resolve_local_timestamp(cur.year, cur.month, cur.day, t) {
                            proof {
                                assert(ts >= 1);
                                assert(candidate_near(ts as u64, cur, *time));
                            }
                            return ts as u64;
                        }
                    }
                    cur = next_day(&cur);
                    k = k + 1;
                }
                u64::MAX
            },
            Frequency::Monthly { day, time } => {
                let t = time.secs;
                let mut cur: CivilDate = now.date;
                if now.secs > t {
                    cur = next_day(&now.date);
                }
                let mut k: u32 = 0;
                while k < 100
                    invariant
                        now.wf(),
                        t == time.secs,
                        t < 86400,
                        k <= 100,
                        cur.wf(),
                        cur.year <= now.date.year + 1 + k,
                        cur.days() == search_start_days(*now, *time) + k,
                        cur.days() * 86400 + t >= now.naive_secs(),
                    decreases 100 - k,
                {
                    if cur.day == *day {
                        if let Some(ts) = resolve_local_timestamp(cur.year, cur.month, cur.day, t) {
                            proof {
                                assert(ts >= 1);
                                assert(candidate_near(ts as u64, cur, *time));
                            }
                            return ts as u64;
                        }
                    }
                    cur = next_day(&cur);
                    k = k + 1;
                }
                u64::MAX
            },
            Frequency::Yearly { months, day, time } => {
                if months.len() == 0 {
                    return u64::MAX;
                }
                let t = time.secs;
                let target = *day;
                let mut cur: CivilDate = now.date;
                if now.secs > t {
                    cur = next_day(&now.date);
                }
                if cur.day > target {
                    cur = first_of_next_month(&cur);
                }
                let mut k: u32 = 0;
                while k < 100
                    invariant
                        now.wf(),
                        t == time.secs,
                        t < 86400,
                        1 <= target <= 31,
                        target == *day,
                        k <= 100,
                        cur.wf(),
                        cur.year <= now.date.year + 2 + k,
                        cur.day <= target,
                        cur.days() * 86400 + t + (target - cur.day) * 86400 >= now.naive_secs(),
                    decreases 100 - k,
                {
                    if month_in(months, cur.month) {
                        let dim = days_in_month(cur.year, cur.month);
                        if target <= dim {
                            let cand = CivilDate { year: cur.year, month: cur.month, day: target };
                            proof {
                                assert(cand.wf());
                                assert(cand.days() == cur.days() + (target - cur.day));
                            }
                            if let Some(ts) = resolve_local_timestamp(
                                cand.year,
                                cand.month,
                                cand.day,
                                t,
                            ) {
                                proof {
                                    assert(ts >= 1);
                                    assert(candidate_near(ts as u64, cand, *time));
                                }
                                return ts as u64;
                            }
                        }
                    }
                    let mut found = false;
                    let mut j: usize = 0;
                    let ghost cur0 = cur;
                    while j < months.len() && !found
                        invariant
                            0 <= j <= months@.len(),
                            cur0.wf(),
                            cur.wf(),
                            !found ==> cur == cur0,
                            found ==> cur.year == cur0.year && cur.day == cur0.day && cur.month
                                > cur0.month && cur.days() >= cur0.days(),
                        decreases months@.len() - j,
                    {
                        let mnum = months[j].number();
                        if mnum > cur.month {
                            if cur.day <= days_in_month(cur.year, mnum) {
                                proof {
                                    lemma_days_before_month_monotone(
                                        cur.year as int,
                                        cur.month as int,
                                        mnum as int,
                                    );
                                }
                                cur = CivilDate { year: cur.year, month: mnum, day: cur.day };
                                found = true;
                            }
                        }
                        j = j + 1;
                    }
                    if !found {
                        proof {
                            lemma_days_before_month_monotone(
                                cur.year as int,
                                cur.month as int + 1,
                                13,
                            );
                            lemma_year_month_sum(cur.year as int);
                            assert(days_before_month(cur.year as int, cur.month as int + 1)
                                == days_before_month(cur.year as int, cur.month as int)
                                + days_in_month_spec(cur.year as int, cur.month as int));
                        }
                        cur = CivilDate { year: cur.year + 1, month: 1, day: 1 };
                    }
                    k = k + 1;
                }
                u64::MAX
            },
        }
    }
}

} // verus!
