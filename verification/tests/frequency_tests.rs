use rnotifyd::calendar::CivilDate;
use rnotifyd::calendar::Month;
use rnotifyd::calendar::Weekday;
use rnotifyd::frequency::FixedPeriodInner;
use rnotifyd::frequency::Frequency;
use rnotifyd::frequency::TimeOfDay;
use rnotifyd::local_time::LocalDateTime;

fn ldt(year: i32, month: u8, day: u8, h: u8, mi: u8, s: u8) -> LocalDateTime {
    let date = CivilDate::new(year, month, day).expect("valid date");
    let time = TimeOfDay::from_hms(h, mi, s).expect("valid time");
    LocalDateTime::resolve(date, time.secs).expect("resolvable local datetime")
}

fn hms(h: u8, m: u8, s: u8) -> TimeOfDay {
    TimeOfDay::from_hms(h, m, s).expect("valid time")
}

////////////////////// Fixed Period //////////////////////

#[test]
fn fixed_period_no_prev() {
    let fixed_period = Frequency::FixedPeriod(FixedPeriodInner::new(3, 13, 3));
    let start = ldt(2022, 3, 17, 5, 46, 13);

    let pred = fixed_period.next(&start, None);

    assert_eq!(pred, start.unix as u64);
}

#[test]
fn fixed_period() {
    let fixed_period = Frequency::FixedPeriod(FixedPeriodInner::new(3, 13, 3));
    let start = ldt(2022, 3, 17, 5, 46, 13);
    let end = ldt(2022, 3, 17, 8, 59, 16);

    let pred = fixed_period.next(&start, Some(start.unix as u64));

    assert_eq!(pred, end.unix as u64);
}

////////////////////// Daily //////////////////////

#[test]
fn daily_same_day() {
    let daily = Frequency::Daily { time: hms(7, 1, 30) };

    let start = ldt(2021, 7, 17, 4, 47, 14);
    let next = ldt(2021, 7, 17, 7, 1, 30);
    let next_predicted = daily.next(&start, None);

    assert_eq!(next_predicted, next.unix as u64);
}

#[test]
fn daily_next_day() {
    let start = ldt(2021, 3, 12, 16, 55, 19);

    let daily = Frequency::Daily { time: hms(12, 2, 16) };

    let next = ldt(2021, 3, 13, 12, 2, 16);

    let pred = daily.next(&start, None);

    assert_eq!(pred, next.unix as u64);
}

////////////////////// Weekly //////////////////////

#[test]
fn weekly_same_day() {
    let start = ldt(2021, 3, 12, 8, 55, 19);

    let weekly = Frequency::Weekly { days: vec![Weekday::Friday], time: hms(12, 0, 0) };

    let next = ldt(2021, 3, 12, 12, 0, 0);

    let pred = weekly.next(&start, None);
    assert_eq!(pred, next.unix as u64);
}

#[test]
fn weekly_same_week_pre() {
    let start = ldt(2021, 3, 10, 8, 30, 19);

    let weekly = Frequency::Weekly { days: vec![Weekday::Friday], time: hms(12, 0, 0) };

    let next = ldt(2021, 3, 12, 12, 0, 0);

    let pred = weekly.next(&start, None);
    assert_eq!(pred, next.unix as u64);
}

#[test]
fn weekly_post_weekday() {
    let start = ldt(2021, 3, 6, 8, 30, 19);

    let weekly = Frequency::Weekly { days: vec![Weekday::Friday], time: hms(12, 0, 0) };

    let next = ldt(2021, 3, 12, 12, 0, 0);

    let pred = weekly.next(&start, None);
    assert_eq!(pred, next.unix as u64);
}

////////////////////// Monthly //////////////////////

#[test]
fn monthly_same_day_pre() {
    let start = ldt(2020, 7, 15, 3, 22, 30);

    let monthly = Frequency::Monthly { day: 15, time: hms(13, 0, 0) };

    let next = ldt(2020, 7, 15, 13, 0, 0);

    let pred = monthly.next(&start, None);
    assert_eq!(pred, next.unix as u64);
}

#[test]
fn monthly_same_day_post() {
    let start = ldt(2020, 7, 15, 17, 22, 30);

    let monthly = Frequency::Monthly { day: 15, time: hms(13, 0, 0) };

    let next = ldt(2020, 8, 15, 13, 0, 0);

    let pred = monthly.next(&start, None);
    assert_eq!(pred, next.unix as u64);
}

#[test]
fn monthly_same_month_pre() {
    let start = ldt(2020, 7, 13, 3, 22, 30);

    let monthly = Frequency::Monthly { day: 15, time: hms(13, 0, 0) };

    let next = ldt(2020, 7, 15, 13, 0, 0);

    let pred = monthly.next(&start, None);
    assert_eq!(pred, next.unix as u64);
}

#[test]
fn monthly_same_month_post() {
    let start = ldt(2020, 7, 16, 3, 22, 30);

    let monthly = Frequency::Monthly { day: 15, time: hms(13, 0, 0) };

    let next = ldt(2020, 8, 15, 13, 0, 0);

    let pred = monthly.next(&start, None);
    assert_eq!(pred, next.unix as u64);
}

////////////////////// Yearly //////////////////////

#[test]
fn yearly_same_day() {
    let start = ldt(2020, 7, 5, 15, 4, 24);

    let yearly = Frequency::Yearly { months: vec![Month::July], day: 5, time: hms(15, 30, 0) };

    let next = ldt(2020, 7, 5, 15, 30, 0);

    let pred = yearly.next(&start, None);
    assert_eq!(pred, next.unix as u64);
}

#[test]
fn yearly_same_month_pre() {
    let start = ldt(2020, 7, 5, 15, 4, 24);

    let yearly = Frequency::Yearly { months: vec![Month::July], day: 14, time: hms(15, 30, 0) };

    let next = ldt(2020, 7, 14, 15, 30, 0);

    let pred = yearly.next(&start, None);
    assert_eq!(pred, next.unix as u64);
}

#[test]
fn yearly_same_month_post() {
    let start = ldt(2020, 7, 15, 15, 4, 24);

    let yearly = Frequency::Yearly { months: vec![Month::July], day: 14, time: hms(15, 30, 0) };

    let next = ldt(2021, 7, 14, 15, 30, 0);

    let pred = yearly.next(&start, None);
    assert_eq!(pred, next.unix as u64);
}

#[test]
fn yearly_post_day() {
    let start = ldt(2020, 7, 15, 15, 4, 24);

    let yearly = Frequency::Yearly { months: vec![Month::July], day: 14, time: hms(15, 30, 0) };

    let next = ldt(2021, 7, 14, 15, 30, 0);

    let pred = yearly.next(&start, None);
    assert_eq!(pred, next.unix as u64);
}

////////////////////// Further scenarios //////////////////////

#[test]
fn fixed_period_exact_difference() {
    // A period of 3h 13m 3s is exactly 11,583 seconds past the last run.
    let fixed_period = Frequency::FixedPeriod(FixedPeriodInner::new(3, 13, 3));
    let start = ldt(2022, 3, 17, 5, 46, 13);
    let last = 1_647_499_573u64;
    assert_eq!(fixed_period.next(&start, Some(last)), last + 11_583);
}

#[test]
fn fixed_period_saturates_to_never() {
    let fixed_period = Frequency::FixedPeriod(FixedPeriodInner::new(0, 0, 10));
    let start = ldt(2022, 3, 17, 5, 46, 13);
    assert_eq!(fixed_period.next(&start, Some(u64::MAX - 3)), u64::MAX);
}

#[test]
fn weekly_no_days_never_fires() {
    let start = ldt(2021, 3, 10, 8, 30, 19);
    let weekly = Frequency::Weekly { days: vec![], time: hms(12, 0, 0) };
    assert_eq!(weekly.next(&start, None), u64::MAX);
}

#[test]
fn yearly_no_months_never_fires() {
    let start = ldt(2021, 3, 10, 8, 30, 19);
    let yearly = Frequency::Yearly { months: vec![], day: 10, time: hms(12, 0, 0) };
    assert_eq!(yearly.next(&start, None), u64::MAX);
}

#[test]
fn monthly_skips_short_months() {
    // Day 31 from mid-February lands on the 31st of March.
    let start = ldt(2021, 2, 15, 10, 0, 0);
    let monthly = Frequency::Monthly { day: 31, time: hms(9, 0, 0) };
    let next = ldt(2021, 3, 31, 9, 0, 0);
    assert_eq!(monthly.next(&start, None), next.unix as u64);
}

#[test]
fn next_not_before_now_for_daily() {
    // The next daily firing never lies before the current instant.
    let start = ldt(2021, 7, 17, 4, 47, 14);
    let daily = Frequency::Daily { time: hms(7, 1, 30) };
    let pred = daily.next(&start, None);
    assert!(pred >= start.unix as u64);
}

#[test]
fn resolving_consecutive_days_is_a_day_apart() {
    // Mid-December dates avoid DST transitions in any common timezone.
    let a = ldt(2021, 12, 14, 6, 0, 0);
    let b = ldt(2021, 12, 15, 6, 0, 0);
    assert_eq!(b.unix - a.unix, 86_400);
}

#[test]
fn plus_one_second_advances_the_clock() {
    let a = ldt(2021, 12, 14, 23, 59, 59);
    let b = a.plus_one_second().expect("in range");
    assert_eq!(b.unix, a.unix + 1);
    assert_eq!(b.secs, 0);
    assert_eq!(b.date.day, 15);
}
