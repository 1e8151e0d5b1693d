use fluxcap::almanac::{
    a_year, count_between, count_is_sure, next, next_is_sure, rhythm_at, shift, shift_is_sure, this,
    this_is_sure,
};
use fluxcap::{Grain, Instant, Sequence, TimeRange};

fn at(year: i32, month: u32, day: u32, hour: u32, min: u32, sec: u32) -> Instant {
    let date = chrono::NaiveDate::from_ymd_opt(year, month, day).unwrap();
    let secs = date.and_hms_opt(hour, min, sec).unwrap().and_utc().timestamp();
    Instant::new(secs, 0).unwrap()
}

fn day(year: i32, month: u32, day: u32) -> Instant {
    at(year, month, day, 0, 0, 0)
}

fn range(start: Instant, end: Instant, grain: Grain) -> TimeRange {
    TimeRange { start, end, grain }
}

fn every(grain: Grain) -> Sequence {
    Sequence::Every(grain)
}

fn nth(n: u32, win: Sequence, frame: Sequence) -> Sequence {
    Sequence::NthOf(n, Box::new(win), Box::new(frame))
}

#[test]
fn instants_of_the_window() {
    assert_eq!(Instant::new(0, 0), Some(Instant { secs: 0, nanos: 0 }));
    assert_eq!(Instant::new(-62135596800, 0), Some(day(1, 1, 1)));
    assert_eq!(Instant::new(-62135596801, 0), None);
    assert_eq!(Instant::new(253402300799, 999_999_999), Some(Instant { secs: 253402300799, nanos: 999_999_999 }));
    assert_eq!(Instant::new(253402300800, 0), None);
    assert_eq!(Instant::new(0, 1_000_000_000), None);
    assert_eq!(at(9999, 12, 31, 23, 59, 59).secs, 253402300799);
}

#[test]
fn instants_in_order() {
    let a = Instant { secs: 5, nanos: 10 };
    let b = Instant { secs: 5, nanos: 11 };
    let c = Instant { secs: 6, nanos: 0 };
    assert!(a.is_before(&b));
    assert!(b.is_before(&c));
    assert!(a.is_before(&c));
    assert!(!b.is_before(&a));
    assert!(!a.is_before(&a));
    assert!(!c.is_before(&b));
}

#[test]
fn one_nanosecond_back() {
    assert_eq!(Instant { secs: 5, nanos: 10 }.step_back(), Instant { secs: 5, nanos: 9 });
    assert_eq!(Instant { secs: 5, nanos: 0 }.step_back(), Instant { secs: 4, nanos: 999_999_999 });
    assert_eq!(Instant { secs: 0, nanos: 0 }.step_back(), Instant { secs: -1, nanos: 999_999_999 });
}

#[test]
fn grain_labels() {
    assert_eq!(Grain::Second.label(), "Second");
    assert_eq!(Grain::Minute.label(), "Minute");
    assert_eq!(Grain::Hour.label(), "Hour");
    assert_eq!(Grain::Day.label(), "Day");
    assert_eq!(Grain::Week.label(), "Week");
    assert_eq!(Grain::Month.label(), "Month");
    assert_eq!(Grain::Quarter.label(), "Quarter");
    assert_eq!(Grain::Year.label(), "Year");
}

#[test]
fn calendar_years() {
    let now = day(2016, 9, 5);
    assert_eq!(a_year(2002, now), range(day(2002, 1, 1), day(2003, 1, 1), Grain::Year));
    assert_eq!(a_year(2002, now).start.secs, 1009843200);
    assert_eq!(a_year(1970, now).start.secs, 0);
    assert_eq!(a_year(1969, now), range(day(1969, 1, 1), day(1970, 1, 1), Grain::Year));
    assert_eq!(a_year(1, now).start.secs, -62135596800);
    assert_eq!(a_year(1900, now), range(day(1900, 1, 1), day(1901, 1, 1), Grain::Year));
    assert_eq!(a_year(2000, now), range(day(2000, 1, 1), day(2001, 1, 1), Grain::Year));
    assert_eq!(a_year(2100, now), range(day(2100, 1, 1), day(2101, 1, 1), Grain::Year));
    assert_eq!(a_year(9998, now), range(day(9998, 1, 1), day(9999, 1, 1), Grain::Year));
    // the year does not depend on the instant
    assert_eq!(a_year(2002, day(1, 1, 1)), a_year(2002, day(9999, 1, 1)));
}

#[test]
fn leap_years_have_a_day_more() {
    let now = day(2016, 9, 5);
    for (year, days) in [(1900, 365), (1996, 366), (2000, 366), (2001, 365), (2100, 365), (2400, 366)] {
        let y = a_year(year, now);
        assert_eq!(y.end.secs - y.start.secs, days * 86400);
    }
}

#[test]
fn the_day_of_an_instant() {
    let days = every(Grain::Day);
    let midnight = day(2016, 9, 5);
    assert_eq!(this(&days, midnight), range(day(2016, 9, 5), day(2016, 9, 6), Grain::Day));
    let evening = at(2016, 9, 5, 23, 59, 59);
    assert_eq!(this(&days, evening), range(day(2016, 9, 5), day(2016, 9, 6), Grain::Day));
    let late = Instant { secs: evening.secs, nanos: 999_999_999 };
    assert_eq!(this(&days, late), range(day(2016, 9, 5), day(2016, 9, 6), Grain::Day));
    // before 1970 the seconds are negative
    let old = at(1969, 12, 31, 23, 0, 0);
    assert_eq!(old.secs, -3600);
    assert_eq!(this(&days, old), range(day(1969, 12, 31), day(1970, 1, 1), Grain::Day));
    assert_eq!(this(&days, old).start.secs, -86400);
}

#[test]
fn the_days_after_an_instant() {
    let days = every(Grain::Day);
    let noon = at(2016, 9, 5, 12, 0, 0);
    assert_eq!(next(&days, noon, 1), range(day(2016, 9, 6), day(2016, 9, 7), Grain::Day));
    assert_eq!(next(&days, noon, 2), range(day(2016, 9, 7), day(2016, 9, 8), Grain::Day));
    // a day that starts on the instant does not start after it
    let midnight = day(2016, 9, 5);
    assert_eq!(next(&days, midnight, 1), range(day(2016, 9, 6), day(2016, 9, 7), Grain::Day));
}

#[test]
fn next_passes_over_what_has_started() {
    let mondays = Sequence::Weekday(1);
    // 2016-09-05 is a Monday
    let monday = day(2016, 9, 5);
    assert_eq!(this(&mondays, monday), range(day(2016, 9, 5), day(2016, 9, 6), Grain::Day));
    assert_eq!(next(&mondays, monday, 1), range(day(2016, 9, 12), day(2016, 9, 13), Grain::Day));
    // from a Sunday, the first Monday starts after the instant and is the next
    let sunday = day(2016, 9, 4);
    assert_eq!(this(&mondays, sunday), range(day(2016, 9, 5), day(2016, 9, 6), Grain::Day));
    assert_eq!(next(&mondays, sunday, 1), range(day(2016, 9, 5), day(2016, 9, 6), Grain::Day));
    assert_eq!(next(&mondays, sunday, 2), range(day(2016, 9, 12), day(2016, 9, 13), Grain::Day));
}

#[test]
fn base_sequences() {
    let now = day(2016, 9, 5);
    assert_eq!(this(&every(Grain::Week), now), range(day(2016, 9, 4), day(2016, 9, 11), Grain::Week));
    assert_eq!(this(&every(Grain::Month), now), range(day(2016, 9, 1), day(2016, 10, 1), Grain::Month));
    assert_eq!(this(&every(Grain::Year), now), range(day(2016, 1, 1), day(2017, 1, 1), Grain::Year));
    assert_eq!(this(&Sequence::Month(3), now), range(day(2017, 3, 1), day(2017, 4, 1), Grain::Month));
    assert_eq!(this(&Sequence::Weekday(0), now), range(day(2016, 9, 11), day(2016, 9, 12), Grain::Day));
    assert_eq!(this(&Sequence::Weekday(6), now), range(day(2016, 9, 10), day(2016, 9, 11), Grain::Day));
    assert_eq!(this(&Sequence::Year(1984), now), range(day(1984, 1, 1), day(1985, 1, 1), Grain::Year));
    assert_eq!(this(&every(Grain::Hour), at(2016, 9, 5, 10, 30, 0)),
        range(at(2016, 9, 5, 10, 0, 0), at(2016, 9, 5, 11, 0, 0), Grain::Hour));
}

#[test]
fn a_weekend_is_two_days_of_grain_day() {
    let now = day(2016, 9, 5);
    let weekend = this(&Sequence::Weekend, now);
    assert_eq!(weekend, range(day(2016, 9, 10), day(2016, 9, 12), Grain::Day));
    assert_eq!(weekend.end.secs - weekend.start.secs, 2 * 86400);
    // on a Sunday the weekend is the one under way
    assert_eq!(this(&Sequence::Weekend, day(2016, 9, 11)), range(day(2016, 9, 10), day(2016, 9, 12), Grain::Day));
}

#[test]
fn selections() {
    let now = day(2016, 9, 5);
    let third_monday = nth(3, Sequence::Weekday(1), every(Grain::Month));
    assert_eq!(this(&third_monday, now), range(day(2016, 9, 19), day(2016, 9, 20), Grain::Day));
    let last_day = Sequence::LastOf(1, Box::new(every(Grain::Day)), Box::new(every(Grain::Month)));
    assert_eq!(this(&last_day, day(2020, 2, 1)), range(day(2020, 2, 29), day(2020, 3, 1), Grain::Day));
    assert_eq!(this(&last_day, day(2021, 2, 1)), range(day(2021, 2, 28), day(2021, 3, 1), Grain::Day));
    let second_last = Sequence::LastOf(2, Box::new(every(Grain::Day)), Box::new(every(Grain::Month)));
    assert_eq!(this(&second_last, day(2021, 2, 1)), range(day(2021, 2, 27), day(2021, 2, 28), Grain::Day));
    // the 31st skips the months that have none
    let thirty_first = nth(31, every(Grain::Day), every(Grain::Month));
    assert_eq!(this(&thirty_first, day(2016, 9, 5)), range(day(2016, 10, 31), day(2016, 11, 1), Grain::Day));
}

#[test]
fn overlaps() {
    let now = day(2016, 10, 24);
    let friday_18th = Sequence::Intersect(
        Box::new(Sequence::Weekday(5)),
        Box::new(nth(18, every(Grain::Day), every(Grain::Month))),
    );
    assert_eq!(this(&friday_18th, now), range(day(2016, 11, 18), day(2016, 11, 19), Grain::Day));
    let mondays_of_february = Sequence::Intersect(Box::new(Sequence::Weekday(1)), Box::new(Sequence::Month(2)));
    assert_eq!(this(&mondays_of_february, now), range(day(2017, 2, 6), day(2017, 2, 7), Grain::Day));
    assert_eq!(next(&mondays_of_february, now, 5), range(day(2018, 2, 5), day(2018, 2, 6), Grain::Day));
}

#[test]
fn shifts_by_units_of_fixed_length() {
    let today = range(day(2016, 10, 26), day(2016, 10, 27), Grain::Day);
    assert_eq!(shift(today, Grain::Day, 1), range(day(2016, 10, 27), day(2016, 10, 28), Grain::Day));
    assert_eq!(shift(today, Grain::Day, -26), range(day(2016, 9, 30), day(2016, 10, 1), Grain::Day));
    assert_eq!(shift(today, Grain::Week, -2), range(day(2016, 10, 12), day(2016, 10, 13), Grain::Day));
    assert_eq!(shift(today, Grain::Week, 1).start.secs, today.start.secs + 604800);
    assert_eq!(shift(today, Grain::Hour, 5).start.secs, today.start.secs + 5 * 3600);
    assert_eq!(shift(today, Grain::Minute, -5).end.secs, today.end.secs - 300);
    assert_eq!(shift(today, Grain::Second, 7).start.secs, today.start.secs + 7);
    assert_eq!(shift(today, Grain::Day, 0), today);
    // the nanoseconds stay
    let odd = TimeRange {
        start: Instant { secs: 10, nanos: 5 },
        end: Instant { secs: 20, nanos: 7 },
        grain: Grain::Second,
    };
    let moved = shift(odd, Grain::Minute, 1);
    assert_eq!(moved.start, Instant { secs: 70, nanos: 5 });
    assert_eq!(moved.end, Instant { secs: 80, nanos: 7 });
    assert_eq!(moved.grain, Grain::Second);
}

#[test]
fn shifts_on_the_calendar() {
    let today = range(day(2016, 10, 26), day(2016, 10, 27), Grain::Day);
    assert_eq!(shift(today, Grain::Month, 1), range(day(2016, 11, 26), day(2016, 11, 27), Grain::Day));
    assert_eq!(shift(today, Grain::Month, -10), range(day(2015, 12, 26), day(2015, 12, 27), Grain::Day));
    assert_eq!(shift(today, Grain::Quarter, 1), range(day(2017, 1, 26), day(2017, 1, 27), Grain::Day));
    assert_eq!(shift(today, Grain::Year, 1), range(day(2017, 10, 26), day(2017, 10, 27), Grain::Day));
    assert_eq!(shift(today, Grain::Year, -16), range(day(2000, 10, 26), day(2000, 10, 27), Grain::Day));
    // the grain of the range stays, whatever the unit
    let september = range(day(2016, 9, 1), day(2016, 10, 1), Grain::Month);
    assert_eq!(shift(september, Grain::Day, 1), range(day(2016, 9, 2), day(2016, 10, 2), Grain::Month));
}

#[test]
fn a_shift_forth_and_back_returns() {
    let today = range(day(2016, 10, 26), day(2016, 10, 27), Grain::Day);
    for grain in [Grain::Second, Grain::Minute, Grain::Hour, Grain::Day, Grain::Week] {
        for n in [1, 2, 7, 30, 365, 1000] {
            assert_eq!(shift(shift(today, grain, n), grain, -n), today);
            assert_eq!(shift(shift(today, grain, -n), grain, n), today);
        }
    }
    // by months the way back ends on an earlier day, and the range still holds
    // the day that it set out from
    let last = range(day(2017, 1, 31), day(2017, 2, 1), Grain::Day);
    let there = shift(last, Grain::Month, 1);
    assert_eq!(there, range(day(2017, 2, 28), day(2017, 3, 1), Grain::Day));
    let back = shift(there, Grain::Month, -1);
    assert_eq!(back, range(day(2017, 1, 28), day(2017, 2, 1), Grain::Day));
    assert!(!last.start.is_before(&back.start) && last.start.is_before(&back.end));
}

#[test]
fn counting_is_from_the_instant_on_and_up_to_the_bound() {
    let days = every(Grain::Day);
    // from midnight, the day under way counts
    assert_eq!(count_between(&days, day(2016, 9, 5), day(2016, 9, 6)), 1);
    assert_eq!(count_between(&days, day(2016, 9, 5), day(2016, 9, 15)), 10);
    // from later in the day, it does not
    assert_eq!(count_between(&days, at(2016, 9, 5, 0, 0, 1), day(2016, 9, 6)), 0);
    assert_eq!(count_between(&days, at(2016, 9, 5, 12, 0, 0), day(2016, 9, 15)), 9);
    assert_eq!(count_between(&days, Instant { secs: day(2016, 9, 5).secs, nanos: 1 }, day(2016, 9, 15)), 9);
    // a bound within a day lets that day in
    assert_eq!(count_between(&days, day(2016, 9, 5), at(2016, 9, 6, 0, 0, 1)), 2);
    // nothing lies before a bound that is not ahead
    assert_eq!(count_between(&days, day(2016, 9, 5), day(2016, 9, 5)), 0);
    assert_eq!(count_between(&days, day(2016, 9, 5), day(2016, 9, 1)), 0);
}

#[test]
fn counting_other_sequences() {
    let from = day(2016, 9, 5);
    assert_eq!(count_between(&every(Grain::Month), from, day(2018, 1, 1)), 15);
    assert_eq!(count_between(&every(Grain::Week), from, day(2016, 12, 1)), 12);
    assert_eq!(count_between(&Sequence::Weekday(1), day(2016, 10, 25), day(2016, 11, 14)), 2);
    assert_eq!(count_between(&Sequence::Weekend, day(2016, 10, 25), day(2017, 1, 1)), 10);
    assert_eq!(count_between(&every(Grain::Year), day(2000, 1, 1), day(2016, 1, 1)), 16);
}

/// Where the first range starts, how far apart the ranges start, and how long they are.
fn rhythm_of(seq: &Sequence, at: Instant) -> (i64, i64, i64, Grain) {
    let day = at.secs - at.secs.rem_euclid(86400);
    let weekday = (day.div_euclid(86400) + 4).rem_euclid(7);
    match seq {
        Sequence::Every(Grain::Second) => (at.secs, 1, 1, Grain::Second),
        Sequence::Every(Grain::Minute) => (at.secs - at.secs.rem_euclid(60), 60, 60, Grain::Minute),
        Sequence::Every(Grain::Hour) => (at.secs - at.secs.rem_euclid(3600), 3600, 3600, Grain::Hour),
        Sequence::Every(Grain::Day) => (day, 86400, 86400, Grain::Day),
        Sequence::Every(Grain::Week) => (day - weekday * 86400, 604800, 604800, Grain::Week),
        Sequence::Weekday(d) => (day + (*d as i64 - weekday).rem_euclid(7) * 86400, 604800, 86400, Grain::Day),
        Sequence::Weekend => {
            let first = if weekday == 0 { day - 86400 } else { day + (6 - weekday) * 86400 };
            (first, 604800, 172800, Grain::Day)
        }
        _ => panic!("no rhythm"),
    }
}

fn beat(rhythm: (i64, i64, i64, Grain), index: i64) -> TimeRange {
    let start = rhythm.0 + index * rhythm.1;
    TimeRange {
        start: Instant { secs: start, nanos: 0 },
        end: Instant { secs: start + rhythm.2, nanos: 0 },
        grain: rhythm.3,
    }
}

fn rhythmic() -> Vec<Sequence> {
    let mut all = vec![
        every(Grain::Second),
        every(Grain::Minute),
        every(Grain::Hour),
        every(Grain::Day),
        every(Grain::Week),
        Sequence::Weekend,
    ];
    for d in 0..7 {
        all.push(Sequence::Weekday(d));
    }
    all
}

fn instants() -> Vec<Instant> {
    let mut all = Vec::new();
    for d in 1..=9 {
        all.push(day(2016, 9, d));
        all.push(at(2016, 9, d, 13, 37, 11));
        all.push(Instant { secs: at(2016, 9, d, 23, 59, 59).secs, nanos: 999_999_999 });
        all.push(day(1969, 12, 20 + d));
        all.push(at(1969, 12, 20 + d, 0, 0, 1));
        all.push(at(1, 1, 10 + d, 5, 0, 0));
        all.push(at(9999, 12, d, 5, 0, 0));
    }
    all.push(Instant { secs: 0, nanos: 0 });
    all.push(Instant { secs: -1, nanos: 0 });
    all.push(Instant { secs: 1, nanos: 1 });
    all
}

#[test]
fn the_first_range_of_a_rhythm() {
    for seq in rhythmic() {
        for now in instants() {
            let expected = beat(rhythm_of(&seq, now), 0);
            assert_eq!(this(&seq, now), expected, "{:?} at {:?}", seq, now);
            assert!(now.is_before(&expected.end), "{:?} at {:?}", seq, now);
        }
    }
}

#[test]
fn the_next_ranges_of_a_rhythm() {
    for seq in rhythmic() {
        for now in instants() {
            let rhythm = rhythm_of(&seq, now);
            let skip = if now.is_before(&beat(rhythm, 0).start) { 0 } else { 1 };
            for n in 1..=3u32 {
                let expected = beat(rhythm, skip + n as i64 - 1);
                assert_eq!(next(&seq, now, n), expected, "{:?} at {:?}", seq, now);
                assert!(now.is_before(&expected.start), "{:?} at {:?}", seq, now);
            }
        }
    }
}

#[test]
fn counting_the_ranges_of_a_rhythm() {
    for seq in rhythmic() {
        if seq == every(Grain::Second) || seq == every(Grain::Minute) {
            continue;
        }
        for now in instants() {
            let rhythm = rhythm_of(&seq, now);
            for ahead in [0i64, 1, 3600, 86400, 86401, 10 * 86400, 40 * 86400] {
                let until = Instant { secs: now.secs + ahead, nanos: now.nanos };
                let mut expected = 0;
                let mut index = 0;
                while beat(rhythm, index).start.is_before(&now) {
                    index += 1;
                }
                while beat(rhythm, index).start.is_before(&until) {
                    index += 1;
                    expected += 1;
                }
                assert_eq!(count_between(&seq, now, until), expected, "{:?} at {:?} + {}", seq, now, ahead);
            }
        }
    }
}

#[test]
fn days_until_a_day_ahead() {
    let days = every(Grain::Day);
    for k in 1..=12i64 {
        let midnight = day(2016, 9, 5);
        let bound = Instant { secs: midnight.secs + k * 86400, nanos: 0 };
        assert_eq!(count_between(&days, midnight, bound), k as usize);
        assert_eq!(count_between(&days, at(2016, 9, 5, 0, 0, 1), bound), k as usize - 1);
        assert_eq!(count_between(&days, at(2016, 9, 5, 23, 59, 59), bound), k as usize - 1);
        assert_eq!(count_between(&days, Instant { secs: midnight.secs, nanos: 1 }, bound), k as usize - 1);
    }
}

fn rank(grain: Grain) -> u8 {
    match grain {
        Grain::Second => 0,
        Grain::Minute => 1,
        Grain::Hour => 2,
        Grain::Day => 3,
        Grain::Week => 4,
        Grain::Month => 5,
        Grain::Quarter => 6,
        Grain::Year => 7,
    }
}

fn grain_of(seq: &Sequence) -> Grain {
    match seq {
        Sequence::Every(grain) => *grain,
        Sequence::Weekday(_) | Sequence::Weekend => Grain::Day,
        Sequence::Month(_) => Grain::Month,
        Sequence::Year(_) => Grain::Year,
        Sequence::NthOf(_, win, _) | Sequence::LastOf(_, win, _) => grain_of(win),
        Sequence::Intersect(a, b) => {
            if rank(grain_of(a)) <= rank(grain_of(b)) {
                grain_of(a)
            } else {
                grain_of(b)
            }
        }
    }
}

fn both(a: Sequence, b: Sequence) -> Sequence {
    Sequence::Intersect(Box::new(a), Box::new(b))
}

fn last(n: u32, win: Sequence, frame: Sequence) -> Sequence {
    Sequence::LastOf(n, Box::new(win), Box::new(frame))
}

#[test]
fn ranges_carry_the_grain_of_their_sequence() {
    let mut all = rhythmic();
    all.extend([
        every(Grain::Month),
        every(Grain::Quarter),
        every(Grain::Year),
        Sequence::Month(2),
        Sequence::Year(2020),
        nth(3, Sequence::Weekday(1), every(Grain::Month)),
        nth(2, every(Grain::Week), every(Grain::Month)),
        nth(2, every(Grain::Month), every(Grain::Year)),
        nth(3, every(Grain::Quarter), every(Grain::Year)),
        nth(2, Sequence::Weekend, every(Grain::Month)),
        nth(1, Sequence::Month(6), every(Grain::Year)),
        last(1, every(Grain::Day), every(Grain::Month)),
        last(2, every(Grain::Week), every(Grain::Year)),
        last(1, Sequence::Weekend, every(Grain::Quarter)),
        both(Sequence::Weekday(1), Sequence::Month(2)),
        both(Sequence::Month(2), Sequence::Weekday(1)),
        both(every(Grain::Week), every(Grain::Month)),
        both(every(Grain::Month), every(Grain::Week)),
        both(every(Grain::Year), every(Grain::Quarter)),
        both(every(Grain::Hour), Sequence::Weekend),
        both(Sequence::Weekend, every(Grain::Month)),
        both(both(Sequence::Weekday(1), Sequence::Month(2)), nth(28, every(Grain::Day), every(Grain::Month))),
        nth(2, both(Sequence::Weekday(5), every(Grain::Month)), every(Grain::Year)),
    ]);
    for seq in all {
        for now in [day(2016, 9, 5), at(2019, 2, 28, 13, 0, 0), at(1969, 12, 31, 23, 59, 59)] {
            assert_eq!(this(&seq, now).grain, grain_of(&seq), "{:?}", seq);
            assert_eq!(next(&seq, now, 1).grain, grain_of(&seq), "{:?}", seq);
            if seq != Sequence::Year(2020) {
                assert_eq!(next(&seq, now, 2).grain, grain_of(&seq), "{:?}", seq);
            }
        }
    }
}

#[test]
fn rhythms_in_seconds() {
    for seq in rhythmic() {
        for now in instants() {
            let expected = rhythm_of(&seq, now);
            match seq {
                Sequence::Every(Grain::Second) | Sequence::Every(Grain::Minute) | Sequence::Every(Grain::Hour) => {
                    assert_eq!(rhythm_at(&seq, now), None)
                }
                _ => assert_eq!(rhythm_at(&seq, now), Some((expected.0, expected.1, expected.2)), "{:?}", seq),
            }
        }
    }
    let now = day(2016, 9, 5);
    assert_eq!(rhythm_at(&every(Grain::Day), now), Some((now.secs, 86400, 86400)));
    assert_eq!(rhythm_at(&every(Grain::Week), now), Some((now.secs - 86400, 604800, 604800)));
    assert_eq!(rhythm_at(&Sequence::Weekday(1), now), Some((now.secs, 604800, 86400)));
    assert_eq!(rhythm_at(&Sequence::Weekday(0), now), Some((now.secs + 6 * 86400, 604800, 86400)));
    assert_eq!(rhythm_at(&Sequence::Weekend, now), Some((now.secs + 5 * 86400, 604800, 172800)));
    assert_eq!(rhythm_at(&Sequence::Weekend, day(2016, 9, 4)), Some((now.secs - 2 * 86400, 604800, 172800)));
    assert_eq!(rhythm_at(&Sequence::Weekday(7), now), None);
    assert_eq!(rhythm_at(&every(Grain::Month), now), None);
    assert_eq!(rhythm_at(&Sequence::Month(3), now), None);
    assert_eq!(rhythm_at(&Sequence::Year(2002), now), None);
    assert_eq!(rhythm_at(&nth(1, every(Grain::Day), every(Grain::Week)), now), None);
}

#[test]
fn what_is_sure_of_the_calendar() {
    let now = day(2016, 9, 5);
    for seq in [every(Grain::Day), every(Grain::Week), Sequence::Weekday(3), Sequence::Weekend] {
        assert!(this_is_sure(&seq, now));
        assert!(next_is_sure(&seq, now, 1));
        assert!(next_is_sure(&seq, now, 1000));
        assert!(!next_is_sure(&seq, now, 0));
        assert!(!next_is_sure(&seq, now, u32::MAX));
        assert!(count_is_sure(&seq, now, day(2017, 1, 1)));
        assert!(count_is_sure(&seq, now, day(2000, 1, 1)));
        assert!(count_is_sure(&seq, now, now));
        assert!(!count_is_sure(&seq, now, Instant { secs: 253402300800, nanos: 0 }));
        assert!(!this_is_sure(&seq, Instant { secs: 253402300800, nanos: 0 }));
        assert!(!this_is_sure(&seq, Instant { secs: 0, nanos: 1_000_000_000 }));
    }
    for seq in [every(Grain::Month), every(Grain::Quarter), every(Grain::Year), Sequence::Month(3)] {
        assert!(this_is_sure(&seq, now));
        assert!(next_is_sure(&seq, now, 1));
        assert!(next_is_sure(&seq, now, 50));
        assert!(!next_is_sure(&seq, now, 0));
        assert!(!next_is_sure(&seq, now, 100_001));
        assert!(count_is_sure(&seq, now, day(2100, 1, 1)));
        assert!(count_is_sure(&seq, now, day(2000, 1, 1)));
        assert!(!count_is_sure(&seq, now, Instant { secs: 253402300800, nanos: 0 }));
        assert!(!this_is_sure(&seq, day(1, 1, 20)));
        assert!(!this_is_sure(&seq, day(9999, 12, 1)));
        assert!(!this_is_sure(&seq, Instant { secs: 253402300800, nanos: 0 }));
    }
    for seq in [
        every(Grain::Hour),
        Sequence::Month(0),
        Sequence::Month(13),
        Sequence::Year(2020),
        Sequence::Weekday(7),
        nth(5, Sequence::Weekday(1), every(Grain::Month)),
        nth(3, Sequence::Weekday(1), every(Grain::Week)),
        Sequence::Intersect(Box::new(Sequence::Weekday(5)), Box::new(every(Grain::Month))),
    ] {
        assert!(!this_is_sure(&seq, now));
        assert!(!next_is_sure(&seq, now, 1));
        assert!(!count_is_sure(&seq, now, day(2017, 1, 1)));
    }
    // at the edges of the years 1 to 9999
    assert!(this_is_sure(&every(Grain::Day), day(1, 1, 1)));
    assert!(!this_is_sure(&every(Grain::Week), day(1, 1, 2)));
    assert!(this_is_sure(&every(Grain::Week), day(1, 1, 7)));
    assert!(this_is_sure(&every(Grain::Day), day(9999, 12, 30)));
    assert!(!this_is_sure(&every(Grain::Day), day(9999, 12, 31)));
    assert!(next_is_sure(&every(Grain::Day), day(9999, 12, 29), 1));
    assert!(!next_is_sure(&every(Grain::Day), day(9999, 12, 29), 2));
}

#[test]
fn what_is_sure_of_a_shift() {
    let today = range(day(2016, 10, 26), day(2016, 10, 27), Grain::Day);
    for grain in [Grain::Second, Grain::Minute, Grain::Hour, Grain::Day, Grain::Week] {
        assert!(shift_is_sure(today, grain, 0));
        assert!(shift_is_sure(today, grain, 1));
        assert!(shift_is_sure(today, grain, -1000));
        assert!(!shift_is_sure(today, grain, i32::MIN));
    }
    for grain in [Grain::Month, Grain::Quarter, Grain::Year] {
        assert!(!shift_is_sure(today, grain, 1));
    }
    assert!(shift_is_sure(today, Grain::Day, 2_000_000));
    assert!(!shift_is_sure(today, Grain::Day, 3_000_000));
    assert!(!shift_is_sure(today, Grain::Day, -800_000));
    assert!(shift_is_sure(today, Grain::Second, i32::MAX));
    assert!(shift_is_sure(today, Grain::Second, -i32::MAX));
    assert!(!shift_is_sure(today, Grain::Week, i32::MAX));
    // a range that holds no time is not shifted
    let empty = range(day(2016, 10, 26), day(2016, 10, 26), Grain::Day);
    assert!(!shift_is_sure(empty, Grain::Day, 1));
    let backwards = range(day(2016, 10, 27), day(2016, 10, 26), Grain::Day);
    assert!(!shift_is_sure(backwards, Grain::Day, 1));
}

#[test]
fn counts_of_a_rhythm_by_division() {
    for seq in [every(Grain::Day), every(Grain::Week), Sequence::Weekday(2), Sequence::Weekend] {
        for now in instants() {
            for ahead in [-86400i64, 0, 1, 86399, 86400, 86401, 604800, 31 * 86400, 400 * 86400] {
                for nanos in [0, 1] {
                    let until = Instant { secs: now.secs + ahead, nanos };
                    if !count_is_sure(&seq, now, until) {
                        continue;
                    }
                    let rhythm = rhythm_of(&seq, now);
                    let passed = if beat(rhythm, 0).start.is_before(&now) { 1 } else { 0 };
                    let ceiling = if nanos > 0 { until.secs + 1 } else { until.secs };
                    let halt = if ceiling <= rhythm.0 + passed * rhythm.1 {
                        passed
                    } else {
                        (ceiling - rhythm.0 + rhythm.1 - 1).div_euclid(rhythm.1)
                    };
                    assert_eq!(count_between(&seq, now, until) as i64, halt - passed, "{:?} {:?} {}", seq, now, ahead);
                }
            }
        }
    }
}

fn pace_of(seq: &Sequence) -> (i64, i64, i64, i64, i64, i64) {
    let d = 86400;
    match seq {
        Sequence::Every(Grain::Month) => (31 * d, 0, 28 * d, 31 * d, 28 * d, 31 * d),
        Sequence::Every(Grain::Quarter) => (153 * d, 0, 89 * d, 92 * d, 89 * d, 92 * d),
        Sequence::Every(Grain::Year) => (366 * d, 0, 365 * d, 366 * d, 365 * d, 366 * d),
        Sequence::Month(_) => (31 * d, 337 * d, 365 * d, 366 * d, 28 * d, 31 * d),
        _ => panic!("no pace"),
    }
}

fn paced() -> Vec<Sequence> {
    let mut all = vec![every(Grain::Month), every(Grain::Quarter), every(Grain::Year)];
    for m in 1..=12 {
        all.push(Sequence::Month(m));
    }
    all
}

#[test]
fn the_calendar_keeps_its_pace() {
    let mut nows = Vec::new();
    for year in [2, 1583, 1899, 1900, 1969, 1999, 2000, 2015, 2016, 2017, 2100, 9000] {
        for month in 1..=12u32 {
            for d in [1u32, 15, 28] {
                nows.push(day(year, month, d));
            }
            nows.push(at(year, month, 28, 23, 59, 59));
        }
        nows.push(day(year, 1, 31));
        nows.push(day(year, 3, 31));
        nows.push(day(year, 11, 30));
        nows.push(at(year, 12, 31, 23, 59, 59));
    }
    nows.push(day(2016, 2, 29));
    nows.push(day(2000, 2, 29));
    for seq in paced() {
        let (back, ahead, min_step, max_step, min_length, max_length) = pace_of(&seq);
        for now in nows.iter().copied() {
            let first = this(&seq, now);
            let mut places = vec![(0i64, first)];
            let skip = if now.is_before(&first.start) { 0 } else { 1 };
            for n in [1u32, 2, 3, 12, 40] {
                places.push((skip + n as i64 - 1, next(&seq, now, n)));
            }
            for (index, found) in places {
                assert_eq!(found.start.nanos, 0);
                assert_eq!(found.end.nanos, 0);
                assert!(now.secs - back + min_step * index <= found.start.secs, "{:?} {:?} {}", seq, now, index);
                assert!(found.start.secs <= now.secs + ahead + max_step * index, "{:?} {:?} {}", seq, now, index);
                let length = found.end.secs - found.start.secs;
                assert!(min_length <= length && length <= max_length, "{:?} {:?} {}", seq, now, index);
            }
        }
    }
}

#[test]
fn a_month_is_the_next_of_its_number() {
    assert_eq!(this(&Sequence::Month(9), day(2016, 9, 30)), range(day(2016, 9, 1), day(2016, 10, 1), Grain::Month));
    assert_eq!(this(&Sequence::Month(8), day(2016, 9, 1)), range(day(2017, 8, 1), day(2017, 9, 1), Grain::Month));
    assert_eq!(this(&Sequence::Month(2), day(2015, 3, 1)), range(day(2016, 2, 1), day(2016, 3, 1), Grain::Month));
    assert_eq!(next(&Sequence::Month(2), day(2015, 3, 1), 2), range(day(2017, 2, 1), day(2017, 3, 1), Grain::Month));
}

#[test]
fn a_quarter_starts_in_january_april_july_or_october() {
    assert_eq!(this(&every(Grain::Quarter), day(2016, 2, 15)), range(day(2016, 1, 1), day(2016, 4, 1), Grain::Quarter));
    assert_eq!(this(&every(Grain::Quarter), day(2016, 5, 15)), range(day(2016, 4, 1), day(2016, 7, 1), Grain::Quarter));
    assert_eq!(this(&every(Grain::Quarter), day(2016, 12, 15)), range(day(2016, 10, 1), day(2017, 1, 1), Grain::Quarter));
    // in July and in November the first quarter is the one before
    assert_eq!(this(&every(Grain::Quarter), day(2016, 7, 15)), range(day(2016, 4, 1), day(2016, 7, 1), Grain::Quarter));
    assert_eq!(this(&every(Grain::Quarter), day(2016, 11, 30)), range(day(2016, 7, 1), day(2016, 10, 1), Grain::Quarter));
}

fn frame_of(kind: usize) -> Sequence {
    match kind {
        0 => every(Grain::Month),
        1 => every(Grain::Quarter),
        2 => every(Grain::Year),
        3 => Sequence::Month(2),
        _ => Sequence::Month(12),
    }
}

/// A sequence with a rhythm, and how many of its ranges every month holds.
fn win_of(kind: usize) -> (Sequence, u32) {
    match kind {
        0 => (every(Grain::Day), 28),
        1 => (every(Grain::Week), 4),
        2 => (Sequence::Weekday(1), 4),
        3 => (Sequence::Weekday(0), 4),
        _ => (Sequence::Weekend, 4),
    }
}

fn selection_instants() -> Vec<Instant> {
    let mut nows = Vec::new();
    for year in [1583, 1900, 1999, 2000, 2016, 2017, 2100] {
        for month in 1..=12u32 {
            nows.push(day(year, month, 1));
            nows.push(at(year, month, 13, 13, 37, 11));
            nows.push(at(year, month, 28, 23, 59, 59));
        }
        nows.push(day(year, 1, 31));
    }
    nows.push(day(2016, 2, 29));
    nows
}

/// The range in a place of a sequence, counted from 0.
fn place(seq: &Sequence, now: Instant, index: u32) -> TimeRange {
    let first = this(seq, now);
    if index == 0 {
        return first;
    }
    if now.is_before(&first.start) {
        next(seq, now, index + 1)
    } else {
        next(seq, now, index)
    }
}

#[test]
fn a_selection_goes_frame_by_frame() {
    for now in selection_instants() {
        for f in 0..5 {
            for w in 0..5 {
                let most = win_of(w).1;
                for n in [1, 2, most] {
                    let seq = nth(n, win_of(w).0, frame_of(f));
                    assert!(this_is_sure(&seq, now), "{:?} {:?}", seq, now);
                    assert!(next_is_sure(&seq, now, 3), "{:?} {:?}", seq, now);
                    for index in [0u32, 1, 2] {
                        let outer = place(&frame_of(f), now, index);
                        let picked = beat(rhythm_of(&win_of(w).0, outer.start), n as i64 - 1);
                        assert!(picked.start.is_before(&outer.end));
                        assert_eq!(place(&seq, now, index), picked, "{:?} {:?} {}", seq, now, index);
                    }
                }
            }
        }
    }
}

#[test]
fn a_selection_from_the_end_goes_frame_by_frame() {
    for now in selection_instants() {
        for f in 0..5 {
            for w in 0..5 {
                for n in [1u32, 2, win_of(w).1] {
                    let seq = Sequence::LastOf(n, Box::new(win_of(w).0), Box::new(frame_of(f)));
                    assert!(this_is_sure(&seq, now), "{:?} {:?}", seq, now);
                    assert!(next_is_sure(&seq, now, 3), "{:?} {:?}", seq, now);
                    for index in [0u32, 1, 2] {
                        let outer = place(&frame_of(f), now, index);
                        let rhythm = rhythm_of(&win_of(w).0, outer.start);
                        let mut past = 0;
                        while beat(rhythm, past).start.is_before(&outer.end) {
                            past += 1;
                        }
                        let picked = beat(rhythm, past - n as i64);
                        assert_eq!(place(&seq, now, index), picked, "{:?} {:?} {}", seq, now, index);
                    }
                }
            }
        }
    }
}

#[test]
fn selections_that_are_sure_and_that_are_not() {
    let now = day(2016, 9, 5);
    assert!(this_is_sure(&nth(28, every(Grain::Day), every(Grain::Month)), now));
    assert!(!this_is_sure(&nth(29, every(Grain::Day), every(Grain::Month)), now));
    assert!(this_is_sure(&nth(89, every(Grain::Day), every(Grain::Quarter)), now));
    assert!(!this_is_sure(&nth(90, every(Grain::Day), every(Grain::Quarter)), now));
    assert!(this_is_sure(&nth(365, every(Grain::Day), every(Grain::Year)), now));
    assert!(!this_is_sure(&nth(366, every(Grain::Day), every(Grain::Year)), now));
    assert!(this_is_sure(&nth(4, Sequence::Weekday(5), Sequence::Month(2)), now));
    assert!(!this_is_sure(&nth(5, Sequence::Weekday(5), Sequence::Month(2)), now));
    assert!(this_is_sure(&nth(52, every(Grain::Week), every(Grain::Year)), now));
    assert!(!this_is_sure(&nth(53, every(Grain::Week), every(Grain::Year)), now));
    assert!(!this_is_sure(&nth(1, Sequence::Weekday(7), every(Grain::Month)), now));
    assert!(!this_is_sure(&nth(1, every(Grain::Day), Sequence::Month(13)), now));
    assert!(this_is_sure(&nth(7, every(Grain::Day), every(Grain::Week)), now));
    assert!(!this_is_sure(&nth(8, every(Grain::Day), every(Grain::Week)), now));
    assert!(this_is_sure(&nth(1, Sequence::Weekday(3), every(Grain::Week)), now));
    assert!(!this_is_sure(&nth(2, Sequence::Weekday(3), every(Grain::Week)), now));
    assert!(!this_is_sure(&nth(1, every(Grain::Day), every(Grain::Day)), now));
    assert!(!this_is_sure(&nth(1, every(Grain::Month), every(Grain::Year)), now));
    assert!(!this_is_sure(&nth(1, every(Grain::Hour), every(Grain::Month)), now));
    let last = |n: u32, win: Sequence, frame: Sequence| Sequence::LastOf(n, Box::new(win), Box::new(frame));
    assert!(this_is_sure(&last(1, every(Grain::Day), Sequence::Month(2)), now));
    assert!(this_is_sure(&last(28, every(Grain::Day), every(Grain::Month)), now));
    assert!(!this_is_sure(&last(29, every(Grain::Day), every(Grain::Month)), now));
    assert!(this_is_sure(&last(7, every(Grain::Day), every(Grain::Week)), now));
    assert!(!this_is_sure(&last(8, every(Grain::Day), every(Grain::Week)), now));
    assert!(!this_is_sure(&last(1, every(Grain::Day), Sequence::Weekend), now));
    // the counts
    let twelfth = nth(12, every(Grain::Day), every(Grain::Month));
    assert!(count_is_sure(&twelfth, now, day(2017, 9, 5)));
    assert_eq!(count_between(&twelfth, now, day(2017, 9, 5)), 12);
    assert_eq!(count_between(&twelfth, day(2016, 9, 12), day(2016, 10, 12)), 1);
    assert_eq!(count_between(&twelfth, day(2016, 9, 13), day(2016, 10, 12)), 0);
    let last_day = last(1, every(Grain::Day), every(Grain::Month));
    assert!(count_is_sure(&last_day, now, day(2017, 9, 5)));
    assert_eq!(count_between(&last_day, now, day(2017, 9, 5)), 12);
    // near the end of the years that the library works with
    assert!(!this_is_sure(&twelfth, day(9999, 12, 20)));
    assert!(!this_is_sure(&last_day, day(9999, 12, 1)));
    assert!(this_is_sure(&twelfth, day(9999, 11, 20)));
}

#[test]
fn a_selection_in_a_week_goes_week_by_week() {
    for now in selection_instants() {
        for n in 1..=7u32 {
            let seq = nth(n, every(Grain::Day), every(Grain::Week));
            let from_the_end = Sequence::LastOf(n, Box::new(every(Grain::Day)), Box::new(every(Grain::Week)));
            assert!(this_is_sure(&seq, now));
            assert!(this_is_sure(&from_the_end, now));
            for index in [0u32, 1, 5] {
                let week = place(&every(Grain::Week), now, index);
                let first = week.start.secs;
                let picked = range(
                    Instant { secs: first + (n as i64 - 1) * 86400, nanos: 0 },
                    Instant { secs: first + n as i64 * 86400, nanos: 0 },
                    Grain::Day,
                );
                assert_eq!(place(&seq, now, index), picked, "{:?} {:?} {}", seq, now, index);
                let last = range(
                    Instant { secs: first + (7 - n as i64) * 86400, nanos: 0 },
                    Instant { secs: first + (8 - n as i64) * 86400, nanos: 0 },
                    Grain::Day,
                );
                assert_eq!(place(&from_the_end, now, index), last, "{:?} {:?} {}", from_the_end, now, index);
            }
        }
        let wednesday = nth(1, Sequence::Weekday(3), every(Grain::Week));
        let week = this(&every(Grain::Week), now);
        assert_eq!(this(&wednesday, now).start.secs, week.start.secs + 3 * 86400);
    }
}

#[test]
fn counts_of_days_add_up() {
    let days = every(Grain::Day);
    let stops = [
        day(2016, 9, 5),
        at(2016, 9, 5, 13, 37, 11),
        Instant { secs: at(2016, 9, 5, 23, 59, 59).secs, nanos: 999_999_999 },
        day(2016, 9, 6),
        at(2016, 9, 20, 0, 0, 1),
        day(2017, 1, 1),
        at(2017, 3, 1, 5, 0, 0),
    ];
    for i in 0..stops.len() {
        for j in i..stops.len() {
            for k in j..stops.len() {
                let (a, b, c) = (stops[i], stops[j], stops[k]);
                assert_eq!(
                    count_between(&days, a, b) + count_between(&days, b, c),
                    count_between(&days, a, c),
                    "{:?} {:?} {:?}",
                    a,
                    b,
                    c
                );
            }
        }
    }
    assert_eq!(count_between(&days, day(2016, 9, 5), day(2017, 1, 1)), 118);
}
