use fluxcap::{Grain, Instant, Time, TimeMachine, TimeRange};

fn d(year: i32, month: u32, day: u32) -> Instant {
    let date = chrono::NaiveDate::from_ymd_opt(year, month, day).unwrap();
    let secs = date.and_hms_opt(0, 0, 0).unwrap().and_utc().timestamp();
    Instant::new(secs, 0).unwrap()
}

fn r(s: Instant, e: Instant, gr: Grain) -> TimeRange {
    TimeRange { start: s, end: e, grain: gr }
}

#[test]
fn t_thisnext() {
    let tm = TimeMachine::new();
    let x = r(d(2016, 9, 12), d(2016, 9, 13), Grain::Day);
    assert_eq!(tm.eval(d(2016, 9, 5), "next monday"), Time::Range(x));
    let x = r(d(2016, 9, 5), d(2016, 9, 6), Grain::Day);
    assert_eq!(tm.eval(d(2016, 9, 5), "this monday"), Time::Range(x));
    let x = r(d(2017, 3, 1), d(2017, 4, 1), Grain::Month);
    assert_eq!(tm.eval(d(2016, 9, 5), "next march"), Time::Range(x));
    assert_eq!(tm.eval(d(2016, 9, 5), "this march"), Time::Range(x));
    let x = r(d(2016, 3, 1), d(2016, 4, 1), Grain::Month);
    assert_eq!(tm.eval(d(2016, 3, 5), "this march"), Time::Range(x));
    let x = r(d(2017, 1, 1), d(2018, 1, 1), Grain::Year);
    assert_eq!(tm.eval(d(2016, 3, 5), "next year"), Time::Range(x));
    let x = r(d(2016, 3, 6), d(2016, 3, 13), Grain::Week);
    assert_eq!(tm.eval(d(2016, 3, 5), "next week"), Time::Range(x));
    let x = r(d(2016, 10, 1), d(2016, 11, 1), Grain::Month);
    assert_eq!(tm.eval(d(2016, 9, 5), "next month"), Time::Range(x));
    let x = r(d(2016, 9, 13), d(2016, 9, 14), Grain::Day);
    assert_eq!(tm.eval(d(2016, 9, 5), "tue after next"), Time::Range(x));
}

#[test]
fn t_direct() {
    let tm = TimeMachine::new();
    let x = r(d(2002, 1, 1), d(2003, 1, 1), Grain::Year);
    assert_eq!(tm.eval(d(2016, 9, 5), "2002"), Time::Range(x));
    let x = r(d(2016, 10, 31), d(2016, 11, 1), Grain::Day);
    assert_eq!(tm.eval(d(2016, 10, 26), "monday"), Time::Range(x));
    let x = r(d(2016, 10, 26), d(2016, 10, 27), Grain::Day);
    assert_eq!(tm.eval(d(2016, 10, 26), "today"), Time::Range(x));
    assert_eq!(tm.eval(d(2016, 10, 25), "tomorrow"), Time::Range(x));
    let x = r(d(2016, 9, 12), d(2016, 9, 13), Grain::Day);
    assert_eq!(tm.eval(d(2016, 9, 5), "the 12th"), Time::Range(x));
    assert_eq!(tm.eval(d(2016, 9, 12), "the 12th"), Time::Range(x));
}

#[test]
fn t_nthof() {
    let tm = TimeMachine::new();
    let x = r(d(2017, 6, 19), d(2017, 6, 20), Grain::Day);
    assert_eq!(tm.eval(d(2016, 9, 5), "the 3rd mon of june"), Time::Range(x));
    let x = r(d(2016, 9, 3), d(2016, 9, 4), Grain::Day);
    assert_eq!(tm.eval(d(2016, 9, 5), "3rd day of the month"), Time::Range(x));
    let x = r(d(2017, 8, 6), d(2017, 8, 13), Grain::Week);
    assert_eq!(tm.eval(d(2016, 9, 5), "2nd week in august"), Time::Range(x));
    let x = r(d(2017, 2, 24), d(2017, 2, 25), Grain::Day);
    assert_eq!(tm.eval(d(2017, 1, 1), "8th fri of the year"), Time::Range(x));
    let x = r(d(2020, 2, 29), d(2020, 3, 1), Grain::Day);
    assert_eq!(tm.eval(d(2020, 1, 1), "last day of feb"), Time::Range(x));
    let x = r(d(2017, 5, 9), d(2017, 5, 10), Grain::Day);
    assert_eq!(tm.eval(d(2016, 9, 5), "the 3rd day of the 2nd week of may"), Time::Range(x));
    let x = r(d(2014, 6, 2), d(2014, 6, 3), Grain::Day);
    assert_eq!(tm.eval(d(2016, 9, 5), "2nd day of june 2014"), Time::Range(x));
    let x = r(d(2014, 9, 11), d(2014, 9, 12), Grain::Day);
    assert_eq!(tm.eval(d(2016, 9, 5), "2nd thu of sep 2014"), Time::Range(x));
}

#[test]
fn t_intersect() {
    let tm = TimeMachine::new();
    let x = r(d(1984, 2, 27), d(1984, 2, 28), Grain::Day);
    assert_eq!(tm.eval(d(2016, 9, 5), "27th feb 1984"), Time::Range(x));
    let x = r(d(2022, 2, 28), d(2022, 3, 1), Grain::Day);
    assert_eq!(tm.eval(d(2017, 9, 5), "mon feb 28th"), Time::Range(x));
    let x = r(d(2016, 11, 18), d(2016, 11, 19), Grain::Day);
    assert_eq!(tm.eval(d(2016, 10, 24), "friday 18th"), Time::Range(x));
    let x = r(d(2017, 6, 18), d(2017, 6, 19), Grain::Day);
    assert_eq!(tm.eval(d(2016, 10, 24), "18th of june"), Time::Range(x));
    let x = r(d(2017, 2, 27), d(2017, 2, 28), Grain::Day);
    assert_eq!(tm.eval(d(2016, 10, 24), "feb 27th"), Time::Range(x));
}

#[test]
fn t_seqrange() {
    let tm = TimeMachine::new();
    let x = r(d(1984, 3, 4), d(1984, 3, 11), Grain::Week);
    assert_eq!(tm.eval(d(2016, 9, 5), "10th week of 1984"), Time::Range(x));
    let x = r(d(2016, 11, 15), d(2016, 11, 16), Grain::Day);
    assert_eq!(
        tm.eval(d(2016, 9, 5), "third tuesday of the month after next"),
        Time::Range(x)
    );
    let x = r(d(1987, 1, 12), d(1987, 1, 13), Grain::Day);
    assert_eq!(
        tm.eval(d(2016, 9, 5), "the 2nd day of the 3rd week of 1987"),
        Time::Range(x)
    );
}

#[test]
fn t_timediff() {
    let tm = TimeMachine::new();
    assert_eq!(tm.eval(d(2016, 9, 5), "days until tomorrow"), Time::Count(1));
    assert_eq!(tm.eval(d(2016, 9, 5), "months until 2018"), Time::Count(15));
    assert_eq!(tm.eval(d(2016, 9, 5), "weeks until dec"), Time::Count(12));
    assert_eq!(tm.eval(d(2016, 10, 25), "mon until nov 14th"), Time::Count(2));
    assert_eq!(tm.eval(d(2016, 10, 25), "weekends until jan"), Time::Count(10));
}

#[test]
fn t_shifts() {
    let tm = TimeMachine::new();
    let x = r(d(2016, 10, 12), d(2016, 10, 13), Grain::Day);
    assert_eq!(tm.eval(d(2016, 10, 26), "2 weeks ago"), Time::Range(x));
    let x = r(d(2017, 2, 21), d(2017, 2, 22), Grain::Day);
    assert_eq!(tm.eval(d(2016, 10, 26), "a week after feb 14th"), Time::Range(x));
    let x = r(d(2017, 2, 21), d(2017, 2, 22), Grain::Day);
    assert_eq!(tm.eval(d(2016, 10, 26), "a week before feb 28th"), Time::Range(x));
    let x = r(d(2017, 10, 26), d(2017, 10, 27), Grain::Day);
    assert_eq!(tm.eval(d(2016, 10, 26), "in a year"), Time::Range(x));
}
