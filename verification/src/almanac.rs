//! The calendar algebra, as the `kronos` crate computes it: which ranges a sequence
//! yields at an instant, and where a shift moves a range.
//!
//! A sequence, evaluated at an instant, yields ranges one after another; [`yielded`]
//! says which. For the sequences whose ranges come at equal distances it says so in
//! seconds ([`rhythm`]); for a calendar year, by [`year_span`]; for the others it
//! names what `kronos` computes ([`occurrence`]) and fixes only the grain. Of these,
//! the months, quarters and years and a month of the twelve keep a pace ([`paced`]),
//! and a selection goes frame by frame ([`selects`]), so that one
//! of the ranges of a rhythm within a month or a week lies where [`pace`] says.
//! `kronos` gives up on some requests, by a panic; those are the ones for which
//! [`yielded`] is `None`, and every function here requires that it is not asked for
//! them. [`this_is_sure`], [`next_is_sure`], [`count_is_sure`] and [`shift_is_sure`]
//! tell beforehand, for the sequences with a rhythm or a pace and for the shifts by
//! units of one length.

use crate::calendar::{
    year_span, Grain, Instant, Sequence, TimeRange, FIRST_SECOND, LAST_SECOND, NANOS_PER_SECOND,
    SECONDS_PER_DAY,
};
use vstd::prelude::*;

verus! {

#[verifier::external_type_specification]
#[verifier::external_body]
pub struct ExKronosSeq(kronos::Seq);

#[verifier::external_type_specification]
#[verifier::external_body]
pub struct ExKronosRange(kronos::Range);

#[verifier::external_type_specification]
#[verifier::external_body]
pub struct ExNaiveDateTime(chrono::NaiveDateTime);

/// The ranges that a `kronos` sequence is yielding, evaluated at some instant.
#[verifier::external_body]
pub struct Occurrences {
    items: Box<dyn Iterator<Item = kronos::Range>>,
}

/// The description that a `kronos::Seq` was built to.
pub uninterp spec fn denotes(seq: kronos::Seq) -> Sequence;

/// The instant that a `chrono::NaiveDateTime` holds.
pub uninterp spec fn moment(t: chrono::NaiveDateTime) -> Instant;

/// The range that a `kronos::Range` holds.
pub uninterp spec fn span(range: kronos::Range) -> TimeRange;

/// The range that `kronos` yields in place `index`, counted from 0, for a sequence
/// evaluated at `at` towards the future; `None` where it yields none there: the
/// sequence has ended, or `kronos` gives up (on a selection that it does not find
/// in a thousand frames in a row, on an inner range longer than its frame, on a
/// weekday or month that is none, on a date that `chrono` cannot hold).
pub uninterp spec fn occurrence(seq: Sequence, at: Instant, index: int) -> Option<TimeRange>;

/// Where `kronos::Range::shift` moves the ends of `range` to, `n` units of `grain`
/// on, for the grains whose units vary in length; `None` where it arrives at no date
/// that `chrono` can hold.
pub uninterp spec fn shifted(range: TimeRange, grain: Grain, n: int) -> Option<TimeRange>;

/// The length in seconds of a unit, for the grains whose units all have one length.
pub open spec fn fixed_length(grain: Grain) -> Option<int> {
    match grain {
        Grain::Second => Some(1),
        Grain::Minute => Some(60),
        Grain::Hour => Some(3600),
        Grain::Day => Some(86400),
        Grain::Week => Some(604800),
        _ => None,
    }
}

/// A range with both ends moved by a number of seconds.
pub open spec fn slid(range: TimeRange, seconds: int) -> TimeRange {
    TimeRange {
        start: Instant { secs: (range.start.secs + seconds) as i64, nanos: range.start.nanos },
        end: Instant { secs: (range.end.secs + seconds) as i64, nanos: range.end.nanos },
        grain: range.grain,
    }
}

/// Whether a range, moved by a number of seconds, stays within the years 1 to 9999.
pub open spec fn slides(range: TimeRange, seconds: int) -> bool {
    &&& FIRST_SECOND <= range.start.secs + seconds <= LAST_SECOND
    &&& FIRST_SECOND <= range.end.secs + seconds <= LAST_SECOND
}

/// Where a shift by `n` units of `grain` moves a range: by so many seconds for a
/// grain of fixed length, and to where the calendar says for the others. The range
/// keeps its own grain. The count is one whose opposite a signed number of 32 bits
/// holds too.
pub open spec fn moved(range: TimeRange, grain: Grain, n: int) -> Option<TimeRange> {
    match fixed_length(grain) {
        Some(length) => if -i32::MAX <= n <= i32::MAX && slides(range, n * length) {
            Some(slid(range, n * length))
        } else {
            None
        },
        None => match shifted(range, grain, n) {
            Some(arrived) => Some(TimeRange { start: arrived.start, end: arrived.end, grain: range.grain }),
            None => None,
        },
    }
}

/// The range that an iterator will yield after `index` others; `None` as for
/// [`occurrence`].
pub uninterp spec fn upcoming(stream: Occurrences, index: int) -> Option<TimeRange>;

/// The first second of the day that holds an instant.
pub open spec fn day_start(at: Instant) -> int {
    at.secs - (at.secs as int) % (SECONDS_PER_DAY as int)
}

/// The weekday of the day that holds an instant, counted from Sunday as 0. The first
/// day of 1970 was a Thursday.
pub open spec fn weekday_at(at: Instant) -> int {
    (day_start(at) / (SECONDS_PER_DAY as int) + 4) % 7
}

/// A sequence whose ranges come at equal distances: where the first one starts for
/// an instant, how far apart they start, how long each one is, and its grain.
pub struct Rhythm {
    pub first: int,
    pub period: int,
    pub length: int,
    pub grain: Grain,
}

/// The rhythm of a sequence at an instant, for the sequences that have one: the days,
/// the weeks, a weekday, and the weekends. The first day or week is the one that holds
/// the instant, and a week starts on Sunday. The first range of a weekday is the day
/// of the instant or the first such day after it. The first weekend is the one under
/// way on a Sunday, else the first to start on the day of the instant or after it.
pub open spec fn rhythm(seq: Sequence, at: Instant) -> Option<Rhythm> {
    match seq {
        Sequence::Every(Grain::Day) => Some(
            Rhythm { first: day_start(at), period: 86400, length: 86400, grain: Grain::Day },
        ),
        Sequence::Every(Grain::Week) => Some(
            Rhythm {
                first: day_start(at) - weekday_at(at) * 86400,
                period: 604800,
                length: 604800,
                grain: Grain::Week,
            },
        ),
        Sequence::Weekday(day) => if day <= 6 {
            Some(
                Rhythm {
                    first: day_start(at) + ((day - weekday_at(at)) % 7) * 86400,
                    period: 604800,
                    length: 86400,
                    grain: Grain::Day,
                },
            )
        } else {
            None
        },
        Sequence::Weekend => Some(
            Rhythm {
                first: if weekday_at(at) == 0 {
                    day_start(at) - 86400
                } else {
                    day_start(at) + (6 - weekday_at(at)) * 86400
                },
                period: 604800,
                length: 172800,
                grain: Grain::Day,
            },
        ),
        _ => None,
    }
}

/// The range in place `index` of a rhythm.
pub open spec fn beat(rhythm: Rhythm, index: int) -> TimeRange {
    TimeRange {
        start: Instant { secs: (rhythm.first + index * rhythm.period) as i64, nanos: 0 },
        end: Instant { secs: (rhythm.first + index * rhythm.period + rhythm.length) as i64, nanos: 0 },
        grain: rhythm.grain,
    }
}

/// Whether a rhythm has a range in place `index`: one within the years 1 to 9999, in
/// a place that a signed number of 32 bits can count to.
pub open spec fn beats(rhythm: Rhythm, index: int) -> bool {
    &&& 0 <= index < i32::MAX
    &&& FIRST_SECOND <= rhythm.first + index * rhythm.period
    &&& rhythm.first + index * rhythm.period + rhythm.length <= LAST_SECOND
}

/// The day `index` days after the one that holds `at`.
pub open spec fn day_after(at: Instant, index: int) -> TimeRange {
    beat(Rhythm { first: day_start(at), period: 86400, length: 86400, grain: Grain::Day }, index)
}

/// The range that a sequence yields in place `index`, evaluated at `at`: for a
/// sequence with a rhythm, the range of that place, within the years 1 to 9999; for
/// any other, what the calendar says, in the grain of the sequence.
pub open spec fn yielded(seq: Sequence, at: Instant, index: int) -> Option<TimeRange> {
    match rhythm(seq, at) {
        Some(rhythm) => if beats(rhythm, index) {
            Some(beat(rhythm, index))
        } else {
            None
        },
        None => match occurrence(seq, at, index) {
            Some(range) => Some(TimeRange { start: range.start, end: range.end, grain: seq.grain() }),
            None => None,
        },
    }
}

/// Every range of a sequence has the grain of the sequence.
pub proof fn lemma_grain_of_yielded(seq: Sequence, at: Instant, index: int)
    ensures
        yielded(seq, at, index) matches Some(range) ==> range.grain == seq.grain(),
{
}

/// How the ranges of a sequence of the calendar keep step, in seconds: how far
/// before the instant, or after it, the first one may start; by how much, at least
/// and at most, each starts after the last; and how long, at least and at most,
/// each is.
pub struct Pace {
    pub back: int,
    pub ahead: int,
    pub min_step: int,
    pub max_step: int,
    pub min_length: int,
    pub max_length: int,
}

/// The pace of a sequence of the calendar, for those that keep one: the months (28 to
/// 31 days each, the first one that of the instant), the quarters (89 to 92 days,
/// the first one started at most 153 days before), the years (365 or 366 days), and a
/// month of the twelve (once a year, the first one within eleven months).
pub open spec fn calendar_pace(seq: Sequence) -> Option<Pace> {
    match seq {
        Sequence::Every(Grain::Month) => Some(
            Pace {
                back: 2678400,
                ahead: 0,
                min_step: 2419200,
                max_step: 2678400,
                min_length: 2419200,
                max_length: 2678400,
            },
        ),
        Sequence::Every(Grain::Quarter) => Some(
            Pace {
                back: 13219200,
                ahead: 0,
                min_step: 7689600,
                max_step: 7948800,
                min_length: 7689600,
                max_length: 7948800,
            },
        ),
        Sequence::Every(Grain::Year) => Some(
            Pace {
                back: 31622400,
                ahead: 0,
                min_step: 31536000,
                max_step: 31622400,
                min_length: 31536000,
                max_length: 31622400,
            },
        ),
        Sequence::Month(month) => if 1 <= month <= 12 {
            Some(
                Pace {
                    back: 2678400,
                    ahead: 29116800,
                    min_step: 31536000,
                    max_step: 31622400,
                    min_length: 2419200,
                    max_length: 2678400,
                },
            )
        } else {
            None
        },
        _ => None,
    }
}

/// How many places of a sequence that keeps a pace are spoken of.
pub const REACH: i64 = 100_000;

/// Whether a range lies where the pace has the range in place `index` lie.
pub open spec fn keeps(range: TimeRange, pace: Pace, at: Instant, index: int) -> bool {
    &&& range.start.nanos == 0
    &&& range.end.nanos == 0
    &&& at.secs - pace.back + pace.min_step * index <= range.start.secs
    &&& range.start.secs <= at.secs + pace.ahead + pace.max_step * index
    &&& pace.min_length <= range.end.secs - range.start.secs <= pace.max_length
}

/// Whether a sequence of the calendar that has a pace keeps it: at every instant of
/// the years 1 to 9999 the calendar yields a range in each of the first places, and
/// each lies where the pace says.
pub open spec fn paced(seq: Sequence) -> bool {
    calendar_pace(seq) matches Some(p) ==> forall|at: Instant, index: int|
        at.in_window() && 0 <= index <= REACH ==> ((#[trigger] occurrence(seq, at, index)) matches Some(range)
            && keeps(range, p, at, index))
}

/// How a sequence with a rhythm lies to the instant that it is evaluated at, in
/// seconds: by less than how much its first range may start before the instant, by
/// how much at most after it, how far apart its ranges start, and how long each is.
pub struct Sway {
    pub lag: int,
    pub lead: int,
    pub period: int,
    pub length: int,
}

/// The sway of the days, the weeks, a weekday and the weekends.
pub open spec fn sway(seq: Sequence) -> Option<Sway> {
    match seq {
        Sequence::Every(Grain::Day) => Some(Sway { lag: 86400, lead: 0, period: 86400, length: 86400 }),
        Sequence::Every(Grain::Week) => Some(Sway { lag: 604800, lead: 0, period: 604800, length: 604800 }),
        Sequence::Weekday(day) => if day <= 6 {
            Some(Sway { lag: 86400, lead: 518400, period: 604800, length: 86400 })
        } else {
            None
        },
        Sequence::Weekend => Some(Sway { lag: 172800, lead: 432000, period: 604800, length: 172800 }),
        _ => None,
    }
}

/// The pace of a sequence as the frame of a selection: that of a sequence of the
/// calendar that keeps one, and that of the weeks, each of which starts a week after
/// the last, the first one less than a week before the instant.
pub open spec fn frame_pace(seq: Sequence) -> Option<Pace> {
    match seq {
        Sequence::Every(Grain::Week) => Some(
            Pace {
                back: 604800,
                ahead: 604800,
                min_step: 604800,
                max_step: 604800,
                min_length: 604800,
                max_length: 604800,
            },
        ),
        _ => calendar_pace(seq),
    }
}

/// The pace of a sequence, for those that keep one: a sequence of the calendar that
/// does, and the selection of the `n`-th range of a sequence with a rhythm, or of the
/// `n`-th from the last, in each range of such a sequence of the calendar or in each
/// week, where the shortest of its ranges holds `n` of them wherever they start: the
/// 28th day of a month and no later one, the 4th Monday, the 4th week, the last day,
/// the 7th day of a week.
pub open spec fn pace(seq: Sequence) -> Option<Pace> {
    match seq {
        Sequence::NthOf(n, win, frame) => match (sway(*win), frame_pace(*frame)) {
            (Some(s), Some(f)) => if 0 < n <= 366 && s.lead + (n - 1) * s.period + s.length <= f.min_length {
                Some(
                    Pace {
                        back: f.back + s.lag,
                        ahead: f.ahead + s.lead + (n - 1) * s.period,
                        min_step: f.min_step,
                        max_step: f.max_step,
                        min_length: s.length,
                        max_length: s.length,
                    },
                )
            } else {
                None
            },
            _ => None,
        },
        Sequence::LastOf(n, win, frame) => match (sway(*win), frame_pace(*frame)) {
            (Some(s), Some(f)) => if 0 < n <= 366 && s.lead + (n - 1) * s.period + s.length <= f.min_length {
                Some(
                    Pace {
                        back: f.back + s.lag,
                        ahead: f.ahead + f.max_length + s.period,
                        min_step: f.min_step,
                        max_step: f.max_step,
                        min_length: s.length,
                        max_length: s.length,
                    },
                )
            } else {
                None
            },
            _ => None,
        },
        _ => calendar_pace(seq),
    }
}

/// The length of a range, in nanoseconds.
pub open spec fn length_of(range: TimeRange) -> int {
    (range.end.secs - range.start.secs) * 1_000_000_000 + range.end.nanos - range.start.nanos
}

/// Whether a range is there, is no longer than a frame, and starts before the frame
/// ends.
pub open spec fn lies_within(inner: Option<TimeRange>, outer: TimeRange) -> bool {
    inner matches Some(range) && length_of(range) <= length_of(outer) && range.start.before(outer.end)
}

/// What a selection picks in a frame: the `n`-th range of `win` from the start of the
/// frame on, where the first `n` of them all lie within the frame.
pub open spec fn picked(n: int, win: Sequence, outer: TimeRange) -> Option<TimeRange> {
    if outer.start.in_window() && (forall|k: int|
        0 <= k < n ==> lies_within(#[trigger] yielded(win, outer.start, k), outer)) {
        yielded(win, outer.start, n - 1)
    } else {
        None
    }
}

/// What a selection from the end picks in a frame: of the ranges of `win` from the
/// start of the frame on, the `n`-th before the first one that does not start before
/// the frame ends, where there are as many.
pub open spec fn picked_last(n: int, win: Sequence, outer: TimeRange) -> Option<TimeRange> {
    if outer.start.in_window() && stops(win, outer.start, outer.end, 0) && stop(win, outer.start, outer.end, 0)
        >= n {
        yielded(win, outer.start, stop(win, outer.start, outer.end, 0) - n)
    } else {
        None
    }
}

/// The sequence whose ranges are the frames of a selection.
pub open spec fn frame_of(seq: Sequence) -> Option<Sequence> {
    match seq {
        Sequence::NthOf(_, _, frame) => Some(*frame),
        Sequence::LastOf(_, _, frame) => Some(*frame),
        _ => None,
    }
}

/// What a selection picks in a frame: the `n`-th, or the `n`-th from the last.
pub open spec fn choice(seq: Sequence, outer: TimeRange) -> Option<TimeRange> {
    match seq {
        Sequence::NthOf(n, win, _) => picked(n as int, *win, outer),
        Sequence::LastOf(n, win, _) => picked_last(n as int, *win, outer),
        _ => None,
    }
}

/// What a selection picks in the frame in place `place`.
pub open spec fn chosen(seq: Sequence, at: Instant, place: int) -> Option<TimeRange> {
    match frame_of(seq) {
        Some(frame) => match yielded(frame, at, place) {
            Some(outer) => choice(seq, outer),
            None => None,
        },
        None => None,
    }
}

/// Whether two ranges are there and have the same ends.
pub open spec fn same_ends(one: Option<TimeRange>, other: Option<TimeRange>) -> bool {
    one matches Some(range) && ends_with(range, other)
}

/// Whether a selection goes frame by frame: where it picks a range in each of the
/// frames up to a place, the range that it yields in that place is the one that it
/// picks in the frame of that place.
pub open spec fn selects(seq: Sequence) -> bool {
    forall|at: Instant, index: int|
        at.in_window() && 0 <= index && seq.buildable() && (forall|j: int|
            0 <= j <= index ==> (#[trigger] chosen(seq, at, j)) is Some) ==> same_ends(
            #[trigger] occurrence(seq, at, index),
            chosen(seq, at, index),
        )
}

/// Whether the ranges of a pace up to place `index` lie within the years 1 to 9999,
/// wherever in their pace they lie.
pub open spec fn holds(pace: Pace, at: Instant, index: int) -> bool {
    &&& 0 <= index <= REACH
    &&& FIRST_SECOND <= at.secs - pace.back
    &&& at.secs + pace.ahead + pace.max_step * index + pace.max_length <= LAST_SECOND
}

/// `chrono::DateTime::from_timestamp`, which holds every instant of the years 1 to
/// 9999, read as a date and time without a zone.
#[verifier::external_body]
fn to_naive(at: Instant) -> (t: chrono::NaiveDateTime)
    requires
        at.in_window(),
    ensures
        moment(t) == at,
{
    chrono::DateTime::from_timestamp(at.secs, at.nanos).unwrap().naive_utc()
}

/// Reads a `kronos::Range` field by field; the instants through
/// `chrono::DateTime::timestamp` and `timestamp_subsec_nanos`.
#[verifier::external_body]
fn from_range(range: &kronos::Range) -> (out: TimeRange)
    ensures
        out == span(*range),
{
    let (s, e) = (range.start.and_utc(), range.end.and_utc());
    let grain = match range.grain {
        kronos::Grain::Second => Grain::Second,
        kronos::Grain::Minute => Grain::Minute,
        kronos::Grain::Hour => Grain::Hour,
        kronos::Grain::Day => Grain::Day,
        kronos::Grain::Week => Grain::Week,
        kronos::Grain::Month => Grain::Month,
        kronos::Grain::Quarter => Grain::Quarter,
        kronos::Grain::Year => Grain::Year,
    };
    let start = Instant { secs: s.timestamp(), nanos: s.timestamp_subsec_nanos() };
    let end = Instant { secs: e.timestamp(), nanos: e.timestamp_subsec_nanos() };
    TimeRange { start, end, grain }
}

/// Writes a `kronos::Range` field by field; the instants through
/// `chrono::DateTime::from_timestamp`, as in [`to_naive`].
#[verifier::external_body]
fn to_range(range: TimeRange) -> (out: kronos::Range)
    requires
        range.start.in_window(),
        range.end.in_window(),
    ensures
        span(out) == range,
{
    let (s, e) = (range.start, range.end);
    let grain = match range.grain {
        Grain::Second => kronos::Grain::Second,
        Grain::Minute => kronos::Grain::Minute,
        Grain::Hour => kronos::Grain::Hour,
        Grain::Day => kronos::Grain::Day,
        Grain::Week => kronos::Grain::Week,
        Grain::Month => kronos::Grain::Month,
        Grain::Quarter => kronos::Grain::Quarter,
        Grain::Year => kronos::Grain::Year,
    };
    let start = chrono::DateTime::from_timestamp(s.secs, s.nanos).unwrap().naive_utc();
    let end = chrono::DateTime::from_timestamp(e.secs, e.nanos).unwrap().naive_utc();
    kronos::Range { start, end, grain }
}

/// `kronos::Seq::grain`. The months, quarters and years come one after another from
/// the one that the instant is counted to, each as long as the calendar has it.
#[verifier::external_body]
fn kronos_every(grain: Grain) -> (k: kronos::Seq)
    ensures
        denotes(k) == Sequence::Every(grain),
        paced(denotes(k)),
{
    kronos::Seq::grain(match grain {
        Grain::Second => kronos::Grain::Second,
        Grain::Minute => kronos::Grain::Minute,
        Grain::Hour => kronos::Grain::Hour,
        Grain::Day => kronos::Grain::Day,
        Grain::Week => kronos::Grain::Week,
        Grain::Month => kronos::Grain::Month,
        Grain::Quarter => kronos::Grain::Quarter,
        Grain::Year => kronos::Grain::Year,
    })
}

/// `kronos::Seq::weekday`
#[verifier::external_body]
fn kronos_weekday(day: u32) -> (k: kronos::Seq)
    ensures
        denotes(k) == Sequence::Weekday(day),
{
    kronos::Seq::weekday(day)
}

/// `kronos::Seq::month`. For a month of the twelve, the first range is the first such
/// month from the month of the instant on, and the others follow year by year.
#[verifier::external_body]
fn kronos_month(month: u32) -> (k: kronos::Seq)
    ensures
        denotes(k) == Sequence::Month(month),
        paced(denotes(k)),
{
    kronos::Seq::month(month)
}

/// `kronos::Seq::weekend`
#[verifier::external_body]
fn kronos_weekend() -> (k: kronos::Seq)
    ensures
        denotes(k) == Sequence::Weekend,
{
    kronos::Seq::weekend()
}

/// `kronos::Seq::year`: the sequence of one range, the calendar year, whatever the
/// instant it is evaluated at.
#[verifier::external_body]
fn kronos_year(year: i32) -> (k: kronos::Seq)
    ensures
        denotes(k) == Sequence::Year(year),
        1 <= year <= 9998 ==> forall|at: Instant| #[trigger]
            occurrence(denotes(k), at, 0) == Some(year_span(year as int)),
{
    kronos::Seq::year(year)
}

/// `kronos::Seq::nthof`, which refuses to count from zero. It walks the frames; in
/// each it draws from `win`, evaluated at the start of the frame, as long as what it
/// draws starts before the frame ends, and takes the `n`-th; it gives up on a range
/// that is longer than its frame. Frames without an `n`-th are passed over. So where
/// every frame up to a place has its `n`-th, the range of that place is the `n`-th of
/// that frame.
#[verifier::external_body]
fn kronos_nthof(n: u32, win: kronos::Seq, frame: kronos::Seq) -> (k: kronos::Seq)
    requires
        n > 0,
    ensures
        denotes(k) == Sequence::NthOf(n, Box::new(denotes(win)), Box::new(denotes(frame))),
        selects(denotes(k)),
{
    kronos::Seq::nthof(n, win, frame)
}

/// `kronos::Seq::lastof`, which refuses to count from zero. It walks the frames; in
/// each it draws from `win`, evaluated at the start of the frame, until what it draws
/// does not start before the frame ends, and takes the `n`-th before that one; frames
/// without one are passed over. So where every frame up to a place has its `n`-th
/// from the last, the range of that place is the `n`-th from the last of that frame.
#[verifier::external_body]
fn kronos_lastof(n: u32, win: kronos::Seq, frame: kronos::Seq) -> (k: kronos::Seq)
    requires
        n > 0,
    ensures
        denotes(k) == Sequence::LastOf(n, Box::new(denotes(win)), Box::new(denotes(frame))),
        selects(denotes(k)),
{
    kronos::Seq::lastof(n, win, frame)
}

/// `kronos::Seq::intersect`
#[verifier::external_body]
fn kronos_intersect(a: kronos::Seq, b: kronos::Seq) -> (k: kronos::Seq)
    ensures
        denotes(k) == Sequence::Intersect(Box::new(denotes(a)), Box::new(denotes(b))),
{
    kronos::Seq::intersect(a, b)
}

/// `kronos::Seq::this`: the first range that the sequence yields at `t`. Its grain is
/// that of the sequence; for a sequence with a rhythm it is the first range of the
/// rhythm.
#[verifier::external_body]
fn kronos_this(k: &kronos::Seq, t: &chrono::NaiveDateTime) -> (r: kronos::Range)
    requires
        yielded(denotes(*k), moment(*t), 0) is Some,
    ensures
        Some(span(r)) == yielded(denotes(*k), moment(*t), 0),
{
    k.this(*t)
}

/// The place of the `n`-th range that starts after `at`: the first range that the
/// sequence yields is passed over unless it starts after `at`.
pub open spec fn next_index(seq: Sequence, at: Instant, n: int) -> int {
    if at.before(yielded(seq, at, 0).unwrap().start) {
        n - 1
    } else {
        n
    }
}

/// Whether the sequence yields a range in every place up to `index`.
pub open spec fn reaches(seq: Sequence, at: Instant, index: int) -> bool {
    forall|j: int| 0 <= j <= index ==> (#[trigger] yielded(seq, at, j)) is Some
}

/// `kronos::Seq::next` towards the future: it draws the first range, draws another if
/// that one does not start after `t`, and then `n - 1` more; it refuses `n == 0`. What
/// it draws last is what it returns.
#[verifier::external_body]
fn kronos_next(k: &kronos::Seq, t: &chrono::NaiveDateTime, n: u32) -> (r: kronos::Range)
    requires
        n > 0,
        reaches(denotes(*k), moment(*t), 0),
        reaches(denotes(*k), moment(*t), next_index(denotes(*k), moment(*t), n as int)),
    ensures
        Some(span(r)) == yielded(
            denotes(*k),
            moment(*t),
            next_index(denotes(*k), moment(*t), n as int),
        ),
{
    k.next(*t, kronos::TimeDir::Future, n)
}

/// Whether a range has the ends of another, which is there.
pub open spec fn ends_with(range: TimeRange, other: Option<TimeRange>) -> bool {
    other matches Some(arrived) && range.start == arrived.start && range.end == arrived.end
}

/// `kronos::Range::shift`: both ends move by `n` units, the grain stays. Seconds,
/// minutes, hours, days and weeks are added as so many seconds; months, quarters and
/// years are counted on the calendar.
#[verifier::external_body]
fn kronos_shift(range: &kronos::Range, grain: Grain, n: i32) -> (r: kronos::Range)
    requires
        n > i32::MIN,
        span(*range).start.in_window(),
        span(*range).end.in_window(),
        moved(span(*range), grain, n as int) is Some,
    ensures
        fixed_length(grain) matches Some(length) ==> span(r) == slid(span(*range), n * length),
        fixed_length(grain) is None ==> ends_with(span(r), shifted(span(*range), grain, n as int)),
        span(r).grain == span(*range).grain,
{
    let unit = match grain {
        Grain::Second => kronos::Grain::Second,
        Grain::Minute => kronos::Grain::Minute,
        Grain::Hour => kronos::Grain::Hour,
        Grain::Day => kronos::Grain::Day,
        Grain::Week => kronos::Grain::Week,
        Grain::Month => kronos::Grain::Month,
        Grain::Quarter => kronos::Grain::Quarter,
        Grain::Year => kronos::Grain::Year,
    };
    range.shift(unit, n)
}

/// Calls the function that a `kronos::Seq` wraps, towards the future: the ranges
/// that it will yield are those of the sequence at `t`, in order. An overlap looks
/// for its first range as soon as it is called.
#[verifier::external_body]
fn kronos_occurrences(k: &kronos::Seq, t: &chrono::NaiveDateTime) -> (stream: Occurrences)
    requires
        yielded(denotes(*k), moment(*t), 0) is Some,
    ensures
        forall|i: int|
            0 <= i && yielded(denotes(*k), moment(*t), i) is Some ==> #[trigger] upcoming(stream, i)
                == yielded(denotes(*k), moment(*t), i),
{
    Occurrences { items: k(*t, kronos::TimeDir::Future) }
}

/// `Iterator::next` on the ranges of a sequence: the first of those to come, and the
/// others move up a place.
#[verifier::external_body]
fn kronos_advance(stream: &mut Occurrences) -> (r: kronos::Range)
    requires
        upcoming(*old(stream), 0) is Some,
    ensures
        Some(span(r)) == upcoming(*old(stream), 0),
        forall|i: int| 0 <= i ==> #[trigger] upcoming(*final(stream), i) == upcoming(*old(stream), i + 1),
{
    stream.items.next().unwrap()
}

/// Builds the `kronos` sequence that a description describes.
fn realize(seq: &Sequence) -> (k: kronos::Seq)
    requires
        seq.buildable(),
    ensures
        denotes(k) == *seq,
        *seq matches Sequence::Year(year) ==> (1 <= year <= 9998 ==> forall|at: Instant| #[trigger]
            occurrence(*seq, at, 0) == Some(year_span(year as int))),
        paced(*seq),
        frame_of(*seq) is Some ==> selects(*seq),
        frame_of(*seq) matches Some(frame) ==> paced(frame),
    decreases seq,
{
    match seq {
        Sequence::Every(grain) => kronos_every(*grain),
        Sequence::Weekday(day) => kronos_weekday(*day),
        Sequence::Month(month) => kronos_month(*month),
        Sequence::Weekend => kronos_weekend(),
        Sequence::Year(year) => kronos_year(*year),
        Sequence::NthOf(n, win, frame) => kronos_nthof(*n, realize(win), realize(frame)),
        Sequence::LastOf(n, win, frame) => kronos_lastof(*n, realize(win), realize(frame)),
        Sequence::Intersect(a, b) => kronos_intersect(realize(a), realize(b)),
    }
}

/// Whether a sequence yields a valid range first at `at`.
pub open spec fn this_defined(seq: Sequence, at: Instant) -> bool {
    &&& seq.buildable()
    &&& at.in_window()
    &&& yielded(seq, at, 0) matches Some(range) && range.valid()
}

/// The first range that a sequence yields at `at`.
pub open spec fn this_of(seq: Sequence, at: Instant) -> TimeRange {
    yielded(seq, at, 0).unwrap()
}

/// Whether a sequence yields a valid `n`-th range after `at`.
pub open spec fn next_defined(seq: Sequence, at: Instant, n: int) -> bool {
    &&& seq.buildable()
    &&& at.in_window()
    &&& n > 0
    &&& reaches(seq, at, 0)
    &&& reaches(seq, at, next_index(seq, at, n))
    &&& yielded(seq, at, next_index(seq, at, n)).unwrap().valid()
}

/// The `n`-th range of a sequence that starts after `at`.
pub open spec fn next_of(seq: Sequence, at: Instant, n: int) -> TimeRange {
    yielded(seq, at, next_index(seq, at, n)).unwrap()
}

/// Whether a shift of a valid range arrives at a valid range.
pub open spec fn shift_defined(range: TimeRange, grain: Grain, n: int) -> bool {
    &&& range.valid()
    &&& -i32::MAX <= n <= i32::MAX
    &&& moved(range, grain, n) matches Some(arrived) && arrived.valid()
}

/// The range that a shift by `n` units of `grain` moves `range` to.
pub open spec fn shift_of(range: TimeRange, grain: Grain, n: int) -> TimeRange {
    moved(range, grain, n).unwrap()
}

/// The first range of a sequence at `at`.
pub fn this(seq: &Sequence, at: Instant) -> (r: TimeRange)
    requires
        this_defined(*seq, at),
    ensures
        r == this_of(*seq, at),
        r.valid(),
{
    let k = realize(seq);
    let t = to_naive(at);
    let r = kronos_this(&k, &t);
    from_range(&r)
}

/// The `n`-th range of a sequence that starts after `at`.
pub fn next(seq: &Sequence, at: Instant, n: u32) -> (r: TimeRange)
    requires
        next_defined(*seq, at, n as int),
    ensures
        r == next_of(*seq, at, n as int),
        r.valid(),
{
    let k = realize(seq);
    let t = to_naive(at);
    let r = kronos_next(&k, &t, n);
    from_range(&r)
}

/// The calendar year `year`.
pub fn a_year(year: i32, at: Instant) -> (r: TimeRange)
    requires
        1 <= year <= 9998,
        at.in_window(),
    ensures
        r == year_span(year as int),
{
    let seq = Sequence::Year(year);
    let k = realize(&seq);
    let t = to_naive(at);
    assert(yielded(seq, at, 0) == Some(year_span(year as int)));
    let r = kronos_this(&k, &t);
    from_range(&r)
}

/// Moves a range by `n` units of `grain`.
pub fn shift(range: TimeRange, grain: Grain, n: i32) -> (r: TimeRange)
    requires
        shift_defined(range, grain, n as int),
    ensures
        r == shift_of(range, grain, n as int),
        r.valid(),
        r.grain == range.grain,
{
    let raw = to_range(range);
    let r = kronos_shift(&raw, grain, n);
    from_range(&r)
}

/// Whether `index` is where a run ends that began at `from`: the first place from
/// there on whose range does not start before `bound`.
pub open spec fn stops_at(seq: Sequence, at: Instant, bound: Instant, from: int, index: int) -> bool {
    &&& 0 <= from <= index
    &&& reaches(seq, at, index)
    &&& !yielded(seq, at, index).unwrap().start.before(bound)
    &&& forall|j: int| from <= j < index ==> (#[trigger] yielded(seq, at, j)).unwrap().start.before(bound)
}

/// Whether a run that begins at `from` ends.
pub open spec fn stops(seq: Sequence, at: Instant, bound: Instant, from: int) -> bool {
    exists|index: int| stops_at(seq, at, bound, from, index)
}

/// Where a run that begins at `from` ends.
pub open spec fn stop(seq: Sequence, at: Instant, bound: Instant, from: int) -> int {
    choose|index: int| stops_at(seq, at, bound, from, index)
}

/// Whether the ranges of a sequence from `from` until `until` can be counted: the
/// sequence reaches a range that does not start before `from`, and from there one
/// that does not start before `until`.
pub open spec fn count_defined(seq: Sequence, from: Instant, until: Instant) -> bool {
    &&& seq.buildable()
    &&& from.in_window()
    &&& stops(seq, from, from, 0)
    &&& stops(seq, from, until, stop(seq, from, from, 0))
    &&& count_of(seq, from, until) <= usize::MAX
}

/// How many ranges of a sequence, evaluated at `from`, start at `from` or later and
/// before `until`.
pub open spec fn count_of(seq: Sequence, from: Instant, until: Instant) -> int {
    stop(seq, from, until, stop(seq, from, from, 0)) - stop(seq, from, from, 0)
}

/// A run ends in one place only.
pub proof fn lemma_stop_unique(seq: Sequence, at: Instant, bound: Instant, from: int, a: int, b: int)
    requires
        stops_at(seq, at, bound, from, a),
        stops_at(seq, at, bound, from, b),
    ensures
        a == b,
{
    if a < b {
        assert(yielded(seq, at, a).unwrap().start.before(bound));
    }
    if b < a {
        assert(yielded(seq, at, b).unwrap().start.before(bound));
    }
}

/// Counts the ranges of a sequence, evaluated at `from`, that start at `from` or
/// later and before `until`.
pub fn count_between(seq: &Sequence, from: Instant, until: Instant) -> (count: usize)
    requires
        count_defined(*seq, from, until),
    ensures
        count == count_of(*seq, from, until),
{
    let k = realize(seq);
    let t = to_naive(from);
    let ghost first = stop(*seq, from, from, 0);
    let ghost last = stop(*seq, from, until, first);
    let ghost mut at: int = 0;
    assert(yielded(*seq, from, 0) is Some);
    let mut stream = kronos_occurrences(&k, &t);
    let mut item = from_range(&kronos_advance(&mut stream));
    while item.start.is_before(&from)
        invariant
            0 <= at <= first,
            stops_at(*seq, from, from, 0, first),
            Some(item) == yielded(*seq, from, at),
            forall|i: int|
                0 <= i && yielded(*seq, from, at + 1 + i) is Some ==> #[trigger] upcoming(stream, i)
                    == yielded(*seq, from, at + 1 + i),
        decreases first - at,
    {
        assert(yielded(*seq, from, at + 1) is Some);
        item = from_range(&kronos_advance(&mut stream));
        proof {
            at = at + 1;
        }
    }
    assert(at == first) by {
        if at < first {
            assert(yielded(*seq, from, at).unwrap().start.before(from));
        }
    }
    let mut count: usize = 0;
    while item.start.is_before(&until)
        invariant
            first <= at <= last,
            at == first + count,
            last - first <= usize::MAX,
            stops_at(*seq, from, until, first, last),
            Some(item) == yielded(*seq, from, at),
            forall|i: int|
                0 <= i && yielded(*seq, from, at + 1 + i) is Some ==> #[trigger] upcoming(stream, i)
                    == yielded(*seq, from, at + 1 + i),
        decreases last - at,
    {
        assert(yielded(*seq, from, at + 1) is Some);
        item = from_range(&kronos_advance(&mut stream));
        count = count + 1;
        proof {
            at = at + 1;
        }
    }
    assert(at == last) by {
        if at < last {
            assert(yielded(*seq, from, at).unwrap().start.before(until));
        }
    }
    count
}

/// The rhythm of a sequence at an instant, in seconds: where the first range starts,
/// how far apart the ranges start, and how long each one is.
pub fn rhythm_at(seq: &Sequence, at: Instant) -> (r: Option<(i64, i64, i64)>)
    requires
        at.in_window(),
    ensures
        match r {
            Some((first, period, length)) => rhythm(*seq, at) == Some(
                Rhythm { first: first as int, period: period as int, length: length as int, grain: seq.grain() },
            ),
            None => rhythm(*seq, at) is None,
        },
{
    let elapsed: u64 = (at.secs - FIRST_SECOND) as u64;
    let day: i64 = at.secs - (elapsed % 86400) as i64;
    let weekday: i64 = ((elapsed / 86400 + 1) % 7) as i64;
    proof {
        assert(FIRST_SECOND == -719162 * 86400);
        assert(day == day_start(at));
        assert(day_start(at) / 86400 == elapsed / 86400 - 719162);
        assert(weekday == weekday_at(at));
    }
    match seq {
        Sequence::Every(Grain::Day) => Some((day, 86400, 86400)),
        Sequence::Every(Grain::Week) => Some((day - weekday * 86400, 604800, 604800)),
        Sequence::Weekday(wanted) => if *wanted <= 6 {
            let ahead: i64 = (*wanted as i64 + 7 - weekday) % 7;
            Some((day + ahead * 86400, 604800, 86400))
        } else {
            None
        },
        Sequence::Weekend => if weekday == 0 {
            Some((day - 86400, 604800, 172800))
        } else {
            Some((day + (6 - weekday) * 86400, 604800, 172800))
        },
        _ => None,
    }
}

/// Whether it can be told beforehand that a sequence yields a valid range first at
/// `at`: it can for a sequence with a rhythm.
pub open spec fn this_beats(seq: Sequence, at: Instant) -> bool {
    &&& at.in_window()
    &&& rhythm(seq, at) matches Some(rhythm) && beats(rhythm, 0)
}

/// Whether it can be told beforehand that a sequence yields a valid `n`-th range after
/// `at`: it can for a sequence with a rhythm.
pub open spec fn next_beats(seq: Sequence, at: Instant, n: int) -> bool {
    &&& at.in_window()
    &&& n > 0
    &&& rhythm(seq, at) matches Some(rhythm) && beats(rhythm, 0) && beats(rhythm, next_index(seq, at, n))
}

/// Whether it can be told beforehand that a shift arrives at a valid range: it can
/// for units of a fixed length.
pub open spec fn shift_sure(range: TimeRange, grain: Grain, n: int) -> bool {
    &&& fixed_length(grain) is Some
    &&& shift_defined(range, grain, n)
}

/// What can be told beforehand holds.
pub proof fn lemma_sure_is_defined(seq: Sequence, at: Instant, n: int)
    ensures
        this_beats(seq, at) ==> this_defined(seq, at),
        next_beats(seq, at, n) ==> next_defined(seq, at, n),
{
    if next_beats(seq, at, n) {
        let r = rhythm(seq, at).unwrap();
        let index = next_index(seq, at, n);
        assert forall|j: int| 0 <= j <= index implies (#[trigger] yielded(seq, at, j)) is Some by {
            assert(0 <= j * r.period <= index * r.period) by (nonlinear_arith)
                requires
                    0 <= j <= index,
                    r.period > 0,
            ;
        }
    }
}

/// Tells whether the first range of a sequence at `at` is sure to be there.
fn this_does_beat(seq: &Sequence, at: Instant) -> (b: bool)
    ensures
        b == this_beats(*seq, at),
        b ==> this_defined(*seq, at),
{
    if !(FIRST_SECOND <= at.secs && at.secs <= LAST_SECOND && at.nanos < NANOS_PER_SECOND) {
        return false;
    }
    proof {
        lemma_sure_is_defined(*seq, at, 1);
    }
    match rhythm_at(seq, at) {
        Some((first, _, length)) => FIRST_SECOND <= first && first + length <= LAST_SECOND,
        None => false,
    }
}

/// Tells whether the `n`-th range of a sequence after `at` is sure to be there.
fn next_does_beat(seq: &Sequence, at: Instant, n: u32) -> (b: bool)
    ensures
        b == next_beats(*seq, at, n as int),
        b ==> next_defined(*seq, at, n as int),
{
    if !(FIRST_SECOND <= at.secs && at.secs <= LAST_SECOND && at.nanos < NANOS_PER_SECOND) || n == 0 {
        return false;
    }
    proof {
        lemma_sure_is_defined(*seq, at, n as int);
    }
    match rhythm_at(seq, at) {
        Some((first, period, length)) => {
            if !(FIRST_SECOND <= first && first + length <= LAST_SECOND) {
                return false;
            }
            let index: i64 = if at.secs < first {
                n as i64 - 1
            } else {
                n as i64
            };
            assert(0 <= index * period <= 4294967295 * 604800) by (nonlinear_arith)
                requires
                    0 <= index <= 4294967295,
                    0 <= period <= 604800,
            ;
            index < i32::MAX as i64 && first + index * period + length <= LAST_SECOND
        },
        None => false,
    }
}

/// Tells whether a shift is sure to arrive at a valid range.
pub fn shift_is_sure(range: TimeRange, grain: Grain, n: i32) -> (b: bool)
    ensures
        b == shift_sure(range, grain, n as int),
        b ==> shift_defined(range, grain, n as int),
{
    let length: i64 = match grain {
        Grain::Second => 1,
        Grain::Minute => 60,
        Grain::Hour => 3600,
        Grain::Day => 86400,
        Grain::Week => 604800,
        _ => {
            return false;
        },
    };
    let start = range.start;
    let end = range.end;
    if !(FIRST_SECOND <= start.secs && start.secs <= LAST_SECOND && start.nanos < NANOS_PER_SECOND)
        || !(FIRST_SECOND <= end.secs && end.secs <= LAST_SECOND && end.nanos < NANOS_PER_SECOND)
        || !start.is_before(&end) || n == i32::MIN {
        return false;
    }
    assert(-2147483647 * 604800 <= n * length <= 2147483647 * 604800) by (nonlinear_arith)
        requires
            -2147483647 <= n <= 2147483647,
            1 <= length <= 604800,
    ;
    let by: i64 = n as i64 * length;
    FIRST_SECOND <= start.secs + by && start.secs + by <= LAST_SECOND && FIRST_SECOND <= end.secs + by
        && end.secs + by <= LAST_SECOND
}

/// How many ranges of a rhythm start before `from`: its first one, if at all.
pub open spec fn passed(rhythm: Rhythm, from: Instant) -> int {
    if beat(rhythm, 0).start.before(from) {
        1
    } else {
        0
    }
}

/// The first second that is not before `until`.
pub open spec fn ceiling(until: Instant) -> int {
    if until.nanos > 0 {
        until.secs + 1
    } else {
        until.secs as int
    }
}

/// The place of the first range of a rhythm, from `from` on, that does not start
/// before `until`.
pub open spec fn halt(rhythm: Rhythm, from: Instant, until: Instant) -> int {
    if ceiling(until) <= rhythm.first + passed(rhythm, from) * rhythm.period {
        passed(rhythm, from)
    } else {
        (ceiling(until) - rhythm.first + rhythm.period - 1) / rhythm.period
    }
}

/// Whether it can be told beforehand that the ranges of a sequence from `from` until
/// `until` can be counted: it can for a sequence with a rhythm.
pub open spec fn count_beats(seq: Sequence, from: Instant, until: Instant) -> bool {
    &&& from.in_window()
    &&& rhythm(seq, from) matches Some(rhythm) && beats(rhythm, 0) && beats(
        rhythm,
        halt(rhythm, from, until),
    )
}

/// The range at the halt does not start before `until`, and the one before it does.
pub proof fn lemma_halt(rhythm: Rhythm, from: Instant, until: Instant)
    requires
        rhythm.period == 86400 || rhythm.period == 604800,
    ensures
        passed(rhythm, from) <= halt(rhythm, from, until),
        rhythm.first + halt(rhythm, from, until) * rhythm.period >= ceiling(until),
        passed(rhythm, from) < halt(rhythm, from, until) ==> rhythm.first + (halt(rhythm, from, until) - 1)
            * rhythm.period < ceiling(until),
{
    let numerator = ceiling(until) - rhythm.first + rhythm.period - 1;
    if rhythm.period == 86400 {
        assert(numerator / 86400 * 86400 <= numerator < numerator / 86400 * 86400 + 86400);
    } else {
        assert(numerator / 604800 * 604800 <= numerator < numerator / 604800 * 604800 + 604800);
    }
}

/// The ranges of a rhythm are counted by division.
pub proof fn lemma_count_of_rhythm(seq: Sequence, from: Instant, until: Instant)
    requires
        count_beats(seq, from, until),
    ensures
        count_defined(seq, from, until),
        count_of(seq, from, until) == halt(rhythm(seq, from).unwrap(), from, until) - passed(
            rhythm(seq, from).unwrap(),
            from,
        ),
{
    let r = rhythm(seq, from).unwrap();
    let first = passed(r, from);
    let last = halt(r, from, until);
    assert(r.period == 86400 || r.period == 604800);
    assert(from.secs < r.first + r.period);
    lemma_halt(r, from, until);
    assert forall|j: int| 0 <= j <= last implies (#[trigger] yielded(seq, from, j)) == Some(
        beat(r, j),
    ) by {
        assert(0 <= j * r.period <= last * r.period) by (nonlinear_arith)
            requires
                0 <= j <= last,
                r.period > 0,
        ;
    }
    assert(yielded(seq, from, 0) == Some(beat(r, 0)));
    assert(yielded(seq, from, first) == Some(beat(r, first)));
    assert(stops_at(seq, from, from, 0, first));
    lemma_stop_unique(seq, from, from, 0, first, stop(seq, from, from, 0));
    assert(stops_at(seq, from, until, first, last)) by {
        assert(yielded(seq, from, last) == Some(beat(r, last)));
        assert(r.first + last * r.period >= ceiling(until));
        assert forall|j: int| first <= j < last implies (#[trigger] yielded(seq, from, j)).unwrap().start.before(
            until,
        ) by {
            assert(yielded(seq, from, j) == Some(beat(r, j)));
            assert(j * r.period <= (last - 1) * r.period) by (nonlinear_arith)
                requires
                    j <= last - 1,
                    r.period > 0,
            ;
            assert(r.first + (last - 1) * r.period < ceiling(until));
        }
    }
    lemma_stop_unique(seq, from, until, first, last, stop(seq, from, until, first));
}

/// Tells whether the ranges of a sequence from `from` until `until` are sure to be
/// countable.
fn count_does_beat(seq: &Sequence, from: Instant, until: Instant) -> (b: bool)
    ensures
        b == count_beats(*seq, from, until),
        b ==> count_defined(*seq, from, until),
{
    if !(FIRST_SECOND <= from.secs && from.secs <= LAST_SECOND && from.nanos < NANOS_PER_SECOND) {
        return false;
    }
    match rhythm_at(seq, from) {
        Some((first, period, length)) => {
            if !(FIRST_SECOND <= first && first + length <= LAST_SECOND) {
                return false;
            }
            let ghost r = rhythm(*seq, from).unwrap();
            let skip: i64 = if first < from.secs || (first == from.secs && from.nanos > 0) {
                1
            } else {
                0
            };
            if until.secs > LAST_SECOND {
                proof {
                    lemma_halt(r, from, until);
                }
                return false;
            }
            let bound: i64 = if until.nanos > 0 {
                until.secs + 1
            } else {
                until.secs
            };
            let last: i64 = if bound <= first + skip * period {
                skip
            } else {
                (bound - first + period - 1) / period
            };
            proof {
                lemma_halt(r, from, until);
            }
            assert(last == halt(r, from, until));
            assert(0 <= last <= 253402300800 + 62135596800 + 604800);
            assert(0 <= last * period <= (253402300800 + 62135596800 + 604800) * 604800) by (nonlinear_arith)
                requires
                    0 <= last <= 253402300800 + 62135596800 + 604800,
                    0 <= period <= 604800,
            ;
            let sure = last < i32::MAX as i64 && first + last * period + length <= LAST_SECOND;
            proof {
                if sure {
                    lemma_count_of_rhythm(*seq, from, until);
                }
            }
            sure
        },
        None => false,
    }
}

/// Whether it can be told of a sequence that keeps a pace that its first range at
/// `at` lies within the years 1 to 9999.
pub open spec fn this_steady(seq: Sequence, at: Instant) -> bool {
    &&& at.in_window()
    &&& pace(seq) matches Some(p) && holds(p, at, 0)
}

/// Whether it can be told of a sequence that keeps a pace that its `n`-th range after
/// `at` lies within the years 1 to 9999.
pub open spec fn next_steady(seq: Sequence, at: Instant, n: int) -> bool {
    &&& at.in_window()
    &&& n > 0
    &&& pace(seq) matches Some(p) && holds(p, at, n)
}

/// A place by which a sequence that keeps a pace has passed both `from` and `until`.
pub open spec fn hops(pace: Pace, from: Instant, until: Instant) -> int {
    let need = if ceiling(until) - from.secs > 1 {
        ceiling(until) - from.secs + pace.back
    } else {
        1 + pace.back
    };
    (need + pace.min_step - 1) / pace.min_step
}

/// Whether it can be told of a sequence that keeps a pace that its ranges from `from`
/// until `until` can be counted within the years 1 to 9999.
pub open spec fn count_steady(seq: Sequence, from: Instant, until: Instant) -> bool {
    &&& from.in_window()
    &&& pace(seq) matches Some(p) && holds(p, from, hops(p, from, until))
}

/// Whether it can be told beforehand that a sequence yields a valid range first at
/// `at`: it can for a sequence with a rhythm, and for one that keeps a pace.
pub open spec fn this_sure(seq: Sequence, at: Instant) -> bool {
    this_beats(seq, at) || this_steady(seq, at)
}

/// Whether it can be told beforehand that a sequence yields a valid `n`-th range after
/// `at`.
pub open spec fn next_sure(seq: Sequence, at: Instant, n: int) -> bool {
    next_beats(seq, at, n) || next_steady(seq, at, n)
}

/// Whether it can be told beforehand that the ranges of a sequence from `from` until
/// `until` can be counted.
pub open spec fn count_sure(seq: Sequence, from: Instant, until: Instant) -> bool {
    count_beats(seq, from, until) || count_steady(seq, from, until)
}

/// The frame of a selection in place `j` lies where its pace says, where the pace
/// holds it within the years 1 to 9999.
pub proof fn lemma_frame_steady(frame: Sequence, at: Instant, j: int)
    requires
        paced(frame),
        at.in_window(),
        0 <= j <= REACH,
        frame_pace(frame) matches Some(f) && FIRST_SECOND <= at.secs - f.back && at.secs + f.ahead + f.max_step
            * j <= LAST_SECOND,
    ensures
        yielded(frame, at, j) matches Some(outer) && keeps(outer, frame_pace(frame).unwrap(), at, j),
{
    if frame == Sequence::Every(Grain::Week) {
        lemma_sway(frame, at);
        let r = rhythm(frame, at).unwrap();
        assert(beats(r, j));
    } else {
        let found = occurrence(frame, at, j);
        assert(found matches Some(outer) && keeps(outer, calendar_pace(frame).unwrap(), at, j));
    }
}

/// The first range of a sequence with a rhythm lies to the instant as the sway of the
/// sequence says.
pub proof fn lemma_sway(seq: Sequence, at: Instant)
    requires
        sway(seq) is Some,
    ensures
        rhythm(seq, at) matches Some(r) && r.period == sway(seq).unwrap().period && r.length == sway(
            seq,
        ).unwrap().length && at.secs - sway(seq).unwrap().lag < r.first <= at.secs + sway(seq).unwrap().lead,
{
    let wd = weekday_at(at);
    assert(0 <= wd <= 6);
    assert(at.secs - 86400 < day_start(at) <= at.secs);
    if let Sequence::Weekday(day) = seq {
        assert(0 <= (day - wd) % 7 <= 6);
    }
}

/// In a frame that is long enough for them, wherever they start, a selection picks
/// the `n`-th range of a sequence with a rhythm: one that lies to the start of the
/// frame as the sway and the rhythm say.
pub proof fn lemma_picked(n: int, win: Sequence, outer: TimeRange)
    requires
        sway(win) matches Some(s) && 0 < n <= 366 && s.lead + (n - 1) * s.period + s.length <= outer.end.secs
            - outer.start.secs && FIRST_SECOND <= outer.start.secs - s.lag && outer.start.secs + s.lead + (n
            - 1) * s.period + s.length <= LAST_SECOND,
        outer.start.in_window(),
        outer.start.nanos == 0,
        outer.end.nanos == 0,
    ensures
        picked(n, win, outer) matches Some(range) && range.valid() && range.start.nanos == 0 && range.end.nanos
            == 0 && outer.start.secs - sway(win).unwrap().lag < range.start.secs <= outer.start.secs + sway(
            win,
        ).unwrap().lead + (n - 1) * sway(win).unwrap().period && range.end.secs - range.start.secs == sway(
            win,
        ).unwrap().length,
{
    let s = sway(win).unwrap();
    lemma_sway(win, outer.start);
    let r = rhythm(win, outer.start).unwrap();
    assert forall|k: int| 0 <= k < n implies beats(r, k) && lies_within(
        #[trigger] yielded(win, outer.start, k),
        outer,
    ) by {
        assert(0 <= k * r.period <= (n - 1) * r.period) by (nonlinear_arith)
            requires
                0 <= k <= n - 1,
                r.period > 0,
        ;
        assert(beats(r, k));
        assert(yielded(win, outer.start, k) == Some(beat(r, k)));
        assert(length_of(beat(r, k)) == r.length * 1_000_000_000);
        assert(length_of(outer) == (outer.end.secs - outer.start.secs) * 1_000_000_000);
    }
    assert(beats(r, n - 1));
    assert(yielded(win, outer.start, n - 1) == Some(beat(r, n - 1)));
}

/// Where a sequence reaches a range that does not start before the bound, a run from
/// any place before it ends.
pub proof fn lemma_least_stop(seq: Sequence, at: Instant, bound: Instant, from: int, upto: int)
    requires
        0 <= from <= upto,
        reaches(seq, at, upto),
        !yielded(seq, at, upto).unwrap().start.before(bound),
    ensures
        stops(seq, at, bound, from),
        from <= stop(seq, at, bound, from) <= upto,
    decreases upto - from,
{
    if !yielded(seq, at, from).unwrap().start.before(bound) {
        assert(stops_at(seq, at, bound, from, from));
    } else {
        lemma_least_stop(seq, at, bound, from + 1, upto);
        let index = stop(seq, at, bound, from + 1);
        assert(stops_at(seq, at, bound, from + 1, index));
        assert(stops_at(seq, at, bound, from, index));
    }
    let index = choose|index: int| from <= index <= upto && stops_at(seq, at, bound, from, index);
    lemma_stop_unique(seq, at, bound, from, index, stop(seq, at, bound, from));
}

/// A sequence with a rhythm, whose ranges from the instant on lie within the years 1
/// to 9999 until one does not start before a bound, comes to such a one.
pub proof fn lemma_rhythm_stops(win: Sequence, at: Instant, bound: Instant, k: int)
    requires
        sway(win) is Some,
        rhythm(win, at) matches Some(r) && FIRST_SECOND <= r.first && r.first + k * r.period < bound.secs
            + r.period && bound.secs + r.period + r.length <= LAST_SECOND,
        bound.nanos == 0,
        0 <= k,
    ensures
        stops(win, at, bound, 0),
    decreases bound.secs + rhythm(win, at).unwrap().period - (rhythm(win, at).unwrap().first + k * rhythm(
        win,
        at,
    ).unwrap().period),
{
    lemma_sway(win, at);
    let r = rhythm(win, at).unwrap();
    assert forall|j: int| 0 <= j <= k implies beats(r, j) && #[trigger] yielded(win, at, j) == Some(
        beat(r, j),
    ) by {
        assert(0 <= j * r.period <= k * r.period && j * 86400 <= j * r.period) by (nonlinear_arith)
            requires
                0 <= j <= k,
                r.period >= 86400,
        ;
    }
    if r.first + k * r.period >= bound.secs {
        lemma_least_stop(win, at, bound, 0, k);
    } else {
        assert((k + 1) * r.period == k * r.period + r.period) by (nonlinear_arith);
        lemma_rhythm_stops(win, at, bound, k + 1);
    }
}

/// In a frame that is long enough for them, wherever they start, a selection from the
/// end picks a range of a sequence with a rhythm: one that starts within the frame.
pub proof fn lemma_picked_last(n: int, win: Sequence, outer: TimeRange)
    requires
        sway(win) matches Some(s) && 0 < n <= 366 && s.lead + (n - 1) * s.period + s.length <= outer.end.secs
            - outer.start.secs && FIRST_SECOND <= outer.start.secs - s.lag && outer.end.secs + s.period
            + s.length <= LAST_SECOND,
        outer.start.in_window(),
        outer.start.nanos == 0,
        outer.end.nanos == 0,
    ensures
        picked_last(n, win, outer) matches Some(range) && range.valid() && range.start.nanos == 0
            && range.end.nanos == 0 && outer.start.secs - sway(win).unwrap().lag < range.start.secs
            < outer.end.secs && range.end.secs - range.start.secs == sway(win).unwrap().length,
{
    let s = sway(win).unwrap();
    lemma_sway(win, outer.start);
    let r = rhythm(win, outer.start).unwrap();
    assert(0 <= (n - 1) * r.period) by (nonlinear_arith)
        requires
            n >= 1,
            r.period > 0,
    ;
    lemma_rhythm_stops(win, outer.start, outer.end, 0);
    let m = stop(win, outer.start, outer.end, 0);
    assert(stops_at(win, outer.start, outer.end, 0, m));
    assert(yielded(win, outer.start, m) is Some);
    if m < n {
        assert(m * r.period <= (n - 1) * r.period) by (nonlinear_arith)
            requires
                0 <= m <= n - 1,
                r.period > 0,
        ;
        assert(yielded(win, outer.start, m).unwrap().start.before(outer.end));
    }
    assert(yielded(win, outer.start, m - 1) is Some);
    assert(yielded(win, outer.start, m - 1).unwrap().start.before(outer.end));
    assert(yielded(win, outer.start, m - n) is Some);
    assert(0 <= (m - n) * r.period <= (m - 1) * r.period) by (nonlinear_arith)
        requires
            1 <= n <= m,
            r.period > 0,
    ;
}

/// A selection among the ranges of a rhythm, in a frame that keeps its pace, keeps a
/// pace of its own.
pub proof fn lemma_selection_steady(seq: Sequence, at: Instant, index: int)
    requires
        frame_of(seq) matches Some(frame) && paced(frame),
        selects(seq),
        at.in_window(),
        pace(seq) matches Some(p) && holds(p, at, index),
    ensures
        forall|j: int|
            0 <= j <= index ==> ((#[trigger] yielded(seq, at, j)) matches Some(range) && range.valid()
                && keeps(range, pace(seq).unwrap(), at, j)),
{
    let p = pace(seq).unwrap();
    let frame = frame_of(seq).unwrap();
    let f = frame_pace(frame).unwrap();
    lemma_pace_is_built(seq);
    assert forall|j: int| 0 <= j <= index implies (#[trigger] chosen(seq, at, j)) is Some && ({
        let range = chosen(seq, at, j).unwrap();
        range.valid() && keeps(range, p, at, j)
    }) by {
        assert(0 <= f.min_step * j && f.min_step * j <= f.max_step * j && f.max_step * j <= f.max_step * index)
            by (nonlinear_arith)
            requires
                0 <= j <= index,
                0 < f.min_step <= f.max_step,
        ;
        lemma_frame_steady(frame, at, j);
        let outer = yielded(frame, at, j).unwrap();
        match seq {
            Sequence::NthOf(n, win, _) => {
                lemma_picked(n as int, *win, outer);
            },
            Sequence::LastOf(n, win, _) => {
                lemma_picked_last(n as int, *win, outer);
            },
            _ => {},
        }
    }
    assert forall|j: int| 0 <= j <= index implies ((#[trigger] yielded(seq, at, j)) matches Some(range)
        && range.valid() && keeps(range, p, at, j)) by {
        assert forall|i: int| 0 <= i <= j implies (#[trigger] chosen(seq, at, i)) is Some by {}
        assert(same_ends(occurrence(seq, at, j), chosen(seq, at, j)));
    }
}

/// A sequence that keeps its pace yields a valid range in every place up to one
/// that the pace holds within the years 1 to 9999.
pub proof fn lemma_steady(seq: Sequence, at: Instant, index: int)
    requires
        paced(seq),
        frame_of(seq) is Some ==> selects(seq),
        frame_of(seq) matches Some(frame) ==> paced(frame),
        at.in_window(),
        pace(seq) matches Some(p) && holds(p, at, index),
    ensures
        forall|j: int|
            0 <= j <= index ==> ((#[trigger] yielded(seq, at, j)) matches Some(range) && range.valid()
                && keeps(range, pace(seq).unwrap(), at, j)),
{
    let p = pace(seq).unwrap();
    if frame_of(seq) is Some {
        lemma_selection_steady(seq, at, index);
    } else {
        assert forall|j: int| 0 <= j <= index implies ((#[trigger] yielded(seq, at, j)) matches Some(range)
            && range.valid() && keeps(range, p, at, j)) by {
            let found = occurrence(seq, at, j);
            assert(found matches Some(range) && keeps(range, p, at, j));
            assert(0 <= p.min_step * j && p.max_step * j <= p.max_step * index) by (nonlinear_arith)
                requires
                    0 <= j <= index,
                    0 < p.min_step <= p.max_step,
            ;
        }
    }
}

/// The pace of a sequence of the calendar, in seconds: how far back, how far ahead,
/// the least and the greatest step, and the least and the greatest length.
fn calendar_pace_of(seq: &Sequence) -> (r: Option<(i64, i64, i64, i64, i64, i64)>)
    ensures
        match r {
            Some((back, ahead, min_step, max_step, min_length, max_length)) => calendar_pace(*seq) matches Some(p)
                && p.back == back && p.ahead == ahead && p.min_step == min_step && p.max_step == max_step
                && p.min_length == min_length && p.max_length == max_length,
            None => calendar_pace(*seq) is None,
        },
{
    match seq {
        Sequence::Every(Grain::Month) => Some((31 * 86400, 0, 28 * 86400, 31 * 86400, 28 * 86400, 31 * 86400)),
        Sequence::Every(Grain::Quarter) => Some(
            (153 * 86400, 0, 89 * 86400, 92 * 86400, 89 * 86400, 92 * 86400),
        ),
        Sequence::Every(Grain::Year) => Some(
            (366 * 86400, 0, 365 * 86400, 366 * 86400, 365 * 86400, 366 * 86400),
        ),
        Sequence::Month(month) => if 1 <= *month && *month <= 12 {
            Some((31 * 86400, 337 * 86400, 365 * 86400, 366 * 86400, 28 * 86400, 31 * 86400))
        } else {
            None
        },
        _ => None,
    }
}

/// The pace of a sequence as the frame of a selection, in seconds.
fn frame_pace_of(seq: &Sequence) -> (r: Option<(i64, i64, i64, i64, i64, i64)>)
    ensures
        match r {
            Some((back, ahead, min_step, max_step, min_length, max_length)) => frame_pace(*seq) matches Some(p)
                && p.back == back && p.ahead == ahead && p.min_step == min_step && p.max_step == max_step
                && p.min_length == min_length && p.max_length == max_length && 0 <= back <= 366 * 86400 && 0
                <= ahead <= 366 * 86400 && 0 < min_length <= max_length <= 366 * 86400 && (min_step == 604800
                || min_step == 2419200 || min_step == 7689600 || min_step == 31536000) && min_step <= max_step
                <= 366 * 86400,
            None => frame_pace(*seq) is None,
        },
{
    match seq {
        Sequence::Every(Grain::Week) => Some((604800, 604800, 604800, 604800, 604800, 604800)),
        _ => calendar_pace_of(seq),
    }
}

/// The sway of a sequence with a rhythm, in seconds: lag, lead, period and length.
fn sway_of(seq: &Sequence) -> (r: Option<(i64, i64, i64, i64)>)
    ensures
        match r {
            Some((lag, lead, period, length)) => sway(*seq) matches Some(s) && s.lag == lag && s.lead == lead
                && s.period == period && s.length == length && 0 < lag <= 604800 && 0 <= lead <= 604800 && 86400
                <= period <= 604800 && 0 < length <= 604800,
            None => sway(*seq) is None,
        },
{
    match seq {
        Sequence::Every(Grain::Day) => Some((86400, 0, 86400, 86400)),
        Sequence::Every(Grain::Week) => Some((604800, 0, 604800, 604800)),
        Sequence::Weekday(day) => if *day <= 6 {
            Some((86400, 518400, 604800, 86400))
        } else {
            None
        },
        Sequence::Weekend => Some((172800, 432000, 604800, 172800)),
        _ => None,
    }
}

/// The pace of a sequence, in seconds: how far back, how far ahead, the least and
/// the greatest step, and the greatest length.
fn pace_of(seq: &Sequence) -> (r: Option<(i64, i64, i64, i64, i64)>)
    ensures
        match r {
            Some((back, ahead, min_step, max_step, max_length)) => pace(*seq) matches Some(p) && p.back == back
                && p.ahead == ahead && p.min_step == min_step && p.max_step == max_step && p.max_length
                == max_length && 0 <= back <= 400 * 86400 && 0 <= ahead <= 800 * 86400 && 0 < max_length <= 366
                * 86400 && (min_step == 604800 || min_step == 2419200 || min_step == 7689600 || min_step == 31536000)
                && min_step
                <= max_step <= 366 * 86400,
            None => pace(*seq) is None,
        },
{
    match seq {
        Sequence::NthOf(n, win, frame) => match (sway_of(win), frame_pace_of(frame)) {
            (Some((lag, lead, period, length)), Some((back, ahead, min_step, max_step, min_length, _))) => {
                if 0 < *n && *n <= 366 {
                    assert(0 <= (*n as i64 - 1) * period <= 365 * 604800) by (nonlinear_arith)
                        requires
                            0 < *n <= 366,
                            0 < period <= 604800,
                    ;
                    let tail: i64 = (*n as i64 - 1) * period;
                    if lead + tail + length <= min_length {
                        return Some((back + lag, ahead + lead + tail, min_step, max_step, length));
                    }
                }
                None
            },
            _ => None,
        },
        Sequence::LastOf(n, win, frame) => match (sway_of(win), frame_pace_of(frame)) {
            (Some((lag, lead, period, length)), Some((back, ahead, min_step, max_step, min_length, max_length))) => {
                if 0 < *n && *n <= 366 {
                    assert(0 <= (*n as i64 - 1) * period <= 365 * 604800) by (nonlinear_arith)
                        requires
                            0 < *n <= 366,
                            0 < period <= 604800,
                    ;
                    let tail: i64 = (*n as i64 - 1) * period;
                    if lead + tail + length <= min_length {
                        return Some((back + lag, ahead + max_length + period, min_step, max_step, length));
                    }
                }
                None
            },
            _ => None,
        },
        _ => match calendar_pace_of(seq) {
            Some((back, ahead, min_step, max_step, _, max_length)) => Some(
                (back, ahead, min_step, max_step, max_length),
            ),
            None => None,
        },
    }
}

/// A sequence that keeps a pace is one that can be built.
pub proof fn lemma_pace_is_built(seq: Sequence)
    requires
        pace(seq) is Some,
    ensures
        seq.buildable(),
{
    match seq {
        Sequence::NthOf(n, win, frame) => {
            assert(win.buildable());
            assert(frame.buildable());
        },
        Sequence::LastOf(n, win, frame) => {
            assert(win.buildable());
            assert(frame.buildable());
        },
        _ => {},
    }
}

/// Tells whether the pace of a sequence holds its ranges up to place `index` within
/// the years 1 to 9999.
fn pace_holds(seq: &Sequence, at: Instant, index: i64) -> (b: bool)
    requires
        at.in_window(),
    ensures
        b == (pace(*seq) matches Some(p) && holds(p, at, index as int)),
        b ==> seq.buildable(),
        b ==> forall|j: int|
            0 <= j <= index ==> ((#[trigger] yielded(*seq, at, j)) matches Some(range) && range.valid() && keeps(
                range,
                pace(*seq).unwrap(),
                at,
                j,
            )),
{
    match pace_of(seq) {
        Some((back, ahead, _, max_step, max_length)) => {
            if index < 0 || index > REACH {
                return false;
            }
            assert(0 <= max_step * index <= 366 * 86400 * 100000) by (nonlinear_arith)
                requires
                    0 <= index <= 100000,
                    0 <= max_step <= 366 * 86400,
            ;
            let fine = FIRST_SECOND <= at.secs - back && at.secs + ahead + max_step * index + max_length
                <= LAST_SECOND;
            if fine {
                proof {
                    lemma_pace_is_built(*seq);
                }
                let _ = realize(seq);
                proof {
                    lemma_steady(*seq, at, index as int);
                }
            }
            fine
        },
        None => false,
    }
}

/// Tells whether the first range of a sequence at `at` is sure to be there.
pub fn this_is_sure(seq: &Sequence, at: Instant) -> (b: bool)
    ensures
        b == this_sure(*seq, at),
        b ==> this_defined(*seq, at),
{
    if this_does_beat(seq, at) {
        return true;
    }
    if !(FIRST_SECOND <= at.secs && at.secs <= LAST_SECOND && at.nanos < NANOS_PER_SECOND) {
        return false;
    }
    pace_holds(seq, at, 0)
}

/// Tells whether the `n`-th range of a sequence after `at` is sure to be there.
pub fn next_is_sure(seq: &Sequence, at: Instant, n: u32) -> (b: bool)
    ensures
        b == next_sure(*seq, at, n as int),
        b ==> next_defined(*seq, at, n as int),
{
    if next_does_beat(seq, at, n) {
        return true;
    }
    if !(FIRST_SECOND <= at.secs && at.secs <= LAST_SECOND && at.nanos < NANOS_PER_SECOND) || n == 0 {
        return false;
    }
    pace_holds(seq, at, n as i64)
}

/// Tells whether the ranges of a sequence from `from` until `until` are sure to be
/// countable.
pub fn count_is_sure(seq: &Sequence, from: Instant, until: Instant) -> (b: bool)
    ensures
        b == count_sure(*seq, from, until),
        b ==> count_defined(*seq, from, until),
{
    if count_does_beat(seq, from, until) {
        return true;
    }
    if !(FIRST_SECOND <= from.secs && from.secs <= LAST_SECOND && from.nanos < NANOS_PER_SECOND) {
        return false;
    }
    match pace_of(seq) {
        Some((back, _, min_step, max_step, _)) => {
            let ghost p = pace(*seq).unwrap();
            proof {
                lemma_hops(p, from, until);
            }
            if until.secs > LAST_SECOND {
                return false;
            }
            let bound: i64 = if until.nanos > 0 {
                until.secs + 1
            } else {
                until.secs
            };
            let need: i64 = if until.secs >= FIRST_SECOND && bound - from.secs > 1 {
                bound - from.secs + back
            } else {
                1 + back
            };
            let place: i64 = (need + min_step - 1) / min_step;
            let fine = pace_holds(seq, from, place);
            proof {
                if fine {
                    let index = place as int;
                    assert(yielded(*seq, from, index) matches Some(range) && keeps(range, p, from, index));
                    lemma_least_stop(*seq, from, from, 0, index);
                    let first = stop(*seq, from, from, 0);
                    lemma_least_stop(*seq, from, until, first, index);
                }
            }
            fine
        },
        None => false,
    }
}

/// By the place that [`hops`] names, a pace has covered what was needed; and beyond
/// the years that the library works with, no pace holds.
pub proof fn lemma_hops(pace: Pace, from: Instant, until: Instant)
    requires
        from.in_window(),
        pace.back >= 0,
        pace.ahead >= 0,
        pace.max_length >= 0,
        pace.min_step == 604800 || pace.min_step == 2419200 || pace.min_step == 7689600 || pace.min_step
            == 31536000,
        pace.max_step >= pace.min_step,
    ensures
        hops(pace, from, until) >= 0,
        pace.min_step * hops(pace, from, until) >= 1 + pace.back,
        pace.min_step * hops(pace, from, until) >= ceiling(until) - from.secs + pace.back,
        until.secs > LAST_SECOND ==> !holds(pace, from, hops(pace, from, until)),
{
    let need = if ceiling(until) - from.secs > 1 {
        ceiling(until) - from.secs + pace.back
    } else {
        1 + pace.back
    };
    let place = hops(pace, from, until);
    if pace.min_step == 604800 {
        let numerator = need + 604799;
        assert(place == numerator / 604800);
        assert(numerator / 604800 * 604800 <= numerator < numerator / 604800 * 604800 + 604800);
    } else if pace.min_step == 2419200 {
        let numerator = need + 2419199;
        assert(place == numerator / 2419200);
        assert(numerator / 2419200 * 2419200 <= numerator < numerator / 2419200 * 2419200 + 2419200);
    } else if pace.min_step == 7689600 {
        let numerator = need + 7689599;
        assert(place == numerator / 7689600);
        assert(numerator / 7689600 * 7689600 <= numerator < numerator / 7689600 * 7689600 + 7689600);
    } else {
        let numerator = need + 31535999;
        assert(place == numerator / 31536000);
        assert(numerator / 31536000 * 31536000 <= numerator < numerator / 31536000 * 31536000 + 31536000);
    }
    assert(pace.min_step * place >= need);
    assert(pace.max_step * place >= pace.min_step * place) by (nonlinear_arith)
        requires
            place >= 0,
            pace.max_step >= pace.min_step,
    ;
}

} // verus!
