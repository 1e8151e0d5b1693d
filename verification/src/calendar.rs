//! Calendar values: instants, ranges with a grain, and descriptions of recurring
//! sequences of ranges.

use vstd::prelude::*;

verus! {

/// Resolution of a range's boundaries.
#[derive(Clone, Copy, Debug, PartialEq, Eq, Structural)]
pub enum Grain {
    Second,
    Minute,
    Hour,
    Day,
    Week,
    Month,
    Quarter,
    Year,
}

impl Grain {
    /// The grain's name, capitalised.
    pub open spec fn label_spec(self) -> Seq<char> {
        match self {
            Grain::Second => "Second"@,
            Grain::Minute => "Minute"@,
            Grain::Hour => "Hour"@,
            Grain::Day => "Day"@,
            Grain::Week => "Week"@,
            Grain::Month => "Month"@,
            Grain::Quarter => "Quarter"@,
            Grain::Year => "Year"@,
        }
    }

    /// The place of the grain among the grains, the finest first.
    pub open spec fn rank(self) -> int {
        match self {
            Grain::Second => 0,
            Grain::Minute => 1,
            Grain::Hour => 2,
            Grain::Day => 3,
            Grain::Week => 4,
            Grain::Month => 5,
            Grain::Quarter => 6,
            Grain::Year => 7,
        }
    }

    /// The finer of two grains.
    pub open spec fn finer(self, other: Grain) -> Grain {
        if self.rank() <= other.rank() {
            self
        } else {
            other
        }
    }

    pub fn label(self) -> (r: &'static str)
        ensures
            r@ == self.label_spec(),
    {
        match self {
            Grain::Second => "Second",
            Grain::Minute => "Minute",
            Grain::Hour => "Hour",
            Grain::Day => "Day",
            Grain::Week => "Week",
            Grain::Month => "Month",
            Grain::Quarter => "Quarter",
            Grain::Year => "Year",
        }
    }
}

/// The first second of the year 1, counted from 1970-01-01T00:00:00.
pub const FIRST_SECOND: i64 = -62135596800;

/// The last second of the year 9999, counted from 1970-01-01T00:00:00.
pub const LAST_SECOND: i64 = 253402300799;

/// Nanoseconds in a second.
pub const NANOS_PER_SECOND: u32 = 1_000_000_000;

/// Seconds in a day.
pub const SECONDS_PER_DAY: i64 = 86400;

/// A point in time: seconds since 1970-01-01T00:00:00 and nanoseconds into that second.
#[derive(Clone, Copy, Debug, PartialEq, Eq, Structural)]
pub struct Instant {
    pub secs: i64,
    pub nanos: u32,
}

impl Instant {
    /// The instants that the library works with: those of the years 1 to 9999. The
    /// calendar adds to a date without a check, and gives up on one beyond what
    /// `chrono` holds; from within these years what it adds stays clear of that. They
    /// are also the years that are written in four figures.
    pub open spec fn in_window(self) -> bool {
        FIRST_SECOND <= self.secs <= LAST_SECOND && self.nanos < NANOS_PER_SECOND
    }

    /// Strictly earlier.
    pub open spec fn before(self, other: Instant) -> bool {
        self.secs < other.secs || (self.secs == other.secs && self.nanos < other.nanos)
    }

    /// The instant with these coordinates, if the library works with it.
    pub fn new(secs: i64, nanos: u32) -> (r: Option<Instant>)
        ensures
            r == if (Instant { secs, nanos }).in_window() {
                Some(Instant { secs, nanos })
            } else {
                None
            },
    {
        if FIRST_SECOND <= secs && secs <= LAST_SECOND && nanos < NANOS_PER_SECOND {
            Some(Instant { secs, nanos })
        } else {
            None
        }
    }

    pub fn is_before(&self, other: &Instant) -> (b: bool)
        ensures
            b == self.before(*other),
    {
        self.secs < other.secs || (self.secs == other.secs && self.nanos < other.nanos)
    }

    /// One nanosecond earlier.
    pub open spec fn previous(self) -> Instant {
        if self.nanos == 0 {
            Instant { secs: (self.secs - 1) as i64, nanos: (NANOS_PER_SECOND - 1) as u32 }
        } else {
            Instant { secs: self.secs, nanos: (self.nanos - 1) as u32 }
        }
    }

    /// The last instant before this one.
    pub fn step_back(&self) -> (r: Instant)
        requires
            self.in_window(),
            self.secs > FIRST_SECOND || self.nanos > 0,
        ensures
            r == self.previous(),
            r.in_window(),
            r.before(*self),
    {
        if self.nanos == 0 {
            Instant { secs: self.secs - 1, nanos: NANOS_PER_SECOND - 1 }
        } else {
            Instant { secs: self.secs, nanos: self.nanos - 1 }
        }
    }
}

/// A span of time `[start, end)` whose boundaries are aligned to `grain`.
#[derive(Clone, Copy, Debug, PartialEq, Eq, Structural)]
pub struct TimeRange {
    pub start: Instant,
    pub end: Instant,
    pub grain: Grain,
}

impl TimeRange {
    /// A range holds at least an instant, and lies within the years 1 to 9999.
    pub open spec fn valid(self) -> bool {
        &&& self.start.in_window()
        &&& self.end.in_window()
        &&& self.start.before(self.end)
    }
}

/// How many leap years lie before `year`, counted from the year 1.
pub open spec fn leap_years_before(year: int) -> int {
    (year - 1) / 4 - (year - 1) / 100 + (year - 1) / 400
}

/// The first second of `year`, counted from 1970-01-01T00:00:00.
pub open spec fn year_start(year: int) -> int {
    (365 * (year - 1) + leap_years_before(year) - 719162) * SECONDS_PER_DAY
}

/// The calendar year `year`, from its first second to the first of the next.
pub open spec fn year_span(year: int) -> TimeRange {
    TimeRange {
        start: Instant { secs: year_start(year) as i64, nanos: 0 },
        end: Instant { secs: year_start(year + 1) as i64, nanos: 0 },
        grain: Grain::Year,
    }
}

/// A calendar year of the years 1 to 9998 is a valid range.
pub proof fn lemma_year_span_valid(year: int)
    requires
        1 <= year <= 9998,
    ensures
        year_span(year).valid(),
        year_span(year).start.secs == year_start(year),
        year_span(year).end.secs == year_start(year + 1),
{
    assert(0 <= leap_years_before(year) <= leap_years_before(year + 1) <= 2424);
}

/// A floating description of a recurring set of time ranges. Evaluated at an instant,
/// it yields its ranges from there on, one after another.
#[derive(Debug, PartialEq, Eq)]
pub enum Sequence {
    /// Every unit of a grain, back to back.
    Every(Grain),
    /// Every day that falls on a weekday, counted from Sunday as 0.
    Weekday(u32),
    /// Every month of a given number, counted from January as 1.
    Month(u32),
    /// Every Saturday with its Sunday.
    Weekend,
    /// The one calendar year of a given number.
    Year(i32),
    /// In each range of the second sequence, the n-th range of the first.
    NthOf(u32, Box<Sequence>, Box<Sequence>),
    /// In each range of the second sequence, the n-th from last of the first.
    LastOf(u32, Box<Sequence>, Box<Sequence>),
    /// The overlaps of the ranges of two sequences.
    Intersect(Box<Sequence>, Box<Sequence>),
}

impl Sequence {
    /// The grain of the ranges of a sequence: a selection has the grain of what it
    /// selects, and an overlap the finer grain of the two.
    pub open spec fn grain(self) -> Grain
        decreases self,
    {
        match self {
            Sequence::Every(grain) => grain,
            Sequence::Weekday(_) => Grain::Day,
            Sequence::Month(_) => Grain::Month,
            Sequence::Weekend => Grain::Day,
            Sequence::Year(_) => Grain::Year,
            Sequence::NthOf(_, win, _) => win.grain(),
            Sequence::LastOf(_, win, _) => win.grain(),
            Sequence::Intersect(a, b) => a.grain().finer(b.grain()),
        }
    }

    /// Selections count from one.
    pub open spec fn buildable(self) -> bool
        decreases self,
    {
        match self {
            Sequence::NthOf(n, win, frame) => n > 0 && win.buildable() && frame.buildable(),
            Sequence::LastOf(n, win, frame) => n > 0 && win.buildable() && frame.buildable(),
            Sequence::Intersect(a, b) => a.buildable() && b.buildable(),
            _ => true,
        }
    }
}

} // verus!
