//! The outcome of an evaluation, and how it is written out.

use crate::calendar::{Grain, Instant, TimeRange};
use std::fmt::Write;
use vstd::prelude::*;
use vstd::string::StringExecFns;

verus! {

/// The outcome of an evaluation.
#[derive(Debug, PartialEq, Eq)]
pub enum Time {
    /// The range that the phrase names.
    Range(TimeRange),
    /// How many ranges the phrase counts.
    Count(usize),
    /// Why the phrase names neither.
    Error(String),
}

/// An outcome, with the message as its characters.
pub enum Verdict {
    Range(TimeRange),
    Count(usize),
    Error(Seq<char>),
}

impl View for Time {
    type V = Verdict;

    open spec fn view(&self) -> Verdict {
        match self {
            Time::Range(range) => Verdict::Range(*range),
            Time::Count(count) => Verdict::Count(*count),
            Time::Error(message) => Verdict::Error(message@),
        }
    }
}

/// What `chrono` writes for an instant under a format string; `None` where it fails
/// to, as on a format string that is none.
pub uninterp spec fn formatted(at: Instant, pattern: Seq<char>) -> Option<Seq<char>>;

/// `chrono::NaiveDateTime::format`, written out into a string.
#[verifier::external_body]
fn format_instant(at: Instant, pattern: &str) -> (text: Option<String>)
    requires
        at.in_window(),
    ensures
        match text {
            Some(t) => formatted(at, pattern@) == Some(t@),
            None => formatted(at, pattern@) is None,
        },
{
    let t = chrono::DateTime::from_timestamp(at.secs, at.nanos)?.naive_utc();
    let mut text = String::new();
    write!(text, "{}", t.format(pattern)).ok().map(|_| text)
}

/// A day is written as weekday, month, day and year: "Mon, Sep  5 2016".
pub open spec fn day_pattern() -> Seq<char> {
    "%a, %b %e %Y"@
}

/// The day of an instant, written out.
pub open spec fn date_text(at: Instant) -> Seq<char> {
    match formatted(at, day_pattern()) {
        Some(text) => text,
        None => Seq::empty(),
    }
}

/// Writes out the day of an instant.
pub fn date(at: Instant) -> (text: String)
    requires
        at.in_window(),
    ensures
        text@ == date_text(at),
{
    match format_instant(at, "%a, %b %e %Y") {
        Some(text) => text,
        None => String::new(),
    }
}

/// The figure for a number below ten.
pub open spec fn figure(d: nat) -> Seq<char> {
    if d == 0 {
        "0"@
    } else if d == 1 {
        "1"@
    } else if d == 2 {
        "2"@
    } else if d == 3 {
        "3"@
    } else if d == 4 {
        "4"@
    } else if d == 5 {
        "5"@
    } else if d == 6 {
        "6"@
    } else if d == 7 {
        "7"@
    } else if d == 8 {
        "8"@
    } else {
        "9"@
    }
}

/// A number in decimal figures, without leading zeros.
pub open spec fn decimal(n: nat) -> Seq<char>
    decreases n,
{
    if n < 10 {
        figure(n)
    } else {
        decimal(n / 10) + figure(n % 10)
    }
}

fn figure_text(d: usize) -> (text: &'static str)
    requires
        d < 10,
    ensures
        text@ == figure(d as nat),
{
    if d == 0 {
        "0"
    } else if d == 1 {
        "1"
    } else if d == 2 {
        "2"
    } else if d == 3 {
        "3"
    } else if d == 4 {
        "4"
    } else if d == 5 {
        "5"
    } else if d == 6 {
        "6"
    } else if d == 7 {
        "7"
    } else if d == 8 {
        "8"
    } else {
        "9"
    }
}

/// Writes a number in decimal figures.
pub fn count_text(n: usize) -> (text: String)
    ensures
        text@ == decimal(n as nat),
    decreases n,
{
    if n < 10 {
        String::from_str(figure_text(n))
    } else {
        let mut text = count_text(n / 10);
        text.append(figure_text(n % 10));
        text
    }
}

impl Verdict {
    /// An outcome, written out: a day by its date; a longer range by its grain, its
    /// first day and its last; a count in figures; an error by its message.
    pub open spec fn text(self) -> Seq<char> {
        match self {
            Verdict::Range(range) => if range.grain == Grain::Day {
                date_text(range.start)
            } else {
                range.grain.label_spec() + ": "@ + date_text(range.start) + " - "@ + date_text(
                    range.end.previous(),
                )
            },
            Verdict::Count(count) => decimal(count as nat),
            Verdict::Error(message) => message,
        }
    }
}

impl Time {
    /// Writes the outcome out.
    pub fn describe(&self) -> (text: String)
        requires
            self matches Time::Range(range) ==> range.valid(),
        ensures
            text@ == self@.text(),
    {
        match self {
            Time::Range(range) => {
                let first = date(range.start);
                let last = date(range.end.step_back());
                match range.grain {
                    Grain::Day => first,
                    _ => {
                        let mut text = String::from_str(range.grain.label());
                        text.append(": ");
                        text.append(first.as_str());
                        text.append(" - ");
                        text.append(last.as_str());
                        text
                    },
                }
            },
            Time::Count(count) => count_text(*count),
            Time::Error(message) => message.clone(),
        }
    }
}

} // verus!
