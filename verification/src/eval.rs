//! The evaluator: folds a parse tree and a reference instant into a sequence, a
//! duration, a range or a count.
//!
//! Each function takes a derivation from the symbol that it resolves, and dispatches on
//! the production of the node that it is given; the grammar has no production that
//! the evaluator has no case for. The calendar is asked through [`crate::almanac`].
//! What it is asked, and whether it answers, is part of what a resolution records
//! ([`Resolved`]); the functions here require that it does, and those of
//! [`crate::vouch`] find out first.

use crate::almanac::{
    a_year, count_between, count_defined, count_is_sure, count_of, count_sure, next,
    next_defined, next_is_sure, next_of, next_sure, shift, shift_defined, shift_is_sure, shift_of,
    shift_sure, this, this_defined, this_is_sure, this_of, this_sure,
};
use crate::calendar::{lemma_year_span_valid, year_span, Grain, Instant, Sequence, TimeRange};
use crate::grammar::Rule;
use crate::lexicon::{
    month, month_number, ordinal, ordinal_value, parse_i32, parsed_i32, same_text, weekday,
    weekday_number, NonTerminal, Symbol, Terminal,
};
use crate::tree::ParseTree;
use vstd::pervasive::unreached;
use vstd::prelude::*;

verus! {

/// What a tree resolves to (`None` for a tree that no derivation has); whether the
/// calendar yields every range that the resolution asks of it; and whether that can be
/// told before it is asked.
pub struct Resolved<T> {
    pub value: Option<T>,
    pub defined: bool,
    pub sure: bool,
}

/// Nothing to resolve, and nothing asked.
pub open spec fn unresolved<T>() -> Resolved<T> {
    Resolved { value: None, defined: true, sure: true }
}

/// What a resolution comes to where it is sure that the calendar answers.
pub open spec fn if_sure<T>(resolved: Resolved<T>) -> Option<T> {
    if resolved.sure {
        resolved.value
    } else {
        None
    }
}

/// What a resolution comes to: all of it, or, where that is asked, only what it is
/// sure of.
pub open spec fn pick<T>(resolved: Resolved<T>, check: bool) -> Option<T> {
    if check {
        if_sure(resolved)
    } else {
        resolved.value
    }
}

/// Whether a tree is a leaf that spells a number: an ordinal, a year or a count.
pub open spec fn spells_number(tree: ParseTree) -> bool {
    ||| tree.derives(Symbol::Term(Terminal::Ordinal))
    ||| tree.derives(Symbol::Term(Terminal::Year))
    ||| tree.derives(Symbol::Term(Terminal::Number))
}

/// Whether a tree names a sequence: a leaf for a weekday, a month or a day of the
/// month, or a derivation from a named sequence, a duration, a cycle or a chain of
/// cycles.
pub open spec fn names_sequence(tree: ParseTree) -> bool {
    ||| tree.derives(Symbol::Term(Terminal::DayOfWeek))
    ||| tree.derives(Symbol::Term(Terminal::NamedMonth))
    ||| tree.derives(Symbol::Term(Terminal::DayOfMonth))
    ||| tree.derives(Symbol::NonTerm(NonTerminal::NamedSeq))
    ||| tree.derives(Symbol::NonTerm(NonTerminal::Duration))
    ||| tree.derives(Symbol::NonTerm(NonTerminal::Cycle))
    ||| tree.derives(Symbol::NonTerm(NonTerminal::Intersect))
}

/// The integer that a leaf stands for: an ordinal's number, or the number that a year
/// or a count spells.
pub open spec fn num_of(tree: ParseTree) -> Option<i64> {
    match tree {
        ParseTree::Leaf { symbol, lexeme } => {
            if symbol@ == Terminal::Ordinal.name_spec() {
                match ordinal_value(lexeme@) {
                    Some(n) => Some(n as i64),
                    None => None,
                }
            } else if symbol@ == Terminal::Year.name_spec() || symbol@ == Terminal::Number.name_spec() {
                match parsed_i32(lexeme@) {
                    Some(n) => Some(n as i64),
                    None => None,
                }
            } else {
                None
            }
        },
        ParseTree::Node { .. } => None,
    }
}

/// Resolves an ordinal, year or number leaf to an integer.
pub fn num(tree: &ParseTree) -> (n: i32)
    requires
        spells_number(*tree),
    ensures
        Some(n as i64) == num_of(*tree),
        tree.derives(Symbol::Term(Terminal::Ordinal)) ==> 0 < n < 32,
        tree.derives(Symbol::Term(Terminal::Year)) ==> 999 < n < 2101,
{
    proof {
        lemma_class_names_differ();
    }
    match tree {
        ParseTree::Leaf { symbol, lexeme } => {
            if same_text(symbol.as_str(), Terminal::Ordinal.name()) {
                match ordinal(lexeme.as_str()) {
                    Some(n) => n as i32,
                    None => unreached(),
                }
            } else {
                match parse_i32(lexeme.as_str()) {
                    Some(n) => n,
                    None => unreached(),
                }
            }
        },
        ParseTree::Node { .. } => unreached(),
    }
}

/// The N-th day of every month.
pub open spec fn day_of_month(day: u32) -> Sequence {
    Sequence::NthOf(day, Box::new(Sequence::Every(Grain::Day)), Box::new(Sequence::Every(Grain::Month)))
}

/// The sequence that a leaf names: a weekday, a month, or a day of the month.
pub open spec fn named_of(symbol: Seq<char>, lexeme: Seq<char>) -> Option<Sequence> {
    if symbol == Terminal::DayOfWeek.name_spec() {
        match weekday_number(lexeme) {
            Some(day) => Some(Sequence::Weekday(day)),
            None => None,
        }
    } else if symbol == Terminal::NamedMonth.name_spec() {
        match month_number(lexeme) {
            Some(month) => Some(Sequence::Month(month)),
            None => None,
        }
    } else if symbol == Terminal::DayOfMonth.name_spec() {
        match ordinal_value(lexeme) {
            Some(day) => Some(day_of_month(day)),
            None => None,
        }
    } else {
        None
    }
}

/// The overlaps of two sequences, where both are there.
pub open spec fn intersect_of(a: Option<Sequence>, b: Option<Sequence>) -> Option<Sequence> {
    match (a, b) {
        (Some(a), Some(b)) => Some(Sequence::Intersect(Box::new(a), Box::new(b))),
        _ => None,
    }
}

/// The sequence that a named sequence, a duration, a cycle or a chain of cycles
/// describes. The unit words stand for the units back to back, a chain for the
/// overlaps of its links, taken from the left.
pub open spec fn seq_of(tree: ParseTree) -> Option<Sequence>
    decreases tree,
{
    match tree {
        ParseTree::Leaf { symbol, lexeme } => named_of(symbol@, lexeme@),
        ParseTree::Node { rule, children } => match rule {
            Rule::NamedMonth
            | Rule::NamedWeekday
            | Rule::NamedDay
            | Rule::CycleDuration
            | Rule::CycleNamed
            | Rule::IntersectOne => if children.len() == 1 {
                seq_of(children[0])
            } else {
                None
            },
            Rule::Days => Some(Sequence::Every(Grain::Day)),
            Rule::Weeks => Some(Sequence::Every(Grain::Week)),
            Rule::Months => Some(Sequence::Every(Grain::Month)),
            Rule::Quarters => Some(Sequence::Every(Grain::Quarter)),
            Rule::Years => Some(Sequence::Every(Grain::Year)),
            Rule::CycleWeekend => Some(Sequence::Weekend),
            Rule::IntersectMore => if children.len() == 2 {
                intersect_of(seq_of(children[0]), seq_of(children[1]))
            } else {
                None
            },
            _ => None,
        },
    }
}

/// Resolves a named sequence, a duration, a cycle or a chain of cycles to the
/// sequence that it describes.
pub fn seq(tree: &ParseTree) -> (r: Sequence)
    requires
        names_sequence(*tree),
    ensures
        Some(r) == seq_of(*tree),
    decreases tree,
{
    proof {
        lemma_class_names_differ();
    }
    match tree {
        ParseTree::Leaf { symbol, lexeme } => {
            if same_text(symbol.as_str(), Terminal::DayOfWeek.name()) {
                match weekday(lexeme.as_str()) {
                    Some(day) => Sequence::Weekday(day),
                    None => unreached(),
                }
            } else if same_text(symbol.as_str(), Terminal::NamedMonth.name()) {
                match month(lexeme.as_str()) {
                    Some(month) => Sequence::Month(month),
                    None => unreached(),
                }
            } else {
                match ordinal(lexeme.as_str()) {
                    Some(day) => Sequence::NthOf(
                        day,
                        Box::new(Sequence::Every(Grain::Day)),
                        Box::new(Sequence::Every(Grain::Month)),
                    ),
                    None => unreached(),
                }
            }
        },
        ParseTree::Node { rule, children } => match rule {
            Rule::NamedMonth
            | Rule::NamedWeekday
            | Rule::NamedDay
            | Rule::CycleDuration
            | Rule::CycleNamed
            | Rule::IntersectOne => {
                assert(children[0].derives(rule.body_spec()[0]));
                seq(&children[0])
            },
            Rule::Days => Sequence::Every(Grain::Day),
            Rule::Weeks => Sequence::Every(Grain::Week),
            Rule::Months => Sequence::Every(Grain::Month),
            Rule::Quarters => Sequence::Every(Grain::Quarter),
            Rule::Years => Sequence::Every(Grain::Year),
            Rule::CycleWeekend => Sequence::Weekend,
            Rule::IntersectMore => {
                assert(children[0].derives(rule.body_spec()[0]));
                assert(children[1].derives(rule.body_spec()[1]));
                let a = seq(&children[0]);
                let b = seq(&children[1]);
                Sequence::Intersect(Box::new(a), Box::new(b))
            },
            _ => unreached(),
        },
    }
}

/// The sequence of every unit of a grain.
pub fn seq_from_grain(grain: Grain) -> (r: Sequence)
    ensures
        r == Sequence::Every(grain),
{
    Sequence::Every(grain)
}

/// The selection that an `<nth>` modifier makes in the ranges of `anchor`: the K-th
/// range of its cycle, or the last.
pub open spec fn semi_seq_of(anchor: Sequence, tree: ParseTree) -> Option<Sequence> {
    match tree {
        ParseTree::Node { rule: Rule::NthOrdinal, children } => if children.len() == 4 {
            match (num_of(children[1]), seq_of(children[2])) {
                (Some(n), Some(cycle)) => if 0 <= n <= u32::MAX {
                    Some(Sequence::NthOf(n as u32, Box::new(cycle), Box::new(anchor)))
                } else {
                    None
                },
                _ => None,
            }
        } else {
            None
        },
        ParseTree::Node { rule: Rule::NthLast, children } => if children.len() == 4 {
            match seq_of(children[2]) {
                Some(cycle) => Some(Sequence::LastOf(1, Box::new(cycle), Box::new(anchor))),
                None => None,
            }
        } else {
            None
        },
        _ => None,
    }
}

/// Resolves an `<nth>` modifier against the sequence whose ranges it selects in.
pub fn semi_seq(anchor: Sequence, tree: &ParseTree) -> (r: Sequence)
    requires
        tree.derives(Symbol::NonTerm(NonTerminal::Nth)),
    ensures
        Some(r) == semi_seq_of(anchor, *tree),
{
    match tree {
        ParseTree::Node { rule: Rule::NthOrdinal, children } => {
            assert(children[1].derives(Rule::NthOrdinal.body_spec()[1]));
            assert(children[2].derives(Rule::NthOrdinal.body_spec()[2]));
            let n = num(&children[1]);
            let cycle = seq(&children[2]);
            Sequence::NthOf(n as u32, Box::new(cycle), Box::new(anchor))
        },
        ParseTree::Node { rule: Rule::NthLast, children } => {
            assert(children[2].derives(Rule::NthLast.body_spec()[2]));
            let cycle = seq(&children[2]);
            Sequence::LastOf(1, Box::new(cycle), Box::new(anchor))
        },
        _ => unreached(),
    }
}

/// How many units of which grain a quantified duration spells, given the count and
/// the unit's sequence. The grain is that of the unit's range at `at`.
pub open spec fn units_of(
    at: Instant,
    count: Option<i64>,
    unit: Option<Sequence>,
) -> Resolved<(i32, Grain)> {
    match (count, unit) {
        (Some(n), Some(unit)) => if i32::MIN <= n <= i32::MAX {
            Resolved {
                value: Some((n as i32, this_of(unit, at).grain)),
                defined: this_defined(unit, at),
                sure: this_sure(unit, at),
            }
        } else {
            unresolved()
        },
        _ => unresolved(),
    }
}

/// The count and grain of "a <duration>" or "<number> <duration>".
pub open spec fn duration_of(at: Instant, tree: ParseTree) -> Resolved<(i32, Grain)> {
    match tree {
        ParseTree::Node { rule: Rule::OneOf, children } => if children.len() == 2 {
            units_of(at, Some(1), seq_of(children[1]))
        } else {
            unresolved()
        },
        ParseTree::Node { rule: Rule::ManyOf, children } => if children.len() == 2 {
            units_of(at, num_of(children[0]), seq_of(children[1]))
        } else {
            unresolved()
        },
        _ => unresolved(),
    }
}

/// The first range of a sequence at `at`; with `check`, only where it is sure to be
/// there.
fn this_range(seq: &Sequence, at: Instant, check: bool) -> (r: Option<TimeRange>)
    requires
        !check ==> this_defined(*seq, at),
    ensures
        r == if !check || this_sure(*seq, at) {
            Some(this_of(*seq, at))
        } else {
            None
        },
        r matches Some(range) ==> range.valid() && this_defined(*seq, at),
{
    if !check || this_is_sure(seq, at) {
        Some(this(seq, at))
    } else {
        None
    }
}

/// The `n`-th range of a sequence to start after `at`; with `check`, only where it is
/// sure to be there.
fn next_range(seq: &Sequence, at: Instant, n: u32, check: bool) -> (r: Option<TimeRange>)
    requires
        !check ==> next_defined(*seq, at, n as int),
    ensures
        r == if !check || next_sure(*seq, at, n as int) {
            Some(next_of(*seq, at, n as int))
        } else {
            None
        },
        r matches Some(range) ==> range.valid() && next_defined(*seq, at, n as int),
{
    if !check || next_is_sure(seq, at, n) {
        Some(next(seq, at, n))
    } else {
        None
    }
}

/// Resolves a quantified duration; with `check`, only where the calendar is sure to
/// answer.
pub(crate) fn resolve_duration(reftime: Instant, tree: &ParseTree, check: bool) -> (r: Option<(i32, Grain)>)
    requires
        tree.derives(Symbol::NonTerm(NonTerminal::NDuration)),
        !check ==> duration_of(reftime, *tree).defined,
    ensures
        r == pick(duration_of(reftime, *tree), check),
        r is Some ==> duration_of(reftime, *tree).defined,
        !check ==> r is Some,
{
    match tree {
        ParseTree::Node { rule: Rule::OneOf, children } => {
            assert(children[1].derives(Rule::OneOf.body_spec()[1]));
            let unit = seq(&children[1]);
            match this_range(&unit, reftime, check) {
                Some(range) => Some((1, range.grain)),
                None => None,
            }
        },
        ParseTree::Node { rule: Rule::ManyOf, children } => {
            assert(children[0].derives(Rule::ManyOf.body_spec()[0]));
            assert(children[1].derives(Rule::ManyOf.body_spec()[1]));
            let n = num(&children[0]);
            let unit = seq(&children[1]);
            match this_range(&unit, reftime, check) {
                Some(range) => Some((n, range.grain)),
                None => None,
            }
        },
        _ => unreached(),
    }
}

/// Resolves a quantified duration to its count and grain.
pub fn calc_duration(reftime: Instant, tree: &ParseTree) -> (r: (i32, Grain))
    requires
        tree.derives(Symbol::NonTerm(NonTerminal::NDuration)),
        duration_of(reftime, *tree).defined,
    ensures
        Some(r) == duration_of(reftime, *tree).value,
{
    match resolve_duration(reftime, tree, false) {
        Some(r) => r,
        None => unreached(),
    }
}

/// An instant that needed no resolving.
pub open spec fn given(at: Instant) -> Resolved<Instant> {
    Resolved { value: Some(at), defined: true, sure: true }
}

/// Where a resolved range starts.
pub open spec fn start_of(range: Resolved<TimeRange>) -> Resolved<Instant> {
    Resolved {
        value: match range.value {
            Some(r) => Some(r.start),
            None => None,
        },
        defined: range.defined,
        sure: range.sure,
    }
}

/// The first range of a sequence at an instant that was itself resolved.
pub open spec fn this_at(seq: Option<Sequence>, at: Resolved<Instant>) -> Resolved<TimeRange> {
    match (seq, at.value) {
        (Some(seq), Some(t)) => Resolved {
            value: Some(this_of(seq, t)),
            defined: at.defined && this_defined(seq, t),
            sure: at.sure && this_sure(seq, t),
        },
        _ => Resolved { value: None, defined: at.defined, sure: at.sure },
    }
}

/// The `n`-th range of a sequence to start after `at`.
pub open spec fn next_at(seq: Option<Sequence>, at: Instant, n: int) -> Resolved<TimeRange> {
    match seq {
        Some(seq) => Resolved {
            value: Some(next_of(seq, at, n)),
            defined: next_defined(seq, at, n),
            sure: next_sure(seq, at, n),
        },
        None => unresolved(),
    }
}

/// The calendar year that a number names. The calendar has it for the years 1 to 9998.
pub open spec fn year_of(year: Option<i64>) -> Resolved<TimeRange> {
    match year {
        Some(y) => Resolved {
            value: Some(year_span(y as int)),
            defined: 1 <= y <= 9998,
            sure: 1 <= y <= 9998,
        },
        None => unresolved(),
    }
}

/// By how many units a duration moves a range, forwards or backwards.
pub open spec fn signed(count: i32, forwards: bool) -> int {
    if forwards {
        count as int
    } else {
        -(count as int)
    }
}

/// The day that holds `base`, moved by the duration, forwards or backwards. The
/// duration is resolved first, and the rest only where it is one.
pub open spec fn shifted_day(
    duration: Resolved<(i32, Grain)>,
    base: Resolved<Instant>,
    forwards: bool,
) -> Resolved<TimeRange> {
    match duration.value {
        Some((count, grain)) => {
            let day = this_at(Some(Sequence::Every(Grain::Day)), base);
            match day.value {
                Some(range) => Resolved {
                    value: Some(shift_of(range, grain, signed(count, forwards))),
                    defined: {
                        &&& duration.defined
                        &&& day.defined
                        &&& signed(count, forwards) <= i32::MAX
                        &&& shift_defined(range, grain, signed(count, forwards))
                    },
                    sure: {
                        &&& duration.sure
                        &&& day.sure
                        &&& signed(count, forwards) <= i32::MAX
                        &&& shift_sure(range, grain, signed(count, forwards))
                    },
                },
                None => Resolved {
                    value: None,
                    defined: duration.defined && day.defined,
                    sure: duration.sure && day.sure,
                },
            }
        },
        None => Resolved { value: None, defined: duration.defined, sure: duration.sure },
    }
}

/// The selection of an `<nth>` modifier within a resolved range: the modifier selects
/// in the units of the range's own grain, and the selection is resolved at the
/// range's start.
pub open spec fn nth_within(nth: ParseTree, range: Resolved<TimeRange>) -> Resolved<TimeRange> {
    match range.value {
        Some(r) => this_at(semi_seq_of(Sequence::Every(r.grain), nth), start_of(range)),
        None => Resolved { value: None, defined: range.defined, sure: range.sure },
    }
}

/// The range that a `<range>` node resolves to at `at`, by production:
/// today, tomorrow, a year, a named sequence or day of the month, this or the next
/// cycle or the one after, an intersection, a day of another range, a shift, or a
/// selection within another range.
#[verifier::opaque]
pub open spec fn range_of(at: Instant, tree: ParseTree) -> Resolved<TimeRange>
    decreases tree,
{
    match tree {
        ParseTree::Leaf { .. } => unresolved(),
        ParseTree::Node { rule, children } => match rule {
            Rule::Today => this_at(Some(Sequence::Every(Grain::Day)), given(at)),
            Rule::Tomorrow => next_at(Some(Sequence::Every(Grain::Day)), at, 1),
            Rule::BareYear => if children.len() == 1 {
                year_of(num_of(children[0]))
            } else {
                unresolved()
            },
            Rule::BareNamed => if children.len() == 1 {
                this_at(seq_of(children[0]), given(at))
            } else {
                unresolved()
            },
            Rule::TheDay | Rule::ThisCycle => if children.len() == 2 {
                this_at(seq_of(children[1]), given(at))
            } else {
                unresolved()
            },
            Rule::NextCycle => if children.len() == 3 {
                next_at(seq_of(children[2]), at, 1)
            } else {
                unresolved()
            },
            Rule::CycleAfterNext => if children.len() == 4 {
                next_at(seq_of(children[1]), at, 2)
            } else {
                unresolved()
            },
            Rule::IntersectYear => if children.len() == 2 {
                this_at(seq_of(children[0]), start_of(year_of(num_of(children[1]))))
            } else {
                unresolved()
            },
            Rule::IntersectCycle => if children.len() == 2 {
                this_at(intersect_of(seq_of(children[0]), seq_of(children[1])), given(at))
            } else {
                unresolved()
            },
            Rule::DayOfRange => if children.len() == 4 {
                this_at(seq_of(children[1]), start_of(range_of(at, children[3])))
            } else {
                unresolved()
            },
            Rule::In => if children.len() == 2 {
                shifted_day(duration_of(at, children[1]), given(at), true)
            } else {
                unresolved()
            },
            Rule::Ago => if children.len() == 2 {
                shifted_day(duration_of(at, children[0]), given(at), false)
            } else {
                unresolved()
            },
            Rule::After => if children.len() == 3 {
                shifted_day(duration_of(at, children[0]), start_of(range_of(at, children[2])), true)
            } else {
                unresolved()
            },
            Rule::Before => if children.len() == 3 {
                shifted_day(duration_of(at, children[0]), start_of(range_of(at, children[2])), false)
            } else {
                unresolved()
            },
            Rule::NthOfRange => if children.len() == 2 {
                nth_within(children[0], range_of(at, children[1]))
            } else {
                unresolved()
            },
            Rule::NthOfDuration => if children.len() == 3 {
                match seq_of(children[2]) {
                    Some(unit) => this_at(semi_seq_of(unit, children[0]), given(at)),
                    None => unresolved(),
                }
            } else {
                unresolved()
            },
            _ => unresolved(),
        },
    }
}

/// What `range_of` says of the productions that shift a day or hold another range,
/// one equation for each.
pub proof fn lemma_range_by_steps(at: Instant, tree: ParseTree)
    ensures
        tree matches ParseTree::Node { rule: Rule::In, children } ==> children.len() == 2 ==> range_of(at, tree)
            == shifted_day(duration_of(at, children[1]), given(at), true),
        tree matches ParseTree::Node { rule: Rule::Ago, children } ==> children.len() == 2 ==> range_of(at, tree)
            == shifted_day(duration_of(at, children[0]), given(at), false),
        tree matches ParseTree::Node { rule: Rule::DayOfRange, children } ==> children.len() == 4 ==> range_of(
            at,
            tree,
        ) == this_at(seq_of(children[1]), start_of(range_of(at, children[3]))),
        tree matches ParseTree::Node { rule: Rule::After, children } ==> children.len() == 3 ==> range_of(at, tree)
            == shifted_day(duration_of(at, children[0]), start_of(range_of(at, children[2])), true),
        tree matches ParseTree::Node { rule: Rule::Before, children } ==> children.len() == 3 ==> range_of(at, tree)
            == shifted_day(duration_of(at, children[0]), start_of(range_of(at, children[2])), false),
        tree matches ParseTree::Node { rule: Rule::NthOfRange, children } ==> children.len() == 2 ==> range_of(
            at,
            tree,
        ) == nth_within(children[0], range_of(at, children[1])),
{
    reveal(range_of);
}

/// The day that holds `base`, moved by a duration, forwards or backwards; with
/// `check`, only where the day and the day that it moves to are sure to be there.
fn shift_day(duration: (i32, Grain), base: Instant, forwards: bool, check: bool) -> (r: Option<TimeRange>)
    requires
        !check ==> shifted_day(
            Resolved { value: Some(duration), defined: true, sure: true },
            given(base),
            forwards,
        ).defined,
    ensures
        r == pick(
            shifted_day(Resolved { value: Some(duration), defined: true, sure: true }, given(base), forwards),
            check,
        ),
        r matches Some(range) ==> range.valid() && shifted_day(
            Resolved { value: Some(duration), defined: true, sure: true },
            given(base),
            forwards,
        ).defined,
        !check ==> r is Some,
{
    match this_range(&Sequence::Every(Grain::Day), base, check) {
        Some(day) => {
            if !forwards && duration.0 == i32::MIN {
                return None;
            }
            let n = if forwards {
                duration.0
            } else {
                -duration.0
            };
            if !check || shift_is_sure(day, duration.1, n) {
                Some(shift(day, duration.1, n))
            } else {
                None
            }
        },
        None => None,
    }
}

/// Whether a production of `<range>` resolves at the instant itself, with no range
/// within it to resolve first.
pub open spec fn plain(rule: Rule) -> bool {
    match rule {
        Rule::Today
        | Rule::Tomorrow
        | Rule::BareYear
        | Rule::BareNamed
        | Rule::TheDay
        | Rule::ThisCycle
        | Rule::NextCycle
        | Rule::CycleAfterNext
        | Rule::IntersectYear
        | Rule::IntersectCycle
        | Rule::NthOfDuration => true,
        _ => false,
    }
}

/// Resolves a `<range>` node of a production that holds no other range; with
/// `check`, only where the calendar is sure to answer.
fn resolve_plain(reftime: Instant, tree: &ParseTree, check: bool) -> (r: Option<TimeRange>)
    requires
        reftime.in_window(),
        tree.derives(Symbol::NonTerm(NonTerminal::Range)),
        *tree matches ParseTree::Node { rule, .. } && plain(rule),
        !check ==> range_of(reftime, *tree).defined,
    ensures
        r == pick(range_of(reftime, *tree), check),
        r matches Some(range) ==> range.valid() && range_of(reftime, *tree).defined,
        !check ==> r is Some,
{
    proof {
        reveal(range_of);
    }
    match tree {
        ParseTree::Leaf { .. } => unreached(),
        ParseTree::Node { rule, children } => match rule {
            Rule::Today => this_range(&Sequence::Every(Grain::Day), reftime, check),
            Rule::Tomorrow => next_range(&Sequence::Every(Grain::Day), reftime, 1, check),
            Rule::BareYear => {
                assert(children[0].derives(rule.body_spec()[0]));
                let year = num(&children[0]);
                proof {
                    lemma_year_span_valid(year as int);
                }
                Some(a_year(year, reftime))
            },
            Rule::BareNamed => {
                assert(children[0].derives(rule.body_spec()[0]));
                this_range(&seq(&children[0]), reftime, check)
            },
            Rule::TheDay | Rule::ThisCycle => {
                assert(children[1].derives(rule.body_spec()[1]));
                this_range(&seq(&children[1]), reftime, check)
            },
            Rule::NextCycle => {
                assert(children[2].derives(rule.body_spec()[2]));
                next_range(&seq(&children[2]), reftime, 1, check)
            },
            Rule::CycleAfterNext => {
                assert(children[1].derives(rule.body_spec()[1]));
                next_range(&seq(&children[1]), reftime, 2, check)
            },
            Rule::IntersectYear => {
                assert(children[0].derives(rule.body_spec()[0]));
                assert(children[1].derives(rule.body_spec()[1]));
                let number = num(&children[1]);
                proof {
                    lemma_year_span_valid(number as int);
                }
                let year = a_year(number, reftime);
                this_range(&seq(&children[0]), year.start, check)
            },
            Rule::IntersectCycle => {
                assert(children[0].derives(rule.body_spec()[0]));
                assert(children[1].derives(rule.body_spec()[1]));
                let a = seq(&children[0]);
                let b = seq(&children[1]);
                this_range(&Sequence::Intersect(Box::new(a), Box::new(b)), reftime, check)
            },
            Rule::NthOfDuration => {
                assert(children[0].derives(rule.body_spec()[0]));
                assert(children[2].derives(rule.body_spec()[2]));
                let unit = seq(&children[2]);
                this_range(&semi_seq(unit, &children[0]), reftime, check)
            },
            _ => unreached(),
        },
    }
}

/// The day that holds `base`, moved by the duration that a node spells; with `check`,
/// only where the calendar is sure to answer.
fn resolve_shift(reftime: Instant, spelled: &ParseTree, base: Instant, forwards: bool, check: bool) -> (r: Option<
    TimeRange,
>)
    requires
        spelled.derives(Symbol::NonTerm(NonTerminal::NDuration)),
        !check ==> shifted_day(duration_of(reftime, *spelled), given(base), forwards).defined,
    ensures
        r == pick(shifted_day(duration_of(reftime, *spelled), given(base), forwards), check),
        r matches Some(range) ==> range.valid() && shifted_day(
            duration_of(reftime, *spelled),
            given(base),
            forwards,
        ).defined,
        !check ==> r is Some,
{
    proof {
        lemma_duration_resolves(reftime, *spelled);
    }
    match resolve_duration(reftime, spelled, check) {
        Some(d) => shift_day(d, base, forwards, check),
        None => None,
    }
}

/// Resolves a `<range>` node; with `check`, only where the calendar is sure to answer.
/// The nested productions resolve their inner range first and hand its start, or its
/// grain, on to what selects or shifts from there.
pub(crate) fn resolve_range(reftime: Instant, tree: &ParseTree, check: bool) -> (r: Option<TimeRange>)
    requires
        reftime.in_window(),
        tree.derives(Symbol::NonTerm(NonTerminal::Range)),
        !check ==> range_of(reftime, *tree).defined,
    ensures
        r == pick(range_of(reftime, *tree), check),
        r matches Some(range) ==> range.valid() && range_of(reftime, *tree).defined,
        !check ==> r is Some,
    decreases tree,
{
    proof {
        lemma_range_by_steps(reftime, *tree);
    }
    match tree {
        ParseTree::Node { rule: Rule::In, children } => {
            assert(children[1].derives(Rule::In.body_spec()[1]));
            resolve_shift(reftime, &children[1], reftime, true, check)
        },
        ParseTree::Node { rule: Rule::Ago, children } => {
            assert(children[0].derives(Rule::Ago.body_spec()[0]));
            resolve_shift(reftime, &children[0], reftime, false, check)
        },
        ParseTree::Node { rule: Rule::DayOfRange, children } => {
            assert(children[1].derives(Rule::DayOfRange.body_spec()[1]));
            assert(children[3].derives(Rule::DayOfRange.body_spec()[3]));
            proof {
                lemma_range_resolves(reftime, children[3]);
            }
            match resolve_range(reftime, &children[3], check) {
                Some(inner) => this_range(&seq(&children[1]), inner.start, check),
                None => None,
            }
        },
        ParseTree::Node { rule: Rule::After, children } => {
            assert(children[0].derives(Rule::After.body_spec()[0]));
            assert(children[2].derives(Rule::After.body_spec()[2]));
            proof {
                lemma_duration_resolves(reftime, children[0]);
                lemma_range_resolves(reftime, children[2]);
            }
            match resolve_range(reftime, &children[2], check) {
                Some(inner) => resolve_shift(reftime, &children[0], inner.start, true, check),
                None => None,
            }
        },
        ParseTree::Node { rule: Rule::Before, children } => {
            assert(children[0].derives(Rule::Before.body_spec()[0]));
            assert(children[2].derives(Rule::Before.body_spec()[2]));
            proof {
                lemma_duration_resolves(reftime, children[0]);
                lemma_range_resolves(reftime, children[2]);
            }
            match resolve_range(reftime, &children[2], check) {
                Some(inner) => resolve_shift(reftime, &children[0], inner.start, false, check),
                None => None,
            }
        },
        ParseTree::Node { rule: Rule::NthOfRange, children } => {
            assert(children[0].derives(Rule::NthOfRange.body_spec()[0]));
            assert(children[1].derives(Rule::NthOfRange.body_spec()[1]));
            proof {
                lemma_range_resolves(reftime, children[1]);
            }
            match resolve_range(reftime, &children[1], check) {
                Some(inner) => this_range(
                    &semi_seq(seq_from_grain(inner.grain), &children[0]),
                    inner.start,
                    check,
                ),
                None => None,
            }
        },
        ParseTree::Node { rule, .. } => {
            assert(plain(*rule));
            resolve_plain(reftime, tree, check)
        },
        ParseTree::Leaf { .. } => unreached(),
    }
}

/// Resolves a `<range>` node at the reference instant. The nested productions resolve
/// their inner range first and hand its start, or its grain, on to what selects or
/// shifts from there.
pub fn eval_range(reftime: Instant, tree: &ParseTree) -> (r: TimeRange)
    requires
        reftime.in_window(),
        tree.derives(Symbol::NonTerm(NonTerminal::Range)),
        range_of(reftime, *tree).defined,
    ensures
        Some(r) == range_of(reftime, *tree).value,
        r.valid(),
{
    match resolve_range(reftime, tree, false) {
        Some(r) => r,
        None => unreached(),
    }
}

/// How many ranges of a cycle start at `from` or later and before `until`, where the
/// cycle and both bounds are there. The bounds are resolved first, in order.
pub open spec fn counted(
    cycle: Option<Sequence>,
    from: Resolved<Instant>,
    until: Resolved<Instant>,
) -> Resolved<usize> {
    match (from.value, until.value) {
        (Some(a), Some(b)) => match cycle {
            Some(cycle) => Resolved {
                value: Some(count_of(cycle, a, b) as usize),
                defined: from.defined && until.defined && count_defined(cycle, a, b),
                sure: from.sure && until.sure && count_sure(cycle, a, b),
            },
            None => Resolved {
                value: None,
                defined: from.defined && until.defined,
                sure: from.sure && until.sure,
            },
        },
        (Some(_), None) => Resolved {
            value: None,
            defined: from.defined && until.defined,
            sure: from.sure && until.sure,
        },
        (None, _) => Resolved { value: None, defined: from.defined, sure: from.sure },
    }
}

/// The count that a `<timediff>` node resolves to at `at`: the ranges of its cycle
/// from `at` until another range starts, or from where one range starts until
/// another does. A range that starts on the first bound counts; one that starts on
/// the second does not.
pub open spec fn timediff_of(at: Instant, tree: ParseTree) -> Resolved<usize> {
    match tree {
        ParseTree::Node { rule: Rule::Until, children } => if children.len() == 3 {
            counted(seq_of(children[0]), given(at), start_of(range_of(at, children[2])))
        } else {
            unresolved()
        },
        ParseTree::Node { rule: Rule::Between, children } => if children.len() == 5 {
            counted(
                seq_of(children[0]),
                start_of(range_of(at, children[2])),
                start_of(range_of(at, children[4])),
            )
        } else {
            unresolved()
        },
        ParseTree::Node { rule: Rule::FromTo, children } => if children.len() == 5 {
            counted(
                seq_of(children[0]),
                start_of(range_of(at, children[2])),
                start_of(range_of(at, children[4])),
            )
        } else {
            unresolved()
        },
        _ => unresolved(),
    }
}

/// Counts the ranges of a cycle between two instants; with `check`, only where they
/// are sure to be countable.
fn count_cycle(cycle: &Sequence, from: Instant, until: Instant, check: bool) -> (r: Option<usize>)
    requires
        !check ==> count_defined(*cycle, from, until),
    ensures
        r == if !check || count_sure(*cycle, from, until) {
            Some(count_of(*cycle, from, until) as usize)
        } else {
            None
        },
        r is Some ==> count_defined(*cycle, from, until),
{
    if !check || count_is_sure(cycle, from, until) {
        Some(count_between(cycle, from, until))
    } else {
        None
    }
}

/// Counts the ranges of the cycle that a node names, from one resolved range to
/// another; with `check`, only where the calendar is sure to answer.
fn count_from(
    reftime: Instant,
    cycle: &ParseTree,
    from: Option<&ParseTree>,
    until: &ParseTree,
    check: bool,
) -> (r: Option<usize>)
    requires
        reftime.in_window(),
        names_sequence(*cycle),
        until.derives(Symbol::NonTerm(NonTerminal::Range)),
        from matches Some(tree) ==> tree.derives(Symbol::NonTerm(NonTerminal::Range)),
        !check ==> counted(seq_of(*cycle), origin(reftime, from), start_of(range_of(reftime, *until))).defined,
    ensures
        r == pick(counted(seq_of(*cycle), origin(reftime, from), start_of(range_of(reftime, *until))), check),
        r is Some ==> counted(
            seq_of(*cycle),
            origin(reftime, from),
            start_of(range_of(reftime, *until)),
        ).defined,
        !check ==> r is Some,
{
    proof {
        lemma_range_resolves(reftime, *until);
        lemma_sequence_resolves(*cycle);
    }
    let first = match from {
        Some(tree) => {
            proof {
                lemma_range_resolves(reftime, *tree);
            }
            match resolve_range(reftime, tree, check) {
                Some(range) => range.start,
                None => {
                    return None;
                },
            }
        },
        None => reftime,
    };
    match resolve_range(reftime, until, check) {
        Some(target) => count_cycle(&seq(cycle), first, target.start, check),
        None => None,
    }
}

/// Where a count sets out: where a range starts, or else at the instant itself.
pub open spec fn origin(at: Instant, from: Option<&ParseTree>) -> Resolved<Instant> {
    match from {
        Some(tree) => start_of(range_of(at, *tree)),
        None => given(at),
    }
}

/// Resolves a `<timediff>` node; with `check`, only where the calendar is sure to
/// answer.
pub(crate) fn resolve_timediff(reftime: Instant, tree: &ParseTree, check: bool) -> (r: Option<usize>)
    requires
        reftime.in_window(),
        tree.derives(Symbol::NonTerm(NonTerminal::Timediff)),
        !check ==> timediff_of(reftime, *tree).defined,
    ensures
        r == pick(timediff_of(reftime, *tree), check),
        r is Some ==> timediff_of(reftime, *tree).defined,
        !check ==> r is Some,
{
    match tree {
        ParseTree::Node { rule: Rule::Until, children } => {
            assert(children[0].derives(Rule::Until.body_spec()[0]));
            assert(children[2].derives(Rule::Until.body_spec()[2]));
            count_from(reftime, &children[0], None, &children[2], check)
        },
        ParseTree::Node { rule, children } => {
            assert(children[0].derives(rule.body_spec()[0]));
            assert(children[2].derives(rule.body_spec()[2]));
            assert(children[4].derives(rule.body_spec()[4]));
            count_from(reftime, &children[0], Some(&children[2]), &children[4], check)
        },
        _ => unreached(),
    }
}

/// Resolves a `<timediff>` node at the reference instant.
pub fn eval_timediff(reftime: Instant, tree: &ParseTree) -> (r: usize)
    requires
        reftime.in_window(),
        tree.derives(Symbol::NonTerm(NonTerminal::Timediff)),
        timediff_of(reftime, *tree).defined,
    ensures
        Some(r) == timediff_of(reftime, *tree).value,
{
    match resolve_timediff(reftime, tree, false) {
        Some(r) => r,
        None => unreached(),
    }
}

/// The names of the lexical classes differ from each other.
pub proof fn lemma_class_names_differ()
    ensures
        Terminal::Number.name_spec() != Terminal::Ordinal.name_spec(),
        Terminal::Year.name_spec() != Terminal::Ordinal.name_spec(),
        Terminal::DayOfWeek.name_spec() != Terminal::NamedMonth.name_spec(),
        Terminal::DayOfWeek.name_spec() != Terminal::DayOfMonth.name_spec(),
        Terminal::NamedMonth.name_spec() != Terminal::DayOfMonth.name_spec(),
{
    reveal_strlit("<number>");
    reveal_strlit("<ordinal>");
    reveal_strlit("<year>");
    reveal_strlit("<day-of-week>");
    reveal_strlit("<day-of-month>");
    reveal_strlit("<named-month>");
    assert(Terminal::Number.name_spec()[1] != Terminal::Ordinal.name_spec()[1]);
    assert(Terminal::Year.name_spec()[1] != Terminal::Ordinal.name_spec()[1]);
    assert(Terminal::DayOfWeek.name_spec()[1] != Terminal::NamedMonth.name_spec()[1]);
    assert(Terminal::DayOfWeek.name_spec().len() != Terminal::DayOfMonth.name_spec().len());
    assert(Terminal::NamedMonth.name_spec()[1] != Terminal::DayOfMonth.name_spec()[1]);
}

/// What names a sequence resolves to one.
pub proof fn lemma_sequence_resolves(tree: ParseTree)
    requires
        names_sequence(tree),
    ensures
        seq_of(tree) is Some,
    decreases tree,
{
    reveal_with_fuel(ParseTree::derives, 2);
    reveal_with_fuel(seq_of, 2);
    lemma_class_names_differ();
    match tree {
        ParseTree::Leaf { .. } => {},
        ParseTree::Node { rule, children } => {
            match rule {
                Rule::NamedMonth | Rule::NamedWeekday | Rule::NamedDay => {
                    assert(children[0].derives(rule.body_spec()[0]));
                },
                Rule::CycleDuration | Rule::CycleNamed | Rule::IntersectOne => {
                    assert(children[0].derives(rule.body_spec()[0]));
                    lemma_sequence_resolves(children[0]);
                },
                Rule::IntersectMore => {
                    assert(children[0].derives(rule.body_spec()[0]));
                    assert(children[1].derives(rule.body_spec()[1]));
                    lemma_sequence_resolves(children[0]);
                    lemma_sequence_resolves(children[1]);
                },
                _ => {},
            }
        },
    }
}

/// A derivation from an `<nth>` modifier resolves to a selection, whatever the
/// sequence that it selects in.
pub proof fn lemma_selection_resolves(anchor: Sequence, tree: ParseTree)
    requires
        tree.derives(Symbol::NonTerm(NonTerminal::Nth)),
    ensures
        semi_seq_of(anchor, tree) is Some,
{
    reveal_with_fuel(ParseTree::derives, 2);
    lemma_class_names_differ();
    match tree {
        ParseTree::Leaf { .. } => {},
        ParseTree::Node { rule, children } => {
            assert(children[1].derives(rule.body_spec()[1]));
            assert(children[2].derives(rule.body_spec()[2]));
            lemma_sequence_resolves(children[2]);
        },
    }
}

/// A derivation from a quantified duration resolves to a count and a grain.
pub proof fn lemma_duration_resolves(at: Instant, tree: ParseTree)
    requires
        tree.derives(Symbol::NonTerm(NonTerminal::NDuration)),
    ensures
        duration_of(at, tree).value is Some,
{
    reveal_with_fuel(ParseTree::derives, 2);
    lemma_class_names_differ();
    match tree {
        ParseTree::Leaf { .. } => {},
        ParseTree::Node { rule, children } => {
            assert(children[0].derives(rule.body_spec()[0]));
            assert(children[1].derives(rule.body_spec()[1]));
            lemma_sequence_resolves(children[1]);
        },
    }
}

/// A derivation from `<range>` resolves to a range: the evaluator has a case for
/// every production of the grammar.
pub proof fn lemma_range_resolves(at: Instant, tree: ParseTree)
    requires
        tree.derives(Symbol::NonTerm(NonTerminal::Range)),
    ensures
        range_of(at, tree).value is Some,
    decreases tree,
{
    reveal(range_of);
    lemma_class_names_differ();
    match tree {
        ParseTree::Leaf { .. } => {},
        ParseTree::Node { rule, children } => {
            match rule {
                Rule::BareYear => {
                    assert(children[0].derives(rule.body_spec()[0]));
                },
                Rule::BareNamed => {
                    assert(children[0].derives(rule.body_spec()[0]));
                    lemma_sequence_resolves(children[0]);
                },
                Rule::TheDay => {
                    assert(children[1].derives(rule.body_spec()[1]));
                },
                Rule::ThisCycle => {
                    assert(children[1].derives(rule.body_spec()[1]));
                    lemma_sequence_resolves(children[1]);
                },
                Rule::NextCycle => {
                    assert(children[2].derives(rule.body_spec()[2]));
                    lemma_sequence_resolves(children[2]);
                },
                Rule::CycleAfterNext => {
                    assert(children[1].derives(rule.body_spec()[1]));
                    lemma_sequence_resolves(children[1]);
                },
                Rule::IntersectYear => {
                    assert(children[0].derives(rule.body_spec()[0]));
                    assert(children[1].derives(rule.body_spec()[1]));
                    lemma_sequence_resolves(children[0]);
                },
                Rule::IntersectCycle => {
                    assert(children[0].derives(rule.body_spec()[0]));
                    assert(children[1].derives(rule.body_spec()[1]));
                    lemma_sequence_resolves(children[0]);
                    lemma_sequence_resolves(children[1]);
                },
                Rule::DayOfRange => {
                    assert(children[1].derives(rule.body_spec()[1]));
                    assert(children[3].derives(rule.body_spec()[3]));
                    lemma_range_resolves(at, children[3]);
                },
                Rule::In => {
                    assert(children[1].derives(rule.body_spec()[1]));
                    lemma_duration_resolves(at, children[1]);
                },
                Rule::Ago => {
                    assert(children[0].derives(rule.body_spec()[0]));
                    lemma_duration_resolves(at, children[0]);
                },
                Rule::After | Rule::Before => {
                    assert(children[0].derives(rule.body_spec()[0]));
                    assert(children[2].derives(rule.body_spec()[2]));
                    lemma_duration_resolves(at, children[0]);
                    lemma_range_resolves(at, children[2]);
                },
                Rule::NthOfRange => {
                    assert(children[0].derives(rule.body_spec()[0]));
                    assert(children[1].derives(rule.body_spec()[1]));
                    lemma_range_resolves(at, children[1]);
                    let inner = range_of(at, children[1]).value.unwrap();
                    lemma_selection_resolves(Sequence::Every(inner.grain), children[0]);
                },
                Rule::NthOfDuration => {
                    assert(children[0].derives(rule.body_spec()[0]));
                    assert(children[2].derives(rule.body_spec()[2]));
                    lemma_sequence_resolves(children[2]);
                    lemma_selection_resolves(seq_of(children[2]).unwrap(), children[0]);
                },
                _ => {},
            }
        },
    }
}

/// A derivation from `<timediff>` resolves to a count.
pub proof fn lemma_timediff_resolves(at: Instant, tree: ParseTree)
    requires
        tree.derives(Symbol::NonTerm(NonTerminal::Timediff)),
    ensures
        timediff_of(at, tree).value is Some,
{
    match tree {
        ParseTree::Leaf { .. } => {},
        ParseTree::Node { rule, children } => {
            assert(children[0].derives(rule.body_spec()[0]));
            assert(children[2].derives(rule.body_spec()[2]));
            lemma_sequence_resolves(children[0]);
            lemma_range_resolves(at, children[2]);
            if rule != Rule::Until {
                assert(children[4].derives(rule.body_spec()[4]));
                lemma_range_resolves(at, children[4]);
            }
        },
    }
}

} // verus!
