//! What holds of every evaluation.

use crate::almanac::{
    beat, ceiling, count_beats, count_defined, count_of, day_after, day_start, fixed_length,
    lemma_count_of_rhythm, lemma_grain_of_yielded, lemma_stop_unique, moved, next_defined, next_index,
    next_of, passed, rhythm, shift_defined, shift_of, slid, stop, stops, stops_at, this_defined,
    this_of, yielded,
};
use crate::calendar::{
    lemma_year_span_valid, Grain, Instant, Sequence, TimeRange, SECONDS_PER_DAY,
};
use crate::eval::{
    duration_of, given, intersect_of, lemma_range_by_steps, lemma_range_resolves,
    lemma_timediff_resolves, num_of,
    range_of, semi_seq_of, seq_of, shifted_day, start_of, this_at, year_of, Resolved,
};
use crate::grammar::{class_of, lemma_in_vocabulary, named, occurs, time_syntax, Rule};
use crate::lexicon::{
    figure_value, figures_value, lemma_figures_are_not_spelled, ordinal_ending, ordinal_value,
    NonTerminal, Symbol,
};
use crate::machine::{ambiguous, evaluation, readings, verdict_of};
use crate::report::Verdict;
use crate::tree::ParseTree;
use vstd::arithmetic::div_mod::lemma_mod_multiples_vanish;
use vstd::prelude::*;

verus! {

/// An evaluation is determined by the instant and the phrase: whatever two
/// evaluations of one phrase at one instant come to, they come to the same.
pub proof fn law_evaluation_is_determined(at: Instant, text: Seq<char>, first: Verdict, second: Verdict)
    requires
        first == evaluation(at, text).verdict,
        second == evaluation(at, text).verdict,
    ensures
        first == second,
{
}

/// A phrase with two derivations or more evaluates to an error; no derivation is
/// chosen.
pub proof fn law_ambiguity_is_rejected(at: Instant, text: Seq<char>)
    requires
        readings(text).len() >= 2,
    ensures
        evaluation(at, text).verdict == Verdict::Error(ambiguous()),
        evaluation(at, text).defined,
{
}

/// Every range that an evaluation comes to holds at least an instant: it starts
/// before it ends.
pub proof fn law_ranges_are_not_empty(at: Instant, text: Seq<char>, range: TimeRange)
    requires
        evaluation(at, text).defined,
        evaluation(at, text).verdict == Verdict::Range(range),
    ensures
        range.start.before(range.end),
{
    let tree = readings(text).choose();
    match tree {
        ParseTree::Node { rule: Rule::StartRange, children } => {
            lemma_defined_range_is_valid(at, children[0]);
        },
        _ => {},
    }
}

/// A range that resolves where the calendar answers is valid.
pub proof fn lemma_defined_range_is_valid(at: Instant, tree: ParseTree)
    requires
        range_of(at, tree).defined,
    ensures
        range_of(at, tree).value matches Some(range) ==> range.valid(),
{
    reveal(range_of);
    match tree {
        ParseTree::Leaf { .. } => {},
        ParseTree::Node { rule, children } => {
            match rule {
                Rule::Today => {
                    lemma_this_is_valid(Some(Sequence::Every(Grain::Day)), given(at));
                },
                Rule::Tomorrow => {},
                Rule::BareYear => {
                    if children.len() == 1 {
                        lemma_year_is_valid(num_of(children[0]));
                    }
                },
                Rule::BareNamed => {
                    if children.len() == 1 {
                        lemma_this_is_valid(seq_of(children[0]), given(at));
                    }
                },
                Rule::TheDay | Rule::ThisCycle => {
                    if children.len() == 2 {
                        lemma_this_is_valid(seq_of(children[1]), given(at));
                    }
                },
                Rule::NextCycle => {},
                Rule::CycleAfterNext => {},
                Rule::IntersectYear => {
                    if children.len() == 2 {
                        lemma_this_is_valid(
                            seq_of(children[0]),
                            start_of(year_of(num_of(children[1]))),
                        );
                    }
                },
                Rule::IntersectCycle => {
                    if children.len() == 2 {
                        lemma_this_is_valid(
                            intersect_of(seq_of(children[0]), seq_of(children[1])),
                            given(at),
                        );
                    }
                },
                Rule::DayOfRange => {
                    if children.len() == 4 {
                        lemma_this_is_valid(seq_of(children[1]), start_of(range_of(at, children[3])));
                    }
                },
                Rule::In => {
                    if children.len() == 2 {
                        lemma_shifted_day_is_valid(duration_of(at, children[1]), given(at), true);
                    }
                },
                Rule::Ago => {
                    if children.len() == 2 {
                        lemma_shifted_day_is_valid(duration_of(at, children[0]), given(at), false);
                    }
                },
                Rule::After => {
                    if children.len() == 3 {
                        lemma_shifted_day_is_valid(
                            duration_of(at, children[0]),
                            start_of(range_of(at, children[2])),
                            true,
                        );
                    }
                },
                Rule::Before => {
                    if children.len() == 3 {
                        lemma_shifted_day_is_valid(
                            duration_of(at, children[0]),
                            start_of(range_of(at, children[2])),
                            false,
                        );
                    }
                },
                Rule::NthOfRange => {
                    if children.len() == 2 {
                        let inner = range_of(at, children[1]);
                        if let Some(r) = inner.value {
                            lemma_this_is_valid(
                                semi_seq_of(Sequence::Every(r.grain), children[0]),
                                start_of(inner),
                            );
                        }
                    }
                },
                Rule::NthOfDuration => {
                    if children.len() == 3 {
                        if let Some(unit) = seq_of(children[2]) {
                            lemma_this_is_valid(semi_seq_of(unit, children[0]), given(at));
                        }
                    }
                },
                _ => {},
            }
        },
    }
}

/// The first range of a sequence, where the calendar has it, is valid.
pub proof fn lemma_this_is_valid(seq: Option<Sequence>, at: Resolved<Instant>)
    requires
        this_at(seq, at).defined,
    ensures
        this_at(seq, at).value matches Some(range) ==> range.valid(),
{
}

/// A year that the calendar has is a valid range.
pub proof fn lemma_year_is_valid(year: Option<i64>)
    requires
        year_of(year).defined,
    ensures
        year_of(year).value matches Some(range) ==> range.valid(),
{
    if let Some(y) = year {
        lemma_year_span_valid(y as int);
    }
}

/// A shifted day that the calendar has is a valid range.
pub proof fn lemma_shifted_day_is_valid(
    duration: Resolved<(i32, Grain)>,
    base: Resolved<Instant>,
    forwards: bool,
)
    requires
        shifted_day(duration, base, forwards).defined,
    ensures
        shifted_day(duration, base, forwards).value matches Some(range) ==> range.valid(),
{
}

/// A bare year names the same range at every instant.
pub proof fn law_bare_year_is_absolute(first: Instant, second: Instant, tree: ParseTree)
    requires
        tree matches ParseTree::Node { rule: Rule::BareYear, .. },
    ensures
        range_of(first, tree) == range_of(second, tree),
{
    reveal(range_of);
}

/// A chain of cycles with a year names the same range at every instant: it is
/// resolved at the year's start.
pub proof fn law_dated_year_is_absolute(first: Instant, second: Instant, tree: ParseTree)
    requires
        tree matches ParseTree::Node { rule: Rule::IntersectYear, .. },
    ensures
        range_of(first, tree) == range_of(second, tree),
{
    reveal(range_of);
}

/// A phrase whose one derivation is a bare year evaluates to the same at every
/// instant.
pub proof fn law_year_phrase_is_absolute(first: Instant, second: Instant, text: Seq<char>)
    requires
        readings(text).len() == 1,
        readings(text).choose() matches ParseTree::Node { rule: Rule::StartRange, children }
            && children.len() == 1 && (children[0] matches ParseTree::Node { rule: Rule::BareYear, .. }),
    ensures
        evaluation(first, text) == evaluation(second, text),
{
    let tree = readings(text).choose();
    match tree {
        ParseTree::Node { rule: Rule::StartRange, children } => {
            law_bare_year_is_absolute(first, second, children[0]);
        },
        _ => {},
    }
}

/// "Today" is the day that holds the instant, and lasts one day.
pub proof fn law_today_is_one_day(at: Instant)
    requires
        this_defined(Sequence::Every(Grain::Day), at),
    ensures
        this_of(Sequence::Every(Grain::Day), at) == day_after(at, 0),
        this_of(Sequence::Every(Grain::Day), at).end.secs == this_of(
            Sequence::Every(Grain::Day),
            at,
        ).start.secs + SECONDS_PER_DAY,
        !at.before(this_of(Sequence::Every(Grain::Day), at).start),
        at.before(this_of(Sequence::Every(Grain::Day), at).end),
{
}

/// "Tomorrow" is the day after the one that holds the instant, and lasts one day.
pub proof fn law_tomorrow_is_the_next_day(at: Instant)
    requires
        next_defined(Sequence::Every(Grain::Day), at, 1),
    ensures
        next_of(Sequence::Every(Grain::Day), at, 1) == day_after(at, 1),
        next_of(Sequence::Every(Grain::Day), at, 1).end.secs == next_of(
            Sequence::Every(Grain::Day),
            at,
            1,
        ).start.secs + SECONDS_PER_DAY,
{
}

/// The ranges of a sequence carry its grain: that of what a selection selects, and
/// the finer one of an overlap.
pub proof fn law_ranges_carry_the_grain(seq: Sequence, at: Instant, n: int)
    ensures
        this_defined(seq, at) ==> this_of(seq, at).grain == seq.grain(),
        next_defined(seq, at, n) ==> next_of(seq, at, n).grain == seq.grain(),
{
    lemma_grain_of_yielded(seq, at, 0);
    lemma_grain_of_yielded(seq, at, next_index(seq, at, n));
}

/// A quantified duration counts in the grain of its unit.
pub proof fn law_durations_count_in_their_unit(at: Instant, tree: ParseTree)
    requires
        duration_of(at, tree).defined,
        tree matches ParseTree::Node { children, .. } && children.len() == 2,
    ensures
        duration_of(at, tree).value matches Some(duration) ==> (seq_of(tree->children[1]) matches Some(unit)
            && duration.1 == unit.grain()),
{
    if let Some(unit) = seq_of(tree->children[1]) {
        lemma_grain_of_yielded(unit, at, 0);
    }
}

/// Every range of a sequence with a rhythm is valid, and as long as the rhythm says:
/// a day for the days and for a weekday, seven for the weeks, two for the weekends.
pub proof fn law_rhythmic_ranges_are_valid(seq: Sequence, at: Instant, index: int)
    requires
        rhythm(seq, at) is Some,
        yielded(seq, at, index) is Some,
    ensures
        yielded(seq, at, index).unwrap().valid(),
        yielded(seq, at, index).unwrap().end.secs - yielded(seq, at, index).unwrap().start.secs == rhythm(
            seq,
            at,
        ).unwrap().length,
        rhythm(seq, at).unwrap().length == if seq == Sequence::Every(Grain::Week) {
            7 * SECONDS_PER_DAY
        } else if seq == Sequence::Weekend {
            2 * SECONDS_PER_DAY
        } else {
            SECONDS_PER_DAY as int
        },
{
}

/// A shift by units of a fixed length keeps a range as long as it was, and valid.
pub proof fn law_fixed_shifts_keep_the_length(range: TimeRange, grain: Grain, n: int)
    requires
        range.valid(),
        fixed_length(grain) is Some,
        moved(range, grain, n) is Some,
    ensures
        shift_defined(range, grain, n),
        shift_of(range, grain, n).end.secs - shift_of(range, grain, n).start.secs == range.end.secs
            - range.start.secs,
        shift_of(range, grain, n).grain == range.grain,
{
}

/// A shift keeps the grain of the range, whatever the unit that it counts in.
pub proof fn law_shifts_keep_the_grain(range: TimeRange, grain: Grain, n: int)
    requires
        moved(range, grain, n) is Some,
    ensures
        shift_of(range, grain, n).grain == range.grain,
{
}

/// A day that is shifted stays a day: "in a year" and "2 months ago" are of grain
/// Day, as "in 2 days" is.
pub proof fn law_shifted_days_are_days(at: Instant, tree: ParseTree)
    requires
        tree matches ParseTree::Node { rule, .. } && (rule == Rule::In || rule == Rule::Ago || rule == Rule::After
            || rule == Rule::Before),
        range_of(at, tree).defined,
    ensures
        range_of(at, tree).value matches Some(range) ==> range.grain == Grain::Day,
{
    reveal(range_of);
    match tree {
        ParseTree::Node { rule, children } => {
            let base = if rule == Rule::In || rule == Rule::Ago {
                given(at)
            } else {
                start_of(range_of(at, children[2]))
            };
            if let Some(t) = base.value {
                lemma_grain_of_yielded(Sequence::Every(Grain::Day), t, 0);
            }
        },
        _ => {},
    }
}

/// The first range of a sequence with a rhythm holds the instant or comes after it:
/// it ends after the instant.
pub proof fn law_this_ends_after(seq: Sequence, at: Instant)
    requires
        rhythm(seq, at) is Some,
        this_defined(seq, at),
    ensures
        at.before(this_of(seq, at).end),
        this_of(seq, at) == beat(rhythm(seq, at).unwrap(), 0),
{
}

/// The next ranges of a sequence with a rhythm start after the instant.
pub proof fn law_next_starts_after(seq: Sequence, at: Instant, n: int)
    requires
        rhythm(seq, at) is Some,
        next_defined(seq, at, n),
    ensures
        at.before(next_of(seq, at, n).start),
{
    let r = rhythm(seq, at).unwrap();
    let index = next_index(seq, at, n);
    assert(yielded(seq, at, 0) == Some(beat(r, 0)));
    assert(yielded(seq, at, index) == Some(beat(r, index)));
    assert(r.period > 0);
    if at.before(beat(r, 0).start) {
        assert(index * r.period >= 0) by (nonlinear_arith)
            requires
                index >= 0,
                r.period > 0,
        ;
    } else {
        assert(index * r.period >= r.period) by (nonlinear_arith)
            requires
                index >= 1,
                r.period > 0,
        ;
        assert(at.secs < r.first + r.period);
    }
}

/// A shift by units of a fixed length, forth and back again, returns the range that
/// it set out from.
pub proof fn law_shift_round_trip(range: TimeRange, grain: Grain, n: int)
    requires
        fixed_length(grain) is Some,
        shift_defined(range, grain, n),
    ensures
        shift_defined(shift_of(range, grain, n), grain, -n),
        shift_of(shift_of(range, grain, n), grain, -n) == range,
{
    let length = fixed_length(grain).unwrap();
    let there = slid(range, n * length);
    assert(moved(range, grain, n) == Some(there));
    assert((-n) * length == -(n * length)) by (nonlinear_arith);
    assert(slid(there, (-n) * length) == range);
}

/// A shift by days or weeks and back again, as a phrase has it ("2 weeks before 2
/// weeks after tomorrow"), comes to the day on which the range starts that it set out
/// from.
pub proof fn law_phrases_shift_forth_and_back(at: Instant, tree: ParseTree)
    requires
        tree matches ParseTree::Node { rule: Rule::Before, children } && children.len() == 3 && (
        children[2] matches ParseTree::Node { rule: Rule::After, children: within } && within.len() == 3
            && within[0] == children[0]),
        duration_of(at, tree->children[0]).value matches Some((_, grain)) && (grain == Grain::Day || grain
            == Grain::Week),
        range_of(at, tree->children[2]->children[2]).value is Some,
        range_of(at, tree).defined,
    ensures
        range_of(at, tree).value matches Some(back) && range_of(at, tree->children[2]->children[2]).value
            matches Some(range) && back == day_after(range.start, 0) && back.grain == Grain::Day
            && !range.start.before(back.start) && range.start.before(back.end),
{
    lemma_range_by_steps(at, tree);
    lemma_range_by_steps(at, tree->children[2]);
    lemma_days_shift_forth_and_back(
        duration_of(at, tree->children[0]),
        start_of(range_of(at, tree->children[2]->children[2])),
    );
}

/// The day of an instant, shifted by days or weeks and back again, is that day.
pub proof fn lemma_days_shift_forth_and_back(duration: Resolved<(i32, Grain)>, base: Resolved<Instant>)
    requires
        duration.value matches Some((_, grain)) && (grain == Grain::Day || grain == Grain::Week),
        base.value is Some,
        shifted_day(duration, start_of(shifted_day(duration, base, true)), false).defined,
    ensures
        base.value matches Some(from) && shifted_day(
            duration,
            start_of(shifted_day(duration, base, true)),
            false,
        ).value == Some(day_after(from, 0)),
{
    let (count, grain) = duration.value.unwrap();
    let from = base.value.unwrap();
    let length = fixed_length(grain).unwrap();
    let days = Sequence::Every(Grain::Day);
    let day = this_of(days, from);
    let forth = shifted_day(duration, base, true);
    assert(this_at(Some(days), base).value == Some(day));
    assert(forth.value is Some);
    assert(this_at(Some(days), start_of(forth)).value is Some);
    assert(this_at(Some(days), start_of(forth)).defined);
    assert(forth.defined);
    assert(this_at(Some(days), base).defined);
    assert(this_defined(days, from));
    assert(day == day_after(from, 0));
    let there = shift_of(day, grain, count as int);
    assert(shift_defined(day, grain, count as int));
    assert(there == slid(day, count * length));
    assert(forth.value == Some(there));
    assert(day.start.secs % 86400 == 0);
    assert(count * length == 86400 * (count * (length / 86400))) by (nonlinear_arith)
        requires
            length == 86400 || length == 604800,
    ;
    lemma_mod_multiples_vanish(count * (length / 86400), day.start.secs as int, 86400);
    assert(there.start.secs % 86400 == 0);
    assert(this_of(days, there.start) == there);
    assert((-(count as int)) * length == -(count * length)) by (nonlinear_arith);
    assert(slid(there, (-(count as int)) * length) == day);
}

/// Days are counted from the instant on, and up to the bound but not on it: from the
/// first second of a day until the start of the `k`-th day after, there are `k`;
/// from any later instant of that day, one less.
pub proof fn law_days_until(at: Instant, k: int)
    requires
        at.in_window(),
        k >= 1,
        yielded(Sequence::Every(Grain::Day), at, k) is Some,
    ensures
        count_defined(Sequence::Every(Grain::Day), at, day_after(at, k).start),
        count_of(Sequence::Every(Grain::Day), at, day_after(at, k).start) == if at == day_after(
            at,
            0,
        ).start {
            k
        } else {
            k - 1
        },
{
    let days = Sequence::Every(Grain::Day);
    let bound = day_after(at, k).start;
    let first: int = if at == day_after(at, 0).start {
        0
    } else {
        1
    };
    assert forall|j: int| 0 <= j <= k implies (#[trigger] yielded(days, at, j)) == Some(
        day_after(at, j),
    ) by {
        assert((j + 1) * SECONDS_PER_DAY <= (k + 1) * SECONDS_PER_DAY) by (nonlinear_arith)
            requires
                j <= k,
        ;
    }
    assert forall|j: int| 0 <= j <= k implies (#[trigger] day_after(at, j)).start.secs == day_start(at)
        + j * SECONDS_PER_DAY by {
        assert(0 <= j * SECONDS_PER_DAY <= k * SECONDS_PER_DAY) by (nonlinear_arith)
            requires
                0 <= j <= k,
        ;
    }
    assert(day_after(at, 0).start.secs == day_start(at));
    assert(day_after(at, 1).start.secs == day_start(at) + SECONDS_PER_DAY);
    assert(stops_at(days, at, at, 0, first)) by {
        assert(yielded(days, at, 0) == Some(day_after(at, 0)));
        assert(yielded(days, at, 1) == Some(day_after(at, 1)));
    }
    assert(stops(days, at, at, 0));
    lemma_stop_unique(days, at, at, 0, first, stop(days, at, at, 0));
    assert(stops_at(days, at, bound, first, k)) by {
        assert forall|j: int| first <= j < k implies (#[trigger] yielded(days, at, j)).unwrap().start.before(
            bound,
        ) by {
            assert(yielded(days, at, j) == Some(day_after(at, j)));
            assert(j * SECONDS_PER_DAY < k * SECONDS_PER_DAY) by (nonlinear_arith)
                requires
                    j < k,
            ;
        }
    }
    assert(stops(days, at, bound, first));
    lemma_stop_unique(days, at, bound, first, k, stop(days, at, bound, first));
}

/// How many days have started before an instant, counted from the first of 1970.
pub open spec fn days_begun(at: Instant) -> int {
    (ceiling(at) + 86399) / 86400
}

/// The days from an instant until another are those that have begun before the second
/// and not before the first.
pub proof fn lemma_days_between(from: Instant, until: Instant)
    requires
        count_beats(Sequence::Every(Grain::Day), from, until),
    ensures
        count_defined(Sequence::Every(Grain::Day), from, until),
        count_of(Sequence::Every(Grain::Day), from, until) == if days_begun(until) > days_begun(from) {
            days_begun(until) - days_begun(from)
        } else {
            0
        },
{
    let days = Sequence::Every(Grain::Day);
    lemma_count_of_rhythm(days, from, until);
    let r = rhythm(days, from).unwrap();
    let q = from.secs as int / 86400;
    assert(r.first == 86400 * q);
    assert(days_begun(from) == q + passed(r, from));
    assert((ceiling(until) - 86400 * q + 86399) / 86400 == (ceiling(until) + 86399) / 86400 - q);
}

/// Counts of days over adjoining stretches add up: the days from a first instant
/// until a second, and those from the second until a third, are the days from the
/// first until the third.
pub proof fn law_day_counts_add_up(first: Instant, second: Instant, third: Instant)
    requires
        !second.before(first),
        !third.before(second),
        count_beats(Sequence::Every(Grain::Day), first, second),
        count_beats(Sequence::Every(Grain::Day), second, third),
        count_beats(Sequence::Every(Grain::Day), first, third),
    ensures
        count_of(Sequence::Every(Grain::Day), first, second) + count_of(
            Sequence::Every(Grain::Day),
            second,
            third,
        ) == count_of(Sequence::Every(Grain::Day), first, third),
{
    lemma_days_between(first, second);
    lemma_days_between(second, third);
    lemma_days_between(first, third);
    assert(ceiling(first) <= ceiling(second) <= ceiling(third));
}

/// Every symbol that a production uses is one that the grammar declares.
pub proof fn law_symbols_are_declared(rule: Rule, k: int)
    requires
        0 <= k < rule.body_spec().len(),
    ensures
        time_syntax().symbols.contains_key(named(rule).0),
        time_syntax().symbols[named(rule).0] is None,
        time_syntax().symbols.contains_key(named(rule).1[k]),
        time_syntax().symbols[named(rule).1[k]] == class_of(rule.body_spec()[k]),
{
    lemma_in_vocabulary(Symbol::NonTerm(rule.head_spec()));
    lemma_in_vocabulary(rule.body_spec()[k]);
    let rules = time_syntax().rules;
    assert(Rule::listing()[rule.position()] == rule);
    assert(rules[rule.position()] == named(rule));
    assert(named(rule).1[k] == rule.body_spec()[k].name_spec());
    assert(rules[rule.position()].1.contains(named(rule).1[k]));
    assert(occurs(rules, named(rule).0));
    assert(occurs(rules, named(rule).1[k]));
}

/// Only the optional article derives nothing.
pub proof fn law_only_the_article_is_optional(rule: Rule)
    requires
        rule.body_spec().len() == 0,
    ensures
        rule == Rule::ArticleAbsent,
{
}

/// Every derivation from the start symbol resolves to a range or a count: the
/// evaluator has a case for each production of the grammar, and for each lexeme that a
/// terminal takes.
pub proof fn law_derivations_resolve(at: Instant, tree: ParseTree)
    requires
        tree.derives(Symbol::NonTerm(NonTerminal::Start)),
    ensures
        !(verdict_of(at, tree).verdict is Error),
{
    match tree {
        ParseTree::Leaf { .. } => {},
        ParseTree::Node { rule, children } => {
            assert(children[0].derives(rule.body_spec()[0]));
            if rule == Rule::StartRange {
                lemma_range_resolves(at, children[0]);
            } else {
                lemma_timediff_resolves(at, children[0]);
            }
        },
    }
}

/// The number that figures spell starts with a figure.
pub proof fn lemma_figures_start_with_one(text: Seq<char>)
    requires
        figures_value(text) is Some,
    ensures
        text.len() > 0,
        figure_value(text[0]) is Some,
    decreases text.len(),
{
    if text.len() >= 2 {
        lemma_figures_start_with_one(text.drop_last());
        assert(text.drop_last()[0] == text[0]);
    }
}

/// An abbreviated ordinal stands for the number that its figures spell, whichever of
/// the four endings follows them: "3rd" for 3, and "3th" too.
pub proof fn law_abbreviated_ordinals(figures: Seq<char>, ending: Seq<char>)
    requires
        figures_value(figures) matches Some(n) && n <= u32::MAX,
        ordinal_ending(ending),
    ensures
        ordinal_value(figures + ending) == Some(figures_value(figures).unwrap() as u32),
{
    reveal_strlit("st");
    reveal_strlit("nd");
    reveal_strlit("rd");
    reveal_strlit("th");
    let word = figures + ending;
    lemma_figures_start_with_one(figures);
    assert(word[0] == figures[0]);
    lemma_figures_are_not_spelled(word);
    assert(word.subrange(word.len() - 2, word.len() as int) =~= ending);
    assert(word.subrange(0, word.len() - 2) =~= figures);
}

} // verus!
