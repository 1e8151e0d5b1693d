//! The evaluator without its demands on the calendar: each function resolves what
//! [`crate::eval`] resolves, where it can be told beforehand that the calendar yields
//! what the resolution asks of it, and says `None` where it cannot.

use crate::calendar::{Grain, Instant, TimeRange};
use crate::eval::{
    duration_of, if_sure, range_of, resolve_duration, resolve_range, resolve_timediff, timediff_of,
};
use crate::lexicon::{NonTerminal, Symbol};
use crate::tree::ParseTree;
use vstd::prelude::*;

verus! {

/// Resolves a quantified duration where the calendar is sure to answer.
pub fn duration_if_sure(reftime: Instant, tree: &ParseTree) -> (r: Option<(i32, Grain)>)
    requires
        tree.derives(Symbol::NonTerm(NonTerminal::NDuration)),
    ensures
        r == if_sure(duration_of(reftime, *tree)),
        r is Some ==> duration_of(reftime, *tree).defined,
{
    resolve_duration(reftime, tree, true)
}

/// Resolves a `<range>` node where the calendar is sure to answer, and says `None`
/// where it cannot be told beforehand that the calendar yields what the resolution
/// asks of it.
pub fn range_if_sure(reftime: Instant, tree: &ParseTree) -> (r: Option<TimeRange>)
    requires
        reftime.in_window(),
        tree.derives(Symbol::NonTerm(NonTerminal::Range)),
    ensures
        r == if_sure(range_of(reftime, *tree)),
        r matches Some(range) ==> range.valid() && range_of(reftime, *tree).defined,
{
    resolve_range(reftime, tree, true)
}

/// Resolves a `<timediff>` node where the calendar is sure to answer.
pub fn timediff_if_sure(reftime: Instant, tree: &ParseTree) -> (r: Option<usize>)
    requires
        reftime.in_window(),
        tree.derives(Symbol::NonTerm(NonTerminal::Timediff)),
    ensures
        r == if_sure(timediff_of(reftime, *tree)),
        r is Some ==> timediff_of(reftime, *tree).defined,
{
    resolve_timediff(reftime, tree, true)
}

} // verus!
