//! Resolves natural-language time expressions ("next monday", "3rd week of august",
//! "days until tomorrow") against a reference instant, into a range of time or a count.
//!
//! A [`TimeMachine`] cuts a phrase into words, parses them by the grammar of
//! [`grammar`], and, where the phrase has exactly one derivation, folds it into a
//! [`Time`] by the evaluator of [`eval`]. The parsing is `earlgrey`'s, the calendar
//! `kronos`'s; [`almanac`] says what is taken from the calendar, and [`laws`] what
//! holds of every evaluation.
//!
//! The calendar does not answer every request. [`TimeMachine::eval`] requires that it
//! answers those of the phrase; [`TimeMachine::try_eval`] requires nothing, and
//! evaluates where it can tell beforehand that it does ([`vouch`]).

pub mod almanac;
pub mod calendar;
pub mod eval;
pub mod grammar;
pub mod laws;
pub mod lexicon;
pub mod machine;
pub mod report;
pub mod tree;
pub mod vouch;

pub use crate::calendar::{Grain, Instant, Sequence, TimeRange};
pub use crate::eval::eval_range;
pub use crate::grammar::build_grammar;
pub use crate::machine::TimeMachine;
pub use crate::report::Time;
pub use crate::tree::ParseTree;
