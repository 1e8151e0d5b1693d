//! The productions of the phrase grammar and the grammar that `earlgrey` parses by.

use crate::lexicon::{lemma_names_distinct, NonTerminal, Symbol, Terminal};
use vstd::pervasive::unreached;
use vstd::prelude::*;

verus! {

/// A production. A node of a parse tree carries the production that derived it, and
/// the evaluator dispatches on it.
#[derive(Clone, Copy, Debug, PartialEq, Eq, Structural)]
pub enum Rule {
    /// `<the> -> `
    ArticleAbsent,
    /// `<the> -> the`
    ArticleThe,
    /// `<named-seq> -> <named-month>`
    NamedMonth,
    /// `<named-seq> -> <day-of-week>`
    NamedWeekday,
    /// `<named-seq> -> <day-of-month>`
    NamedDay,
    /// `<duration> -> days?`
    Days,
    /// `<duration> -> weeks?`
    Weeks,
    /// `<duration> -> months?`
    Months,
    /// `<duration> -> quarters?`
    Quarters,
    /// `<duration> -> years?`
    Years,
    /// `<cycle> -> weekends?`
    CycleWeekend,
    /// `<cycle> -> <duration>`
    CycleDuration,
    /// `<cycle> -> <named-seq>`
    CycleNamed,
    /// `<range> -> today`
    Today,
    /// `<range> -> tomorrow`
    Tomorrow,
    /// `<range> -> <year>`
    BareYear,
    /// `<range> -> <named-seq>`
    BareNamed,
    /// `<range> -> <the> <day-of-month>`
    TheDay,
    /// `<range> -> this <cycle>`
    ThisCycle,
    /// `<range> -> <the> next <cycle>`
    NextCycle,
    /// `<range> -> <the> <cycle> after next`
    CycleAfterNext,
    /// `<nth> -> <the> <ordinal> <cycle> (of|in)`
    NthOrdinal,
    /// `<nth> -> <the> last <cycle> (of|in)`
    NthLast,
    /// `<range> -> <nth> <range>`
    NthOfRange,
    /// `<range> -> <nth> <the> <duration>`
    NthOfDuration,
    /// `<intersect> -> <cycle>`
    IntersectOne,
    /// `<intersect> -> <intersect> <cycle>`
    IntersectMore,
    /// `<range> -> <intersect> <cycle>`
    IntersectCycle,
    /// `<range> -> <intersect> <year>`
    IntersectYear,
    /// `<range> -> <the> <day-of-month> of <range>`
    DayOfRange,
    /// `<n-duration> -> a <duration>`
    OneOf,
    /// `<n-duration> -> <number> <duration>`
    ManyOf,
    /// `<range> -> in <n-duration>`
    In,
    /// `<range> -> <n-duration> ago`
    Ago,
    /// `<range> -> <n-duration> after <range>`
    After,
    /// `<range> -> <n-duration> before <range>`
    Before,
    /// `<timediff> -> <cycle> until <range>`
    Until,
    /// `<timediff> -> <cycle> between <range> and <range>`
    Between,
    /// `<timediff> -> <cycle> from <range> to <range>`
    FromTo,
    /// `<S> -> <range>`
    StartRange,
    /// `<S> -> <timediff>`
    StartTimediff,
}

impl Rule {
    /// The nonterminal that the production rewrites.
    pub open spec fn head_spec(self) -> NonTerminal {
        match self {
            Rule::ArticleAbsent | Rule::ArticleThe => NonTerminal::Article,
            Rule::NamedMonth | Rule::NamedWeekday | Rule::NamedDay => NonTerminal::NamedSeq,
            Rule::Days | Rule::Weeks | Rule::Months | Rule::Quarters | Rule::Years => NonTerminal::Duration,
            Rule::CycleWeekend | Rule::CycleDuration | Rule::CycleNamed => NonTerminal::Cycle,
            Rule::Today | Rule::Tomorrow | Rule::BareYear | Rule::BareNamed | Rule::TheDay
            | Rule::ThisCycle | Rule::NextCycle | Rule::CycleAfterNext | Rule::NthOfRange
            | Rule::NthOfDuration | Rule::IntersectCycle | Rule::IntersectYear
            | Rule::DayOfRange | Rule::In | Rule::Ago | Rule::After | Rule::Before => NonTerminal::Range,
            Rule::NthOrdinal | Rule::NthLast => NonTerminal::Nth,
            Rule::IntersectOne | Rule::IntersectMore => NonTerminal::Intersect,
            Rule::OneOf | Rule::ManyOf => NonTerminal::NDuration,
            Rule::Until | Rule::Between | Rule::FromTo => NonTerminal::Timediff,
            Rule::StartRange | Rule::StartTimediff => NonTerminal::Start,
        }
    }

    pub fn head(self) -> (r: NonTerminal)
        ensures
            r == self.head_spec(),
    {
        match self {
            Rule::ArticleAbsent | Rule::ArticleThe => NonTerminal::Article,
            Rule::NamedMonth | Rule::NamedWeekday | Rule::NamedDay => NonTerminal::NamedSeq,
            Rule::Days | Rule::Weeks | Rule::Months | Rule::Quarters | Rule::Years => NonTerminal::Duration,
            Rule::CycleWeekend | Rule::CycleDuration | Rule::CycleNamed => NonTerminal::Cycle,
            Rule::Today | Rule::Tomorrow | Rule::BareYear | Rule::BareNamed | Rule::TheDay
            | Rule::ThisCycle | Rule::NextCycle | Rule::CycleAfterNext | Rule::NthOfRange
            | Rule::NthOfDuration | Rule::IntersectCycle | Rule::IntersectYear
            | Rule::DayOfRange | Rule::In | Rule::Ago | Rule::After | Rule::Before => NonTerminal::Range,
            Rule::NthOrdinal | Rule::NthLast => NonTerminal::Nth,
            Rule::IntersectOne | Rule::IntersectMore => NonTerminal::Intersect,
            Rule::OneOf | Rule::ManyOf => NonTerminal::NDuration,
            Rule::Until | Rule::Between | Rule::FromTo => NonTerminal::Timediff,
            Rule::StartRange | Rule::StartTimediff => NonTerminal::Start,
        }
    }

    /// The symbols that the production rewrites its head to, in order.
    pub open spec fn body_spec(self) -> Seq<Symbol> {
        match self {
            Rule::ArticleAbsent => seq![],
            Rule::ArticleThe => seq![Symbol::Term(Terminal::The)],
            Rule::NamedMonth => seq![Symbol::Term(Terminal::NamedMonth)],
            Rule::NamedWeekday => seq![Symbol::Term(Terminal::DayOfWeek)],
            Rule::NamedDay => seq![Symbol::Term(Terminal::DayOfMonth)],
            Rule::Days => seq![Symbol::Term(Terminal::Days)],
            Rule::Weeks => seq![Symbol::Term(Terminal::Weeks)],
            Rule::Months => seq![Symbol::Term(Terminal::Months)],
            Rule::Quarters => seq![Symbol::Term(Terminal::Quarters)],
            Rule::Years => seq![Symbol::Term(Terminal::Years)],
            Rule::CycleWeekend => seq![Symbol::Term(Terminal::Weekends)],
            Rule::CycleDuration => seq![Symbol::NonTerm(NonTerminal::Duration)],
            Rule::CycleNamed => seq![Symbol::NonTerm(NonTerminal::NamedSeq)],
            Rule::Today => seq![Symbol::Term(Terminal::Today)],
            Rule::Tomorrow => seq![Symbol::Term(Terminal::Tomorrow)],
            Rule::BareYear => seq![Symbol::Term(Terminal::Year)],
            Rule::BareNamed => seq![Symbol::NonTerm(NonTerminal::NamedSeq)],
            Rule::TheDay => seq![
                Symbol::NonTerm(NonTerminal::Article),
                Symbol::Term(Terminal::DayOfMonth),
            ],
            Rule::ThisCycle => seq![
                Symbol::Term(Terminal::This),
                Symbol::NonTerm(NonTerminal::Cycle),
            ],
            Rule::NextCycle => seq![
                Symbol::NonTerm(NonTerminal::Article),
                Symbol::Term(Terminal::Next),
                Symbol::NonTerm(NonTerminal::Cycle),
            ],
            Rule::CycleAfterNext => seq![
                Symbol::NonTerm(NonTerminal::Article),
                Symbol::NonTerm(NonTerminal::Cycle),
                Symbol::Term(Terminal::After),
                Symbol::Term(Terminal::Next),
            ],
            Rule::NthOrdinal => seq![
                Symbol::NonTerm(NonTerminal::Article),
                Symbol::Term(Terminal::Ordinal),
                Symbol::NonTerm(NonTerminal::Cycle),
                Symbol::Term(Terminal::OfIn),
            ],
            Rule::NthLast => seq![
                Symbol::NonTerm(NonTerminal::Article),
                Symbol::Term(Terminal::Last),
                Symbol::NonTerm(NonTerminal::Cycle),
                Symbol::Term(Terminal::OfIn),
            ],
            Rule::NthOfRange => seq![
                Symbol::NonTerm(NonTerminal::Nth),
                Symbol::NonTerm(NonTerminal::Range),
            ],
            Rule::NthOfDuration => seq![
                Symbol::NonTerm(NonTerminal::Nth),
                Symbol::NonTerm(NonTerminal::Article),
                Symbol::NonTerm(NonTerminal::Duration),
            ],
            Rule::IntersectOne => seq![Symbol::NonTerm(NonTerminal::Cycle)],
            Rule::IntersectMore => seq![
                Symbol::NonTerm(NonTerminal::Intersect),
                Symbol::NonTerm(NonTerminal::Cycle),
            ],
            Rule::IntersectCycle => seq![
                Symbol::NonTerm(NonTerminal::Intersect),
                Symbol::NonTerm(NonTerminal::Cycle),
            ],
            Rule::IntersectYear => seq![
                Symbol::NonTerm(NonTerminal::Intersect),
                Symbol::Term(Terminal::Year),
            ],
            Rule::DayOfRange => seq![
                Symbol::NonTerm(NonTerminal::Article),
                Symbol::Term(Terminal::DayOfMonth),
                Symbol::Term(Terminal::Of),
                Symbol::NonTerm(NonTerminal::Range),
            ],
            Rule::OneOf => seq![
                Symbol::Term(Terminal::A),
                Symbol::NonTerm(NonTerminal::Duration),
            ],
            Rule::ManyOf => seq![
                Symbol::Term(Terminal::Number),
                Symbol::NonTerm(NonTerminal::Duration),
            ],
            Rule::In => seq![
                Symbol::Term(Terminal::In),
                Symbol::NonTerm(NonTerminal::NDuration),
            ],
            Rule::Ago => seq![
                Symbol::NonTerm(NonTerminal::NDuration),
                Symbol::Term(Terminal::Ago),
            ],
            Rule::After => seq![
                Symbol::NonTerm(NonTerminal::NDuration),
                Symbol::Term(Terminal::After),
                Symbol::NonTerm(NonTerminal::Range),
            ],
            Rule::Before => seq![
                Symbol::NonTerm(NonTerminal::NDuration),
                Symbol::Term(Terminal::Before),
                Symbol::NonTerm(NonTerminal::Range),
            ],
            Rule::Until => seq![
                Symbol::NonTerm(NonTerminal::Cycle),
                Symbol::Term(Terminal::Until),
                Symbol::NonTerm(NonTerminal::Range),
            ],
            Rule::Between => seq![
                Symbol::NonTerm(NonTerminal::Cycle),
                Symbol::Term(Terminal::Between),
                Symbol::NonTerm(NonTerminal::Range),
                Symbol::Term(Terminal::And),
                Symbol::NonTerm(NonTerminal::Range),
            ],
            Rule::FromTo => seq![
                Symbol::NonTerm(NonTerminal::Cycle),
                Symbol::Term(Terminal::From),
                Symbol::NonTerm(NonTerminal::Range),
                Symbol::Term(Terminal::To),
                Symbol::NonTerm(NonTerminal::Range),
            ],
            Rule::StartRange => seq![Symbol::NonTerm(NonTerminal::Range)],
            Rule::StartTimediff => seq![Symbol::NonTerm(NonTerminal::Timediff)],
        }
    }

    pub fn body(self) -> (r: Vec<Symbol>)
        ensures
            r@ == self.body_spec(),
    {
        let r = match self {
            Rule::ArticleAbsent => vec![],
            Rule::ArticleThe => vec![Symbol::Term(Terminal::The)],
            Rule::NamedMonth => vec![Symbol::Term(Terminal::NamedMonth)],
            Rule::NamedWeekday => vec![Symbol::Term(Terminal::DayOfWeek)],
            Rule::NamedDay => vec![Symbol::Term(Terminal::DayOfMonth)],
            Rule::Days => vec![Symbol::Term(Terminal::Days)],
            Rule::Weeks => vec![Symbol::Term(Terminal::Weeks)],
            Rule::Months => vec![Symbol::Term(Terminal::Months)],
            Rule::Quarters => vec![Symbol::Term(Terminal::Quarters)],
            Rule::Years => vec![Symbol::Term(Terminal::Years)],
            Rule::CycleWeekend => vec![Symbol::Term(Terminal::Weekends)],
            Rule::CycleDuration => vec![Symbol::NonTerm(NonTerminal::Duration)],
            Rule::CycleNamed => vec![Symbol::NonTerm(NonTerminal::NamedSeq)],
            Rule::Today => vec![Symbol::Term(Terminal::Today)],
            Rule::Tomorrow => vec![Symbol::Term(Terminal::Tomorrow)],
            Rule::BareYear => vec![Symbol::Term(Terminal::Year)],
            Rule::BareNamed => vec![Symbol::NonTerm(NonTerminal::NamedSeq)],
            Rule::TheDay => vec![
                Symbol::NonTerm(NonTerminal::Article),
                Symbol::Term(Terminal::DayOfMonth),
            ],
            Rule::ThisCycle => vec![
                Symbol::Term(Terminal::This),
                Symbol::NonTerm(NonTerminal::Cycle),
            ],
            Rule::NextCycle => vec![
                Symbol::NonTerm(NonTerminal::Article),
                Symbol::Term(Terminal::Next),
                Symbol::NonTerm(NonTerminal::Cycle),
            ],
            Rule::CycleAfterNext => vec![
                Symbol::NonTerm(NonTerminal::Article),
                Symbol::NonTerm(NonTerminal::Cycle),
                Symbol::Term(Terminal::After),
                Symbol::Term(Terminal::Next),
            ],
            Rule::NthOrdinal => vec![
                Symbol::NonTerm(NonTerminal::Article),
                Symbol::Term(Terminal::Ordinal),
                Symbol::NonTerm(NonTerminal::Cycle),
                Symbol::Term(Terminal::OfIn),
            ],
            Rule::NthLast => vec![
                Symbol::NonTerm(NonTerminal::Article),
                Symbol::Term(Terminal::Last),
                Symbol::NonTerm(NonTerminal::Cycle),
                Symbol::Term(Terminal::OfIn),
            ],
            Rule::NthOfRange => vec![
                Symbol::NonTerm(NonTerminal::Nth),
                Symbol::NonTerm(NonTerminal::Range),
            ],
            Rule::NthOfDuration => vec![
                Symbol::NonTerm(NonTerminal::Nth),
                Symbol::NonTerm(NonTerminal::Article),
                Symbol::NonTerm(NonTerminal::Duration),
            ],
            Rule::IntersectOne => vec![Symbol::NonTerm(NonTerminal::Cycle)],
            Rule::IntersectMore => vec![
                Symbol::NonTerm(NonTerminal::Intersect),
                Symbol::NonTerm(NonTerminal::Cycle),
            ],
            Rule::IntersectCycle => vec![
                Symbol::NonTerm(NonTerminal::Intersect),
                Symbol::NonTerm(NonTerminal::Cycle),
            ],
            Rule::IntersectYear => vec![
                Symbol::NonTerm(NonTerminal::Intersect),
                Symbol::Term(Terminal::Year),
            ],
            Rule::DayOfRange => vec![
                Symbol::NonTerm(NonTerminal::Article),
                Symbol::Term(Terminal::DayOfMonth),
                Symbol::Term(Terminal::Of),
                Symbol::NonTerm(NonTerminal::Range),
            ],
            Rule::OneOf => vec![
                Symbol::Term(Terminal::A),
                Symbol::NonTerm(NonTerminal::Duration),
            ],
            Rule::ManyOf => vec![
                Symbol::Term(Terminal::Number),
                Symbol::NonTerm(NonTerminal::Duration),
            ],
            Rule::In => vec![
                Symbol::Term(Terminal::In),
                Symbol::NonTerm(NonTerminal::NDuration),
            ],
            Rule::Ago => vec![
                Symbol::NonTerm(NonTerminal::NDuration),
                Symbol::Term(Terminal::Ago),
            ],
            Rule::After => vec![
                Symbol::NonTerm(NonTerminal::NDuration),
                Symbol::Term(Terminal::After),
                Symbol::NonTerm(NonTerminal::Range),
            ],
            Rule::Before => vec![
                Symbol::NonTerm(NonTerminal::NDuration),
                Symbol::Term(Terminal::Before),
                Symbol::NonTerm(NonTerminal::Range),
            ],
            Rule::Until => vec![
                Symbol::NonTerm(NonTerminal::Cycle),
                Symbol::Term(Terminal::Until),
                Symbol::NonTerm(NonTerminal::Range),
            ],
            Rule::Between => vec![
                Symbol::NonTerm(NonTerminal::Cycle),
                Symbol::Term(Terminal::Between),
                Symbol::NonTerm(NonTerminal::Range),
                Symbol::Term(Terminal::And),
                Symbol::NonTerm(NonTerminal::Range),
            ],
            Rule::FromTo => vec![
                Symbol::NonTerm(NonTerminal::Cycle),
                Symbol::Term(Terminal::From),
                Symbol::NonTerm(NonTerminal::Range),
                Symbol::Term(Terminal::To),
                Symbol::NonTerm(NonTerminal::Range),
            ],
            Rule::StartRange => vec![Symbol::NonTerm(NonTerminal::Range)],
            Rule::StartTimediff => vec![Symbol::NonTerm(NonTerminal::Timediff)],
        };
        assert(r@ =~= self.body_spec());
        r
    }

    /// Every production, in the order in which the grammar takes them.
    pub open spec fn listing() -> Seq<Rule> {
        seq![
            Rule::ArticleAbsent,
            Rule::ArticleThe,
            Rule::NamedMonth,
            Rule::NamedWeekday,
            Rule::NamedDay,
            Rule::Days,
            Rule::Weeks,
            Rule::Months,
            Rule::Quarters,
            Rule::Years,
            Rule::CycleWeekend,
            Rule::CycleDuration,
            Rule::CycleNamed,
            Rule::Today,
            Rule::Tomorrow,
            Rule::BareYear,
            Rule::BareNamed,
            Rule::TheDay,
            Rule::ThisCycle,
            Rule::NextCycle,
            Rule::CycleAfterNext,
            Rule::NthOrdinal,
            Rule::NthLast,
            Rule::NthOfRange,
            Rule::NthOfDuration,
            Rule::IntersectOne,
            Rule::IntersectMore,
            Rule::IntersectCycle,
            Rule::IntersectYear,
            Rule::DayOfRange,
            Rule::OneOf,
            Rule::ManyOf,
            Rule::In,
            Rule::Ago,
            Rule::After,
            Rule::Before,
            Rule::Until,
            Rule::Between,
            Rule::FromTo,
            Rule::StartRange,
            Rule::StartTimediff,
        ]
    }

    /// Where the production stands in [`Rule::listing`].
    pub open spec fn position(self) -> int {
        match self {
            Rule::ArticleAbsent => 0,
            Rule::ArticleThe => 1,
            Rule::NamedMonth => 2,
            Rule::NamedWeekday => 3,
            Rule::NamedDay => 4,
            Rule::Days => 5,
            Rule::Weeks => 6,
            Rule::Months => 7,
            Rule::Quarters => 8,
            Rule::Years => 9,
            Rule::CycleWeekend => 10,
            Rule::CycleDuration => 11,
            Rule::CycleNamed => 12,
            Rule::Today => 13,
            Rule::Tomorrow => 14,
            Rule::BareYear => 15,
            Rule::BareNamed => 16,
            Rule::TheDay => 17,
            Rule::ThisCycle => 18,
            Rule::NextCycle => 19,
            Rule::CycleAfterNext => 20,
            Rule::NthOrdinal => 21,
            Rule::NthLast => 22,
            Rule::NthOfRange => 23,
            Rule::NthOfDuration => 24,
            Rule::IntersectOne => 25,
            Rule::IntersectMore => 26,
            Rule::IntersectCycle => 27,
            Rule::IntersectYear => 28,
            Rule::DayOfRange => 29,
            Rule::OneOf => 30,
            Rule::ManyOf => 31,
            Rule::In => 32,
            Rule::Ago => 33,
            Rule::After => 34,
            Rule::Before => 35,
            Rule::Until => 36,
            Rule::Between => 37,
            Rule::FromTo => 38,
            Rule::StartRange => 39,
            Rule::StartTimediff => 40,
        }
    }

    pub fn all() -> (r: Vec<Rule>)
        ensures
            r@ == Rule::listing(),
    {
        let r = vec![
            Rule::ArticleAbsent,
            Rule::ArticleThe,
            Rule::NamedMonth,
            Rule::NamedWeekday,
            Rule::NamedDay,
            Rule::Days,
            Rule::Weeks,
            Rule::Months,
            Rule::Quarters,
            Rule::Years,
            Rule::CycleWeekend,
            Rule::CycleDuration,
            Rule::CycleNamed,
            Rule::Today,
            Rule::Tomorrow,
            Rule::BareYear,
            Rule::BareNamed,
            Rule::TheDay,
            Rule::ThisCycle,
            Rule::NextCycle,
            Rule::CycleAfterNext,
            Rule::NthOrdinal,
            Rule::NthLast,
            Rule::NthOfRange,
            Rule::NthOfDuration,
            Rule::IntersectOne,
            Rule::IntersectMore,
            Rule::IntersectCycle,
            Rule::IntersectYear,
            Rule::DayOfRange,
            Rule::OneOf,
            Rule::ManyOf,
            Rule::In,
            Rule::Ago,
            Rule::After,
            Rule::Before,
            Rule::Until,
            Rule::Between,
            Rule::FromTo,
            Rule::StartRange,
            Rule::StartTimediff,
        ];
        assert(r@ =~= Rule::listing());
        r
    }
}

#[verifier::external_type_specification]
#[verifier::external_body]
pub struct ExGrammarBuilder(earlgrey::GrammarBuilder);

#[verifier::external_type_specification]
#[verifier::external_body]
pub struct ExGrammar(earlgrey::Grammar);

/// What a grammar consists of: the symbols of its productions by name, each with the
/// terminal that classifies its lexemes (`None` for a nonterminal); its productions by
/// the names of head and body; and the name of its start symbol.
pub struct Syntax {
    pub symbols: Map<Seq<char>, Option<Terminal>>,
    pub rules: Seq<(Seq<char>, Seq<Seq<char>>)>,
    pub start: Seq<char>,
}

/// Whether a name stands in one of some productions, as its head or in its body.
pub open spec fn occurs(rules: Seq<(Seq<char>, Seq<Seq<char>>)>, name: Seq<char>) -> bool {
    exists|i: int| 0 <= i < rules.len() && ((#[trigger] rules[i]).0 == name || rules[i].1.contains(name))
}

/// The symbols that a grammar keeps of those that were declared: the ones that its
/// productions name. A grammar holds its symbols in its productions only.
pub open spec fn kept(
    symbols: Map<Seq<char>, Option<Terminal>>,
    rules: Seq<(Seq<char>, Seq<Seq<char>>)>,
) -> Map<Seq<char>, Option<Terminal>> {
    symbols.restrict(Set::new(|name: Seq<char>| occurs(rules, name)))
}

/// The symbols that an `earlgrey::GrammarBuilder` has been given so far.
pub uninterp spec fn declared(builder: earlgrey::GrammarBuilder) -> Map<Seq<char>, Option<Terminal>>;

/// The productions that an `earlgrey::GrammarBuilder` has taken so far.
pub uninterp spec fn productions(builder: earlgrey::GrammarBuilder) -> Seq<(Seq<char>, Seq<Seq<char>>)>;

/// Whether an `earlgrey::GrammarBuilder` has recorded a fault: a symbol given twice, a
/// production given twice, or one that names a symbol it does not know.
pub uninterp spec fn faulted(builder: earlgrey::GrammarBuilder) -> bool;

/// What an `earlgrey::Grammar` holds.
pub uninterp spec fn syntax_of(grammar: earlgrey::Grammar) -> Syntax;

/// The characters of each string.
pub open spec fn spelled(names: Seq<&'static str>) -> Seq<Seq<char>> {
    names.map_values(|name: &'static str| name@)
}

/// Whether a builder takes the production `head -> body` without recording a fault.
pub open spec fn takes(builder: earlgrey::GrammarBuilder, head: Seq<char>, body: Seq<Seq<char>>) -> bool {
    &&& forall|k: int| 0 <= k < body.len() ==> declared(builder).contains_key(#[trigger] body[k])
    &&& declared(builder).contains_key(head)
    &&& declared(builder)[head] is None
    &&& !productions(builder).contains((head, body))
}

/// `earlgrey::GrammarBuilder::default`: a builder that holds nothing yet.
#[verifier::external_body]
fn new_builder() -> (builder: earlgrey::GrammarBuilder)
    ensures
        forall|name: Seq<char>| !declared(builder).contains_key(name),
        productions(builder).len() == 0,
        !faulted(builder),
{
    earlgrey::GrammarBuilder::default()
}

/// `earlgrey::GrammarBuilder::nonterm`: the builder learns the name, unless it knows
/// it already, which it records as a fault.
#[verifier::external_body]
fn declare_nonterminal(builder: earlgrey::GrammarBuilder, name: &str) -> (out: earlgrey::GrammarBuilder)
    ensures
        declared(out) == if declared(builder).contains_key(name@) {
            declared(builder)
        } else {
            declared(builder).insert(name@, None)
        },
        productions(out) == productions(builder),
        faulted(out) == (faulted(builder) || declared(builder).contains_key(name@)),
{
    builder.nonterm(name)
}

/// `earlgrey::GrammarBuilder::terminal`: as for a nonterminal; the lexemes that the
/// symbol takes are those that `class` accepts.
#[verifier::external_body]
fn declare_terminal(builder: earlgrey::GrammarBuilder, name: &str, class: Terminal) -> (out: earlgrey::GrammarBuilder)
    ensures
        declared(out) == if declared(builder).contains_key(name@) {
            declared(builder)
        } else {
            declared(builder).insert(name@, Some(class))
        },
        productions(out) == productions(builder),
        faulted(out) == (faulted(builder) || declared(builder).contains_key(name@)),
{
    builder.terminal(name, move |lexeme: &str| class.accepts(lexeme))
}

/// `earlgrey::GrammarBuilder::rule`: the builder appends the production if it knows
/// every symbol of the body, knows the head as a nonterminal, and has not taken the
/// same production before; otherwise it records a fault.
#[verifier::external_body]
fn add_production(builder: earlgrey::GrammarBuilder, head: &str, body: &Vec<&'static str>) -> (out: earlgrey::GrammarBuilder)
    ensures
        declared(out) == declared(builder),
        productions(out) == if takes(builder, head@, spelled(body@)) {
            productions(builder).push((head@, spelled(body@)))
        } else {
            productions(builder)
        },
        faulted(out) == (faulted(builder) || !takes(builder, head@, spelled(body@))),
{
    builder.rule(head, body)
}

/// `earlgrey::GrammarBuilder::into_grammar`: a grammar of the productions that the
/// builder holds, with the symbols that they name, unless a fault was recorded or
/// `start` is not a nonterminal it knows.
#[verifier::external_body]
fn finish(builder: earlgrey::GrammarBuilder, start: &str) -> (grammar: Option<earlgrey::Grammar>)
    ensures
        grammar is Some <==> {
            &&& !faulted(builder)
            &&& declared(builder).contains_key(start@)
            &&& declared(builder)[start@] is None
        },
        grammar matches Some(g) ==> syntax_of(g) == (Syntax {
            symbols: kept(declared(builder), productions(builder)),
            rules: productions(builder),
            start: start@,
        }),
{
    builder.into_grammar(start).ok()
}

/// The symbol that goes by `name`, if there is one.
pub open spec fn symbol_named(name: Seq<char>) -> Option<Symbol> {
    if exists|s: Symbol| s.name_spec() == name {
        Some(choose|s: Symbol| s.name_spec() == name)
    } else {
        None
    }
}

/// How the grammar tells a symbol: by the terminal that classifies its lexemes, or
/// `None` for a nonterminal.
pub open spec fn class_of(symbol: Symbol) -> Option<Terminal> {
    match symbol {
        Symbol::Term(t) => Some(t),
        Symbol::NonTerm(_) => None,
    }
}

/// The first `nonterminals` nonterminals and the first `terminals` terminals of the
/// listings, by name.
pub open spec fn vocabulary_upto(nonterminals: int, terminals: int) -> Map<Seq<char>, Option<Terminal>> {
    Map::new(
        |name: Seq<char>|
            match symbol_named(name) {
                Some(Symbol::NonTerm(n)) => n.position() < nonterminals,
                Some(Symbol::Term(t)) => t.position() < terminals,
                None => false,
            },
        |name: Seq<char>| class_of(symbol_named(name).unwrap()),
    )
}

/// Every symbol of the grammar, by name.
pub open spec fn vocabulary() -> Map<Seq<char>, Option<Terminal>> {
    vocabulary_upto(NonTerminal::listing().len() as int, Terminal::listing().len() as int)
}

/// A production by names.
pub open spec fn named(rule: Rule) -> (Seq<char>, Seq<Seq<char>>) {
    (rule.head_spec().name_spec(), rule.body_spec().map_values(|s: Symbol| s.name_spec()))
}

/// The grammar of time expressions.
pub open spec fn time_syntax() -> Syntax {
    Syntax {
        symbols: kept(vocabulary(), Rule::listing().map_values(|rule: Rule| named(rule))),
        rules: Rule::listing().map_values(|rule: Rule| named(rule)),
        start: NonTerminal::Start.name_spec(),
    }
}

/// A name belongs to the one symbol that bears it.
pub proof fn lemma_symbol_named(symbol: Symbol)
    ensures
        symbol_named(symbol.name_spec()) == Some(symbol),
{
    let found = choose|s: Symbol| s.name_spec() == symbol.name_spec();
    lemma_names_distinct(found, symbol);
}

/// No two productions spell the same.
pub proof fn lemma_rules_distinct(a: Rule, b: Rule)
    requires
        named(a) == named(b),
    ensures
        a == b,
{
    lemma_names_distinct(Symbol::NonTerm(a.head_spec()), Symbol::NonTerm(b.head_spec()));
    let x = a.body_spec();
    let y = b.body_spec();
    assert(x.len() == named(a).1.len());
    assert(y.len() == named(b).1.len());
    assert forall|k: int| 0 <= k < x.len() implies x[k] == y[k] by {
        assert(named(a).1[k] == x[k].name_spec());
        assert(named(b).1[k] == y[k].name_spec());
        lemma_names_distinct(x[k], y[k]);
    }
    assert(x =~= y);
    assert(a.head_spec() == b.head_spec());
    assert(x.len() == y.len());
    assert(x.len() > 0 ==> x[0] == y[0]);
    assert(x.len() > 1 ==> x[1] == y[1]);
    assert(x.len() > 2 ==> x[2] == y[2]);
    assert(x.len() > 3 ==> x[3] == y[3]);
}

/// The names of a production's body, in order.
fn body_names(rule: Rule) -> (names: Vec<&'static str>)
    ensures
        spelled(names@) == named(rule).1,
{
    let body = rule.body();
    let mut names: Vec<&'static str> = Vec::new();
    let mut k: usize = 0;
    while k < body.len()
        invariant
            k <= body.len(),
            body@ == rule.body_spec(),
            names@.len() == k,
            forall|j: int| 0 <= j < k ==> (#[trigger] names@[j])@ == body@[j].name_spec(),
        decreases body.len() - k,
    {
        names.push(body[k].name());
        k += 1;
    }
    assert(spelled(names@) =~= named(rule).1);
    names
}

/// Builds the grammar of time expressions: every symbol is declared before the
/// productions that use it, and each production is taken once.
pub fn build_grammar() -> (grammar: earlgrey::Grammar)
    ensures
        syntax_of(grammar) == time_syntax(),
{
    let mut builder = new_builder();
    assert(declared(builder) =~= vocabulary_upto(0, 0));

    let nonterminals = NonTerminal::all();
    let mut i: usize = 0;
    while i < nonterminals.len()
        invariant
            i <= nonterminals.len(),
            nonterminals@ == NonTerminal::listing(),
            declared(builder) == vocabulary_upto(i as int, 0),
            productions(builder).len() == 0,
            !faulted(builder),
        decreases nonterminals.len() - i,
    {
        let symbol = nonterminals[i];
        let ghost before = declared(builder);
        builder = declare_nonterminal(builder, symbol.name());
        proof {
            lemma_symbol_named(Symbol::NonTerm(symbol));
            assert(symbol.position() == i);
            assert(!before.contains_key(symbol.name_spec()));
            assert(declared(builder) =~= vocabulary_upto(i + 1, 0));
        }
        i += 1;
    }

    let terminals = Terminal::all();
    let mut i: usize = 0;
    while i < terminals.len()
        invariant
            i <= terminals.len(),
            terminals@ == Terminal::listing(),
            declared(builder) == vocabulary_upto(NonTerminal::listing().len() as int, i as int),
            productions(builder).len() == 0,
            !faulted(builder),
        decreases terminals.len() - i,
    {
        let symbol = terminals[i];
        let ghost before = declared(builder);
        builder = declare_terminal(builder, symbol.name(), symbol);
        proof {
            lemma_symbol_named(Symbol::Term(symbol));
            assert(symbol.position() == i);
            assert(!before.contains_key(symbol.name_spec()));
            assert(declared(builder) =~= vocabulary_upto(
                NonTerminal::listing().len() as int,
                i + 1,
            ));
        }
        i += 1;
    }

    let rules = Rule::all();
    let mut i: usize = 0;
    while i < rules.len()
        invariant
            i <= rules.len(),
            rules@ == Rule::listing(),
            declared(builder) == vocabulary(),
            productions(builder) == Rule::listing().take(i as int).map_values(|rule: Rule| named(rule)),
            !faulted(builder),
        decreases rules.len() - i,
    {
        let rule = rules[i];
        let names = body_names(rule);
        let ghost before = productions(builder);
        proof {
            lemma_in_vocabulary(Symbol::NonTerm(rule.head_spec()));
            assert forall|k: int| 0 <= k < named(rule).1.len() implies vocabulary().contains_key(
                #[trigger] named(rule).1[k],
            ) by {
                lemma_in_vocabulary(rule.body_spec()[k]);
            }
            assert forall|j: int| 0 <= j < before.len() implies before[j] != named(rule) by {
                if before[j] == named(rule) {
                    lemma_rules_distinct(Rule::listing()[j], rule);
                    assert(Rule::listing()[j].position() == j);
                }
            }
            assert(takes(builder, rule.head_spec().name_spec(), named(rule).1));
        }
        builder = add_production(builder, rule.head().name(), &names);
        proof {
            assert(Rule::listing().take(i + 1) =~= Rule::listing().take(i as int).push(rule));
            assert(productions(builder) =~= Rule::listing().take(i + 1).map_values(
                |rule: Rule| named(rule),
            ));
        }
        i += 1;
    }

    proof {
        lemma_in_vocabulary(Symbol::NonTerm(NonTerminal::Start));
        assert(Rule::listing().take(rules.len() as int) =~= Rule::listing());
    }
    match finish(builder, NonTerminal::Start.name()) {
        Some(grammar) => grammar,
        None => unreached(),
    }
}

/// Every symbol is in the vocabulary, under its own class.
pub proof fn lemma_in_vocabulary(symbol: Symbol)
    ensures
        vocabulary().contains_key(symbol.name_spec()),
        vocabulary()[symbol.name_spec()] == class_of(symbol),
{
    lemma_symbol_named(symbol);
}

} // verus!
