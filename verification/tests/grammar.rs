use fluxcap::build_grammar;
use fluxcap::grammar::Rule;
use fluxcap::lexicon::{NonTerminal, Symbol, Terminal};
use fluxcap::machine::signature;

#[test]
fn the_grammar_holds_every_production_once() {
    let grammar = build_grammar();
    assert_eq!(grammar.start, "<S>");
    assert_eq!(grammar.rules.len(), 41);
    let rules = Rule::all();
    assert_eq!(rules.len(), 41);
    for (taken, rule) in grammar.rules.iter().zip(rules.iter()) {
        assert_eq!(taken.head, rule.head().name());
        let body: Vec<&str> = taken.spec.iter().map(|s| s.name()).collect();
        let expected: Vec<&str> = rule.body().iter().map(|s| s.name()).collect();
        assert_eq!(body, expected);
        for (symbol, expected) in taken.spec.iter().zip(rule.body().iter()) {
            assert_eq!(symbol.is_terminal(), matches!(expected, Symbol::Term(_)));
        }
    }
}

#[test]
fn building_twice_gives_the_same_grammar() {
    let first = build_grammar();
    let second = build_grammar();
    assert_eq!(first.start, second.start);
    assert_eq!(format!("{:?}", first), format!("{:?}", second));
}

#[test]
fn signatures_are_spelled_as_the_parser_spells_them() {
    let grammar = build_grammar();
    for (taken, rule) in grammar.rules.iter().zip(Rule::all().iter()) {
        assert_eq!(taken.to_string(), signature(*rule));
    }
    assert_eq!(signature(Rule::ArticleAbsent), "<the> -> ");
    assert_eq!(signature(Rule::ArticleThe), "<the> -> the");
    assert_eq!(signature(Rule::Today), "<range> -> today");
    assert_eq!(signature(Rule::NthOrdinal), "<nth> -> <the> <ordinal> <cycle> (of|in)");
    assert_eq!(signature(Rule::Between), "<timediff> -> <cycle> between <range> and <range>");
    assert_eq!(signature(Rule::StartTimediff), "<S> -> <timediff>");
}

#[test]
fn terminals_of_the_grammar_classify_as_the_lexicon_does() {
    let grammar = build_grammar();
    let words = ["today", "monday", "march", "12th", "third", "2", "1984", "days", "week", "the", "of", "in", "x"];
    for taken in grammar.rules.iter() {
        for symbol in taken.spec.iter().filter(|s| s.is_terminal()) {
            let terminal = Terminal::all().into_iter().find(|t| t.name() == symbol.name()).unwrap();
            for word in words {
                assert_eq!(symbol.matches(word), terminal.accepts(word), "{} {}", symbol.name(), word);
            }
        }
    }
}

#[test]
fn productions() {
    assert_eq!(Rule::ArticleAbsent.head(), NonTerminal::Article);
    assert_eq!(Rule::ArticleAbsent.body(), vec![]);
    assert_eq!(Rule::Today.head(), NonTerminal::Range);
    assert_eq!(Rule::Today.body(), vec![Symbol::Term(Terminal::Today)]);
    assert_eq!(Rule::StartRange.head(), NonTerminal::Start);
    assert_eq!(Rule::StartRange.body(), vec![Symbol::NonTerm(NonTerminal::Range)]);
    assert_eq!(
        Rule::CycleAfterNext.body(),
        vec![
            Symbol::NonTerm(NonTerminal::Article),
            Symbol::NonTerm(NonTerminal::Cycle),
            Symbol::Term(Terminal::After),
            Symbol::Term(Terminal::Next),
        ]
    );
    assert_eq!(
        Rule::FromTo.body(),
        vec![
            Symbol::NonTerm(NonTerminal::Cycle),
            Symbol::Term(Terminal::From),
            Symbol::NonTerm(NonTerminal::Range),
            Symbol::Term(Terminal::To),
            Symbol::NonTerm(NonTerminal::Range),
        ]
    );
}

#[test]
fn only_the_article_may_be_empty() {
    for rule in Rule::all() {
        if rule.body().is_empty() {
            assert_eq!(rule, Rule::ArticleAbsent);
        }
    }
}

#[test]
fn a_cycle_after_next_has_no_counterpart_before_last() {
    for rule in Rule::all() {
        let body = rule.body();
        assert!(!body.contains(&Symbol::Term(Terminal::Yesterday)));
        if body.contains(&Symbol::Term(Terminal::Last)) {
            assert_eq!(rule, Rule::NthLast);
        }
    }
}
