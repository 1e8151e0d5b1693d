//! The time machine: from a phrase to its tokens, from the tokens to every derivation
//! that the grammar has for them, and from the one derivation to a range or a count.

use crate::calendar::Instant;
use crate::eval::{if_sure, range_of, resolve_range, resolve_timediff, timediff_of};
use crate::lexicon::{lemma_names_are_plain, plain_word, NonTerminal, Symbol};
use crate::grammar::{build_grammar, lemma_rules_distinct, named, syntax_of, time_syntax, Rule, Syntax};
use crate::report::{Time, Verdict};
use crate::tree::ParseTree;
use vstd::multiset::Multiset;
use vstd::pervasive::unreached;
use vstd::prelude::*;
use vstd::std_specs::iter::IteratorSpec;
use vstd::string::StringExecFns;

verus! {

#[verifier::external_type_specification]
#[verifier::external_body]
pub struct ExEarleyParser(earlgrey::EarleyParser);

#[verifier::external_type_specification]
#[verifier::external_body]
#[verifier::reject_recursive_types(ASTNode)]
pub struct ExEarleyForest<'a, ASTNode: Clone>(earlgrey::EarleyForest<'a, ASTNode>);

/// The grammar that an `earlgrey::EarleyParser` parses by.
pub uninterp spec fn parser_syntax(parser: earlgrey::EarleyParser) -> Syntax;

/// The productions that an `earlgrey::EarleyForest` builds nodes for, each under the
/// signature that it was registered with.
pub uninterp spec fn forest_actions(forest: earlgrey::EarleyForest<'static, ParseTree>) -> Map<Seq<char>, Rule>;

/// The token in the making, if it holds anything.
pub open spec fn flushed(word: Seq<char>) -> Seq<Seq<char>> {
    if word.len() > 0 {
        seq![word]
    } else {
        Seq::empty()
    }
}

/// The tokens of `text`, read on from a token in the making: a delimiter ends the
/// token and, unless delimiters are dropped, is a token of its own.
pub open spec fn cut(text: Seq<char>, delimiters: Seq<char>, drop: bool, word: Seq<char>) -> Seq<Seq<char>>
    decreases text.len(),
{
    if text.len() == 0 {
        flushed(word)
    } else if delimiters.contains(text[0]) {
        flushed(word) + (if drop {
            Seq::empty()
        } else {
            seq![seq![text[0]]]
        }) + cut(text.drop_first(), delimiters, drop, Seq::empty())
    } else {
        cut(text.drop_first(), delimiters, drop, word.push(text[0]))
    }
}

/// The tokens that a text is cut into: what stands between the characters of
/// `delimiters`, empty stretches left out.
pub open spec fn lexemes(text: Seq<char>, delimiters: Seq<char>, drop: bool) -> Seq<Seq<char>> {
    cut(text, delimiters, drop, Seq::empty())
}

/// Every derivation that `earlgrey` finds of `tokens` from the start symbol of a
/// grammar, built into trees by the actions of a forest. The order in which they come
/// is not fixed.
pub uninterp spec fn derivations(syntax: Syntax, actions: Map<Seq<char>, Rule>, tokens: Seq<Seq<char>>) -> Multiset<ParseTree>;

/// The characters of each string.
pub open spec fn texts(strings: Seq<String>) -> Seq<Seq<char>> {
    strings.map_values(|s: String| s@)
}

/// How many delimiters stand on end just before position `k` of a text.
pub open spec fn run_before(text: Seq<char>, delimiters: Seq<char>, k: int) -> nat
    decreases k,
{
    if 0 < k <= text.len() && delimiters.contains(text[k - 1]) {
        1 + run_before(text, delimiters, k - 1)
    } else {
        0
    }
}

/// Whether no more than `limit` delimiters stand on end anywhere in a text.
pub open spec fn runs_within(text: Seq<char>, delimiters: Seq<char>, limit: nat) -> bool {
    forall|k: int| 0 <= k <= text.len() ==> run_before(text, delimiters, k) <= limit
}

/// How many delimiters may stand on end in a phrase. The tokenizer calls itself once
/// for each delimiter in a row, and this many calls fit a small stack.
pub const RUN_LIMIT: usize = 4096;

/// How many words a phrase may have. What the parser builds for a phrase nests as
/// deep as the phrase is long, and so do the calls that take it down again.
pub const WORD_LIMIT: usize = 1024;

/// Whether a phrase is one that the machine takes: one within the limits.
pub open spec fn fits(text: Seq<char>) -> bool {
    runs_within(text, separators(), RUN_LIMIT as nat) && lexemes(text, separators(), true).len() <= WORD_LIMIT
}

/// Whether a character separates the words of a phrase.
pub fn separates(c: char) -> (b: bool)
    ensures
        b == separators().contains(c),
{
    proof {
        reveal_strlit(", ");
        if c == ',' {
            assert(separators()[0] == c);
        }
        if c == ' ' {
            assert(separators()[1] == c);
        }
    }
    c == ',' || c == ' '
}

/// Whether no more separators stand on end in a phrase than the tokenizer takes.
pub fn spaced_within(text: &str) -> (b: bool)
    ensures
        b == runs_within(text@, separators(), RUN_LIMIT as nat),
{
    let mut rest = text.chars();
    let mut run: usize = 0;
    let ghost mut read: int = 0;
    loop
        invariant
            0 <= read <= text@.len(),
            rest.remaining() == text@.skip(read),
            rest.decrease() is Some,
            run == run_before(text@, separators(), read),
            forall|k: int| 0 <= k <= read ==> run_before(text@, separators(), k) <= RUN_LIMIT,
        decreases text@.len() - read,
    {
        match rest.next() {
            Some(c) => {
                assert(c == text@[read]);
                if separates(c) {
                    run += 1;
                    if run > RUN_LIMIT {
                        assert(run_before(text@, separators(), read + 1) > RUN_LIMIT);
                        return false;
                    }
                } else {
                    run = 0;
                }
                proof {
                    assert(text@.skip(read).drop_first() =~= text@.skip(read + 1));
                    read = read + 1;
                }
            },
            None => {
                return true;
            },
        }
    }
}

/// `lexers::DelimTokenizer::from_str`, drawn to its end: the tokens are the stretches
/// between delimiters, in order, and with `drop` unset each delimiter too.
#[verifier::external_body]
fn split(text: &str, delimiters: &str, drop: bool) -> (tokens: Vec<String>)
    requires
        runs_within(text@, delimiters@, RUN_LIMIT as nat),
    ensures
        texts(tokens@) == lexemes(text@, delimiters@, drop),
{
    lexers::DelimTokenizer::from_str(text, delimiters, drop).collect()
}

/// Cuts a phrase into its words, at blanks and commas.
pub fn words(text: &str) -> (tokens: Vec<String>)
    requires
        runs_within(text@, separators(), RUN_LIMIT as nat),
    ensures
        texts(tokens@) == lexemes(text@, separators(), true),
{
    split(text, ", ", true)
}

/// `earlgrey::EarleyParser::new`
#[verifier::external_body]
fn new_parser(grammar: earlgrey::Grammar) -> (parser: earlgrey::EarleyParser)
    ensures
        parser_syntax(parser) == syntax_of(grammar),
{
    earlgrey::EarleyParser::new(grammar)
}

/// `earlgrey::EarleyForest::new`: a forest without actions, whose leaves are made by
/// [`ParseTree::leaf`].
#[verifier::external_body]
fn new_forest() -> (forest: earlgrey::EarleyForest<'static, ParseTree>)
    ensures
        forall|signature: Seq<char>| !forest_actions(forest).contains_key(signature),
{
    earlgrey::EarleyForest::new(|symbol: &str, lexeme: &str| ParseTree::leaf(symbol, lexeme))
}

/// `earlgrey::EarleyForest::action`: under `signature`, the forest builds nodes by
/// [`ParseTree::branch`] for `rule`.
#[verifier::external_body]
fn add_action(forest: &mut earlgrey::EarleyForest<'static, ParseTree>, signature: &str, rule: Rule)
    ensures
        forest_actions(*final(forest)) == forest_actions(*old(forest)).insert(signature@, rule),
{
    forest.action(signature, move |children: Vec<ParseTree>| ParseTree::branch(rule, children))
}

/// The symbols of a body, a blank between each two.
pub open spec fn spaced(body: Seq<Seq<char>>) -> Seq<char>
    decreases body.len(),
{
    if body.len() == 0 {
        Seq::empty()
    } else if body.len() == 1 {
        body[0]
    } else {
        spaced(body.drop_last()) + " "@ + body.last()
    }
}

/// The signature that `earlgrey` knows a production by: `head -> body`.
pub open spec fn signature_text(production: (Seq<char>, Seq<Seq<char>>)) -> Seq<char> {
    production.0 + " -> "@ + spaced(production.1)
}

/// Whether a forest builds, under the signature of a production, the nodes of that
/// production.
pub open spec fn builds(actions: Map<Seq<char>, Rule>, rule: Rule) -> bool {
    actions.contains_key(signature_text(named(rule))) && actions[signature_text(named(rule))] == rule
}

/// Whether a forest builds, under the signature of each production, the nodes of
/// that production.
pub open spec fn faithful(actions: Map<Seq<char>, Rule>) -> bool {
    forall|rule: Rule| #[trigger] builds(actions, rule)
}

/// `earlgrey::EarleyParser::parse`, and `earlgrey::EarleyForest::eval_all` on what it
/// found (a value whose type has no name outside `earlgrey`): every derivation of the
/// tokens, or `None` where there is none. Each tree is a derivation from the start
/// symbol: a node for a production over the trees of its body, and a leaf for a
/// lexeme under the terminal that took it. Stated for the time grammar, whose
/// derivations of any tokens are finitely many, and for a forest that builds for each
/// production the nodes of that production.
#[verifier::external_body]
fn derive(
    parser: &earlgrey::EarleyParser,
    forest: &earlgrey::EarleyForest<'static, ParseTree>,
    tokens: &Vec<String>,
) -> (trees: Option<Vec<ParseTree>>)
    requires
        parser_syntax(*parser) == time_syntax(),
        faithful(forest_actions(*forest)),
        tokens@.len() <= WORD_LIMIT,
    ensures
        trees is None <==> derivations(parser_syntax(*parser), forest_actions(*forest), texts(tokens@)).len() == 0,
        trees matches Some(found) ==> found@.to_multiset() == derivations(
            parser_syntax(*parser),
            forest_actions(*forest),
            texts(tokens@),
        ),
        trees matches Some(found) ==> forall|i: int|
            0 <= i < found.len() ==> (#[trigger] found[i]).derives(Symbol::NonTerm(NonTerminal::Start)),
{
    let found = parser.parse(tokens.iter()).ok()?;
    forest.eval_all(&found).ok()
}

/// The signature of a production, as `earlgrey` spells it.
pub fn signature(rule: Rule) -> (text: String)
    ensures
        text@ == signature_text(named(rule)),
{
    let body = rule.body();
    let mut text = String::from_str(rule.head().name());
    text.append(" -> ");
    let ghost head = text@;
    let mut k: usize = 0;
    while k < body.len()
        invariant
            k <= body.len(),
            body@ == rule.body_spec(),
            text@ == head + spaced(named(rule).1.take(k as int)),
        decreases body.len() - k,
    {
        let ghost before = named(rule).1.take(k as int);
        let ghost after = named(rule).1.take(k + 1);
        proof {
            assert(after.drop_last() =~= before);
            assert(after.last() == body@[k as int].name_spec());
        }
        if k > 0 {
            text.append(" ");
        }
        text.append(body[k].name());
        proof {
            if k == 0 {
                assert(before =~= Seq::<Seq<char>>::empty());
                assert(text@ =~= head + spaced(after));
            } else {
                assert(text@ =~= head + spaced(after));
            }
        }
        k += 1;
    }
    proof {
        assert(named(rule).1.take(body.len() as int) =~= named(rule).1);
        assert(head == rule.head_spec().name_spec() + " -> "@);
        assert(text@ =~= signature_text(named(rule)));
    }
    text
}

/// The actions of the first `n` productions of the listing.
pub open spec fn actions_upto(n: int) -> Map<Seq<char>, Rule>
    decreases n,
{
    if n <= 0 {
        Map::empty()
    } else {
        actions_upto(n - 1).insert(
            signature_text(named(Rule::listing()[n - 1])),
            Rule::listing()[n - 1],
        )
    }
}

/// The actions of the time grammar: one for each production.
pub open spec fn time_actions() -> Map<Seq<char>, Rule> {
    actions_upto(Rule::listing().len() as int)
}

/// Two texts that end in a blank and a word are the same only where the words are
/// the same, and what stands before them.
pub proof fn lemma_last_word(p: Seq<char>, w: Seq<char>, q: Seq<char>, v: Seq<char>)
    requires
        p + " "@ + w == q + " "@ + v,
        plain_word(w),
        plain_word(v),
    ensures
        p == q,
        w == v,
{
    reveal_strlit(" ");
    let s = p + " "@ + w;
    let t = q + " "@ + v;
    assert(s.len() == p.len() + 1 + w.len());
    assert(t.len() == q.len() + 1 + v.len());
    assert(s[p.len() as int] == ' ');
    assert(t[q.len() as int] == ' ');
    if p.len() > q.len() {
        assert(t[p.len() as int] == v[p.len() - q.len() - 1]);
    }
    if q.len() > p.len() {
        assert(s[q.len() as int] == w[q.len() - p.len() - 1]);
    }
    assert forall|i: int| 0 <= i < p.len() implies p[i] == q[i] by {
        assert(s[i] == p[i]);
        assert(t[i] == q[i]);
    }
    assert(p =~= q);
    assert forall|i: int| 0 <= i < w.len() implies w[i] == v[i] by {
        assert(s[p.len() + 1 + i] == w[i]);
        assert(t[q.len() + 1 + i] == v[i]);
    }
    assert(w =~= v);
}

/// Whether each of some words holds a character, and no blank.
pub open spec fn plain_words(words: Seq<Seq<char>>) -> bool {
    forall|i: int| 0 <= i < words.len() ==> plain_word(#[trigger] words[i])
}

/// Words with a blank between each two make a word of their own only where there is
/// one of them, and nothing where there is none.
pub proof fn lemma_spaced_shape(words: Seq<Seq<char>>)
    requires
        plain_words(words),
    ensures
        words.len() == 0 ==> spaced(words).len() == 0,
        words.len() == 1 ==> plain_word(spaced(words)),
        words.len() >= 2 ==> spaced(words).len() > spaced(words.drop_last()).len() && spaced(words)[spaced(
            words.drop_last(),
        ).len() as int] == ' ',
{
    reveal_strlit(" ");
    if words.len() >= 2 {
        assert(plain_word(words.last()));
    } else if words.len() == 1 {
        assert(plain_word(words[0]));
    }
}

/// Words with a blank between each two spell the same only where the words are the
/// same.
pub proof fn lemma_spaced_distinct(x: Seq<Seq<char>>, y: Seq<Seq<char>>)
    requires
        plain_words(x),
        plain_words(y),
        spaced(x) == spaced(y),
    ensures
        x == y,
    decreases x.len(),
{
    lemma_spaced_shape(x);
    lemma_spaced_shape(y);
    if x.len() >= 2 && y.len() >= 2 {
        assert(plain_word(x.last()) && plain_word(y.last()));
        lemma_last_word(spaced(x.drop_last()), x.last(), spaced(y.drop_last()), y.last());
        assert(plain_words(x.drop_last())) by {
            assert forall|i: int| 0 <= i < x.drop_last().len() implies plain_word(#[trigger] x.drop_last()[i]) by {
                assert(x.drop_last()[i] == x[i]);
            }
        }
        assert(plain_words(y.drop_last())) by {
            assert forall|i: int| 0 <= i < y.drop_last().len() implies plain_word(#[trigger] y.drop_last()[i]) by {
                assert(y.drop_last()[i] == y[i]);
            }
        }
        lemma_spaced_distinct(x.drop_last(), y.drop_last());
        assert(x =~= x.drop_last().push(x.last()));
        assert(y =~= y.drop_last().push(y.last()));
    } else if x.len() >= 2 {
        let k = spaced(x.drop_last()).len() as int;
        assert(spaced(x)[k] == ' ');
    } else if y.len() >= 2 {
        let k = spaced(y.drop_last()).len() as int;
        assert(spaced(y)[k] == ' ');
    } else {
        if x.len() == 1 && y.len() == 1 {
            assert(x[0] == y[0]);
        }
        assert(x =~= y);
    }
}

/// No two productions have the same signature.
pub proof fn lemma_signatures_distinct(a: Rule, b: Rule)
    requires
        signature_text(named(a)) == signature_text(named(b)),
    ensures
        a == b,
{
    reveal_strlit(" -> ");
    let s = signature_text(named(a));
    let t = signature_text(named(b));
    let h = named(a).0;
    let g = named(b).0;
    lemma_names_are_plain(Symbol::NonTerm(a.head_spec()));
    lemma_names_are_plain(Symbol::NonTerm(b.head_spec()));
    assert(s.len() == h.len() + 4 + spaced(named(a).1).len());
    assert(t.len() == g.len() + 4 + spaced(named(b).1).len());
    assert(s[h.len() as int] == ' ');
    assert(t[g.len() as int] == ' ');
    if h.len() > g.len() {
        assert(s[g.len() as int] == h[g.len() as int]);
    }
    if g.len() > h.len() {
        assert(t[h.len() as int] == g[h.len() as int]);
    }
    assert forall|i: int| 0 <= i < h.len() implies h[i] == g[i] by {
        assert(s[i] == h[i]);
        assert(t[i] == g[i]);
    }
    assert(h =~= g);
    assert forall|i: int| 0 <= i < spaced(named(a).1).len() implies spaced(named(a).1)[i] == spaced(named(b).1)[i] by {
        assert(s[h.len() + 4 + i] == spaced(named(a).1)[i]);
        assert(t[g.len() + 4 + i] == spaced(named(b).1)[i]);
    }
    assert(spaced(named(a).1) =~= spaced(named(b).1));
    assert forall|k: int| 0 <= k < named(a).1.len() implies plain_word(#[trigger] named(a).1[k]) by {
        lemma_names_are_plain(a.body_spec()[k]);
    }
    assert forall|k: int| 0 <= k < named(b).1.len() implies plain_word(#[trigger] named(b).1[k]) by {
        lemma_names_are_plain(b.body_spec()[k]);
    }
    lemma_spaced_distinct(named(a).1, named(b).1);
    lemma_rules_distinct(a, b);
}

/// The actions of the first `n` productions hold each of them under its signature.
pub proof fn lemma_actions_are_faithful(n: int, j: int)
    requires
        0 <= j < n <= Rule::listing().len(),
    ensures
        actions_upto(n).contains_key(signature_text(named(Rule::listing()[j]))),
        actions_upto(n)[signature_text(named(Rule::listing()[j]))] == Rule::listing()[j],
    decreases n,
{
    if j < n - 1 {
        lemma_actions_are_faithful(n - 1, j);
        if signature_text(named(Rule::listing()[j])) == signature_text(named(Rule::listing()[n - 1])) {
            lemma_signatures_distinct(Rule::listing()[j], Rule::listing()[n - 1]);
        }
    }
}

/// The actions of the time grammar build for each production its own nodes.
pub proof fn lemma_time_actions_are_faithful()
    ensures
        faithful(time_actions()),
{
    assert forall|rule: Rule| #[trigger] builds(time_actions(), rule) by {
        assert(Rule::listing()[rule.position()] == rule);
        lemma_actions_are_faithful(Rule::listing().len() as int, rule.position());
    }
}

/// What is said of a phrase that the grammar does not derive.
pub open spec fn no_parse() -> Seq<char> {
    "parse error"@
}

/// What is said of a phrase that the grammar derives in more ways than one.
pub open spec fn ambiguous() -> Seq<char> {
    "ambiguous parse"@
}

/// What is said of a tree that is no derivation from the start symbol.
pub open spec fn malformed() -> Seq<char> {
    "Bad time expr"@
}

/// The outcome that an evaluation comes to; whether the calendar yields every range
/// that it asks for on the way; and whether it can be told beforehand that it does,
/// and comes to a range or a count.
pub struct Answer {
    pub verdict: Verdict,
    pub defined: bool,
    pub sure: bool,
}

/// What is answered for a tree that is no derivation from the start symbol.
pub open spec fn rejected() -> Answer {
    Answer { verdict: Verdict::Error(malformed()), defined: true, sure: false }
}

/// The outcome for one derivation: the range or the count under the start symbol.
pub open spec fn verdict_of(at: Instant, tree: ParseTree) -> Answer {
    match tree {
        ParseTree::Node { rule: Rule::StartRange, children } => if children.len() == 1 {
            let range = range_of(at, children[0]);
            Answer {
                verdict: match range.value {
                    Some(r) => Verdict::Range(r),
                    None => Verdict::Error(malformed()),
                },
                defined: range.defined,
                sure: if_sure(range) is Some,
            }
        } else {
            rejected()
        },
        ParseTree::Node { rule: Rule::StartTimediff, children } => if children.len() == 1 {
            let count = timediff_of(at, children[0]);
            Answer {
                verdict: match count.value {
                    Some(n) => Verdict::Count(n),
                    None => Verdict::Error(malformed()),
                },
                defined: count.defined,
                sure: if_sure(count) is Some,
            }
        } else {
            rejected()
        },
        _ => rejected(),
    }
}

/// The outcome for all the derivations of a phrase: an error unless there is exactly
/// one; with two or more, none is chosen.
pub open spec fn outcome(at: Instant, trees: Multiset<ParseTree>) -> Answer {
    if trees.len() == 0 {
        Answer { verdict: Verdict::Error(no_parse()), defined: true, sure: true }
    } else if trees.len() > 1 {
        Answer { verdict: Verdict::Error(ambiguous()), defined: true, sure: true }
    } else {
        verdict_of(at, trees.choose())
    }
}

/// The characters that separate the words of a phrase.
pub open spec fn separators() -> Seq<char> {
    ", "@
}

/// Every derivation that the time grammar has of a phrase.
pub open spec fn readings(text: Seq<char>) -> Multiset<ParseTree> {
    derivations(time_syntax(), time_actions(), lexemes(text, separators(), true))
}

/// What a phrase evaluates to at an instant.
pub open spec fn evaluation(at: Instant, text: Seq<char>) -> Answer {
    outcome(at, readings(text))
}

/// A parser for time expressions, with the forest that builds its trees.
pub struct TimeMachine {
    parser: earlgrey::EarleyParser,
    forest: earlgrey::EarleyForest<'static, ParseTree>,
}

impl TimeMachine {
    /// The machine parses by the time grammar and has an action for each production.
    pub closed spec fn ready(&self) -> bool {
        &&& parser_syntax(self.parser) == time_syntax()
        &&& forest_actions(self.forest) == time_actions()
    }

    /// A machine for the grammar of time expressions.
    pub fn new() -> (machine: TimeMachine)
        ensures
            machine.ready(),
    {
        let parser = new_parser(build_grammar());
        let mut forest = new_forest();
        assert(forest_actions(forest) =~= actions_upto(0));
        let rules = Rule::all();
        let mut i: usize = 0;
        while i < rules.len()
            invariant
                i <= rules.len(),
                rules@ == Rule::listing(),
                forest_actions(forest) == actions_upto(i as int),
            decreases rules.len() - i,
        {
            let text = signature(rules[i]);
            add_action(&mut forest, text.as_str(), rules[i]);
            i += 1;
        }
        TimeMachine { parser, forest }
    }

    /// Every derivation of the words of a phrase.
    fn derivations_of(&self, tokens: &Vec<String>) -> (trees: Option<Vec<ParseTree>>)
        requires
            self.ready(),
            tokens@.len() <= WORD_LIMIT,
        ensures
            trees is None <==> derivations(time_syntax(), time_actions(), texts(tokens@)).len() == 0,
            trees matches Some(found) ==> found@.to_multiset() == derivations(
                time_syntax(),
                time_actions(),
                texts(tokens@),
            ),
            trees matches Some(found) ==> found.len() > 0 && forall|i: int|
                0 <= i < found.len() ==> (#[trigger] found[i]).derives(Symbol::NonTerm(NonTerminal::Start)),
            trees matches Some(found) ==> found.len() == derivations(
                time_syntax(),
                time_actions(),
                texts(tokens@),
            ).len(),
    {
        proof {
            lemma_time_actions_are_faithful();
        }
        let trees = derive(&self.parser, &self.forest, tokens);
        proof {
            if trees is Some {
                trees->0@.to_multiset_ensures();
            }
        }
        trees
    }

    /// Every derivation of a phrase that the grammar derives: each one a node under
    /// the start symbol.
    pub fn parse(&self, text: &str) -> (trees: Vec<ParseTree>)
        requires
            self.ready(),
            fits(text@),
            readings(text@).len() > 0,
        ensures
            trees@.to_multiset() == readings(text@),
            trees.len() > 0,
            forall|i: int|
                0 <= i < trees.len() ==> (#[trigger] trees[i]).derives(Symbol::NonTerm(NonTerminal::Start)),
    {
        let tokens = words(text);
        match self.derivations_of(&tokens) {
            Some(trees) => trees,
            None => unreached(),
        }
    }

    /// Every derivation of a phrase, as [`TimeMachine::parse`] finds them; `None` for
    /// a phrase that the grammar does not derive, or one beyond the limits.
    pub fn try_parse(&self, text: &str) -> (trees: Option<Vec<ParseTree>>)
        requires
            self.ready(),
        ensures
            trees is Some <==> fits(text@) && readings(text@).len() > 0,
            trees matches Some(found) ==> found@.to_multiset() == readings(text@) && found.len() > 0,
            trees matches Some(found) ==> forall|i: int|
                0 <= i < found.len() ==> (#[trigger] found[i]).derives(Symbol::NonTerm(NonTerminal::Start)),
    {
        if !spaced_within(text) {
            return None;
        }
        let tokens = words(text);
        if tokens.len() > WORD_LIMIT {
            return None;
        }
        self.derivations_of(&tokens)
    }

    /// Evaluates a phrase at an instant: tokenizes, parses, and resolves the one
    /// derivation, if there is exactly one. The outcome is an error exactly where
    /// there is no derivation, or more than one.
    pub fn eval(&self, t0: Instant, text: &str) -> (time: Time)
        requires
            self.ready(),
            fits(text@),
            t0.in_window(),
            evaluation(t0, text@).defined,
        ensures
            time@ == evaluation(t0, text@).verdict,
            time is Error <==> readings(text@).len() != 1,
            time matches Time::Range(range) ==> range.valid(),
    {
        let tokens = words(text);
        match self.derivations_of(&tokens) {
            Some(trees) => match judge(t0, &trees, false) {
                Some(time) => time,
                None => unreached(),
            },
            None => Time::Error(String::from_str("parse error")),
        }
    }

    /// Evaluates a phrase at an instant, as [`TimeMachine::eval`] does, where it is
    /// sure of the outcome: for a phrase that the grammar does not derive, or derives
    /// in more ways than one; and for a phrase of which it can be told beforehand that
    /// the calendar yields what it asks for, at an instant of the years 1 to 9999.
    /// Otherwise, and for a phrase beyond the limits, `None`.
    pub fn try_eval(&self, t0: Instant, text: &str) -> (time: Option<Time>)
        requires
            self.ready(),
        ensures
            time is Some <==> t0.in_window() && fits(text@) && evaluation(t0, text@).sure,
            time matches Some(t) ==> t@ == evaluation(t0, text@).verdict,
            time is Some ==> evaluation(t0, text@).defined,
            time matches Some(Time::Range(range)) ==> range.valid(),
    {
        if Instant::new(t0.secs, t0.nanos).is_none() || !spaced_within(text) {
            return None;
        }
        let tokens = words(text);
        if tokens.len() > WORD_LIMIT {
            return None;
        }
        match self.derivations_of(&tokens) {
            Some(trees) => judge(t0, &trees, true),
            None => Some(Time::Error(String::from_str("parse error"))),
        }
    }
}

/// The outcome for the derivations of a phrase that has some: an error where there
/// are more than one, else what the one resolves to; with `check`, only where it can
/// be told beforehand that the calendar answers.
fn judge(t0: Instant, trees: &Vec<ParseTree>, check: bool) -> (time: Option<Time>)
    requires
        t0.in_window(),
        trees.len() > 0,
        forall|i: int| 0 <= i < trees.len() ==> (#[trigger] trees[i]).derives(Symbol::NonTerm(NonTerminal::Start)),
        !check ==> outcome(t0, trees@.to_multiset()).defined,
    ensures
        time is Some <==> !check || outcome(t0, trees@.to_multiset()).sure,
        time matches Some(t) ==> t@ == outcome(t0, trees@.to_multiset()).verdict,
        time matches Some(t) ==> (t is Error <==> trees.len() != 1),
        time is Some ==> outcome(t0, trees@.to_multiset()).defined,
        time matches Some(Time::Range(range)) ==> range.valid(),
{
    proof {
        trees@.to_multiset_ensures();
    }
    if trees.len() > 1 {
        Some(Time::Error(String::from_str("ambiguous parse")))
    } else {
        proof {
            lemma_sole_element(trees@);
        }
        resolve(t0, &trees[0], check)
    }
}

/// Where a multiset is that of a sequence of one element, that element is the one
/// that it holds.
pub proof fn lemma_sole_element(trees: Seq<ParseTree>)
    requires
        trees.len() == 1,
    ensures
        trees.to_multiset().len() == 1,
        trees.to_multiset().choose() == trees[0],
{
    trees.to_multiset_ensures();
    let chosen = trees.to_multiset().choose();
    assert(trees.to_multiset().count(chosen) > 0);
    assert(trees.contains(chosen));
}

/// Resolves one derivation from the start symbol to a range or a count; with `check`,
/// only where it can be told beforehand that the calendar answers.
fn resolve(t0: Instant, tree: &ParseTree, check: bool) -> (time: Option<Time>)
    requires
        t0.in_window(),
        tree.derives(Symbol::NonTerm(NonTerminal::Start)),
        !check ==> verdict_of(t0, *tree).defined,
    ensures
        time is Some <==> !check || verdict_of(t0, *tree).sure,
        time matches Some(t) ==> t@ == verdict_of(t0, *tree).verdict && !(t is Error),
        time is Some ==> verdict_of(t0, *tree).defined,
        time matches Some(Time::Range(range)) ==> range.valid(),
{
    match tree {
        ParseTree::Node { rule: Rule::StartRange, children } => {
            assert(children[0].derives(Rule::StartRange.body_spec()[0]));
            match resolve_range(t0, &children[0], check) {
                Some(range) => Some(Time::Range(range)),
                None => None,
            }
        },
        ParseTree::Node { rule: Rule::StartTimediff, children } => {
            assert(children[0].derives(Rule::StartTimediff.body_spec()[0]));
            match resolve_timediff(t0, &children[0], check) {
                Some(count) => Some(Time::Count(count)),
                None => None,
            }
        },
        _ => unreached(),
    }
}

/// Resolves one derivation from the start symbol to a range or a count.
pub fn verdict(t0: Instant, tree: &ParseTree) -> (time: Time)
    requires
        t0.in_window(),
        tree.derives(Symbol::NonTerm(NonTerminal::Start)),
        verdict_of(t0, *tree).defined,
    ensures
        time@ == verdict_of(t0, *tree).verdict,
        !(time is Error),
        time matches Time::Range(range) ==> range.valid(),
{
    match resolve(t0, tree, false) {
        Some(time) => time,
        None => unreached(),
    }
}

/// Resolves one derivation from the start symbol to a range or a count, where it can
/// be told beforehand that the calendar yields what the resolution asks of it.
pub fn verdict_if_sure(t0: Instant, tree: &ParseTree) -> (time: Option<Time>)
    requires
        t0.in_window(),
        tree.derives(Symbol::NonTerm(NonTerminal::Start)),
    ensures
        time is Some <==> verdict_of(t0, *tree).sure,
        time matches Some(t) ==> t@ == verdict_of(t0, *tree).verdict && !(t is Error),
        time is Some ==> verdict_of(t0, *tree).defined,
        time matches Some(Time::Range(range)) ==> range.valid(),
{
    resolve(t0, tree, true)
}

} // verus!
