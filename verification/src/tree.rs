//! Parse trees: what one derivation of a phrase looks like.

use crate::grammar::Rule;
use crate::lexicon::{same_text, Symbol};
use vstd::prelude::*;

verus! {

/// One derivation, or a part of one: a scanned lexeme under the terminal that took it,
/// or a production with the subtrees of its body, in order.
#[derive(Debug, PartialEq, Eq)]
pub enum ParseTree {
    Leaf { symbol: String, lexeme: String },
    Node { rule: Rule, children: Vec<ParseTree> },
}

impl ParseTree {
    /// The leaf for a lexeme that the terminal named `symbol` took.
    pub fn leaf(symbol: &str, lexeme: &str) -> (tree: ParseTree)
        ensures
            tree matches ParseTree::Leaf { symbol: s, lexeme: l } && s@ == symbol@ && l@ == lexeme@,
    {
        ParseTree::Leaf { symbol: symbol.to_owned(), lexeme: lexeme.to_owned() }
    }

    /// The node for a production over the subtrees of its body.
    pub fn branch(rule: Rule, children: Vec<ParseTree>) -> (tree: ParseTree)
        ensures
            tree == (ParseTree::Node { rule, children }),
    {
        ParseTree::Node { rule, children }
    }

    /// Whether the tree is a derivation from `symbol`: a lexeme that the terminal
    /// takes, under its name; or a production of the nonterminal over derivations from
    /// the symbols of its body, in order.
    pub open spec fn derives(self, symbol: Symbol) -> bool
        decreases self,
    {
        match self {
            ParseTree::Leaf { symbol: name, lexeme } => {
                &&& symbol matches Symbol::Term(terminal)
                &&& name@ == terminal.name_spec()
                &&& terminal.admits(lexeme@)
            },
            ParseTree::Node { rule, children } => {
                &&& symbol == Symbol::NonTerm(rule.head_spec())
                &&& children.len() == rule.body_spec().len()
                &&& forall|i: int|
                    0 <= i < children.len() ==> (#[trigger] children[i]).derives(rule.body_spec()[i])
            },
        }
    }

    /// Checks that the tree is a derivation from `symbol`.
    pub fn is_derivation(&self, symbol: Symbol) -> (b: bool)
        ensures
            b == self.derives(symbol),
        decreases self,
    {
        match self {
            ParseTree::Leaf { symbol: name, lexeme } => match symbol {
                Symbol::Term(terminal) => same_text(name.as_str(), terminal.name()) && terminal.accepts(
                    lexeme.as_str(),
                ),
                Symbol::NonTerm(_) => false,
            },
            ParseTree::Node { rule, children } => {
                let body = rule.body();
                match symbol {
                    Symbol::NonTerm(head) => {
                        if head != rule.head() || children.len() != body.len() {
                            return false;
                        }
                    },
                    Symbol::Term(_) => {
                        return false;
                    },
                }
                let mut i: usize = 0;
                while i < children.len()
                    invariant
                        i <= children.len(),
                        children.len() == body.len(),
                        body@ == rule.body_spec(),
                        *self == (ParseTree::Node { rule: *rule, children: *children }),
                        forall|j: int| 0 <= j < i ==> (#[trigger] children[j]).derives(body[j]),
                    decreases children.len() - i,
                {
                    assert(decreases_to!(*self => self->children));
                    if !children[i].is_derivation(body[i]) {
                        return false;
                    }
                    i += 1;
                }
                true
            },
        }
    }

    /// Whether two trees spell the same derivation: the same productions over the
    /// same lexemes.
    pub open spec fn mirrors(self, other: ParseTree) -> bool
        decreases self,
    {
        match self {
            ParseTree::Leaf { symbol, lexeme } => {
                &&& other matches ParseTree::Leaf { symbol: s, lexeme: l }
                &&& s@ == symbol@
                &&& l@ == lexeme@
            },
            ParseTree::Node { rule, children } => {
                &&& other matches ParseTree::Node { rule: r, children: c }
                &&& r == rule
                &&& c.len() == children.len()
                &&& forall|i: int| 0 <= i < children.len() ==> (#[trigger] children[i]).mirrors(c[i])
            },
        }
    }

    /// A tree that spells the same derivation.
    pub fn duplicate(&self) -> (tree: ParseTree)
        ensures
            self.mirrors(tree),
        decreases self,
    {
        match self {
            ParseTree::Leaf { symbol, lexeme } => ParseTree::Leaf {
                symbol: symbol.clone(),
                lexeme: lexeme.clone(),
            },
            ParseTree::Node { rule, children } => {
                let mut copies: Vec<ParseTree> = Vec::new();
                let mut i: usize = 0;
                while i < children.len()
                    invariant
                        i <= children.len(),
                        copies.len() == i,
                        forall|j: int| 0 <= j < i ==> (#[trigger] children[j]).mirrors(copies[j]),
                        *self == (ParseTree::Node { rule: *rule, children: *children }),
                    decreases children.len() - i,
                {
                    assert(decreases_to!(*self => self->children));
                    let copy = children[i].duplicate();
                    copies.push(copy);
                    i += 1;
                }
                ParseTree::Node { rule: *rule, children: copies }
            },
        }
    }
}

impl Clone for ParseTree {
    fn clone(&self) -> (tree: ParseTree)
        ensures
            self.mirrors(tree),
    {
        self.duplicate()
    }
}

} // verus!
