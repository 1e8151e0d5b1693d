//! The symbols of the phrase grammar, and the classifiers that tell which lexemes a
//! terminal takes.

use vstd::prelude::*;

verus! {

/// A terminal symbol: a stopword, matched as an exact-word pattern, or one of six
/// lexical classes.
#[derive(Clone, Copy, Debug, PartialEq, Eq, Structural)]
pub enum Terminal {
    Today,
    Tomorrow,
    Yesterday,
    Days,
    Weeks,
    Months,
    Quarters,
    Years,
    Weekends,
    This,
    Next,
    Of,
    The,
    OfIn,
    Before,
    After,
    Last,
    Until,
    From,
    To,
    And,
    Between,
    In,
    A,
    Ago,
    Number,
    Ordinal,
    DayOfWeek,
    DayOfMonth,
    NamedMonth,
    Year,
}

/// A nonterminal symbol.
#[derive(Clone, Copy, Debug, PartialEq, Eq, Structural)]
pub enum NonTerminal {
    Start,
    Article,
    NamedSeq,
    Duration,
    Cycle,
    Range,
    Nth,
    Intersect,
    NDuration,
    Timediff,
}

/// Either kind of symbol, as it stands in a production's body.
#[derive(Clone, Copy, Debug, PartialEq, Eq, Structural)]
pub enum Symbol {
    Term(Terminal),
    NonTerm(NonTerminal),
}

/// What `regex::Regex::new` makes of a pattern: whether it compiles.
pub uninterp spec fn is_pattern(pattern: Seq<char>) -> bool;

/// The pattern that a compiled `regex::Regex` was made from.
pub uninterp spec fn pattern_of(rx: regex::Regex) -> Seq<char>;

/// What `regex::Regex::is_match` answers for a compiled pattern and a haystack.
pub uninterp spec fn pattern_matches(pattern: Seq<char>, text: Seq<char>) -> bool;

/// The figure that a character is, if it is one of the ten.
pub open spec fn figure_value(c: char) -> Option<int> {
    if '0' <= c <= '9' {
        Some(c as int - '0' as int)
    } else {
        None
    }
}

/// The number that decimal figures spell; `None` for no figures, or for anything
/// else among them.
pub open spec fn figures_value(text: Seq<char>) -> Option<int>
    decreases text.len(),
{
    if text.len() == 0 {
        None
    } else if text.len() == 1 {
        figure_value(text[0])
    } else {
        match (figures_value(text.drop_last()), figure_value(text.last())) {
            (Some(tens), Some(unit)) => Some(10 * tens + unit),
            _ => None,
        }
    }
}

/// The integer that a text spells: decimal figures, with a `+` or a `-` before them
/// or with neither.
pub open spec fn integer_value(text: Seq<char>) -> Option<int> {
    if text.len() > 0 && text[0] == '-' {
        match figures_value(text.drop_first()) {
            Some(n) => Some(-n),
            None => None,
        }
    } else if text.len() > 0 && text[0] == '+' {
        figures_value(text.drop_first())
    } else {
        figures_value(text)
    }
}

/// The integer that a lexeme spells, where a signed number of 32 bits holds it.
pub open spec fn parsed_i32(text: Seq<char>) -> Option<i32> {
    match integer_value(text) {
        Some(n) => if i32::MIN <= n <= i32::MAX {
            Some(n as i32)
        } else {
            None
        },
        None => None,
    }
}

/// The number of the weekday that a word names, counted from Sunday as 0: the full
/// name, its plural, or its first three letters.
pub open spec fn weekday_number(word: Seq<char>) -> Option<u32> {
    if word == "sunday"@ || word == "sundays"@ || word == "sun"@ {
        Some(0)
    } else if word == "monday"@ || word == "mondays"@ || word == "mon"@ {
        Some(1)
    } else if word == "tuesday"@ || word == "tuesdays"@ || word == "tue"@ {
        Some(2)
    } else if word == "wednesday"@ || word == "wednesdays"@ || word == "wed"@ {
        Some(3)
    } else if word == "thursday"@ || word == "thursdays"@ || word == "thu"@ {
        Some(4)
    } else if word == "friday"@ || word == "fridays"@ || word == "fri"@ {
        Some(5)
    } else if word == "saturday"@ || word == "saturdays"@ || word == "sat"@ {
        Some(6)
    } else {
        None
    }
}

/// The number of the month that a word names, counted from January as 1: the full
/// name or its first three letters.
pub open spec fn month_number(word: Seq<char>) -> Option<u32> {
    if word == "january"@ || word == "jan"@ {
        Some(1)
    } else if word == "february"@ || word == "feb"@ {
        Some(2)
    } else if word == "march"@ || word == "mar"@ {
        Some(3)
    } else if word == "april"@ || word == "apr"@ {
        Some(4)
    } else if word == "may"@ {
        Some(5)
    } else if word == "june"@ || word == "jun"@ {
        Some(6)
    } else if word == "july"@ || word == "jul"@ {
        Some(7)
    } else if word == "august"@ || word == "aug"@ {
        Some(8)
    } else if word == "september"@ || word == "sep"@ {
        Some(9)
    } else if word == "october"@ || word == "oct"@ {
        Some(10)
    } else if word == "november"@ || word == "nov"@ {
        Some(11)
    } else if word == "december"@ || word == "dec"@ {
        Some(12)
    } else {
        None
    }
}

/// The number of a spelled-out ordinal, from "first" to "thirty-first", in the
/// spellings that the calendar knows them by.
pub open spec fn ordinal_number(word: Seq<char>) -> Option<u32> {
    if word == "first"@ {
        Some(1)
    } else if word == "second"@ {
        Some(2)
    } else if word == "third"@ {
        Some(3)
    } else if word == "fourth"@ {
        Some(4)
    } else if word == "fifth"@ {
        Some(5)
    } else if word == "sixth"@ {
        Some(6)
    } else if word == "seventh"@ {
        Some(7)
    } else if word == "eigth"@ {
        Some(8)
    } else if word == "ninth"@ {
        Some(9)
    } else if word == "thenth"@ {
        Some(10)
    } else if word == "eleventh"@ {
        Some(11)
    } else if word == "twelveth"@ {
        Some(12)
    } else if word == "thirteenth"@ {
        Some(13)
    } else if word == "fourteenth"@ {
        Some(14)
    } else if word == "fifteenth"@ {
        Some(15)
    } else if word == "sixteenth"@ {
        Some(16)
    } else if word == "seventeenth"@ {
        Some(17)
    } else if word == "eighteenth"@ {
        Some(18)
    } else if word == "nineteenth"@ {
        Some(19)
    } else if word == "twentieth"@ {
        Some(20)
    } else if word == "twenty-first"@ {
        Some(21)
    } else if word == "twenty-second"@ {
        Some(22)
    } else if word == "twenty-third"@ {
        Some(23)
    } else if word == "twenty-fourth"@ {
        Some(24)
    } else if word == "twenty-fith"@ {
        Some(25)
    } else if word == "twenty-sixth"@ {
        Some(26)
    } else if word == "twenty-seventh"@ {
        Some(27)
    } else if word == "twenty-eigth"@ {
        Some(28)
    } else if word == "twenty-ninth"@ {
        Some(29)
    } else if word == "thirtieth"@ {
        Some(30)
    } else if word == "thirty-first"@ {
        Some(31)
    } else {
        None
    }
}

/// Whether two characters are the ending of an abbreviated ordinal.
pub open spec fn ordinal_ending(ending: Seq<char>) -> bool {
    ending == "st"@ || ending == "nd"@ || ending == "rd"@ || ending == "th"@
}

/// The number that an abbreviated ordinal stands for: decimal figures that spell a
/// number of 32 bits without a sign, and then `st`, `nd`, `rd` or `th`, whichever the
/// number; `None` for any other word.
pub open spec fn short_ordinal_number(word: Seq<char>) -> Option<u32> {
    if word.len() >= 2 && ordinal_ending(word.subrange(word.len() - 2, word.len() as int)) {
        match figures_value(word.subrange(0, word.len() - 2)) {
            Some(n) => if n <= u32::MAX {
                Some(n as u32)
            } else {
                None
            },
            None => None,
        }
    } else {
        None
    }
}

/// The number an ordinal lexeme stands for: spelled out ("third") first, else
/// abbreviated ("3rd").
pub open spec fn ordinal_value(word: Seq<char>) -> Option<u32> {
    match ordinal_number(word) {
        Some(n) => Some(n),
        None => short_ordinal_number(word),
    }
}

/// Whether `pattern` is a pattern and `text` matches it. The patterns of the stopwords
/// are anchored at both ends, so that they match whole words only.
pub open spec fn spells(pattern: Seq<char>, text: Seq<char>) -> bool {
    is_pattern(pattern) && pattern_matches(pattern, text)
}

#[verifier::external_type_specification]
#[verifier::external_body]
pub struct ExRegex(regex::Regex);

/// `regex::Regex::new`: compiles `pattern`, or reports that it is no pattern. The
/// compiled value remembers what it was made from.
#[verifier::external_body]
fn compile(pattern: &str) -> (rx: Option<regex::Regex>)
    ensures
        rx is Some <==> is_pattern(pattern@),
        rx matches Some(r) ==> pattern_of(r) == pattern@,
{
    regex::Regex::new(pattern).ok()
}

/// `regex::Regex::is_match`: the answer depends on the pattern and the haystack alone.
#[verifier::external_body]
fn is_match(rx: &regex::Regex, text: &str) -> (b: bool)
    ensures
        b == pattern_matches(pattern_of(*rx), text@),
{
    rx.is_match(text)
}

/// `str::parse::<i32>`, with the error dropped: an optional sign and decimal figures,
/// and nothing else, for a number that the type holds.
#[verifier::external_body]
pub(crate) fn parse_i32(text: &str) -> (n: Option<i32>)
    ensures
        n == parsed_i32(text@),
{
    text.parse::<i32>().ok()
}

/// `kronos::constants::weekday`: a table of twenty-one names.
#[verifier::external_body]
pub(crate) fn weekday(word: &str) -> (n: Option<u32>)
    ensures
        n == weekday_number(word@),
{
    kronos::constants::weekday(word)
}

/// `kronos::constants::month`: a table of twenty-three names.
#[verifier::external_body]
pub(crate) fn month(word: &str) -> (n: Option<u32>)
    ensures
        n == month_number(word@),
{
    kronos::constants::month(word)
}

/// `kronos::constants::ordinal`: a table of thirty-one words, each with its place.
#[verifier::external_body]
fn spelled_ordinal(word: &str) -> (n: Option<u32>)
    ensures
        n == ordinal_number(word@),
{
    kronos::constants::ordinal(word)
}

/// `kronos::constants::short_ordinal`: the number of an abbreviated ordinal. It reads
/// the figures at the start of the word, asks that one of the four endings is all
/// that follows, and has the figures read as a number without a sign.
#[verifier::external_body]
fn short_ordinal(word: &str) -> (n: Option<u32>)
    ensures
        n == short_ordinal_number(word@),
{
    kronos::constants::short_ordinal(word)
}

/// The number an ordinal lexeme stands for, if it is one.
pub fn ordinal(word: &str) -> (n: Option<u32>)
    ensures
        n == ordinal_value(word@),
{
    match spelled_ordinal(word) {
        Some(n) => Some(n),
        None => short_ordinal(word),
    }
}

/// Whether `text` matches `pattern`; what is no pattern matches nothing.
pub fn word_matches(pattern: &str, text: &str) -> (b: bool)
    ensures
        b == spells(pattern@, text@),
{
    match compile(pattern) {
        Some(rx) => is_match(&rx, text),
        None => false,
    }
}

/// Whether two strings hold the same characters.
pub fn same_text(a: &str, b: &str) -> (r: bool)
    ensures
        r == (a@ == b@),
{
    a.to_owned() == b.to_owned()
}

impl Terminal {
    /// The name under which the grammar knows the terminal.
    pub open spec fn name_spec(self) -> Seq<char> {
        match self {
            Terminal::Today => "today"@,
            Terminal::Tomorrow => "tomorrow"@,
            Terminal::Yesterday => "yesterday"@,
            Terminal::Days => "days?"@,
            Terminal::Weeks => "weeks?"@,
            Terminal::Months => "months?"@,
            Terminal::Quarters => "quarters?"@,
            Terminal::Years => "years?"@,
            Terminal::Weekends => "weekends?"@,
            Terminal::This => "this"@,
            Terminal::Next => "next"@,
            Terminal::Of => "of"@,
            Terminal::The => "the"@,
            Terminal::OfIn => "(of|in)"@,
            Terminal::Before => "before"@,
            Terminal::After => "after"@,
            Terminal::Last => "last"@,
            Terminal::Until => "until"@,
            Terminal::From => "from"@,
            Terminal::To => "to"@,
            Terminal::And => "and"@,
            Terminal::Between => "between"@,
            Terminal::In => "in"@,
            Terminal::A => "a"@,
            Terminal::Ago => "ago"@,
            Terminal::Number => "<number>"@,
            Terminal::Ordinal => "<ordinal>"@,
            Terminal::DayOfWeek => "<day-of-week>"@,
            Terminal::DayOfMonth => "<day-of-month>"@,
            Terminal::NamedMonth => "<named-month>"@,
            Terminal::Year => "<year>"@,
        }
    }

    pub fn name(self) -> (r: &'static str)
        ensures
            r@ == self.name_spec(),
    {
        match self {
            Terminal::Today => "today",
            Terminal::Tomorrow => "tomorrow",
            Terminal::Yesterday => "yesterday",
            Terminal::Days => "days?",
            Terminal::Weeks => "weeks?",
            Terminal::Months => "months?",
            Terminal::Quarters => "quarters?",
            Terminal::Years => "years?",
            Terminal::Weekends => "weekends?",
            Terminal::This => "this",
            Terminal::Next => "next",
            Terminal::Of => "of",
            Terminal::The => "the",
            Terminal::OfIn => "(of|in)",
            Terminal::Before => "before",
            Terminal::After => "after",
            Terminal::Last => "last",
            Terminal::Until => "until",
            Terminal::From => "from",
            Terminal::To => "to",
            Terminal::And => "and",
            Terminal::Between => "between",
            Terminal::In => "in",
            Terminal::A => "a",
            Terminal::Ago => "ago",
            Terminal::Number => "<number>",
            Terminal::Ordinal => "<ordinal>",
            Terminal::DayOfWeek => "<day-of-week>",
            Terminal::DayOfMonth => "<day-of-month>",
            Terminal::NamedMonth => "<named-month>",
            Terminal::Year => "<year>",
        }
    }

    /// For a stopword, the anchored pattern that a lexeme must match; `None` for the
    /// lexical classes.
    pub open spec fn pattern_spec(self) -> Option<Seq<char>> {
        match self {
            Terminal::Today => Some("^today$"@),
            Terminal::Tomorrow => Some("^tomorrow$"@),
            Terminal::Yesterday => Some("^yesterday$"@),
            Terminal::Days => Some("^days?$"@),
            Terminal::Weeks => Some("^weeks?$"@),
            Terminal::Months => Some("^months?$"@),
            Terminal::Quarters => Some("^quarters?$"@),
            Terminal::Years => Some("^years?$"@),
            Terminal::Weekends => Some("^weekends?$"@),
            Terminal::This => Some("^this$"@),
            Terminal::Next => Some("^next$"@),
            Terminal::Of => Some("^of$"@),
            Terminal::The => Some("^the$"@),
            Terminal::OfIn => Some("^(of|in)$"@),
            Terminal::Before => Some("^before$"@),
            Terminal::After => Some("^after$"@),
            Terminal::Last => Some("^last$"@),
            Terminal::Until => Some("^until$"@),
            Terminal::From => Some("^from$"@),
            Terminal::To => Some("^to$"@),
            Terminal::And => Some("^and$"@),
            Terminal::Between => Some("^between$"@),
            Terminal::In => Some("^in$"@),
            Terminal::A => Some("^a$"@),
            Terminal::Ago => Some("^ago$"@),
            _ => None,
        }
    }

    pub fn pattern(self) -> (r: Option<&'static str>)
        ensures
            match r {
                Some(p) => self.pattern_spec() == Some(p@),
                None => self.pattern_spec() is None,
            },
    {
        match self {
            Terminal::Today => Some("^today$"),
            Terminal::Tomorrow => Some("^tomorrow$"),
            Terminal::Yesterday => Some("^yesterday$"),
            Terminal::Days => Some("^days?$"),
            Terminal::Weeks => Some("^weeks?$"),
            Terminal::Months => Some("^months?$"),
            Terminal::Quarters => Some("^quarters?$"),
            Terminal::Years => Some("^years?$"),
            Terminal::Weekends => Some("^weekends?$"),
            Terminal::This => Some("^this$"),
            Terminal::Next => Some("^next$"),
            Terminal::Of => Some("^of$"),
            Terminal::The => Some("^the$"),
            Terminal::OfIn => Some("^(of|in)$"),
            Terminal::Before => Some("^before$"),
            Terminal::After => Some("^after$"),
            Terminal::Last => Some("^last$"),
            Terminal::Until => Some("^until$"),
            Terminal::From => Some("^from$"),
            Terminal::To => Some("^to$"),
            Terminal::And => Some("^and$"),
            Terminal::Between => Some("^between$"),
            Terminal::In => Some("^in$"),
            Terminal::A => Some("^a$"),
            Terminal::Ago => Some("^ago$"),
            _ => None,
        }
    }

    /// The lexemes that the terminal takes.
    pub open spec fn admits(self, lexeme: Seq<char>) -> bool {
        match self {
            Terminal::Number => parsed_i32(lexeme) is Some,
            Terminal::Ordinal => ordinal_value(lexeme) matches Some(n) && 0 < n < 32,
            Terminal::DayOfWeek => weekday_number(lexeme) is Some,
            Terminal::DayOfMonth => ordinal_value(lexeme) matches Some(day) && 0 < day < 32,
            Terminal::NamedMonth => month_number(lexeme) is Some,
            Terminal::Year => parsed_i32(lexeme) matches Some(year) && 999 < year < 2101,
            _ => self.pattern_spec() matches Some(pattern) && spells(pattern, lexeme),
        }
    }

    /// Classifies a raw lexeme: does this terminal take it?
    pub fn accepts(self, lexeme: &str) -> (b: bool)
        ensures
            b == self.admits(lexeme@),
    {
        match self {
            Terminal::Number => parse_i32(lexeme).is_some(),
            Terminal::Ordinal => match ordinal(lexeme) {
                Some(n) => 0 < n && n < 32,
                None => false,
            },
            Terminal::DayOfWeek => weekday(lexeme).is_some(),
            Terminal::DayOfMonth => match ordinal(lexeme) {
                Some(day) => 0 < day && day < 32,
                None => false,
            },
            Terminal::NamedMonth => month(lexeme).is_some(),
            Terminal::Year => match parse_i32(lexeme) {
                Some(year) => 999 < year && year < 2101,
                None => false,
            },
            _ => match self.pattern() {
                Some(pattern) => word_matches(pattern, lexeme),
                None => false,
            },
        }
    }

    /// Every terminal, the stopwords first.
    pub open spec fn listing() -> Seq<Terminal> {
        seq![
            Terminal::Today,
            Terminal::Tomorrow,
            Terminal::Yesterday,
            Terminal::Days,
            Terminal::Weeks,
            Terminal::Months,
            Terminal::Quarters,
            Terminal::Years,
            Terminal::Weekends,
            Terminal::This,
            Terminal::Next,
            Terminal::Of,
            Terminal::The,
            Terminal::OfIn,
            Terminal::Before,
            Terminal::After,
            Terminal::Last,
            Terminal::Until,
            Terminal::From,
            Terminal::To,
            Terminal::And,
            Terminal::Between,
            Terminal::In,
            Terminal::A,
            Terminal::Ago,
            Terminal::Number,
            Terminal::Ordinal,
            Terminal::DayOfWeek,
            Terminal::DayOfMonth,
            Terminal::NamedMonth,
            Terminal::Year,
        ]
    }

    /// Where the terminal stands in [`Terminal::listing`].
    pub open spec fn position(self) -> int {
        match self {
            Terminal::Today => 0,
            Terminal::Tomorrow => 1,
            Terminal::Yesterday => 2,
            Terminal::Days => 3,
            Terminal::Weeks => 4,
            Terminal::Months => 5,
            Terminal::Quarters => 6,
            Terminal::Years => 7,
            Terminal::Weekends => 8,
            Terminal::This => 9,
            Terminal::Next => 10,
            Terminal::Of => 11,
            Terminal::The => 12,
            Terminal::OfIn => 13,
            Terminal::Before => 14,
            Terminal::After => 15,
            Terminal::Last => 16,
            Terminal::Until => 17,
            Terminal::From => 18,
            Terminal::To => 19,
            Terminal::And => 20,
            Terminal::Between => 21,
            Terminal::In => 22,
            Terminal::A => 23,
            Terminal::Ago => 24,
            Terminal::Number => 25,
            Terminal::Ordinal => 26,
            Terminal::DayOfWeek => 27,
            Terminal::DayOfMonth => 28,
            Terminal::NamedMonth => 29,
            Terminal::Year => 30,
        }
    }

    pub fn all() -> (r: Vec<Terminal>)
        ensures
            r@ == Terminal::listing(),
    {
        let r = vec![
            Terminal::Today,
            Terminal::Tomorrow,
            Terminal::Yesterday,
            Terminal::Days,
            Terminal::Weeks,
            Terminal::Months,
            Terminal::Quarters,
            Terminal::Years,
            Terminal::Weekends,
            Terminal::This,
            Terminal::Next,
            Terminal::Of,
            Terminal::The,
            Terminal::OfIn,
            Terminal::Before,
            Terminal::After,
            Terminal::Last,
            Terminal::Until,
            Terminal::From,
            Terminal::To,
            Terminal::And,
            Terminal::Between,
            Terminal::In,
            Terminal::A,
            Terminal::Ago,
            Terminal::Number,
            Terminal::Ordinal,
            Terminal::DayOfWeek,
            Terminal::DayOfMonth,
            Terminal::NamedMonth,
            Terminal::Year,
        ];
        assert(r@ =~= Terminal::listing());
        r
    }
}

impl NonTerminal {
    /// The name under which the grammar knows the nonterminal.
    pub open spec fn name_spec(self) -> Seq<char> {
        match self {
            NonTerminal::Start => "<S>"@,
            NonTerminal::Article => "<the>"@,
            NonTerminal::NamedSeq => "<named-seq>"@,
            NonTerminal::Duration => "<duration>"@,
            NonTerminal::Cycle => "<cycle>"@,
            NonTerminal::Range => "<range>"@,
            NonTerminal::Nth => "<nth>"@,
            NonTerminal::Intersect => "<intersect>"@,
            NonTerminal::NDuration => "<n-duration>"@,
            NonTerminal::Timediff => "<timediff>"@,
        }
    }

    pub fn name(self) -> (r: &'static str)
        ensures
            r@ == self.name_spec(),
    {
        match self {
            NonTerminal::Start => "<S>",
            NonTerminal::Article => "<the>",
            NonTerminal::NamedSeq => "<named-seq>",
            NonTerminal::Duration => "<duration>",
            NonTerminal::Cycle => "<cycle>",
            NonTerminal::Range => "<range>",
            NonTerminal::Nth => "<nth>",
            NonTerminal::Intersect => "<intersect>",
            NonTerminal::NDuration => "<n-duration>",
            NonTerminal::Timediff => "<timediff>",
        }
    }

    /// Every nonterminal.
    pub open spec fn listing() -> Seq<NonTerminal> {
        seq![
            NonTerminal::Start,
            NonTerminal::Article,
            NonTerminal::NamedSeq,
            NonTerminal::Duration,
            NonTerminal::Cycle,
            NonTerminal::Range,
            NonTerminal::Nth,
            NonTerminal::Intersect,
            NonTerminal::NDuration,
            NonTerminal::Timediff,
        ]
    }

    /// Where the nonterminal stands in [`NonTerminal::listing`].
    pub open spec fn position(self) -> int {
        match self {
            NonTerminal::Start => 0,
            NonTerminal::Article => 1,
            NonTerminal::NamedSeq => 2,
            NonTerminal::Duration => 3,
            NonTerminal::Cycle => 4,
            NonTerminal::Range => 5,
            NonTerminal::Nth => 6,
            NonTerminal::Intersect => 7,
            NonTerminal::NDuration => 8,
            NonTerminal::Timediff => 9,
        }
    }

    pub fn all() -> (r: Vec<NonTerminal>)
        ensures
            r@ == NonTerminal::listing(),
    {
        let r = vec![
            NonTerminal::Start,
            NonTerminal::Article,
            NonTerminal::NamedSeq,
            NonTerminal::Duration,
            NonTerminal::Cycle,
            NonTerminal::Range,
            NonTerminal::Nth,
            NonTerminal::Intersect,
            NonTerminal::NDuration,
            NonTerminal::Timediff,
        ];
        assert(r@ =~= NonTerminal::listing());
        r
    }
}

impl Symbol {
    pub open spec fn name_spec(self) -> Seq<char> {
        match self {
            Symbol::Term(t) => t.name_spec(),
            Symbol::NonTerm(n) => n.name_spec(),
        }
    }

    pub fn name(self) -> (r: &'static str)
        ensures
            r@ == self.name_spec(),
    {
        match self {
            Symbol::Term(t) => t.name(),
            Symbol::NonTerm(n) => n.name(),
        }
    }
}

/// A word that starts with a figure is no spelled ordinal: an abbreviated ordinal
/// stands for what its figures say.
pub proof fn lemma_figures_are_not_spelled(word: Seq<char>)
    requires
        word.len() > 0,
        figure_value(word[0]) is Some,
    ensures
        ordinal_number(word) is None,
        ordinal_value(word) == short_ordinal_number(word),
{
    reveal_strlit("first");
    reveal_strlit("second");
    reveal_strlit("third");
    reveal_strlit("fourth");
    reveal_strlit("fifth");
    reveal_strlit("sixth");
    reveal_strlit("seventh");
    reveal_strlit("eigth");
    reveal_strlit("ninth");
    reveal_strlit("thenth");
    reveal_strlit("eleventh");
    reveal_strlit("twelveth");
    reveal_strlit("thirteenth");
    reveal_strlit("fourteenth");
    reveal_strlit("fifteenth");
    reveal_strlit("sixteenth");
    reveal_strlit("seventeenth");
    reveal_strlit("eighteenth");
    reveal_strlit("nineteenth");
    reveal_strlit("twentieth");
    reveal_strlit("twenty-first");
    reveal_strlit("twenty-second");
    reveal_strlit("twenty-third");
    reveal_strlit("twenty-fourth");
    reveal_strlit("twenty-fith");
    reveal_strlit("twenty-sixth");
    reveal_strlit("twenty-seventh");
    reveal_strlit("twenty-eigth");
    reveal_strlit("twenty-ninth");
    reveal_strlit("thirtieth");
    reveal_strlit("thirty-first");
}

/// Whether a word holds a character, and no blank.
pub open spec fn plain_word(word: Seq<char>) -> bool {
    word.len() > 0 && forall|i: int| 0 <= i < word.len() ==> word[i] != ' '
}

/// The name of a symbol is one word.
pub proof fn lemma_names_are_plain(symbol: Symbol)
    ensures
        plain_word(symbol.name_spec()),
{
    reveal_strlit("today");
    reveal_strlit("tomorrow");
    reveal_strlit("yesterday");
    reveal_strlit("days?");
    reveal_strlit("weeks?");
    reveal_strlit("months?");
    reveal_strlit("quarters?");
    reveal_strlit("years?");
    reveal_strlit("weekends?");
    reveal_strlit("this");
    reveal_strlit("next");
    reveal_strlit("of");
    reveal_strlit("the");
    reveal_strlit("(of|in)");
    reveal_strlit("before");
    reveal_strlit("after");
    reveal_strlit("last");
    reveal_strlit("until");
    reveal_strlit("from");
    reveal_strlit("to");
    reveal_strlit("and");
    reveal_strlit("between");
    reveal_strlit("in");
    reveal_strlit("a");
    reveal_strlit("ago");
    reveal_strlit("<number>");
    reveal_strlit("<ordinal>");
    reveal_strlit("<day-of-week>");
    reveal_strlit("<day-of-month>");
    reveal_strlit("<named-month>");
    reveal_strlit("<year>");
    reveal_strlit("<S>");
    reveal_strlit("<the>");
    reveal_strlit("<named-seq>");
    reveal_strlit("<duration>");
    reveal_strlit("<cycle>");
    reveal_strlit("<range>");
    reveal_strlit("<nth>");
    reveal_strlit("<intersect>");
    reveal_strlit("<n-duration>");
    reveal_strlit("<timediff>");
}

/// No two symbols share a name.
pub proof fn lemma_names_distinct(a: Symbol, b: Symbol)
    requires
        a.name_spec() == b.name_spec(),
    ensures
        a == b,
{
    reveal_strlit("today");
    reveal_strlit("tomorrow");
    reveal_strlit("yesterday");
    reveal_strlit("days?");
    reveal_strlit("weeks?");
    reveal_strlit("months?");
    reveal_strlit("quarters?");
    reveal_strlit("years?");
    reveal_strlit("weekends?");
    reveal_strlit("this");
    reveal_strlit("next");
    reveal_strlit("of");
    reveal_strlit("the");
    reveal_strlit("(of|in)");
    reveal_strlit("before");
    reveal_strlit("after");
    reveal_strlit("last");
    reveal_strlit("until");
    reveal_strlit("from");
    reveal_strlit("to");
    reveal_strlit("and");
    reveal_strlit("between");
    reveal_strlit("in");
    reveal_strlit("a");
    reveal_strlit("ago");
    reveal_strlit("<number>");
    reveal_strlit("<ordinal>");
    reveal_strlit("<day-of-week>");
    reveal_strlit("<day-of-month>");
    reveal_strlit("<named-month>");
    reveal_strlit("<year>");
    reveal_strlit("<S>");
    reveal_strlit("<the>");
    reveal_strlit("<named-seq>");
    reveal_strlit("<duration>");
    reveal_strlit("<cycle>");
    reveal_strlit("<range>");
    reveal_strlit("<nth>");
    reveal_strlit("<intersect>");
    reveal_strlit("<n-duration>");
    reveal_strlit("<timediff>");
    let n = a.name_spec();
    assert(n.len() == b.name_spec().len());
    assert(n[0] == b.name_spec()[0]);
    assert(n.len() > 1 ==> n[1] == b.name_spec()[1]);
    assert(n.len() > 2 ==> n[2] == b.name_spec()[2]);
    assert(n.len() > 3 ==> n[3] == b.name_spec()[3]);
    assert(n.len() > 4 ==> n[4] == b.name_spec()[4]);
}

} // verus!
