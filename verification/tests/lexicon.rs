use fluxcap::lexicon::{ordinal, same_text, word_matches, NonTerminal, Symbol, Terminal};
use fluxcap::{ParseTree, Sequence};

#[test]
fn stopwords_are_whole_words() {
    assert!(Terminal::Today.accepts("today"));
    assert!(!Terminal::Today.accepts("today "));
    assert!(!Terminal::Today.accepts("xtoday"));
    assert!(!Terminal::Today.accepts("todays"));
    assert!(!Terminal::Today.accepts("Today"));
    assert!(!Terminal::Today.accepts(""));
    assert!(Terminal::A.accepts("a"));
    assert!(!Terminal::A.accepts("aa"));
    assert!(!Terminal::A.accepts("ago"));
    assert!(Terminal::Ago.accepts("ago"));
}

#[test]
fn unit_words_take_a_plural() {
    for (terminal, word) in [
        (Terminal::Days, "day"),
        (Terminal::Weeks, "week"),
        (Terminal::Months, "month"),
        (Terminal::Quarters, "quarter"),
        (Terminal::Years, "year"),
        (Terminal::Weekends, "weekend"),
    ] {
        assert!(terminal.accepts(word));
        assert!(terminal.accepts(&format!("{}s", word)));
        assert!(!terminal.accepts(&format!("{}ss", word)));
        assert!(!terminal.accepts(&word[..word.len() - 1]));
    }
    assert!(!Terminal::Days.accepts("weeks"));
}

#[test]
fn of_or_in() {
    assert!(Terminal::OfIn.accepts("of"));
    assert!(Terminal::OfIn.accepts("in"));
    assert!(!Terminal::OfIn.accepts("ofin"));
    assert!(!Terminal::OfIn.accepts("(of|in)"));
    assert!(Terminal::Of.accepts("of"));
    assert!(!Terminal::Of.accepts("in"));
    assert!(Terminal::In.accepts("in"));
}

#[test]
fn every_stopword_takes_its_own_word() {
    for (terminal, word) in [
        (Terminal::Today, "today"),
        (Terminal::Tomorrow, "tomorrow"),
        (Terminal::Yesterday, "yesterday"),
        (Terminal::This, "this"),
        (Terminal::Next, "next"),
        (Terminal::Of, "of"),
        (Terminal::The, "the"),
        (Terminal::Before, "before"),
        (Terminal::After, "after"),
        (Terminal::Last, "last"),
        (Terminal::Until, "until"),
        (Terminal::From, "from"),
        (Terminal::To, "to"),
        (Terminal::And, "and"),
        (Terminal::Between, "between"),
        (Terminal::In, "in"),
        (Terminal::A, "a"),
        (Terminal::Ago, "ago"),
    ] {
        assert!(terminal.accepts(word), "{}", word);
        assert_eq!(terminal.name(), word);
        assert_eq!(terminal.pattern(), Some(format!("^{}$", word).as_str()));
        assert!(!terminal.accepts("monday"), "{}", word);
    }
}

#[test]
fn patterns_match_in_full() {
    assert!(word_matches("^days?$", "day"));
    assert!(word_matches("^days?$", "days"));
    assert!(!word_matches("^days?$", "holidays"));
    assert!(word_matches("day", "holidays"));
    // what is no pattern matches nothing
    assert!(!word_matches("(", "("));
    assert!(!word_matches("^(of|in$", "of"));
}

#[test]
fn numbers() {
    assert!(Terminal::Number.accepts("0"));
    assert!(Terminal::Number.accepts("2"));
    assert!(Terminal::Number.accepts("-7"));
    assert!(Terminal::Number.accepts("+7"));
    assert!(Terminal::Number.accepts("2147483647"));
    assert!(Terminal::Number.accepts("-2147483648"));
    assert!(!Terminal::Number.accepts("2147483648"));
    assert!(!Terminal::Number.accepts("2.5"));
    assert!(!Terminal::Number.accepts("two"));
    assert!(!Terminal::Number.accepts(""));
    assert!(!Terminal::Number.accepts(" 2"));
}

#[test]
fn years_lie_between_1000_and_2100() {
    assert!(!Terminal::Year.accepts("999"));
    assert!(Terminal::Year.accepts("1000"));
    assert!(Terminal::Year.accepts("1984"));
    assert!(Terminal::Year.accepts("2100"));
    assert!(!Terminal::Year.accepts("2101"));
    assert!(!Terminal::Year.accepts("-1984"));
    assert!(!Terminal::Year.accepts("year"));
}

#[test]
fn ordinals() {
    assert_eq!(ordinal("first"), Some(1));
    assert_eq!(ordinal("second"), Some(2));
    assert_eq!(ordinal("third"), Some(3));
    assert_eq!(ordinal("twenty-fourth"), Some(24));
    assert_eq!(ordinal("thirty-first"), Some(31));
    assert_eq!(ordinal("1st"), Some(1));
    assert_eq!(ordinal("2nd"), Some(2));
    assert_eq!(ordinal("3rd"), Some(3));
    assert_eq!(ordinal("4th"), Some(4));
    assert_eq!(ordinal("22nd"), Some(22));
    assert_eq!(ordinal("0th"), Some(0));
    assert_eq!(ordinal("101st"), Some(101));
    assert_eq!(ordinal("5ht"), None);
    assert_eq!(ordinal("th"), None);
    assert_eq!(ordinal("5"), None);
    assert_eq!(ordinal("fortieth"), None);
    assert_eq!(ordinal(""), None);
    // figures, then exactly one of the four endings
    assert_eq!(ordinal("3th"), Some(3));
    assert_eq!(ordinal("007th"), Some(7));
    assert_eq!(ordinal("4294967295th"), Some(4294967295));
    assert_eq!(ordinal("4294967296th"), None);
    assert_eq!(ordinal("+3rd"), None);
    assert_eq!(ordinal("-3rd"), None);
    assert_eq!(ordinal("1st2nd"), None);
    assert_eq!(ordinal("3rdx"), None);
    assert_eq!(ordinal("3 rd"), None);
    assert_eq!(ordinal("3RD"), None);
    assert_eq!(ordinal("\u{663}rd"), None);
    assert_eq!(ordinal("3\u{b2}th"), None);
    assert_eq!(ordinal("st"), None);
    assert!(Terminal::Ordinal.accepts("third"));
    assert!(Terminal::Ordinal.accepts("1st"));
    assert!(Terminal::Ordinal.accepts("31st"));
    assert!(Terminal::Ordinal.accepts("thirty-first"));
    assert!(!Terminal::Ordinal.accepts("32nd"));
    assert!(!Terminal::Ordinal.accepts("40th"));
    assert!(!Terminal::Ordinal.accepts("0th"));
    assert!(!Terminal::Ordinal.accepts("3"));
}

#[test]
fn days_of_the_month_run_from_1_to_31() {
    assert!(!Terminal::DayOfMonth.accepts("0th"));
    assert!(Terminal::DayOfMonth.accepts("1st"));
    assert!(Terminal::DayOfMonth.accepts("first"));
    assert!(Terminal::DayOfMonth.accepts("12th"));
    assert!(Terminal::DayOfMonth.accepts("31st"));
    assert!(Terminal::DayOfMonth.accepts("thirty-first"));
    assert!(!Terminal::DayOfMonth.accepts("32nd"));
    assert!(!Terminal::DayOfMonth.accepts("12"));
}

#[test]
fn weekdays_and_months_by_name() {
    for word in ["sunday", "sundays", "sun", "monday", "mon", "tue", "wednesdays", "thu", "fri", "saturday", "sat"] {
        assert!(Terminal::DayOfWeek.accepts(word), "{}", word);
        assert!(!Terminal::NamedMonth.accepts(word), "{}", word);
    }
    for word in ["january", "jan", "feb", "march", "apr", "may", "jun", "july", "aug", "sep", "october", "nov", "dec"] {
        assert!(Terminal::NamedMonth.accepts(word), "{}", word);
        assert!(!Terminal::DayOfWeek.accepts(word), "{}", word);
    }
    for word in ["", "mo", "Monday", "mond", "sept", "mays", "januarys", "weekend"] {
        assert!(!Terminal::DayOfWeek.accepts(word), "{}", word);
        assert!(!Terminal::NamedMonth.accepts(word), "{}", word);
    }
}

#[test]
fn texts_compare_by_their_characters() {
    assert!(same_text("", ""));
    assert!(same_text("<year>", "<year>"));
    assert!(!same_text("<year>", "<years>"));
    assert!(!same_text("a", "b"));
    assert!(!same_text("a", ""));
}

#[test]
fn names_of_symbols() {
    assert_eq!(Terminal::Days.name(), "days?");
    assert_eq!(Terminal::OfIn.name(), "(of|in)");
    assert_eq!(Terminal::Number.name(), "<number>");
    assert_eq!(Terminal::Ordinal.name(), "<ordinal>");
    assert_eq!(Terminal::DayOfWeek.name(), "<day-of-week>");
    assert_eq!(Terminal::DayOfMonth.name(), "<day-of-month>");
    assert_eq!(Terminal::NamedMonth.name(), "<named-month>");
    assert_eq!(Terminal::Year.name(), "<year>");
    assert_eq!(Terminal::Number.pattern(), None);
    assert_eq!(Terminal::Days.pattern(), Some("^days?$"));
    assert_eq!(NonTerminal::Start.name(), "<S>");
    assert_eq!(NonTerminal::Article.name(), "<the>");
    assert_eq!(NonTerminal::NDuration.name(), "<n-duration>");
    assert_eq!(Symbol::Term(Terminal::The).name(), "the");
    assert_eq!(Symbol::NonTerm(NonTerminal::Article).name(), "<the>");
}

#[test]
fn no_two_symbols_share_a_name() {
    let mut names: Vec<&str> = Terminal::all().iter().map(|t| t.name()).collect();
    names.extend(NonTerminal::all().iter().map(|n| n.name()));
    assert_eq!(names.len(), 41);
    for i in 0..names.len() {
        for j in 0..i {
            assert_ne!(names[i], names[j]);
        }
    }
    assert_eq!(Terminal::all().len(), 31);
    assert_eq!(NonTerminal::all().len(), 10);
}

#[test]
fn spelled_ordinals_as_the_calendar_spells_them() {
    let words = [
        "first", "second", "third", "fourth", "fifth", "sixth", "seventh", "eigth", "ninth", "thenth",
        "eleventh", "twelveth", "thirteenth", "fourteenth", "fifteenth", "sixteenth", "seventeenth",
        "eighteenth", "nineteenth", "twentieth", "twenty-first", "twenty-second", "twenty-third",
        "twenty-fourth", "twenty-fith", "twenty-sixth", "twenty-seventh", "twenty-eigth", "twenty-ninth",
        "thirtieth", "thirty-first",
    ];
    for (i, word) in words.iter().enumerate() {
        assert_eq!(ordinal(word), Some(i as u32 + 1), "{}", word);
        assert!(Terminal::DayOfMonth.accepts(word), "{}", word);
        assert!(Terminal::Ordinal.accepts(word), "{}", word);
    }
    for word in ["eighth", "tenth", "twelfth", "twenty-fifth", "twenty-eighth", "thirty-second", "zeroth", "First"] {
        assert_eq!(ordinal(word), None, "{}", word);
    }
}

#[test]
fn weekdays_count_from_sunday_and_months_from_january() {
    let weekday = |word: &str| {
        if !Terminal::DayOfWeek.accepts(word) {
            return None;
        }
        match fluxcap::eval::seq(&ParseTree::leaf("<day-of-week>", word)) {
            Sequence::Weekday(n) => Some(n),
            other => panic!("{:?}", other),
        }
    };
    let month = |word: &str| {
        if !Terminal::NamedMonth.accepts(word) {
            return None;
        }
        match fluxcap::eval::seq(&ParseTree::leaf("<named-month>", word)) {
            Sequence::Month(n) => Some(n),
            other => panic!("{:?}", other),
        }
    };
    let days = [
        ["sunday", "sundays", "sun"],
        ["monday", "mondays", "mon"],
        ["tuesday", "tuesdays", "tue"],
        ["wednesday", "wednesdays", "wed"],
        ["thursday", "thursdays", "thu"],
        ["friday", "fridays", "fri"],
        ["saturday", "saturdays", "sat"],
    ];
    for (i, names) in days.iter().enumerate() {
        for name in names {
            assert_eq!(weekday(name), Some(i as u32), "{}", name);
            assert_eq!(month(name), None, "{}", name);
        }
    }
    let months = [
        vec!["january", "jan"],
        vec!["february", "feb"],
        vec!["march", "mar"],
        vec!["april", "apr"],
        vec!["may"],
        vec!["june", "jun"],
        vec!["july", "jul"],
        vec!["august", "aug"],
        vec!["september", "sep"],
        vec!["october", "oct"],
        vec!["november", "nov"],
        vec!["december", "dec"],
    ];
    for (i, names) in months.iter().enumerate() {
        for name in names {
            assert_eq!(month(name), Some(i as u32 + 1), "{}", name);
            assert_eq!(weekday(name), None, "{}", name);
        }
    }
    for word in ["", "su", "sunda", "tues", "thur", "thurs", "sept", "june.", "Mon", "marchs"] {
        assert_eq!(weekday(word), None, "{}", word);
        assert_eq!(month(word), None, "{}", word);
    }
}
