use brdgme_game::command::parser::{
    comma_list, comma_list_and, comma_list_or, Chain2, Doc, Enum, Int, Many, MapValue, OneOf, Opt, Output,
    Parser, Token,
};
use brdgme_game::command::Spec;
use brdgme_game::error::ParseError;

#[test]
fn int_parser_works() {
    let mut parser = Int { min: None, max: None };
    parser.parse("fart").expect_err("expected 'fart' to produce an error");
    assert_eq!(
        Output { value: 10, consumed: "10", remaining: "" },
        parser.parse("10").expect("expected '10' to parse")
    );
    assert_eq!(
        Output { value: 10, consumed: "10", remaining: " with bacon and cheese" },
        parser
            .parse("10 with bacon and cheese")
            .expect("expected '10 with bacon and cheese' to parse")
    );
    assert_eq!(
        Output { value: -10, consumed: "-10", remaining: " with bacon and cheese" },
        parser
            .parse("-10 with bacon and cheese")
            .expect("expected '-10 with bacon and cheese' to parse")
    );
    parser.parse("-").expect_err("expected '-' to produce an error");
    parser.min = Some(-5);
    parser
        .parse("-6")
        .expect_err("expected '-6' to produce an error when minimum is set");
    parser.max = Some(100);
    parser
        .parse("101")
        .expect_err("expected '101' to produce an error when maximum is set");
}

#[test]
fn map_parser_works() {
    let parser = MapValue::new(Int { min: None, max: None }, |i: i32| i.to_string());
    assert_eq!(
        Output { value: "123".to_string(), consumed: "00123", remaining: "bacon" },
        parser.parse("00123bacon").expect("expected '00123bacon' to parse")
    )
}

#[test]
fn chain2_parser_works() {
    let parser = Chain2::new(Int { min: None, max: None }, Int { min: None, max: None });
    assert_eq!(
        Output { value: (123, 456), consumed: "123 456", remaining: "  chairs" },
        parser.parse("123 456  chairs").expect("expected '123 456  chairs' to parse")
    )
}

#[test]
fn opt_parser_works() {
    let parser = Opt::new(Int { min: None, max: None });
    assert_eq!(
        Output { value: Some(123), consumed: "00123", remaining: "bacon" },
        parser.parse("00123bacon").expect("expected '00123bacon' to parse")
    );
    assert_eq!(
        Output { value: None, consumed: "", remaining: "bacon" },
        parser.parse("bacon").expect("expected 'bacon' to parse")
    );
}

#[test]
fn token_parser_works() {
    let parser = Token::new("blah");
    assert_eq!(
        Output { value: "blah".to_string(), consumed: "BlAh", remaining: "bacon" },
        parser.parse("BlAhbacon").expect("expected 'BlAhbacon' to parse")
    );
    parser
        .parse("ClAhbacon")
        .expect_err("expected 'ClAhbacon' to produce an error");
}

#[test]
fn many_parser_works() {
    let mut parser = Many::any(Int { min: None, max: None });
    assert_eq!(
        Output { value: vec![3, 4, 5], consumed: "3, 4, 5", remaining: "" },
        parser.parse("3, 4, 5").expect("expected '3, 4, 5' to parse")
    );
    parser.min = Some(5);
    parser
        .parse("3, 4, 5")
        .expect_err("expected '3, 4, 5' with a min of 5 to produce an error");
    parser.max = Some(5);
    assert_eq!(
        Output { value: vec![3, 4, 5, 6, 7], consumed: "3, 4, 5, 6, 7", remaining: ", 8, 9, 10" },
        parser
            .parse("3, 4, 5, 6, 7, 8, 9, 10")
            .expect("expected '3, 4, 5, 6, 7, 8, 9, 10' to parse")
    );
    parser.min = None;
    parser.delim = ";".to_string();
    assert_eq!(
        Output { value: vec![3, 4, 5], consumed: "3; 4; 5", remaining: "" },
        parser.parse("3; 4; 5").expect("expected '3; 4; 5' to parse")
    );
}

#[test]
fn test_one_of_works() {
    let parsers: Vec<Box<dyn Parser<String>>> = vec![
        Box::new(Token::new("blah")),
        Box::new(MapValue::new(Many::any(Token::new("fart")), |v: Vec<String>| v.join(" "))),
    ];
    let parser = OneOf::new(parsers);
    assert_eq!(
        Output { value: "blah".to_string(), consumed: "blah", remaining: "" },
        parser.parse("blah").expect("expected 'blah' to parse")
    );
    assert_eq!(
        Output { value: "fart fart fart".to_string(), consumed: "fart, fart, fart", remaining: "" },
        parser.parse("fart, fart, fart").expect("expected 'fart, fart, fart' to parse")
    );
}

#[test]
fn test_enum_works() {
    let parser = Enum::partial(vec!["fart", "cheese", "dog", "bacon", "farty"]);
    assert_eq!(
        Output { value: "cheese", consumed: "c", remaining: "" },
        parser.parse("c").expect("expected 'c' to parse")
    );
    parser.parse("hat").expect_err("expected 'hat' to produce error");
    parser.parse("far").expect_err("expected 'far' to produce error");
    assert_eq!(
        Output { value: "fart", consumed: "fart", remaining: "" },
        parser.parse("fart").expect("expected 'fart' to parse")
    );
    assert_eq!(
        Output { value: "farty", consumed: "farty", remaining: "" },
        parser.parse("farty").expect("expected 'farty' to parse")
    );
    assert_eq!(
        Output { value: "dog", consumed: "DoG", remaining: "" },
        parser.parse("DoG").expect("expected 'DoG' to parse")
    );
}

#[test]
fn int_reads_leading_zeros_and_stops_at_non_digit() {
    let parser = Int::any();
    assert_eq!(
        Output { value: 42, consumed: "000042", remaining: "x1" },
        parser.parse("000042x1").unwrap()
    );
    assert_eq!(Output { value: 0, consumed: "0", remaining: "" }, parser.parse("0").unwrap());
    assert_eq!(
        Output { value: 2147483647, consumed: "2147483647", remaining: "" },
        parser.parse("2147483647").unwrap()
    );
    assert_eq!(
        Output { value: -2147483648, consumed: "-2147483648", remaining: "" },
        parser.parse("-2147483648").unwrap()
    );
}

#[test]
fn int_overflow_is_an_error() {
    let err = Int::any().parse("2147483648").unwrap_err();
    assert_eq!(
        err,
        ParseError {
            message: Some("failed to parse '2147483648'".to_string()),
            expected: vec!["number".to_string()],
            offset: 0,
        }
    );
}

#[test]
fn int_bounds_are_inclusive() {
    let parser = Int::bounded(3, 7);
    assert!(parser.parse("2").is_err());
    assert_eq!(parser.parse("3").unwrap().value, 3);
    assert_eq!(parser.parse("7").unwrap().value, 7);
    let err = parser.parse("8").unwrap_err();
    assert_eq!(err.message, Some("8 is too high".to_string()));
    assert_eq!(err.expected, vec!["number between 3 and 7".to_string()]);
    let err = parser.parse("2").unwrap_err();
    assert_eq!(err.message, Some("2 is too low".to_string()));
}

#[test]
fn int_expected_phrases() {
    assert_eq!(Int::any().expected(), vec!["number".to_string()]);
    assert_eq!(Int::positive().expected(), vec!["number 1 or higher".to_string()]);
    assert_eq!(Int::not_negative().expected(), vec!["number 0 or higher".to_string()]);
    assert_eq!(Int { min: None, max: Some(-4) }.expected(), vec!["number -4 or lower".to_string()]);
    assert_eq!(Int::bounded(-2, 9).expected(), vec!["number between -2 and 9".to_string()]);
}

#[test]
fn int_without_digits_fails_without_message() {
    let err = Int::any().parse("-x").unwrap_err();
    assert_eq!(err.message, None);
    assert_eq!(err.offset, 0);
}

#[test]
fn token_needs_whole_literal() {
    let parser = Token::new("blah");
    let err = parser.parse("bla").unwrap_err();
    assert_eq!(err, ParseError { message: None, expected: vec!["blah".to_string()], offset: 0 });
    assert_eq!(parser.parse("BLAH").unwrap().consumed, "BLAH");
}

#[test]
fn token_is_unicode_case_insensitive() {
    let parser = Token::new("straße");
    let out = parser.parse("STRAẞE!").unwrap();
    assert_eq!(out.consumed, "STRAẞE");
    assert_eq!(out.remaining, "!");
}

#[test]
fn chain2_requires_whitespace_between_non_empty_parts() {
    let parser = Chain2::new(Token::new("a"), Int::any());
    let err = parser.parse("a5").unwrap_err();
    assert_eq!(err, ParseError { message: None, expected: vec!["whitespace".to_string()], offset: 1 });
    assert_eq!(parser.parse("a \t5").unwrap().consumed, "a \t5");
}

#[test]
fn chain2_needs_no_whitespace_next_to_an_empty_part() {
    let parser = Chain2::new(Opt::new(Token::new("x")), Int::any());
    let out = parser.parse("12 z").unwrap();
    assert_eq!(out.value, (None, 12));
    assert_eq!(out.consumed, "12");
    let parser = Chain2::new(Int::any(), Opt::new(Token::new("x")));
    let out = parser.parse("12y").unwrap();
    assert_eq!(out.value, (12, None));
    assert_eq!(out.consumed, "12");
}

#[test]
fn chain2_shifts_offsets_of_second_failure() {
    let parser = Chain2::new(Token::new("buy"), Int::bounded(1, 3));
    let err = parser.parse("buy  9").unwrap_err();
    assert_eq!(err.offset, 5);
    assert_eq!(err.message, Some("9 is too high".to_string()));
}

#[test]
fn many_allows_whitespace_around_delimiter() {
    let parser = Many::any(Int::any());
    let out = parser.parse("1 ,2\t,  3 rest").unwrap();
    assert_eq!(out.value, vec![1, 2, 3]);
    assert_eq!(out.consumed, "1 ,2\t,  3");
    assert_eq!(out.remaining, " rest");
}

#[test]
fn many_of_nothing_is_empty() {
    let parser = Many::any(Int::any());
    assert_eq!(Output { value: vec![], consumed: "", remaining: "x" }, parser.parse("x").unwrap());
    let parser = Many::bounded(Int::any(), 2, 0);
    assert_eq!(Output { value: vec![], consumed: "", remaining: "1,2" }, parser.parse("1,2").unwrap());
    let parser = Many::bounded(Int::any(), 3, 2);
    assert_eq!(parser.parse("1,2").unwrap().value, Vec::<i32>::new());
}

#[test]
fn many_below_min_reports_count() {
    let parser = Many::some(Int::any());
    let err = parser.parse("none").unwrap_err();
    assert_eq!(
        err.message,
        Some("expected at least 1 items but could only parse 0".to_string())
    );
    assert_eq!(err.expected, vec!["1 or more number".to_string()]);
}

#[test]
fn many_expected_phrases() {
    assert_eq!(Many::any(Token::new("a")).expected(), vec!["any number of a".to_string()]);
    assert_eq!(Many::bounded(Token::new("a"), 2, 4).expected(), vec!["between 2 and 4 a".to_string()]);
    let mut m = Many::any(Token::new("a"));
    m.max = Some(3);
    assert_eq!(m.expected(), vec!["up to 3 a".to_string()]);
}

#[test]
fn many_round_trip_with_random_spacing() {
    let values = [7, 0, 123, 45, 9];
    let spacing = ["", " ", "  ", "\t", " \t "];
    let mut text = String::new();
    for (i, v) in values.iter().enumerate() {
        if i > 0 {
            text.push_str(spacing[i % spacing.len()]);
            text.push(',');
            text.push_str(spacing[(i * 3) % spacing.len()]);
        }
        text.push_str(&v.to_string());
    }
    let out = Many::any(Int::any()).parse(&text).unwrap();
    assert_eq!(out.value, values.to_vec());
    assert_eq!(out.consumed, text.as_str());
    assert_eq!(out.remaining, "");
}

#[test]
fn opt_expected_and_spec() {
    let parser = Opt::new(Token::new("go"));
    assert_eq!(parser.expected(), vec!["optional go".to_string()]);
    assert_eq!(parser.to_spec(), Spec::Opt(Box::new(Spec::Token("go".to_string()))));
}

#[test]
fn one_of_reports_the_furthest_failures() {
    let parsers: Vec<Box<dyn Parser<(String, i32)>>> = vec![
        Box::new(Chain2::new(Token::new("buy"), Int::bounded(1, 3))),
        Box::new(Chain2::new(Token::new("sell"), Int::bounded(1, 3))),
        Box::new(Chain2::new(Token::new("bu"), Int::any())),
    ];
    let parser = OneOf::new(parsers);
    let err = parser.parse("buy 5").unwrap_err();
    assert_eq!(err.offset, 4);
    assert_eq!(err.message, Some("5 is too high".to_string()));
    assert_eq!(err.expected, vec!["number between 1 and 3".to_string()]);
    let err = parser.parse("zap").unwrap_err();
    assert_eq!(err.offset, 0);
    assert_eq!(err.message, None);
    assert_eq!(
        err.expected,
        vec!["buy".to_string(), "sell".to_string(), "bu".to_string()]
    );
}

#[test]
fn one_of_lists_distinct_messages() {
    let parsers: Vec<Box<dyn Parser<i32>>> = vec![
        Box::new(Int::bounded(1, 3)),
        Box::new(Int::bounded(0, 4)),
        Box::new(Int::bounded(1, 3)),
    ];
    let err = OneOf::new(parsers).parse("9").unwrap_err();
    assert_eq!(err.message, Some("9 is too high".to_string()));
    assert_eq!(err.expected.len(), 3);
}

#[test]
fn enum_ambiguity_names_candidates() {
    let parser = Enum::partial(vec!["fart", "cheese", "dog", "bacon", "farty"]);
    let err = parser.parse("far").unwrap_err();
    assert_eq!(
        err.message,
        Some("matched fart and farty, more input is required to uniquely match one".to_string())
    );
    assert_eq!(err.expected.len(), 5);
    let err = parser.parse("hat").unwrap_err();
    assert_eq!(err.message, None);
}

#[test]
fn enum_prefers_exact_match_in_any_order() {
    let parser = Enum::partial(vec!["farty".to_string(), "fart".to_string()]);
    let out = parser.parse("fart").unwrap();
    assert_eq!(out.value, "fart".to_string());
    let out = parser.parse("FART now").unwrap();
    assert_eq!(out.value, "fart".to_string());
    assert_eq!(out.consumed, "FART");
    assert_eq!(out.remaining, " now");
}

#[test]
fn enum_exact_needs_whole_value() {
    let parser = Enum::exact(vec!["red", "green"]);
    assert!(parser.parse("gr").is_err());
    assert_eq!(parser.parse("green").unwrap().value, "green");
}

#[test]
fn enum_ignores_duplicates() {
    let parser = Enum::partial(vec!["dog", "dog", "cat"]);
    assert_eq!(parser.parse("d").unwrap().value, "dog");
}

#[test]
fn doc_keeps_parsing_and_describes() {
    let parser = Doc::name_desc("count", "how many", Int::positive());
    assert_eq!(parser.parse("4").unwrap().value, 4);
    assert_eq!(
        parser.to_spec(),
        Spec::Doc {
            name: "count".to_string(),
            desc: Some("how many".to_string()),
            spec: Box::new(Spec::Int { min: Some(1), max: None }),
        }
    );
    let parser = Doc::name("n", Int::any());
    assert_eq!(parser.expected(), vec!["number".to_string()]);
}

#[test]
fn specs_mirror_parsers() {
    let parser = Chain2::new(
        Token::new("play"),
        Many::bounded(Enum::exact(vec!["a", "b"]), 1, 2),
    );
    assert_eq!(
        parser.to_spec(),
        Spec::Chain(vec![
            Spec::Token("play".to_string()),
            Spec::Many {
                spec: Box::new(Spec::Enum { values: vec!["a".to_string(), "b".to_string()], exact: true }),
                min: Some(1),
                max: Some(2),
                delim: ",".to_string(),
            },
        ])
    );
}

#[test]
fn comma_lists() {
    let items: Vec<String> = vec!["a".to_string(), "b".to_string(), "c".to_string()];
    assert_eq!(comma_list_or(&items), "a, b or c");
    assert_eq!(comma_list_and(&items[..2]), "a and b");
    assert_eq!(comma_list(&items[..1], "x"), "a");
    assert_eq!(comma_list(&items[..0], "x"), "");
}
