use delegator_core::parse::{parse, parse_at, parse_language, ParseError};
use delegator_core::printer::print_language;
use delegator_core::translate::Language;

#[test]
fn test_parse_at() {
    let (input, lang) = parse_at(".foo").unwrap();
    assert_eq!(input, "");
    assert_eq!(lang, Language::at("foo"));
}

#[test]
fn test_parse_focus() {
    let prog = ".foo | .bar";
    let expected = Language::at("foo").map(Language::at("bar"));
    let (input, result) = parse_at(prog).unwrap();
    assert_eq!(input, "");
    assert_eq!(result, expected);
}

#[test]
fn test_parse_map() {
    let (input, lang) = parse_language(".foo").unwrap();
    assert_eq!(input, "");
    assert_eq!(lang, Language::at("foo"));
}

#[test]
fn test_parse_object() {
    let prog = r#"{ "foo" : map(.foo) , "bar" : .bar }"#;
    let expected = vec![
        (String::from("foo"), Language::array(Language::at("foo"))),
        (String::from("bar"), Language::at("bar")),
    ];

    let (input, lang) = parse_language(prog).unwrap();
    assert_eq!(input, "");
    assert_eq!(lang, Language::Object(expected));
}

#[test]
fn test_parse_set_get() {
    let prog = r#".foo | set("foo"), { "bar": .bar, "foo": get("foo") }"#;
    let expected = Language::Splat(vec![
        Language::at("foo").map(Language::set("foo")),
        Language::Object(vec![
            (String::from("bar"), Language::at("bar")),
            (String::from("foo"), Language::Get(String::from("foo"))),
        ]),
    ]);

    let (input, entries) = parse_language(prog).unwrap();
    assert_eq!(input, "");
    assert_eq!(entries, expected);
}

#[test]
fn parse_pipe_and_map() {
    assert_eq!(parse(".foo | .bar").unwrap(), Language::at("foo").map(Language::at("bar")));
    assert_eq!(parse("map(.foo)").unwrap(), Language::array(Language::at("foo")));
}

#[test]
fn parse_identity_flatten_default() {
    assert_eq!(parse(" . ").unwrap(), Language::Identity);
    assert_eq!(parse("flatten").unwrap(), Language::Flatten);
    assert_eq!(
        parse("default(.a, .b)").unwrap(),
        Language::default(Language::Splat(vec![Language::at("a"), Language::at("b")]))
    );
    assert_eq!(parse("{}").unwrap(), Language::Object(vec![]));
}

#[test]
fn parse_leaves_the_rest() {
    let (rest, lang) = parse_language(".a ) tail").unwrap();
    assert_eq!(rest, " ) tail");
    assert_eq!(lang, Language::at("a"));
}

#[test]
fn parse_errors_carry_their_position() {
    assert_eq!(parse("{ \"a\" .a }"), Err(ParseError { position: 6 }));
    assert_eq!(parse(".a extra"), Err(ParseError { position: 3 }));
    assert_eq!(parse("map(.a"), Err(ParseError { position: 6 }));
    assert_eq!(parse("?"), Err(ParseError { position: 0 }));
    assert_eq!(parse(""), Err(ParseError { position: 0 }));
}

#[test]
fn printed_transforms_parse_back() {
    let samples = vec![
        Language::at("foo").map(Language::array(Language::at("bar"))),
        Language::Splat(vec![
            Language::at("a").map(Language::set("x")),
            Language::Object(vec![
                (String::from("k"), Language::get("x")),
                (String::from("q\\\"z"), Language::Flatten),
            ]),
            Language::Identity,
        ]),
        Language::default(Language::Splat(vec![Language::Object(vec![]), Language::at("b")])),
    ];
    for lang in samples {
        let text = print_language(&lang);
        assert_eq!(parse(&text).unwrap(), lang, "text: {}", text);
    }
    assert_eq!(print_language(&Language::at("a").map(Language::at("b"))), ".a | .b");
    assert_eq!(
        print_language(&Language::Object(vec![(String::from("k"), Language::array(Language::Identity))])),
        "{\"k\": map(.)}"
    );
}
