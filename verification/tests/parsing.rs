use bempline::Document;
use bempline::Options;
use bempline::Token;

#[test]
fn no_text() {
    let doc = Document::from_str("", Options::default()).unwrap();
    assert_eq!(doc.tokens, vec![]);
}

#[test]
fn only_text() {
    let doc = Document::from_str("Nothing but text", Options::default()).unwrap();
    assert_eq!(doc.tokens, vec![Token::Text(String::from("Nothing but text"))]);
}

#[test]
fn escaped_bracket() {
    let doc = Document::from_str("escape this: \\{, but not this \\n", Options::default()).unwrap();
    assert_eq!(
        doc.tokens,
        vec![Token::Text(String::from("escape this: {, but not this \\n"))]
    );
}

#[test]
fn only_variable() {
    let doc = Document::from_str("{variable}", Options::default()).unwrap();
    assert_eq!(doc.tokens, vec![Token::Variable { name: String::from("variable") }]);
}

#[test]
fn sandwhiched_variable() {
    let doc = Document::from_str("Hello {name}, how are you?", Options::default()).unwrap();
    assert_eq!(
        doc.tokens,
        vec![
            Token::Text(String::from("Hello ")),
            Token::Variable { name: String::from("name") },
            Token::Text(String::from(", how are you?")),
        ]
    );
}

#[test]
fn ends_variable() {
    let doc = Document::from_str("Hello {name}", Options::default()).unwrap();
    assert_eq!(
        doc.tokens,
        vec![
            Token::Text(String::from("Hello ")),
            Token::Variable { name: String::from("name") },
        ]
    );
}

#[test]
fn starts_variable() {
    let doc = Document::from_str("{name}, hello!", Options::default()).unwrap();
    assert_eq!(
        doc.tokens,
        vec![
            Token::Variable { name: String::from("name") },
            Token::Text(String::from(", hello!")),
        ]
    );
}

#[test]
fn multivariable() {
    let doc = Document::from_str("The weather is {weather} in {location} today.", Options::default())
        .unwrap();
    assert_eq!(
        doc.tokens,
        vec![
            Token::Text(String::from("The weather is ")),
            Token::Variable { name: String::from("weather") },
            Token::Text(String::from(" in ")),
            Token::Variable { name: String::from("location") },
            Token::Text(String::from(" today.")),
        ]
    );
}

#[test]
fn nested_scoped_commands() {
    let doc = Document::from_str("{%pattern name}{%if-set var}{%end}{%end}", Options::default())
        .unwrap();
    assert_eq!(
        doc.tokens,
        vec![Token::Pattern {
            pattern_name: String::from("name"),
            tokens: vec![Token::IfSet {
                variable_name: String::from("var"),
                tokens: vec![],
                else_tokens: None,
            }],
        }]
    );
}

#[test]
fn empty_braces_are_text() {
    let doc = Document::from_str("a{}b", Options::default()).unwrap();
    assert_eq!(
        doc.tokens,
        vec![
            Token::Text(String::from("a")),
            Token::Text(String::from("{}")),
            Token::Text(String::from("b")),
        ]
    );
}

#[test]
fn invalid_placeholder_passes_through() {
    let doc = Document::from_str("{a b}", Options::default()).unwrap();
    assert_eq!(doc.tokens, vec![Token::Text(String::from("{a b}"))]);
}

#[test]
fn backslash_other_passes_through() {
    let doc = Document::from_str("\\y", Options::default()).unwrap();
    assert_eq!(doc.tokens, vec![Token::Text(String::from("\\y"))]);
}

#[test]
fn escaped_brace_is_plain_text() {
    let doc = Document::from_str("\\{x}", Options::default()).unwrap();
    assert_eq!(doc.tokens, vec![Token::Text(String::from("{x}"))]);
}

#[test]
fn trailing_backslash_is_dropped() {
    let doc = Document::from_str("ab\\", Options::default()).unwrap();
    assert_eq!(doc.tokens, vec![Token::Text(String::from("ab"))]);
}

#[test]
fn unknown_command_fails() {
    let err = Document::from_str("{%bogus arg}", Options::default()).unwrap_err();
    assert!(matches!(err, bempline::ParseError::UnknownCommand { command } if command == "bogus"));
}

#[test]
fn missing_argument_fails() {
    let err = Document::from_str("{%if-set}", Options::default()).unwrap_err();
    assert!(matches!(
        err,
        bempline::ParseError::CommandArgumentInvalid { command, .. } if command == "if-set"
    ));
}

#[test]
fn unclosed_command_fails() {
    let err = Document::from_str("{%if-set v}no end", Options::default()).unwrap_err();
    assert!(matches!(err, bempline::ParseError::UnclosedCommand));
}

#[test]
fn second_else_resets_the_branch() {
    let doc = Document::from_str("{%if-set v}A{%else}B{%else}C{%end}", Options::default())
        .unwrap();
    assert_eq!(doc.compile(), "C");
}

#[test]
fn stray_end_renders_as_nothing() {
    let doc = Document::from_str("a{%end}b", Options::default()).unwrap();
    assert_eq!(
        doc.tokens,
        vec![
            Token::Text(String::from("a")),
            Token::End,
            Token::Text(String::from("b")),
        ]
    );
    assert_eq!(doc.compile(), "ab");
}

#[test]
fn else_inside_pattern_body_is_inert() {
    let mut doc = Document::from_str("{%pattern p}a{%else}b{%end}", Options::default()).unwrap();
    let pat = doc.get_pattern("p").unwrap();
    doc.set_pattern(pat);
    assert_eq!(doc.compile(), "ab");
}
