use bempline::Element;

#[test]
fn test_parse() {
    let test_str = "Test{~ $test ~}!";
    let cmp_vec = vec![
        Element::Text(String::from("Test")),
        Element::Variable(String::from("test"), false),
        Element::Text(String::from("!")),
    ];

    let parsed = Element::parse_elements(&test_str);
    assert_eq!(parsed, cmp_vec);
}

#[test]
fn test_parse_complex() {
    let test_str =
        "This is a {~ $word ~} string! Did I spell it right? {~ @include dictionary.txt ~}";
    let cmp_vec = vec![
        Element::Text(String::from("This is a ")),
        Element::Variable(String::from("word"), false),
        Element::Text(String::from(" string! Did I spell it right? ")),
        Element::Include(String::from("dictionary.txt"), true),
    ];

    let parsed = Element::parse_elements(&test_str);
    assert_eq!(parsed, cmp_vec);
}

#[test]
fn test_parse_pattern() {
    let test_str = "Pattern test\n{~ @pattern listItem ~}\n<li>{~ $text ~}</li>\n{~ @end-pattern ~}";
    let cmp_vec = vec![
        Element::Text(String::from("Pattern test\n")),
        Element::Pattern(
            String::from("listItem"),
            vec![
                Element::Text(String::from("\n<li>")),
                Element::Variable(String::from("text"), false),
                Element::Text(String::from("</li>\n")),
            ],
        ),
    ];

    let parsed = Element::parse_elements(&test_str);
    assert_eq!(parsed, cmp_vec);
}

#[test]
fn test_to_string() {
    let text = Element::Text(String::from("TextTest"));
    let variable_opt = Element::Variable(String::from("VariableTest"), false);
    let variable_req = Element::Variable(String::from("VariableTest"), true);
    let include_opt = Element::Include(String::from("IncludeTest"), false);
    let include_req = Element::Include(String::from("IncludeTest"), true);
    let pattern = Element::Pattern(String::from("PatternTest"), vec![]);

    assert_eq!(text.string().unwrap(), "TextTest");
    assert_eq!(variable_opt.string().unwrap(), "");
    variable_req.string().unwrap_err();
    assert_eq!(include_opt.string().unwrap(), "");
    include_req.string().unwrap_err();
    assert_eq!(pattern.string().unwrap(), "");
}

#[test]
fn test_variable_optional() {
    let test_str = "{~ $foo? ~}{~ $bar! ~}{~ $foobar ~}";
    let variable_opt = Element::Variable(String::from("foo"), false);
    let variable_req = Element::Variable(String::from("bar"), true);
    let variable_default_opt = Element::Variable(String::from("foobar"), false);

    let mut parsed = Element::parse_elements(&test_str);
    assert_eq!(parsed.pop(), Some(variable_default_opt));
    assert_eq!(parsed.pop(), Some(variable_req));
    assert_eq!(parsed.pop(), Some(variable_opt));
}

#[test]
fn test_include_optional() {
    let test_str = "{~ @include? foo ~}{~ @include! bar ~}{~ @include foobar ~}";
    let include_opt = Element::Include(String::from("foo"), false);
    let include_req = Element::Include(String::from("bar"), true);
    let include_default_opt = Element::Include(String::from("foobar"), true);

    let mut parsed = Element::parse_elements(&test_str);
    assert_eq!(parsed.pop(), Some(include_default_opt));
    assert_eq!(parsed.pop(), Some(include_req));
    assert_eq!(parsed.pop(), Some(include_opt));
}

#[test]
fn required_variable_error_names_it() {
    let e = Element::Variable(String::from("who"), true).string().unwrap_err();
    assert!(matches!(
        e,
        bempline::Error::UnusedRequire(msg) if msg == "Required variable with name who"
    ));
}

#[test]
fn unmatched_end_pattern_is_dropped() {
    let parsed = Element::parse_elements("a{~ @end-pattern ~}b");
    assert_eq!(
        parsed,
        vec![Element::Text(String::from("a")), Element::Text(String::from("b"))]
    );
}

#[test]
fn invalid_element_ends_scan_as_text() {
    let parsed = Element::parse_elements("a{~ z ~}b");
    assert_eq!(parsed, vec![Element::Text(String::from("a{~ z ~}"))]);
}
