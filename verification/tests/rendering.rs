use bempline::Document;
use bempline::Options;

#[test]
fn compile_all_set() {
    let mut doc = Document::from_str("One: {one} | Two: {two} | Three: {three}", Options::default())
        .unwrap();
    doc.set("one", "1");
    doc.set("two", "2");
    doc.set("three", "3");

    assert_eq!(&doc.compile(), "One: 1 | Two: 2 | Three: 3");
}

#[test]
fn compile_some_set() {
    let mut doc = Document::from_str("One: {one} | Two: {two} | Three: {three}", Options::default())
        .unwrap();
    doc.set("one", "1");
    doc.set("three", "3");

    assert_eq!(&doc.compile(), "One: 1 | Two: {two} | Three: 3");
}

#[test]
fn ifset_variable_set() {
    let mut doc = Document::from_str("{%if-set foo}set!{%end}", Options::default()).unwrap();
    doc.set("foo", "bar");

    assert_eq!(doc.compile(), "set!")
}

#[test]
fn ifset_variable_set_empty_string() {
    let mut doc = Document::from_str(
        "{%if-set foo}set!{%end}{%if-set bar}barset!{%end}",
        Options::default(),
    )
    .unwrap();
    doc.set("foo", "");
    doc.set("bar", "set!");

    assert_eq!(doc.compile(), "barset!")
}

#[test]
fn iftest_else() {
    let doc = Document::from_str("{%if-set donotset}wasset{%else}notset{%end}", Options::default())
        .unwrap();

    assert_eq!(doc.compile(), "notset");
}

#[test]
fn ifset_else_empty_value_picks_else() {
    let mut doc = Document::from_str("{%if-set v}A{%else}B{%end}", Options::default()).unwrap();
    doc.set("v", "");
    assert_eq!(doc.compile(), "B");
}

#[test]
fn ifset_else_nonempty_value_picks_body() {
    let mut doc = Document::from_str("{%if-set v}A{%else}B{%end}", Options::default()).unwrap();
    doc.set("v", "x");
    assert_eq!(doc.compile(), "A");
}

#[test]
fn pattern_parse() {
    let doc = Document::from_str("{%pattern name}blah{variable}lah{%end}", Options::default())
        .unwrap();

    assert_eq!(
        doc.get_pattern("name").unwrap().document.tokens,
        vec![
            bempline::Token::Text(String::from("blah")),
            bempline::Token::Variable { name: String::from("variable") },
            bempline::Token::Text(String::from("lah")),
        ]
    )
}

#[test]
fn pattern_fill() {
    let mut doc = Document::from_str("{%pattern name}-{variable}-{%end}", Options::default())
        .unwrap();

    let mut pat = doc.get_pattern("name").unwrap();

    let mut name = pat.duplicate();
    name.document.set("variable", "one");
    pat.document.set("variable", "two");

    doc.set_pattern(name);
    doc.set_pattern(pat);

    assert_eq!(doc.compile(), String::from("-one--two-"))
}

#[test]
fn variables_macro() {
    let mut doc = Document::from_str("{foo} and {bar}", Options::default()).unwrap();
    let foo = "one";
    let bar = "two";

    doc.set("foo", foo);
    doc.set("bar", bar);

    assert_eq!(doc.compile(), String::from("one and two"))
}

#[test]
fn set_macro() {
    let mut doc = Document::from_str("{foo}", Options::default()).unwrap();

    doc.set("foo", &format!("{:X}", 17));

    assert_eq!(doc.compile(), String::from("11"))
}

#[test]
fn set_command_binds_at_lex_time() {
    let doc = Document::from_str("{%set a hello}{a}", Options::default()).unwrap();
    assert_eq!(doc.compile(), "hello");
}

#[test]
fn clear_variables_forgets_bindings() {
    let mut doc = Document::from_str("{a}", Options::default()).unwrap();
    doc.set("a", "x");
    doc.clear_variables();
    assert_eq!(doc.compile(), "{a}");
}

#[test]
fn missing_pattern_is_none() {
    let doc = Document::from_str("{%pattern name}x{%end}", Options::default()).unwrap();
    assert!(doc.get_pattern("other").is_none());
}

#[test]
fn renamed_pattern_fills_other_slot() {
    let mut doc = Document::from_str(
        "[{%pattern a}x{%end}|{%pattern b}y{%end}]",
        Options::default(),
    )
    .unwrap();
    let mut pat = doc.get_pattern("a").unwrap();
    assert_eq!(pat.name(), "a");
    pat.set_name(String::from("b"));
    doc.set_pattern(pat);
    assert_eq!(doc.compile(), "[|x]");
}

#[test]
fn pattern_with_no_instances_renders_empty() {
    let doc = Document::from_str("<{%pattern p}body{%end}>", Options::default()).unwrap();
    assert_eq!(doc.compile(), "<>");
}

#[test]
fn duplicated_document_renders_independently() {
    let doc = Document::from_str("Dear {name},", Options::default()).unwrap();
    let mut a = doc.duplicate();
    let mut b = doc;
    a.set("name", "Ferris");
    b.set("name", "Rusty");
    assert_eq!(a.compile(), "Dear Ferris,");
    assert_eq!(b.compile(), "Dear Rusty,");
}
