use bempline::Document;
use bempline::FileSet;
use bempline::IncludeMethod;
use bempline::Options;
use bempline::ParseError;
use bempline::Token;

#[test]
fn include_test() {
    let mut files = FileSet::new();
    files.insert(
        "test/include_test.bpl",
        "Before the include!\n{%include included.bpl}\naand after~",
    );
    files.insert("test/included.bpl", "The included file! With a {variable}!");

    let doc = Document::from_file("test/include_test.bpl", Options::default(), &files).unwrap();
    assert_eq!(
        doc.tokens,
        vec![
            Token::Text("Before the include!\n".into()),
            Token::Text("The included file! With a ".into()),
            Token::Variable { name: "variable".into() },
            Token::Text("!".into()),
            Token::Text("\naand after~".into()),
        ]
    )
}

#[test]
fn include_method_path_test() {
    let mut files = FileSet::new();
    files.insert(
        "test/include_some.bpl",
        "Testing IncludeMethod::Path here...\n{%include other.bpl}",
    );
    files.insert("test/subdir/other.bpl", "I'm in a subdir :D\n{variable}!");

    let doc = Document::from_file(
        "test/include_some.bpl",
        Options::default().include_path(IncludeMethod::Path(String::from("test/subdir"))),
        &files,
    )
    .unwrap();
    assert_eq!(
        doc.tokens,
        vec![
            Token::Text("Testing IncludeMethod::Path here...\n".into()),
            Token::Text("I'm in a subdir :D\n".into()),
            Token::Variable { name: "variable".into() },
            Token::Text("!".into()),
        ]
    )
}

#[test]
fn complex_include() {
    let mut files = FileSet::new();
    files.insert(
        "test/pattern_include_ifset_base.bpl",
        "{%pattern name}{%include ifset.bpl}{%end}",
    );
    files.insert("test/ifset.bpl", "{%if-set variable}{variable}{%end}");

    let doc = Document::from_file("test/pattern_include_ifset_base.bpl", Options::default(), &files)
        .unwrap();
    assert_eq!(
        doc.tokens,
        vec![Token::Pattern {
            pattern_name: String::from("name"),
            tokens: vec![Token::IfSet {
                variable_name: String::from("variable"),
                tokens: vec![Token::Variable { name: String::from("variable") }],
                else_tokens: None,
            }],
        }]
    )
}

#[test]
fn wrapping_include() {
    let expected = "<html><head>Foo<title>Test!</title></head></html>";
    let mut files = FileSet::new();
    files.insert(
        "test/wrapped_include.bpl",
        "{%wrap-include wrapper.bpl}<title>Test!</title>{%end}",
    );
    files.insert("test/wrapper.bpl", "<html><head>{var_in}{%wrapped-content}</head></html>");

    let mut doc = Document::from_file("test/wrapped_include.bpl", Options::default(), &files)
        .unwrap();
    doc.set("var_in", "Foo");

    assert_eq!(doc.compile(), expected)
}

#[test]
fn set_command() {
    let expected = "foo";
    let mut files = FileSet::new();
    files.insert("test/set-command.bpl", "{%set x foo}{x}");

    let doc = Document::from_file("test/set-command.bpl", Options::default(), &files).unwrap();

    assert_eq!(doc.compile(), expected)
}

#[test]
fn wrapping_set() {
    let expected = "<html><head>foobar</head></html>";
    let mut files = FileSet::new();
    files.insert(
        "test/wrapping_set.bpl",
        "{%set a foo}{%set b bar}{%wrap-include head.bpl}{a}{b}{%end}",
    );
    files.insert("test/head.bpl", "<html><head>{%wrapped-content}</head></html>");

    let doc = Document::from_file("test/wrapping_set.bpl", Options::default(), &files).unwrap();

    assert_eq!(doc.compile(), expected)
}

#[test]
fn wrapped_content_splice() {
    let mut files = FileSet::new();
    files.insert("main.bpl", "{%wrap-include frame.bpl}X{%end}");
    files.insert("frame.bpl", "<a>{%wrapped-content}</a>");

    let doc = Document::from_file(
        "main.bpl",
        Options::default().include_path(IncludeMethod::CurrentDirectory),
        &files,
    )
    .unwrap();
    assert_eq!(doc.compile(), "<a>X</a>");
}

#[test]
fn nested_template_relative_include() {
    let mut files = FileSet::new();
    files.insert("a/root.bpl", "R{%include sub/mid.bpl}");
    files.insert("a/sub/mid.bpl", "M{%include leaf.bpl}");
    files.insert("a/sub/leaf.bpl", "L");

    let doc = Document::from_file("a/root.bpl", Options::default(), &files).unwrap();
    assert_eq!(
        doc.tokens,
        vec![
            Token::Text("R".into()),
            Token::Text("M".into()),
            Token::Text("L".into()),
        ]
    );
}

#[test]
fn wrap_included_file_resolves_beside_itself() {
    let mut files = FileSet::new();
    files.insert("root.bpl", "{%wrap-include w/frame.bpl}X{%end}");
    files.insert("w/frame.bpl", "[{%include inner.bpl}{%wrapped-content}]");
    files.insert("w/inner.bpl", "I");

    let doc = Document::from_file("root.bpl", Options::default(), &files).unwrap();
    assert_eq!(doc.compile(), "[IX]");
}

#[test]
fn from_str_with_resolves_includes() {
    let mut files = FileSet::new();
    files.insert("part.bpl", "world");
    let doc = Document::from_str_with(
        "hello {%include part.bpl}",
        Options::default().include_path(IncludeMethod::CurrentDirectory),
        &files,
    )
    .unwrap();
    assert_eq!(doc.compile(), "hello world");
}

#[test]
fn missing_file_is_read_error() {
    let files = FileSet::new();
    let err = Document::from_str_with(
        "{%include nope.bpl}",
        Options::default().include_path(IncludeMethod::CurrentDirectory),
        &files,
    )
    .unwrap_err();
    assert!(matches!(err, ParseError::ReadError { file, .. } if file == "nope.bpl"));
}

#[test]
fn missing_root_file_is_read_error() {
    let files = FileSet::new();
    let err = Document::from_file("absent.bpl", Options::default(), &files).unwrap_err();
    assert!(matches!(err, ParseError::ReadError { file, .. } if file == "absent.bpl"));
}

#[test]
fn buffer_template_include_is_unresolvable() {
    let err = Document::from_str("{%include f.bpl}", Options::default()).unwrap_err();
    assert!(matches!(
        err,
        ParseError::UnresolvableInclude { included_file, from_buffer_template: true, .. }
            if included_file == "f.bpl"
    ));
}

#[test]
fn self_include_exceeds_depth() {
    let mut files = FileSet::new();
    files.insert("loop.bpl", "{%include loop.bpl}");
    let err = Document::from_file(
        "loop.bpl",
        Options::default().include_path(IncludeMethod::CurrentDirectory),
        &files,
    )
    .unwrap_err();
    assert!(matches!(err, ParseError::DepthExceeded));
}
