use bempline::ErrorLevel;
use bempline::IncludeMethod;
use bempline::Options;

#[test]
fn default_options_match_new() {
    assert_eq!(Options::new(), Options::default());
    let o = Options::new();
    assert_eq!(o.unknown_include, ErrorLevel::Error);
    assert_eq!(o.unset_varaible, ErrorLevel::NoError);
    assert_eq!(o.include_method, IncludeMethod::Template);
}

#[test]
fn builders_replace_their_field() {
    let o = Options::new()
        .unknown_includer(ErrorLevel::Warning)
        .unset_varaible(ErrorLevel::Error)
        .include_path(IncludeMethod::Path(String::from("base")));
    assert_eq!(o.unknown_include, ErrorLevel::Warning);
    assert_eq!(o.unset_varaible, ErrorLevel::Error);
    assert_eq!(o.include_method, IncludeMethod::Path(String::from("base")));
}

#[test]
fn error_level_from_bool() {
    assert_eq!(ErrorLevel::from(true), ErrorLevel::Error);
    assert_eq!(ErrorLevel::from(false), ErrorLevel::NoError);
}
