use octanol::engine::{Engine, Octanol, OctanolError, TemplateError};
use octanol::parse_error::ParseError;
use octanol::lexer::LexError;
use octanol::token::Token;

#[test]
fn fresh_engine_compiles_a_template() {
    let tree = Engine::new().run(b"<p>hi</p>".to_vec()).expect("a valid template");
    assert_eq!(tree.len(), 1);
    match &tree[0] {
        Token::Tag(tag) => assert_eq!(tag.name, "p"),
        other => panic!("expected a tag node, got {:?}", other),
    }
}

#[test]
fn engine_reports_lex_errors() {
    let err = Engine::new().run(b"<p".to_vec()).expect_err("an unterminated tag");
    assert_eq!(err, TemplateError::Lex(LexError::UnterminatedTag(0)));
}

#[test]
fn engine_reports_parse_errors() {
    let err = Engine::new().run(b"<p>hi".to_vec()).expect_err("an unclosed tag");
    assert_eq!(err, TemplateError::Parse(ParseError::UnterminatedBlock { at: 0 }));
}

#[test]
fn octanol_run_equals_engine_run() {
    let a = Octanol::new().run(b"@x <br/>".to_vec());
    let b = Engine::with_instance(Octanol::new()).run(b"@x <br/>".to_vec());
    assert_eq!(a, b);
}

#[test]
fn registering_a_missing_folder_fails() {
    let mut oct = Octanol::new();
    let r = oct.register_folder("nowhere/".to_string(), false);
    assert_eq!(r, Err(OctanolError::FolderNotFound));
}

#[test]
fn registering_a_present_folder_succeeds() {
    let mut oct = Octanol::new();
    assert!(oct.register_folder("templates/".to_string(), true).is_ok());
}

#[test]
fn missing_default_page_is_file_not_found() {
    let mut oct = Octanol::new();
    let r = oct.set_default_page("missing.octml".to_string(), false);
    assert_eq!(r, Err(OctanolError::FileNotFound));
    assert_eq!(oct.default_page_name(), "index.octml".to_string());
}

#[test]
fn default_page_falls_back_to_index() {
    let oct = Octanol::new();
    assert_eq!(oct.default_page_name(), "index.octml".to_string());
    let mut oct = Octanol::new();
    oct.set_default_page("home.octml".to_string(), true).expect("the page exists");
    assert_eq!(oct.default_page_name(), "home.octml".to_string());
}

#[test]
fn compiling_twice_gives_identical_results() {
    let src = b"@for x in xs { <li>@x </li> }".to_vec();
    let a = Octanol::new().run(src.clone());
    let b = Octanol::new().run(src);
    assert_eq!(a, b);
}
