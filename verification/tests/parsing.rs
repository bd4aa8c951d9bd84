use octanol::lexer::Lexer;
use octanol::parse_error::ParseError;
use octanol::parser::Parser;
use octanol::token::{Attr, AttrValue, ClosingKind, Condition, Token};

fn parse_ok(input: &str) -> Vec<Token> {
    let segs = Lexer::lex(input.as_bytes().to_vec()).expect("lexing should succeed");
    Parser::parse(segs).expect("parsing should succeed")
}

fn parse_err(input: &str) -> ParseError {
    let segs = Lexer::lex(input.as_bytes().to_vec()).expect("lexing should succeed");
    Parser::parse(segs).expect_err("parsing should fail")
}

#[test]
fn simple_tag_with_text_child() {
    // Scenario: `<div>Hello</div>` is one `div` tag holding `Hello`.
    let tree = parse_ok("<div>Hello</div>");
    assert_eq!(tree.len(), 1);
    match &tree[0] {
        Token::Tag(tag) => {
            assert_eq!(tag.name, "div");
            assert_eq!(tag.closing_kind, ClosingKind::Opening);
            assert_eq!(tag.attrs, Vec::new());
            assert_eq!(tag.children, vec![Token::Text("Hello".to_string())]);
        }
        other => panic!("expected a tag node, got {:?}", other),
    }
}

#[test]
fn bare_identifier_is_a_placeholder() {
    // Scenario: `@name ` is one placeholder node.
    let tree = parse_ok("@name ");
    assert_eq!(tree, vec![Token::Placeholder("name".to_string())]);
}

#[test]
fn tag_with_attribute_and_placeholder_child() {
    // Scenario: `<a href="x">@y</a>`.
    let tree = parse_ok("<a href=\"x\">@y</a>");
    assert_eq!(tree.len(), 1);
    match &tree[0] {
        Token::Tag(tag) => {
            assert_eq!(tag.name, "a");
            assert_eq!(tag.closing_kind, ClosingKind::Opening);
            assert_eq!(
                tag.attrs,
                vec![Attr { name: "href".to_string(), value: AttrValue::Value("x".to_string()) }]
            );
            assert_eq!(tag.children, vec![Token::Placeholder("y".to_string())]);
        }
        other => panic!("expected a tag node, got {:?}", other),
    }
}

#[test]
fn if_else_chain() {
    // Scenario: `@if cond { <p>A</p> } else { <p>B</p> }`.
    let tree = parse_ok("@if cond { <p>A</p> } else { <p>B</p> }");
    assert_eq!(tree.len(), 1);
    match &tree[0] {
        Token::If(node) => {
            assert_eq!(node.condition, Condition::Bool("cond".to_string()));
            match &node.body[1] {
                Token::Tag(tag) => {
                    assert_eq!(tag.name, "p");
                    assert_eq!(tag.children, vec![Token::Text("A".to_string())]);
                }
                other => panic!("expected a tag in the if body, got {:?}", other),
            }
            let els = node.else_part.as_ref().expect("a terminal else branch");
            assert_eq!(els.condition, Condition::Bool("true".to_string()));
            assert!(els.else_part.is_none());
            match &els.body[1] {
                Token::Tag(tag) => {
                    assert_eq!(tag.name, "p");
                    assert_eq!(tag.children, vec![Token::Text("B".to_string())]);
                }
                other => panic!("expected a tag in the else body, got {:?}", other),
            }
        }
        other => panic!("expected an if node, got {:?}", other),
    }
}

#[test]
fn else_if_chain_nests() {
    let tree = parse_ok("@if a { X } else if b { Y }");
    assert_eq!(tree.len(), 1);
    match &tree[0] {
        Token::If(node) => {
            assert_eq!(node.condition, Condition::Bool("a".to_string()));
            assert_eq!(node.body, vec![Token::Text(" X ".to_string())]);
            let els = node.else_part.as_ref().expect("an else-if branch");
            assert_eq!(els.condition, Condition::Bool("b".to_string()));
            assert_eq!(els.body, vec![Token::Text(" Y ".to_string())]);
            assert!(els.else_part.is_none());
        }
        other => panic!("expected an if node, got {:?}", other),
    }
}

#[test]
fn if_let_condition_splits_pattern_and_scrutinee() {
    let tree = parse_ok("@if let Some(v) = opt { @v }");
    assert_eq!(tree.len(), 1);
    match &tree[0] {
        Token::If(node) => {
            assert_eq!(
                node.condition,
                Condition::Let {
                    pattern: "Some(v)".to_string(),
                    scrutinee: "opt".to_string(),
                }
            );
            assert_eq!(
                node.body,
                vec![Token::Text(" ".to_string()), Token::Placeholder("v".to_string())]
            );
            assert!(node.else_part.is_none());
        }
        other => panic!("expected an if node, got {:?}", other),
    }
}

#[test]
fn for_loop_splits_var_and_source() {
    let tree = parse_ok("@for item in items { <li>X</li> }");
    assert_eq!(tree.len(), 1);
    match &tree[0] {
        Token::For(node) => {
            assert_eq!(node.var, "item");
            assert_eq!(node.expr, "items");
            match &node.body[1] {
                Token::Tag(tag) => {
                    assert_eq!(tag.name, "li");
                    assert_eq!(tag.children, vec![Token::Text("X".to_string())]);
                }
                other => panic!("expected a tag in the loop body, got {:?}", other),
            }
        }
        other => panic!("expected a for node, got {:?}", other),
    }
}

#[test]
fn failed_else_probe_replays_as_text() {
    let tree = parse_ok("@if a { X } elsewhere");
    assert_eq!(tree.len(), 2);
    assert!(matches!(&tree[0], Token::If(_)));
    assert_eq!(tree[1], Token::Text(" elsewhere".to_string()));
}

#[test]
fn self_closing_tag_has_no_children() {
    let tree = parse_ok("<br/>");
    match &tree[0] {
        Token::Tag(tag) => {
            assert_eq!(tag.name, "br");
            assert_eq!(tag.closing_kind, ClosingKind::SelfClosing);
            assert!(tag.children.is_empty());
        }
        other => panic!("expected a tag node, got {:?}", other),
    }
}

#[test]
fn doctype_passes_through_as_text() {
    let tree = parse_ok("<!DOCTYPE html>\n<p>x</p>");
    assert_eq!(tree[0], Token::Text("<!DOCTYPE html>\n".to_string()));
}

#[test]
fn unclosed_tag_is_unterminated_block() {
    // An opening tag never closed must fail; no partial tree comes back.
    assert_eq!(parse_err("<div>Hello"), ParseError::UnterminatedBlock { at: 0 });
}

#[test]
fn unclosed_directive_block_is_unterminated() {
    assert_eq!(parse_err("@if x { y"), ParseError::UnterminatedBlock { at: 0 });
}

#[test]
fn mismatched_closing_tag_is_reported() {
    assert_eq!(
        parse_err("<a>x</b>"),
        ParseError::TagMismatch { expected: "a".to_string(), found: "b".to_string(), at: 2 }
    );
}

#[test]
fn stray_closing_tag_is_reported() {
    assert_eq!(
        parse_err("x</b>"),
        ParseError::TagMismatch { expected: String::new(), found: "b".to_string(), at: 1 }
    );
}

#[test]
fn let_head_without_equals_is_malformed() {
    assert_eq!(parse_err("@if let x { }"), ParseError::MalformedCondition { at: 0 });
}

#[test]
fn for_head_without_in_is_malformed() {
    assert_eq!(parse_err("@for x of xs { }"), ParseError::MalformedCondition { at: 0 });
}

#[test]
fn unterminated_quote_is_malformed_attribute() {
    assert_eq!(parse_err("<a href=\"x>"), ParseError::MalformedAttribute { at: 1 });
}

#[test]
fn nested_braces_stay_inside_their_block() {
    let tree = parse_ok("@if a { x { y } z }");
    assert_eq!(tree.len(), 1);
    match &tree[0] {
        Token::If(node) => {
            assert_eq!(node.body, vec![Token::Text(" x { y } z ".to_string())]);
        }
        other => panic!("expected an if node, got {:?}", other),
    }
}

#[test]
fn parsing_twice_gives_identical_trees() {
    // No state persists across invocations: same bytes, same tree.
    let a = parse_ok("@if cond { <p>A</p> } else { <p>B</p> }");
    let b = parse_ok("@if cond { <p>A</p> } else { <p>B</p> }");
    assert_eq!(a, b);
}
