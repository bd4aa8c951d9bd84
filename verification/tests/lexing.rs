use octanol::lexer::{Context, ContextCase, Event, LexError, Lexer, Segment};

fn lex_ok(input: &str) -> Vec<Segment> {
    Lexer::lex(input.as_bytes().to_vec()).expect("lexing should succeed")
}

#[test]
fn plain_text_is_one_literal() {
    // No `<` and no `@`: exactly one literal equal to the entire input.
    let segs = lex_ok("Hello, world!\nSecond line.");
    assert_eq!(segs, vec![Segment::Literal("Hello, world!\nSecond line.".to_string())]);
}

#[test]
fn single_newline_is_one_literal() {
    let segs = lex_ok("\n");
    assert_eq!(segs, vec![Segment::Literal("\n".to_string())]);
}

#[test]
fn empty_input_yields_no_segments() {
    let segs = lex_ok("");
    assert_eq!(segs, Vec::new());
}

#[test]
fn simple_tag_pair() {
    // Scenario: `<div>Hello</div>`.
    let segs = lex_ok("<div>Hello</div>");
    assert_eq!(
        segs,
        vec![
            Segment::TagOpening("<div>".to_string()),
            Segment::Literal("Hello".to_string()),
            Segment::TagClosing("</div>".to_string()),
        ]
    );
}

#[test]
fn directive_identifier_drops_terminating_space() {
    // Scenario: `@name ` yields exactly one identifier, space excluded.
    let segs = lex_ok("@name ");
    assert_eq!(segs, vec![Segment::Identifier("name".to_string())]);
}

#[test]
fn directive_identifier_ends_at_tag_start() {
    let segs = lex_ok("@y</a>");
    assert_eq!(
        segs,
        vec![
            Segment::Identifier("y".to_string()),
            Segment::TagClosing("</a>".to_string()),
        ]
    );
}

#[test]
fn attribute_region_is_its_own_literal() {
    let segs = lex_ok("<a href=\"x\">y</a>");
    assert_eq!(
        segs,
        vec![
            Segment::TagOpening("<a ".to_string()),
            Segment::Literal("href=\"x\">".to_string()),
            Segment::Literal("y".to_string()),
            Segment::TagClosing("</a>".to_string()),
        ]
    );
}

#[test]
fn self_closing_tag_keeps_slash() {
    let segs = lex_ok("<br/>");
    assert_eq!(segs, vec![Segment::TagOpening("<br/>".to_string())]);
}

#[test]
fn doctype_runs_through_newline() {
    let segs = lex_ok("<!DOCTYPE html>\nrest");
    assert_eq!(
        segs,
        vec![
            Segment::DocType("<!DOCTYPE html>\n".to_string()),
            Segment::Literal("rest".to_string()),
        ]
    );
}

#[test]
fn at_inside_attribute_region_is_ordinary() {
    let segs = lex_ok("<a href=@x>b</a>");
    assert_eq!(
        segs,
        vec![
            Segment::TagOpening("<a ".to_string()),
            Segment::Literal("href=@x>".to_string()),
            Segment::Literal("b".to_string()),
            Segment::TagClosing("</a>".to_string()),
        ]
    );
}

#[test]
fn unterminated_tag_reports_its_offset() {
    assert_eq!(Lexer::lex(b"ab<div".to_vec()), Err(LexError::UnterminatedTag(2)));
}

#[test]
fn unterminated_doctype_reports_tag_error() {
    assert_eq!(Lexer::lex(b"<!DOCTYPE html>".to_vec()), Err(LexError::UnterminatedTag(0)));
}

#[test]
fn unterminated_directive_reports_its_offset() {
    assert_eq!(Lexer::lex(b"ab@name".to_vec()), Err(LexError::UnterminatedDirective(2)));
}

#[test]
fn unterminated_attribute_region_is_a_tag_error() {
    assert_eq!(Lexer::lex(b"<a href=".to_vec()), Err(LexError::UnterminatedTag(0)));
}

#[test]
fn lexing_is_deterministic() {
    let a = Lexer::lex(b"<p>@x </p>".to_vec());
    let b = Lexer::lex(b"<p>@x </p>".to_vec());
    assert_eq!(a, b);
}

#[test]
fn context_starts_in_body() {
    let ctx = Context::new();
    assert!(ctx.context_is(ContextCase::Body));
    assert!(ctx.event_is(Event::Body));
    assert!(!ctx.has_literal_context());
}

#[test]
fn context_tracks_case_and_event() {
    let mut ctx = Context::new();
    ctx.set_context(ContextCase::Tag);
    ctx.set_event(Event::AttributeDeclarationEvent);
    assert!(ctx.context_is(ContextCase::Tag));
    assert!(!ctx.context_is(ContextCase::Attribute));
    assert!(ctx.event_is(Event::AttributeDeclarationEvent));
    assert!(!ctx.event_is(Event::TagDeclarationEvent));
}

#[test]
fn context_literal_buffer_round_trip() {
    let mut ctx = Context::new();
    ctx.push('h');
    ctx.push('i');
    assert!(ctx.has_literal_context());
    assert_eq!(ctx.break_literal_ctx(), "hi".to_string());
    assert!(!ctx.has_literal_context());
    assert_eq!(ctx.break_literal_ctx(), String::new());
}

#[test]
fn lone_newline_does_not_count_as_literal_context() {
    let mut ctx = Context::new();
    ctx.push('\n');
    assert!(!ctx.has_literal_context());
    ctx.push('x');
    assert!(ctx.has_literal_context());
}
