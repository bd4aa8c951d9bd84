use octanol::attrs::AttributeParser;
use octanol::condition::ConditionParser;
use octanol::parse_error::ParseError;
use octanol::token::{Attr, AttrValue, Condition};

fn attr(name: &str, value: AttrValue) -> Attr {
    Attr { name: name.to_string(), value }
}

#[test]
fn attribute_forms() {
    let attrs = AttributeParser::parse("a=1 b=\"two words\" c d=@x e=\"@y\"").expect("valid");
    assert_eq!(
        attrs,
        vec![
            attr("a", AttrValue::Value("1".to_string())),
            attr("b", AttrValue::Value("two words".to_string())),
            attr("c", AttrValue::Value(String::new())),
            attr("d", AttrValue::Placeholder("x".to_string())),
            attr("e", AttrValue::Placeholder("y".to_string())),
        ]
    );
}

#[test]
fn empty_attribute_region() {
    assert_eq!(AttributeParser::parse("").expect("valid"), Vec::new());
    assert_eq!(AttributeParser::parse("  \n ").expect("valid"), Vec::new());
}

#[test]
fn unterminated_quote_is_rejected() {
    assert_eq!(
        AttributeParser::parse("q=\"unterminated"),
        Err(ParseError::MalformedAttribute { at: 0 })
    );
}

#[test]
fn boolean_attribute_at_end_of_region() {
    let attrs = AttributeParser::parse("checked").expect("valid");
    assert_eq!(attrs, vec![attr("checked", AttrValue::Value(String::new()))]);
}

#[test]
fn bool_condition_is_trimmed_and_passed_through() {
    let c = ConditionParser::parse(" ready ").expect("valid");
    assert_eq!(c, Condition::Bool("ready".to_string()));
}

#[test]
fn let_condition_splits_on_first_equals() {
    let c = ConditionParser::parse("let (a, b) = pair").expect("valid");
    assert_eq!(
        c,
        Condition::Let { pattern: "(a, b)".to_string(), scrutinee: "pair".to_string() }
    );
}

#[test]
fn parenthesized_equals_does_not_split() {
    let c = ConditionParser::parse("let Some(x = 2) = y").expect("valid");
    assert_eq!(
        c,
        Condition::Let { pattern: "Some(x = 2)".to_string(), scrutinee: "y".to_string() }
    );
}

#[test]
fn let_without_equals_is_malformed() {
    assert_eq!(
        ConditionParser::parse("let x"),
        Err(ParseError::MalformedCondition { at: 0 })
    );
}
