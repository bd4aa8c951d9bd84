//! The token tree: the parser's output, a nested structure of text, tags,
//! placeholders and `if`/`for` control blocks, together with its mathematical
//! model (`*V` types over sequences of characters).

use vstd::prelude::*;

verus! {

broadcast use vstd::std_specs::vec::axiom_vec_index_decreases, vstd::std_specs::vec::axiom_vec_decreases_to_view, vstd::seq::axiom_seq_index_decreases, vstd::seq::axiom_seq_subrange_decreases;

/// Whether a tag stands alone, opens a block of children, or closes one.
#[derive(Debug, Clone, Copy, PartialEq, Eq, Structural)]
pub enum ClosingKind {
    /// An opening tag with children, closed later by a matching closing tag.
    Opening,
    /// A self-closing tag (`<br/>`): complete on its own, no children.
    SelfClosing,
    /// A closing tag.  Parsed trees never hold this kind: closing tags are
    /// consumed as delimiters; it exists so a tag's kind is a total notion.
    Closing,
}

/// An attribute value: either opaque expression text supplied by the
/// evaluator, or literal text.
#[derive(Debug, Clone, PartialEq, Eq)]
pub enum AttrValue {
    Placeholder(String),
    Value(String),
}

/// One `name=value` attribute of a tag.
#[derive(Debug, Clone, PartialEq, Eq)]
pub struct Attr {
    pub name: String,
    pub value: AttrValue,
}

/// The condition of an `if` block: an opaque boolean expression, or a
/// pattern/scrutinee pair from an `if let` head.
#[derive(Debug, Clone, PartialEq, Eq)]
pub enum Condition {
    Bool(String),
    Let { pattern: String, scrutinee: String },
}

/// One node of the token tree.
#[derive(Debug, PartialEq, Eq)]
pub enum Token {
    /// Verbatim literal content.
    Text(String),
    /// A markup tag with its attributes and children.
    Tag(Tag),
    /// A bare interpolation: opaque expression text for the evaluator.
    Placeholder(String),
    /// A `for` loop block.
    For(For),
    /// An `if`/`else if`/`else` chain.
    If(If),
}

/// A markup tag node.
#[derive(Debug, PartialEq, Eq)]
pub struct Tag {
    pub name: String,
    pub closing_kind: ClosingKind,
    pub attrs: Vec<Attr>,
    pub children: Vec<Token>,
}

/// A `for` loop node: `@for var in expr { body }`.
#[derive(Debug, PartialEq, Eq)]
pub struct For {
    pub var: String,
    pub expr: String,
    pub body: Vec<Token>,
}

/// An `if` node.  `else_part` is the optional next link of an
/// `else if`/`else` chain; a terminal plain `else` is represented as a nested
/// `If` whose condition is the sentinel `Bool("true")`.
#[derive(Debug, PartialEq, Eq)]
pub struct If {
    pub condition: Condition,
    pub body: Vec<Token>,
    pub else_part: Option<Box<If>>,
}

pub type Tokens = Vec<Token>;

/// Model of an [`AttrValue`].
#[verifier::ext_equal]
pub enum AttrValueV {
    Placeholder(Seq<char>),
    Value(Seq<char>),
}

/// Model of an [`Attr`].
#[verifier::ext_equal]
pub struct AttrV {
    pub name: Seq<char>,
    pub value: AttrValueV,
}

/// Model of a [`Condition`].
#[verifier::ext_equal]
pub enum ConditionV {
    Bool(Seq<char>),
    Let { pattern: Seq<char>, scrutinee: Seq<char> },
}

/// Model of a [`Token`].
#[verifier::ext_equal]
pub enum TokenV {
    Text(Seq<char>),
    Tag(TagV),
    Placeholder(Seq<char>),
    For(ForV),
    If(IfV),
}

/// Model of a [`Tag`].
#[verifier::ext_equal]
pub struct TagV {
    pub name: Seq<char>,
    pub closing_kind: ClosingKind,
    pub attrs: Seq<AttrV>,
    pub children: Seq<TokenV>,
}

/// Model of a [`For`].
#[verifier::ext_equal]
pub struct ForV {
    pub var: Seq<char>,
    pub expr: Seq<char>,
    pub body: Seq<TokenV>,
}

/// Model of an [`If`].
#[verifier::ext_equal]
pub struct IfV {
    pub condition: ConditionV,
    pub body: Seq<TokenV>,
    pub else_part: Option<Box<IfV>>,
}

impl View for AttrValue {
    type V = AttrValueV;

    open spec fn view(&self) -> AttrValueV {
        match self {
            AttrValue::Placeholder(s) => AttrValueV::Placeholder(s@),
            AttrValue::Value(s) => AttrValueV::Value(s@),
        }
    }
}

impl View for Attr {
    type V = AttrV;

    open spec fn view(&self) -> AttrV {
        AttrV { name: self.name@, value: self.value@ }
    }
}

/// Models of a sequence of attributes.
pub open spec fn attrs_view(attrs: Seq<Attr>) -> Seq<AttrV> {
    attrs.map_values(|a: Attr| a@)
}

impl View for Condition {
    type V = ConditionV;

    open spec fn view(&self) -> ConditionV {
        match self {
            Condition::Bool(s) => ConditionV::Bool(s@),
            Condition::Let { pattern, scrutinee } => ConditionV::Let {
                pattern: pattern@,
                scrutinee: scrutinee@,
            },
        }
    }
}

impl Token {
    /// Model of a token, with children modelled recursively.
    pub open spec fn deep(self) -> TokenV
        decreases self,
    {
        match self {
            Token::Text(s) => TokenV::Text(s@),
            Token::Placeholder(s) => TokenV::Placeholder(s@),
            Token::Tag(t) => TokenV::Tag(
                TagV {
                    name: t.name@,
                    closing_kind: t.closing_kind,
                    attrs: attrs_view(t.attrs@),
                    children: tokens_view(t.children@),
                },
            ),
            Token::For(f) => TokenV::For(
                ForV { var: f.var@, expr: f.expr@, body: tokens_view(f.body@) },
            ),
            Token::If(i) => TokenV::If(i.deep()),
        }
    }
}

impl If {
    /// Model of an `if` node, with the `else` chain modelled recursively.
    pub open spec fn deep(self) -> IfV
        decreases self,
    {
        IfV {
            condition: self.condition@,
            body: tokens_view(self.body@),
            else_part: match self.else_part {
                Option::None => Option::None,
                Option::Some(b) => Option::Some(Box::new((*b).deep())),
            },
        }
    }
}

/// Models of a sequence of tokens.
pub open spec fn tokens_view(ts: Seq<Token>) -> Seq<TokenV>
    decreases ts,
{
    if ts.len() == 0 {
        Seq::empty()
    } else {
        tokens_view(ts.drop_last()).push(ts.last().deep())
    }
}

/// A pushed token models as a pushed model.
pub proof fn lemma_tokens_view_push(ts: Seq<Token>, t: Token)
    ensures
        tokens_view(ts.push(t)) == tokens_view(ts).push(t.deep()),
{
    assert(ts.push(t).drop_last() =~= ts);
    assert(ts.push(t).last() == t);
}

} // verus!
