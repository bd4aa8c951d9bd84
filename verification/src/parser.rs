//! The tree parser: consumes the lexer's segment sequence and assembles the
//! nested token tree.
//!
//! The parser is a pushdown machine that walks the segments left to right —
//! descending into the characters of each literal segment — over a stack of
//! open contexts: the root, open tags awaiting their closing tag, and open
//! `if`/`for` blocks awaiting their closing brace.  Each open block tracks
//! its own brace depth, so braces inside a nested block never close an outer
//! one.  Its exact behaviour is the specification function [`parse_spec`],
//! and [`Parser::parse`] is proved to return precisely that result.
//!
//! Shapes consumed, with their handling:
//! - a literal becomes verbatim text, split only where a closing brace ends
//!   the innermost open block;
//! - a doctype becomes verbatim text;
//! - a tag-opening segment opens a tag (its attribute region, when present,
//!   is the literal segment that follows, as the lexer emits it) or stands
//!   alone when self-closing; a tag-closing segment must match the innermost
//!   open tag, else [`ParseError::TagMismatch`];
//! - an identifier whose text starts with `if` or `for` opens a directive
//!   block: the head text runs to the block's opening brace and is classified
//!   by the condition parser (`if`) or split on the token ` in ` into a loop
//!   variable and source expression (`for`); any other identifier is a bare
//!   placeholder node;
//! - after an `if` block closes, a following `else` (or `else if`)
//!   continuation extends the chain; anything else replays the characters
//!   read ahead as ordinary text.  A terminal plain `else` is an `If` with
//!   the sentinel condition `Bool("true")`.
//!
//! Open contexts left at end of input are [`ParseError::UnterminatedBlock`],
//! reported at the segment that opened the innermost one.  A failed parse
//! returns no partial tree.  Brace depth counters saturate at `usize::MAX`,
//! a depth no in-memory input can reach, since every nesting level consumes
//! at least one input byte.

use vstd::prelude::*;

use crate::attrs::{attrs_of, AttributeParser};
use crate::condition::{cond_of, ConditionParser};
use crate::lexer::{segs_view, SegV, Segment, Segments};
use crate::parse_error::{ParseErrV, ParseError};
use crate::text::{char_sub, chars_to_string, is_space_char, str_chars, trim_chars, trim_spec};
use crate::token::{
    attrs_view, tokens_view, Attr, AttrV, ClosingKind, Condition, ConditionV, For, ForV, If, IfV,
    Tag, TagV, Token, TokenV, Tokens,
};

verus! {

/// One completed branch of an `if`/`else` chain.
#[verifier::ext_equal]
pub struct BranchV {
    pub cond: ConditionV,
    pub body: Seq<TokenV>,
}

/// What an open directive block will become when its brace closes.
#[verifier::ext_equal]
pub enum HeaderV {
    /// A `for` block with its loop variable and source expression.
    For { var: Seq<char>, expr: Seq<char> },
    /// An `if` (or `else if`) block: the chain completed so far and this
    /// branch's condition.
    If { chain: Seq<BranchV>, cond: ConditionV },
    /// A terminal plain `else` block closing the chain.
    Else { chain: Seq<BranchV> },
}

/// One open context on the parse stack.
#[verifier::ext_equal]
pub enum FrameV {
    /// The template root, collecting the finished top-level nodes.
    Root { nodes: Seq<TokenV> },
    /// An open tag awaiting its matching closing tag; `at` is the index of
    /// the segment that opened it.
    Tag { name: Seq<char>, attrs: Seq<AttrV>, nodes: Seq<TokenV>, at: usize },
    /// An open directive block awaiting its closing brace, with its own
    /// brace-nesting depth.
    Block { header: HeaderV, depth: usize, nodes: Seq<TokenV>, at: usize },
}

/// What kind of directive head a head scan is collecting.
#[verifier::ext_equal]
pub enum CondKindV {
    ForHead,
    IfHead { chain: Seq<BranchV> },
}

/// What the parser is doing between nodes.
#[verifier::ext_equal]
pub enum ModeV {
    /// Consuming ordinary content; `chunk` is pending literal text.
    Normal { chunk: Seq<char> },
    /// Collecting a directive head up to its opening brace; `at` is the
    /// index of the identifier segment.
    CondScan { kind: CondKindV, buf: Seq<char>, at: usize },
    /// Awaiting the attribute region of the tag opened at segment `at`.
    AwaitAttr { name: Seq<char>, at: usize },
    /// Discarding the attribute region of a closing tag.
    SkipAttr { at: usize },
    /// Probing for an `else` continuation after an `if` block closed; `buf`
    /// holds the characters read ahead, `phase` how much of ` else` has
    /// matched (4: keyword seen, 5: a following `i` seen).
    AwaitElse { chain: Seq<BranchV>, buf: Seq<char>, phase: int },
}

/// The full parser state.
#[verifier::ext_equal]
pub struct PStV {
    pub stack: Seq<FrameV>,
    pub mode: ModeV,
}

/// The finished nodes a frame has collected.
pub open spec fn frame_nodes(f: FrameV) -> Seq<TokenV> {
    match f {
        FrameV::Root { nodes } => nodes,
        FrameV::Tag { nodes, .. } => nodes,
        FrameV::Block { nodes, .. } => nodes,
    }
}

/// `f` with its collected nodes replaced.
pub open spec fn frame_with_nodes(f: FrameV, nodes: Seq<TokenV>) -> FrameV {
    match f {
        FrameV::Root { .. } => FrameV::Root { nodes },
        FrameV::Tag { name, attrs, at, .. } => FrameV::Tag { name, attrs, nodes, at },
        FrameV::Block { header, depth, at, .. } => FrameV::Block { header, depth, nodes, at },
    }
}

/// A finished node is appended to the innermost open context.
pub open spec fn push_node(stack: Seq<FrameV>, t: TokenV) -> Seq<FrameV> {
    if stack.len() == 0 {
        stack
    } else {
        let f = stack.last();
        stack.update(stack.len() - 1, frame_with_nodes(f, frame_nodes(f).push(t)))
    }
}

/// Pending literal text becomes a text node of the innermost open context.
pub open spec fn flush_chunk(stack: Seq<FrameV>, chunk: Seq<char>) -> Seq<FrameV> {
    if chunk.len() > 0 {
        push_node(stack, TokenV::Text(chunk))
    } else {
        stack
    }
}

/// The sentinel "always true" condition of a terminal plain `else`.
pub open spec fn true_cond() -> ConditionV {
    ConditionV::Bool(seq!['t', 'r', 'u', 'e'])
}

/// A completed branch chain as one nested `if` node: each branch owns the
/// next as its `else_part`.
pub open spec fn chain_to_if(chain: Seq<BranchV>) -> IfV
    decreases chain.len(),
{
    if chain.len() <= 1 {
        IfV {
            condition: if chain.len() == 1 {
                chain[0].cond
            } else {
                ConditionV::Bool(Seq::empty())
            },
            body: if chain.len() == 1 {
                chain[0].body
            } else {
                Seq::empty()
            },
            else_part: None,
        }
    } else {
        IfV {
            condition: chain[0].cond,
            body: chain[0].body,
            else_part: Some(Box::new(chain_to_if(chain.drop_first()))),
        }
    }
}

/// A completed chain, not continued by any `else`, becomes an `if` node of
/// the innermost open context.
pub open spec fn finalize_chain(stack: Seq<FrameV>, chain: Seq<BranchV>) -> Seq<FrameV> {
    push_node(stack, TokenV::If(chain_to_if(chain)))
}

/// A directive block whose closing brace was reached: a `for` block becomes
/// a node at once; an `if` branch joins its chain and the parser probes for
/// an `else`; a terminal `else` completes the whole chain.
pub open spec fn close_block(popped: Seq<FrameV>, header: HeaderV, body: Seq<TokenV>) -> PStV {
    match header {
        HeaderV::For { var, expr } => PStV {
            stack: push_node(popped, TokenV::For(ForV { var, expr, body })),
            mode: ModeV::Normal { chunk: Seq::empty() },
        },
        HeaderV::If { chain, cond } => PStV {
            stack: popped,
            mode: ModeV::AwaitElse {
                chain: chain.push(BranchV { cond, body }),
                buf: Seq::empty(),
                phase: 0,
            },
        },
        HeaderV::Else { chain } => PStV {
            stack: finalize_chain(popped, chain.push(BranchV { cond: true_cond(), body })),
            mode: ModeV::Normal { chunk: Seq::empty() },
        },
    }
}

/// One ordinary-content step on the character `c`.  Braces count only
/// against the innermost open context when it is a directive block; a
/// closing brace at depth zero closes that block.
pub open spec fn normal_char(stack: Seq<FrameV>, chunk: Seq<char>, c: char) -> PStV {
    if stack.len() > 0 && stack.last() is Block {
        match stack.last() {
            FrameV::Block { header, depth, nodes, at } => {
                if c == '{' {
                    let d2: usize = if depth < usize::MAX {
                        (depth + 1) as usize
                    } else {
                        depth
                    };
                    PStV {
                        stack: stack.update(
                            stack.len() - 1,
                            FrameV::Block { header, depth: d2, nodes, at },
                        ),
                        mode: ModeV::Normal { chunk: chunk.push(c) },
                    }
                } else if c == '}' {
                    if depth > 0 {
                        PStV {
                            stack: stack.update(
                                stack.len() - 1,
                                FrameV::Block { header, depth: (depth - 1) as usize, nodes, at },
                            ),
                            mode: ModeV::Normal { chunk: chunk.push(c) },
                        }
                    } else {
                        let stack2 = flush_chunk(stack, chunk);
                        let body = frame_nodes(stack2.last());
                        close_block(stack2.drop_last(), header, body)
                    }
                } else {
                    PStV { stack, mode: ModeV::Normal { chunk: chunk.push(c) } }
                }
            }
            _ => PStV { stack, mode: ModeV::Normal { chunk: chunk.push(c) } },
        }
    } else {
        PStV { stack, mode: ModeV::Normal { chunk: chunk.push(c) } }
    }
}

/// One `else`-probe step on the character `c` at segment `i`.  A failed
/// probe completes the chain and replays the read-ahead characters as
/// ordinary text.
pub open spec fn await_else_char(
    stack: Seq<FrameV>,
    chain: Seq<BranchV>,
    buf: Seq<char>,
    phase: int,
    c: char,
    i: usize,
) -> PStV {
    if phase == 0 && crate::text::is_space(c) {
        PStV { stack, mode: ModeV::AwaitElse { chain, buf: buf.push(c), phase: 0 } }
    } else if phase == 0 && c == 'e' {
        PStV { stack, mode: ModeV::AwaitElse { chain, buf: buf.push(c), phase: 1 } }
    } else if phase == 1 && c == 'l' {
        PStV { stack, mode: ModeV::AwaitElse { chain, buf: buf.push(c), phase: 2 } }
    } else if phase == 2 && c == 's' {
        PStV { stack, mode: ModeV::AwaitElse { chain, buf: buf.push(c), phase: 3 } }
    } else if phase == 3 && c == 'e' {
        PStV { stack, mode: ModeV::AwaitElse { chain, buf: buf.push(c), phase: 4 } }
    } else if phase == 4 && crate::text::is_space(c) {
        PStV { stack, mode: ModeV::AwaitElse { chain, buf: buf.push(c), phase: 4 } }
    } else if phase == 4 && c == '{' {
        PStV {
            stack: stack.push(
                FrameV::Block {
                    header: HeaderV::Else { chain },
                    depth: 0,
                    nodes: Seq::empty(),
                    at: i,
                },
            ),
            mode: ModeV::Normal { chunk: Seq::empty() },
        }
    } else if phase == 4 && c == 'i' {
        PStV { stack, mode: ModeV::AwaitElse { chain, buf: buf.push(c), phase: 5 } }
    } else if phase == 5 && c == 'f' {
        PStV {
            stack,
            mode: ModeV::CondScan { kind: CondKindV::IfHead { chain }, buf: Seq::empty(), at: i },
        }
    } else {
        normal_char(finalize_chain(stack, chain), buf, c)
    }
}

/// The position of the first ` in ` of `s` at or after `j`.
pub open spec fn find_in_from(s: Seq<char>, j: int) -> Option<int>
    decreases s.len() - j,
{
    if j < 0 || j + 4 > s.len() {
        None
    } else if s[j] == ' ' && s[j + 1] == 'i' && s[j + 2] == 'n' && s[j + 3] == ' ' {
        Some(j)
    } else {
        find_in_from(s, j + 1)
    }
}

/// A completed `for` head, split on its first ` in ` into loop variable and
/// source expression; `None` is a malformed head.
pub open spec fn for_head_of(buf: Seq<char>) -> Option<(Seq<char>, Seq<char>)> {
    let h = trim_spec(buf);
    match find_in_from(h, 0) {
        Some(k) => Some(
            (trim_spec(h.subrange(0, k)), trim_spec(h.subrange(k + 4, h.len() as int))),
        ),
        None => None,
    }
}

/// One character of a directive head: the opening brace completes the head,
/// anything else joins it.
pub open spec fn cond_scan_char(
    stack: Seq<FrameV>,
    kind: CondKindV,
    buf: Seq<char>,
    at: usize,
    c: char,
) -> Result<PStV, ParseErrV> {
    if c == '{' {
        match kind {
            CondKindV::ForHead => {
                match for_head_of(buf) {
                    Some(ve) => Ok(
                        PStV {
                            stack: stack.push(
                                FrameV::Block {
                                    header: HeaderV::For { var: ve.0, expr: ve.1 },
                                    depth: 0,
                                    nodes: Seq::empty(),
                                    at,
                                },
                            ),
                            mode: ModeV::Normal { chunk: Seq::empty() },
                        },
                    ),
                    None => Err(ParseErrV::MalformedCondition { at }),
                }
            }
            CondKindV::IfHead { chain } => {
                match cond_of(buf) {
                    Some(cond) => Ok(
                        PStV {
                            stack: stack.push(
                                FrameV::Block {
                                    header: HeaderV::If { chain, cond },
                                    depth: 0,
                                    nodes: Seq::empty(),
                                    at,
                                },
                            ),
                            mode: ModeV::Normal { chunk: Seq::empty() },
                        },
                    ),
                    None => Err(ParseErrV::MalformedCondition { at }),
                }
            }
        }
    } else {
        Ok(PStV { stack, mode: ModeV::CondScan { kind, buf: buf.push(c), at } })
    }
}

/// One parser step on the character `c` of the literal at segment `i`.
pub open spec fn p_char(st: PStV, c: char, i: usize) -> Result<PStV, ParseErrV> {
    match st.mode {
        ModeV::Normal { chunk } => Ok(normal_char(st.stack, chunk, c)),
        ModeV::CondScan { kind, buf, at } => cond_scan_char(st.stack, kind, buf, at, c),
        ModeV::AwaitElse { chain, buf, phase } => Ok(
            await_else_char(st.stack, chain, buf, phase, c, i),
        ),
        _ => Ok(st),
    }
}

/// The tag name of a closing-tag segment: its text without the leading `<`
/// and `/` and without the trailing `>` or space.
pub open spec fn closing_name(t: Seq<char>) -> Seq<char> {
    let a = if t.len() > 0 && t[0] == '<' {
        t.drop_first()
    } else {
        t
    };
    let b = if a.len() > 0 && a[0] == '/' {
        a.drop_first()
    } else {
        a
    };
    if b.len() > 0 && (b.last() == '>' || b.last() == ' ') {
        b.drop_last()
    } else {
        b
    }
}

/// One parser step on a whole segment in ordinary content.
pub open spec fn normal_seg(stack: Seq<FrameV>, seg: SegV, i: usize) -> Result<PStV, ParseErrV> {
    match seg {
        SegV::Literal(t) => Ok(PStV { stack, mode: ModeV::Normal { chunk: Seq::empty() } }),
        SegV::DocType(t) => Ok(
            PStV {
                stack: push_node(stack, TokenV::Text(t)),
                mode: ModeV::Normal { chunk: Seq::empty() },
            },
        ),
        SegV::Identifier(t) => {
            if t.len() >= 2 && t[0] == 'i' && t[1] == 'f' {
                Ok(
                    PStV {
                        stack,
                        mode: ModeV::CondScan {
                            kind: CondKindV::IfHead { chain: Seq::empty() },
                            buf: t.skip(2),
                            at: i,
                        },
                    },
                )
            } else if t.len() >= 3 && t[0] == 'f' && t[1] == 'o' && t[2] == 'r' {
                Ok(
                    PStV {
                        stack,
                        mode: ModeV::CondScan { kind: CondKindV::ForHead, buf: t.skip(3), at: i },
                    },
                )
            } else {
                Ok(
                    PStV {
                        stack: push_node(stack, TokenV::Placeholder(t)),
                        mode: ModeV::Normal { chunk: Seq::empty() },
                    },
                )
            }
        }
        SegV::TagOpening(t) => {
            if t.len() >= 3 && t[t.len() - 2] == '/' && t[t.len() - 1] == '>' {
                Ok(
                    PStV {
                        stack: push_node(
                            stack,
                            TokenV::Tag(
                                TagV {
                                    name: t.subrange(1, t.len() - 2),
                                    closing_kind: ClosingKind::SelfClosing,
                                    attrs: Seq::empty(),
                                    children: Seq::empty(),
                                },
                            ),
                        ),
                        mode: ModeV::Normal { chunk: Seq::empty() },
                    },
                )
            } else if t.len() >= 2 && t[t.len() - 1] == '>' {
                Ok(
                    PStV {
                        stack: stack.push(
                            FrameV::Tag {
                                name: t.subrange(1, t.len() - 1),
                                attrs: Seq::empty(),
                                nodes: Seq::empty(),
                                at: i,
                            },
                        ),
                        mode: ModeV::Normal { chunk: Seq::empty() },
                    },
                )
            } else if t.len() >= 2 && t[t.len() - 1] == ' ' {
                Ok(
                    PStV {
                        stack,
                        mode: ModeV::AwaitAttr { name: t.subrange(1, t.len() - 1), at: i },
                    },
                )
            } else {
                Err(ParseErrV::MalformedAttribute { at: i })
            }
        }
        SegV::TagClosing(t) => {
            let name = closing_name(t);
            let ends_space = t.len() > 0 && t.last() == ' ';
            if stack.len() > 0 && stack.last() is Tag {
                match stack.last() {
                    FrameV::Tag { name: n, attrs, nodes, at } => {
                        if n == name {
                            let node = TokenV::Tag(
                                TagV {
                                    name: n,
                                    closing_kind: ClosingKind::Opening,
                                    attrs,
                                    children: nodes,
                                },
                            );
                            Ok(
                                PStV {
                                    stack: push_node(stack.drop_last(), node),
                                    mode: if ends_space {
                                        ModeV::SkipAttr { at: i }
                                    } else {
                                        ModeV::Normal { chunk: Seq::empty() }
                                    },
                                },
                            )
                        } else {
                            Err(ParseErrV::TagMismatch { expected: n, found: name, at: i })
                        }
                    }
                    _ => Err(ParseErrV::TagMismatch { expected: Seq::empty(), found: name, at: i }),
                }
            } else {
                Err(ParseErrV::TagMismatch { expected: Seq::empty(), found: name, at: i })
            }
        }
    }
}

/// One parser step on the attribute-region segment awaited for the tag
/// `name` opened at segment `tag_at`.
pub open spec fn attr_seg(
    stack: Seq<FrameV>,
    name: Seq<char>,
    tag_at: usize,
    seg: SegV,
    i: usize,
) -> Result<PStV, ParseErrV> {
    match seg {
        SegV::Literal(t) => {
            if t.len() >= 2 && t[t.len() - 2] == '/' && t[t.len() - 1] == '>' {
                match attrs_of(t.subrange(0, t.len() - 2)) {
                    Some(attrs) => Ok(
                        PStV {
                            stack: push_node(
                                stack,
                                TokenV::Tag(
                                    TagV {
                                        name,
                                        closing_kind: ClosingKind::SelfClosing,
                                        attrs,
                                        children: Seq::empty(),
                                    },
                                ),
                            ),
                            mode: ModeV::Normal { chunk: Seq::empty() },
                        },
                    ),
                    None => Err(ParseErrV::MalformedAttribute { at: i }),
                }
            } else if t.len() >= 1 && t[t.len() - 1] == '>' {
                match attrs_of(t.subrange(0, t.len() - 1)) {
                    Some(attrs) => Ok(
                        PStV {
                            stack: stack.push(
                                FrameV::Tag { name, attrs, nodes: Seq::empty(), at: tag_at },
                            ),
                            mode: ModeV::Normal { chunk: Seq::empty() },
                        },
                    ),
                    None => Err(ParseErrV::MalformedAttribute { at: i }),
                }
            } else {
                Err(ParseErrV::MalformedAttribute { at: i })
            }
        }
        _ => Err(ParseErrV::MalformedAttribute { at: i }),
    }
}

/// One parser step on a whole segment, in any mode.
pub open spec fn p_seg(st: PStV, seg: SegV, i: usize) -> Result<PStV, ParseErrV> {
    match st.mode {
        ModeV::Normal { chunk } => normal_seg(flush_chunk(st.stack, chunk), seg, i),
        ModeV::CondScan { at, .. } => Err(ParseErrV::MalformedCondition { at }),
        ModeV::AwaitAttr { name, at } => attr_seg(st.stack, name, at, seg, i),
        ModeV::SkipAttr { at } => {
            match seg {
                SegV::Literal(t) => {
                    if t.len() >= 1 && t[t.len() - 1] == '>' {
                        Ok(PStV { stack: st.stack, mode: ModeV::Normal { chunk: Seq::empty() } })
                    } else {
                        Err(ParseErrV::MalformedAttribute { at: i })
                    }
                }
                _ => Err(ParseErrV::MalformedAttribute { at: i }),
            }
        }
        ModeV::AwaitElse { chain, buf, .. } => normal_seg(
            flush_chunk(finalize_chain(st.stack, chain), buf),
            seg,
            i,
        ),
    }
}

/// At the end of a literal segment, pending ordinary text is flushed as a
/// text node; head scans and `else` probes continue into what follows.
pub open spec fn end_of_literal(st: PStV) -> PStV {
    match st.mode {
        ModeV::Normal { chunk } => PStV {
            stack: flush_chunk(st.stack, chunk),
            mode: ModeV::Normal { chunk: Seq::empty() },
        },
        _ => st,
    }
}

/// Whether a mode consumes literal segments character by character.
pub open spec fn char_mode(m: ModeV) -> bool {
    m is Normal || m is CondScan || m is AwaitElse
}

/// What the parser yields at end of input: the root's nodes, or the error
/// for the construct still open.
pub open spec fn p_finish(st: PStV) -> Result<Seq<TokenV>, ParseErrV> {
    match st.mode {
        ModeV::CondScan { at, .. } => Err(ParseErrV::MalformedCondition { at }),
        ModeV::AwaitAttr { at, .. } => Err(ParseErrV::MalformedAttribute { at }),
        ModeV::SkipAttr { at } => Err(ParseErrV::MalformedAttribute { at }),
        _ => {
            let stack2 = match st.mode {
                ModeV::AwaitElse { chain, buf, .. } => flush_chunk(
                    finalize_chain(st.stack, chain),
                    buf,
                ),
                ModeV::Normal { chunk } => flush_chunk(st.stack, chunk),
                _ => st.stack,
            };
            stack_finish(stack2)
        }
    }
}

/// What a final parse stack yields: the root's nodes when nothing is left
/// open, else the innermost open context's error.
pub open spec fn stack_finish(stack2: Seq<FrameV>) -> Result<Seq<TokenV>, ParseErrV> {
    if stack2.len() == 1 {
        match stack2[0] {
            FrameV::Root { nodes } => Ok(nodes),
            FrameV::Tag { at, .. } => Err(ParseErrV::UnterminatedBlock { at }),
            FrameV::Block { at, .. } => Err(ParseErrV::UnterminatedBlock { at }),
        }
    } else if stack2.len() > 1 {
        match stack2.last() {
            FrameV::Tag { at, .. } => Err(ParseErrV::UnterminatedBlock { at }),
            FrameV::Block { at, .. } => Err(ParseErrV::UnterminatedBlock { at }),
            FrameV::Root { .. } => Err(ParseErrV::UnterminatedBlock { at: 0 }),
        }
    } else {
        Err(ParseErrV::UnterminatedBlock { at: 0 })
    }
}

/// The text of a segment.
pub open spec fn seg_text(seg: SegV) -> Seq<char> {
    match seg {
        SegV::Identifier(t) => t,
        SegV::TagOpening(t) => t,
        SegV::TagClosing(t) => t,
        SegV::DocType(t) => t,
        SegV::Literal(t) => t,
    }
}

/// The characters a literal at position `i` still has from offset `j` on.
pub open spec fn lit_rem(segs: Seq<SegV>, i: int, j: int) -> int {
    if 0 <= i < segs.len() && segs[i] is Literal {
        let r = seg_text(segs[i]).len() - j;
        if r >= 0 {
            r
        } else {
            0
        }
    } else {
        0
    }
}

/// The result of parsing `segs` from segment `i`, character `j`, in state
/// `st`.
pub open spec fn p_from(segs: Seq<SegV>, i: int, j: int, st: PStV) -> Result<
    Seq<TokenV>,
    ParseErrV,
>
    decreases segs.len() - i, lit_rem(segs, i, j),
{
    if i < 0 || i >= segs.len() {
        p_finish(st)
    } else {
        let seg = segs[i];
        if seg is Literal && char_mode(st.mode) {
            let t = seg_text(seg);
            if j >= t.len() {
                p_from(segs, i + 1, 0, end_of_literal(st))
            } else {
                match p_char(st, t[j], i as usize) {
                    Ok(st2) => p_from(segs, i, j + 1, st2),
                    Err(e) => Err(e),
                }
            }
        } else {
            match p_seg(st, seg, i as usize) {
                Ok(st2) => p_from(segs, i + 1, 0, st2),
                Err(e) => Err(e),
            }
        }
    }
}

/// The initial parser state: the root frame, ordinary content.
pub open spec fn p_init() -> PStV {
    PStV {
        stack: seq![FrameV::Root { nodes: Seq::empty() }],
        mode: ModeV::Normal { chunk: Seq::empty() },
    }
}

/// The token tree denoted by a segment sequence, or the parse error.
pub open spec fn parse_spec(segs: Seq<SegV>) -> Result<Seq<TokenV>, ParseErrV> {
    p_from(segs, 0, 0, p_init())
}

/// Whether some open tag frame stands on the stack.
pub open spec fn has_tag(stack: Seq<FrameV>) -> bool {
    exists|k: int| 0 <= k < stack.len() && stack[k] is Tag
}

/// Appending a node keeps every frame's kind, and the stack's length.
proof fn lemma_push_node_frames(stack: Seq<FrameV>, t: TokenV)
    ensures
        push_node(stack, t).len() == stack.len(),
        forall|k: int|
            0 <= k < stack.len() ==> ((#[trigger] push_node(stack, t)[k] is Tag) == (stack[k]
                is Tag)) && ((push_node(stack, t)[k] is Block) == (stack[k] is Block)),
{
}

/// Flushing pending text keeps every frame's kind, and the stack's length.
proof fn lemma_flush_frames(stack: Seq<FrameV>, chunk: Seq<char>)
    ensures
        flush_chunk(stack, chunk).len() == stack.len(),
        forall|k: int|
            0 <= k < stack.len() ==> ((#[trigger] flush_chunk(stack, chunk)[k] is Tag) == (
            stack[k] is Tag)) && ((flush_chunk(stack, chunk)[k] is Block) == (stack[k]
                is Block)),
{
    if chunk.len() > 0 {
        lemma_push_node_frames(stack, TokenV::Text(chunk));
    }
}

/// An ordinary-content character step never drops an open tag frame.
proof fn lemma_normal_char_keeps_tag(stack: Seq<FrameV>, chunk: Seq<char>, c: char)
    requires
        has_tag(stack),
    ensures
        has_tag(normal_char(stack, chunk, c).stack),
{
    let k = choose|k: int| 0 <= k < stack.len() && stack[k] is Tag;
    if stack.len() > 0 && stack.last() is Block {
        assert(k < stack.len() - 1);
        match stack.last() {
            FrameV::Block { header, depth, nodes, at } => {
                if c == '{' || (c == '}' && depth > 0) {
                    assert(normal_char(stack, chunk, c).stack[k] is Tag);
                } else if c == '}' {
                    let s2 = flush_chunk(stack, chunk);
                    lemma_flush_frames(stack, chunk);
                    assert(s2.drop_last()[k] is Tag);
                    match header {
                        HeaderV::For { var, expr } => {
                            lemma_push_node_frames(
                                s2.drop_last(),
                                TokenV::For(ForV { var, expr, body: frame_nodes(s2.last()) }),
                            );
                            assert(normal_char(stack, chunk, c).stack[k] is Tag);
                        }
                        HeaderV::If { .. } => {
                            assert(normal_char(stack, chunk, c).stack[k] is Tag);
                        }
                        HeaderV::Else { chain } => {
                            lemma_push_node_frames(
                                s2.drop_last(),
                                TokenV::If(
                                    chain_to_if(
                                        chain.push(
                                            BranchV {
                                                cond: true_cond(),
                                                body: frame_nodes(s2.last()),
                                            },
                                        ),
                                    ),
                                ),
                            );
                            assert(normal_char(stack, chunk, c).stack[k] is Tag);
                        }
                    }
                } else {
                    assert(normal_char(stack, chunk, c).stack[k] is Tag);
                }
            }
            _ => {}
        }
    } else {
        assert(normal_char(stack, chunk, c).stack[k] is Tag);
    }
}

/// With an open tag frame on the stack and no closing-tag segment left in
/// the input, the parse ends in an error.
proof fn lemma_no_close_err(segs: Seq<SegV>, i: int, j: int, st: PStV)
    requires
        has_tag(st.stack),
        forall|k: int| i <= k < segs.len() ==> !(#[trigger] segs[k] is TagClosing),
    ensures
        p_from(segs, i, j, st) is Err,
    decreases segs.len() - i, lit_rem(segs, i, j),
{
    let kt = choose|k: int| 0 <= k < st.stack.len() && st.stack[k] is Tag;
    if i < 0 || i >= segs.len() {
        match st.mode {
            ModeV::Normal { chunk } => {
                lemma_flush_frames(st.stack, chunk);
                assert(flush_chunk(st.stack, chunk)[kt] is Tag);
            }
            ModeV::AwaitElse { chain, buf, .. } => {
                lemma_push_node_frames(st.stack, TokenV::If(chain_to_if(chain)));
                lemma_flush_frames(finalize_chain(st.stack, chain), buf);
                assert(flush_chunk(finalize_chain(st.stack, chain), buf)[kt] is Tag);
            }
            _ => {}
        }
    } else {
        let seg = segs[i];
        if seg is Literal && char_mode(st.mode) {
            let t = seg_text(seg);
            if j >= t.len() {
                match st.mode {
                    ModeV::Normal { chunk } => {
                        lemma_flush_frames(st.stack, chunk);
                        assert(end_of_literal(st).stack[kt] is Tag);
                    }
                    _ => {}
                }
                lemma_no_close_err(segs, i + 1, 0, end_of_literal(st));
            } else {
                let c = t[j];
                match p_char(st, c, i as usize) {
                    Ok(st2) => {
                        match st.mode {
                            ModeV::Normal { chunk } => {
                                lemma_normal_char_keeps_tag(st.stack, chunk, c);
                            }
                            ModeV::CondScan { .. } => {
                                assert(st2.stack[kt] is Tag);
                            }
                            ModeV::AwaitElse { chain, buf, phase } => {
                                if phase == 4 && c == '{' {
                                    assert(st2.stack[kt] is Tag);
                                } else if phase == 5 && c == 'f' {
                                    assert(st2.stack[kt] is Tag);
                                } else if (phase == 0 && crate::text::is_space(c)) || (phase == 0
                                    && c == 'e') || (phase == 1 && c == 'l') || (phase == 2 && c
                                    == 's') || (phase == 3 && c == 'e') || (phase == 4
                                    && crate::text::is_space(c)) || (phase == 4 && c == 'i') {
                                    assert(st2.stack[kt] is Tag);
                                } else {
                                    lemma_push_node_frames(
                                        st.stack,
                                        TokenV::If(chain_to_if(chain)),
                                    );
                                    assert(finalize_chain(st.stack, chain)[kt] is Tag);
                                    lemma_normal_char_keeps_tag(
                                        finalize_chain(st.stack, chain),
                                        buf,
                                        c,
                                    );
                                }
                            }
                            _ => {}
                        }
                        lemma_no_close_err(segs, i, j + 1, st2);
                    }
                    Err(_) => {}
                }
            }
        } else {
            match p_seg(st, seg, i as usize) {
                Ok(st2) => {
                    match st.mode {
                        ModeV::Normal { chunk } => {
                            lemma_flush_frames(st.stack, chunk);
                            let sv = flush_chunk(st.stack, chunk);
                            assert(sv[kt] is Tag);
                            lemma_normal_seg_keeps_tag(sv, seg, i as usize);
                        }
                        ModeV::AwaitAttr { name, at } => {
                            match seg {
                                SegV::Literal(lt) => {
                                    if lt.len() >= 2 && lt[lt.len() - 2] == '/' && lt[lt.len()
                                        - 1] == '>' {
                                        match attrs_of(lt.subrange(0, lt.len() - 2)) {
                                            Some(attrs) => {
                                                lemma_push_node_frames(
                                                    st.stack,
                                                    TokenV::Tag(
                                                        TagV {
                                                            name,
                                                            closing_kind:
                                                                ClosingKind::SelfClosing,
                                                            attrs,
                                                            children: Seq::empty(),
                                                        },
                                                    ),
                                                );
                                                assert(st2.stack[kt] is Tag);
                                            }
                                            None => {}
                                        }
                                    } else if lt.len() >= 1 && lt[lt.len() - 1] == '>' {
                                        assert(st2.stack[kt] is Tag);
                                    }
                                }
                                _ => {}
                            }
                        }
                        ModeV::AwaitElse { chain, buf, .. } => {
                            lemma_push_node_frames(st.stack, TokenV::If(chain_to_if(chain)));
                            let s1 = finalize_chain(st.stack, chain);
                            assert(s1[kt] is Tag);
                            lemma_flush_frames(s1, buf);
                            let s2 = flush_chunk(s1, buf);
                            assert(s2[kt] is Tag);
                            lemma_normal_seg_keeps_tag(s2, seg, i as usize);
                        }
                        _ => {}
                    }
                    lemma_no_close_err(segs, i + 1, 0, st2);
                }
                Err(_) => {}
            }
        }
    }
}

/// A content step on a whole segment that is not a closing tag never drops
/// an open tag frame.
proof fn lemma_normal_seg_keeps_tag(stack: Seq<FrameV>, seg: SegV, i: usize)
    requires
        has_tag(stack),
        !(seg is TagClosing),
    ensures
        match normal_seg(stack, seg, i) {
            Ok(st2) => has_tag(st2.stack),
            Err(_) => true,
        },
{
    let k = choose|k: int| 0 <= k < stack.len() && stack[k] is Tag;
    match seg {
        SegV::DocType(t) => {
            lemma_push_node_frames(stack, TokenV::Text(t));
            assert(push_node(stack, TokenV::Text(t))[k] is Tag);
        }
        SegV::Identifier(t) => {
            if !(t.len() >= 2 && t[0] == 'i' && t[1] == 'f') && !(t.len() >= 3 && t[0] == 'f'
                && t[1] == 'o' && t[2] == 'r') {
                lemma_push_node_frames(stack, TokenV::Placeholder(t));
                assert(push_node(stack, TokenV::Placeholder(t))[k] is Tag);
            }
        }
        SegV::TagOpening(t) => {
            if t.len() >= 3 && t[t.len() - 2] == '/' && t[t.len() - 1] == '>' {
                lemma_push_node_frames(
                    stack,
                    TokenV::Tag(
                        TagV {
                            name: t.subrange(1, t.len() - 2),
                            closing_kind: ClosingKind::SelfClosing,
                            attrs: Seq::empty(),
                            children: Seq::empty(),
                        },
                    ),
                );
                assert(push_node(
                    stack,
                    TokenV::Tag(
                        TagV {
                            name: t.subrange(1, t.len() - 2),
                            closing_kind: ClosingKind::SelfClosing,
                            attrs: Seq::empty(),
                            children: Seq::empty(),
                        },
                    ),
                )[k] is Tag);
            } else if t.len() >= 2 && t[t.len() - 1] == '>' {
                assert(stack.push(
                    FrameV::Tag {
                        name: t.subrange(1, t.len() - 1),
                        attrs: Seq::empty(),
                        nodes: Seq::empty(),
                        at: i,
                    },
                )[k] is Tag);
            }
        }
        _ => {}
    }
}

/// An opening tag never closed before end of input: a segment sequence that
/// begins with a well-formed opening tag (ending in `>`, not self-closing)
/// and holds no closing-tag segment parses to an error — deterministically,
/// and never to a partial tree, since on failure no tree is returned at
/// all.
pub proof fn lemma_unclosed_tag_fails(segs: Seq<SegV>)
    requires
        segs.len() > 0,
        segs[0] is TagOpening,
        seg_text(segs[0]).len() >= 2,
        seg_text(segs[0])[seg_text(segs[0]).len() - 1] == '>',
        !(seg_text(segs[0]).len() >= 3 && seg_text(segs[0])[seg_text(segs[0]).len() - 2] == '/'),
        forall|k: int| 0 <= k < segs.len() ==> !(#[trigger] segs[k] is TagClosing),
    ensures
        parse_spec(segs) is Err,
{
    let st0 = p_init();
    match p_seg(st0, segs[0], 0) {
        Ok(st2) => {
            let t = seg_text(segs[0]);
            assert(st2.stack == st0.stack.push(
                FrameV::Tag {
                    name: t.subrange(1, t.len() - 1),
                    attrs: Seq::empty(),
                    nodes: Seq::empty(),
                    at: 0,
                },
            ));
            assert(st2.stack[1] is Tag);
            lemma_no_close_err(segs, 1, 0, st2);
        }
        Err(_) => {}
    }
}

/// The model of an exec parsing result.
pub open spec fn parse_result_view(r: Result<Tokens, ParseError>) -> Result<
    Seq<TokenV>,
    ParseErrV,
> {
    match r {
        Ok(ts) => Ok(tokens_view(ts@)),
        Err(e) => Err(e@),
    }
}

/// One completed branch of an `if`/`else` chain (exec form).
struct Branch {
    cond: Condition,
    body: Vec<Token>,
}

/// What an open directive block will become (exec form).
enum Header {
    For { var: String, expr: String },
    If { chain: Vec<Branch>, cond: Condition },
    Else { chain: Vec<Branch> },
}

/// One open context on the parse stack (exec form).
enum Frame {
    Root { nodes: Vec<Token> },
    Tag { name: String, attrs: Vec<Attr>, nodes: Vec<Token>, at: usize },
    Block { header: Header, depth: usize, nodes: Vec<Token>, at: usize },
}

/// Which mode the parser is in; the exec counterpart of the [`ModeV`] cases.
#[derive(Debug, Clone, Copy, PartialEq, Eq)]
enum MTag {
    Normal,
    CondScan,
    AwaitAttr,
    SkipAttr,
    AwaitElse,
}

/// The model of an exec branch.
spec fn branch_view(b: Branch) -> BranchV {
    BranchV { cond: b.cond@, body: tokens_view(b.body@) }
}

/// The models of a sequence of branches.
spec fn branches_view(bs: Seq<Branch>) -> Seq<BranchV> {
    bs.map_values(|b: Branch| branch_view(b))
}

/// The model of an exec header.
spec fn header_view(h: Header) -> HeaderV {
    match h {
        Header::For { var, expr } => HeaderV::For { var: var@, expr: expr@ },
        Header::If { chain, cond } => HeaderV::If { chain: branches_view(chain@), cond: cond@ },
        Header::Else { chain } => HeaderV::Else { chain: branches_view(chain@) },
    }
}

/// The model of an exec frame.
spec fn frame_view(f: Frame) -> FrameV {
    match f {
        Frame::Root { nodes } => FrameV::Root { nodes: tokens_view(nodes@) },
        Frame::Tag { name, attrs, nodes, at } => FrameV::Tag {
            name: name@,
            attrs: attrs_view(attrs@),
            nodes: tokens_view(nodes@),
            at,
        },
        Frame::Block { header, depth, nodes, at } => FrameV::Block {
            header: header_view(header),
            depth,
            nodes: tokens_view(nodes@),
            at,
        },
    }
}

/// The models of the parse stack.
spec fn frames_view(fs: Seq<Frame>) -> Seq<FrameV> {
    fs.map_values(|f: Frame| frame_view(f))
}

/// The model of the stack keeps its length, and models it pointwise.
proof fn lemma_frames_view_index(fs: Seq<Frame>)
    ensures
        frames_view(fs).len() == fs.len(),
        forall|k: int| 0 <= k < fs.len() ==> frames_view(fs)[k] == frame_view(fs[k]),
{
}

/// The model of the flattened exec mode `(mtag, buf, chain, for_head, aname,
/// mat, phase)`.
spec fn mode_view(
    mtag: MTag,
    buf: Seq<char>,
    chain: Seq<BranchV>,
    for_head: bool,
    aname: Seq<char>,
    mat: usize,
    phase: u8,
) -> ModeV {
    match mtag {
        MTag::Normal => ModeV::Normal { chunk: buf },
        MTag::CondScan => ModeV::CondScan {
            kind: if for_head {
                CondKindV::ForHead
            } else {
                CondKindV::IfHead { chain }
            },
            buf,
            at: mat,
        },
        MTag::AwaitAttr => ModeV::AwaitAttr { name: aname, at: mat },
        MTag::SkipAttr => ModeV::SkipAttr { at: mat },
        MTag::AwaitElse => ModeV::AwaitElse { chain, buf, phase: phase as int },
    }
}

/// Appends a finished node to the innermost open context.
fn push_node_x(stack: Vec<Frame>, t: Token) -> (r: Vec<Frame>)
    ensures
        frames_view(r@) == push_node(frames_view(stack@), t.deep()),
{
    let mut stack = stack;
    let ghost sv = frames_view(stack@);
    let ghost tv = t.deep();
    match stack.pop() {
        Option::None => {
            proof {
                assert(sv =~= Seq::<FrameV>::empty());
            }
            stack
        }
        Option::Some(f) => {
            match f {
                Frame::Root { mut nodes } => {
                    let ghost nv = nodes@;
                    nodes.push(t);
                    proof {
                        crate::token::lemma_tokens_view_push(nv, nodes@.last());
                    }
                    stack.push(Frame::Root { nodes });
                }
                Frame::Tag { name, attrs, mut nodes, at } => {
                    let ghost nv = nodes@;
                    nodes.push(t);
                    proof {
                        crate::token::lemma_tokens_view_push(nv, nodes@.last());
                    }
                    stack.push(Frame::Tag { name, attrs, nodes, at });
                }
                Frame::Block { header, depth, mut nodes, at } => {
                    let ghost nv = nodes@;
                    nodes.push(t);
                    proof {
                        crate::token::lemma_tokens_view_push(nv, nodes@.last());
                    }
                    stack.push(Frame::Block { header, depth, nodes, at });
                }
            }
            proof {
                assert(frames_view(stack@) =~= push_node(sv, tv));
            }
            stack
        }
    }
}

/// Builds the nested `if` node a completed branch chain stands for.
fn chain_into_if(chain: Vec<Branch>) -> (r: If)
    requires
        chain@.len() > 0,
    ensures
        r.deep() == chain_to_if(branches_view(chain@)),
{
    let ghost origv = branches_view(chain@);
    let mut chain = chain;
    let mut cur: Option<If> = Option::None;
    while chain.len() > 0
        invariant
            chain@.len() <= origv.len(),
            branches_view(chain@) =~= origv.subrange(0, chain@.len() as int),
            match cur {
                Option::None => chain@.len() == origv.len(),
                Option::Some(f) => chain@.len() < origv.len() && f.deep() == chain_to_if(
                    origv.skip(chain@.len() as int),
                ),
            },
        decreases chain@.len(),
    {
        let ghost oldc = chain@;
        let ghost k = chain@.len() - 1;
        match chain.pop() {
            Option::Some(b) => {
                proof {
                    assert(b == oldc[k]);
                    assert(branches_view(oldc)[k] == branch_view(oldc[k]));
                    assert(origv.subrange(0, k + 1)[k] == origv[k]);
                    assert(branch_view(b) == origv[k]);
                    assert(branches_view(chain@) =~= origv.subrange(0, k));
                    if origv.skip(k).len() > 1 {
                        assert(origv.skip(k).drop_first() =~= origv.skip(k + 1));
                    }
                    assert(origv.skip(k)[0] == origv[k]);
                }
                let next = If {
                    condition: b.cond,
                    body: b.body,
                    else_part: match cur {
                        Option::None => Option::None,
                        Option::Some(f) => Option::Some(Box::new(f)),
                    },
                };
                proof {
                    assert(next.deep() == chain_to_if(origv.skip(k)));
                }
                cur = Option::Some(next);
            }
            Option::None => {
                proof {
                    assert(false);
                }
            }
        }
    }
    proof {
        assert(origv.skip(0) =~= origv);
    }
    match cur {
        Option::Some(f) => f,
        Option::None => {
            proof {
                assert(false);
            }
            If { condition: Condition::Bool(String::new()), body: Vec::new(), else_part: Option::None }
        }
    }
}

/// Yields the root's nodes from a final parse stack, or the error for the
/// innermost context still open.
fn finish_stack(stack: Vec<Frame>) -> (r: Result<Tokens, ParseError>)
    ensures
        parse_result_view(r) == stack_finish(frames_view(stack@)),
{
    let mut stack = stack;
    let ghost sv = frames_view(stack@);
    let sl = stack.len();
    proof {
        assert(sv.len() == stack@.len());
        if stack@.len() > 0 {
            assert(sv.last() == frame_view(stack@.last()));
            assert(sv[0] == frame_view(stack@[0]));
        }
    }
    if sl == 0 {
        Err(ParseError::UnterminatedBlock { at: 0 })
    } else {
        match stack.pop() {
            Option::Some(Frame::Root { nodes }) => {
                if sl == 1 {
                    Ok(nodes)
                } else {
                    Err(ParseError::UnterminatedBlock { at: 0 })
                }
            }
            Option::Some(Frame::Tag { at, .. }) => Err(ParseError::UnterminatedBlock { at }),
            Option::Some(Frame::Block { at, .. }) => Err(ParseError::UnterminatedBlock { at }),
            Option::None => {
                proof {
                    assert(false);
                }
                Err(ParseError::UnterminatedBlock { at: 0 })
            }
        }
    }
}

/// The model of the flattened exec parser state.
spec fn pst_of(
    stack: Seq<Frame>,
    mtag: MTag,
    buf: Seq<char>,
    chain: Seq<Branch>,
    for_head: bool,
    aname: Seq<char>,
    mat: usize,
    phase: u8,
) -> PStV {
    PStV {
        stack: frames_view(stack),
        mode: mode_view(mtag, buf, branches_view(chain), for_head, aname, mat, phase),
    }
}

/// How much re-dispatching a mode may still do at the current position
/// before it must consume input.
spec fn await_rank(mtag: MTag) -> int {
    match mtag {
        MTag::AwaitElse => 1,
        _ => 0,
    }
}

/// The tree parser.  It holds no state of its own: each call to
/// [`Parser::parse`] is self-contained.
pub struct Parser {}

impl Parser {
    /// Consumes the full segment sequence of one template and returns the
    /// root node sequence, or the structural error.  No partial tree is
    /// returned on failure.
    #[verifier::rlimit(100)]
    #[verifier::spinoff_prover]
    pub fn parse(token_stream: Segments) -> (r: Result<Tokens, ParseError>)
        ensures
            parse_result_view(r) == parse_spec(segs_view(token_stream@)),
    {
        let ghost gsegs = segs_view(token_stream@);
        let n = token_stream.len();
        let mut stack: Vec<Frame> = Vec::new();
        stack.push(Frame::Root { nodes: Vec::new() });
        let mut mtag = MTag::Normal;
        let mut buf: Vec<char> = Vec::new();
        let mut chain: Vec<Branch> = Vec::new();
        let mut for_head = false;
        let mut aname = String::new();
        let mut mat: usize = 0;
        let mut phase: u8 = 0;
        let mut i: usize = 0;
        proof {
            assert(frames_view(stack@) =~= seq![FrameV::Root { nodes: Seq::<TokenV>::empty() }]);
            assert(tokens_view(Seq::<Token>::empty()) =~= Seq::<TokenV>::empty());
            assert(pst_of(stack@, mtag, buf@, chain@, for_head, aname@, mat, phase) =~= p_init());
        }
        while i < n
            invariant
                i <= n == token_stream@.len(),
                gsegs == segs_view(token_stream@),
                mtag is AwaitElse ==> chain@.len() > 0,
                p_from(
                    gsegs,
                    i as int,
                    0,
                    pst_of(stack@, mtag, buf@, chain@, for_head, aname@, mat, phase),
                ) == parse_spec(gsegs),
            decreases n - i, await_rank(mtag),
        {
            proof {
                assert(gsegs[i as int] == token_stream@[i as int]@);
            }
            let seg = &token_stream[i];
            let is_lit = match seg {
                Segment::Literal(_) => true,
                _ => false,
            };
            let charm = match mtag {
                MTag::Normal => true,
                MTag::CondScan => true,
                MTag::AwaitElse => true,
                _ => false,
            };
            if is_lit && charm {
                let chars = match seg {
                    Segment::Literal(s) => str_chars(s.as_str()),
                    _ => Vec::new(),
                };
                proof {
                    assert(chars@ == seg_text(gsegs[i as int]));
                }
                let m = chars.len();
                let mut j: usize = 0;
                while j < m
                    invariant
                        j <= m == chars@.len(),
                        i < n == token_stream@.len(),
                        gsegs == segs_view(token_stream@),
                        gsegs[i as int] == token_stream@[i as int]@,
                        gsegs[i as int] is Literal,
                        chars@ == seg_text(gsegs[i as int]),
                        mtag is Normal || mtag is CondScan || mtag is AwaitElse,
                        mtag is AwaitElse ==> chain@.len() > 0,
                        p_from(
                            gsegs,
                            i as int,
                            j as int,
                            pst_of(stack@, mtag, buf@, chain@, for_head, aname@, mat, phase),
                        ) == parse_spec(gsegs),
                    decreases m - j, await_rank(mtag),
                {
                    let c = chars[j];
                    let ghost st0 = pst_of(stack@, mtag, buf@, chain@, for_head, aname@, mat, phase);
                    let ghost chunk0 = buf@;
                    let ghost chain0 = branches_view(chain@);
                    let mut advance = true;
                    match mtag {
                        MTag::Normal => {
                            let sl = stack.len();
                            let top_is_block = sl > 0 && (match &stack[sl - 1] {
                                Frame::Block { .. } => true,
                                _ => false,
                            });
                            if top_is_block && (c == '{' || c == '}') {
                                proof {
                                    assert(st0.stack.last() == frame_view(stack@.last()));
                                }
                                match stack.pop() {
                                    Option::Some(Frame::Block { header, depth, mut nodes, at }) => {
                                        if c == '{' {
                                            let d2 = if depth < usize::MAX {
                                                depth + 1
                                            } else {
                                                depth
                                            };
                                            buf.push(c);
                                            stack.push(
                                                Frame::Block { header, depth: d2, nodes, at },
                                            );
                                            proof {
                                                lemma_frames_view_index(stack@);
                                                assert(frames_view(stack@) =~= normal_char(
                                                    st0.stack,
                                                    chunk0,
                                                    c,
                                                ).stack);
                                                assert(pst_of(
                                                    stack@,
                                                    mtag,
                                                    buf@,
                                                    chain@,
                                                    for_head,
                                                    aname@,
                                                    mat,
                                                    phase,
                                                ) =~= normal_char(st0.stack, chunk0, c));
                                            }
                                        } else if depth > 0 {
                                            buf.push(c);
                                            stack.push(
                                                Frame::Block {
                                                    header,
                                                    depth: depth - 1,
                                                    nodes,
                                                    at,
                                                },
                                            );
                                            proof {
                                                lemma_frames_view_index(stack@);
                                                assert(st0.stack.last() is Block);
                                                assert(frames_view(stack@) =~= normal_char(
                                                    st0.stack,
                                                    chunk0,
                                                    c,
                                                ).stack);
                                                assert(pst_of(
                                                    stack@,
                                                    mtag,
                                                    buf@,
                                                    chain@,
                                                    for_head,
                                                    aname@,
                                                    mat,
                                                    phase,
                                                ) =~= normal_char(st0.stack, chunk0, c));
                                            }
                                        } else {
                                            if buf.len() > 0 {
                                                let tx = chars_to_string(&buf);
                                                let ghost nv = nodes@;
                                                nodes.push(Token::Text(tx));
                                                proof {
                                                    crate::token::lemma_tokens_view_push(
                                                        nv,
                                                        nodes@.last(),
                                                    );
                                                }
                                                buf.clear();
                                            }
                                            proof {
                                                lemma_frames_view_index(stack@);
                                                assert(buf@ =~= Seq::<char>::empty());
                                                let s2 = flush_chunk(st0.stack, chunk0);
                                                assert(tokens_view(nodes@) == frame_nodes(
                                                    s2.last(),
                                                ));
                                                assert(frames_view(stack@) =~= s2.drop_last());
                                            }
                                            match header {
                                                Header::For { var, expr } => {
                                                    let ghost varv = var@;
                                                    let ghost exprv = expr@;
                                                    let ghost bodyv = tokens_view(nodes@);
                                                    stack = push_node_x(
                                                        stack,
                                                        Token::For(For { var, expr, body: nodes }),
                                                    );
                                                    proof {
                                                        let s2 = flush_chunk(st0.stack, chunk0);
                                                        assert(frames_view(stack@) == push_node(
                                                            s2.drop_last(),
                                                            TokenV::For(
                                                                ForV {
                                                                    var: varv,
                                                                    expr: exprv,
                                                                    body: bodyv,
                                                                },
                                                            ),
                                                        ));
                                                        assert(pst_of(
                                                            stack@,
                                                            mtag,
                                                            buf@,
                                                            chain@,
                                                            for_head,
                                                            aname@,
                                                            mat,
                                                            phase,
                                                        ) =~= normal_char(st0.stack, chunk0, c));
                                                    }
                                                }
                                                Header::If { chain: bchain, cond } => {
                                                    let mut bchain = bchain;
                                                    bchain.push(Branch { cond, body: nodes });
                                                    proof {
                                                        assert(branches_view(bchain@)
                                                            =~= branches_view(
                                                            bchain@.drop_last(),
                                                        ).push(branch_view(bchain@.last())));
                                                    }
                                                    chain = bchain;
                                                    mtag = MTag::AwaitElse;
                                                    phase = 0;
                                                    proof {
                                                        assert(pst_of(
                                                            stack@,
                                                            mtag,
                                                            buf@,
                                                            chain@,
                                                            for_head,
                                                            aname@,
                                                            mat,
                                                            phase,
                                                        ) =~= normal_char(st0.stack, chunk0, c));
                                                    }
                                                }
                                                Header::Else { chain: bchain } => {
                                                    let mut bchain = bchain;
                                                    let ghost ob = bchain@;
                                                    proof {
                                                        reveal_strlit("true");
                                                        assert("true"@ =~= seq![
                                                            't',
                                                            'r',
                                                            'u',
                                                            'e',
                                                        ]);
                                                    }
                                                    bchain.push(
                                                        Branch {
                                                            cond: Condition::Bool(
                                                                "true".to_owned(),
                                                            ),
                                                            body: nodes,
                                                        },
                                                    );
                                                    proof {
                                                        assert(bchain@.drop_last() =~= ob);
                                                        assert(branches_view(bchain@)
                                                            =~= branches_view(
                                                            bchain@.drop_last(),
                                                        ).push(branch_view(bchain@.last())));
                                                        assert(branch_view(bchain@.last())
                                                            == (BranchV {
                                                            cond: true_cond(),
                                                            body: frame_nodes(
                                                                flush_chunk(
                                                                    st0.stack,
                                                                    chunk0,
                                                                ).last(),
                                                            ),
                                                        }));
                                                        assert(branches_view(bchain@)
                                                            == branches_view(ob).push(
                                                            BranchV {
                                                                cond: true_cond(),
                                                                body: frame_nodes(
                                                                    flush_chunk(
                                                                        st0.stack,
                                                                        chunk0,
                                                                    ).last(),
                                                                ),
                                                            },
                                                        ));
                                                    }
                                                    let ghost chv = branches_view(bchain@);
                                                    let node = Token::If(chain_into_if(bchain));
                                                    stack = push_node_x(stack, node);
                                                    proof {
                                                        let s2 = flush_chunk(st0.stack, chunk0);
                                                        assert(frames_view(stack@) == push_node(
                                                            s2.drop_last(),
                                                            TokenV::If(chain_to_if(chv)),
                                                        ));
                                                        assert(pst_of(
                                                            stack@,
                                                            mtag,
                                                            buf@,
                                                            chain@,
                                                            for_head,
                                                            aname@,
                                                            mat,
                                                            phase,
                                                        ) =~= normal_char(st0.stack, chunk0, c));
                                                    }
                                                }
                                            }
                                        }
                                    }
                                    _ => {
                                        proof {
                                            assert(false);
                                        }
                                    }
                                }
                            } else {
                                buf.push(c);
                                proof {
                                    assert(pst_of(
                                        stack@,
                                        mtag,
                                        buf@,
                                        chain@,
                                        for_head,
                                        aname@,
                                        mat,
                                        phase,
                                    ) =~= normal_char(st0.stack, chunk0, c));
                                }
                            }
                        }
                        MTag::CondScan => {
                            if c == '{' {
                                if for_head {
                                    let t = trim_chars(&buf);
                                    let tn = t.len();
                                    let mut k: usize = 0;
                                    let mut found: Option<usize> = Option::None;
                                    while k < tn && tn - k >= 4 && found.is_none()
                                        invariant
                                            k <= tn == t@.len(),
                                            match found {
                                                Option::None => find_in_from(t@, 0)
                                                    == find_in_from(t@, k as int),
                                                Option::Some(kk) => find_in_from(t@, 0) == Some(
                                                    kk as int,
                                                ) && kk + 4 <= tn,
                                            },
                                        decreases tn - k, (if found is None {
                                            1int
                                        } else {
                                            0int
                                        }),
                                    {
                                        if t[k] == ' ' && t[k + 1] == 'i' && t[k + 2] == 'n' && t[k
                                            + 3] == ' ' {
                                            found = Option::Some(k);
                                        } else {
                                            k = k + 1;
                                        }
                                    }
                                    match found {
                                        Option::Some(kk) => {
                                            let var = trim_chars(&char_sub(&t, 0, kk));
                                            let expr = trim_chars(&char_sub(&t, kk + 4, tn));
                                            stack.push(
                                                Frame::Block {
                                                    header: Header::For {
                                                        var: chars_to_string(&var),
                                                        expr: chars_to_string(&expr),
                                                    },
                                                    depth: 0,
                                                    nodes: Vec::new(),
                                                    at: mat,
                                                },
                                            );
                                            mtag = MTag::Normal;
                                            buf.clear();
                                            proof {
                                                assert(tokens_view(Seq::<Token>::empty())
                                                    =~= Seq::<TokenV>::empty());
                                                assert(pst_of(
                                                    stack@,
                                                    mtag,
                                                    buf@,
                                                    chain@,
                                                    for_head,
                                                    aname@,
                                                    mat,
                                                    phase,
                                                ) =~= (match cond_scan_char(
                                                    st0.stack,
                                                    CondKindV::ForHead,
                                                    chunk0,
                                                    mat,
                                                    c,
                                                ) {
                                                    Ok(s2) => s2,
                                                    Err(_) => st0,
                                                }));
                                            }
                                        }
                                        Option::None => {
                                            proof {
                                                assert(p_char(st0, c, i) == Err::<PStV, ParseErrV>(
                                                    ParseErrV::MalformedCondition { at: mat },
                                                ));
                                            }
                                            return Err(
                                                ParseError::MalformedCondition { at: mat },
                                            );
                                        }
                                    }
                                } else {
                                    let hs = chars_to_string(&buf);
                                    match ConditionParser::parse(hs.as_str()) {
                                        Ok(cond) => {
                                            let ch = chain;
                                            chain = Vec::new();
                                            stack.push(
                                                Frame::Block {
                                                    header: Header::If { chain: ch, cond },
                                                    depth: 0,
                                                    nodes: Vec::new(),
                                                    at: mat,
                                                },
                                            );
                                            mtag = MTag::Normal;
                                            buf.clear();
                                            proof {
                                                assert(tokens_view(Seq::<Token>::empty())
                                                    =~= Seq::<TokenV>::empty());
                                                assert(pst_of(
                                                    stack@,
                                                    mtag,
                                                    buf@,
                                                    chain@,
                                                    for_head,
                                                    aname@,
                                                    mat,
                                                    phase,
                                                ) =~= (match p_char(st0, c, i) {
                                                    Ok(s2) => s2,
                                                    Err(_) => st0,
                                                }));
                                            }
                                        }
                                        Err(_) => {
                                            proof {
                                                assert(p_char(st0, c, i) == Err::<PStV, ParseErrV>(
                                                    ParseErrV::MalformedCondition { at: mat },
                                                ));
                                            }
                                            return Err(
                                                ParseError::MalformedCondition { at: mat },
                                            );
                                        }
                                    }
                                }
                            } else {
                                buf.push(c);
                            }
                        }
                        MTag::AwaitElse => {
                            let ph = phase;
                            if ph == 0 && is_space_char(c) {
                                buf.push(c);
                            } else if ph == 0 && c == 'e' {
                                buf.push(c);
                                phase = 1;
                            } else if ph == 1 && c == 'l' {
                                buf.push(c);
                                phase = 2;
                            } else if ph == 2 && c == 's' {
                                buf.push(c);
                                phase = 3;
                            } else if ph == 3 && c == 'e' {
                                buf.push(c);
                                phase = 4;
                            } else if ph == 4 && is_space_char(c) {
                                buf.push(c);
                            } else if ph == 4 && c == '{' {
                                let ch = chain;
                                chain = Vec::new();
                                stack.push(
                                    Frame::Block {
                                        header: Header::Else { chain: ch },
                                        depth: 0,
                                        nodes: Vec::new(),
                                        at: i,
                                    },
                                );
                                mtag = MTag::Normal;
                                buf.clear();
                                phase = 0;
                                proof {
                                    assert(tokens_view(Seq::<Token>::empty())
                                        =~= Seq::<TokenV>::empty());
                                    assert(pst_of(
                                        stack@,
                                        mtag,
                                        buf@,
                                        chain@,
                                        for_head,
                                        aname@,
                                        mat,
                                        phase,
                                    ) =~= await_else_char(st0.stack, chain0, chunk0, ph as int, c, i));
                                }
                            } else if ph == 4 && c == 'i' {
                                buf.push(c);
                                phase = 5;
                            } else if ph == 5 && c == 'f' {
                                mtag = MTag::CondScan;
                                for_head = false;
                                buf.clear();
                                mat = i;
                                phase = 0;
                                proof {
                                    assert(pst_of(
                                        stack@,
                                        mtag,
                                        buf@,
                                        chain@,
                                        for_head,
                                        aname@,
                                        mat,
                                        phase,
                                    ) =~= await_else_char(st0.stack, chain0, chunk0, ph as int, c, i));
                                }
                            } else {
                                let ch = chain;
                                chain = Vec::new();
                                let node = Token::If(chain_into_if(ch));
                                stack = push_node_x(stack, node);
                                mtag = MTag::Normal;
                                phase = 0;
                                advance = false;
                                proof {
                                    assert(frames_view(stack@) == finalize_chain(
                                        st0.stack,
                                        chain0,
                                    ));
                                    let stn = pst_of(
                                        stack@,
                                        mtag,
                                        buf@,
                                        chain@,
                                        for_head,
                                        aname@,
                                        mat,
                                        phase,
                                    );
                                    assert(p_char(stn, c, i) == p_char(st0, c, i));
                                    assert(p_from(gsegs, i as int, j as int, stn) == p_from(
                                        gsegs,
                                        i as int,
                                        j as int,
                                        st0,
                                    ));
                                }
                            }
                        }
                        _ => {
                            proof {
                                assert(false);
                            }
                        }
                    }
                    if advance {
                        proof {
                            let stn = pst_of(
                                stack@,
                                mtag,
                                buf@,
                                chain@,
                                for_head,
                                aname@,
                                mat,
                                phase,
                            );
                            assert(stn =~= (match p_char(st0, c, i) {
                                Ok(s2) => s2,
                                Err(_) => stn,
                            }));
                            assert(p_char(st0, c, i) == Ok::<PStV, ParseErrV>(stn));
                        }
                        j = j + 1;
                    }
                }
                let ghost st_l = pst_of(stack@, mtag, buf@, chain@, for_head, aname@, mat, phase);
                match mtag {
                    MTag::Normal => {
                        if buf.len() > 0 {
                            let tx = chars_to_string(&buf);
                            stack = push_node_x(stack, Token::Text(tx));
                            buf.clear();
                        }
                    }
                    _ => {}
                }
                proof {
                    assert(pst_of(stack@, mtag, buf@, chain@, for_head, aname@, mat, phase)
                        =~= end_of_literal(st_l));
                }
                i = i + 1;
            } else {
                let ghost st0 = pst_of(stack@, mtag, buf@, chain@, for_head, aname@, mat, phase);
                let ghost chunk0 = buf@;
                let ghost chain0 = branches_view(chain@);
                let mut advance = true;
                match mtag {
                    MTag::Normal => {
                        if buf.len() > 0 {
                            let tx = chars_to_string(&buf);
                            stack = push_node_x(stack, Token::Text(tx));
                            buf.clear();
                        }
                        let ghost sv = frames_view(stack@);
                        proof {
                            assert(sv == flush_chunk(st0.stack, chunk0));
                        }
                        match seg {
                            Segment::Literal(_) => {
                                buf.clear();
                            }
                            Segment::DocType(s) => {
                                stack = push_node_x(stack, Token::Text(s.clone()));
                            }
                            Segment::Identifier(s) => {
                                let cs = str_chars(s.as_str());
                                let cl = cs.len();
                                if cl >= 2 && cs[0] == 'i' && cs[1] == 'f' {
                                    buf = char_sub(&cs, 2, cl);
                                    proof {
                                        assert(buf@ =~= s@.skip(2));
                                    }
                                    mtag = MTag::CondScan;
                                    for_head = false;
                                    chain = Vec::new();
                                    mat = i;
                                    proof {
                                        assert(branches_view(chain@)
                                            =~= Seq::<BranchV>::empty());
                                    }
                                } else if cl >= 3 && cs[0] == 'f' && cs[1] == 'o' && cs[2] == 'r' {
                                    buf = char_sub(&cs, 3, cl);
                                    proof {
                                        assert(buf@ =~= s@.skip(3));
                                    }
                                    mtag = MTag::CondScan;
                                    for_head = true;
                                    mat = i;
                                } else {
                                    stack = push_node_x(stack, Token::Placeholder(s.clone()));
                                }
                            }
                            Segment::TagOpening(s) => {
                                let cs = str_chars(s.as_str());
                                let cl = cs.len();
                                if cl >= 3 && cs[cl - 2] == '/' && cs[cl - 1] == '>' {
                                    let nm = chars_to_string(&char_sub(&cs, 1, cl - 2));
                                    proof {
                                        assert(attrs_view(Seq::<Attr>::empty())
                                            =~= Seq::<AttrV>::empty());
                                        assert(tokens_view(Seq::<Token>::empty())
                                            =~= Seq::<TokenV>::empty());
                                    }
                                    stack = push_node_x(
                                        stack,
                                        Token::Tag(
                                            Tag {
                                                name: nm,
                                                closing_kind: ClosingKind::SelfClosing,
                                                attrs: Vec::new(),
                                                children: Vec::new(),
                                            },
                                        ),
                                    );
                                } else if cl >= 2 && cs[cl - 1] == '>' {
                                    let nm = chars_to_string(&char_sub(&cs, 1, cl - 1));
                                    proof {
                                        assert(attrs_view(Seq::<Attr>::empty())
                                            =~= Seq::<AttrV>::empty());
                                        assert(tokens_view(Seq::<Token>::empty())
                                            =~= Seq::<TokenV>::empty());
                                    }
                                    stack.push(
                                        Frame::Tag {
                                            name: nm,
                                            attrs: Vec::new(),
                                            nodes: Vec::new(),
                                            at: i,
                                        },
                                    );
                                } else if cl >= 2 && cs[cl - 1] == ' ' {
                                    aname = chars_to_string(&char_sub(&cs, 1, cl - 1));
                                    mtag = MTag::AwaitAttr;
                                    mat = i;
                                } else {
                                    proof {
                                        assert(p_seg(st0, gsegs[i as int], i) == Err::<PStV, ParseErrV>(
                                            ParseErrV::MalformedAttribute { at: i },
                                        ));
                                    }
                                    return Err(ParseError::MalformedAttribute { at: i });
                                }
                            }
                            Segment::TagClosing(s) => {
                                let cs = str_chars(s.as_str());
                                let cl = cs.len();
                                let mut lo: usize = 0;
                                if cl > 0 && cs[0] == '<' {
                                    lo = 1;
                                }
                                if cl > lo && cs[lo] == '/' {
                                    lo = lo + 1;
                                }
                                let mut hi = cl;
                                if hi > lo && (cs[hi - 1] == '>' || cs[hi - 1] == ' ') {
                                    hi = hi - 1;
                                }
                                let nmv = char_sub(&cs, lo, hi);
                                proof {
                                    let t = s@;
                                    let a = if t.len() > 0 && t[0] == '<' {
                                        t.drop_first()
                                    } else {
                                        t
                                    };
                                    let b = if a.len() > 0 && a[0] == '/' {
                                        a.drop_first()
                                    } else {
                                        a
                                    };
                                    assert(a =~= t.subrange(
                                        (if t.len() > 0 && t[0] == '<' {
                                            1int
                                        } else {
                                            0int
                                        }),
                                        t.len() as int,
                                    ));
                                    assert(b =~= t.subrange(lo as int, t.len() as int));
                                    assert(nmv@ =~= closing_name(t));
                                }
                                let ends_space = cl > 0 && cs[cl - 1] == ' ';
                                let sl = stack.len();
                                let top_is_tag = sl > 0 && (match &stack[sl - 1] {
                                    Frame::Tag { .. } => true,
                                    _ => false,
                                });
                                if top_is_tag {
                                    proof {
                                        assert(sv.last() == frame_view(stack@.last()));
                                    }
                                    match stack.pop() {
                                        Option::Some(Frame::Tag { name: fname, attrs, nodes, at }) => {
                                            let nm = chars_to_string(&nmv);
                                            if fname == nm {
                                                let node = Token::Tag(
                                                    Tag {
                                                        name: fname,
                                                        closing_kind: ClosingKind::Opening,
                                                        attrs,
                                                        children: nodes,
                                                    },
                                                );
                                                proof {
                                                    assert(frames_view(stack@)
                                                        =~= sv.drop_last());
                                                }
                                                stack = push_node_x(stack, node);
                                                if ends_space {
                                                    mtag = MTag::SkipAttr;
                                                    mat = i;
                                                } else {
                                                    buf.clear();
                                                }
                                            } else {
                                                proof {
                                                    assert(p_seg(st0, gsegs[i as int], i) == Err::<PStV, ParseErrV>(
                                                        ParseErrV::TagMismatch {
                                                            expected: fname@,
                                                            found: nmv@,
                                                            at: i,
                                                        },
                                                    ));
                                                }
                                                return Err(
                                                    ParseError::TagMismatch {
                                                        expected: fname,
                                                        found: nm,
                                                        at: i,
                                                    },
                                                );
                                            }
                                        }
                                        _ => {
                                            proof {
                                                assert(false);
                                            }
                                            return Err(
                                                ParseError::UnterminatedBlock { at: 0 },
                                            );
                                        }
                                    }
                                } else {
                                    let nm = chars_to_string(&nmv);
                                    proof {
                                        assert(p_seg(st0, gsegs[i as int], i) == Err::<PStV, ParseErrV>(
                                            ParseErrV::TagMismatch {
                                                expected: Seq::<char>::empty(),
                                                found: nmv@,
                                                at: i,
                                            },
                                        ));
                                    }
                                    return Err(
                                        ParseError::TagMismatch {
                                            expected: String::new(),
                                            found: nm,
                                            at: i,
                                        },
                                    );
                                }
                            }
                        }
                    }
                    MTag::CondScan => {
                        proof {
                            assert(p_seg(st0, gsegs[i as int], i) == Err::<PStV, ParseErrV>(
                                ParseErrV::MalformedCondition { at: mat },
                            ));
                        }
                        return Err(ParseError::MalformedCondition { at: mat });
                    }
                    MTag::AwaitAttr => {
                        match seg {
                            Segment::Literal(s) => {
                                let cs = str_chars(s.as_str());
                                let cl = cs.len();
                                if cl >= 2 && cs[cl - 2] == '/' && cs[cl - 1] == '>' {
                                    let region = chars_to_string(&char_sub(&cs, 0, cl - 2));
                                    match AttributeParser::parse(region.as_str()) {
                                        Ok(attrs) => {
                                            let nm = aname;
                                            aname = String::new();
                                            proof {
                                                assert(tokens_view(Seq::<Token>::empty())
                                                    =~= Seq::<TokenV>::empty());
                                            }
                                            stack = push_node_x(
                                                stack,
                                                Token::Tag(
                                                    Tag {
                                                        name: nm,
                                                        closing_kind: ClosingKind::SelfClosing,
                                                        attrs,
                                                        children: Vec::new(),
                                                    },
                                                ),
                                            );
                                            mtag = MTag::Normal;
                                            buf.clear();
                                        }
                                        Err(_) => {
                                            proof {
                                                assert(p_seg(st0, gsegs[i as int], i) == Err::<PStV, ParseErrV>(
                                                    ParseErrV::MalformedAttribute { at: i },
                                                ));
                                            }
                                            return Err(
                                                ParseError::MalformedAttribute { at: i },
                                            );
                                        }
                                    }
                                } else if cl >= 1 && cs[cl - 1] == '>' {
                                    let region = chars_to_string(&char_sub(&cs, 0, cl - 1));
                                    match AttributeParser::parse(region.as_str()) {
                                        Ok(attrs) => {
                                            let nm = aname;
                                            aname = String::new();
                                            proof {
                                                assert(tokens_view(Seq::<Token>::empty())
                                                    =~= Seq::<TokenV>::empty());
                                            }
                                            stack.push(
                                                Frame::Tag {
                                                    name: nm,
                                                    attrs,
                                                    nodes: Vec::new(),
                                                    at: mat,
                                                },
                                            );
                                            mtag = MTag::Normal;
                                            buf.clear();
                                        }
                                        Err(_) => {
                                            proof {
                                                assert(p_seg(st0, gsegs[i as int], i) == Err::<PStV, ParseErrV>(
                                                    ParseErrV::MalformedAttribute { at: i },
                                                ));
                                            }
                                            return Err(
                                                ParseError::MalformedAttribute { at: i },
                                            );
                                        }
                                    }
                                } else {
                                    proof {
                                        assert(p_seg(st0, gsegs[i as int], i) == Err::<PStV, ParseErrV>(
                                            ParseErrV::MalformedAttribute { at: i },
                                        ));
                                    }
                                    return Err(ParseError::MalformedAttribute { at: i });
                                }
                            }
                            _ => {
                                proof {
                                    assert(p_seg(st0, gsegs[i as int], i) == Err::<PStV, ParseErrV>(
                                        ParseErrV::MalformedAttribute { at: i },
                                    ));
                                }
                                return Err(ParseError::MalformedAttribute { at: i });
                            }
                        }
                    }
                    MTag::SkipAttr => {
                        match seg {
                            Segment::Literal(s) => {
                                let cs = str_chars(s.as_str());
                                let cl = cs.len();
                                if cl >= 1 && cs[cl - 1] == '>' {
                                    mtag = MTag::Normal;
                                    buf.clear();
                                } else {
                                    proof {
                                        assert(p_seg(st0, gsegs[i as int], i) == Err::<PStV, ParseErrV>(
                                            ParseErrV::MalformedAttribute { at: i },
                                        ));
                                    }
                                    return Err(ParseError::MalformedAttribute { at: i });
                                }
                            }
                            _ => {
                                proof {
                                    assert(p_seg(st0, gsegs[i as int], i) == Err::<PStV, ParseErrV>(
                                        ParseErrV::MalformedAttribute { at: i },
                                    ));
                                }
                                return Err(ParseError::MalformedAttribute { at: i });
                            }
                        }
                    }
                    MTag::AwaitElse => {
                        let ch = chain;
                        chain = Vec::new();
                        stack = push_node_x(stack, Token::If(chain_into_if(ch)));
                        if buf.len() > 0 {
                            let tx = chars_to_string(&buf);
                            stack = push_node_x(stack, Token::Text(tx));
                            buf.clear();
                        }
                        mtag = MTag::Normal;
                        phase = 0;
                        advance = false;
                        proof {
                            assert(frames_view(stack@) == flush_chunk(
                                finalize_chain(st0.stack, chain0),
                                chunk0,
                            ));
                            let stn = pst_of(
                                stack@,
                                mtag,
                                buf@,
                                chain@,
                                for_head,
                                aname@,
                                mat,
                                phase,
                            );
                            assert(p_seg(stn, gsegs[i as int], i) == p_seg(
                                st0,
                                gsegs[i as int],
                                i,
                            ));
                            assert(p_from(gsegs, i as int, 0, stn) == p_from(
                                gsegs,
                                i as int,
                                0,
                                st0,
                            ));
                        }
                    }
                }
                if advance {
                    proof {
                        let stn = pst_of(stack@, mtag, buf@, chain@, for_head, aname@, mat, phase);
                        assert(stn =~= (match p_seg(st0, gsegs[i as int], i) {
                            Ok(s2) => s2,
                            Err(_) => stn,
                        }));
                        assert(p_seg(st0, gsegs[i as int], i) == Ok::<PStV, ParseErrV>(stn));
                    }
                    i = i + 1;
                }
            }
        }
        let ghost st_f = pst_of(stack@, mtag, buf@, chain@, for_head, aname@, mat, phase);
        match mtag {
            MTag::CondScan => {
                proof {
                    assert(p_finish(st_f) == Err::<Seq<TokenV>, ParseErrV>(ParseErrV::MalformedCondition { at: mat }));
                }
                Err(ParseError::MalformedCondition { at: mat })
            }
            MTag::AwaitAttr => {
                proof {
                    assert(p_finish(st_f) == Err::<Seq<TokenV>, ParseErrV>(ParseErrV::MalformedAttribute { at: mat }));
                }
                Err(ParseError::MalformedAttribute { at: mat })
            }
            MTag::SkipAttr => {
                proof {
                    assert(p_finish(st_f) == Err::<Seq<TokenV>, ParseErrV>(ParseErrV::MalformedAttribute { at: mat }));
                }
                Err(ParseError::MalformedAttribute { at: mat })
            }
            MTag::AwaitElse => {
                let ghost chv = branches_view(chain@);
                let ghost bufv = buf@;
                let ch = chain;
                chain = Vec::new();
                stack = push_node_x(stack, Token::If(chain_into_if(ch)));
                if buf.len() > 0 {
                    let tx = chars_to_string(&buf);
                    stack = push_node_x(stack, Token::Text(tx));
                    buf.clear();
                }
                proof {
                    assert(frames_view(stack@) == flush_chunk(
                        finalize_chain(st_f.stack, chv),
                        bufv,
                    ));
                    assert(p_finish(st_f) == stack_finish(frames_view(stack@)));
                }
                finish_stack(stack)
            }
            MTag::Normal => {
                let ghost bufv = buf@;
                if buf.len() > 0 {
                    let tx = chars_to_string(&buf);
                    stack = push_node_x(stack, Token::Text(tx));
                    buf.clear();
                }
                proof {
                    assert(frames_view(stack@) == flush_chunk(st_f.stack, bufv));
                    assert(p_finish(st_f) == stack_finish(frames_view(stack@)));
                }
                finish_stack(stack)
            }
        }
    }
}

} // verus!
