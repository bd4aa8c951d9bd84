//! The context lexer: scans raw template bytes into a flat, ordered sequence
//! of classified [`Segment`]s.
//!
//! The scanner is a finite-state machine with one dispatch step per input
//! byte.  Its exact behaviour is given by the specification function
//! [`lex_spec`], and [`Lexer::lex`] is proved to return precisely that result.
//!
//! Lexing rules, in priority order:
//! - `<` flushes any pending literal and begins a tag scan.  `<!` starts a
//!   doctype declaration, which runs through the next newline and is emitted
//!   whole (newline included) as a [`Segment::DocType`].  A `/` directly after
//!   `<` marks a closing tag; the slash is kept in the emitted text, so the
//!   closing of `<div>` is emitted as `</div>`.  A space ends the tag-name
//!   scan and emits the text so far (trailing space included) as a tag
//!   segment; the attribute region that follows accumulates up to and
//!   including the next `>` and is emitted as a [`Segment::Literal`].  A `>`
//!   ends the tag directly.  A slash elsewhere in a tag (as in `<br/>`) is
//!   kept, so self-closing tags stay recognisable downstream.
//! - `@`, seen in body context only, starts a directive: the characters up to
//!   the next space become a [`Segment::Identifier`] and the terminating
//!   space is discarded.  A `<` also ends the directive (so `@y</a>` yields
//!   the identifier `y`); the `<` is then handled as a tag start.  Inside a
//!   tag or attribute region, `@` is an ordinary character.
//! - Every other byte, newlines included, joins the pending literal.
//! - At end of input a nonempty pending literal is flushed as a final
//!   [`Segment::Literal`]; an unfinished tag or doctype is
//!   [`LexError::UnterminatedTag`] and an unfinished directive is
//!   [`LexError::UnterminatedDirective`], each carrying the byte offset at
//!   which the construct began.
//!
//! Bytes are widened to characters one-for-one (`b as char`), so the segment
//! text of ASCII input is the input itself.

use vstd::prelude::*;

use crate::text::chars_to_string;

verus! {

/// One classified span of raw template text.
#[derive(Debug, Clone, PartialEq, Eq)]
pub enum Segment {
    /// The text of a directive head following `@` (terminating space excluded).
    Identifier(String),
    /// An opening tag: `<name>`, `<name ` (attributes follow) or `<name/>`.
    TagOpening(String),
    /// A closing tag: `</name>` or `</name `.
    TagClosing(String),
    /// A doctype declaration, `<!` through the newline that ends it.
    DocType(String),
    /// Verbatim text, or the attribute region following a space-terminated tag.
    Literal(String),
}

pub type Segments = Vec<Segment>;

/// The mathematical model of a [`Segment`]: the same classification over a
/// sequence of characters.
#[verifier::ext_equal]
pub enum SegV {
    Identifier(Seq<char>),
    TagOpening(Seq<char>),
    TagClosing(Seq<char>),
    DocType(Seq<char>),
    Literal(Seq<char>),
}

impl View for Segment {
    type V = SegV;

    open spec fn view(&self) -> SegV {
        match self {
            Segment::Identifier(s) => SegV::Identifier(s@),
            Segment::TagOpening(s) => SegV::TagOpening(s@),
            Segment::TagClosing(s) => SegV::TagClosing(s@),
            Segment::DocType(s) => SegV::DocType(s@),
            Segment::Literal(s) => SegV::Literal(s@),
        }
    }
}

/// The models of a sequence of segments.
pub open spec fn segs_view(segs: Seq<Segment>) -> Seq<SegV> {
    segs.map_values(|s: Segment| s@)
}

/// Which region of the template the lexer is witnessing.
#[derive(Debug, PartialEq, Eq, Copy, Clone, Structural)]
pub enum ContextCase {
    /// Witnessing a tag declaration.
    Tag,
    /// Witnessing an attribute declaration.
    Attribute,
    /// Inside a body.
    Body,
}

/// A finer-grained flag: which declaration, if any, is in progress within
/// the current context.
#[derive(Debug, PartialEq, Eq, Copy, Clone, Structural)]
pub enum Event {
    AttributeDeclarationEvent,
    TagDeclarationEvent,
    /// Witnessing nothing: plain body or tag content.
    Body,
}

/// Transient scanning state: the current context case, the current event,
/// and an accumulating literal buffer.  It exists only for the duration of
/// one scan and is never shared.
#[derive(Debug, PartialEq, Eq, Clone)]
pub struct Context {
    ctx: ContextCase,
    event: Event,
    literal: Vec<char>,
}

impl Context {
    /// The current context case.
    pub closed spec fn spec_ctx(self) -> ContextCase {
        self.ctx
    }

    /// The current event.
    pub closed spec fn spec_event(self) -> Event {
        self.event
    }

    /// The accumulated literal text.
    pub closed spec fn spec_literal(self) -> Seq<char> {
        self.literal@
    }

    /// A fresh context: in the parent body, witnessing nothing, with an
    /// empty literal buffer.
    pub fn new() -> (r: Self)
        ensures
            r.spec_ctx() == ContextCase::Body,
            r.spec_event() == Event::Body,
            r.spec_literal() == Seq::<char>::empty(),
    {
        Context { ctx: ContextCase::Body, event: Event::Body, literal: Vec::new() }
    }

    /// Sets the context case, leaving event and literal unchanged.
    pub fn set_context(&mut self, ctx: ContextCase)
        ensures
            final(self).spec_ctx() == ctx,
            final(self).spec_event() == old(self).spec_event(),
            final(self).spec_literal() == old(self).spec_literal(),
    {
        self.ctx = ctx
    }

    /// Sets the event, leaving context case and literal unchanged.
    pub fn set_event(&mut self, event: Event)
        ensures
            final(self).spec_ctx() == old(self).spec_ctx(),
            final(self).spec_event() == event,
            final(self).spec_literal() == old(self).spec_literal(),
    {
        self.event = event
    }

    /// Whether the current context case is `ctx`.
    pub fn context_is(&self, ctx: ContextCase) -> (r: bool)
        ensures
            r == (self.spec_ctx() == ctx),
    {
        if self.ctx == ctx {
            true
        } else {
            false
        }
    }

    /// Whether the current event is `event`.
    pub fn event_is(&self, event: Event) -> (r: bool)
        ensures
            r == (self.spec_event() == event),
    {
        if self.event == event {
            true
        } else {
            false
        }
    }

    /// Appends one character to the literal buffer.
    pub fn push(&mut self, byte: char)
        ensures
            final(self).spec_ctx() == old(self).spec_ctx(),
            final(self).spec_event() == old(self).spec_event(),
            final(self).spec_literal() == old(self).spec_literal().push(byte),
    {
        self.literal.push(byte)
    }

    /// Takes the accumulated literal text, leaving the buffer empty.
    pub fn break_literal_ctx(&mut self) -> (r: String)
        ensures
            r@ == old(self).spec_literal(),
            final(self).spec_ctx() == old(self).spec_ctx(),
            final(self).spec_event() == old(self).spec_event(),
            final(self).spec_literal() == Seq::<char>::empty(),
    {
        let string = chars_to_string(&self.literal);
        self.literal.clear();
        string
    }

    /// Whether the buffer holds literal text worth emitting: nonempty and
    /// not a lone newline.
    pub fn has_literal_context(&self) -> (r: bool)
        ensures
            r == !(self.spec_literal().len() == 0 || self.spec_literal() == seq!['\n']),
    {
        if self.literal.len() == 0 || (self.literal.len() == 1 && self.literal[0] == '\n') {
            proof {
                if self.literal@.len() == 1 && self.literal@[0] == '\n' {
                    assert(self.literal@ =~= seq!['\n']);
                }
            }
            false
        } else {
            true
        }
    }
}

/// A structural lexing failure; the payload is the byte offset at which the
/// offending construct began.
#[derive(Debug, Clone, Copy, PartialEq, Eq, Structural)]
pub enum LexError {
    /// A `<...` that reached end of input before a space, `>`, or — for a
    /// doctype — the terminating newline.
    UnterminatedTag(usize),
    /// An `@...` directive that reached end of input before a terminating
    /// space or `<`.
    UnterminatedDirective(usize),
}

/// The lexer state: which scan is in progress, where it began, and the text
/// accumulated so far.
#[verifier::ext_equal]
pub enum LexStV {
    /// Body context: accumulating literal text.
    Body { lit: Seq<char> },
    /// Scanning a tag name after `<`; `closing` records a leading slash.
    TagName { start: usize, buf: Seq<char>, closing: bool },
    /// Scanning a doctype declaration after `<!`, through the next newline.
    Doc { start: usize, buf: Seq<char> },
    /// Scanning the attribute region after a space-terminated tag name,
    /// through the next `>`.
    AttrRegion { start: usize, buf: Seq<char> },
    /// Scanning a directive identifier after `@`.
    Ident { start: usize, buf: Seq<char> },
}

/// What the lexer yields at end of input, given its final state.
pub open spec fn lex_finish(st: LexStV, acc: Seq<SegV>) -> Result<Seq<SegV>, LexError> {
    match st {
        LexStV::Body { lit } => Ok(
            if lit.len() > 0 {
                acc.push(SegV::Literal(lit))
            } else {
                acc
            },
        ),
        LexStV::TagName { start, .. } => Err(LexError::UnterminatedTag(start)),
        LexStV::Doc { start, .. } => Err(LexError::UnterminatedTag(start)),
        LexStV::AttrRegion { start, .. } => Err(LexError::UnterminatedTag(start)),
        LexStV::Ident { start, .. } => Err(LexError::UnterminatedDirective(start)),
    }
}

/// One dispatch step of the scanner on the byte `b` at offset `i`: the
/// successor state and the segment emitted by this byte, if any.
pub open spec fn lex_step(st: LexStV, b: u8, i: usize) -> (LexStV, Option<SegV>) {
    let c = b as char;
    match st {
        LexStV::Body { lit } => {
            if b == '<' as u8 {
                let emitted = if lit.len() > 0 {
                    Some(SegV::Literal(lit))
                } else {
                    None
                };
                (LexStV::TagName { start: i, buf: seq!['<'], closing: false }, emitted)
            } else if b == '@' as u8 {
                let emitted = if lit.len() > 0 {
                    Some(SegV::Literal(lit))
                } else {
                    None
                };
                (LexStV::Ident { start: i, buf: Seq::empty() }, emitted)
            } else {
                (LexStV::Body { lit: lit.push(c) }, None)
            }
        }
        LexStV::TagName { start, buf, closing } => {
            if b == '!' as u8 && buf == seq!['<'] && !closing {
                (LexStV::Doc { start, buf: seq!['<', '!'] }, None)
            } else if b == '/' as u8 && buf == seq!['<'] && !closing {
                (LexStV::TagName { start, buf: seq!['<', '/'], closing: true }, None)
            } else if b == ' ' as u8 {
                let text = buf.push(' ');
                let seg = if closing {
                    SegV::TagClosing(text)
                } else {
                    SegV::TagOpening(text)
                };
                (LexStV::AttrRegion { start, buf: Seq::empty() }, Some(seg))
            } else if b == '>' as u8 {
                let text = buf.push('>');
                let seg = if closing {
                    SegV::TagClosing(text)
                } else {
                    SegV::TagOpening(text)
                };
                (LexStV::Body { lit: Seq::empty() }, Some(seg))
            } else {
                (LexStV::TagName { start, buf: buf.push(c), closing }, None)
            }
        }
        LexStV::Doc { start, buf } => {
            if b == '\n' as u8 {
                (LexStV::Body { lit: Seq::empty() }, Some(SegV::DocType(buf.push('\n'))))
            } else {
                (LexStV::Doc { start, buf: buf.push(c) }, None)
            }
        }
        LexStV::AttrRegion { start, buf } => {
            if b == '>' as u8 {
                (LexStV::Body { lit: Seq::empty() }, Some(SegV::Literal(buf.push('>'))))
            } else {
                (LexStV::AttrRegion { start, buf: buf.push(c) }, None)
            }
        }
        LexStV::Ident { start, buf } => {
            if b == ' ' as u8 {
                (LexStV::Body { lit: Seq::empty() }, Some(SegV::Identifier(buf)))
            } else if b == '<' as u8 {
                (LexStV::TagName { start: i, buf: seq!['<'], closing: false }, Some(
                    SegV::Identifier(buf),
                ))
            } else {
                (LexStV::Ident { start, buf: buf.push(c) }, None)
            }
        }
    }
}

/// The result of scanning `input` from offset `i` onward, starting in state
/// `st` with the segments `acc` already emitted.
pub open spec fn lex_from(input: Seq<u8>, i: int, st: LexStV, acc: Seq<SegV>) -> Result<
    Seq<SegV>,
    LexError,
>
    decreases input.len() - i,
{
    if i < 0 || i >= input.len() {
        lex_finish(st, acc)
    } else {
        let (st2, emitted) = lex_step(st, input[i], i as usize);
        let acc2 = match emitted {
            Some(seg) => acc.push(seg),
            None => acc,
        };
        lex_from(input, i + 1, st2, acc2)
    }
}

/// The segment sequence of a raw template, or the lexing error.
pub open spec fn lex_spec(input: Seq<u8>) -> Result<Seq<SegV>, LexError> {
    lex_from(input, 0, LexStV::Body { lit: Seq::empty() }, Seq::empty())
}

/// The model of an exec lexing result.
pub open spec fn lex_result_view(r: Result<Segments, LexError>) -> Result<Seq<SegV>, LexError> {
    match r {
        Ok(segs) => Ok(segs_view(segs@)),
        Err(e) => Err(e),
    }
}

/// The characters a byte sequence widens to, one per byte.
pub open spec fn chars_of(input: Seq<u8>) -> Seq<char> {
    input.map_values(|b: u8| b as char)
}

/// Scanning input that holds neither `<` nor `@` from body context only
/// grows the pending literal, and ends in exactly that literal.
proof fn lemma_plain_from(input: Seq<u8>, i: int, lit: Seq<char>, acc: Seq<SegV>)
    requires
        0 <= i <= input.len(),
        forall|k: int|
            i <= k < input.len() ==> input[k] != '<' as u8 && input[k] != '@' as u8,
        lit.len() + input.len() - i > 0,
    ensures
        lex_from(input, i, LexStV::Body { lit }, acc) == Ok::<Seq<SegV>, LexError>(
            acc.push(SegV::Literal(lit + chars_of(input.skip(i)))),
        ),
    decreases input.len() - i,
{
    if i >= input.len() {
        assert(lit + chars_of(input.skip(i)) =~= lit);
    } else {
        lemma_plain_from(input, i + 1, lit.push(input[i] as char), acc);
        assert(lit.push(input[i] as char) + chars_of(input.skip(i + 1)) =~= lit + chars_of(
            input.skip(i),
        ));
    }
}

/// For input containing no `<` and no `@`, the lexer yields exactly one
/// literal segment equal to the entire input (as characters).
pub proof fn lemma_plain_input_single_literal(input: Seq<u8>)
    requires
        input.len() > 0,
        forall|k: int|
            0 <= k < input.len() ==> input[k] != '<' as u8 && input[k] != '@' as u8,
    ensures
        lex_spec(input) == Ok::<Seq<SegV>, LexError>(seq![SegV::Literal(chars_of(input))]),
{
    lemma_plain_from(input, 0, Seq::empty(), Seq::empty());
    assert(Seq::<char>::empty() + chars_of(input.skip(0)) =~= chars_of(input));
    assert(Seq::<SegV>::empty().push(SegV::Literal(chars_of(input))) =~= seq![
        SegV::Literal(chars_of(input)),
    ]);
}

/// Which scan is in progress; the exec counterpart of the [`LexStV`] cases.
enum LexMode {
    Body,
    TagName,
    Doc,
    AttrRegion,
    Ident,
}

/// The model of the exec scanner state `(mode, start, closing, buf)`.
spec fn lex_st_view(mode: LexMode, start: usize, closing: bool, buf: Seq<char>) -> LexStV {
    match mode {
        LexMode::Body => LexStV::Body { lit: buf },
        LexMode::TagName => LexStV::TagName { start, buf, closing },
        LexMode::Doc => LexStV::Doc { start, buf },
        LexMode::AttrRegion => LexStV::AttrRegion { start, buf },
        LexMode::Ident => LexStV::Ident { start, buf },
    }
}

/// The context lexer.  It holds no state of its own: each call to
/// [`Lexer::lex`] is self-contained.
#[derive(Debug, PartialEq, Eq, Copy, Clone)]
pub struct Lexer {}

impl Lexer {
    /// Scans the full raw byte content of one template into its segment
    /// sequence, or reports the structural error.
    pub fn lex(stream: Vec<u8>) -> (r: Result<Segments, LexError>)
        ensures
            lex_result_view(r) == lex_spec(stream@),
    {
        let n = stream.len();
        let mut i: usize = 0;
        let mut mode = LexMode::Body;
        let mut start: usize = 0;
        let mut closing = false;
        let mut buf: Vec<char> = Vec::new();
        let mut out: Segments = Vec::new();
        proof {
            assert(segs_view(out@) =~= Seq::<SegV>::empty());
        }
        while i < n
            invariant
                n == stream@.len(),
                i <= n,
                lex_from(stream@, i as int, lex_st_view(mode, start, closing, buf@), segs_view(out@))
                    == lex_spec(stream@),
            decreases n - i,
        {
            let b = stream[i];
            let ghost st0 = lex_st_view(mode, start, closing, buf@);
            let ghost acc0 = segs_view(out@);
            match mode {
                LexMode::Body => {
                    if b == '<' as u8 {
                        if buf.len() > 0 {
                            let text = chars_to_string(&buf);
                            out.push(Segment::Literal(text));
                            buf.clear();
                        }
                        mode = LexMode::TagName;
                        start = i;
                        closing = false;
                        buf.push('<');
                    } else if b == '@' as u8 {
                        if buf.len() > 0 {
                            let text = chars_to_string(&buf);
                            out.push(Segment::Literal(text));
                            buf.clear();
                        }
                        mode = LexMode::Ident;
                        start = i;
                    } else {
                        buf.push(b as char);
                    }
                }
                LexMode::TagName => {
                    if b == '!' as u8 && buf.len() == 1 && buf[0] == '<' && !closing {
                        proof {
                            assert(buf@ =~= seq!['<']);
                        }
                        mode = LexMode::Doc;
                        buf.push('!');
                        proof {
                            assert(buf@ =~= seq!['<', '!']);
                        }
                    } else if b == '/' as u8 && buf.len() == 1 && buf[0] == '<' && !closing {
                        proof {
                            assert(buf@ =~= seq!['<']);
                        }
                        closing = true;
                        buf.push('/');
                        proof {
                            assert(buf@ =~= seq!['<', '/']);
                        }
                    } else if b == ' ' as u8 {
                        buf.push(' ');
                        let text = chars_to_string(&buf);
                        out.push(
                            if closing {
                                Segment::TagClosing(text)
                            } else {
                                Segment::TagOpening(text)
                            },
                        );
                        buf.clear();
                        mode = LexMode::AttrRegion;
                    } else if b == '>' as u8 {
                        buf.push('>');
                        let text = chars_to_string(&buf);
                        out.push(
                            if closing {
                                Segment::TagClosing(text)
                            } else {
                                Segment::TagOpening(text)
                            },
                        );
                        buf.clear();
                        mode = LexMode::Body;
                    } else {
                        buf.push(b as char);
                    }
                }
                LexMode::Doc => {
                    if b == '\n' as u8 {
                        buf.push('\n');
                        let text = chars_to_string(&buf);
                        out.push(Segment::DocType(text));
                        buf.clear();
                        mode = LexMode::Body;
                    } else {
                        buf.push(b as char);
                    }
                }
                LexMode::AttrRegion => {
                    if b == '>' as u8 {
                        buf.push('>');
                        let text = chars_to_string(&buf);
                        out.push(Segment::Literal(text));
                        buf.clear();
                        mode = LexMode::Body;
                    } else {
                        buf.push(b as char);
                    }
                }
                LexMode::Ident => {
                    if b == ' ' as u8 {
                        let text = chars_to_string(&buf);
                        out.push(Segment::Identifier(text));
                        buf.clear();
                        mode = LexMode::Body;
                    } else if b == '<' as u8 {
                        let text = chars_to_string(&buf);
                        out.push(Segment::Identifier(text));
                        buf.clear();
                        mode = LexMode::TagName;
                        start = i;
                        closing = false;
                        buf.push('<');
                    } else {
                        buf.push(b as char);
                    }
                }
            }
            proof {
                let (st2, emitted) = lex_step(st0, b, i);
                assert(lex_st_view(mode, start, closing, buf@) =~= st2);
                match emitted {
                    Some(seg) => {
                        assert(segs_view(out@) =~= acc0.push(seg));
                    }
                    None => {
                        assert(segs_view(out@) =~= acc0);
                    }
                }
            }
            i = i + 1;
        }
        match mode {
            LexMode::Body => {
                let ghost accv = segs_view(out@);
                let ghost litv = buf@;
                if buf.len() > 0 {
                    let text = chars_to_string(&buf);
                    out.push(Segment::Literal(text));
                    proof {
                        assert(segs_view(out@) =~= accv.push(SegV::Literal(litv)));
                    }
                }
                Ok(out)
            }
            LexMode::TagName => Err(LexError::UnterminatedTag(start)),
            LexMode::Doc => Err(LexError::UnterminatedTag(start)),
            LexMode::AttrRegion => Err(LexError::UnterminatedTag(start)),
            LexMode::Ident => Err(LexError::UnterminatedDirective(start)),
        }
    }
}

} // verus!
