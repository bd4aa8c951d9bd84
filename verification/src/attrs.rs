//! The attribute parser: splits the attribute region of an opening tag into
//! ordered `name=value` pairs.
//!
//! The region is scanned by a small state machine, one step per character.
//! Pairs are separated by whitespace; a double-quoted value may contain
//! whitespace and loses its quotes; a value beginning with `@` (before or
//! after quote stripping) is a [`AttrValue::Placeholder`] holding the text
//! after the `@`; an attribute with no `=` is a boolean attribute and is
//! represented as `Value("")`.  An unterminated quote is a
//! [`ParseError::MalformedAttribute`].

use vstd::prelude::*;

use crate::parse_error::{ParseErrV, ParseError};
use crate::text::{chars_to_string, is_space, is_space_char, str_chars};
use crate::token::{attrs_view, Attr, AttrV, AttrValue, AttrValueV};

verus! {

/// The scanner state: where in a `name=value` pair the scan stands, and the
/// text gathered so far.
#[verifier::ext_equal]
pub enum AttrStV {
    /// Between pairs, skipping whitespace.
    Between,
    /// Scanning an attribute name.
    InName { name: Seq<char> },
    /// Directly after `=`.
    AfterEq { name: Seq<char> },
    /// Directly after `=@`: the value is a placeholder.
    AfterAt { name: Seq<char> },
    /// Scanning an unquoted value.
    Bare { name: Seq<char>, val: Seq<char>, ph: bool },
    /// Scanning a double-quoted value.
    Quoted { name: Seq<char>, val: Seq<char>, ph: bool },
}

/// The value an accumulated value text stands for: placeholder text if the
/// scan saw `@`, or if the (quote-stripped) text itself begins with `@`.
pub open spec fn emit_value(ph: bool, val: Seq<char>) -> AttrValueV {
    if ph {
        AttrValueV::Placeholder(val)
    } else if val.len() > 0 && val[0] == '@' {
        AttrValueV::Placeholder(val.drop_first())
    } else {
        AttrValueV::Value(val)
    }
}

/// One scanner step on the character `c`: the successor state and the
/// attribute completed by this character, if any.
pub open spec fn attr_step(st: AttrStV, c: char) -> (AttrStV, Option<AttrV>) {
    match st {
        AttrStV::Between => {
            if is_space(c) {
                (AttrStV::Between, None)
            } else if c == '=' {
                (AttrStV::AfterEq { name: Seq::empty() }, None)
            } else {
                (AttrStV::InName { name: seq![c] }, None)
            }
        }
        AttrStV::InName { name } => {
            if c == '=' {
                (AttrStV::AfterEq { name }, None)
            } else if is_space(c) {
                (AttrStV::Between, Some(AttrV { name, value: AttrValueV::Value(Seq::empty()) }))
            } else {
                (AttrStV::InName { name: name.push(c) }, None)
            }
        }
        AttrStV::AfterEq { name } => {
            if c == '"' {
                (AttrStV::Quoted { name, val: Seq::empty(), ph: false }, None)
            } else if c == '@' {
                (AttrStV::AfterAt { name }, None)
            } else if is_space(c) {
                (AttrStV::Between, Some(AttrV { name, value: AttrValueV::Value(Seq::empty()) }))
            } else {
                (AttrStV::Bare { name, val: seq![c], ph: false }, None)
            }
        }
        AttrStV::AfterAt { name } => {
            if c == '"' {
                (AttrStV::Quoted { name, val: Seq::empty(), ph: true }, None)
            } else if is_space(c) {
                (
                    AttrStV::Between,
                    Some(AttrV { name, value: AttrValueV::Placeholder(Seq::empty()) }),
                )
            } else {
                (AttrStV::Bare { name, val: seq![c], ph: true }, None)
            }
        }
        AttrStV::Bare { name, val, ph } => {
            if is_space(c) {
                (AttrStV::Between, Some(AttrV { name, value: emit_value(ph, val) }))
            } else {
                (AttrStV::Bare { name, val: val.push(c), ph }, None)
            }
        }
        AttrStV::Quoted { name, val, ph } => {
            if c == '"' {
                (AttrStV::Between, Some(AttrV { name, value: emit_value(ph, val) }))
            } else {
                (AttrStV::Quoted { name, val: val.push(c), ph }, None)
            }
        }
    }
}

/// What the scanner yields at the end of the region: the last attribute, if
/// one was in progress, or `None` for an unterminated quote.
pub open spec fn attr_finish(st: AttrStV) -> Option<Option<AttrV>> {
    match st {
        AttrStV::Between => Some(None),
        AttrStV::InName { name } => Some(
            Some(AttrV { name, value: AttrValueV::Value(Seq::empty()) }),
        ),
        AttrStV::AfterEq { name } => Some(
            Some(AttrV { name, value: AttrValueV::Value(Seq::empty()) }),
        ),
        AttrStV::AfterAt { name } => Some(
            Some(AttrV { name, value: AttrValueV::Placeholder(Seq::empty()) }),
        ),
        AttrStV::Bare { name, val, ph } => Some(Some(AttrV { name, value: emit_value(ph, val) })),
        AttrStV::Quoted { .. } => None,
    }
}

/// The attributes of the region `s` from position `j` onward, given the
/// scanner state and the attributes already completed; `None` is a malformed
/// region.
pub open spec fn attrs_from(s: Seq<char>, j: int, st: AttrStV, acc: Seq<AttrV>) -> Option<
    Seq<AttrV>,
>
    decreases s.len() - j,
{
    if j < 0 || j >= s.len() {
        match attr_finish(st) {
            None => None,
            Some(None) => Some(acc),
            Some(Some(a)) => Some(acc.push(a)),
        }
    } else {
        let (st2, done) = attr_step(st, s[j]);
        let acc2 = match done {
            Some(a) => acc.push(a),
            None => acc,
        };
        attrs_from(s, j + 1, st2, acc2)
    }
}

/// The ordered attribute list denoted by an attribute region, or `None` if
/// the region is malformed.
pub open spec fn attrs_of(s: Seq<char>) -> Option<Seq<AttrV>> {
    attrs_from(s, 0, AttrStV::Between, Seq::empty())
}

/// Which scan is in progress; the exec counterpart of the [`AttrStV`] cases.
enum AttrMode {
    Between,
    InName,
    AfterEq,
    AfterAt,
    Bare,
    Quoted,
}

/// The model of the exec scanner state `(mode, name, val, ph)`.
spec fn attr_st_view(mode: AttrMode, name: Seq<char>, val: Seq<char>, ph: bool) -> AttrStV {
    match mode {
        AttrMode::Between => AttrStV::Between,
        AttrMode::InName => AttrStV::InName { name },
        AttrMode::AfterEq => AttrStV::AfterEq { name },
        AttrMode::AfterAt => AttrStV::AfterAt { name },
        AttrMode::Bare => AttrStV::Bare { name, val, ph },
        AttrMode::Quoted => AttrStV::Quoted { name, val, ph },
    }
}

/// The attribute parser for the attribute region of an opening tag.
#[derive(Debug, PartialEq, Eq, Copy, Clone)]
pub struct AttributeParser {}

impl AttributeParser {
    /// Parses the raw text between a tag name and its closing delimiter into
    /// an ordered attribute list.  A standalone call reports a malformed
    /// region at segment index 0.
    pub fn parse(text: &str) -> (r: Result<Vec<Attr>, ParseError>)
        ensures
            match r {
                Ok(attrs) => attrs_of(text@) == Some(attrs_view(attrs@)),
                Err(e) => attrs_of(text@) is None && e@ == (ParseErrV::MalformedAttribute {
                    at: 0,
                }),
            },
    {
        let v = str_chars(text);
        let n = v.len();
        let mut j: usize = 0;
        let mut mode = AttrMode::Between;
        let mut name: Vec<char> = Vec::new();
        let mut val: Vec<char> = Vec::new();
        let mut ph = false;
        let mut out: Vec<Attr> = Vec::new();
        proof {
            assert(attrs_view(out@) =~= Seq::<AttrV>::empty());
        }
        while j < n
            invariant
                j <= n == v@.len(),
                v@ == text@,
                attrs_from(text@, j as int, attr_st_view(mode, name@, val@, ph), attrs_view(out@))
                    == attrs_of(text@),
            decreases n - j,
        {
            let c = v[j];
            let ghost st0 = attr_st_view(mode, name@, val@, ph);
            let ghost acc0 = attrs_view(out@);
            match mode {
                AttrMode::Between => {
                    if is_space_char(c) {
                        // stay
                    } else if c == '=' {
                        name.clear();
                        mode = AttrMode::AfterEq;
                    } else {
                        name.clear();
                        name.push(c);
                        proof {
                            assert(name@ =~= seq![c]);
                        }
                        mode = AttrMode::InName;
                    }
                }
                AttrMode::InName => {
                    if c == '=' {
                        mode = AttrMode::AfterEq;
                    } else if is_space_char(c) {
                        let nm = chars_to_string(&name);
                        out.push(Attr { name: nm, value: AttrValue::Value(String::new()) });
                        name.clear();
                        mode = AttrMode::Between;
                    } else {
                        name.push(c);
                    }
                }
                AttrMode::AfterEq => {
                    if c == '"' {
                        val.clear();
                        ph = false;
                        mode = AttrMode::Quoted;
                    } else if c == '@' {
                        mode = AttrMode::AfterAt;
                    } else if is_space_char(c) {
                        let nm = chars_to_string(&name);
                        out.push(Attr { name: nm, value: AttrValue::Value(String::new()) });
                        name.clear();
                        mode = AttrMode::Between;
                    } else {
                        val.clear();
                        val.push(c);
                        proof {
                            assert(val@ =~= seq![c]);
                        }
                        ph = false;
                        mode = AttrMode::Bare;
                    }
                }
                AttrMode::AfterAt => {
                    if c == '"' {
                        val.clear();
                        ph = true;
                        mode = AttrMode::Quoted;
                    } else if is_space_char(c) {
                        let nm = chars_to_string(&name);
                        out.push(Attr { name: nm, value: AttrValue::Placeholder(String::new()) });
                        name.clear();
                        mode = AttrMode::Between;
                    } else {
                        val.clear();
                        val.push(c);
                        proof {
                            assert(val@ =~= seq![c]);
                        }
                        ph = true;
                        mode = AttrMode::Bare;
                    }
                }
                AttrMode::Bare => {
                    if is_space_char(c) {
                        let a = Self::finish_value(&name, &val, ph);
                        out.push(a);
                        name.clear();
                        val.clear();
                        ph = false;
                        mode = AttrMode::Between;
                    } else {
                        val.push(c);
                    }
                }
                AttrMode::Quoted => {
                    if c == '"' {
                        let a = Self::finish_value(&name, &val, ph);
                        out.push(a);
                        name.clear();
                        val.clear();
                        ph = false;
                        mode = AttrMode::Between;
                    } else {
                        val.push(c);
                    }
                }
            }
            proof {
                let (st2, done) = attr_step(st0, c);
                assert(attr_st_view(mode, name@, val@, ph) =~= st2);
                match done {
                    Some(a) => {
                        assert(attrs_view(out@) =~= acc0.push(a));
                    }
                    None => {
                        assert(attrs_view(out@) =~= acc0);
                    }
                }
            }
            j = j + 1;
        }
        let ghost accv = attrs_view(out@);
        match mode {
            AttrMode::Between => Ok(out),
            AttrMode::InName => {
                let nm = chars_to_string(&name);
                out.push(Attr { name: nm, value: AttrValue::Value(String::new()) });
                proof {
                    assert(attrs_view(out@) =~= accv.push(out@.last()@));
                }
                Ok(out)
            }
            AttrMode::AfterEq => {
                let nm = chars_to_string(&name);
                out.push(Attr { name: nm, value: AttrValue::Value(String::new()) });
                proof {
                    assert(attrs_view(out@) =~= accv.push(out@.last()@));
                }
                Ok(out)
            }
            AttrMode::AfterAt => {
                let nm = chars_to_string(&name);
                out.push(Attr { name: nm, value: AttrValue::Placeholder(String::new()) });
                proof {
                    assert(attrs_view(out@) =~= accv.push(out@.last()@));
                }
                Ok(out)
            }
            AttrMode::Bare => {
                let a = Self::finish_value(&name, &val, ph);
                out.push(a);
                proof {
                    assert(attrs_view(out@) =~= accv.push(out@.last()@));
                }
                Ok(out)
            }
            AttrMode::Quoted => Err(ParseError::MalformedAttribute { at: 0 }),
        }
    }

    /// Builds the attribute an accumulated value text stands for.
    fn finish_value(name: &Vec<char>, val: &Vec<char>, ph: bool) -> (a: Attr)
        ensures
            a@ == (AttrV { name: name@, value: emit_value(ph, val@) }),
    {
        let nm = chars_to_string(name);
        if ph {
            Attr { name: nm, value: AttrValue::Placeholder(chars_to_string(val)) }
        } else if val.len() > 0 && val[0] == '@' {
            let rest = crate::text::char_sub(val, 1, val.len());
            proof {
                assert(rest@ =~= val@.drop_first());
            }
            Attr { name: nm, value: AttrValue::Placeholder(chars_to_string(&rest)) }
        } else {
            Attr { name: nm, value: AttrValue::Value(chars_to_string(val)) }
        }
    }
}

} // verus!
