//! The condition parser: classifies the textual head of an `if` directive.
//!
//! A head beginning (after trimming) with `let` is split on its first
//! unparenthesized `=` into a pattern and a scrutinee; any other head is an
//! opaque boolean expression, passed through trimmed.  No expression grammar
//! is validated beyond finding the split point.

use vstd::prelude::*;

use crate::parse_error::{ParseErrV, ParseError};
use crate::text::{char_sub, chars_to_string, str_chars, trim_chars, trim_spec};
use crate::token::{Condition, ConditionV};

verus! {

/// The position of the first `=` of `s` at or after `j` that lies outside
/// every parenthesis, starting from nesting level `depth`.
pub open spec fn eq_split(s: Seq<char>, j: int, depth: int) -> Option<int>
    decreases s.len() - j,
{
    if j < 0 || j >= s.len() {
        None
    } else if s[j] == '(' {
        eq_split(s, j + 1, depth + 1)
    } else if s[j] == ')' {
        eq_split(s, j + 1, depth - 1)
    } else if s[j] == '=' && depth == 0 {
        Some(j)
    } else {
        eq_split(s, j + 1, depth)
    }
}

/// A found split point lies within `s`, at or after `j`, on an `=`.
pub proof fn lemma_eq_split_bounds(s: Seq<char>, j: int, depth: int)
    ensures
        match eq_split(s, j, depth) {
            Some(k) => j <= k < s.len() && s[k] == '=',
            None => true,
        },
    decreases s.len() - j,
{
    if 0 <= j < s.len() {
        lemma_eq_split_bounds(s, j + 1, depth + 1);
        lemma_eq_split_bounds(s, j + 1, depth - 1);
        lemma_eq_split_bounds(s, j + 1, depth);
    }
}

/// Whether `s` begins with `p`.
pub open spec fn starts_with(s: Seq<char>, p: Seq<char>) -> bool {
    s.len() >= p.len() && s.subrange(0, p.len() as int) == p
}

/// The classification of an `if` head: `None` is a malformed head (a `let`
/// with no unparenthesized `=`).
pub open spec fn cond_of(s: Seq<char>) -> Option<ConditionV> {
    let t = trim_spec(s);
    if starts_with(t, seq!['l', 'e', 't']) {
        match eq_split(t, 3, 0) {
            Some(k) => Some(
                ConditionV::Let {
                    pattern: trim_spec(t.subrange(3, k)),
                    scrutinee: trim_spec(t.subrange(k + 1, t.len() as int)),
                },
            ),
            None => None,
        }
    } else {
        Some(ConditionV::Bool(t))
    }
}

/// The condition parser for `if` directive heads.
#[derive(Debug, PartialEq, Eq, Copy, Clone)]
pub struct ConditionParser {}

impl ConditionParser {
    /// Classifies the text between the `if` keyword and the opening body
    /// delimiter.  A standalone call reports a malformed head at segment
    /// index 0.
    pub fn parse(text: &str) -> (r: Result<Condition, ParseError>)
        ensures
            match r {
                Ok(c) => cond_of(text@) == Some(c@),
                Err(e) => cond_of(text@) is None && e@ == (ParseErrV::MalformedCondition {
                    at: 0,
                }),
            },
    {
        let v = str_chars(text);
        let t = trim_chars(&v);
        let n = t.len();
        if n >= 3 && t[0] == 'l' && t[1] == 'e' && t[2] == 't' {
            proof {
                assert(t@.subrange(0, 3) =~= seq!['l', 'e', 't']);
            }
            let mut j: usize = 3;
            let mut depth: i128 = 0;
            let mut found: Option<usize> = Option::None;
            while j < n && found.is_none()
                invariant
                    3 <= j <= n == t@.len(),
                    -(j as int) <= depth as int <= j as int,
                    match found {
                        Option::None => eq_split(t@, 3, 0) == eq_split(t@, j as int, depth as int),
                        Option::Some(k) => eq_split(t@, 3, 0) == Some(k as int),
                    },
                decreases n - j, (if found is None { 1int } else { 0int }),
            {
                let c = t[j];
                if c == '=' && depth == 0 {
                    found = Option::Some(j);
                } else {
                    if c == '(' {
                        depth = depth + 1;
                    } else if c == ')' {
                        depth = depth - 1;
                    }
                    j = j + 1;
                }
            }
            match found {
                Option::Some(k) => {
                    proof {
                        lemma_eq_split_bounds(t@, 3, 0);
                    }
                    let pattern = trim_chars(&char_sub(&t, 3, k));
                    let scrutinee = trim_chars(&char_sub(&t, k + 1, n));
                    Ok(
                        Condition::Let {
                            pattern: chars_to_string(&pattern),
                            scrutinee: chars_to_string(&scrutinee),
                        },
                    )
                }
                Option::None => {
                    Err(ParseError::MalformedCondition { at: 0 })
                }
            }
        } else {
            proof {
                if t@.len() >= 3 {
                    assert(t@.subrange(0, 3)[0] == t@[0]);
                    assert(t@.subrange(0, 3)[1] == t@[1]);
                    assert(t@.subrange(0, 3)[2] == t@[2]);
                }
            }
            Ok(Condition::Bool(chars_to_string(&t)))
        }
    }
}

} // verus!
