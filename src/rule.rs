//! The text form of a production rule.

use vstd::prelude::*;
use vstd::string::*;

verus! {

/// Why a rule text was not added.
#[derive(Clone, Copy, Debug, PartialEq, Eq, Structural)]
pub enum RuleError {
    /// The text is not of the shape `symbol = tokens`.
    Malformed,
    /// The rule names a symbol that is not registered.
    UnknownToken(char),
}

/// The characters that separate the parts of a rule.
pub open spec fn is_space(c: char) -> bool {
    c == ' ' || c == '\t' || c == '\n' || c == '\r' || c == '\x0B' || c == '\x0C'
}

/// The first index from `i` on that holds no space, or the length.
pub open spec fn skip_space(s: Seq<char>, i: int) -> int
    decreases s.len() - i,
{
    if i >= s.len() {
        s.len() as int
    } else if is_space(s[i]) {
        skip_space(s, i + 1)
    } else {
        i
    }
}

/// The characters of `s` that are not spaces, in their order.
pub open spec fn non_space(s: Seq<char>) -> Seq<char>
    decreases s.len(),
{
    if s.len() == 0 {
        s
    } else if is_space(s.last()) {
        non_space(s.drop_last())
    } else {
        non_space(s.drop_last()).push(s.last())
    }
}

/// The left-hand symbol and the right-hand tokens of a rule text, if it has
/// the shape: spaces, a symbol, spaces, `=`, then tokens among spaces.
pub open spec fn rule_shape(s: Seq<char>) -> Option<(char, Seq<char>)> {
    let a = skip_space(s, 0);
    if a >= s.len() || s[a] == '=' {
        None
    } else {
        let b = skip_space(s, a + 1);
        if b >= s.len() || s[b] != '=' {
            None
        } else {
            Some((s[a], non_space(s.subrange(b + 1, s.len() as int))))
        }
    }
}

/// The characters of `text`.
pub fn chars_of(text: &str) -> (r: Vec<char>)
    ensures
        r@ == text@,
{
    let n = text.unicode_len();
    let mut r: Vec<char> = Vec::new();
    let mut i: usize = 0;
    while i < n
        invariant
            n == text@.len(),
            i <= n,
            r@ == text@.take(i as int),
        decreases n - i,
    {
        r.push(text.get_char(i));
        i = i + 1;
        proof {
            assert(r@ == text@.take(i as int));
        }
    }
    proof {
        assert(text@.take(i as int) == text@);
    }
    r
}

fn skip_space_at(s: &Vec<char>, i: usize) -> (r: usize)
    requires
        i <= s@.len(),
    ensures
        r == skip_space(s@, i as int),
{
    let mut j: usize = i;
    while j < s.len() && (s[j] == ' ' || s[j] == '\t' || s[j] == '\n' || s[j] == '\r'
        || s[j] == '\x0B' || s[j] == '\x0C')
        invariant
            i <= j <= s@.len(),
            skip_space(s@, i as int) == skip_space(s@, j as int),
        decreases s@.len() - j,
    {
        j = j + 1;
    }
    j
}

fn non_space_from(s: &Vec<char>, start: usize) -> (r: Vec<char>)
    requires
        start <= s@.len(),
    ensures
        r@ == non_space(s@.subrange(start as int, s@.len() as int)),
{
    let mut r: Vec<char> = Vec::new();
    let mut i: usize = start;
    proof {
        assert(s@.subrange(start as int, start as int) == Seq::<char>::empty());
    }
    while i < s.len()
        invariant
            start <= i <= s@.len(),
            r@ == non_space(s@.subrange(start as int, i as int)),
        decreases s@.len() - i,
    {
        let c = s[i];
        proof {
            let seen = s@.subrange(start as int, i as int);
            assert(s@.subrange(start as int, i + 1).drop_last() == seen);
        }
        if !(c == ' ' || c == '\t' || c == '\n' || c == '\r' || c == '\x0B' || c == '\x0C') {
            r.push(c);
        }
        i = i + 1;
    }
    r
}

/// Splits a rule text into its left-hand symbol and its right-hand tokens.
pub fn parse_rule(text: &str) -> (r: Result<(char, Vec<char>), RuleError>)
    ensures
        match rule_shape(text@) {
            None => r == Err::<(char, Vec<char>), RuleError>(RuleError::Malformed),
            Some((lhs, rhs)) => r matches Ok((l, t)) && l == lhs && t@ == rhs,
        },
{
    let s = chars_of(text);
    let a = skip_space_at(&s, 0);
    if a >= s.len() || s[a] == '=' {
        return Err(RuleError::Malformed);
    }
    let b = skip_space_at(&s, a + 1);
    if b >= s.len() || s[b] != '=' {
        return Err(RuleError::Malformed);
    }
    Ok((s[a], non_space_from(&s, b + 1)))
}

} // verus!
