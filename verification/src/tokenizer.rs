//! Double-quote-aware whitespace tokenizing of one input line.
//!
//! A space outside quotes ends the current token (consecutive spaces yield
//! empty tokens); a double quote toggles quoting and is never part of a
//! token; a trailing token is kept only if it is non-empty.  An unterminated
//! quote is flagged to the caller but does not abort the line.

use vstd::prelude::*;

verus! {

use crate::text::{chars_of, string_from_chars};

/// One step of the tokenizer state machine, consuming `s` with the tokens
/// finished so far, the token being built, and the in-quotes flag.
pub open spec fn spec_tokenize_from(
    s: Seq<char>,
    parts: Seq<Seq<char>>,
    cur: Seq<char>,
    in_quotes: bool,
) -> (Seq<Seq<char>>, bool)
    decreases s.len(),
{
    if s.len() == 0 {
        (if cur.len() > 0 {
            parts.push(cur)
        } else {
            parts
        }, in_quotes)
    } else if s[0] == ' ' && !in_quotes {
        spec_tokenize_from(s.drop_first(), parts.push(cur), Seq::empty(), in_quotes)
    } else if s[0] == '"' {
        spec_tokenize_from(s.drop_first(), parts, cur, !in_quotes)
    } else {
        spec_tokenize_from(s.drop_first(), parts, cur.push(s[0]), in_quotes)
    }
}

/// The tokens of a line, and whether the line ended inside a quote.
pub open spec fn spec_tokenize(s: Seq<char>) -> (Seq<Seq<char>>, bool) {
    spec_tokenize_from(s, Seq::empty(), Seq::empty(), false)
}

/// Tokenizes a line given as its characters.
pub fn tokenize_chars(chars: &Vec<char>) -> (r: (Vec<Vec<char>>, bool))
    ensures
        r.0.deep_view() == spec_tokenize(chars@).0,
        r.1 == spec_tokenize(chars@).1,
{
    let n = chars.len();
    let mut parts: Vec<Vec<char>> = Vec::new();
    let mut cur: Vec<char> = Vec::new();
    let mut in_quotes: bool = false;
    let mut i: usize = 0;
    proof {
        assert(chars@.subrange(0, n as int) =~= chars@);
        assert(parts.deep_view() =~~= Seq::<Seq<char>>::empty());
    }
    while i < n
        invariant
            i <= n,
            n == chars@.len(),
            spec_tokenize_from(
                chars@.subrange(i as int, n as int),
                parts.deep_view(),
                cur@,
                in_quotes,
            ) == spec_tokenize(chars@),
        decreases n - i,
    {
        proof {
            let rem = chars@.subrange(i as int, n as int);
            assert(rem[0] == chars@[i as int]);
            assert(rem.drop_first() =~= chars@.subrange(i + 1, n as int));
        }
        let c = chars[i];
        if c == ' ' && !in_quotes {
            let ghost old_parts = parts.deep_view();
            let ghost old_cur = cur@;
            let finished = cur;
            parts.push(finished);
            cur = Vec::new();
            proof {
                assert(parts.deep_view() =~~= old_parts.push(old_cur));
            }
        } else if c == '"' {
            in_quotes = !in_quotes;
        } else {
            cur.push(c);
        }
        i = i + 1;
    }
    proof {
        assert(chars@.subrange(n as int, n as int) =~= Seq::<char>::empty());
    }
    if cur.len() > 0 {
        let ghost old_parts = parts.deep_view();
        let ghost finished = cur@;
        parts.push(cur);
        proof {
            assert(parts.deep_view() =~~= old_parts.push(finished));
        }
    }
    (parts, in_quotes)
}

/// Tokenizes one input line.  The second component is true exactly when
/// the line ended with an unterminated quote; the caller reports it and
/// goes on with the tokens.
pub fn tokenize_line(line: &str) -> (r: (Vec<String>, bool))
    ensures
        r.0.deep_view() == spec_tokenize(line@).0,
        r.1 == spec_tokenize(line@).1,
{
    let chars = chars_of(line);
    let toks = tokenize_chars(&chars);
    let mut out: Vec<String> = Vec::new();
    let mut i: usize = 0;
    while i < toks.0.len()
        invariant
            i <= toks.0.len(),
            out@.len() == i,
            forall|m: int| 0 <= m < i ==> out@[m]@ == toks.0@[m]@,
        decreases toks.0.len() - i,
    {
        out.push(string_from_chars(&toks.0[i]));
        i = i + 1;
    }
    proof {
        assert(out.deep_view() =~~= toks.0.deep_view());
    }
    (out, toks.1)
}

} // verus!
