//! The tokenizer: splits a raw line into whitespace-delimited raw tokens,
//! tracking quote state, and fails on an unterminated quote.

use vstd::prelude::*;
use vstd::string::*;

use crate::chars::{chars_of, seq_views, string_of};
use crate::errors::CliError;

verus! {

/// One step short of the tokenizer: scans `s` with quote state `quote`,
/// the current token collected in `buf`, and the tokens already produced
/// in `acc`. `None` means the line ended inside a quote.
///
/// Outside quotes a blank ends the current token; an opening or closing
/// quote is kept in the raw token so classification can inspect it later;
/// a backslash carries the following character verbatim (escape semantics
/// are resolved later, this only protects splitting).
pub open spec fn spec_tokenize_from(
    s: Seq<char>,
    quote: Option<char>,
    buf: Seq<char>,
    acc: Seq<Seq<char>>,
) -> Option<Seq<Seq<char>>>
    decreases s.len(),
{
    if s.len() == 0 {
        if quote is Some {
            None
        } else if buf.len() > 0 {
            Some(acc.push(buf))
        } else {
            Some(acc)
        }
    } else {
        let c = s[0];
        let rest = s.subrange(1, s.len() as int);
        if quote is None && (c == ' ' || c == '\t') {
            if buf.len() > 0 {
                spec_tokenize_from(rest, quote, Seq::empty(), acc.push(buf))
            } else {
                spec_tokenize_from(rest, quote, buf, acc)
            }
        } else if quote is None && (c == '\'' || c == '"') {
            spec_tokenize_from(rest, Some(c), buf.push(c), acc)
        } else if quote is Some && c == quote->0 {
            spec_tokenize_from(rest, None, buf.push(c), acc)
        } else if c == '\\' {
            if rest.len() > 0 {
                spec_tokenize_from(
                    rest.subrange(1, rest.len() as int),
                    quote,
                    buf.push('\\').push(rest[0]),
                    acc,
                )
            } else {
                spec_tokenize_from(rest, quote, buf.push('\\'), acc)
            }
        } else {
            spec_tokenize_from(rest, quote, buf.push(c), acc)
        }
    }
}

/// What tokenizing a whole line yields: the raw tokens, or `None` on an
/// unterminated quote.
pub open spec fn spec_tokenize(s: Seq<char>) -> Option<Seq<Seq<char>>> {
    spec_tokenize_from(s, None, Seq::empty(), Seq::empty())
}

pub struct Tokenizer;

impl Tokenizer {
    /// Splits `line` into raw tokens. The only failure mode is a quote
    /// still open at the end of the line.
    pub fn tokenize(line: &str) -> (r: Result<Vec<String>, CliError>)
        ensures
            match r {
                Ok(toks) => spec_tokenize(line@) == Some(seq_views(toks@)),
                Err(e) => spec_tokenize(line@) is None && (e matches CliError::Quote(m)
                    && m@ == "unclosed quote"@),
            },
    {
        let s = chars_of(line);
        let n = s.len();
        let mut out: Vec<String> = Vec::new();
        let mut buf: Vec<char> = Vec::new();
        let mut quote: Option<char> = None;
        let mut i: usize = 0;
        proof {
            assert(s@.subrange(0, n as int) =~= s@);
            assert(seq_views(out@) =~= Seq::<Seq<char>>::empty());
        }
        while i < n
            invariant
                n == s@.len(),
                s@ == line@,
                i <= n,
                spec_tokenize_from(
                    s@.subrange(i as int, n as int),
                    quote,
                    buf@,
                    seq_views(out@),
                ) == spec_tokenize(line@),
            decreases n - i,
        {
            let ghost rem = s@.subrange(i as int, n as int);
            proof {
                assert(rem[0] == s@[i as int]);
                assert(rem.subrange(1, rem.len() as int) =~= s@.subrange(
                    i as int + 1,
                    n as int,
                ));
            }
            let c = s[i];
            let closing = match quote {
                Some(q) => c == q,
                None => false,
            };
            if quote.is_none() && (c == ' ' || c == '\t') {
                if !buf.is_empty() {
                    let ghost prev = out@;
                    let t = string_of(&buf);
                    out.push(t);
                    buf.clear();
                    proof {
                        assert(seq_views(out@) =~= seq_views(prev).push(t@));
                    }
                }
                i += 1;
            } else if quote.is_none() && (c == '\'' || c == '"') {
                quote = Some(c);
                buf.push(c);
                i += 1;
            } else if closing {
                quote = None;
                buf.push(c);
                i += 1;
            } else if c == '\\' {
                if i + 1 < n {
                    proof {
                        let tail = rem.subrange(1, rem.len() as int);
                        assert(tail[0] == s@[i as int + 1]);
                        assert(tail.subrange(1, tail.len() as int) =~= s@.subrange(
                            i as int + 2,
                            n as int,
                        ));
                    }
                    buf.push('\\');
                    buf.push(s[i + 1]);
                    i += 2;
                } else {
                    buf.push('\\');
                    i += 1;
                }
            } else {
                buf.push(c);
                i += 1;
            }
        }
        proof {
            assert(s@.subrange(n as int, n as int) =~= Seq::<char>::empty());
        }
        if quote.is_some() {
            return Err(CliError::Quote(String::from_str("unclosed quote")));
        }
        if !buf.is_empty() {
            let ghost prev = out@;
            let t = string_of(&buf);
            out.push(t);
            proof {
                assert(seq_views(out@) =~= seq_views(prev).push(t@));
            }
        }
        Ok(out)
    }
}

} // verus!
