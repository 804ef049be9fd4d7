//! Quote classification: per raw token, determines the quoting mode,
//! strips the delimiters, and applies the unescape rule.

use vstd::prelude::*;

use crate::chars::{chars_of, string_of, subvec};
use crate::errors::CliError;
use crate::token::{Token, TokenMode};

verus! {

/// The unescape rule for weak and full tokens: `\$` is preserved as the
/// two-character literal `\$` (the expander recognizes and protects it
/// later); a backslash followed by any other character is replaced by that
/// character alone; a trailing backslash is dropped.
pub open spec fn spec_unescape(s: Seq<char>) -> Seq<char>
    decreases s.len(),
{
    if s.len() == 0 {
        Seq::empty()
    } else if s[0] == '\\' {
        if s.len() == 1 {
            Seq::empty()
        } else if s[1] == '$' {
            seq!['\\', '$'] + spec_unescape(s.skip(2))
        } else {
            seq![s[1]] + spec_unescape(s.skip(2))
        }
    } else {
        seq![s[0]] + spec_unescape(s.skip(1))
    }
}

/// Whether the raw token is wrapped in the quote character `q`.
pub open spec fn spec_wrapped_in(s: Seq<char>, q: char) -> bool {
    s.len() >= 2 && s[0] == q && s[s.len() - 1] == q
}

/// The mode a raw token classifies to: single-quoted is `Raw`,
/// double-quoted is `Weak`, anything else is `Full`.
pub open spec fn spec_classify_mode(s: Seq<char>) -> TokenMode {
    if spec_wrapped_in(s, '\'') {
        TokenMode::Raw
    } else if spec_wrapped_in(s, '"') {
        TokenMode::Weak
    } else {
        TokenMode::Full
    }
}

/// The value a raw token classifies to: the interior of a quoted token
/// (unescaped for double quotes, untouched for single quotes), or the
/// unescaped token itself.
pub open spec fn spec_classify_value(s: Seq<char>) -> Seq<char> {
    if spec_wrapped_in(s, '\'') {
        s.subrange(1, s.len() - 1)
    } else if spec_wrapped_in(s, '"') {
        spec_unescape(s.subrange(1, s.len() - 1))
    } else {
        spec_unescape(s)
    }
}

fn unescape_chars(v: &Vec<char>) -> (r: Vec<char>)
    ensures
        r@ == spec_unescape(v@),
{
    let n = v.len();
    let mut out: Vec<char> = Vec::new();
    let mut i: usize = 0;
    proof {
        assert(v@.subrange(0, n as int) =~= v@);
        assert(out@ + spec_unescape(v@) =~= spec_unescape(v@));
    }
    while i < n
        invariant
            n == v@.len(),
            i <= n,
            out@ + spec_unescape(v@.subrange(i as int, n as int)) == spec_unescape(v@),
        decreases n - i,
    {
        let ghost rem = v@.subrange(i as int, n as int);
        let ghost prev = out@;
        proof {
            assert(rem[0] == v@[i as int]);
            assert(rem.skip(1) =~= v@.subrange(i as int + 1, n as int));
            if rem.len() >= 2 {
                assert(rem[1] == v@[i as int + 1]);
                assert(rem.skip(2) =~= v@.subrange(i as int + 2, n as int));
            }
        }
        let c = v[i];
        if c == '\\' {
            if i + 1 < n {
                if v[i + 1] == '$' {
                    out.push('\\');
                    out.push('$');
                    proof {
                        assert(out@ =~= prev + seq!['\\', '$']);
                        assert(prev + (seq!['\\', '$'] + spec_unescape(rem.skip(2))) =~= (prev
                            + seq!['\\', '$']) + spec_unescape(rem.skip(2)));
                    }
                } else {
                    out.push(v[i + 1]);
                    proof {
                        assert(out@ =~= prev + seq![rem[1]]);
                        assert(prev + (seq![rem[1]] + spec_unescape(rem.skip(2))) =~= (prev
                            + seq![rem[1]]) + spec_unescape(rem.skip(2)));
                    }
                }
                i += 2;
            } else {
                proof {
                    assert(spec_unescape(rem) =~= Seq::<char>::empty());
                    assert(prev + spec_unescape(v@.subrange(
                        i as int + 1,
                        n as int,
                    )) =~= prev + spec_unescape(rem));
                }
                i += 1;
            }
        } else {
            out.push(c);
            proof {
                assert(out@ =~= prev + seq![rem[0]]);
                assert(prev + (seq![rem[0]] + spec_unescape(rem.skip(1))) =~= (prev + seq![
                    rem[0],
                ]) + spec_unescape(rem.skip(1)));
            }
            i += 1;
        }
    }
    proof {
        assert(v@.subrange(n as int, n as int) =~= Seq::<char>::empty());
        assert(out@ + spec_unescape(Seq::<char>::empty()) =~= out@);
    }
    out
}

/// Applies the unescape rule to the interior of a double-quoted token.
pub fn unescape_double_quoted(s: &str) -> (r: String)
    ensures
        r@ == spec_unescape(s@),
{
    string_of(&unescape_chars(&chars_of(s)))
}

/// Applies the unescape rule to an unquoted token; the rule is the same
/// one double-quoted interiors go through.
pub fn unescape_unquoted(s: &str) -> (r: String)
    ensures
        r@ == spec_unescape(s@),
{
    string_of(&unescape_chars(&chars_of(s)))
}

pub struct QuoteHandler;

impl QuoteHandler {
    /// Classifies each raw token. Classification itself cannot fail:
    /// unterminated quotes were already rejected by the tokenizer.
    pub fn handle(raw: &Vec<String>) -> (r: Result<Vec<Token>, CliError>)
        ensures
            r is Ok,
            ({
                let toks = r->Ok_0;
                &&& toks@.len() == raw@.len()
                &&& forall|i: int|
                    0 <= i < raw@.len() ==> #[trigger] toks@[i].value@ == spec_classify_value(
                        raw@[i]@,
                    ) && toks@[i].mode == spec_classify_mode(raw@[i]@)
            }),
    {
        let n = raw.len();
        let mut out: Vec<Token> = Vec::new();
        let mut i: usize = 0;
        while i < n
            invariant
                n == raw@.len(),
                i <= n,
                out@.len() == i,
                forall|j: int| #![trigger out@[j]]
                    0 <= j < i ==> out@[j].value@ == spec_classify_value(raw@[j]@)
                        && out@[j].mode == spec_classify_mode(raw@[j]@),
            decreases n - i,
        {
            let piece = &raw[i];
            let cs = chars_of(piece.as_str());
            proof {
                assert(cs@ == raw@[i as int]@);
            }
            let len = cs.len();
            let tok: Token;
            if len >= 2 && cs[0] == '\'' && cs[len - 1] == '\'' {
                proof {
                    assert(spec_wrapped_in(cs@, '\''));
                }
                tok = Token::new(string_of(&subvec(&cs, 1, len - 1)), TokenMode::Raw);
            } else if len >= 2 && cs[0] == '"' && cs[len - 1] == '"' {
                proof {
                    assert(!spec_wrapped_in(cs@, '\''));
                    assert(spec_wrapped_in(cs@, '"'));
                }
                tok = Token::new(
                    string_of(&unescape_chars(&subvec(&cs, 1, len - 1))),
                    TokenMode::Weak,
                );
            } else {
                proof {
                    assert(!spec_wrapped_in(cs@, '\''));
                    assert(!spec_wrapped_in(cs@, '"'));
                }
                tok = Token::new(string_of(&unescape_chars(&cs)), TokenMode::Full);
            }
            proof {
                assert(tok.value@ == spec_classify_value(raw@[i as int]@));
                assert(tok.mode == spec_classify_mode(raw@[i as int]@));
            }
            out.push(tok);
            i += 1;
        }
        Ok(out)
    }
}

} // verus!
