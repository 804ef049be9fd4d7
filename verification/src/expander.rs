//! Variable expansion: resolves `$NAME` and `${NAME}` references against an
//! environment. Raw (single-quoted) tokens pass through untouched; weak and
//! full tokens go through four passes, in order:
//!
//! 1. protect: every `\$` becomes a private sentinel character, so later
//!    passes cannot mistake it for a reference;
//! 2. braced: every `${NAME}` is replaced by the variable's value, or the
//!    empty string when it is undefined;
//! 3. simple: every `$NAME` is resolved with longest-match-with-backoff:
//!    the maximal identifier run is tried first, then shrunk from the right
//!    until a defined name is found; when no prefix is defined the `$` is
//!    emitted literally;
//! 4. restore: every sentinel becomes a literal `$` again.

use vstd::prelude::*;

use crate::chars::{chars_of, spec_ident_char, spec_ident_start, string_of, subvec, ident_char,
    ident_start};
use crate::environment::Environment;
use crate::errors::CliError;
use crate::token::{Token, TokenMode};

verus! {

/// The sentinel that stands for a protected `$` between the passes; it is
/// a control character no legitimate input carries.
pub open spec fn sentinel() -> char {
    '\u{1}'
}

/// The value a defined variable expands to, or the empty string.
pub open spec fn env_value(env: Map<Seq<char>, Seq<char>>, name: Seq<char>) -> Seq<char> {
    if env.contains_key(name) {
        env[name]
    } else {
        Seq::empty()
    }
}

/// Pass 1: `\$` becomes the sentinel; everything else is kept, a lone
/// backslash included.
pub open spec fn spec_protect(s: Seq<char>) -> Seq<char>
    decreases s.len(),
{
    if s.len() == 0 {
        Seq::empty()
    } else if s[0] == '\\' && s.len() >= 2 && s[1] == '$' {
        seq![sentinel()] + spec_protect(s.skip(2))
    } else {
        seq![s[0]] + spec_protect(s.skip(1))
    }
}

/// The length of the identifier-character run starting at `from`.
pub open spec fn spec_ident_run_len(s: Seq<char>, from: int) -> int
    decreases s.len() - from when 0 <= from <= s.len()
{
    if from >= s.len() || !spec_ident_char(s[from]) {
        0
    } else {
        1 + spec_ident_run_len(s, from + 1)
    }
}

/// Whether a `${NAME}` reference stands at the head of `s`: after `${`
/// comes an identifier (starting with a letter or underscore) closed by
/// `}`.
pub open spec fn spec_braced_head(s: Seq<char>) -> bool {
    &&& s.len() > 2
    &&& s[0] == '$'
    &&& s[1] == '{'
    &&& spec_ident_start(s[2])
    &&& {
        let k = spec_ident_run_len(s, 2);
        2 + k < s.len() && s[2 + k] == '}'
    }
}

/// The identifier run is never negative and never runs past the end.
pub proof fn lemma_run_bounds(s: Seq<char>, from: int)
    requires
        0 <= from <= s.len(),
    ensures
        0 <= spec_ident_run_len(s, from) <= s.len() - from,
    decreases s.len() - from,
{
    if from < s.len() && spec_ident_char(s[from]) {
        lemma_run_bounds(s, from + 1);
    }
}

/// The backoff result lies between 0 and the run length tried.
pub proof fn lemma_backoff_bounds(
    s: Seq<char>,
    env: Map<Seq<char>, Seq<char>>,
    start: int,
    t_max: int,
)
    requires
        t_max >= 0,
    ensures
        0 <= spec_backoff_at(s, env, start, t_max) <= t_max,
    decreases t_max,
{
    if t_max > 0 && !env.contains_key(s.subrange(start, start + t_max)) {
        lemma_backoff_bounds(s, env, start, t_max - 1);
    }
}

/// Pass 2: leftmost-first replacement of every `${NAME}` reference.
pub open spec fn spec_braced(s: Seq<char>, env: Map<Seq<char>, Seq<char>>) -> Seq<char>
    decreases s.len(),
    via spec_braced_dec
{
    if s.len() == 0 {
        Seq::empty()
    } else if spec_braced_head(s) {
        let k = spec_ident_run_len(s, 2);
        env_value(env, s.subrange(2, 2 + k)) + spec_braced(s.skip(2 + k + 1), env)
    } else {
        seq![s[0]] + spec_braced(s.skip(1), env)
    }
}

#[via_fn]
proof fn spec_braced_dec(s: Seq<char>, env: Map<Seq<char>, Seq<char>>) {
    if s.len() > 0 && spec_braced_head(s) {
        lemma_run_bounds(s, 2);
    }
}

/// The longest length `t` at most `t_max` such that the `t` characters
/// starting at `start` name a defined variable; 0 when none does.
pub open spec fn spec_backoff_at(
    s: Seq<char>,
    env: Map<Seq<char>, Seq<char>>,
    start: int,
    t_max: int,
) -> int
    decreases t_max,
{
    if t_max <= 0 {
        0
    } else if env.contains_key(s.subrange(start, start + t_max)) {
        t_max
    } else {
        spec_backoff_at(s, env, start, t_max - 1)
    }
}

/// Pass 3: longest-match-with-backoff resolution of every bare `$NAME`.
pub open spec fn spec_simple(s: Seq<char>, env: Map<Seq<char>, Seq<char>>) -> Seq<char>
    decreases s.len(),
    via spec_simple_dec
{
    if s.len() == 0 {
        Seq::empty()
    } else if s[0] == '$' && s.len() >= 2 && spec_ident_start(s[1]) {
        let k = spec_ident_run_len(s, 1);
        let b = spec_backoff_at(s, env, 1, k);
        if b > 0 {
            env[s.subrange(1, 1 + b)] + spec_simple(s.skip(1 + b), env)
        } else {
            seq!['$'] + spec_simple(s.skip(1), env)
        }
    } else {
        seq![s[0]] + spec_simple(s.skip(1), env)
    }
}

#[via_fn]
proof fn spec_simple_dec(s: Seq<char>, env: Map<Seq<char>, Seq<char>>) {
    if s.len() >= 2 && s[0] == '$' && spec_ident_start(s[1]) {
        lemma_run_bounds(s, 1);
        lemma_backoff_bounds(s, env, 1, spec_ident_run_len(s, 1));
    }
}

/// Pass 4: every sentinel becomes a literal `$` again.
pub open spec fn spec_restore(s: Seq<char>) -> Seq<char> {
    s.map_values(|c: char| if c == sentinel() { '$' } else { c })
}

/// What expanding the text of a weak or full token yields.
pub open spec fn spec_expand_vars(env: Map<Seq<char>, Seq<char>>, s: Seq<char>) -> Seq<char> {
    spec_restore(spec_simple(spec_braced(spec_protect(s), env), env))
}

/// What expanding one classified token yields: raw tokens pass through
/// untouched, weak and full tokens go through variable expansion.
pub open spec fn spec_expand_token(env: Map<Seq<char>, Seq<char>>, t: Token) -> Seq<char> {
    if t.mode is Raw {
        t.value@
    } else {
        spec_expand_vars(env, t.value@)
    }
}

/// The identifier run of a suffix, shifted back to the whole sequence.
proof fn lemma_run_shift(s: Seq<char>, a: int, c: int)
    requires
        0 <= a,
        0 <= c,
        a + c <= s.len(),
    ensures
        spec_ident_run_len(s.subrange(a, s.len() as int), c) == spec_ident_run_len(s, a + c),
    decreases s.len() - a - c,
{
    if a + c < s.len() {
        assert(s.subrange(a, s.len() as int)[c] == s[a + c]);
        if spec_ident_char(s[a + c]) {
            lemma_run_shift(s, a, c + 1);
        }
    }
}

/// The backoff search of a suffix, shifted back to the whole sequence.
proof fn lemma_backoff_shift(
    s: Seq<char>,
    env: Map<Seq<char>, Seq<char>>,
    a: int,
    start: int,
    t: int,
)
    requires
        0 <= a,
        0 <= start,
        t >= 0,
        a + start + t <= s.len(),
    ensures
        spec_backoff_at(s.subrange(a, s.len() as int), env, start, t) == spec_backoff_at(
            s,
            env,
            a + start,
            t,
        ),
    decreases t,
{
    if t > 0 {
        assert(s.subrange(a, s.len() as int).subrange(start, start + t) =~= s.subrange(
            a + start,
            a + start + t,
        ));
        lemma_backoff_shift(s, env, a, start, t - 1);
    }
}

/// Finds where the identifier-character run starting at `from` ends.
fn ident_run_end(v: &Vec<char>, from: usize) -> (end: usize)
    requires
        from <= v@.len(),
    ensures
        from <= end <= v@.len(),
        end - from == spec_ident_run_len(v@, from as int),
{
    let n = v.len();
    let mut i: usize = from;
    while i < n && ident_char(v[i])
        invariant
            from <= i <= n,
            n == v@.len(),
            spec_ident_run_len(v@, from as int) == (i - from) + spec_ident_run_len(v@, i as int),
        decreases n - i,
    {
        i += 1;
    }
    i
}

/// The longest defined prefix of the identifier run `v[start .. start+t]`:
/// tries the whole run, then shrinks it from the right.
fn backoff_find(v: &Vec<char>, env: &Environment, start: usize, t: usize) -> (r: Option<
    (usize, String),
>)
    requires
        env.wf(),
        start + t <= v@.len(),
    ensures
        match r {
            Some(found) => {
                &&& 0 < found.0 <= t
                &&& found.0 == spec_backoff_at(v@, env@, start as int, t as int)
                &&& env@.contains_key(v@.subrange(start as int, start as int + found.0))
                &&& found.1@ == env@[v@.subrange(start as int, start as int + found.0)]
            },
            None => spec_backoff_at(v@, env@, start as int, t as int) == 0,
        },
    decreases t,
{
    let _len = v.len();
    if t == 0 {
        return None;
    }
    let name = string_of(&subvec(v, start, start + t));
    match env.get(name.as_str()) {
        Some(val) => Some((t, val)),
        None => backoff_find(v, env, start, t - 1),
    }
}

fn protect_chars(v: &Vec<char>) -> (r: Vec<char>)
    ensures
        r@ == spec_protect(v@),
{
    let n = v.len();
    let mut out: Vec<char> = Vec::new();
    let mut i: usize = 0;
    proof {
        assert(v@.subrange(0, n as int) =~= v@);
        assert(out@ + spec_protect(v@) =~= spec_protect(v@));
    }
    while i < n
        invariant
            n == v@.len(),
            i <= n,
            out@ + spec_protect(v@.subrange(i as int, n as int)) == spec_protect(v@),
        decreases n - i,
    {
        let ghost rem = v@.subrange(i as int, n as int);
        let ghost prev = out@;
        proof {
            assert(rem[0] == v@[i as int]);
            assert(rem.skip(1) =~= v@.subrange(i as int + 1, n as int));
            if rem.len() >= 2 {
                assert(rem[1] == v@[i as int + 1]);
                assert(rem.skip(2) =~= v@.subrange(i as int + 2, n as int));
            }
        }
        if v[i] == '\\' && i + 1 < n && v[i + 1] == '$' {
            out.push('\u{1}');
            proof {
                assert(out@ =~= prev + seq![sentinel()]);
                assert(prev + (seq![sentinel()] + spec_protect(rem.skip(2))) =~= (prev + seq![
                    sentinel(),
                ]) + spec_protect(rem.skip(2)));
            }
            i += 2;
        } else {
            out.push(v[i]);
            proof {
                assert(out@ =~= prev + seq![rem[0]]);
                assert(prev + (seq![rem[0]] + spec_protect(rem.skip(1))) =~= (prev + seq![
                    rem[0],
                ]) + spec_protect(rem.skip(1)));
            }
            i += 1;
        }
    }
    proof {
        assert(v@.subrange(n as int, n as int) =~= Seq::<char>::empty());
        assert(out@ + spec_protect(Seq::<char>::empty()) =~= out@);
    }
    out
}

fn braced_chars(v: &Vec<char>, env: &Environment) -> (r: Vec<char>)
    requires
        env.wf(),
    ensures
        r@ == spec_braced(v@, env@),
{
    let n = v.len();
    let mut out: Vec<char> = Vec::new();
    let mut i: usize = 0;
    proof {
        assert(v@.subrange(0, n as int) =~= v@);
        assert(out@ + spec_braced(v@, env@) =~= spec_braced(v@, env@));
    }
    while i < n
        invariant
            env.wf(),
            n == v@.len(),
            i <= n,
            out@ + spec_braced(v@.subrange(i as int, n as int), env@) == spec_braced(v@, env@),
        decreases n - i,
    {
        let ghost rem = v@.subrange(i as int, n as int);
        let ghost prev = out@;
        proof {
            assert(rem[0] == v@[i as int]);
            assert(rem.skip(1) =~= v@.subrange(i as int + 1, n as int));
            if rem.len() >= 2 {
                assert(rem[1] == v@[i as int + 1]);
            }
            if rem.len() >= 3 {
                assert(rem[2] == v@[i as int + 2]);
            }
        }
        if v[i] == '$' && i + 1 < n && v[i + 1] == '{' && i + 2 < n && ident_start(v[i + 2]) {
            let end = ident_run_end(v, i + 2);
            let ghost k = spec_ident_run_len(rem, 2);
            proof {
                lemma_run_shift(v@, i as int, 2);
                assert(k == end - (i + 2));
            }
            if end < n && v[end] == '}' {
                proof {
                    assert(rem[2 + k] == v@[end as int]);
                    assert(spec_braced_head(rem));
                }
                let name = string_of(&subvec(v, i + 2, end));
                proof {
                    assert(name@ =~= rem.subrange(2, 2 + k));
                }
                match env.get(name.as_str()) {
                    Some(val) => {
                        let mut vc = chars_of(val.as_str());
                        out.append(&mut vc);
                    },
                    None => {},
                }
                proof {
                    assert(out@ =~= prev + env_value(env@, rem.subrange(2, 2 + k)));
                    assert(rem.skip(2 + k + 1) =~= v@.subrange(end as int + 1, n as int));
                    assert(prev + (env_value(env@, rem.subrange(2, 2 + k)) + spec_braced(
                        rem.skip(2 + k + 1),
                        env@,
                    )) =~= (prev + env_value(env@, rem.subrange(2, 2 + k))) + spec_braced(
                        rem.skip(2 + k + 1),
                        env@,
                    ));
                }
                i = end + 1;
            } else {
                proof {
                    assert(!spec_braced_head(rem));
                }
                out.push(v[i]);
                proof {
                    assert(out@ =~= prev + seq![rem[0]]);
                    assert(prev + (seq![rem[0]] + spec_braced(rem.skip(1), env@)) =~= (prev
                        + seq![rem[0]]) + spec_braced(rem.skip(1), env@));
                }
                i += 1;
            }
        } else {
            proof {
                assert(!spec_braced_head(rem));
            }
            out.push(v[i]);
            proof {
                assert(out@ =~= prev + seq![rem[0]]);
                assert(prev + (seq![rem[0]] + spec_braced(rem.skip(1), env@)) =~= (prev + seq![
                    rem[0],
                ]) + spec_braced(rem.skip(1), env@));
            }
            i += 1;
        }
    }
    proof {
        assert(v@.subrange(n as int, n as int) =~= Seq::<char>::empty());
        assert(out@ + spec_braced(Seq::<char>::empty(), env@) =~= out@);
    }
    out
}

fn simple_chars(v: &Vec<char>, env: &Environment) -> (r: Vec<char>)
    requires
        env.wf(),
    ensures
        r@ == spec_simple(v@, env@),
{
    let n = v.len();
    let mut out: Vec<char> = Vec::new();
    let mut i: usize = 0;
    proof {
        assert(v@.subrange(0, n as int) =~= v@);
        assert(out@ + spec_simple(v@, env@) =~= spec_simple(v@, env@));
    }
    while i < n
        invariant
            env.wf(),
            n == v@.len(),
            i <= n,
            out@ + spec_simple(v@.subrange(i as int, n as int), env@) == spec_simple(v@, env@),
        decreases n - i,
    {
        let ghost rem = v@.subrange(i as int, n as int);
        let ghost prev = out@;
        proof {
            assert(rem[0] == v@[i as int]);
            assert(rem.skip(1) =~= v@.subrange(i as int + 1, n as int));
            if rem.len() >= 2 {
                assert(rem[1] == v@[i as int + 1]);
            }
        }
        if v[i] == '$' && i + 1 < n && ident_start(v[i + 1]) {
            let end = ident_run_end(v, i + 1);
            let ghost k = spec_ident_run_len(rem, 1);
            proof {
                lemma_run_shift(v@, i as int, 1);
                assert(k == end - (i + 1));
                lemma_backoff_shift(v@, env@, i as int, 1, k);
            }
            match backoff_find(v, env, i + 1, end - (i + 1)) {
                Some((b, val)) => {
                    proof {
                        assert(spec_backoff_at(rem, env@, 1, k) == b);
                        assert(rem.subrange(1, 1 + b) =~= v@.subrange(
                            i as int + 1,
                            i as int + 1 + b,
                        ));
                    }
                    let mut vc = chars_of(val.as_str());
                    out.append(&mut vc);
                    proof {
                        assert(out@ =~= prev + env@[rem.subrange(1, 1 + b)]);
                        assert(rem.skip(1 + b) =~= v@.subrange(i as int + 1 + b, n as int));
                        assert(prev + (env@[rem.subrange(1, 1 + b)] + spec_simple(
                            rem.skip(1 + b),
                            env@,
                        )) =~= (prev + env@[rem.subrange(1, 1 + b)]) + spec_simple(
                            rem.skip(1 + b),
                            env@,
                        ));
                    }
                    i = i + 1 + b;
                },
                None => {
                    proof {
                        assert(spec_backoff_at(rem, env@, 1, k) == 0);
                    }
                    out.push('$');
                    proof {
                        assert(out@ =~= prev + seq!['$']);
                        assert(prev + (seq!['$'] + spec_simple(rem.skip(1), env@)) =~= (prev
                            + seq!['$']) + spec_simple(rem.skip(1), env@));
                    }
                    i += 1;
                },
            }
        } else {
            out.push(v[i]);
            proof {
                assert(out@ =~= prev + seq![rem[0]]);
                assert(prev + (seq![rem[0]] + spec_simple(rem.skip(1), env@)) =~= (prev + seq![
                    rem[0],
                ]) + spec_simple(rem.skip(1), env@));
            }
            i += 1;
        }
    }
    proof {
        assert(v@.subrange(n as int, n as int) =~= Seq::<char>::empty());
        assert(out@ + spec_simple(Seq::<char>::empty(), env@) =~= out@);
    }
    out
}

fn restore_chars(v: &Vec<char>) -> (r: Vec<char>)
    ensures
        r@ == spec_restore(v@),
{
    let n = v.len();
    let mut out: Vec<char> = Vec::new();
    let mut i: usize = 0;
    while i < n
        invariant
            n == v@.len(),
            i <= n,
            out@.len() == i,
            forall|j: int| 0 <= j < i ==> out@[j] == spec_restore(v@)[j],
        decreases n - i,
    {
        let c = v[i];
        if c == '\u{1}' {
            out.push('$');
        } else {
            out.push(c);
        }
        i += 1;
    }
    proof {
        assert(out@ =~= spec_restore(v@));
    }
    out
}

/// The expander itself carries no state; it exists so that the pipeline
/// components read uniformly.
#[derive(Debug, Clone)]
pub struct Expander;

impl Expander {
    /// Resolves `$NAME` and `${NAME}` references in one weak or full
    /// token's text.
    pub fn expand_vars(&self, env: &Environment, s: &str) -> (r: String)
        requires
            env.wf(),
        ensures
            r@ == spec_expand_vars(env@, s@),
    {
        let protected = protect_chars(&chars_of(s));
        let braced = braced_chars(&protected, env);
        let resolved = simple_chars(&braced, env);
        string_of(&restore_chars(&resolved))
    }

    /// Expands one classified token: raw tokens pass through untouched.
    pub fn expand_token(&self, env: &Environment, token: Token) -> (r: Result<
        String,
        CliError,
    >)
        requires
            env.wf(),
        ensures
            r is Ok && r->Ok_0@ == spec_expand_token(env@, token),
    {
        match token.mode {
            TokenMode::Raw => Ok(token.value),
            TokenMode::Weak | TokenMode::Full => Ok(
                self.expand_vars(env, token.value.as_str()),
            ),
        }
    }

    /// Expands a token list: one output string per input token, same
    /// order, same count. Expansion never fails; undefined variables
    /// expand to the empty string.
    pub fn expand_tokens(&self, env: &Environment, tokens: Vec<Token>) -> (r: Result<
        Vec<String>,
        CliError,
    >)
        requires
            env.wf(),
        ensures
            r is Ok,
            ({
                let out = r->Ok_0;
                &&& out@.len() == tokens@.len()
                &&& forall|i: int| #![trigger out@[i]]
                    0 <= i < tokens@.len() ==> out@[i]@ == spec_expand_token(env@, tokens@[i])
            }),
    {
        let ghost toks = tokens@;
        let n = tokens.len();
        let mut rest = tokens;
        let mut out: Vec<String> = Vec::new();
        let mut i: usize = 0;
        while i < n
            invariant
                env.wf(),
                i <= n,
                n == toks.len(),
                rest@ == toks.subrange(i as int, n as int),
                out@.len() == i,
                forall|j: int| #![trigger out@[j]]
                    0 <= j < i ==> out@[j]@ == spec_expand_token(env@, toks[j]),
            decreases n - i,
        {
            let tok = rest.remove(0);
            proof {
                assert(tok == toks[i as int]);
                assert(rest@ =~= toks.subrange(i as int + 1, n as int));
            }
            match self.expand_token(env, tok) {
                Ok(s) => out.push(s),
                Err(e) => {
                    return Err(e);
                },
            }
            i += 1;
        }
        Ok(out)
    }
}

impl Default for Expander {
    fn default() -> (r: Self)
        ensures
            r == (Expander),
    {
        Expander
    }
}

} // verus!
