//! Library-wide laws: what classification and expansion promise beyond
//! the individual contracts, proved once and for all inputs.

use vstd::prelude::*;

use crate::expander::{sentinel, spec_braced, spec_braced_head, spec_expand_token,
    spec_expand_vars, spec_protect, spec_restore, spec_simple};
use crate::input_processor::spec_expand_raw;
use crate::quote_handler::{spec_classify_mode, spec_classify_value, spec_unescape,
    spec_wrapped_in};
use crate::token::{Token, TokenMode};

verus! {

/// The unescape rule leaves text alone when every backslash in it starts
/// a `\$` pair.
proof fn lemma_unescape_identity(s: Seq<char>)
    requires
        forall|i: int| 0 <= i < s.len() && #[trigger] s[i] == '\\' ==> i + 1 < s.len() && s[i + 1] == '$',
    ensures
        spec_unescape(s) == s,
    decreases s.len(),
{
    if s.len() == 0 {
    } else if s[0] == '\\' {
        assert forall|i: int|
            0 <= i < s.skip(2).len() && #[trigger] s.skip(2)[i] == '\\' implies i + 1 < s.skip(2).len()
            && s.skip(2)[i + 1] == '$' by {
            assert(s.skip(2)[i] == s[i + 2]);
            assert(s.skip(2)[i + 1] == s[i + 3]);
        }
        lemma_unescape_identity(s.skip(2));
        assert(seq!['\\', '$'] + s.skip(2) =~= s);
    } else {
        assert forall|i: int|
            0 <= i < s.skip(1).len() && #[trigger] s.skip(1)[i] == '\\' implies i + 1 < s.skip(1).len()
            && s.skip(1)[i + 1] == '$' by {
            assert(s.skip(1)[i] == s[i + 1]);
            assert(s.skip(1)[i + 1] == s[i + 2]);
        }
        lemma_unescape_identity(s.skip(1));
        assert(seq![s[0]] + s.skip(1) =~= s);
    }
}

/// Idempotence of classification: classifying text that is not wrapped in
/// quotes and whose every backslash starts a `\$` pair is a no-op — the
/// value comes back unchanged, in mode `Full`. The text a single-quoted
/// token classifies to ordinarily has this shape, since classification
/// strips the delimiters and raw text keeps no quote wrapping of its own.
pub proof fn lemma_classify_idempotent(s: Seq<char>)
    requires
        !spec_wrapped_in(s, '\''),
        !spec_wrapped_in(s, '"'),
        forall|i: int| 0 <= i < s.len() && #[trigger] s[i] == '\\' ==> i + 1 < s.len() && s[i + 1] == '$',
    ensures
        spec_classify_value(s) == s,
        spec_classify_mode(s) is Full,
{
    lemma_unescape_identity(s);
}

/// The protect pass leaves text alone when no backslash in it starts a
/// `\$` pair.
proof fn lemma_protect_id(s: Seq<char>)
    requires
        forall|i: int|
            0 <= i < s.len() && #[trigger] s[i] == '\\' ==> !(i + 1 < s.len() && s[i + 1] == '$'),
    ensures
        spec_protect(s) == s,
    decreases s.len(),
{
    if s.len() > 0 {
        assert forall|i: int|
            0 <= i < s.skip(1).len() && #[trigger] s.skip(1)[i] == '\\' implies !(i + 1 < s.skip(1).len()
            && s.skip(1)[i + 1] == '$') by {
            assert(s.skip(1)[i] == s[i + 1]);
            if i + 1 < s.skip(1).len() {
                assert(s.skip(1)[i + 1] == s[i + 2]);
            }
        }
        lemma_protect_id(s.skip(1));
        assert(seq![s[0]] + s.skip(1) =~= s);
    }
}

/// The braced pass leaves dollar-free text alone.
proof fn lemma_braced_id(env: Map<Seq<char>, Seq<char>>, s: Seq<char>)
    requires
        forall|i: int| 0 <= i < s.len() ==> #[trigger] s[i] != '$',
    ensures
        spec_braced(s, env) == s,
    decreases s.len(),
{
    if s.len() > 0 {
        assert(!spec_braced_head(s));
        assert(forall|i: int| 0 <= i < s.skip(1).len() ==> #[trigger] s.skip(1)[i] == s[i + 1]);
        lemma_braced_id(env, s.skip(1));
        assert(seq![s[0]] + s.skip(1) =~= s);
    }
}

/// The simple pass leaves dollar-free text alone.
proof fn lemma_simple_id(env: Map<Seq<char>, Seq<char>>, s: Seq<char>)
    requires
        forall|i: int| 0 <= i < s.len() ==> #[trigger] s[i] != '$',
    ensures
        spec_simple(s, env) == s,
    decreases s.len(),
{
    if s.len() > 0 {
        assert(forall|i: int| 0 <= i < s.skip(1).len() ==> #[trigger] s.skip(1)[i] == s[i + 1]);
        lemma_simple_id(env, s.skip(1));
        assert(seq![s[0]] + s.skip(1) =~= s);
    }
}

/// The restore pass leaves sentinel-free text alone.
proof fn lemma_restore_id(s: Seq<char>)
    requires
        forall|i: int| 0 <= i < s.len() ==> #[trigger] s[i] != sentinel(),
    ensures
        spec_restore(s) == s,
{
    assert(spec_restore(s) =~= s);
}

/// Expansion is the identity on text that carries no `$` (and none of the
/// private sentinel character), whatever the environment holds: with no
/// reference to resolve, every pass hands the text through unchanged.
pub proof fn lemma_expand_no_dollar_identity(env: Map<Seq<char>, Seq<char>>, s: Seq<char>)
    requires
        forall|i: int| 0 <= i < s.len() ==> #[trigger] s[i] != '$' && s[i] != sentinel(),
    ensures
        spec_expand_vars(env, s) == s,
{
    lemma_protect_id(s);
    lemma_braced_id(env, s);
    lemma_simple_id(env, s);
    lemma_restore_id(s);
}

/// The unescape rule introduces no occurrence of `c`: every character it
/// emits stands in its input.
proof fn lemma_unescape_no_char(s: Seq<char>, c: char)
    requires
        forall|i: int| 0 <= i < s.len() ==> #[trigger] s[i] != c,
    ensures
        forall|j: int| 0 <= j < spec_unescape(s).len() ==> #[trigger] spec_unescape(s)[j] != c,
    decreases s.len(),
{
    if s.len() == 0 {
    } else if s[0] == '\\' && s.len() >= 2 {
        assert(forall|i: int| 0 <= i < s.skip(2).len() ==> #[trigger] s.skip(2)[i] == s[i + 2]);
        lemma_unescape_no_char(s.skip(2), c);
        let r = spec_unescape(s.skip(2));
        if s[1] == '$' {
            assert forall|j: int|
                0 <= j < spec_unescape(s).len() implies #[trigger] spec_unescape(s)[j]
                != c by {
                if j >= 2 {
                    assert(spec_unescape(s)[j] == r[j - 2]);
                } else if j == 0 {
                    assert(spec_unescape(s)[j] == s[0]);
                } else {
                    assert(spec_unescape(s)[j] == s[1]);
                }
            }
        } else {
            assert forall|j: int|
                0 <= j < spec_unescape(s).len() implies #[trigger] spec_unescape(s)[j]
                != c by {
                if j >= 1 {
                    assert(spec_unescape(s)[j] == r[j - 1]);
                } else {
                    assert(spec_unescape(s)[j] == s[1]);
                }
            }
        }
    } else if s[0] == '\\' {
    } else {
        assert(forall|i: int| 0 <= i < s.skip(1).len() ==> #[trigger] s.skip(1)[i] == s[i + 1]);
        lemma_unescape_no_char(s.skip(1), c);
        let r = spec_unescape(s.skip(1));
        assert forall|j: int|
            0 <= j < spec_unescape(s).len() implies #[trigger] spec_unescape(s)[j] != c by {
            if j >= 1 {
                assert(spec_unescape(s)[j] == r[j - 1]);
            } else {
                assert(spec_unescape(s)[j] == s[0]);
            }
        }
    }
}

/// Escaping round-trip: for a raw token that carries no `$` (and none of
/// the private sentinel character), classification followed by expansion
/// returns exactly what classification alone returns — the token after
/// unescaping its backslash pairs — whatever the environment holds.
pub proof fn lemma_expand_after_classify_no_dollar(
    env: Map<Seq<char>, Seq<char>>,
    raw: Seq<char>,
)
    requires
        forall|i: int| 0 <= i < raw.len() ==> #[trigger] raw[i] != '$' && raw[i] != sentinel(),
    ensures
        spec_expand_raw(env, raw) == spec_classify_value(raw),
{
    let v = spec_classify_value(raw);
    if !(spec_classify_mode(raw) is Raw) {
        if spec_wrapped_in(raw, '"') {
            let interior = raw.subrange(1, raw.len() - 1);
            assert(forall|i: int|
                0 <= i < interior.len() ==> #[trigger] interior[i] == raw[i + 1]);
            lemma_unescape_no_char(interior, '$');
            lemma_unescape_no_char(interior, sentinel());
        } else {
            lemma_unescape_no_char(raw, '$');
            lemma_unescape_no_char(raw, sentinel());
        }
        lemma_expand_no_dollar_identity(env, v);
    }
}

/// Quote literalness: a raw (single-quoted) token expands to its own
/// text, whatever the environment holds — even where the text names a
/// defined variable.
pub proof fn lemma_raw_token_literal(env: Map<Seq<char>, Seq<char>>, t: Token)
    requires
        t.mode is Raw,
    ensures
        spec_expand_token(env, t) == t.value@,
{
}

/// An escaped dollar survives expansion: `\$` followed by a name free of
/// `$`, backslashes and the sentinel expands to a literal `$` and the
/// name, whatever the environment holds — even where the name is a
/// defined variable.
pub proof fn lemma_escaped_dollar_literal(env: Map<Seq<char>, Seq<char>>, name: Seq<char>)
    requires
        forall|i: int|
            0 <= i < name.len() ==> #[trigger] name[i] != '$' && name[i] != '\\' && name[i]
                != sentinel(),
    ensures
        spec_expand_vars(env, seq!['\\', '$'] + name) == seq!['$'] + name,
{
    let s = seq!['\\', '$'] + name;
    assert(s[0] == '\\' && s[1] == '$');
    assert(forall|i: int| 0 <= i < name.len() ==> #[trigger] s[i + 2] == name[i]);
    lemma_protect_id(name);
    assert(s.skip(2) =~= name);
    assert(spec_protect(s) == seq![sentinel()] + name);
    let p = seq![sentinel()] + name;
    assert(forall|i: int| 0 <= i < p.len() ==> #[trigger] p[i] != '$');
    lemma_braced_id(env, p);
    lemma_simple_id(env, p);
    assert(spec_restore(p) =~= seq!['$'] + name);
}

} // verus!
