//! The counting core of the word-count utility: lines, words and bytes
//! of a text, in one pass.

use vstd::prelude::*;
use vstd::string::*;

use crate::chars::{chars_of, is_space, spec_space};

verus! {

/// How often `c` occurs in `s`.
pub open spec fn spec_count_char(s: Seq<char>, c: char) -> int
    decreases s.len(),
{
    if s.len() == 0 {
        0
    } else {
        spec_count_char(s.drop_last(), c) + if s.last() == c {
            1int
        } else {
            0
        }
    }
}

/// A character occurs at most once per position.
proof fn lemma_count_char_le(s: Seq<char>, c: char)
    ensures
        0 <= spec_count_char(s, c) <= s.len(),
    decreases s.len(),
{
    if s.len() > 0 {
        lemma_count_char_le(s.drop_last(), c);
    }
}

/// The line count of a text: one line per newline, plus a final line
/// when the text does not end in a newline; the empty text has none.
pub open spec fn spec_count_lines(s: Seq<char>) -> int {
    if s.len() == 0 {
        0
    } else if s.last() == '\n' {
        spec_count_char(s, '\n')
    } else {
        spec_count_char(s, '\n') + 1
    }
}

/// The words remaining in `s`, given whether a word was already open
/// just before it.
pub open spec fn spec_words_from(s: Seq<char>, in_word: bool) -> int
    decreases s.len(),
{
    if s.len() == 0 {
        0
    } else if spec_space(s[0]) {
        spec_words_from(s.skip(1), false)
    } else {
        (if in_word {
            0int
        } else {
            1
        }) + spec_words_from(s.skip(1), true)
    }
}

/// The word count of a text: its maximal whitespace-free runs.
pub open spec fn spec_count_words(s: Seq<char>) -> int {
    spec_words_from(s, false)
}

/// Counts the lines, words and bytes of a text, in that order.
pub fn count_lines_words_bytes(content: &str) -> (r: (usize, usize, usize))
    ensures
        r.0 == spec_count_lines(content@),
        r.1 == spec_count_words(content@),
        r.2 == content.spec_bytes().len() as usize,
{
    let bytes = content.len();
    let cs = chars_of(content);
    let n = cs.len();
    let mut newlines: usize = 0;
    let mut words: usize = 0;
    let mut in_word: bool = false;
    let mut i: usize = 0;
    proof {
        assert(cs@.subrange(0, 0) =~= Seq::<char>::empty());
        assert(cs@.skip(0) =~= cs@);
    }
    while i < n
        invariant
            n == cs@.len(),
            cs@ == content@,
            i <= n,
            newlines == spec_count_char(cs@.subrange(0, i as int), '\n'),
            newlines <= i,
            words + spec_words_from(cs@.skip(i as int), in_word) == spec_count_words(cs@),
            words <= i,
        decreases n - i,
    {
        let ghost rem = cs@.skip(i as int);
        proof {
            assert(rem[0] == cs@[i as int]);
            assert(rem.skip(1) =~= cs@.skip(i as int + 1));
            assert(cs@.subrange(0, i as int + 1).drop_last() =~= cs@.subrange(0, i as int));
            assert(cs@.subrange(0, i as int + 1).last() == cs@[i as int]);
        }
        let c = cs[i];
        if c == '\n' {
            newlines += 1;
        }
        if is_space(c) {
            in_word = false;
        } else {
            if !in_word {
                words += 1;
            }
            in_word = true;
        }
        i += 1;
    }
    proof {
        assert(cs@.subrange(0, n as int) =~= cs@);
        assert(cs@.skip(n as int) =~= Seq::<char>::empty());
        lemma_count_char_le(cs@, '\n');
        if n > 0 && cs@.last() != '\n' {
            assert(spec_count_char(cs@, '\n') == spec_count_char(cs@.drop_last(), '\n'));
            lemma_count_char_le(cs@.drop_last(), '\n');
        }
    }
    let lines: usize = if n == 0 {
        0
    } else if cs[n - 1] == '\n' {
        newlines
    } else {
        newlines + 1
    };
    (lines, words, bytes)
}

} // verus!
