//! The back half of the pipeline: splitting the raw token stream at
//! unquoted `|` tokens, recognizing redirection operators, and building
//! command descriptors; and the facade that runs the whole pipeline.

use vstd::prelude::*;
use vstd::string::*;

use crate::chars::{chars_of, seq_seq_views, seq_views};
use crate::command::{Command, SpecCommand, opt_view};
use crate::environment::Environment;
use crate::errors::CliError;
use crate::expander::{Expander, spec_expand_vars};
use crate::quote_handler::{QuoteHandler, spec_classify_mode, spec_classify_value};
use crate::token::TokenMode;
use crate::tokenizer::{Tokenizer, spec_tokenize};

verus! {

/// A decimal digit.
pub open spec fn spec_digit(c: char) -> bool {
    '0' <= c && c <= '9'
}

/// A non-empty, all-digit sequence.
pub open spec fn spec_all_digits(s: Seq<char>) -> bool {
    s.len() > 0 && forall|i: int| 0 <= i < s.len() ==> spec_digit(#[trigger] s[i])
}

/// The number the digit sequence denotes.
pub open spec fn spec_digits_val(s: Seq<char>) -> int
    decreases s.len(),
{
    if s.len() == 0 {
        0
    } else {
        spec_digits_val(s.drop_last()) * 10 + (s.last() as int - '0' as int)
    }
}

/// What a file-descriptor redirection piece denotes: `<digits>>` names
/// the descriptor with append mode, `<digits>` followed by one `>` names
/// it with overwrite mode; anything else (digits missing, or a number
/// past `u32`) is no such piece.
pub open spec fn spec_parse_fd(s: Seq<char>) -> Option<(int, bool)> {
    if s.len() >= 2 && s[s.len() - 1] == '>' && s[s.len() - 2] == '>' {
        let p = s.subrange(0, s.len() - 2);
        if spec_all_digits(p) && spec_digits_val(p) <= u32::MAX as int {
            Some((spec_digits_val(p), true))
        } else {
            None
        }
    } else if s.len() >= 1 && s[s.len() - 1] == '>' {
        let p = s.subrange(0, s.len() - 1);
        if spec_all_digits(p) && spec_digits_val(p) <= u32::MAX as int {
            Some((spec_digits_val(p), false))
        } else {
            None
        }
    } else {
        None
    }
}

/// A digit sequence's number is never negative.
proof fn lemma_digits_nonneg(s: Seq<char>)
    requires
        forall|i: int| 0 <= i < s.len() ==> spec_digit(#[trigger] s[i]),
    ensures
        spec_digits_val(s) >= 0,
    decreases s.len(),
{
    if s.len() > 0 {
        lemma_digits_nonneg(s.drop_last());
    }
}

/// A digit sequence's number only grows with more digits on the right.
proof fn lemma_digits_prefix_le(s: Seq<char>, j: int)
    requires
        forall|i: int| 0 <= i < s.len() ==> spec_digit(#[trigger] s[i]),
        0 <= j <= s.len(),
    ensures
        spec_digits_val(s.subrange(0, j)) <= spec_digits_val(s),
    decreases s.len(),
{
    if j == s.len() {
        assert(s.subrange(0, j) =~= s);
    } else {
        let d = s.drop_last();
        assert(d.subrange(0, j) =~= s.subrange(0, j));
        lemma_digits_prefix_le(d, j);
        lemma_digits_nonneg(d);
    }
}

/// Parses `v[0 .. to]` as a `u32` written in decimal.
fn parse_digits(v: &Vec<char>, to: usize) -> (r: Option<u32>)
    requires
        to <= v@.len(),
    ensures
        ({
            let p = v@.subrange(0, to as int);
            match r {
                Some(x) => spec_all_digits(p) && spec_digits_val(p) == x as int,
                None => !(spec_all_digits(p) && spec_digits_val(p) <= u32::MAX as int),
            }
        }),
{
    let ghost p = v@.subrange(0, to as int);
    if to == 0 {
        return None;
    }
    let mut acc: u32 = 0;
    let mut i: usize = 0;
    proof {
        assert(v@.subrange(0, 0) =~= Seq::<char>::empty());
    }
    while i < to
        invariant
            i <= to <= v@.len(),
            p == v@.subrange(0, to as int),
            forall|j: int| 0 <= j < i ==> spec_digit(#[trigger] v@[j]),
            acc as int == spec_digits_val(v@.subrange(0, i as int)),
        decreases to - i,
    {
        let c = v[i];
        if !('0' <= c && c <= '9') {
            proof {
                assert(p[i as int] == v@[i as int]);
                assert(!spec_all_digits(p));
            }
            return None;
        }
        let d: u32 = (c as u32) - 48;
        proof {
            assert('0' as int == 48 && '9' as int == 57);
        }
        if acc > (u32::MAX - d) / 10 {
            proof {
                let pre1 = v@.subrange(0, i as int + 1);
                assert(pre1.drop_last() =~= v@.subrange(0, i as int));
                assert(pre1.last() == v@[i as int]);
                assert(acc * 10 + d > u32::MAX) by (nonlinear_arith)
                    requires
                        acc > (u32::MAX - d) / 10,
                        d <= u32::MAX,
                ;
                assert(spec_digits_val(pre1) > u32::MAX as int);
                if spec_all_digits(p) {
                    lemma_digits_prefix_le(p, i as int + 1);
                    assert(p.subrange(0, i as int + 1) =~= pre1);
                }
            }
            return None;
        }
        proof {
            assert(acc * 10 + d <= u32::MAX) by (nonlinear_arith)
                requires
                    acc <= (u32::MAX - d) / 10,
                    d <= u32::MAX,
            ;
        }
        acc = acc * 10 + d;
        proof {
            let pre1 = v@.subrange(0, i as int + 1);
            assert(pre1.drop_last() =~= v@.subrange(0, i as int));
            assert(pre1.last() == v@[i as int]);
        }
        i += 1;
    }
    proof {
        assert(v@.subrange(0, to as int) =~= p);
    }
    Some(acc)
}

/// Recognizes file-descriptor redirection pieces such as `2>` or `3>>`:
/// the descriptor number and whether the mode is append.
pub fn parse_fd_redirect(s: &str) -> (r: Option<(u32, bool)>)
    ensures
        match r {
            Some(fd) => spec_parse_fd(s@) == Some((fd.0 as int, fd.1)),
            None => spec_parse_fd(s@) is None,
        },
{
    let cs = chars_of(s);
    let n = cs.len();
    if n >= 2 && cs[n - 1] == '>' && cs[n - 2] == '>' {
        match parse_digits(&cs, n - 2) {
            Some(x) => Some((x, true)),
            None => None,
        }
    } else if n >= 1 && cs[n - 1] == '>' {
        match parse_digits(&cs, n - 1) {
            Some(x) => Some((x, false)),
            None => None,
        }
    } else {
        None
    }
}

/// One step of pipe splitting: the groups already finished, the group
/// being collected, and the tokens still to scan. A token that is exactly
/// `|` ends the current group (even an empty one); a non-empty trailing
/// group is kept, an empty one is dropped.
pub open spec fn spec_split_from(
    toks: Seq<Seq<char>>,
    cur: Seq<Seq<char>>,
) -> Seq<Seq<Seq<char>>>
    decreases toks.len(),
{
    if toks.len() == 0 {
        if cur.len() > 0 {
            seq![cur]
        } else {
            Seq::empty()
        }
    } else if toks[0] == seq!['|'] {
        seq![cur] + spec_split_from(toks.skip(1), Seq::empty())
    } else {
        spec_split_from(toks.skip(1), cur.push(toks[0]))
    }
}

/// The per-command groups of a raw token stream, split at `|` tokens.
pub open spec fn spec_split_pipes(toks: Seq<Seq<char>>) -> Seq<Seq<Seq<char>>> {
    spec_split_from(toks, Seq::empty())
}

/// Splits an already tokenized line into per-command groups at raw `|`
/// tokens. The comparison happens before quote stripping, so a quoted
/// `"|"` (which still carries its quotes here) never splits.
pub fn split_on_pipes_tokens(raw: &Vec<String>) -> (r: Vec<Vec<String>>)
    ensures
        seq_seq_views(r@) == spec_split_pipes(seq_views(raw@)),
{
    let ghost all = seq_views(raw@);
    let n = raw.len();
    let mut out: Vec<Vec<String>> = Vec::new();
    let mut cur: Vec<String> = Vec::new();
    let mut i: usize = 0;
    proof {
        assert(all.skip(0) =~= all);
        assert(seq_views(cur@) =~= Seq::<Seq<char>>::empty());
        assert(seq_seq_views(out@) =~= Seq::<Seq<Seq<char>>>::empty());
        assert(seq_seq_views(out@) + spec_split_from(all, seq_views(cur@)) =~= spec_split_from(
            all,
            seq_views(cur@),
        ));
    }
    while i < n
        invariant
            n == raw@.len(),
            all == seq_views(raw@),
            i <= n,
            seq_seq_views(out@) + spec_split_from(all.skip(i as int), seq_views(cur@))
                == spec_split_pipes(all),
        decreases n - i,
    {
        let ghost rem = all.skip(i as int);
        let ghost prev_out = seq_seq_views(out@);
        let ghost prev_cur = seq_views(cur@);
        proof {
            assert(rem[0] == all[i as int]);
            assert(rem.skip(1) =~= all.skip(i as int + 1));
        }
        let t = &raw[i];
        let cs = chars_of(t.as_str());
        if cs.len() == 1 && cs[0] == '|' {
            proof {
                assert(cs@ =~= seq!['|']);
            }
            let finished = cur;
            cur = Vec::new();
            out.push(finished);
            proof {
                assert(seq_views(cur@) =~= Seq::<Seq<char>>::empty());
                assert(seq_seq_views(out@) =~= prev_out + seq![prev_cur]);
                assert(prev_out + (seq![prev_cur] + spec_split_from(
                    rem.skip(1),
                    Seq::empty(),
                )) =~= (prev_out + seq![prev_cur]) + spec_split_from(rem.skip(1), Seq::empty()));
            }
        } else {
            proof {
                if cs@ == seq!['|'] {
                    assert(cs@.len() == 1 && cs@[0] == '|');
                }
                assert(cs@ != seq!['|']);
            }
            cur.push(t.clone());
            proof {
                assert(seq_views(cur@) =~= prev_cur.push(rem[0]));
            }
        }
        i += 1;
    }
    proof {
        assert(all.skip(n as int) =~= Seq::<Seq<char>>::empty());
    }
    if !cur.is_empty() {
        let ghost prev_out = seq_seq_views(out@);
        let ghost prev_cur = seq_views(cur@);
        out.push(cur);
        proof {
            assert(seq_seq_views(out@) =~= prev_out + seq![prev_cur]);
        }
    } else {
        proof {
            assert(seq_views(cur@) =~= Seq::<Seq<char>>::empty());
            assert(seq_seq_views(out@) + spec_split_from(
                Seq::<Seq<char>>::empty(),
                seq_views(cur@),
            ) =~= seq_seq_views(out@));
        }
    }
    out
}

/// The descriptor a pipeline segment starts from: a name, no arguments,
/// no redirections.
pub open spec fn spec_init_cmd(name: Seq<char>) -> SpecCommand {
    SpecCommand {
        name,
        args: Seq::empty(),
        stdin: None,
        stdout: None,
        append_stdout: false,
        stderr: None,
        append_stderr: false,
    }
}

/// Whether a piece is none of the literal redirection operators.
pub open spec fn spec_not_literal_op(s: Seq<char>) -> bool {
    &&& s != seq!['<']
    &&& s != seq!['0', '<']
    &&& s != seq!['>']
    &&& s != seq!['1', '>']
    &&& s != seq!['>', '>']
    &&& s != seq!['1', '>', '>']
    &&& s != seq!['2', '>']
    &&& s != seq!['2', '>', '>']
}

/// One left-to-right scan over a segment's remaining pieces with one piece
/// of lookahead, folding redirections and arguments into the descriptor.
/// A repeated redirection overwrites the earlier one: the last wins. An
/// operator at the end of the segment leaves its stream unset. A
/// descriptor number other than 0, 1 or 2 is not modeled: the piece and
/// its target stay in the arguments verbatim.
pub open spec fn spec_consume(ps: Seq<Seq<char>>, acc: SpecCommand) -> SpecCommand
    decreases ps.len(),
{
    if ps.len() == 0 {
        acc
    } else {
        let p = ps[0];
        let target = if ps.len() >= 2 {
            Some(ps[1])
        } else {
            None
        };
        let rest = if ps.len() >= 2 {
            ps.skip(2)
        } else {
            ps.skip(1)
        };
        if p == seq!['<'] || p == seq!['0', '<'] {
            spec_consume(rest, SpecCommand { stdin: target, ..acc })
        } else if p == seq!['>'] || p == seq!['1', '>'] {
            spec_consume(rest, SpecCommand { stdout: target, append_stdout: false, ..acc })
        } else if p == seq!['>', '>'] || p == seq!['1', '>', '>'] {
            spec_consume(rest, SpecCommand { stdout: target, append_stdout: true, ..acc })
        } else if p == seq!['2', '>'] {
            spec_consume(rest, SpecCommand { stderr: target, append_stderr: false, ..acc })
        } else if p == seq!['2', '>', '>'] {
            spec_consume(rest, SpecCommand { stderr: target, append_stderr: true, ..acc })
        } else {
            match spec_parse_fd(p) {
                Some(fd) => {
                    if fd.0 == 0 && !fd.1 {
                        spec_consume(rest, SpecCommand { stdin: target, ..acc })
                    } else if fd.0 == 1 {
                        spec_consume(
                            rest,
                            SpecCommand { stdout: target, append_stdout: fd.1, ..acc },
                        )
                    } else if fd.0 == 2 {
                        spec_consume(
                            rest,
                            SpecCommand { stderr: target, append_stderr: fd.1, ..acc },
                        )
                    } else {
                        let args2 = if target is Some {
                            acc.args + seq![p, target->0]
                        } else {
                            acc.args.push(p)
                        };
                        spec_consume(rest, SpecCommand { args: args2, ..acc })
                    }
                },
                None => spec_consume(ps.skip(1), SpecCommand { args: acc.args.push(p), ..acc }),
            }
        }
    }
}

/// What producing a descriptor from a segment's pieces yields: `None` for
/// an empty segment, else the fold of the scan over the pieces after the
/// name.
pub open spec fn spec_produce(ps: Seq<Seq<char>>) -> Option<SpecCommand> {
    if ps.len() == 0 {
        None
    } else {
        Some(spec_consume(ps.skip(1), spec_init_cmd(ps[0])))
    }
}

/// What one piece means to the scan.
enum PieceClass {
    StdinOp,
    StdoutOp,
    StdoutAppendOp,
    StderrOp,
    StderrAppendOp,
    FdOp(u32, bool),
    Plain,
}

fn classify_piece(p: &str) -> (k: PieceClass)
    ensures
        match k {
            PieceClass::StdinOp => p@ == seq!['<'] || p@ == seq!['0', '<'],
            PieceClass::StdoutOp => p@ == seq!['>'] || p@ == seq!['1', '>'],
            PieceClass::StdoutAppendOp => p@ == seq!['>', '>'] || p@ == seq!['1', '>', '>'],
            PieceClass::StderrOp => p@ == seq!['2', '>'],
            PieceClass::StderrAppendOp => p@ == seq!['2', '>', '>'],
            PieceClass::FdOp(fd, ap) => spec_not_literal_op(p@) && spec_parse_fd(p@) == Some(
                (fd as int, ap),
            ),
            PieceClass::Plain => spec_not_literal_op(p@) && spec_parse_fd(p@) is None,
        },
{
    let cs = chars_of(p);
    let n = cs.len();
    if n == 1 && cs[0] == '<' {
        proof {
            assert(cs@ =~= seq!['<']);
        }
        PieceClass::StdinOp
    } else if n == 2 && cs[0] == '0' && cs[1] == '<' {
        proof {
            assert(cs@ =~= seq!['0', '<']);
        }
        PieceClass::StdinOp
    } else if n == 1 && cs[0] == '>' {
        proof {
            assert(cs@ =~= seq!['>']);
        }
        PieceClass::StdoutOp
    } else if n == 2 && cs[0] == '1' && cs[1] == '>' {
        proof {
            assert(cs@ =~= seq!['1', '>']);
        }
        PieceClass::StdoutOp
    } else if n == 2 && cs[0] == '>' && cs[1] == '>' {
        proof {
            assert(cs@ =~= seq!['>', '>']);
        }
        PieceClass::StdoutAppendOp
    } else if n == 3 && cs[0] == '1' && cs[1] == '>' && cs[2] == '>' {
        proof {
            assert(cs@ =~= seq!['1', '>', '>']);
        }
        PieceClass::StdoutAppendOp
    } else if n == 2 && cs[0] == '2' && cs[1] == '>' {
        proof {
            assert(cs@ =~= seq!['2', '>']);
        }
        PieceClass::StderrOp
    } else if n == 3 && cs[0] == '2' && cs[1] == '>' && cs[2] == '>' {
        proof {
            assert(cs@ =~= seq!['2', '>', '>']);
        }
        PieceClass::StderrAppendOp
    } else {
        proof {
            assert(p@ == cs@);
            assert(cs@ != seq!['<']) by {
                if cs@ == seq!['<'] {
                    assert(cs@.len() == 1 && cs@[0] == '<');
                }
            }
            assert(cs@ != seq!['0', '<']) by {
                if cs@ == seq!['0', '<'] {
                    assert(cs@.len() == 2 && cs@[0] == '0' && cs@[1] == '<');
                }
            }
            assert(cs@ != seq!['>']) by {
                if cs@ == seq!['>'] {
                    assert(cs@.len() == 1 && cs@[0] == '>');
                }
            }
            assert(cs@ != seq!['1', '>']) by {
                if cs@ == seq!['1', '>'] {
                    assert(cs@.len() == 2 && cs@[0] == '1' && cs@[1] == '>');
                }
            }
            assert(cs@ != seq!['>', '>']) by {
                if cs@ == seq!['>', '>'] {
                    assert(cs@.len() == 2 && cs@[0] == '>' && cs@[1] == '>');
                }
            }
            assert(cs@ != seq!['1', '>', '>']) by {
                if cs@ == seq!['1', '>', '>'] {
                    assert(cs@.len() == 3 && cs@[0] == '1' && cs@[1] == '>' && cs@[2] == '>');
                }
            }
            assert(cs@ != seq!['2', '>']) by {
                if cs@ == seq!['2', '>'] {
                    assert(cs@.len() == 2 && cs@[0] == '2' && cs@[1] == '>');
                }
            }
            assert(cs@ != seq!['2', '>', '>']) by {
                if cs@ == seq!['2', '>', '>'] {
                    assert(cs@.len() == 3 && cs@[0] == '2' && cs@[1] == '>' && cs@[2] == '>');
                }
            }
        }
        match parse_fd_redirect(p) {
            Some(fd) => PieceClass::FdOp(fd.0, fd.1),
            None => PieceClass::Plain,
        }
    }
}

/// The descriptor denoted by the scan's state.
pub open spec fn spec_state_cmd(
    name: String,
    args: Seq<String>,
    stdin: Option<String>,
    stdout: Option<String>,
    append_stdout: bool,
    stderr: Option<String>,
    append_stderr: bool,
) -> SpecCommand {
    SpecCommand {
        name: name@,
        args: seq_views(args),
        stdin: opt_view(stdin),
        stdout: opt_view(stdout),
        append_stdout,
        stderr: opt_view(stderr),
        append_stderr,
    }
}

/// Builds command descriptors out of expanded pieces.
pub struct CommandProducer;

impl CommandProducer {
    /// Produces one command descriptor from a segment's expanded pieces,
    /// recognizing redirection operators with one piece of lookahead.
    /// Fails exactly when the segment has no pieces.
    pub fn produce_command(pieces: Vec<String>) -> (r: Result<Command, CliError>)
        ensures
            match r {
                Ok(c) => pieces@.len() > 0 && Some(c@) == spec_produce(seq_views(pieces@)),
                Err(e) => pieces@.len() == 0 && e == CliError::EmptyCommand,
            },
    {
        let ghost full = seq_views(pieces@);
        let n = pieces.len();
        if n == 0 {
            return Err(CliError::EmptyCommand);
        }
        let name = pieces[0].clone();
        let mut args: Vec<String> = Vec::new();
        let mut stdin: Option<String> = None;
        let mut stdout: Option<String> = None;
        let mut append_stdout: bool = false;
        let mut stderr: Option<String> = None;
        let mut append_stderr: bool = false;
        let mut idx: usize = 1;
        let ghost acc0 = spec_init_cmd(full[0]);
        proof {
            assert(seq_views(args@) =~= Seq::<Seq<char>>::empty());
            assert(spec_state_cmd(
                name,
                args@,
                stdin,
                stdout,
                append_stdout,
                stderr,
                append_stderr,
            ) =~= acc0);
        }
        while idx < n
            invariant
                1 <= idx <= n,
                n == pieces@.len(),
                full == seq_views(pieces@),
                spec_consume(
                    full.skip(idx as int),
                    spec_state_cmd(
                        name,
                        args@,
                        stdin,
                        stdout,
                        append_stdout,
                        stderr,
                        append_stderr,
                    ),
                ) == spec_consume(full.skip(1), acc0),
            decreases n - idx,
        {
            let ghost rem = full.skip(idx as int);
            let ghost prev = spec_state_cmd(
                name,
                args@,
                stdin,
                stdout,
                append_stdout,
                stderr,
                append_stderr,
            );
            proof {
                assert(rem[0] == full[idx as int]);
                assert(full[idx as int] == pieces@[idx as int]@);
                assert(rem.skip(1) =~= full.skip(idx as int + 1));
                if idx + 1 < n {
                    assert(rem[1] == full[idx as int + 1]);
                    assert(full[idx as int + 1] == pieces@[idx as int + 1]@);
                    assert(rem.skip(2) =~= full.skip(idx as int + 2));
                }
            }
            let p = &pieces[idx];
            let k = classify_piece(p.as_str());
            let target: Option<String> = if idx + 1 < n {
                Some(pieces[idx + 1].clone())
            } else {
                None
            };
            let next_idx: usize = if idx + 1 < n {
                idx + 2
            } else {
                idx + 1
            };
            let ghost spec_target: Option<Seq<char>> = if rem.len() >= 2 {
                Some(rem[1])
            } else {
                None
            };
            proof {
                assert(opt_view(target) == spec_target);
            }
            match k {
                PieceClass::StdinOp => {
                    stdin = target;
                    idx = next_idx;
                    proof {
                        assert(spec_state_cmd(
                            name,
                            args@,
                            stdin,
                            stdout,
                            append_stdout,
                            stderr,
                            append_stderr,
                        ) =~= (SpecCommand { stdin: spec_target, ..prev }));
                    }
                },
                PieceClass::StdoutOp => {
                    append_stdout = false;
                    stdout = target;
                    idx = next_idx;
                    proof {
                        assert(spec_state_cmd(
                            name,
                            args@,
                            stdin,
                            stdout,
                            append_stdout,
                            stderr,
                            append_stderr,
                        ) =~= (SpecCommand { stdout: spec_target, append_stdout: false, ..prev }));
                    }
                },
                PieceClass::StdoutAppendOp => {
                    append_stdout = true;
                    stdout = target;
                    idx = next_idx;
                    proof {
                        assert(spec_state_cmd(
                            name,
                            args@,
                            stdin,
                            stdout,
                            append_stdout,
                            stderr,
                            append_stderr,
                        ) =~= (SpecCommand { stdout: spec_target, append_stdout: true, ..prev }));
                    }
                },
                PieceClass::StderrOp => {
                    append_stderr = false;
                    stderr = target;
                    idx = next_idx;
                    proof {
                        assert(spec_state_cmd(
                            name,
                            args@,
                            stdin,
                            stdout,
                            append_stdout,
                            stderr,
                            append_stderr,
                        ) =~= (SpecCommand { stderr: spec_target, append_stderr: false, ..prev }));
                    }
                },
                PieceClass::StderrAppendOp => {
                    append_stderr = true;
                    stderr = target;
                    idx = next_idx;
                    proof {
                        assert(spec_state_cmd(
                            name,
                            args@,
                            stdin,
                            stdout,
                            append_stdout,
                            stderr,
                            append_stderr,
                        ) =~= (SpecCommand { stderr: spec_target, append_stderr: true, ..prev }));
                    }
                },
                PieceClass::FdOp(fd, ap) => {
                    if fd == 0 && !ap {
                        stdin = target;
                        idx = next_idx;
                        proof {
                            assert(spec_state_cmd(
                                name,
                                args@,
                                stdin,
                                stdout,
                                append_stdout,
                                stderr,
                                append_stderr,
                            ) =~= (SpecCommand { stdin: spec_target, ..prev }));
                        }
                    } else if fd == 1 {
                        append_stdout = ap;
                        stdout = target;
                        idx = next_idx;
                        proof {
                            assert(spec_state_cmd(
                                name,
                                args@,
                                stdin,
                                stdout,
                                append_stdout,
                                stderr,
                                append_stderr,
                            ) =~= (SpecCommand { stdout: spec_target, append_stdout: ap, ..prev }));
                        }
                    } else if fd == 2 {
                        append_stderr = ap;
                        stderr = target;
                        idx = next_idx;
                        proof {
                            assert(spec_state_cmd(
                                name,
                                args@,
                                stdin,
                                stdout,
                                append_stdout,
                                stderr,
                                append_stderr,
                            ) =~= (SpecCommand { stderr: spec_target, append_stderr: ap, ..prev }));
                        }
                    } else {
                        let ghost args_prev = seq_views(args@);
                        args.push(p.clone());
                        match target {
                            Some(t) => {
                                args.push(t);
                                proof {
                                    assert(seq_views(args@) =~= args_prev + seq![
                                        rem[0],
                                        spec_target->0,
                                    ]);
                                }
                            },
                            None => {
                                proof {
                                    assert(seq_views(args@) =~= args_prev.push(rem[0]));
                                }
                            },
                        }
                        idx = next_idx;
                        proof {
                            let args2 = if spec_target is Some {
                                prev.args + seq![rem[0], spec_target->0]
                            } else {
                                prev.args.push(rem[0])
                            };
                            assert(spec_state_cmd(
                                name,
                                args@,
                                stdin,
                                stdout,
                                append_stdout,
                                stderr,
                                append_stderr,
                            ) =~= (SpecCommand { args: args2, ..prev }));
                        }
                    }
                },
                PieceClass::Plain => {
                    let ghost args_prev = seq_views(args@);
                    args.push(p.clone());
                    idx = idx + 1;
                    proof {
                        assert(seq_views(args@) =~= args_prev.push(rem[0]));
                        assert(spec_state_cmd(
                            name,
                            args@,
                            stdin,
                            stdout,
                            append_stdout,
                            stderr,
                            append_stderr,
                        ) =~= (SpecCommand { args: prev.args.push(rem[0]), ..prev }));
                    }
                },
            }
        }
        proof {
            assert(full.skip(n as int) =~= Seq::<Seq<char>>::empty());
        }
        let cmd = Command { name, args, stdin, stdout, append_stdout, stderr, append_stderr };
        proof {
            assert(cmd@ =~= spec_state_cmd(
                cmd.name,
                cmd.args@,
                cmd.stdin,
                cmd.stdout,
                cmd.append_stdout,
                cmd.stderr,
                cmd.append_stderr,
            ));
        }
        Ok(cmd)
    }
}

/// What one raw token contributes to its segment's pieces: classification
/// followed by expansion.
pub open spec fn spec_expand_raw(env: Map<Seq<char>, Seq<char>>, raw: Seq<char>) -> Seq<char> {
    if spec_classify_mode(raw) is Raw {
        spec_classify_value(raw)
    } else {
        spec_expand_vars(env, spec_classify_value(raw))
    }
}

/// The expanded pieces of one pipeline segment.
pub open spec fn spec_group_pieces(
    env: Map<Seq<char>, Seq<char>>,
    g: Seq<Seq<char>>,
) -> Seq<Seq<char>> {
    Seq::new(g.len(), |i: int| spec_expand_raw(env, g[i]))
}

/// Builds the facade that runs the whole pipeline against one
/// environment.
pub struct InputProcessorBuilder {
    env: Environment,
}

impl InputProcessorBuilder {
    pub closed spec fn wf(&self) -> bool {
        self.env.wf()
    }

    pub closed spec fn env_map(&self) -> Map<Seq<char>, Seq<char>> {
        self.env@
    }

    pub fn new(env: Environment) -> (r: Self)
        requires
            env.wf(),
        ensures
            r.wf(),
            r.env_map() == env@,
    {
        InputProcessorBuilder { env }
    }

    pub fn build(self) -> (r: InputProcessor)
        requires
            self.wf(),
        ensures
            r.wf(),
            r.env_map() == self.env_map(),
    {
        InputProcessor { env: self.env, expander: Expander::default() }
    }
}

/// The facade: coordinates tokenization, pipe splitting, quote
/// classification, variable expansion and command production, turning one
/// input line into executable command descriptors.
pub struct InputProcessor {
    env: Environment,
    expander: Expander,
}

impl InputProcessor {
    pub closed spec fn wf(&self) -> bool {
        self.env.wf()
    }

    pub closed spec fn env_map(&self) -> Map<Seq<char>, Seq<char>> {
        self.env@
    }

    /// Defines or overrides a variable in the processor's environment.
    pub fn set_env(&mut self, key: &str, value: &str)
        requires
            old(self).wf(),
        ensures
            final(self).wf(),
            final(self).env_map() == old(self).env_map().insert(key@, value@),
    {
        self.env.set(key, value);
    }

    /// Compiles one input line into an ordered list of command
    /// descriptors, one per pipeline segment. Fails with `Quote` exactly
    /// when a quote is still open at the end of the line, and with
    /// `EmptyCommand` exactly when some segment has no pieces.
    pub fn process(&self, line: &str) -> (r: Result<Vec<Command>, CliError>)
        requires
            self.wf(),
        ensures
            match r {
                Ok(cmds) => spec_tokenize(line@) is Some && ({
                    let groups = spec_split_pipes(spec_tokenize(line@)->0);
                    &&& cmds@.len() == groups.len()
                    &&& forall|i: int| #![trigger groups[i]]
                        0 <= i < groups.len() ==> groups[i].len() > 0 && Some(cmds@[i]@)
                            == spec_produce(spec_group_pieces(self.env_map(), groups[i]))
                }),
                Err(e) => match e {
                    CliError::Quote(m) => spec_tokenize(line@) is None && m@
                        == "unclosed quote"@,
                    CliError::EmptyCommand => spec_tokenize(line@) is Some && ({
                        let groups = spec_split_pipes(spec_tokenize(line@)->0);
                        exists|i: int| 0 <= i < groups.len() && (#[trigger] groups[i]).len()
                            == 0
                    }),
                    _ => false,
                },
            },
    {
        let raw = match Tokenizer::tokenize(line) {
            Ok(v) => v,
            Err(e) => {
                return Err(e);
            },
        };
        let parts = split_on_pipes_tokens(&raw);
        let ghost groups = spec_split_pipes(seq_views(raw@));
        let m = parts.len();
        let mut cmds: Vec<Command> = Vec::new();
        let mut i: usize = 0;
        while i < m
            invariant
                self.wf(),
                m == parts@.len(),
                seq_seq_views(parts@) == groups,
                groups == spec_split_pipes(seq_views(raw@)),
                spec_tokenize(line@) == Some(seq_views(raw@)),
                i <= m,
                cmds@.len() == i,
                forall|j: int| #![trigger groups[j]]
                    0 <= j < i ==> groups[j].len() > 0 && Some(cmds@[j]@) == spec_produce(
                        spec_group_pieces(self.env_map(), groups[j]),
                    ),
            decreases m - i,
        {
            let group = &parts[i];
            proof {
                assert(seq_views(group@) == groups[i as int]);
            }
            let tokens = match QuoteHandler::handle(group) {
                Ok(t) => t,
                Err(e) => {
                    return Err(e);
                },
            };
            let ghost toks = tokens@;
            let pieces = match self.expander.expand_tokens(&self.env, tokens) {
                Ok(p) => p,
                Err(e) => {
                    return Err(e);
                },
            };
            proof {
                assert(seq_views(pieces@) =~= spec_group_pieces(
                    self.env_map(),
                    groups[i as int],
                ));
            }
            match CommandProducer::produce_command(pieces) {
                Ok(c) => {
                    cmds.push(c);
                },
                Err(e) => {
                    proof {
                        assert(groups[i as int].len() == 0);
                    }
                    return Err(e);
                },
            }
            i += 1;
        }
        Ok(cmds)
    }
}

} // verus!
