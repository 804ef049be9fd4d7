//! A bare command producer: turns whole command strings into descriptors
//! by splitting each on whitespace, the first word naming the command. It
//! models no redirections; processors for named commands can be
//! registered on it for the surrounding shell to dispatch to.

use vstd::prelude::*;

use crate::chars::{chars_of, is_space, seq_views, spec_space, string_of};

verus! {

/// The name a processor is registered under.
pub type CommandName = String;

/// A bare command: a name, arguments, and optional stream captures.
#[allow(non_snake_case)]
#[derive(Debug, Clone, PartialEq, Eq)]
pub struct Command {
    pub Name: String,
    pub Args: Vec<String>,
    pub Stdin: Option<String>,
    pub Stdout: Option<String>,
}

/// What the surrounding shell implements to handle one command; the
/// error text is the message it would report.
pub trait CommandProcessor {
    fn process(&self, command: &Command) -> Result<(), String>;
}

/// Registered processors, by command name.
pub type CommandProcessorMap = std::collections::HashMap<CommandName, Box<dyn CommandProcessor>>;

/// One whitespace-splitting step: the words already finished, and the
/// word being collected.
pub open spec fn spec_ws_split_from(s: Seq<char>, cur: Seq<char>) -> Seq<Seq<char>>
    decreases s.len(),
{
    if s.len() == 0 {
        if cur.len() > 0 {
            seq![cur]
        } else {
            Seq::empty()
        }
    } else if spec_space(s[0]) {
        if cur.len() > 0 {
            seq![cur] + spec_ws_split_from(s.skip(1), Seq::empty())
        } else {
            spec_ws_split_from(s.skip(1), Seq::empty())
        }
    } else {
        spec_ws_split_from(s.skip(1), cur.push(s[0]))
    }
}

/// The whitespace-separated words of a string, in order.
pub open spec fn spec_ws_split(s: Seq<char>) -> Seq<Seq<char>> {
    spec_ws_split_from(s, Seq::empty())
}

fn split_whitespace_pieces(s: &str) -> (r: Vec<String>)
    ensures
        seq_views(r@) == spec_ws_split(s@),
{
    let cs = chars_of(s);
    let n = cs.len();
    let mut out: Vec<String> = Vec::new();
    let mut cur: Vec<char> = Vec::new();
    let mut i: usize = 0;
    proof {
        assert(cs@.skip(0) =~= cs@);
        assert(seq_views(out@) =~= Seq::<Seq<char>>::empty());
    }
    while i < n
        invariant
            n == cs@.len(),
            cs@ == s@,
            i <= n,
            seq_views(out@) + spec_ws_split_from(cs@.skip(i as int), cur@) == spec_ws_split(s@),
        decreases n - i,
    {
        let ghost rem = cs@.skip(i as int);
        let ghost prev_out = seq_views(out@);
        let ghost prev_cur = cur@;
        proof {
            assert(rem[0] == cs@[i as int]);
            assert(rem.skip(1) =~= cs@.skip(i as int + 1));
        }
        let c = cs[i];
        if is_space(c) {
            if !cur.is_empty() {
                let w = string_of(&cur);
                out.push(w);
                cur = Vec::new();
                proof {
                    assert(seq_views(out@) =~= prev_out + seq![prev_cur]);
                    assert(prev_out + (seq![prev_cur] + spec_ws_split_from(
                        rem.skip(1),
                        Seq::empty(),
                    )) =~= (prev_out + seq![prev_cur]) + spec_ws_split_from(
                        rem.skip(1),
                        Seq::empty(),
                    ));
                }
            } else {
                proof {
                    assert(cur@ =~= Seq::<char>::empty());
                }
            }
        } else {
            cur.push(c);
        }
        i += 1;
    }
    proof {
        assert(cs@.skip(n as int) =~= Seq::<char>::empty());
    }
    if !cur.is_empty() {
        let ghost prev_out = seq_views(out@);
        let ghost prev_cur = cur@;
        let w = string_of(&cur);
        out.push(w);
        proof {
            assert(seq_views(out@) =~= prev_out + seq![prev_cur]);
        }
    }
    out
}

/// Builds bare descriptors and keeps the registered processors.
pub struct CommandProducer {
    processors: CommandProcessorMap,
}

impl CommandProducer {
    /// The processors currently registered.
    pub closed spec fn spec_processors(&self) -> CommandProcessorMap {
        self.processors
    }

    pub fn new() -> (r: Self)
        ensures
            r.spec_processors()@ == Map::<CommandName, Box<dyn CommandProcessor>>::empty(),
    {
        CommandProducer { processors: std::collections::HashMap::new() }
    }

    /// Splits each input string on whitespace into a bare descriptor: the
    /// first word is the name, the rest are the arguments, no streams are
    /// captured. An input with no words yields a descriptor with an empty
    /// name.
    #[allow(non_snake_case)]
    pub fn ProduceCommands(&mut self, input: Vec<String>) -> (r: Vec<Command>)
        ensures
            final(self).spec_processors() == old(self).spec_processors(),
            r@.len() == input@.len(),
            forall|i: int| #![trigger r@[i]]
                0 <= i < input@.len() ==> {
                    let words = spec_ws_split(input@[i]@);
                    &&& r@[i].Stdin is None
                    &&& r@[i].Stdout is None
                    &&& if words.len() == 0 {
                        r@[i].Name@ == Seq::<char>::empty() && r@[i].Args@.len() == 0
                    } else {
                        r@[i].Name@ == words[0] && seq_views(r@[i].Args@) == words.skip(1)
                    }
                },
    {
        let n = input.len();
        let mut out: Vec<Command> = Vec::new();
        let mut i: usize = 0;
        while i < n
            invariant
                n == input@.len(),
                i <= n,
                out@.len() == i,
                forall|j: int| #![trigger out@[j]]
                    0 <= j < i ==> {
                        let words = spec_ws_split(input@[j]@);
                        &&& out@[j].Stdin is None
                        &&& out@[j].Stdout is None
                        &&& if words.len() == 0 {
                            out@[j].Name@ == Seq::<char>::empty() && out@[j].Args@.len() == 0
                        } else {
                            out@[j].Name@ == words[0] && seq_views(out@[j].Args@) == words.skip(
                                1,
                            )
                        }
                    },
            decreases n - i,
        {
            let mut parts = split_whitespace_pieces(input[i].as_str());
            let cmd: Command;
            if parts.is_empty() {
                cmd = Command { Name: String::new(), Args: Vec::new(), Stdin: None, Stdout: None };
                proof {
                    assert(seq_views(cmd.Args@) =~= Seq::<Seq<char>>::empty());
                }
            } else {
                let ghost words = seq_views(parts@);
                let name = parts.remove(0);
                proof {
                    assert(seq_views(parts@) =~= words.skip(1));
                }
                cmd = Command { Name: name, Args: parts, Stdin: None, Stdout: None };
            }
            out.push(cmd);
            i += 1;
        }
        out
    }

    /// Replaces the registered processors.
    #[allow(non_snake_case)]
    pub fn RegisterCmdProcessors(&mut self, processors: CommandProcessorMap)
        ensures
            final(self).spec_processors() == processors,
    {
        self.processors = processors;
    }
}

} // verus!
