//! The variable environment the expander reads: a mapping from variable
//! names to values, with unique keys.

use vstd::prelude::*;

verus! {

/// The mapping denoted by a sequence of key/value pairs, later pairs
/// overriding earlier ones.
pub open spec fn env_map_of(s: Seq<(String, String)>) -> Map<Seq<char>, Seq<char>>
    decreases s.len(),
{
    if s.len() == 0 {
        Map::empty()
    } else {
        env_map_of(s.drop_last()).insert(s.last().0@, s.last().1@)
    }
}

/// No key occurs twice.
pub open spec fn distinct_keys(s: Seq<(String, String)>) -> bool {
    forall|i: int, j: int| 0 <= i < j < s.len() ==> s[i].0@ != s[j].0@
}

pub proof fn lemma_env_map_of_absent(s: Seq<(String, String)>, k: Seq<char>)
    requires
        forall|i: int| 0 <= i < s.len() ==> s[i].0@ != k,
    ensures
        !env_map_of(s).contains_key(k),
    decreases s.len(),
{
    if s.len() > 0 {
        lemma_env_map_of_absent(s.drop_last(), k);
    }
}

pub proof fn lemma_env_map_of_found(s: Seq<(String, String)>, i: int)
    requires
        0 <= i < s.len(),
        forall|j: int| i < j < s.len() ==> s[j].0@ != s[i].0@,
    ensures
        env_map_of(s).contains_key(s[i].0@),
        env_map_of(s)[s[i].0@] == s[i].1@,
    decreases s.len(),
{
    if i < s.len() - 1 {
        lemma_env_map_of_found(s.drop_last(), i);
    }
}

proof fn lemma_env_map_of_remove(s: Seq<(String, String)>, i: int)
    requires
        distinct_keys(s),
        0 <= i < s.len(),
    ensures
        env_map_of(s.remove(i)) =~= env_map_of(s).remove(s[i].0@),
    decreases s.len(),
{
    let k = s[i].0@;
    if i == s.len() - 1 {
        assert(s.remove(i) =~= s.drop_last());
        lemma_env_map_of_absent(s.drop_last(), k);
        assert(env_map_of(s.drop_last()) =~= env_map_of(s.drop_last()).remove(k));
    } else {
        let d = s.drop_last();
        assert(s.remove(i).drop_last() =~= d.remove(i));
        assert(s.remove(i).last() == s.last());
        lemma_env_map_of_remove(d, i);
    }
}

/// Looks a key up in a plain pair list, later pairs overriding earlier
/// ones; the shell-side types hold their variables this way.
pub fn pairs_lookup(vars: &Vec<(String, String)>, key: &str) -> (r: Option<String>)
    ensures
        match r {
            Some(v) => env_map_of(vars@).contains_key(key@) && v@ == env_map_of(vars@)[key@],
            None => !env_map_of(vars@).contains_key(key@),
        },
{
    let k = key.to_owned();
    let n = vars.len();
    let mut i: usize = n;
    while i > 0
        invariant
            i <= n,
            n == vars@.len(),
            k@ == key@,
            forall|j: int| i <= j < n ==> vars@[j].0@ != key@,
        decreases i,
    {
        i -= 1;
        if vars[i].0 == k {
            proof {
                lemma_env_map_of_found(vars@, i as int);
            }
            return Some(vars[i].1.clone());
        }
    }
    proof {
        lemma_env_map_of_absent(vars@, key@);
    }
    None
}

/// The variable environment: variable names mapped to values. The core
/// only reads it; the surrounding shell owns and mutates it.
#[derive(Debug, Clone)]
pub struct Environment {
    vars: Vec<(String, String)>,
}

impl View for Environment {
    type V = Map<Seq<char>, Seq<char>>;

    closed spec fn view(&self) -> Map<Seq<char>, Seq<char>> {
        env_map_of(self.vars@)
    }
}

impl Environment {
    /// Keys are unique; every constructor establishes this and every
    /// method preserves it.
    pub closed spec fn wf(&self) -> bool {
        distinct_keys(self.vars@)
    }

    pub fn new() -> (r: Self)
        ensures
            r.wf(),
            r@ == Map::<Seq<char>, Seq<char>>::empty(),
    {
        Environment { vars: Vec::new() }
    }

    /// Builds an environment from key/value pairs; a later pair with the
    /// same key overrides an earlier one.
    pub fn with_vars(vars: Vec<(String, String)>) -> (r: Self)
        ensures
            r.wf(),
            r@ == env_map_of(vars@),
    {
        let mut env = Environment::new();
        let n = vars.len();
        let mut i: usize = 0;
        while i < n
            invariant
                n == vars@.len(),
                i <= n,
                env.wf(),
                env@ == env_map_of(vars@.subrange(0, i as int)),
            decreases n - i,
        {
            let (k, v) = &vars[i];
            env.set(k.as_str(), v.as_str());
            proof {
                assert(vars@.subrange(0, i as int + 1).drop_last() =~= vars@.subrange(
                    0,
                    i as int,
                ));
            }
            i += 1;
        }
        proof {
            assert(vars@.subrange(0, n as int) =~= vars@);
        }
        env
    }

    /// Where the key is at index `i`, no other pair carries it.
    fn position_of(&self, key: &str) -> (r: Option<usize>)
        requires
            self.wf(),
        ensures
            match r {
                Some(i) => i < self.vars@.len() && self.vars@[i as int].0@ == key@,
                None => forall|i: int| 0 <= i < self.vars@.len() ==> self.vars@[i].0@ != key@,
            },
    {
        let k = key.to_owned();
        let n = self.vars.len();
        let mut i: usize = 0;
        while i < n
            invariant
                n == self.vars@.len(),
                i <= n,
                k@ == key@,
                forall|j: int| 0 <= j < i ==> self.vars@[j].0@ != key@,
            decreases n - i,
        {
            if self.vars[i].0 == k {
                return Some(i);
            }
            i += 1;
        }
        None
    }

    /// Looks a variable up; `None` when it is not defined.
    pub fn get(&self, key: &str) -> (r: Option<String>)
        requires
            self.wf(),
        ensures
            match r {
                Some(v) => self@.contains_key(key@) && v@ == self@[key@],
                None => !self@.contains_key(key@),
            },
    {
        match self.position_of(key) {
            Some(i) => {
                proof {
                    lemma_env_map_of_found(self.vars@, i as int);
                }
                Some(self.vars[i].1.clone())
            },
            None => {
                proof {
                    lemma_env_map_of_absent(self.vars@, key@);
                }
                None
            },
        }
    }

    /// Defines or overrides a variable.
    pub fn set(&mut self, key: &str, value: &str)
        requires
            old(self).wf(),
        ensures
            final(self).wf(),
            final(self)@ == old(self)@.insert(key@, value@),
    {
        match self.position_of(key) {
            Some(i) => {
                proof {
                    lemma_env_map_of_remove(self.vars@, i as int);
                }
                self.vars.remove(i);
            },
            None => {
                proof {
                    lemma_env_map_of_absent(self.vars@, key@);
                    assert(old(self)@.remove(key@) =~= old(self)@);
                }
            },
        }
        let ghost mid = self.vars@;
        assert(forall|j: int| 0 <= j < mid.len() ==> mid[j].0@ != key@);
        assert(env_map_of(mid) == old(self)@.remove(key@));
        self.vars.push((key.to_owned(), value.to_owned()));
        proof {
            assert(self.vars@.drop_last() =~= mid);
            assert(old(self)@.remove(key@).insert(key@, value@) =~= old(self)@.insert(
                key@,
                value@,
            ));
        }
    }

    /// Removes a variable; a no-op when it is not defined.
    pub fn remove(&mut self, key: &str)
        requires
            old(self).wf(),
        ensures
            final(self).wf(),
            final(self)@ == old(self)@.remove(key@),
    {
        match self.position_of(key) {
            Some(i) => {
                proof {
                    lemma_env_map_of_remove(self.vars@, i as int);
                }
                self.vars.remove(i);
                proof {
                    assert(forall|a: int, b: int|
                        0 <= a < b < self.vars@.len() ==> self.vars@[a].0@ != self.vars@[b].0@);
                }
            },
            None => {
                proof {
                    lemma_env_map_of_absent(self.vars@, key@);
                    assert(old(self)@.remove(key@) =~= old(self)@);
                }
            },
        }
    }
}

impl Default for Environment {
    fn default() -> (r: Self)
        ensures
            r.wf(),
            r@ == Map::<Seq<char>, Seq<char>>::empty(),
    {
        Environment::new()
    }
}

} // verus!
