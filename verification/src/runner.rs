//! The runner's state: where the shell's own command implementations
//! live and the variables handed to executed commands. Executing a
//! command spawns processes and touches files, which is the surrounding
//! shell's business; this core only keeps and hands out the state.

use vstd::prelude::*;

use crate::environment::{env_map_of, pairs_lookup};

verus! {

/// What the shell needs to execute commands: the binary directory and
/// the variables to pass along.
#[derive(Debug, Clone)]
pub struct Runner {
    /// Where the shell's own command implementations live.
    pub bin_path: String,
    /// Variables, as key/value pairs; a later pair overrides an earlier
    /// one with the same key.
    pub env_vars: Vec<(String, String)>,
}

impl Runner {
    pub fn new(bin_path: String, env_vars: Vec<(String, String)>) -> (r: Self)
        ensures
            r.bin_path == bin_path,
            r.env_vars == env_vars,
    {
        Runner { bin_path, env_vars }
    }

    /// Defines or overrides a variable.
    pub fn set_env_var(&mut self, key: String, value: String)
        ensures
            env_map_of(final(self).env_vars@) == env_map_of(old(self).env_vars@).insert(
                key@,
                value@,
            ),
            final(self).bin_path == old(self).bin_path,
    {
        let ghost prev = self.env_vars@;
        self.env_vars.push((key, value));
        proof {
            assert(self.env_vars@.drop_last() =~= prev);
        }
    }

    /// Looks a variable up; `None` when it is not defined.
    pub fn get_env_var(&self, key: &str) -> (r: Option<String>)
        ensures
            match r {
                Some(v) => env_map_of(self.env_vars@).contains_key(key@) && v@ == env_map_of(
                    self.env_vars@,
                )[key@],
                None => !env_map_of(self.env_vars@).contains_key(key@),
            },
    {
        pairs_lookup(&self.env_vars, key)
    }
}

} // verus!
