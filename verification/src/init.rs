//! Start-up configuration for the surrounding shell: its variables and
//! the directory its own command implementations live in. The shell
//! captures the real process environment itself and hands it in through
//! `with_config`.

use vstd::prelude::*;

use crate::environment::{env_map_of, pairs_lookup};

verus! {

/// The shell's start-up configuration.
#[derive(Debug, Clone)]
pub struct Init {
    /// Variables, as key/value pairs; a later pair overrides an earlier
    /// one with the same key.
    pub env_vars: Vec<(String, String)>,
    /// Where the shell's own command implementations live.
    pub bin_path: String,
}

impl Init {
    /// A configuration from explicit variables and a binary path.
    pub fn with_config(env_vars: Vec<(String, String)>, bin_path: String) -> (r: Self)
        ensures
            r.env_vars == env_vars,
            r.bin_path == bin_path,
    {
        Init { env_vars, bin_path }
    }

    /// Looks a variable up; `None` when it is not defined.
    pub fn get_env(&self, key: &str) -> (r: Option<String>)
        ensures
            match r {
                Some(v) => env_map_of(self.env_vars@).contains_key(key@) && v@ == env_map_of(
                    self.env_vars@,
                )[key@],
                None => !env_map_of(self.env_vars@).contains_key(key@),
            },
    {
        pairs_lookup(&self.env_vars, key)
    }

    /// Defines or overrides a variable.
    pub fn set_env(&mut self, key: String, value: String)
        ensures
            env_map_of(final(self).env_vars@) == env_map_of(old(self).env_vars@).insert(
                key@,
                value@,
            ),
            final(self).bin_path == old(self).bin_path,
    {
        let ghost prev = self.env_vars@;
        self.env_vars.push((key, value));
        proof {
            assert(self.env_vars@.drop_last() =~= prev);
        }
    }

    /// All variables, as the pair list they are held in.
    pub fn env_vars(&self) -> (r: &Vec<(String, String)>)
        ensures
            r@ == self.env_vars@,
    {
        &self.env_vars
    }
}

} // verus!
