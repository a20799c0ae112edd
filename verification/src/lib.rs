//! Turns a snapshot of environment variables into sectioned TOML-style text.
//!
//! Variable names are filtered by a caller-supplied prefix; the rest of the
//! name is lowercased and split on the literal `__` delimiter. The last
//! component becomes the key, the preceding components joined with `.` become
//! the section name, and items with no section go to the global scope. The
//! serializer emits the global items first, then each section in the order of
//! its first use, which makes the output a deterministic function of the
//! snapshot.

use vstd::prelude::*;

pub mod config;
pub mod laws;
pub mod text;

use crate::config::pairs_view;
use crate::config::toml_of;
use crate::config::Config;

verus! {

/// Converts the environment pairs whose names start with `prefix` into a
/// TOML-formatted string. Always succeeds; the error channel is reserved.
pub fn env_to_toml(prefix: &str, env: &Vec<(String, String)>) -> (r: Result<String, String>)
    ensures
        r is Ok,
        r matches Ok(out) ==> out@ == toml_of(prefix@, pairs_view(env@)),
{
    let config = Config::from_env(prefix, env);
    Ok(config.to_toml())
}

} // verus!
