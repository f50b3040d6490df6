//! The structure of the configuration file: the optional shell hooks fired
//! around `get` and `set`.

use vstd::prelude::*;

verus! {

/// Optional hook commands, each fired at its documented point when present.
#[derive(Debug, Clone)]
pub struct Config {
    pub hook_before_get: Option<String>,
    pub hook_after_get: Option<String>,
    pub hook_before_set: Option<String>,
    pub hook_after_set: Option<String>,
}

} // verus!
