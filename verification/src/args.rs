//! The command-line surface as plain data: one record per subcommand.

use vstd::prelude::*;

verus! {

/// The `set` subcommand: a setting name and the new value.
#[derive(Debug, Clone)]
pub struct SetCmd {
    pub name: String,
    pub value: String,
}

/// The `get` subcommand: a setting name.
#[derive(Debug, Clone)]
pub struct Get {
    pub name: String,
}

/// The `load` subcommand: the path of a JSON mapping file.
#[derive(Debug, Clone)]
pub struct Load {
    pub path: String,
}

/// One parsed subcommand.
#[derive(Debug, Clone)]
pub enum SubCommands {
    SetCmd(SetCmd),
    Get(Get),
    Load(Load),
    Dump,
}

/// The whole parsed command line: an optional registry override and the
/// subcommand.
#[derive(Debug, Clone)]
pub struct Args {
    pub registry: Option<String>,
    pub sub: SubCommands,
}

} // verus!
