use vstd::prelude::*;

verus! {

/// The subcommands the tool accepts.
#[derive(Clone, Debug, PartialEq, Eq)]
pub enum Commands {
    /// Install a version: `lts`, `latest`, or an explicit
    /// `vMAJOR.MINOR.PATCH`.
    Install { version_str: String },
}

/// The parsed command line: an optional subcommand, and whether running
/// with administrator rights was explicitly allowed.
#[derive(Clone, Debug, PartialEq, Eq)]
pub struct Args {
    pub command: Option<Commands>,
    pub admin: bool,
}

impl Args {
    pub fn new(command: Option<Commands>, admin: bool) -> (r: Self)
        ensures
            r.command == command,
            r.admin == admin,
    {
        Args { command, admin }
    }
}

} // verus!
