//! The command-line surface, as plain data: the subcommands and top-level
//! flags, and the decision which top-level action a flagless invocation
//! means. Parsing `argv` into these types is the surrounding binary's work.

use vstd::prelude::*;

verus! {

/// The subcommands: initialise a manifest, add a script, probe or update
/// the environment, or run a named script with trailing tokens.
pub enum Commands {
    Init { template: Option<String> },
    Add { name: String, script: String },
    Doctor,
    DoctorUpdate,
    Run(Vec<String>),
}

/// A parsed invocation: an optional subcommand and the top-level flags.
pub struct Cli {
    pub command: Option<Commands>,
    pub list: bool,
    pub interactive: bool,
    pub notify: bool,
}

/// What an invocation without a subcommand asks for.
#[derive(PartialEq, Eq, Structural, Debug, Clone, Copy)]
pub enum TopAction {
    ShowList,
    Interactive,
    ShowHelp,
}

impl Cli {
    /// The action of a flagless invocation: the list if `--list`, the
    /// interactive picker if `--interactive`, otherwise the help hint;
    /// `--list` wins over `--interactive`.
    pub fn default_action(&self) -> (r: TopAction)
        ensures
            r == if self.list {
                TopAction::ShowList
            } else if self.interactive {
                TopAction::Interactive
            } else {
                TopAction::ShowHelp
            },
    {
        if self.list {
            TopAction::ShowList
        } else if self.interactive {
            TopAction::Interactive
        } else {
            TopAction::ShowHelp
        }
    }
}

} // verus!
