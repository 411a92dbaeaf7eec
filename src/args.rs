use vstd::prelude::*;

verus! {

/// The recipe file read when the command line names none.
pub const DEFAULT_FILE: &'static str = "Makefile";

/// What the command line asks for.
#[derive(Debug, Clone, PartialEq, Eq)]
pub enum CliAction {
    /// Print the usage text and exit.
    Help,
    /// Print the version and exit.
    Version,
    /// Load targets from the named file.
    Run(String),
}

/// The action for parsed command-line flags: help wins over version, and
/// otherwise the first free argument names the file, `DEFAULT_FILE` when
/// there is none.
pub fn resolve_args(help: bool, version: bool, free: &Vec<String>) -> (r: CliAction)
    ensures
        help ==> r == CliAction::Help,
        !help && version ==> r == CliAction::Version,
        !help && !version && free@.len() > 0 ==> (r matches CliAction::Run(f) && f@ == free@[0]@),
        !help && !version && free@.len() == 0 ==> (r matches CliAction::Run(f) && f@
            == DEFAULT_FILE@),
{
    if help {
        CliAction::Help
    } else if version {
        CliAction::Version
    } else if free.len() > 0 {
        CliAction::Run(free[0].clone())
    } else {
        CliAction::Run(DEFAULT_FILE.to_string())
    }
}

} // verus!
