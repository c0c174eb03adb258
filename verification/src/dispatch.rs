//! Command dispatch decisions.
//!
//! [`dispatch`] maps a parsed subcommand to the action the front end
//! performs: run the implemented handler, warn that a command is deprecated,
//! or warn that it is not yet implemented. The exit-status numbering and the
//! version banner live here too.

use vstd::prelude::*;
use crate::cli::Commands;
use crate::text::{push_chars, chars_to_string};

verus! {

/// Exit status of a command.
pub enum ExitStatus {
    /// The command succeeded.
    Success,
    /// The command failed due to an error in the user input.
    Failure,
    /// The command failed with an unexpected error.
    Error,
    /// The command's exit status is propagated from an external command.
    External(u8),
}

impl ExitStatus {
    /// The process exit code of this status.
    pub fn code(&self) -> (r: u8)
        ensures
            r == match *self {
                ExitStatus::Success => 0u8,
                ExitStatus::Failure => 1u8,
                ExitStatus::Error => 2u8,
                ExitStatus::External(c) => c,
            },
    {
        match self {
            ExitStatus::Success => 0,
            ExitStatus::Failure => 1,
            ExitStatus::Error => 2,
            ExitStatus::External(c) => *c,
        }
    }
}

/// What the front end does with a parsed subcommand.
pub enum DispatchAction {
    /// The subcommand has a handler: run it.
    Execute,
    /// The subcommand is deprecated: warn and fail.
    Deprecated {
        /// The warning to print.
        message: String,
    },
    /// The subcommand is not yet implemented: warn and fail.
    Stub {
        /// The warning to print.
        message: String,
    },
}

/// Whether a subcommand has an implemented handler.
pub open spec fn is_implemented(command: &Commands) -> bool {
    match command {
        Commands::Install(_) => true,
        Commands::Uninstall(_) => true,
        Commands::Lock(_) => true,
        Commands::Sync(_) => true,
        Commands::Update(_) => true,
        Commands::Run(_) => true,
        _ => false,
    }
}

/// Decide what to do with a parsed subcommand: implemented commands are
/// executed; the deprecated check command and the remaining stubs warn and
/// fail.
pub fn dispatch(command: &Commands) -> (r: DispatchAction)
    ensures
        is_implemented(command) ==> r is Execute,
        command is Check ==> (r matches DispatchAction::Deprecated { message } && message@
            == "ripenv check is deprecated. Use `ripenv audit` instead."@),
        !is_implemented(command) && !(command is Check) ==> (r matches DispatchAction::Stub {
            message,
        } && message@ == "ripenv "@ + command.name_spec() + " is not yet implemented."@),
{
    match command {
        Commands::Install(_) => DispatchAction::Execute,
        Commands::Uninstall(_) => DispatchAction::Execute,
        Commands::Lock(_) => DispatchAction::Execute,
        Commands::Sync(_) => DispatchAction::Execute,
        Commands::Update(_) => DispatchAction::Execute,
        Commands::Run(_) => DispatchAction::Execute,
        Commands::Check(_) => {
            let mut buf: Vec<char> = Vec::new();
            push_chars(&mut buf, "ripenv check is deprecated. Use `ripenv audit` instead.");
            proof {
                assert(buf@ =~= "ripenv check is deprecated. Use `ripenv audit` instead."@);
            }
            DispatchAction::Deprecated { message: chars_to_string(&buf) }
        },
        _ => {
            let mut buf: Vec<char> = Vec::new();
            push_chars(&mut buf, "ripenv ");
            push_chars(&mut buf, command.name());
            push_chars(&mut buf, " is not yet implemented.");
            proof {
                assert(buf@ =~= "ripenv "@ + command.name_spec() + " is not yet implemented."@);
            }
            DispatchAction::Stub { message: chars_to_string(&buf) }
        },
    }
}

/// The version banner, as printed by the version flag.
pub fn version_line() -> (r: String)
    ensures
        r@ == "ripenv 0.1.0"@,
{
    let mut buf: Vec<char> = Vec::new();
    push_chars(&mut buf, "ripenv 0.1.0");
    proof {
        assert(buf@ =~= "ripenv 0.1.0"@);
    }
    chars_to_string(&buf)
}

} // verus!
