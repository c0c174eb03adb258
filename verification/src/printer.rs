//! Output gating for commands.
//!
//! The [`Printer`] decides whether a message class is emitted, from the
//! user's quiet and verbose flags. The actual writing to the terminal is
//! the unverified front end's job; it consults these decisions.

use vstd::prelude::*;

verus! {

/// Controls which messages are emitted.
pub struct Printer {
    /// Verbosity level: 0 is normal, higher is more verbose.
    pub verbosity: u8,
    /// Whether output is suppressed.
    pub quiet: bool,
}

impl Printer {
    /// Create a new printer with the given verbosity and quiet settings.
    pub fn new(verbosity: u8, quiet: bool) -> (r: Printer)
        ensures
            r.verbosity == verbosity,
            r.quiet == quiet,
    {
        Printer { verbosity, quiet }
    }

    /// Whether informational messages are emitted: suppressed only in
    /// quiet mode.
    pub fn should_info(&self) -> (r: bool)
        ensures
            r == !self.quiet,
    {
        !self.quiet
    }

    /// Whether warnings are emitted: suppressed only in quiet mode.
    pub fn should_warn(&self) -> (r: bool)
        ensures
            r == !self.quiet,
    {
        !self.quiet
    }

    /// Whether errors are emitted: always, since suppressing them would
    /// hide actionable failures.
    pub fn should_error(&self) -> (r: bool)
        ensures
            r == true,
    {
        true
    }

    /// Whether debug messages are emitted: only at verbosity one or above,
    /// and never in quiet mode.
    pub fn should_debug(&self) -> (r: bool)
        ensures
            r == (self.verbosity >= 1 && !self.quiet),
    {
        self.verbosity >= 1 && !self.quiet
    }
}

} // verus!
