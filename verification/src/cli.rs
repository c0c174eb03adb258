//! Command-line surface: the argument types of every subcommand.
//!
//! These are the plain argument records; the flag parsing itself lives in
//! the unverified front end, which converts into these types.

use vstd::prelude::*;

verus! {

/// Arguments for the install command.
pub struct InstallArgs {
    /// Packages to install. If omitted, syncs from the lockfile.
    pub packages: Vec<String>,
    /// Exclude dev dependencies (dev dependencies are included by default).
    pub no_dev: bool,
    /// Install into the system Python instead of a virtualenv.
    pub system: bool,
    /// Fail if the lockfile is out of date.
    pub deploy: bool,
    /// Install from a requirements file.
    pub requirements: Option<String>,
    /// Add packages to dev-packages instead of packages.
    pub dev_packages: bool,
    /// Allow pre-release versions.
    pub pre: bool,
    /// Install as editable.
    pub editable: bool,
    /// Skip locking after adding packages.
    pub skip_lock: bool,
    /// Specify the package index to use.
    pub index: Option<String>,
}

impl InstallArgs {
    /// Whether dev dependencies should be included (default: true).
    pub fn include_dev(&self) -> (r: bool)
        ensures
            r == !self.no_dev,
    {
        !self.no_dev
    }
}

/// Arguments for the uninstall command.
pub struct UninstallArgs {
    /// Packages to remove.
    pub packages: Vec<String>,
    /// Remove from dev-packages.
    pub dev: bool,
    /// Remove all packages.
    pub all: bool,
    /// Remove all dev packages.
    pub all_dev: bool,
    /// Skip re-locking after removal.
    pub skip_lock: bool,
}

/// Arguments for the lock command.
pub struct LockArgs {
    /// Only lock dev dependencies.
    pub dev_only: bool,
    /// Allow pre-release versions.
    pub pre: bool,
    /// Clear resolver caches.
    pub clear: bool,
}

/// Arguments for the sync command.
pub struct SyncArgs {
    /// Exclude dev dependencies (dev dependencies are included by default).
    pub no_dev: bool,
    /// Install into the system Python.
    pub system: bool,
}

impl SyncArgs {
    /// Whether dev dependencies should be included (default: true).
    pub fn include_dev(&self) -> (r: bool)
        ensures
            r == !self.no_dev,
    {
        !self.no_dev
    }
}

/// Arguments for the update command.
pub struct UpdateArgs {
    /// Packages to update. If omitted, updates all.
    pub packages: Vec<String>,
    /// Show what would change without applying.
    pub dry_run: bool,
    /// Include dev dependencies.
    pub dev: bool,
    /// Only update the lockfile, do not sync.
    pub lock_only: bool,
}

/// Arguments for the run command.
pub struct RunArgs {
    /// The command (or manifest script name) to run.
    pub command: String,
    /// Arguments to pass to the command.
    pub args: Vec<String>,
    /// Run in the system Python.
    pub system: bool,
}

/// Arguments for the shell command.
pub struct ShellArgs {
}

/// Arguments for the graph command.
pub struct GraphArgs {
    /// Output as bare package names.
    pub bare: bool,
    /// Output as JSON.
    pub json: bool,
    /// Show reverse dependencies.
    pub reverse: bool,
}

/// Arguments for the requirements command.
pub struct RequirementsArgs {
    /// Include dev dependencies.
    pub dev: bool,
    /// Only dev dependencies.
    pub dev_only: bool,
    /// Include hashes.
    pub hash: bool,
}

/// Arguments for the clean command.
pub struct CleanArgs {
    /// Show what would be removed without removing.
    pub dry_run: bool,
}

/// Arguments for the scripts command.
pub struct ScriptsArgs {
}

/// Arguments for the verify command.
pub struct VerifyArgs {
}

/// Arguments for the check command.
pub struct CheckArgs {
}

/// Arguments for the audit command.
pub struct AuditArgs {
}

/// Every subcommand with its arguments.
pub enum Commands {
    /// Install packages from the lockfile, or add new packages.
    Install(InstallArgs),
    /// Remove packages from the manifest and virtualenv.
    Uninstall(UninstallArgs),
    /// Generate or update the lockfile from the manifest.
    Lock(LockArgs),
    /// Sync the virtualenv with the lockfile.
    Sync(SyncArgs),
    /// Update packages (re-lock then sync).
    Update(UpdateArgs),
    /// Run a command in the virtualenv, or a manifest script.
    Run(RunArgs),
    /// Spawn a shell with the virtualenv activated.
    Shell(ShellArgs),
    /// Display the dependency tree.
    Graph(GraphArgs),
    /// Export locked dependencies as a requirements list.
    Requirements(RequirementsArgs),
    /// Remove packages not in the lockfile from the virtualenv.
    Clean(CleanArgs),
    /// List scripts defined in the manifest.
    Scripts(ScriptsArgs),
    /// Verify the lockfile is up to date with the manifest.
    Verify(VerifyArgs),
    /// Deprecated alias of the audit command.
    Check(CheckArgs),
    /// Audit installed packages for known vulnerabilities.
    Audit(AuditArgs),
}

impl Commands {
    /// The subcommand's name, for diagnostics.
    pub open spec fn name_spec(&self) -> Seq<char> {
        match self {
            Commands::Install(_) => "install"@,
            Commands::Uninstall(_) => "uninstall"@,
            Commands::Lock(_) => "lock"@,
            Commands::Sync(_) => "sync"@,
            Commands::Update(_) => "update"@,
            Commands::Run(_) => "run"@,
            Commands::Shell(_) => "shell"@,
            Commands::Graph(_) => "graph"@,
            Commands::Requirements(_) => "requirements"@,
            Commands::Clean(_) => "clean"@,
            Commands::Scripts(_) => "scripts"@,
            Commands::Verify(_) => "verify"@,
            Commands::Check(_) => "check"@,
            Commands::Audit(_) => "audit"@,
        }
    }

    /// Return the subcommand name as a static string (for diagnostics).
    pub fn name(&self) -> (r: &'static str)
        ensures
            r@ == self.name_spec(),
    {
        match self {
            Commands::Install(_) => "install",
            Commands::Uninstall(_) => "uninstall",
            Commands::Lock(_) => "lock",
            Commands::Sync(_) => "sync",
            Commands::Update(_) => "update",
            Commands::Run(_) => "run",
            Commands::Shell(_) => "shell",
            Commands::Graph(_) => "graph",
            Commands::Requirements(_) => "requirements",
            Commands::Clean(_) => "clean",
            Commands::Scripts(_) => "scripts",
            Commands::Verify(_) => "verify",
            Commands::Check(_) => "check",
            Commands::Audit(_) => "audit",
        }
    }
}

/// The parsed command line: a subcommand and the global flags.
pub struct Cli {
    /// The chosen subcommand.
    pub command: Commands,
    /// Logging verbosity (0 is normal).
    pub verbose: u8,
    /// Suppress all output.
    pub quiet: bool,
}

} // verus!
