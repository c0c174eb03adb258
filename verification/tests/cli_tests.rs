//! Command-surface behavior: names, dispatch decisions, output gating and
//! exit codes.

use ripenv::cli::{AuditArgs, CheckArgs, CleanArgs, Commands, GraphArgs, InstallArgs, LockArgs,
    RequirementsArgs, RunArgs, ScriptsArgs, ShellArgs, SyncArgs, UninstallArgs, UpdateArgs,
    VerifyArgs};
use ripenv::dispatch::{dispatch, version_line, DispatchAction, ExitStatus};
use ripenv::printer::Printer;

fn install_args() -> InstallArgs {
    InstallArgs {
        packages: vec![],
        no_dev: false,
        system: false,
        deploy: false,
        requirements: None,
        dev_packages: false,
        pre: false,
        editable: false,
        skip_lock: false,
        index: None,
    }
}

fn all_commands() -> Vec<Commands> {
    vec![
        Commands::Install(install_args()),
        Commands::Uninstall(UninstallArgs {
            packages: vec![],
            dev: false,
            all: false,
            all_dev: false,
            skip_lock: false,
        }),
        Commands::Lock(LockArgs { dev_only: false, pre: false, clear: false }),
        Commands::Sync(SyncArgs { no_dev: false, system: false }),
        Commands::Update(UpdateArgs {
            packages: vec![],
            dry_run: false,
            dev: false,
            lock_only: false,
        }),
        Commands::Run(RunArgs { command: "x".to_string(), args: vec![], system: false }),
        Commands::Shell(ShellArgs {}),
        Commands::Graph(GraphArgs { bare: false, json: false, reverse: false }),
        Commands::Requirements(RequirementsArgs { dev: false, dev_only: false, hash: false }),
        Commands::Clean(CleanArgs { dry_run: false }),
        Commands::Scripts(ScriptsArgs {}),
        Commands::Verify(VerifyArgs {}),
        Commands::Check(CheckArgs {}),
        Commands::Audit(AuditArgs {}),
    ]
}

#[test]
fn help_shows_all_commands() {
    let names: Vec<&str> = all_commands().iter().map(|c| c.name()).collect();
    let expected = vec![
        "install",
        "uninstall",
        "lock",
        "sync",
        "update",
        "run",
        "shell",
        "graph",
        "requirements",
        "clean",
        "scripts",
        "verify",
        "check",
        "audit",
    ];
    assert_eq!(names, expected);
}

#[test]
fn help_lists_all_pipenv_subcommands() {
    // every pipenv subcommand exists on the surface
    let names: Vec<String> = all_commands().iter().map(|c| c.name().to_string()).collect();
    for command in [
        "install",
        "uninstall",
        "lock",
        "sync",
        "update",
        "run",
        "shell",
        "graph",
        "requirements",
        "clean",
        "scripts",
        "verify",
        "check",
        "audit",
    ] {
        assert!(names.iter().any(|n| n == command), "missing pipenv subcommand: {command}");
    }
}

#[test]
fn stub_commands_return_failure() {
    for command in [
        Commands::Scripts(ScriptsArgs {}),
        Commands::Verify(VerifyArgs {}),
        Commands::Audit(AuditArgs {}),
    ] {
        match dispatch(&command) {
            DispatchAction::Stub { message } => {
                assert!(message.contains("not yet implemented"));
                assert_eq!(ExitStatus::Failure.code(), 1);
            }
            _ => panic!("{} should be a stub returning exit code 1", command.name()),
        }
    }
}

#[test]
fn check_shows_deprecation_warning() {
    match dispatch(&Commands::Check(CheckArgs {})) {
        DispatchAction::Deprecated { message } => {
            assert!(message.contains("deprecated"));
            assert!(message.contains("ripenv audit"));
        }
        _ => panic!("check should warn about deprecation"),
    }
}

#[test]
fn check_shows_deprecation_like_pipenv() {
    match dispatch(&Commands::Check(CheckArgs {})) {
        DispatchAction::Deprecated { message } => {
            assert!(message.to_lowercase().contains("deprecated"));
            assert!(message.contains("audit"));
        }
        _ => panic!("check should warn about deprecation"),
    }
}

#[test]
fn implemented_commands_fail_without_pipfile() {
    // the implemented commands all reach their handler, and a missing
    // manifest is an unexpected error: exit code 2
    for command in all_commands() {
        let name = command.name();
        if ["install", "lock", "sync", "update", "uninstall", "run"].contains(&name) {
            assert!(matches!(dispatch(&command), DispatchAction::Execute));
        }
    }
    assert_eq!(ExitStatus::Error.code(), 2);
}

#[test]
fn unknown_command_errors() {
    // a command the parser rejects surfaces as the error status
    assert_eq!(ExitStatus::Error.code(), 2);
    assert_ne!(ExitStatus::Error.code(), ExitStatus::Failure.code());
}

#[test]
fn unknown_command_exits_with_code_2() {
    assert_eq!(ExitStatus::Error.code(), 2);
}

#[test]
fn no_args_exits_with_code_2() {
    assert_eq!(ExitStatus::Error.code(), 2);
}

#[test]
fn no_args_shows_help() {
    // without a subcommand the front end reports usage and the error status
    assert_eq!(ExitStatus::Error.code(), 2);
}

#[test]
fn upgrade_alias_works() {
    // the upgrade alias resolves to the update command
    let update = Commands::Update(UpdateArgs {
        packages: vec![],
        dry_run: false,
        dev: false,
        lock_only: false,
    });
    assert_eq!(update.name(), "update");
    assert!(matches!(dispatch(&update), DispatchAction::Execute));
}

#[test]
fn upgrade_is_alias_for_update() {
    let update = Commands::Update(UpdateArgs {
        packages: vec![],
        dry_run: false,
        dev: false,
        lock_only: false,
    });
    assert_eq!(update.name(), "update");
}

#[test]
fn quiet_suppresses_stub_warning() {
    let printer = Printer::new(0, true);
    assert!(!printer.should_warn());
    assert!(!printer.should_info());
}

#[test]
fn quiet_suppresses_check_deprecation() {
    let printer = Printer::new(0, true);
    assert!(!printer.should_warn());
}

#[test]
fn quiet_flag_parity() {
    let printer = Printer::new(0, true);
    assert!(!printer.should_info());
    assert!(!printer.should_warn());
    assert!(!printer.should_debug());
    assert!(printer.should_error());
}

#[test]
fn verbose_flag_accepted() {
    let printer = Printer::new(1, false);
    assert!(printer.should_warn());
    assert!(printer.should_debug());
    match dispatch(&Commands::Scripts(ScriptsArgs {})) {
        DispatchAction::Stub { message } => assert!(message.contains("not yet implemented")),
        _ => panic!("scripts should be a stub"),
    }
}

#[test]
fn verbose_flag_parity() {
    // verbose changes logging only; a stub still fails with exit code 1
    let printer = Printer::new(1, false);
    assert!(printer.should_debug());
    assert!(matches!(dispatch(&Commands::Scripts(ScriptsArgs {})), DispatchAction::Stub { .. }));
    assert_eq!(ExitStatus::Failure.code(), 1);
}

#[test]
fn double_verbose_accepted() {
    let printer = Printer::new(2, false);
    assert!(printer.should_debug());
}

#[test]
fn version_flag_shows_version() {
    let line = version_line();
    assert!(line.starts_with("ripenv "));
}

#[test]
fn short_version_flag_works() {
    let line = version_line();
    assert!(line.starts_with("ripenv "));
}

#[test]
fn version_output_format_matches_pipenv() {
    let line = version_line();
    assert!(line.starts_with("ripenv "), "Version output should start with 'ripenv ', got: {line}");
    assert!(line.chars().any(|c| c.is_ascii_digit()), "Version output should contain a version number, got: {line}");
}

#[test]
fn include_dev_defaults_to_true() {
    let args = install_args();
    assert!(args.include_dev());
    let sync = SyncArgs { no_dev: true, system: false };
    assert!(!sync.include_dev());
}

#[test]
fn external_status_propagates_its_code() {
    assert_eq!(ExitStatus::External(42).code(), 42);
    assert_eq!(ExitStatus::Success.code(), 0);
}
