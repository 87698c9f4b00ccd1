use stacked_diffs::cli::{classify, ArgError, Invocation};
use stacked_diffs::errors::CmdError;

fn args(v: &[&str]) -> Vec<String> {
    v.iter().map(|s| s.to_string()).collect()
}

#[test]
fn help_and_list() {
    assert!(matches!(classify(&args(&[])), Invocation::Help));
    assert!(matches!(classify(&args(&["--help"])), Invocation::Help));
    assert!(matches!(classify(&args(&["-h", "x"])), Invocation::Help));
    assert!(matches!(classify(&args(&["--list"])), Invocation::List));
}

#[test]
fn unknown_top_level_flag() {
    assert!(matches!(classify(&args(&["--bogus"])), Invocation::Refused { error: ArgError::UnknownFlag { flag } } if flag == "--bogus"));
}

#[test]
fn subcommands_go_to_the_subcommand_parser() {
    for s in ["init", "add", "rm", "show", "status", "rebase", "push", "sync", "completions"] {
        assert!(matches!(classify(&args(&[s, "x"])), Invocation::Subcommand));
    }
}

#[test]
fn bare_stack_is_a_rebase() {
    match classify(&args(&["freeze"])) {
        Invocation::Rebase { stack, fetch, remote, abort } => {
            assert_eq!((stack.as_str(), fetch, remote.as_str(), abort), ("freeze", true, "origin", false));
        }
        _ => panic!("expected a rebase"),
    }
    match classify(&args(&["freeze", "--no-fetch", "--remote", "up", "--abort"])) {
        Invocation::Rebase { stack, fetch, remote, abort } => {
            assert_eq!((stack.as_str(), fetch, remote.as_str(), abort), ("freeze", false, "up", true));
        }
        _ => panic!("expected a rebase"),
    }
    match classify(&args(&["freeze", "--no-fetch", "--fetch"])) {
        Invocation::Rebase { fetch, .. } => assert!(fetch),
        _ => panic!("expected a rebase"),
    }
}

#[test]
fn bare_stack_errors() {
    assert!(matches!(classify(&args(&["s", "--remote"])), Invocation::Refused { error: ArgError::RemoteNeedsValue }));
    assert!(matches!(classify(&args(&["s", "--weird"])), Invocation::Refused { error: ArgError::UnknownFlag { flag } } if flag == "--weird"));
    assert!(matches!(classify(&args(&["s", "other"])), Invocation::Refused { error: ArgError::UnexpectedPositional { arg, stack } } if arg == "other" && stack == "s"));
}

#[test]
fn exit_codes() {
    assert_eq!(CmdError::UserError.exit_code(), 1);
    assert_eq!(CmdError::ConflictExit.exit_code(), 2);
    assert_eq!(CmdError::AbortExit.exit_code(), 3);
    assert_eq!(CmdError::UserError.describe(), "command failed");
}

#[test]
fn law_bare_stack_last_flag_of_each_kind_wins() {
    match classify(&args(&["s", "--remote", "--abort", "--no-fetch", "--remote", "b", "--fetch"])) {
        Invocation::Rebase { stack, fetch, remote, abort } => {
            assert_eq!((stack.as_str(), fetch, remote.as_str(), abort), ("s", true, "b", false));
        }
        _ => panic!("expected a rebase"),
    }
}
