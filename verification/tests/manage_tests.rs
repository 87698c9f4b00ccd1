use stacked_diffs::commands::PrState;
use stacked_diffs::config::Stack;
use stacked_diffs::manage::{cmd_add, cmd_init, cmd_sync, AddStep, InitStep, SyncStep};

fn strings(v: &[&str]) -> Vec<String> {
    v.iter().map(|s| s.to_string()).collect()
}

fn stack(base: &str, branches: &[&str]) -> Stack {
    Stack { base: base.to_string(), branches: strings(branches) }
}

#[test]
fn add_refuses_the_base_and_a_branch_already_in_the_stack() {
    let (mut run, first) = cmd_add("main");
    assert!(matches!(first, AddStep::LoadStack));
    assert!(matches!(run.on_stack(&stack("main", &["a"])), AddStep::IsBase));
    let (mut run, _) = cmd_add("a");
    assert!(matches!(run.on_stack(&stack("main", &["a"])), AddStep::AlreadyInStack));
}

#[test]
fn add_stops_on_an_existing_branch_a_dirty_tree_or_a_failed_checkout() {
    let (mut run, _) = cmd_add("c");
    assert!(matches!(run.on_stack(&stack("main", &["a"])), AddStep::CheckExists { branch } if branch == "c"));
    assert!(matches!(run.on_exists(true), AddStep::AlreadyExists));

    let (mut run, _) = cmd_add("c");
    run.on_stack(&stack("main", &["a"]));
    assert!(matches!(run.on_exists(false), AddStep::CheckClean));
    assert!(matches!(run.on_clean(false), AddStep::Dirty));

    let (mut run, _) = cmd_add("c");
    run.on_stack(&stack("main", &["a"]));
    run.on_exists(false);
    assert!(matches!(run.on_clean(true), AddStep::CheckoutTop { top } if top == "a"));
    assert!(matches!(run.on_checked_out(false), AddStep::CheckoutFailed { top } if top == "a"));

    let (mut run, _) = cmd_add("c");
    run.on_stack(&stack("main", &["a"]));
    run.on_exists(false);
    run.on_clean(true);
    assert!(matches!(run.on_checked_out(true), AddStep::CreateBranch { branch, top } if branch == "c" && top == "a"));
    assert!(matches!(run.on_created(false), AddStep::CreateFailed { branch, top } if branch == "c" && top == "a"));
}

#[test]
fn add_on_an_empty_stack_branches_from_the_base_and_appends() {
    let (mut run, _) = cmd_add("feat");
    assert!(matches!(run.on_stack(&stack("main", &[])), AddStep::CheckExists { .. }));
    run.on_exists(false);
    assert!(matches!(run.on_clean(true), AddStep::CheckoutTop { top } if top == "main"));
    run.on_checked_out(true);
    assert!(matches!(run.on_created(true), AddStep::ReadConfig));
    match run.on_config("# Stack: s\nmain") {
        AddStep::WriteConfig { content, top } => {
            assert_eq!(content, "# Stack: s\nmain\nfeat\n");
            assert_eq!(top, "main");
        }
        _ => panic!("expected the configuration to be written"),
    }
}

#[test]
fn init_refuses_an_invalid_name() {
    let (_, first) = cmd_init("bad name", None, false);
    assert!(matches!(first, InitStep::InvalidName));
    let (_, first) = cmd_init("", Some("main"), false);
    assert!(matches!(first, InitStep::InvalidName));
}

#[test]
fn init_detects_the_default_branch_from_origin_head() {
    let (mut run, first) = cmd_init("freeze", None, false);
    assert!(matches!(first, InitStep::ReadOriginHead));
    assert!(matches!(run.on_origin_head(Some("origin/develop")), InitStep::CheckBase { base } if base == "develop"));
    let (mut run, _) = cmd_init("freeze", None, false);
    assert!(matches!(run.on_origin_head(None), InitStep::CheckBase { base } if base == "main"));
}

#[test]
fn init_stops_on_a_missing_base_or_an_existing_stack() {
    let (mut run, first) = cmd_init("freeze", Some("trunk"), false);
    assert!(matches!(first, InitStep::CheckBase { base } if base == "trunk"));
    assert!(matches!(run.on_base(false), InitStep::MissingBase { base } if base == "trunk"));
    let (mut run, _) = cmd_init("freeze", Some("trunk"), false);
    assert!(matches!(run.on_base(true), InitStep::CheckFile));
    assert!(matches!(run.on_file(true), InitStep::AlreadyExists));
}

#[test]
fn init_without_scan_writes_the_header_and_base() {
    let (mut run, _) = cmd_init("freeze", Some("main"), false);
    run.on_base(true);
    match run.on_file(false) {
        InitStep::WriteConfig { base, content, scanned } => {
            assert_eq!(base, "main");
            assert_eq!(
                content,
                "# Stack: freeze\n# Base + branches in order, bottom-to-top. '#' for comments.\nmain\n"
            );
            assert!(scanned.is_none());
        }
        _ => panic!("expected the configuration to be written"),
    }
}

#[test]
fn init_with_scan_writes_the_branches_found() {
    let (mut run, _) = cmd_init("freeze", Some("main"), true);
    run.on_base(true);
    assert!(matches!(run.on_file(false), InitStep::Scan { base } if base == "main"));
    match run.on_scanned(Some(strings(&["a", "b"]))) {
        InitStep::WriteConfig { content, scanned, .. } => {
            assert_eq!(
                content,
                "# Stack: freeze\n# Base + branches in order, bottom-to-top. '#' for comments.\nmain\na\nb\n"
            );
            assert_eq!(scanned, Some(strings(&["a", "b"])));
        }
        _ => panic!("expected the configuration to be written"),
    }
    let (mut run, _) = cmd_init("freeze", Some("main"), true);
    run.on_base(true);
    run.on_file(false);
    assert!(matches!(run.on_scanned(None), InitStep::ScanFailed));
}

#[test]
fn sync_stops_on_a_dirty_tree_or_an_empty_stack() {
    let (mut run, first) = cmd_sync();
    assert!(matches!(first, SyncStep::CheckGh));
    assert!(matches!(run.on_gh_ready(), SyncStep::CheckClean));
    assert!(matches!(run.on_clean(false), SyncStep::Dirty));
    let (mut run, _) = cmd_sync();
    run.on_gh_ready();
    assert!(matches!(run.on_clean(true), SyncStep::LoadStack));
    assert!(matches!(run.on_stack(stack("main", &[])), SyncStep::NoBranches));
}

fn queried(states: &[PrState]) -> (stacked_diffs::manage::SyncRun, SyncStep) {
    let (mut run, _) = cmd_sync();
    run.on_gh_ready();
    run.on_clean(true);
    assert!(matches!(run.on_stack(stack("main", &["a", "b", "c"])), SyncStep::FetchBase { base } if base == "main"));
    assert!(matches!(run.on_base_fetched(), SyncStep::QueryPr { branch } if branch == "a"));
    let mut last = SyncStep::ReadHead;
    for (i, s) in states.iter().enumerate() {
        last = run.on_pr_state(*s);
        if i + 1 < states.len() {
            let expected = ["a", "b", "c"][i + 1];
            assert!(matches!(&last, SyncStep::QueryPr { branch } if branch == expected));
        }
    }
    (run, last)
}

#[test]
fn sync_aborts_when_a_pull_request_was_closed_unmerged() {
    let (_, last) = queried(&[PrState::Merged, PrState::Closed, PrState::Closed]);
    assert!(matches!(last, SyncStep::Abort { closed } if closed == strings(&["b", "c"])));
}

#[test]
fn sync_with_nothing_merged_does_nothing() {
    let (_, last) = queried(&[PrState::Open, PrState::NoPr, PrState::Open]);
    assert!(matches!(last, SyncStep::NothingToSync));
}

#[test]
fn sync_removes_merged_branches_bottom_to_top_then_rebases_the_rest() {
    let (mut run, last) = queried(&[PrState::Merged, PrState::Open, PrState::Merged]);
    assert!(matches!(last, SyncStep::RemoveFromConfig { branch } if branch == "a"));
    assert!(matches!(run.on_removed(), SyncStep::ReadHead));
    assert!(matches!(run.on_head("a"), SyncStep::CheckoutBase { base } if base == "main"));
    assert!(matches!(run.on_checked_out(), SyncStep::CheckExists { branch } if branch == "a"));
    assert!(matches!(run.on_exists(true), SyncStep::DeleteBranch { branch } if branch == "a"));
    assert!(matches!(run.on_reported(), SyncStep::RemoveFromConfig { branch } if branch == "c"));
    assert!(matches!(run.on_removed(), SyncStep::ReadHead));
    assert!(matches!(run.on_head("main"), SyncStep::CheckExists { branch } if branch == "c"));
    assert!(matches!(run.on_exists(false), SyncStep::AlreadyGone { branch } if branch == "c"));
    assert!(matches!(run.on_reported(), SyncStep::ReloadStack));
    assert!(matches!(run.on_reloaded(&stack("main", &["b"])), SyncStep::RebaseRest));
}

#[test]
fn sync_that_merged_everything_leaves_an_empty_stack() {
    let (mut run, last) = queried(&[PrState::Merged, PrState::Merged, PrState::Merged]);
    assert!(matches!(last, SyncStep::RemoveFromConfig { branch } if branch == "a"));
    for b in ["a", "b", "c"] {
        run.on_removed();
        run.on_head("main");
        assert!(matches!(run.on_exists(true), SyncStep::DeleteBranch { branch } if branch == b));
        run.on_reported();
    }
    assert!(matches!(run.on_reloaded(&stack("main", &[])), SyncStep::AllMerged));
}
