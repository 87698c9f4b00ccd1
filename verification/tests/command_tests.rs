use stacked_diffs::command::{do_abort, do_rebase, AbortStep, RebaseCmdStep};
use stacked_diffs::config::Stack;
use stacked_diffs::rebase::RebaseStep;

fn strings(v: &[&str]) -> Vec<String> {
    v.iter().map(|s| s.to_string()).collect()
}

fn stack(base: &str, branches: &[&str]) -> Stack {
    Stack { base: base.to_string(), branches: strings(branches) }
}

#[test]
fn dirty_tree_or_rebase_in_progress_stop_first() {
    let (mut c, first) = do_rebase("origin", true, false);
    assert!(matches!(first, RebaseCmdStep::CheckClean));
    assert!(matches!(c.on_clean(false), RebaseCmdStep::Dirty));
    let (mut c, _) = do_rebase("origin", true, false);
    assert!(matches!(c.on_clean(true), RebaseCmdStep::CheckInProgress));
    assert!(matches!(c.on_in_progress(true), RebaseCmdStep::InProgress));
}

#[test]
fn stack_without_branches_is_refused() {
    let (mut c, _) = do_rebase("origin", true, false);
    c.on_clean(true);
    assert!(matches!(c.on_in_progress(false), RebaseCmdStep::LoadStack));
    assert!(matches!(c.on_stack(stack("main", &[])), RebaseCmdStep::NoBranches));
}

#[test]
fn fresh_run_fetches_checks_and_snapshots_every_ref() {
    let (mut c, _) = do_rebase("up", true, true);
    c.on_clean(true);
    c.on_in_progress(false);
    assert!(matches!(c.on_stack(stack("main", &["a", "b"])), RebaseCmdStep::CheckState));
    assert!(matches!(c.on_state(false), RebaseCmdStep::FetchBase { base, remote } if base == "main" && remote == "up"));
    assert!(matches!(c.on_base_fetched(), RebaseCmdStep::SyncBranch { branch, remote, prefer_remote: true } if branch == "a" && remote == "up"));
    assert!(matches!(c.on_branch_synced(), RebaseCmdStep::SyncBranch { branch, .. } if branch == "b"));
    assert!(matches!(c.on_branch_synced(), RebaseCmdStep::CheckExists { branch } if branch == "main"));
    assert!(matches!(c.on_exists(true), RebaseCmdStep::CheckExists { branch } if branch == "a"));
    assert!(matches!(c.on_exists(true), RebaseCmdStep::CheckExists { branch } if branch == "b"));
    match c.on_exists(true) {
        RebaseCmdStep::BeginSnapshot { base_text, branches_text } => {
            assert_eq!(base_text, "main\n");
            assert_eq!(branches_text, "a\nb\n");
        }
        _ => panic!("expected the snapshot"),
    }
    assert!(matches!(c.on_snapshot_begun(), RebaseCmdStep::SaveOldTip { reference } if reference == "main"));
    assert!(matches!(c.on_old_tip_saved(), RebaseCmdStep::SaveOldTip { reference } if reference == "a"));
    assert!(matches!(c.on_old_tip_saved(), RebaseCmdStep::SaveOldTip { reference } if reference == "b"));
    assert!(matches!(c.on_old_tip_saved(), RebaseCmdStep::SaveBaseTip { base } if base == "main"));
    assert!(matches!(c.on_base_tip_saved(), RebaseCmdStep::ReadHead));
    assert!(matches!(c.on_head("HEAD".to_string()), RebaseCmdStep::ReadHeadCommit));
    assert!(matches!(c.on_head_commit("abc".to_string()), RebaseCmdStep::FinishSnapshot { head, next_index } if head == "abc" && next_index == "0\n"));
    assert!(matches!(c.on_snapshot_done(), RebaseCmdStep::LoadRun { refs } if refs == strings(&["main", "a", "b"])));
    match c.on_run_loaded(Some("0\n"), strings(&["m0", "a0", "b0"]), strings(&["m1", "", ""])) {
        RebaseCmdStep::Run { mut run } => {
            assert!(matches!(run.next_step(), RebaseStep::Check { index: 0, branch, onto, upstream, .. } if branch == "a" && onto == "m1" && upstream == "m0"));
        }
        _ => panic!("expected the run"),
    }
}

#[test]
fn no_fetch_goes_straight_to_the_checks_and_missing_refs_stop() {
    let (mut c, _) = do_rebase("origin", false, false);
    c.on_clean(true);
    c.on_in_progress(false);
    c.on_stack(stack("main", &["a"]));
    assert!(matches!(c.on_state(false), RebaseCmdStep::SkipFetch));
    assert!(matches!(c.on_skip_announced(), RebaseCmdStep::CheckExists { branch } if branch == "main"));
    c.on_exists(true);
    assert!(matches!(c.on_exists(false), RebaseCmdStep::MissingBranch { branch } if branch == "a"));
}

#[test]
fn attached_head_is_recorded_by_name() {
    let (mut c, _) = do_rebase("origin", false, false);
    c.on_clean(true);
    c.on_in_progress(false);
    c.on_stack(stack("main", &["a"]));
    c.on_state(false);
    c.on_skip_announced();
    c.on_exists(true);
    c.on_exists(true);
    c.on_snapshot_begun();
    c.on_old_tip_saved();
    c.on_old_tip_saved();
    c.on_base_tip_saved();
    assert!(matches!(c.on_head("feature".to_string()), RebaseCmdStep::FinishSnapshot { head, .. } if head == "feature"));
}

#[test]
fn saved_run_resumes_only_if_it_fits() {
    let start = || {
        let (mut c, _) = do_rebase("origin", true, false);
        c.on_clean(true);
        c.on_in_progress(false);
        c.on_stack(stack("main", &["a", "b"]));
        assert!(matches!(c.on_state(true), RebaseCmdStep::ReadSavedState));
        c
    };
    let mut c = start();
    assert!(matches!(c.on_saved(Some("main\n"), Some("a\n"), Some("1\n")), RebaseCmdStep::StateMismatch));
    let mut c = start();
    assert!(matches!(c.on_saved(Some("main\n"), Some("a\nb\n"), Some("1\n")), RebaseCmdStep::Resume { branch: Some(b) } if b == "b"));
    assert!(matches!(c.on_resumed(), RebaseCmdStep::LoadRun { .. }));
    match c.on_run_loaded(Some("1\n"), strings(&["m0", "a0", "b0"]), strings(&["m1", "a1", ""])) {
        RebaseCmdStep::Run { mut run } => {
            assert!(matches!(run.next_step(), RebaseStep::Check { index: 1, branch, onto, upstream, .. } if branch == "b" && onto == "a1" && upstream == "a0"));
        }
        _ => panic!("expected the run"),
    }
    let mut c = start();
    assert!(matches!(c.on_saved(Some("main"), Some("a\nb"), Some("2")), RebaseCmdStep::Resume { branch: None }));
}

#[test]
fn abort_without_saved_state_does_nothing() {
    let (mut a, first) = do_abort();
    assert!(matches!(first, AbortStep::CheckInProgress));
    assert!(matches!(a.on_in_progress(true), AbortStep::AbortGitRebase));
    assert!(matches!(a.on_git_rebase_aborted(), AbortStep::CheckState));
    assert!(matches!(a.on_state(false), AbortStep::NothingToRestore));
}

#[test]
fn law_abort_restores_saved_tips() {
    let (mut a, _) = do_abort();
    a.on_in_progress(false);
    assert!(matches!(a.on_state(true), AbortStep::LoadStack));
    assert!(matches!(a.on_stack(stack("main", &["a", "b", "c"])), AbortStep::LoadOldTip { branch } if branch == "a"));
    // `a` had no saved tip: left alone.
    assert!(matches!(a.on_old_tip(None), AbortStep::LoadOldTip { branch } if branch == "b"));
    // `b` is where it was.
    assert!(matches!(a.on_old_tip(Some("b0".to_string())), AbortStep::ReadCurrentTip { branch } if branch == "b"));
    assert!(matches!(a.on_current_tip(Some("b0".to_string())), AbortStep::AlreadyAt { branch, sha } if branch == "b" && sha == "b0"));
    assert!(matches!(a.on_reported(), AbortStep::LoadOldTip { branch } if branch == "c"));
    // `c` moved: it goes back.
    a.on_old_tip(Some("c0".to_string()));
    assert!(matches!(a.on_current_tip(Some("c1".to_string())), AbortStep::Restore { branch, from: Some(f), to } if branch == "c" && f == "c1" && to == "c0"));
    assert!(matches!(a.on_reported(), AbortStep::Finish));
}

#[test]
fn abort_restores_a_missing_branch() {
    let (mut a, _) = do_abort();
    a.on_in_progress(false);
    a.on_state(true);
    a.on_stack(stack("main", &["a"]));
    a.on_old_tip(Some("a0".to_string()));
    assert!(matches!(a.on_current_tip(None), AbortStep::Restore { from: None, to, .. } if to == "a0"));
}
