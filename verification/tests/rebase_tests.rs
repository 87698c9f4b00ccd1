use stacked_diffs::errors::CmdError;
use stacked_diffs::rebase::{is_detached, restore_action, RebaseRun, RebaseStep, RestoreAction};

fn strings(v: &[&str]) -> Vec<String> {
    v.iter().map(|s| s.to_string()).collect()
}

fn run(completed: usize) -> RebaseRun {
    RebaseRun::new(
        "main".to_string(),
        strings(&["a", "b"]),
        strings(&["m0", "a0", "b0"]),
        strings(&["m1", "", ""]),
        completed,
    )
}

#[test]
fn walks_bottom_to_top_onto_new_parent_tips_from_old_ones() {
    let mut r = run(0);
    match r.next_step() {
        RebaseStep::Check { index, count, branch, parent, onto, upstream } => {
            assert_eq!((index, count), (0, 2));
            assert_eq!((branch.as_str(), parent.as_str()), ("a", "main"));
            assert_eq!((onto.as_str(), upstream.as_str()), ("m1", "m0"));
        }
        _ => panic!("expected a check"),
    }
    match r.on_ancestor(false) {
        RebaseStep::Rebase { onto, upstream, branch } => {
            assert_eq!((onto.as_str(), upstream.as_str(), branch.as_str()), ("m1", "m0", "a"));
        }
        _ => panic!("expected a rebase"),
    }
    assert!(matches!(r.on_rebase(true), RebaseStep::ReadTip { branch } if branch == "a"));
    match r.on_tip("a1".to_string()) {
        RebaseStep::Record { branch, sha, next_index } => {
            assert_eq!((branch.as_str(), sha.as_str(), next_index), ("a", "a1", 1));
        }
        _ => panic!("expected a record"),
    }
    // Law: the next branch goes onto the tip just recorded, from its parent's old tip.
    match r.next_step() {
        RebaseStep::Check { branch, parent, onto, upstream, .. } => {
            assert_eq!((branch.as_str(), parent.as_str()), ("b", "a"));
            assert_eq!((onto.as_str(), upstream.as_str()), ("a1", "a0"));
        }
        _ => panic!("expected a check"),
    }
}

#[test]
fn branch_already_on_its_parent_is_skipped() {
    let mut r = run(0);
    r.next_step();
    assert!(matches!(r.on_ancestor(true), RebaseStep::MergeBase { onto, branch } if onto == "m1" && branch == "a"));
    assert!(matches!(r.on_merge_base("m1"), RebaseStep::Skip { branch, parent } if branch == "a" && parent == "main"));
    assert!(matches!(r.on_tip("a9".to_string()), RebaseStep::Record { next_index: 1, .. }));
}

#[test]
fn ancestor_with_other_merge_base_is_rebased() {
    let mut r = run(0);
    r.next_step();
    r.on_ancestor(true);
    assert!(matches!(r.on_merge_base(""), RebaseStep::Rebase { .. }));
}

#[test]
fn conflict_stops_the_run() {
    let mut r = run(0);
    r.next_step();
    r.on_ancestor(false);
    assert!(matches!(r.on_rebase(false), RebaseStep::Conflict { branch } if branch == "a"));
    assert_eq!(CmdError::ConflictExit.exit_code(), 2);
}

#[test]
fn resumes_after_the_branches_already_done() {
    let mut r = RebaseRun::new(
        "main".to_string(),
        strings(&["a", "b"]),
        strings(&["m0", "a0", "b0"]),
        strings(&["m1", "a1", ""]),
        1,
    );
    match r.next_step() {
        RebaseStep::Check { index, branch, onto, upstream, .. } => {
            assert_eq!((index, branch.as_str(), onto.as_str(), upstream.as_str()), (1, "b", "a1", "a0"));
        }
        _ => panic!("expected a check"),
    }
}

#[test]
fn finishes_when_everything_is_done() {
    assert!(matches!(run(2).next_step(), RebaseStep::Finished));
    assert!(matches!(run(17).next_step(), RebaseStep::Finished));
    let mut r = run(1);
    r.next_step();
    r.on_ancestor(false);
    r.on_rebase(true);
    r.on_tip("b1".to_string());
    assert!(matches!(r.next_step(), RebaseStep::Finished));
}

#[test]
fn abort_restores_only_what_moved() {
    assert_eq!(restore_action(None, Some("x")), RestoreAction::NothingSaved);
    assert_eq!(restore_action(Some("old"), Some("old")), RestoreAction::AlreadyAt);
    assert_eq!(restore_action(Some("old"), Some("new")), RestoreAction::Restore);
    assert_eq!(restore_action(Some("old"), None), RestoreAction::Restore);
    assert_eq!(CmdError::AbortExit.exit_code(), 3);
}

#[test]
fn detached_head() {
    assert!(is_detached("HEAD"));
    assert!(!is_detached("main"));
}

#[test]
fn law_rerun_on_a_stack_in_place_skips_every_branch() {
    let mut run = RebaseRun::new(
        "main".to_string(),
        strings(&["a", "b"]),
        strings(&["m0", "a0", "b0"]),
        strings(&["m0", "", ""]),
        0,
    );
    for (branch, onto, tip) in [("a", "m0", "a0"), ("b", "a0", "b0")] {
        assert!(matches!(run.next_step(), RebaseStep::Check { branch: b, onto: o, upstream: u, .. } if b == branch && o == onto && u == onto));
        assert!(matches!(run.on_ancestor(true), RebaseStep::MergeBase { .. }));
        assert!(matches!(run.on_merge_base(onto), RebaseStep::Skip { .. }));
        assert!(matches!(run.on_tip(tip.to_string()), RebaseStep::Record { sha, .. } if sha == tip));
    }
    assert!(matches!(run.next_step(), RebaseStep::Finished));
}
