use stacked_diffs::fetch::{
    fetch_and_fast_forward, fetch_and_fast_forward_branch, remote_ref, FetchFailure, FetchStep,
    MoveKind,
};

#[test]
fn remote_refs() {
    assert_eq!(remote_ref("origin", "main"), "origin/main");
}

#[test]
fn base_fetch_failure() {
    let (mut ff, first) = fetch_and_fast_forward("main", "origin");
    assert!(matches!(first, FetchStep::Fetch { remote, branch } if remote == "origin" && branch == "main"));
    assert!(matches!(ff.on_fetched(false), FetchStep::Failed { failure: FetchFailure::FetchFailed }));
}

#[test]
fn checked_out_base_is_merged_ff_only() {
    let (mut ff, _) = fetch_and_fast_forward("main", "up");
    assert!(matches!(ff.on_fetched(true), FetchStep::ReadHead));
    assert!(matches!(ff.on_head("main"), FetchStep::MergeFfOnly { target } if target == "up/main"));
    assert!(matches!(ff.on_merged(true), FetchStep::Done));
    let (mut ff, _) = fetch_and_fast_forward("main", "up");
    ff.on_fetched(true);
    ff.on_head("main");
    assert!(matches!(ff.on_merged(false), FetchStep::Failed { failure: FetchFailure::NotFastForward }));
}

#[test]
fn other_base_moves_its_ref_when_behind() {
    let (mut ff, _) = fetch_and_fast_forward("main", "origin");
    ff.on_fetched(true);
    assert!(matches!(ff.on_head("feat"), FetchStep::ReadTips { branch, remote_ref } if branch == "main" && remote_ref == "origin/main"));
    assert!(matches!(ff.on_tips("l".to_string(), "r".to_string()), FetchStep::CheckBehind { local, remote } if local == "l" && remote == "r"));
    match ff.on_ancestor(true) {
        FetchStep::UpdateRef { branch, from, to, kind } => {
            assert_eq!((branch.as_str(), from.as_str(), to.as_str()), ("main", "l", "r"));
            assert_eq!(kind, MoveKind::FastForward);
        }
        _ => panic!("expected an update"),
    }
}

#[test]
fn base_in_sync_or_diverged() {
    let (mut ff, _) = fetch_and_fast_forward("main", "origin");
    ff.on_fetched(true);
    ff.on_head("feat");
    assert!(matches!(ff.on_tips("same".to_string(), "same".to_string()), FetchStep::Done));
    let (mut ff, _) = fetch_and_fast_forward("main", "origin");
    ff.on_fetched(true);
    ff.on_head("feat");
    ff.on_tips("l".to_string(), "r".to_string());
    assert!(matches!(ff.on_ancestor(false), FetchStep::Failed { failure: FetchFailure::Diverged }));
}

#[test]
fn branch_without_remote_is_left_alone() {
    let (mut s, _) = fetch_and_fast_forward_branch("feat", "origin", false);
    assert!(matches!(s.on_fetched(false), FetchStep::Done));
    let (mut s, _) = fetch_and_fast_forward_branch("feat", "origin", false);
    assert!(matches!(s.on_fetched(true), FetchStep::VerifyRemote { remote_ref } if remote_ref == "origin/feat"));
    assert!(matches!(s.on_verified(false), FetchStep::Done));
}

fn diverging(prefer_remote: bool) -> stacked_diffs::fetch::BranchSync {
    let (mut s, _) = fetch_and_fast_forward_branch("feat", "origin", prefer_remote);
    s.on_fetched(true);
    s.on_verified(true);
    s.on_tips("l".to_string(), "r".to_string());
    s
}

#[test]
fn branch_behind_is_fast_forwarded() {
    let mut s = diverging(false);
    assert!(matches!(s.on_behind(true), FetchStep::UpdateRef { kind: MoveKind::FastForward, to, .. } if to == "r"));
}

#[test]
fn branch_ahead_is_kept() {
    let mut s = diverging(false);
    assert!(matches!(s.on_behind(false), FetchStep::CheckAhead { local, remote } if local == "l" && remote == "r"));
    assert!(matches!(s.on_ahead(true), FetchStep::Done));
}

#[test]
fn diverged_branch_is_reset_only_when_remote_preferred() {
    let mut s = diverging(true);
    s.on_behind(false);
    assert!(matches!(s.on_ahead(false), FetchStep::UpdateRef { kind: MoveKind::Reset, from, to, .. } if from == "l" && to == "r"));
    let mut s = diverging(false);
    s.on_behind(false);
    assert!(matches!(s.on_ahead(false), FetchStep::Failed { failure: FetchFailure::Diverged }));
}
