use stacked_diffs::commands::{
    add_check, branch_tag, checkout_choice, cmd_push, list_entry, cmd_rm, detect_default_branch, pr_state,
    repo_clean, resolve_stack, scan_branches, scan_start, short, sync_plan, AddRefusal,
    BranchTag, Choice, Ctx, PrState, PushStep, ResolveError, RmOutcome, ScanStart, SyncPlan,
};
use stacked_diffs::config::{parse_stack, Stack, StackError};
use stacked_diffs::listing::sort_names;

fn strings(v: &[&str]) -> Vec<String> {
    v.iter().map(|s| s.to_string()).collect()
}

fn stack(base: &str, branches: &[&str]) -> Stack {
    Stack { base: base.to_string(), branches: strings(branches) }
}

#[test]
fn context_from_toplevel() {
    let ctx = Ctx::new("/home/me/repo\n");
    assert_eq!(ctx.repo_root, "/home/me/repo");
    assert_eq!(ctx.stacks_dir, "/home/me/repo/.stacks");
}

#[test]
fn short_shas() {
    assert_eq!(short("0123456789abcdef0123"), "01234567");
    assert_eq!(short("abc"), "abc");
    assert_eq!(short(""), "");
}

#[test]
fn clean_when_porcelain_is_empty() {
    assert!(repo_clean(""));
    assert!(repo_clean("\n"));
    assert!(!repo_clean(" M src/lib.rs\n"));
}

#[test]
fn default_branch_from_origin_head() {
    assert_eq!(detect_default_branch(Some("origin/develop")), "develop");
    assert_eq!(detect_default_branch(Some("origin/")), "main");
    assert_eq!(detect_default_branch(Some("upstream/x")), "main");
    assert_eq!(detect_default_branch(None), "main");
}

#[test]
fn resolving_the_stack() {
    assert!(matches!(resolve_stack(Some("s"), None), Ok(n) if n == "s"));
    assert!(matches!(resolve_stack(None, None), Err(ResolveError::NoStacksDir)));
    assert!(matches!(resolve_stack(None, Some(vec![])), Err(ResolveError::NoStacks)));
    assert!(matches!(resolve_stack(None, Some(strings(&["only"]))), Ok(n) if n == "only"));
    assert!(matches!(resolve_stack(None, Some(strings(&["a", "b"]))), Err(ResolveError::Multiple { names }) if names == strings(&["a", "b"])));
    assert!(matches!(resolve_stack(None, Some(strings(&["zeta", "alpha", "mid"]))), Err(ResolveError::Multiple { names }) if names == strings(&["alpha", "mid", "zeta"])));
}

#[test]
fn rm_outcomes() {
    let st = stack("main", &["a", "b", "c"]);
    let content = "main\na\nb\nc\n";
    assert!(matches!(cmd_rm(&st, content, "zzz"), RmOutcome::NotInStack));
    assert!(matches!(cmd_rm(&st, content, "main"), RmOutcome::NotInStack));
    match cmd_rm(&st, content, "b") {
        RmOutcome::Removed { at_top, above, new_content } => {
            assert!(!at_top);
            assert_eq!(above, Some("c".to_string()));
            assert_eq!(new_content, "main\na\nc\n");
            let after = parse_stack(&new_content).ok().unwrap();
            assert_eq!(after.branches, strings(&["a", "c"]));
        }
        RmOutcome::NotInStack => panic!("b is in the stack"),
    }
    match cmd_rm(&st, content, "c") {
        RmOutcome::Removed { at_top, above, .. } => {
            assert!(at_top);
            assert_eq!(above, None);
        }
        RmOutcome::NotInStack => panic!("c is in the stack"),
    }
}

#[test]
fn add_checks() {
    let st = stack("main", &["a"]);
    assert_eq!(add_check(&st, "main"), Err(AddRefusal::IsBase));
    assert_eq!(add_check(&st, "a"), Err(AddRefusal::AlreadyInStack));
    assert_eq!(add_check(&st, "b"), Ok("a".to_string()));
    assert_eq!(add_check(&stack("main", &[]), "b"), Ok("main".to_string()));
}

#[test]
fn push_walks_every_branch() {
    let branches = strings(&["a", "b"]);
    let (mut run, first) = cmd_push(&branches, "origin");
    assert!(matches!(first, PushStep::CheckExists { index: 0, count: 2, branch } if branch == "a"));
    assert!(matches!(run.on_exists(true), PushStep::Push { index: 0, branch, remote, .. } if branch == "a" && remote == "origin"));
    assert!(matches!(run.on_pushed(true), PushStep::CheckExists { index: 1, branch, .. } if branch == "b"));
    run.on_exists(true);
    assert!(matches!(run.on_pushed(true), PushStep::Done { count: 2 }));
}

#[test]
fn push_stops_on_missing_or_failed_branch() {
    assert!(matches!(cmd_push(&vec![], "origin").1, PushStep::NothingToPush));
    let branches = strings(&["a", "b"]);
    let (mut run, _) = cmd_push(&branches, "origin");
    assert!(matches!(run.on_exists(false), PushStep::Missing { branch } if branch == "a"));
    let (mut run, _) = cmd_push(&branches, "origin");
    run.on_exists(true);
    assert!(matches!(run.on_pushed(false), PushStep::Failed { branch } if branch == "a"));
}

#[test]
fn pull_request_states() {
    assert_eq!(pr_state(true, "MERGED\n", ""), Some(PrState::Merged));
    assert_eq!(pr_state(true, "merged", ""), Some(PrState::Merged));
    assert_eq!(pr_state(true, "CLOSED", ""), Some(PrState::Closed));
    assert_eq!(pr_state(true, "OPEN", ""), Some(PrState::Open));
    assert_eq!(pr_state(true, "", ""), Some(PrState::Open));
    assert_eq!(pr_state(false, "", "no pull requests found for branch \"x\""), Some(PrState::NoPr));
    assert_eq!(pr_state(false, "", "HTTP 401"), None);
}

#[test]
fn sync_plans() {
    let branches = strings(&["a", "b", "c"]);
    assert!(matches!(sync_plan(&branches, &vec![PrState::Merged, PrState::Closed, PrState::Open]), SyncPlan::Abort { closed } if closed == strings(&["b"])));
    assert!(matches!(sync_plan(&branches, &vec![PrState::Open, PrState::NoPr, PrState::Open]), SyncPlan::NothingToSync));
    assert!(matches!(sync_plan(&branches, &vec![PrState::Merged, PrState::Open, PrState::Merged]), SyncPlan::Remove { merged } if merged == strings(&["a", "c"])));
}

#[test]
fn tags() {
    assert_eq!(branch_tag(true, false), BranchTag::Current);
    assert_eq!(branch_tag(false, false), BranchTag::Missing);
    assert_eq!(branch_tag(false, true), BranchTag::Normal);
}

#[test]
fn scan_starts() {
    assert_eq!(scan_start("HEAD", "main"), ScanStart::Detached);
    assert_eq!(scan_start("main", "main"), ScanStart::AtBase);
    assert_eq!(scan_start("feat", "main"), ScanStart::Walk);
}

#[test]
fn scan_finds_branches_bottom_to_top() {
    let branch_list = "c3 ben/c\nb2 ben/b\nm0 main\na1 ben/a\nb2 ben/b-alias\nnospace\n";
    let log = "c3\nx9\nb2\na1\n";
    assert_eq!(scan_branches("main", branch_list, log), strings(&["ben/a", "ben/b-alias", "ben/c"]));
    assert_eq!(scan_branches("ben/a", branch_list, log), strings(&["ben/b-alias", "ben/c"]));
    assert_eq!(scan_branches("main", "", log), Vec::<String>::new());
}

#[test]
fn checkout_choices() {
    assert_eq!(checkout_choice("2\n", 3), Choice::Pick { index: 1 });
    assert_eq!(checkout_choice(" 1 ", 3), Choice::Pick { index: 0 });
    assert_eq!(checkout_choice("0", 3), Choice::OutOfRange);
    assert_eq!(checkout_choice("4", 3), Choice::OutOfRange);
    assert_eq!(checkout_choice("two", 3), Choice::Invalid);
}

#[test]
fn list_entry_shows_base_and_chain_or_marks_invalid() {
    assert_eq!(
        list_entry("s", &Ok(stack("main", &["a", "b"]))),
        strings(&["s", "  base: main", "  branches: a -> b"])
    );
    assert_eq!(
        list_entry("s", &Ok(stack("main", &[]))),
        strings(&["s", "  base: main", "  branches: (none yet)"])
    );
    assert_eq!(list_entry("bad", &Err(StackError::NoBase)), strings(&["bad (invalid)"]));
}

#[test]
fn stack_names_sort_as_strings_do() {
    let names = strings(&["b", "a/x", "ab", "a", "B", "é", ""]);
    let mut expected = names.clone();
    expected.sort();
    assert_eq!(sort_names(names), expected);
}
