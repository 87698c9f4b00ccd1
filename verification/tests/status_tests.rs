use stacked_diffs::commands::BranchTag;
use stacked_diffs::config::Stack;
use stacked_diffs::output::{DIM, GREEN, RESET, YELLOW};
use stacked_diffs::status::{cmd_show, cmd_status, StatusStep};

fn stack(base: &str, branches: &[&str]) -> Stack {
    Stack { base: base.to_string(), branches: branches.iter().map(|s| s.to_string()).collect() }
}

#[test]
fn status_walks_base_then_branches_and_renders_each_row() {
    let (mut run, first) = cmd_status(&stack("main", &["a", "b"]), "origin");
    assert!(matches!(first, StatusStep::ReadHead));
    assert!(matches!(run.on_head(Some("a")), StatusStep::CheckExists { reference } if reference == "main"));
    assert!(matches!(run.on_exists(true), StatusStep::ReadTip { reference } if reference == "main"));
    assert!(matches!(run.on_tip("0123456789abcdef"), StatusStep::ReadSubject { sha } if sha == "0123456789abcdef"));
    assert!(matches!(run.on_subject("init"), StatusStep::CheckExists { reference } if reference == "a"));

    run.on_exists(true);
    run.on_tip("fedcba9876543210");
    assert!(matches!(run.on_subject("feat a"), StatusStep::CountVsParent { range } if range == "main...a"));
    assert!(matches!(run.on_parent_counts("0\t2\n"), StatusStep::VerifyRemote { remote_ref } if remote_ref == "origin/a"));
    assert!(matches!(run.on_remote(true), StatusStep::CountVsRemote { range } if range == "origin/a...a"));
    assert!(matches!(run.on_remote_counts("1\t0\n"), StatusStep::CheckExists { reference } if reference == "b"));

    let rows = match run.on_exists(false) {
        StatusStep::Render { rows } => rows,
        _ => panic!("expected the tree"),
    };
    assert_eq!(rows.len(), 3);
    assert_eq!(rows[0].name, "main");
    assert_eq!(rows[0].tag, BranchTag::Normal);
    assert_eq!(rows[0].detail, vec![format!("{DIM}01234567{RESET}  init")]);
    assert_eq!(rows[1].name, "a");
    assert_eq!(rows[1].tag, BranchTag::Current);
    assert_eq!(
        rows[1].detail,
        vec![
            format!("{DIM}fedcba98{RESET}  feat a"),
            format!("{GREEN}+2{RESET}  {DIM}ahead of main{RESET}  {DIM}│{RESET}  {YELLOW}↑0 ↓1 vs origin{RESET}"),
        ]
    );
    assert_eq!(rows[2].name, "b");
    assert_eq!(rows[2].tag, BranchTag::Missing);
    assert_eq!(rows[2].detail, vec![format!("{DIM}missing locally{RESET}")]);
}

#[test]
fn status_flags_a_branch_behind_its_parent_and_one_without_tracking_ref() {
    let (mut run, _) = cmd_status(&stack("main", &["a"]), "up");
    run.on_head(None);
    run.on_exists(true);
    run.on_tip("abc");
    run.on_subject("base");
    run.on_exists(true);
    run.on_tip("def");
    run.on_subject("work");
    run.on_parent_counts("3 1");
    let rows = match run.on_remote(false) {
        StatusStep::Render { rows } => rows,
        _ => panic!("expected the tree"),
    };
    assert_eq!(rows[0].detail, vec![format!("{DIM}abc{RESET}  base")]);
    assert_eq!(
        rows[1].detail[1],
        format!("{YELLOW}+1  -3 behind main (rebase needed){RESET}  {DIM}│{RESET}  {DIM}no up tracking ref{RESET}")
    );
}

#[test]
fn status_shows_in_sync_when_remote_counts_are_zero() {
    let (mut run, _) = cmd_status(&stack("main", &["a"]), "origin");
    run.on_head(Some("main"));
    run.on_exists(true);
    run.on_tip("1111111111");
    run.on_subject("m");
    run.on_exists(true);
    run.on_tip("2222222222");
    run.on_subject("x");
    run.on_parent_counts("0 0");
    run.on_remote(true);
    let rows = match run.on_remote_counts("0\t0") {
        StatusStep::Render { rows } => rows,
        _ => panic!("expected the tree"),
    };
    assert_eq!(rows[0].tag, BranchTag::Current);
    assert_eq!(
        rows[1].detail[1],
        format!("{GREEN}+0{RESET}  {DIM}ahead of main{RESET}  {DIM}│{RESET}  {GREEN}✓ origin in sync{RESET}")
    );
}

#[test]
fn show_prints_the_chain_on_one_line() {
    assert_eq!(cmd_show(&stack("main", &["a", "b"])), "main -> a -> b");
    assert_eq!(cmd_show(&stack("main", &[])), "main");
}
