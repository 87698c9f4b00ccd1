use stacked_diffs::commands::BranchTag;
use stacked_diffs::output::{
    render_branch_tree, render_header, BranchRow, BLUE, BRANCH_END, BRANCH_MID, BRANCH_START,
    CIRCLE, CYAN, DIM, RESET, VERTICAL, WHITE,
};

fn row(name: &str, tag: BranchTag, detail: &[&str]) -> BranchRow {
    BranchRow { name: name.to_string(), tag, detail: detail.iter().map(|s| s.to_string()).collect() }
}

#[test]
fn header_is_padded_to_the_box() {
    let lines = render_header("Stack: s");
    assert_eq!(lines.len(), 3);
    assert!(lines[1].contains(&format!("  Stack: s{}", " ".repeat(37 - 10))));
    let long = "x".repeat(50);
    assert!(render_header(&long)[1].contains(&format!("  {long}{CYAN}")));
}

#[test]
fn tree_connectors() {
    let lines = render_branch_tree(&vec![row("main", BranchTag::Normal, &[])]);
    assert_eq!(lines, vec![format!("{CYAN}{BRANCH_END}{RESET} {BLUE}{CIRCLE}{RESET} {WHITE}main{RESET}")]);
    let rows = vec![
        row("main", BranchTag::Normal, &[]),
        row("a", BranchTag::Current, &["abc  subject"]),
        row("b", BranchTag::Missing, &[]),
    ];
    let lines = render_branch_tree(&rows);
    assert_eq!(lines.len(), 6);
    assert!(lines[0].starts_with(&format!("{CYAN}{BRANCH_START}")));
    assert_eq!(lines[1], format!("{CYAN}{VERTICAL}{RESET}"));
    assert!(lines[2].starts_with(&format!("{CYAN}{BRANCH_MID}")));
    assert!(lines[2].contains("(current)"));
    assert_eq!(lines[3], format!("     {DIM}abc  subject{RESET}"));
    assert!(lines[5].starts_with(&format!("{CYAN}{BRANCH_END}")));
    assert!(lines[5].contains("(missing)"));
}
