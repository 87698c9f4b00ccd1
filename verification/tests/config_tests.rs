use stacked_diffs::config::{
    append_branch_to_config, initial_config, is_valid_stack_name, load_stack, parse_stack,
    remove_branch_from_config, stack_base, Stack, StackError,
};

fn names(stack: &Stack) -> (String, Vec<String>) {
    (stack.base.clone(), stack.branches.clone())
}

fn strings(v: &[&str]) -> Vec<String> {
    v.iter().map(|s| s.to_string()).collect()
}

#[test]
fn parses_base_and_branches_skipping_comments_and_blanks() {
    let content = "# Stack while merges are blocked\nmain\n\nben/feature-a\n  ben/feature-b  \n# note\nben/feature-c\n";
    let stack = parse_stack(content).ok().unwrap();
    assert_eq!(
        names(&stack),
        ("main".to_string(), strings(&["ben/feature-a", "ben/feature-b", "ben/feature-c"]))
    );
}

#[test]
fn parses_crlf_lines_and_missing_final_newline() {
    let stack = parse_stack("main\r\nfeat-a\r\nfeat-b").ok().unwrap();
    assert_eq!(names(&stack), ("main".to_string(), strings(&["feat-a", "feat-b"])));
}

#[test]
fn stack_with_only_a_base_has_no_branches() {
    let stack = parse_stack("# just the base\nmain\n").ok().unwrap();
    assert_eq!(names(&stack), ("main".to_string(), vec![]));
}

#[test]
fn empty_or_comment_only_config_has_no_base() {
    assert!(matches!(parse_stack(""), Err(StackError::NoBase)));
    assert!(matches!(parse_stack("# a\n\n   \n#b\n"), Err(StackError::NoBase)));
}

#[test]
fn base_must_not_be_a_branch() {
    assert!(matches!(parse_stack("main\nfeat\nmain\n"), Err(StackError::BaseInBranches)));
}

#[test]
fn duplicate_branches_are_refused() {
    assert!(matches!(parse_stack("main\na\nb\na\n"), Err(StackError::DuplicateBranches)));
}

#[test]
fn base_in_branches_is_reported_before_duplicates() {
    assert!(matches!(parse_stack("main\na\na\nmain\n"), Err(StackError::BaseInBranches)));
}

#[test]
fn stack_names() {
    assert!(is_valid_stack_name("code-freeze"));
    assert!(is_valid_stack_name("team/q3.release_2"));
    assert!(is_valid_stack_name("ünïcödé"));
    assert!(!is_valid_stack_name(""));
    assert!(!is_valid_stack_name("has space"));
    assert!(!is_valid_stack_name("semi;colon"));
    assert!(!is_valid_stack_name("tab\tname"));
}

#[test]
fn load_checks_the_name_then_the_file() {
    assert!(matches!(load_stack("bad name", Some("main\n")), Err(StackError::InvalidName)));
    assert!(matches!(load_stack("ok", None), Err(StackError::NotFound)));
    let stack = load_stack("ok", Some("main\nx\n")).ok().unwrap();
    assert_eq!(names(&stack), ("main".to_string(), strings(&["x"])));
}

#[test]
fn stack_base_is_the_first_entry() {
    assert_eq!(stack_base("# c\n\n  dev \nmain\n"), Some("dev".to_string()));
    assert_eq!(stack_base("# only comments\n"), None);
}

#[test]
fn append_adds_a_final_line() {
    assert_eq!(append_branch_to_config("main\n", "feat"), "main\nfeat\n");
    assert_eq!(append_branch_to_config("main", "feat"), "main\nfeat\n");
    assert_eq!(append_branch_to_config("", "feat"), "\nfeat\n");
}

#[test]
fn remove_drops_matching_lines_and_rewrites_the_rest() {
    let content = "# Stack: s\r\nmain\r\n  feat-a \r\nfeat-b\n# feat-a\nfeat-a";
    assert_eq!(
        remove_branch_from_config(content, "feat-a"),
        "# Stack: s\nmain\nfeat-b\n# feat-a\n"
    );
    assert_eq!(remove_branch_from_config("", "x"), "");
}

#[test]
fn initial_config_text() {
    let scanned = strings(&["a", "b"]);
    assert_eq!(
        initial_config("freeze", "main", &scanned),
        "# Stack: freeze\n# Base + branches in order, bottom-to-top. '#' for comments.\nmain\na\nb\n"
    );
    assert_eq!(
        initial_config("freeze", "main", &vec![]),
        "# Stack: freeze\n# Base + branches in order, bottom-to-top. '#' for comments.\nmain\n"
    );
}

#[test]
fn law_add_then_load_has_the_branch_on_top() {
    let content = "# s\nmain\nfeat-a\r\n";
    let after = append_branch_to_config(content, "feat-b");
    let stack = parse_stack(&after).ok().unwrap();
    assert_eq!(names(&stack), ("main".to_string(), strings(&["feat-a", "feat-b"])));
}

#[test]
fn law_rm_then_load_has_the_branch_gone() {
    let content = "main\na\nb\nc\n";
    let after = remove_branch_from_config(content, "b");
    let stack = parse_stack(&after).ok().unwrap();
    assert_eq!(names(&stack), ("main".to_string(), strings(&["a", "c"])));
}

#[test]
fn law_init_then_load_gives_base_and_scanned() {
    let scanned = strings(&["ben/a", "ben/b"]);
    let content = initial_config("code-freeze", "main", &scanned);
    let stack = parse_stack(&content).ok().unwrap();
    assert_eq!(names(&stack), ("main".to_string(), scanned));
}

#[test]
fn law_loaded_stack_rewrites_to_the_same_stack() {
    let content = "  main \n# comment\n\n\tfeat-a\r\nfeat-b  \n";
    let stack = parse_stack(content).ok().unwrap();
    assert_eq!(names(&stack), ("main".to_string(), strings(&["feat-a", "feat-b"])));
    let rewritten = initial_config("other", &stack.base, &stack.branches);
    let again = parse_stack(&rewritten).ok().unwrap();
    assert_eq!(names(&again), names(&stack));
}

#[test]
fn law_add_then_rm_gives_the_text_back() {
    let content = "# Stack: s\nmain\nfeat-a\n";
    let added = append_branch_to_config(content, "feat-b");
    assert_eq!(remove_branch_from_config(&added, "feat-b"), content);
}
