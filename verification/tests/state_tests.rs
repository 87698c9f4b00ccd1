use stacked_diffs::state::{
    enc, head_to_restore, join_path, join_strings, next_index_text, parse_next_index, read_record, state_dir,
    state_matches, tip_file,
};

fn strings(v: &[&str]) -> Vec<String> {
    v.iter().map(|s| s.to_string()).collect()
}

#[test]
fn enc_replaces_slashes() {
    assert_eq!(enc("ben/feature-a"), "ben__SLASH__feature-a");
    assert_eq!(enc("a//b/"), "a__SLASH____SLASH__b__SLASH__");
    assert_eq!(enc("main"), "main");
    assert!(!enc("x/y/z").contains('/'));
}

#[test]
fn paths_join_like_path_join() {
    assert_eq!(join_path("/repo", ".git"), "/repo/.git");
    assert_eq!(join_path("/repo/", ".git"), "/repo/.git");
    assert_eq!(join_path("/repo", "/abs/.git"), "/abs/.git");
    assert_eq!(join_path("", "rel"), "rel");
}

#[test]
fn state_dir_under_git_dir() {
    assert_eq!(
        state_dir("/work/repo", ".git", "team/freeze"),
        "/work/repo/.git/stack-rebase-team__SLASH__freeze"
    );
    assert_eq!(
        state_dir("/work/wt", "/work/repo/.git/worktrees/wt", "s"),
        "/work/repo/.git/worktrees/wt/stack-rebase-s"
    );
}

#[test]
fn tip_files() {
    assert_eq!(tip_file("/sd", "oldtip", "ben/a"), "/sd/oldtip/ben__SLASH__a");
}

#[test]
fn next_index_round_trip() {
    assert_eq!(next_index_text(0), "0\n");
    assert_eq!(next_index_text(12), "12\n");
    assert_eq!(parse_next_index(Some(&next_index_text(3))), 3);
    assert_eq!(parse_next_index(Some(&next_index_text(usize::MAX))), usize::MAX);
}

#[test]
fn next_index_defaults_to_zero() {
    assert_eq!(parse_next_index(None), 0);
    assert_eq!(parse_next_index(Some("")), 0);
    assert_eq!(parse_next_index(Some("two\n")), 0);
    assert_eq!(parse_next_index(Some("-1\n")), 0);
    assert_eq!(parse_next_index(Some("99999999999999999999999\n")), 0);
    assert_eq!(parse_next_index(Some(" +7 \n")), 7);
}

#[test]
fn records_are_trimmed() {
    assert_eq!(read_record(Some("  abc \n")), "abc");
    assert_eq!(read_record(None), "");
}

#[test]
fn join_with_separator() {
    assert_eq!(join_strings(&strings(&["a", "b", "c"]), " -> "), "a -> b -> c");
    assert_eq!(join_strings(&strings(&["a"]), "\n"), "a");
    assert_eq!(join_strings(&vec![], ", "), "");
}

#[test]
fn law_saved_state_matches_what_was_written() {
    let branches = strings(&["a", "b"]);
    let saved_branches = format!("{}\n", join_strings(&branches, "\n"));
    assert!(state_matches(Some("main\n"), Some(&saved_branches), "main", &branches));
}

#[test]
fn changed_config_does_not_match_saved_state() {
    let branches = strings(&["a", "b"]);
    assert!(!state_matches(Some("main\n"), Some("a\nb\n"), "develop", &branches));
    assert!(!state_matches(Some("main\n"), Some("a\n"), "main", &branches));
    assert!(!state_matches(None, Some("a\nb\n"), "main", &branches));
}

#[test]
fn law_enc_keeps_names_without_underscores_apart() {
    let names = ["a/b", "a-b", "ab", "a//b", "a/b/", "/ab"];
    for x in names {
        for y in names {
            assert_eq!(enc(x) == enc(y), x == y);
        }
    }
    assert_eq!(enc("a/b"), enc("a__SLASH__b"));
}

#[test]
fn head_to_restore_skips_an_empty_record() {
    assert_eq!(head_to_restore(Some("feat-a\n")), Some("feat-a".to_string()));
    assert_eq!(head_to_restore(Some("  \n")), None);
    assert_eq!(head_to_restore(None), None);
}

#[test]
fn law_enc_decodes_back() {
    for x in ["a/b", "feat/x/y", "plain", "/lead", "trail/", "a//b", ""] {
        assert_eq!(enc(x).replace("__SLASH__", "/"), x);
    }
}
