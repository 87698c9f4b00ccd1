use stacked_diffs::checkout::{cmd_checkout, CheckoutStep};
use stacked_diffs::config::Stack;

fn stack(base: &str, branches: &[&str]) -> Stack {
    Stack { base: base.to_string(), branches: branches.iter().map(|s| s.to_string()).collect() }
}

#[test]
fn checkout_menu_numbers_branches_bottom_first_with_marks() {
    let (mut run, first) = cmd_checkout(&stack("main", &["a", "b"]));
    assert!(matches!(first, CheckoutStep::ReadHead));
    assert!(matches!(run.on_head(Some("a")), CheckoutStep::CheckExists { reference } if reference == "main"));
    assert!(matches!(run.on_exists(true), CheckoutStep::CheckExists { reference } if reference == "a"));
    assert!(matches!(run.on_exists(true), CheckoutStep::CheckExists { reference } if reference == "b"));
    match run.on_exists(false) {
        CheckoutStep::Menu { lines, count } => {
            assert_eq!(count, 3);
            assert_eq!(lines, vec!["  1. main", "  2. a (current)", "  3. b (missing)"]);
        }
        _ => panic!("expected the menu"),
    }
}

fn at_prompt() -> stacked_diffs::checkout::CheckoutRun {
    let (mut run, _) = cmd_checkout(&stack("main", &["a"]));
    run.on_head(None);
    run.on_exists(true);
    assert!(matches!(run.on_exists(true), CheckoutStep::Menu { .. }));
    run
}

#[test]
fn checkout_reprompts_on_bad_input_and_stops_on_a_read_failure() {
    let mut run = at_prompt();
    assert!(matches!(run.on_input(Some("abc\n")), CheckoutStep::NotANumber { count: 2 }));
    assert!(matches!(run.on_input(Some("0\n")), CheckoutStep::OutOfRange { count: 2 }));
    assert!(matches!(run.on_input(Some("3\n")), CheckoutStep::OutOfRange { count: 2 }));
    assert!(matches!(run.on_input(None), CheckoutStep::ReadFailed));
}

#[test]
fn checkout_of_the_chosen_branch() {
    let mut run = at_prompt();
    assert!(matches!(run.on_input(Some(" 2 \n")), CheckoutStep::CheckTarget { branch } if branch == "a"));
    assert!(matches!(run.on_target(true), CheckoutStep::Checkout { branch } if branch == "a"));
    assert!(matches!(run.on_checked_out(true), CheckoutStep::Done { branch } if branch == "a"));

    let mut run = at_prompt();
    run.on_input(Some("1"));
    assert!(matches!(run.on_target(false), CheckoutStep::Missing { branch } if branch == "main"));

    let mut run = at_prompt();
    run.on_input(Some("1"));
    run.on_target(true);
    assert!(matches!(run.on_checked_out(false), CheckoutStep::Failed { branch } if branch == "main"));
}
