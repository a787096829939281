use gup::cli::{
    compose_message, is_commit_type, nothing_to_commit, resolve_args, types_list, ArgsError, Cli,
    RunAction, RunEvent, RunPlan,
};

fn cli(first: Option<&str>, message: Option<&str>, ai: bool) -> Cli {
    Cli {
        first: first.map(|s| s.to_string()),
        message: message.map(|s| s.to_string()),
        ai,
        no_push: false,
    }
}

#[test]
fn ai_alone_selects_nothing() {
    let c = cli(None, None, true);
    assert!(matches!(resolve_args(&c), Ok((None, None))));
}

#[test]
fn type_with_message() {
    let c = cli(Some("feat"), Some("add login"), false);
    let r = resolve_args(&c);
    assert!(matches!(r, Ok((Some("feat"), Some("add login")))));
}

#[test]
fn type_with_ai() {
    let c = cli(Some("fix"), None, true);
    assert!(matches!(resolve_args(&c), Ok((Some("fix"), None))));
}

#[test]
fn type_without_message_is_refused() {
    let c = cli(Some("docs"), None, false);
    match resolve_args(&c) {
        Err(e) => {
            assert!(matches!(e, ArgsError::MissingMessage { .. }));
            assert_eq!(e.message(), "'docs' requires a message or --ai");
        }
        Ok(_) => panic!("accepted"),
    }
}

#[test]
fn raw_message_alone() {
    let c = cli(Some("quick typo fix"), None, false);
    assert!(matches!(resolve_args(&c), Ok((None, Some("quick typo fix")))));
}

#[test]
fn mistyped_type_is_refused() {
    let c = cli(Some("feet"), Some("add login"), false);
    match resolve_args(&c) {
        Err(e) => assert_eq!(
            e.message(),
            "'feet' is not a valid commit type. Valid: feat, fix, docs, chore, refactor, test, style, perf, ci, build, revert"
        ),
        Ok(_) => panic!("accepted"),
    }
}

#[test]
fn nothing_given_prints_usage() {
    for c in [cli(None, None, false), cli(None, Some("x"), true), cli(Some("raw"), None, true)] {
        match resolve_args(&c) {
            Err(e) => {
                assert!(matches!(e, ArgsError::Usage));
                assert_eq!(
                    e.message(),
                    "usage:\n  gup <type> <message>\n  gup <type> --ai\n  gup --ai\n\nTypes: feat, fix, docs, chore, refactor, test, style, perf, ci, build, revert"
                );
            }
            Ok(_) => panic!("accepted"),
        }
    }
}

#[test]
fn known_types() {
    assert!(is_commit_type("revert"));
    assert!(is_commit_type("ci"));
    assert!(!is_commit_type("feature"));
    assert!(!is_commit_type(""));
    assert_eq!(
        types_list(),
        "feat, fix, docs, chore, refactor, test, style, perf, ci, build, revert"
    );
}

#[test]
fn direct_messages() {
    assert_eq!(compose_message(Some("feat"), "add login"), "feat: add login");
    assert_eq!(compose_message(None, "raw commit message"), "raw commit message");
}

#[test]
fn run_plan_order() {
    use_plan();
}

fn commit_of(a: RunAction) -> String {
    match a {
        RunAction::Commit(m) => m,
        _ => panic!("no commit"),
    }
}

fn use_plan() {
    let c = cli(Some("feat"), Some("add login"), false);
    let p = RunPlan::new(&c, Some("feat"), Some("add login"));
    assert!(matches!(p.next(&RunEvent::Begin), RunAction::StageAll));
    assert!(matches!(p.next(&RunEvent::StagedAll), RunAction::CheckStaged));
    assert!(matches!(p.next(&RunEvent::StagedChecked { has_changes: false }), RunAction::NothingToCommit));
    assert_eq!(commit_of(p.next(&RunEvent::StagedChecked { has_changes: true })), "feat: add login");
    assert!(matches!(p.next(&RunEvent::Committed), RunAction::Push));
    assert!(matches!(p.next(&RunEvent::Pushed), RunAction::Finish));
    let mut c = cli(None, None, true);
    c.no_push = true;
    let p = RunPlan::new(&c, None, None);
    assert!(matches!(p.next(&RunEvent::StagedChecked { has_changes: true }), RunAction::GenerateMessage));
    assert_eq!(commit_of(p.next(&RunEvent::Generated("fix: typo".to_string()))), "fix: typo");
    assert!(matches!(p.next(&RunEvent::Committed), RunAction::Finish));
    assert_eq!(nothing_to_commit(), "nothing to commit — working tree clean");
}
