use gup::git::{add_all, commit, has_staged_changes, push, run_result, staged_changes_present, staged_diff, GitError, RunOutcome};

fn args(c: &gup::git::GitCommand) -> Vec<&str> {
    c.args.iter().map(|a| a.as_str()).collect()
}

#[test]
fn commands() {
    let c = add_all();
    assert_eq!(c.program, "git");
    assert_eq!(args(&c), vec!["add", "-A"]);
    assert_eq!(args(&staged_diff()), vec!["diff", "--staged"]);
    assert_eq!(args(&has_staged_changes()), vec!["diff", "--staged", "--quiet"]);
    assert_eq!(args(&commit("feat: add login")), vec!["commit", "-m", "feat: add login"]);
    assert_eq!(args(&push()), vec!["push"]);
}

#[test]
fn staged_changes_from_quiet_diff() {
    assert!(staged_changes_present(false));
    assert!(!staged_changes_present(true));
}

#[test]
fn run_results() {
    assert!(run_result("git", RunOutcome::Exited { success: true, status: "exit status: 0".to_string() }).is_ok());
    match run_result("git", RunOutcome::Exited { success: false, status: "exit status: 1".to_string() }) {
        Err(e) => {
            assert!(matches!(e, GitError::Failed { .. }));
            assert_eq!(e.message(), "git exited with exit status: 1");
        }
        Ok(()) => panic!("succeeded"),
    }
    match run_result("git", RunOutcome::SpawnFailed) {
        Err(e) => assert_eq!(e.message(), "failed to spawn: git"),
        Ok(()) => panic!("succeeded"),
    }
}
