//! The git commands the tool runs, and what their outcome means.
use vstd::prelude::*;

verus! {

/// A program and its arguments.
pub struct GitCommand {
    pub program: String,
    pub args: Vec<String>,
}

pub open spec fn arg_views(args: Seq<String>) -> Seq<Seq<char>> {
    args.map_values(|a: String| a@)
}

impl GitCommand {
    pub open spec fn runs(&self, program: Seq<char>, args: Seq<Seq<char>>) -> bool {
        self.program@ == program && arg_views(self.args@) == args
    }
}

fn text(s: &str) -> (r: String)
    ensures
        r@ == s@,
{
    let mut r = String::new();
    r.append(s);
    assert(r@ =~= s@);
    r
}

fn git(args: Vec<String>) -> (c: GitCommand)
    ensures
        c.program@ == "git"@,
        c.args@ == args@,
{
    GitCommand { program: text("git"), args }
}

/// `git add -A`: stages every change.
pub fn add_all() -> (c: GitCommand)
    ensures
        c.runs("git"@, seq!["add"@, "-A"@]),
{
    let c = git(vec![text("add"), text("-A")]);
    assert(arg_views(c.args@) =~= seq!["add"@, "-A"@]);
    c
}

/// `git diff --staged`: prints the staged changes.
pub fn staged_diff() -> (c: GitCommand)
    ensures
        c.runs("git"@, seq!["diff"@, "--staged"@]),
{
    let c = git(vec![text("diff"), text("--staged")]);
    assert(arg_views(c.args@) =~= seq!["diff"@, "--staged"@]);
    c
}

/// `git diff --staged --quiet`: exits unsuccessfully when changes are staged.
pub fn has_staged_changes() -> (c: GitCommand)
    ensures
        c.runs("git"@, seq!["diff"@, "--staged"@, "--quiet"@]),
{
    let c = git(vec![text("diff"), text("--staged"), text("--quiet")]);
    assert(arg_views(c.args@) =~= seq!["diff"@, "--staged"@, "--quiet"@]);
    c
}

/// Whether changes are staged, from whether `git diff --staged --quiet`
/// exited successfully.
pub fn staged_changes_present(quiet_diff_succeeded: bool) -> (r: bool)
    ensures
        r == !quiet_diff_succeeded,
{
    !quiet_diff_succeeded
}

/// `git commit -m <message>`.
pub fn commit(message: &str) -> (c: GitCommand)
    ensures
        c.runs("git"@, seq!["commit"@, "-m"@, message@]),
{
    let c = git(vec![text("commit"), text("-m"), text(message)]);
    assert(arg_views(c.args@) =~= seq!["commit"@, "-m"@, message@]);
    c
}

/// `git push`.
pub fn push() -> (c: GitCommand)
    ensures
        c.runs("git"@, seq!["push"@]),
{
    let c = git(vec![text("push")]);
    assert(arg_views(c.args@) =~= seq!["push"@]);
    c
}

/// How running a command ended.
pub enum RunOutcome {
    /// The program could not be started.
    SpawnFailed,
    /// The program ran; `status` describes its exit status.
    Exited { success: bool, status: String },
}

/// Why running a command failed.
pub enum GitError {
    Spawn { program: String },
    Failed { program: String, status: String },
}

/// The result of running `program`: success only when it started and exited
/// successfully.
pub fn run_result(program: &str, outcome: RunOutcome) -> (r: Result<(), GitError>)
    ensures
        match outcome {
            RunOutcome::SpawnFailed => r matches Err(GitError::Spawn { program: p }) && p@
                == program@,
            RunOutcome::Exited { success, status } => if success {
                r is Ok
            } else {
                r matches Err(GitError::Failed { program: p, status: s }) && p@ == program@ && s@
                    == status@
            },
        },
{
    match outcome {
        RunOutcome::SpawnFailed => Err(GitError::Spawn { program: text(program) }),
        RunOutcome::Exited { success, status } => {
            if success {
                Ok(())
            } else {
                Err(GitError::Failed { program: text(program), status })
            }
        },
    }
}

/// The text that reports a `GitError`.
pub open spec fn git_error_text(e: GitError) -> Seq<char> {
    match e {
        GitError::Spawn { program } => "failed to spawn: "@ + program@,
        GitError::Failed { program, status } => program@ + " exited with "@ + status@,
    }
}

impl GitError {
    /// The text that reports this error.
    pub fn message(&self) -> (r: String)
        ensures
            r@ == git_error_text(*self),
    {
        let mut r = String::new();
        match self {
            GitError::Spawn { program } => {
                r.append("failed to spawn: ");
                r.append(program.as_str());
            },
            GitError::Failed { program, status } => {
                r.append(program.as_str());
                r.append(" exited with ");
                r.append(status.as_str());
            },
        }
        assert(r@ =~= git_error_text(*self));
        r
    }
}

/// The lines added to and deleted from one file.
pub struct FileStat {
    pub file: String,
    pub added: usize,
    pub deleted: usize,
}

} // verus!
