//! The command line: which commit types exist, how the positional arguments
//! and `--ai` select a type and a message, and the message committed without
//! the review screen.
use vstd::prelude::*;

use crate::text::{join, push_char, same_text};

verus! {

/// The conventional commit types, in the order the usage text lists them.
pub open spec fn commit_types() -> Seq<Seq<char>> {
    seq![
        "feat"@,
        "fix"@,
        "docs"@,
        "chore"@,
        "refactor"@,
        "test"@,
        "style"@,
        "perf"@,
        "ci"@,
        "build"@,
        "revert"@,
    ]
}

/// The conventional commit types.
pub fn types() -> (r: Vec<&'static str>)
    ensures
        r@.len() == commit_types().len(),
        forall|i: int| 0 <= i < r@.len() ==> (#[trigger] r@[i])@ == commit_types()[i],
{
    let r = vec![
        "feat",
        "fix",
        "docs",
        "chore",
        "refactor",
        "test",
        "style",
        "perf",
        "ci",
        "build",
        "revert",
    ];
    assert forall|i: int| 0 <= i < r@.len() implies (#[trigger] r@[i])@ == commit_types()[i] by {
        if i == 0 {
        } else if i == 1 {
        } else if i == 2 {
        } else if i == 3 {
        } else if i == 4 {
        } else if i == 5 {
        } else if i == 6 {
        } else if i == 7 {
        } else if i == 8 {
        } else if i == 9 {
        } else {
        }
    }
    r
}

/// Whether `t` names a conventional commit type.
pub fn is_commit_type(t: &str) -> (r: bool)
    ensures
        r == commit_types().contains(t@),
{
    let all = types();
    let mut i: usize = 0;
    while i < all.len()
        invariant
            all@.len() == commit_types().len(),
            forall|k: int| 0 <= k < all@.len() ==> (#[trigger] all@[k])@ == commit_types()[k],
            i <= all.len(),
            forall|k: int| 0 <= k < i ==> commit_types()[k] != t@,
        decreases all.len() - i,
    {
        if same_text(all[i], t) {
            assert(commit_types()[i as int] == t@);
            return true;
        }
        i += 1;
    }
    proof {
        if commit_types().contains(t@) {
            let k = choose|k: int| 0 <= k < commit_types().len() && commit_types()[k] == t@;
            assert(commit_types()[k] != t@);
        }
    }
    false
}

/// The commit types separated by commas, for error and usage texts.
pub fn types_list() -> (r: String)
    ensures
        r@ == join(commit_types(), ", "@),
{
    let all = types();
    let sep = ", ";
    let mut r = String::new();
    let mut i: usize = 0;
    assert(commit_types().take(0).len() == 0);
    while i < all.len()
        invariant
            all@.len() == commit_types().len(),
            forall|k: int| 0 <= k < all@.len() ==> (#[trigger] all@[k])@ == commit_types()[k],
            i <= all.len(),
            r@ == join(commit_types().take(i as int), sep@),
        decreases all.len() - i,
    {
        let ghost before = r@;
        if i > 0 {
            r.append(sep);
        }
        r.append(all[i]);
        let ghost pre = commit_types().take(i + 1);
        assert(pre.drop_last() =~= commit_types().take(i as int));
        assert(pre.last() == all@[i as int]@);
        assert(r@ =~= join(pre, sep@));
        i += 1;
    }
    assert(commit_types().take(all.len() as int) =~= commit_types());
    r
}

/// The arguments of the tool: a type or a raw message, a message, `--ai` and
/// `--no-push`.
pub struct Cli {
    pub first: Option<String>,
    pub message: Option<String>,
    pub ai: bool,
    pub no_push: bool,
}

/// Why the arguments select nothing to commit.
pub enum ArgsError {
    /// A type without a message and without `--ai`.
    MissingMessage { commit_type: String },
    /// A word that is no commit type, followed by a message.
    InvalidType { given: String },
    /// Any other combination.
    Usage,
}

/// The mathematical form of an `ArgsError`.
pub enum ArgsFailure {
    MissingMessage(Seq<char>),
    InvalidType(Seq<char>),
    Usage,
}

impl View for ArgsError {
    type V = ArgsFailure;

    open spec fn view(&self) -> ArgsFailure {
        match self {
            ArgsError::MissingMessage { commit_type } => ArgsFailure::MissingMessage(commit_type@),
            ArgsError::InvalidType { given } => ArgsFailure::InvalidType(given@),
            ArgsError::Usage => ArgsFailure::Usage,
        }
    }
}

pub open spec fn opt_seq(o: Option<String>) -> Option<Seq<char>> {
    match o {
        Some(s) => Some(s@),
        None => None,
    }
}

pub open spec fn opt_str_view(o: Option<&str>) -> Option<Seq<char>> {
    match o {
        Some(s) => Some(s@),
        None => None,
    }
}

/// What the arguments select: the commit type and the message, each possibly
/// absent, or why they select nothing.
/// `--ai` alone lets the model choose everything; a known type needs a message
/// or `--ai`; a single word that is no type is a raw message; a word that is no
/// type followed by a message is refused as a mistyped type.
pub open spec fn resolve(first: Option<Seq<char>>, message: Option<Seq<char>>, ai: bool) -> Result<
    (Option<Seq<char>>, Option<Seq<char>>),
    ArgsFailure,
> {
    match first {
        None => if message is None && ai {
            Ok((None, None))
        } else {
            Err(ArgsFailure::Usage)
        },
        Some(f) => if commit_types().contains(f) {
            if !ai && message is None {
                Err(ArgsFailure::MissingMessage(f))
            } else {
                Ok((Some(f), message))
            }
        } else {
            match message {
                None => if !ai {
                    Ok((None, Some(f)))
                } else {
                    Err(ArgsFailure::Usage)
                },
                Some(_) => Err(ArgsFailure::InvalidType(f)),
            }
        },
    }
}

fn as_opt_str(o: &Option<String>) -> (r: Option<&str>)
    ensures
        opt_str_view(r) == opt_seq(*o),
{
    match o {
        Some(s) => Some(s.as_str()),
        None => None,
    }
}

fn owned(s: &str) -> (r: String)
    ensures
        r@ == s@,
{
    let mut r = String::new();
    r.append(s);
    assert(r@ =~= s@);
    r
}

/// Selects the commit type and message from the arguments.
pub fn resolve_args(cli: &Cli) -> (r: Result<(Option<&str>, Option<&str>), ArgsError>)
    ensures
        match r {
            Ok((t, m)) => resolve(opt_seq(cli.first), opt_seq(cli.message), cli.ai) == Ok::<
                (Option<Seq<char>>, Option<Seq<char>>),
                ArgsFailure,
            >((opt_str_view(t), opt_str_view(m))),
            Err(e) => resolve(opt_seq(cli.first), opt_seq(cli.message), cli.ai) == Err::<
                (Option<Seq<char>>, Option<Seq<char>>),
                ArgsFailure,
            >(e@),
        },
{
    let first = as_opt_str(&cli.first);
    let message = as_opt_str(&cli.message);
    match first {
        None => {
            if message.is_none() && cli.ai {
                Ok((None, None))
            } else {
                Err(ArgsError::Usage)
            }
        },
        Some(f) => {
            if is_commit_type(f) {
                if !cli.ai && message.is_none() {
                    Err(ArgsError::MissingMessage { commit_type: owned(f) })
                } else {
                    Ok((Some(f), message))
                }
            } else {
                match message {
                    None => {
                        if !cli.ai {
                            Ok((None, Some(f)))
                        } else {
                            Err(ArgsError::Usage)
                        }
                    },
                    Some(_) => Err(ArgsError::InvalidType { given: owned(f) }),
                }
            }
        },
    }
}

/// The text that reports an `ArgsError`.
pub open spec fn args_error_text(e: ArgsFailure) -> Seq<char> {
    match e {
        ArgsFailure::MissingMessage(t) => "'"@ + t + "' requires a message or --ai"@,
        ArgsFailure::InvalidType(bad) => "'"@ + bad + "' is not a valid commit type. Valid: "@ + join(
            commit_types(),
            ", "@,
        ),
        ArgsFailure::Usage => "usage:\n  gup <type> <message>\n  gup <type> --ai\n  gup --ai\n\nTypes: "@
            + join(commit_types(), ", "@),
    }
}

impl ArgsError {
    /// The text that reports this error.
    pub fn message(&self) -> (r: String)
        ensures
            r@ == args_error_text(self@),
    {
        let mut r = String::new();
        match self {
            ArgsError::MissingMessage { commit_type } => {
                r.append("'");
                r.append(commit_type.as_str());
                r.append("' requires a message or --ai");
            },
            ArgsError::InvalidType { given } => {
                r.append("'");
                r.append(given.as_str());
                r.append("' is not a valid commit type. Valid: ");
                let l = types_list();
                r.append(l.as_str());
            },
            ArgsError::Usage => {
                r.append("usage:\n  gup <type> <message>\n  gup <type> --ai\n  gup --ai\n\nTypes: ");
                let l = types_list();
                r.append(l.as_str());
            },
        }
        assert(r@ =~= args_error_text(self@));
        r
    }
}

/// The message committed without the review screen: `"<type>: <body>"` when a
/// type was selected, the body alone otherwise.
pub open spec fn direct_message(commit_type: Option<Seq<char>>, body: Seq<char>) -> Seq<char> {
    match commit_type {
        Some(t) => t + seq![':', ' '] + body,
        None => body,
    }
}

/// Assembles the message committed without the review screen.
pub fn compose_message(commit_type: Option<&str>, body: &str) -> (r: String)
    ensures
        r@ == direct_message(opt_str_view(commit_type), body@),
{
    let mut r = String::new();
    match commit_type {
        Some(t) => {
            r.append(t);
            push_char(&mut r, ':');
            push_char(&mut r, ' ');
        },
        None => {},
    }
    r.append(body);
    assert(r@ =~= direct_message(opt_str_view(commit_type), body@));
    r
}

/// Accepted arguments always leave something to commit: without `--ai` there
/// is a message, and a selected type is a conventional commit type.
pub proof fn lemma_accepted_args_have_message(
    first: Option<Seq<char>>,
    message: Option<Seq<char>>,
    ai: bool,
)
    ensures
        resolve(first, message, ai) matches Ok((t, m)) ==> {
            &&& (!ai ==> m is Some)
            &&& (t matches Some(ty) ==> commit_types().contains(ty))
        },
{
}

/// What the tool has selected to do: the type and message from the
/// arguments, whether the model writes the message, whether to push.
pub struct RunPlan {
    pub commit_type: Option<String>,
    pub message: Option<String>,
    pub ai: bool,
    pub no_push: bool,
}

/// What has just happened while the tool runs.
pub enum RunEvent {
    /// The tool starts.
    Begin,
    /// All changes were staged.
    StagedAll,
    /// The check for staged changes finished.
    StagedChecked { has_changes: bool },
    /// The model wrote this message (with a type, its description).
    Generated(String),
    /// The commit was made.
    Committed,
    /// The commit was pushed.
    Pushed,
}

/// What the tool does next.
pub enum RunAction {
    StageAll,
    CheckStaged,
    /// Read the staged diff and let the model write the message.
    GenerateMessage,
    /// Commit with this message.
    Commit(String),
    Push,
    /// Stop: the work is done.
    Finish,
    /// Stop: there is nothing to commit.
    NothingToCommit,
}

/// The mathematical form of a `RunAction`.
pub enum RunActionView {
    StageAll,
    CheckStaged,
    GenerateMessage,
    Commit(Seq<char>),
    Push,
    Finish,
    NothingToCommit,
}

impl View for RunAction {
    type V = RunActionView;

    open spec fn view(&self) -> RunActionView {
        match self {
            RunAction::StageAll => RunActionView::StageAll,
            RunAction::CheckStaged => RunActionView::CheckStaged,
            RunAction::GenerateMessage => RunActionView::GenerateMessage,
            RunAction::Commit(m) => RunActionView::Commit(m@),
            RunAction::Push => RunActionView::Push,
            RunAction::Finish => RunActionView::Finish,
            RunAction::NothingToCommit => RunActionView::NothingToCommit,
        }
    }
}

/// The order of the work: stage everything, check that something is staged
/// (stop otherwise), let the model write the message or take the typed one,
/// commit, and push unless `--no-push` was given.
pub open spec fn next_action(p: RunPlan, e: RunEvent) -> RunActionView {
    match e {
        RunEvent::Begin => RunActionView::StageAll,
        RunEvent::StagedAll => RunActionView::CheckStaged,
        RunEvent::StagedChecked { has_changes } => if !has_changes {
            RunActionView::NothingToCommit
        } else if p.ai {
            RunActionView::GenerateMessage
        } else {
            RunActionView::Commit(direct_message(opt_seq(p.commit_type), p.message->0@))
        },
        RunEvent::Generated(body) => RunActionView::Commit(
            direct_message(opt_seq(p.commit_type), body@),
        ),
        RunEvent::Committed => if p.no_push {
            RunActionView::Finish
        } else {
            RunActionView::Push
        },
        RunEvent::Pushed => RunActionView::Finish,
    }
}

fn copy_opt_str(o: Option<&str>) -> (r: Option<String>)
    ensures
        opt_seq(r) == opt_str_view(o),
{
    match o {
        Some(s) => Some(owned(s)),
        None => None,
    }
}

impl RunPlan {
    /// The plan for the arguments `cli` and the type and message they select.
    pub fn new(cli: &Cli, commit_type: Option<&str>, message: Option<&str>) -> (p: RunPlan)
        ensures
            opt_seq(p.commit_type) == opt_str_view(commit_type),
            opt_seq(p.message) == opt_str_view(message),
            p.ai == cli.ai,
            p.no_push == cli.no_push,
    {
        RunPlan {
            commit_type: copy_opt_str(commit_type),
            message: copy_opt_str(message),
            ai: cli.ai,
            no_push: cli.no_push,
        }
    }

    /// What to do after `event`.
    pub fn next(&self, event: &RunEvent) -> (a: RunAction)
        requires
            *event matches RunEvent::StagedChecked { has_changes } && has_changes && !self.ai
                ==> self.message is Some,
        ensures
            a@ == next_action(*self, *event),
    {
        match event {
            RunEvent::Begin => RunAction::StageAll,
            RunEvent::StagedAll => RunAction::CheckStaged,
            RunEvent::StagedChecked { has_changes } => {
                if !*has_changes {
                    RunAction::NothingToCommit
                } else if self.ai {
                    RunAction::GenerateMessage
                } else {
                    let body = match &self.message {
                        Some(m) => m.as_str(),
                        None => "",
                    };
                    RunAction::Commit(compose_message(as_opt_str(&self.commit_type), body))
                }
            },
            RunEvent::Generated(body) => RunAction::Commit(
                compose_message(as_opt_str(&self.commit_type), body.as_str()),
            ),
            RunEvent::Committed => {
                if self.no_push {
                    RunAction::Finish
                } else {
                    RunAction::Push
                }
            },
            RunEvent::Pushed => RunAction::Finish,
        }
    }
}

/// The text that reports an empty commit.
pub fn nothing_to_commit() -> (r: &'static str)
    ensures
        r@ == "nothing to commit — working tree clean"@,
{
    "nothing to commit — working tree clean"
}

/// A plan made from accepted arguments can always take its next step: without
/// `--ai` it has a message to commit.
pub proof fn lemma_accepted_plan_can_run(
    first: Option<Seq<char>>,
    message: Option<Seq<char>>,
    ai: bool,
    p: RunPlan,
)
    requires
        resolve(first, message, ai) matches Ok((t, m)) && opt_seq(p.message) == m && p.ai == ai,
    ensures
        !p.ai ==> p.message is Some,
{
}

/// A run stages before it checks, commits only once something is staged, and
/// pushes only without `--no-push`.
pub proof fn lemma_run_order(p: RunPlan, e: RunEvent)
    ensures
        next_action(p, e) is CheckStaged ==> e is StagedAll,
        next_action(p, e) is Commit ==> (e matches RunEvent::StagedChecked { has_changes }
            && has_changes) || e is Generated,
        next_action(p, e) is Push ==> e is Committed && !p.no_push,
        p.no_push ==> !(next_action(p, e) is Push),
{
}

/// A plan with a commit type commits `"<type>: <text>"`: the generated text
/// after `--ai`, and the typed message otherwise. Without a type the text is
/// committed as it is.
pub proof fn lemma_typed_commit_keeps_type(p: RunPlan, t: Seq<char>, generated: String)
    ensures
        opt_seq(p.commit_type) == Some(t) ==> next_action(p, RunEvent::Generated(generated))
            == RunActionView::Commit(t + seq![':', ' '] + generated@),
        opt_seq(p.commit_type) == Some(t) && !p.ai && p.message is Some ==> next_action(
            p,
            RunEvent::StagedChecked { has_changes: true },
        ) == RunActionView::Commit(t + seq![':', ' '] + p.message->0@),
        p.commit_type is None ==> next_action(p, RunEvent::Generated(generated))
            == RunActionView::Commit(generated@),
{
}

} // verus!
