//! What the tool asks the language model, and how it reads the answer: the
//! prompts, the handling of each streamed chunk, and the removal of a Markdown
//! code fence around a generated message.
use vstd::prelude::*;

use crate::text::{
    append_joined, chars_of, join, line_ranges, lines, pieces, range_starts_with, ranges_within,
    starts_with, string_of, trim, trim_range,
};

verus! {

/// "```", which opens and closes a Markdown code fence.
pub open spec fn fence() -> Seq<char> {
    seq!['`', '`', '`']
}

/// `strip_fences` would slice out of bounds: a fenced text that is a single
/// line holding only the fence.
pub open spec fn is_lone_fence(s: Seq<char>) -> bool {
    starts_with(s, fence()) && lines(s).len() == 1 && trim(lines(s)[0]) == fence()
}

/// The message inside a Markdown code fence. Text that does not start with
/// "```" is kept as it is. Otherwise the first line (the fence, with any
/// language tag) is dropped, and so is the last line when it is a closing fence;
/// the lines in between are joined with newlines and trimmed.
pub open spec fn unfenced(s: Seq<char>) -> Seq<char> {
    if !starts_with(s, fence()) {
        s
    } else {
        let ls = lines(s);
        let end = if ls.len() > 0 && trim(ls.last()) == fence() {
            ls.len() - 1
        } else {
            ls.len() as int
        };
        trim(join(ls.subrange(1, end), seq!['\n']))
    }
}

/// Whether `strip_fences` accepts `s`.
pub fn strip_fences_accepts(s: &str) -> (r: bool)
    ensures
        r == !is_lone_fence(s@),
{
    let v = chars_of(s);
    let n = v.len();
    assert(v@.subrange(0, n as int) =~= s@);
    let f = vec!['`', '`', '`'];
    assert(f@ =~= fence());
    if !range_starts_with(&v, 0, n, &f) {
        return true;
    }
    let ls = line_ranges(&v, 0, n);
    if ls.len() != 1 {
        return true;
    }
    let (a, b) = ls[0];
    assert(0 <= ls@[0].0 <= ls@[0].1 <= n);
    let (t0, t1) = trim_range(&v, a, b);
    !range_is(&v, t0, t1, &f)
}

/// Whether `v[a..b]` is `p`.
fn range_is(v: &Vec<char>, a: usize, b: usize, p: &Vec<char>) -> (r: bool)
    requires
        a <= b <= v.len(),
    ensures
        r == (v@.subrange(a as int, b as int) == p@),
{
    if b - a != p.len() {
        return false;
    }
    let r = range_starts_with(v, a, b, p);
    assert(v@.subrange(a as int, b as int).take(p.len() as int) =~= v@.subrange(a as int, b as int));
    r
}

/// Removes a Markdown code fence around a generated message.
pub fn strip_fences(s: &str) -> (r: String)
    requires
        !is_lone_fence(s@),
    ensures
        r@ == unfenced(s@),
{
    let v = chars_of(s);
    let n = v.len();
    assert(v@.subrange(0, n as int) =~= s@);
    let f = vec!['`', '`', '`'];
    assert(f@ =~= fence());
    if !range_starts_with(&v, 0, n, &f) {
        return string_of(&v, 0, n);
    }
    let ls = line_ranges(&v, 0, n);
    let ghost lsv = pieces(v@, ls@);
    let count = ls.len();
    let closed = if count > 0 {
        let (a, b) = ls[count - 1];
        assert(0 <= ls@[count - 1].0 <= ls@[count - 1].1 <= n);
        assert(lsv.last() == v@.subrange(a as int, b as int));
        let (t0, t1) = trim_range(&v, a, b);
        range_is(&v, t0, t1, &f)
    } else {
        false
    };
    let end = if closed {
        count - 1
    } else {
        count
    };
    let nl = "\n";
    proof {
        reveal_strlit("\n");
    }
    assert(nl@ =~= seq!['\n']);
    let mut joined = String::new();
    assert(ranges_within(ls@, 0, v.len() as int));
    append_joined(&mut joined, &v, &ls, 1, end, nl);
    let w = chars_of(joined.as_str());
    let m = w.len();
    assert(w@.subrange(0, m as int) =~= w@);
    let (t0, t1) = trim_range(&w, 0, m);
    assert(joined@ =~= join(lsv.subrange(1, end as int), seq!['\n']));
    string_of(&w, t0, t1)
}

/// The part of the hint prompt that fixes or leaves open the commit type.
pub open spec fn type_rule(commit_type: Option<Seq<char>>) -> Seq<char> {
    match commit_type {
        Some(t) => "The commit type is fixed: '"@ + t + "'. Output ONLY the description after '"@ + t
            + ": ' — do NOT include the type prefix in your response."@,
        None => "Choose the most appropriate conventional commit type (feat, fix, docs, chore, refactor, test, style, perf, ci, build, revert). Output the full message as <type>: <description>."@,
    }
}

/// The line of the hint prompt that names a non-empty scope, or nothing.
pub open spec fn scope_note(scope: Option<Seq<char>>) -> Seq<char> {
    match scope {
        Some(s) => if s.len() > 0 {
            "The commit scope is '"@ + s
                + "' — factor this into your description if relevant, but do NOT include the type or scope prefix in your output.\n"@
        } else {
            seq![]
        },
        None => seq![],
    }
}

/// The section of the hint prompt that passes on non-empty user feedback, or nothing.
pub open spec fn hint_section(hint: Option<Seq<char>>) -> Seq<char> {
    match hint {
        Some(h) => if h.len() > 0 {
            "\nUser feedback on previous attempt: "@ + h + "\n"@
        } else {
            seq![]
        },
        None => seq![],
    }
}

/// The prompt that asks for a commit message for `diff`.
pub open spec fn hint_prompt(
    diff: Seq<char>,
    commit_type: Option<Seq<char>>,
    hint: Option<Seq<char>>,
    scope: Option<Seq<char>>,
) -> Seq<char> {
    "Generate a conventional commit message for the following staged diff.\n"@ + type_rule(
        commit_type,
    ) + "\n"@ + scope_note(scope)
        + "Rules:\n- Max 72 characters total\n- Imperative mood (\"add\", not \"added\")\n- Be specific, not generic\n- Output ONLY the commit message line, nothing else\n"@
        + hint_section(hint) + "\nDiff:\n"@ + diff
}

/// The prompt that asks for a body explaining the change with subject `subject`.
pub open spec fn body_prompt(diff: Seq<char>, subject: Seq<char>) -> Seq<char> {
    "Write a short paragraph explaining WHY this change was made.\nCommit subject: \""@ + subject
        + "\"\nRules:\n- 2-4 sentences\n- Explain the motivation and context, not what changed (the subject covers that)\n- Wrap lines at 72 characters\n- Plain prose, no bullets, no markdown\n- Output ONLY the body paragraph, nothing else\nDiff:\n"@
        + diff
}

pub open spec fn opt_view(o: Option<&str>) -> Option<Seq<char>> {
    match o {
        Some(t) => Some(t@),
        None => None,
    }
}

/// The prompt that asks the model for a commit message for `diff`: with the
/// type fixed or left to the model, naming the scope and passing on feedback
/// on an earlier attempt when they are given and not empty.
pub fn generate_with_hint(
    diff: &str,
    commit_type: Option<&str>,
    hint: Option<&str>,
    scope: Option<&str>,
) -> (prompt: String)
    ensures
        prompt@ == hint_prompt(diff@, opt_view(commit_type), opt_view(hint), opt_view(scope)),
{
    let mut p = String::new();
    p.append("Generate a conventional commit message for the following staged diff.\n");
    match commit_type {
        Some(t) => {
            p.append("The commit type is fixed: '");
            p.append(t);
            p.append("'. Output ONLY the description after '");
            p.append(t);
            p.append(": ' — do NOT include the type prefix in your response.");
        },
        None => {
            p.append(
                "Choose the most appropriate conventional commit type (feat, fix, docs, chore, refactor, test, style, perf, ci, build, revert). Output the full message as <type>: <description>.",
            );
        },
    }
    p.append("\n");
    match scope {
        Some(s) => {
            if !s.is_empty() {
                p.append("The commit scope is '");
                p.append(s);
                p.append(
                    "' — factor this into your description if relevant, but do NOT include the type or scope prefix in your output.\n",
                );
            }
        },
        None => {},
    }
    p.append(
        "Rules:\n- Max 72 characters total\n- Imperative mood (\"add\", not \"added\")\n- Be specific, not generic\n- Output ONLY the commit message line, nothing else\n",
    );
    match hint {
        Some(h) => {
            if !h.is_empty() {
                p.append("\nUser feedback on previous attempt: ");
                p.append(h);
                p.append("\n");
            }
        },
        None => {},
    }
    p.append("\nDiff:\n");
    p.append(diff);
    assert(p@ =~= hint_prompt(diff@, opt_view(commit_type), opt_view(hint), opt_view(scope)));
    p
}

/// The prompt that asks the model for a body explaining why the change with
/// subject `subject` was made.
pub fn generate_body(diff: &str, subject: &str) -> (prompt: String)
    ensures
        prompt@ == body_prompt(diff@, subject@),
{
    let mut p = String::new();
    p.append("Write a short paragraph explaining WHY this change was made.\nCommit subject: \"");
    p.append(subject);
    p.append(
        "\"\nRules:\n- 2-4 sentences\n- Explain the motivation and context, not what changed (the subject covers that)\n- Wrap lines at 72 characters\n- Plain prose, no bullets, no markdown\n- Output ONLY the body paragraph, nothing else\nDiff:\n",
    );
    p.append(diff);
    assert(p@ =~= body_prompt(diff@, subject@));
    p
}

/// One line of the model's streamed answer, as JSON gives it: a piece of the
/// answer and whether the answer is complete.
pub struct StreamChunk {
    pub response: String,
    pub done: bool,
}

/// Where reading the model's stream stands: whether the text just passed on
/// was the last, and whether the stream is over.
pub struct StreamState {
    pub stop_after_send: bool,
    pub finished: bool,
}

/// What happened while reading the stream.
pub enum StreamEvent {
    /// The request could not be sent; the text describes why.
    RequestFailed(String),
    /// A line could not be read.
    ReadFailed(String),
    /// A line was read.
    Line(String),
    /// A line was not a chunk.
    DecodeFailed(String),
    /// A line was this chunk.
    Decoded(StreamChunk),
    /// Passing on text succeeded or failed (nobody listens any more).
    Sent { delivered: bool },
    /// There are no more lines.
    Ended,
}

/// What to do next with the stream.
pub enum StreamAction {
    /// Read the next line.
    Continue,
    /// Decode this line as a chunk.
    Decode(String),
    /// Pass this text on.
    Send(String),
    /// Pass this error on; the stream is over.
    SendError(String),
    /// The stream is over.
    Stop,
}

/// The reading of the stream: any failure is passed on as an error and ends
/// it; blank lines are skipped; a chunk's non-empty text is passed on; the
/// stream ends at the final chunk, when nobody listens any more, and when the
/// lines run out. Once over, it stays over.
pub open spec fn stream_next(s: StreamState, e: StreamEvent) -> (StreamState, StreamAction) {
    let over = StreamState { finished: true, ..s };
    if s.finished {
        (s, StreamAction::Stop)
    } else {
        match e {
            StreamEvent::RequestFailed(m) => (over, StreamAction::SendError(m)),
            StreamEvent::ReadFailed(m) => (over, StreamAction::SendError(m)),
            StreamEvent::DecodeFailed(m) => (over, StreamAction::SendError(m)),
            StreamEvent::Line(l) => if l@.len() == 0 {
                (s, StreamAction::Continue)
            } else {
                (s, StreamAction::Decode(l))
            },
            StreamEvent::Decoded(c) => if c.response@.len() > 0 {
                (StreamState { stop_after_send: c.done, ..s }, StreamAction::Send(c.response))
            } else if c.done {
                (over, StreamAction::Stop)
            } else {
                (s, StreamAction::Continue)
            },
            StreamEvent::Sent { delivered } => if !delivered || s.stop_after_send {
                (over, StreamAction::Stop)
            } else {
                (s, StreamAction::Continue)
            },
            StreamEvent::Ended => (over, StreamAction::Stop),
        }
    }
}

impl StreamState {
    /// The state before the request is sent.
    pub fn new() -> (s: StreamState)
        ensures
            !s.stop_after_send,
            !s.finished,
    {
        StreamState { stop_after_send: false, finished: false }
    }

    /// Takes in what happened and says what to do next.
    pub fn step(&mut self, e: StreamEvent) -> (a: StreamAction)
        ensures
            (*final(self), a) == stream_next(*old(self), e),
    {
        if self.finished {
            return StreamAction::Stop;
        }
        match e {
            StreamEvent::RequestFailed(m) => {
                self.finished = true;
                StreamAction::SendError(m)
            },
            StreamEvent::ReadFailed(m) => {
                self.finished = true;
                StreamAction::SendError(m)
            },
            StreamEvent::DecodeFailed(m) => {
                self.finished = true;
                StreamAction::SendError(m)
            },
            StreamEvent::Line(l) => {
                if l.as_str().is_empty() {
                    StreamAction::Continue
                } else {
                    StreamAction::Decode(l)
                }
            },
            StreamEvent::Decoded(c) => {
                if !c.response.as_str().is_empty() {
                    self.stop_after_send = c.done;
                    StreamAction::Send(c.response)
                } else if c.done {
                    self.finished = true;
                    StreamAction::Stop
                } else {
                    StreamAction::Continue
                }
            },
            StreamEvent::Sent { delivered } => {
                if !delivered || self.stop_after_send {
                    self.finished = true;
                    StreamAction::Stop
                } else {
                    StreamAction::Continue
                }
            },
            StreamEvent::Ended => {
                self.finished = true;
                StreamAction::Stop
            },
        }
    }
}

/// The actions for a run of events, from state `s`.
pub open spec fn stream_run(s: StreamState, events: Seq<StreamEvent>) -> Seq<StreamAction>
    decreases events.len(),
{
    if events.len() == 0 {
        seq![]
    } else {
        let (t, a) = stream_next(s, events[0]);
        seq![a] + stream_run(t, events.drop_first())
    }
}

proof fn lemma_over_stays_over(s: StreamState, events: Seq<StreamEvent>)
    requires
        s.finished,
    ensures
        forall|k: int| 0 <= k < stream_run(s, events).len() ==> #[trigger] stream_run(s, events)[k]
            is Stop,
        stream_run(s, events).len() == events.len(),
    decreases events.len(),
{
    if events.len() > 0 {
        lemma_over_stays_over(s, events.drop_first());
        let r = stream_run(s, events);
        assert forall|k: int| 0 <= k < r.len() implies #[trigger] r[k] is Stop by {
            if k > 0 {
                assert(r[k] == stream_run(s, events.drop_first())[k - 1]);
            }
        }
    }
}

/// After an error is passed on, or after the stream stops, it only stops: at
/// most one error is passed on, nothing follows it, and a failed send ends
/// the stream.
pub proof fn lemma_stream_ends_for_good(s: StreamState, events: Seq<StreamEvent>, i: int, j: int)
    requires
        0 <= i < j < events.len(),
        stream_run(s, events)[i] is SendError || stream_run(s, events)[i] is Stop,
    ensures
        stream_run(s, events)[j] is Stop,
        stream_run(s, events).len() == events.len(),
    decreases events.len(),
{
    let (t, a) = stream_next(s, events[0]);
    let rest = events.drop_first();
    lemma_stream_length(t, rest);
    if i == 0 {
        assert(t.finished);
        lemma_over_stays_over(t, rest);
        assert(stream_run(s, events)[j] == stream_run(t, rest)[j - 1]);
    } else {
        assert(stream_run(s, events)[i] == stream_run(t, rest)[i - 1]);
        lemma_stream_ends_for_good(t, rest, i - 1, j - 1);
        assert(stream_run(s, events)[j] == stream_run(t, rest)[j - 1]);
    }
}

proof fn lemma_stream_length(s: StreamState, events: Seq<StreamEvent>)
    ensures
        stream_run(s, events).len() == events.len(),
    decreases events.len(),
{
    if events.len() > 0 {
        lemma_stream_length(stream_next(s, events[0]).0, events.drop_first());
    }
}

/// A send that nobody received ends the stream.
pub proof fn lemma_failed_send_stops(s: StreamState)
    ensures
        stream_next(s, StreamEvent::Sent { delivered: false }).1 is Stop,
        stream_next(s, StreamEvent::Sent { delivered: false }).0.finished,
{
}

/// The state before anything happened.
pub open spec fn stream_start() -> StreamState {
    StreamState { stop_after_send: false, finished: false }
}

/// Events after which nothing more is passed on: a failure, the end of the
/// lines, a send nobody received, and a final chunk.
pub open spec fn ends_stream(e: StreamEvent) -> bool {
    match e {
        StreamEvent::RequestFailed(_) => true,
        StreamEvent::ReadFailed(_) => true,
        StreamEvent::DecodeFailed(_) => true,
        StreamEvent::Ended => true,
        StreamEvent::Sent { delivered } => !delivered,
        StreamEvent::Decoded(c) => c.done,
        StreamEvent::Line(_) => false,
    }
}

/// Each text passed on is followed by the report of how the send went.
pub open spec fn sends_answered(s: StreamState, events: Seq<StreamEvent>) -> bool {
    forall|i: int|
        0 <= i < events.len() - 1 && (#[trigger] stream_run(s, events)[i]) is Send ==> events[i
            + 1] is Sent
}

proof fn lemma_run_shift(s: StreamState, events: Seq<StreamEvent>)
    requires
        events.len() > 0,
    ensures
        stream_run(s, events).len() == events.len(),
        stream_run(s, events)[0] == stream_next(s, events[0]).1,
        forall|k: int|
            0 <= k < events.len() - 1 ==> stream_run(s, events)[k + 1] == #[trigger] stream_run(
                stream_next(s, events[0]).0,
                events.drop_first(),
            )[k],
{
    lemma_stream_length(s, events);
    lemma_stream_length(stream_next(s, events[0]).0, events.drop_first());
}

proof fn lemma_sends_not_empty(s: StreamState, events: Seq<StreamEvent>)
    ensures
        forall|k: int|
            0 <= k < stream_run(s, events).len() ==> (#[trigger] stream_run(s, events)[k] matches StreamAction::Send(
                t,
            ) ==> t@.len() > 0),
    decreases events.len(),
{
    if events.len() > 0 {
        let t = stream_next(s, events[0]).0;
        lemma_run_shift(s, events);
        lemma_sends_not_empty(t, events.drop_first());
        let r = stream_run(s, events);
        assert forall|k: int| 0 <= k < r.len() implies (#[trigger] r[k] matches StreamAction::Send(
            x,
        ) ==> x@.len() > 0) by {
            if k > 0 {
                assert(r[k] == stream_run(t, events.drop_first())[k - 1]);
            }
        }
    }
}

/// A state that is waiting for the report of a final send gets it next.
pub open spec fn pending_answered(s: StreamState, events: Seq<StreamEvent>) -> bool {
    !s.finished && s.stop_after_send && events.len() > 0 ==> events[0] is Sent
}

proof fn lemma_quiet_after_end(s: StreamState, events: Seq<StreamEvent>)
    requires
        events.len() > 0,
        ends_stream(events[0]),
        sends_answered(s, events),
        pending_answered(s, events),
    ensures
        forall|j: int|
            1 <= j < events.len() ==> !(#[trigger] stream_run(s, events)[j] is Send) && !(
            stream_run(s, events)[j] is SendError),
{
    let (t, a) = stream_next(s, events[0]);
    let rest = events.drop_first();
    lemma_run_shift(s, events);
    if t.finished {
        lemma_over_stays_over(t, rest);
    } else {
        // Only a final chunk with text leaves the stream open: its send is
        // answered next, which closes it.
        assert(a is Send);
        assert(t.stop_after_send);
        if events.len() > 1 {
            assert(stream_run(s, events)[0] is Send);
            assert(events[1] is Sent);
            let (u, b) = stream_next(t, rest[0]);
            assert(u.finished);
            lemma_run_shift(t, rest);
            lemma_over_stays_over(u, rest.drop_first());
            assert forall|j: int| 1 <= j < events.len() implies !(#[trigger] stream_run(
                s,
                events,
            )[j] is Send) && !(stream_run(s, events)[j] is SendError) by {
                assert(stream_run(s, events)[j] == stream_run(t, rest)[j - 1]);
                if j > 1 {
                    assert(stream_run(t, rest)[j - 1] == stream_run(u, rest.drop_first())[j - 2]);
                }
            }
        }
    }
}

proof fn lemma_nothing_after_end(s: StreamState, events: Seq<StreamEvent>, i: int, j: int)
    requires
        0 <= i < j < events.len(),
        ends_stream(events[i]),
        sends_answered(s, events),
        pending_answered(s, events),
    ensures
        !(stream_run(s, events)[j] is Send) && !(stream_run(s, events)[j] is SendError),
    decreases events.len(),
{
    if i == 0 {
        lemma_quiet_after_end(s, events);
    } else {
        let (t, a) = stream_next(s, events[0]);
        let rest = events.drop_first();
        lemma_run_shift(s, events);
        assert forall|k: int|
            0 <= k < rest.len() - 1 && (#[trigger] stream_run(t, rest)[k]) is Send implies rest[k
            + 1] is Sent by {
            assert(stream_run(s, events)[k + 1] == stream_run(t, rest)[k]);
            assert(events[k + 2] == rest[k + 1]);
        }
        if !t.finished && t.stop_after_send && rest.len() > 0 {
            assert(a is Send);
            assert(stream_run(s, events)[0] is Send);
        }
        assert(rest[i - 1] == events[i]);
        lemma_nothing_after_end(t, rest, i - 1, j - 1);
        assert(stream_run(s, events)[j] == stream_run(t, rest)[j - 1]);
    }
}

/// The reading of a whole stream, from the start, where each text passed on
/// is followed by the report of its send: every text passed on is non-empty;
/// after an error is passed on or the stream stops, it only stops, so at most
/// one error is passed on and it is the last thing passed on; and nothing is
/// passed on after a final chunk's own text, a failure, the end of the lines
/// or a send nobody received.
#[verifier::rlimit(40)]
pub proof fn lemma_stream_law(events: Seq<StreamEvent>)
    requires
        sends_answered(stream_start(), events),
    ensures
        stream_run(stream_start(), events).len() == events.len(),
        forall|k: int|
            0 <= k < events.len() ==> (#[trigger] stream_run(stream_start(), events)[k] matches StreamAction::Send(
                t,
            ) ==> t@.len() > 0),
        forall|i: int, j: int|
            #![trigger stream_run(stream_start(), events)[i], stream_run(stream_start(), events)[j]]
            0 <= i < j < events.len() && (stream_run(stream_start(), events)[i] is SendError
                || stream_run(stream_start(), events)[i] is Stop) ==> stream_run(
                stream_start(),
                events,
            )[j] is Stop,
        forall|i: int, j: int|
            #![trigger events[i], stream_run(stream_start(), events)[j]]
            0 <= i < j < events.len() && ends_stream(events[i]) ==> !(stream_run(
                stream_start(),
                events,
            )[j] is Send) && !(stream_run(stream_start(), events)[j] is SendError),
{
    let s = stream_start();
    lemma_stream_length(s, events);
    lemma_sends_not_empty(s, events);
    assert forall|i: int, j: int|
        #![trigger stream_run(s, events)[i], stream_run(s, events)[j]]
        0 <= i < j < events.len() && (stream_run(s, events)[i] is SendError || stream_run(
            s,
            events,
        )[i] is Stop) implies stream_run(s, events)[j] is Stop by {
        lemma_stream_ends_for_good(s, events, i, j);
    }
    assert forall|i: int, j: int|
        #![trigger events[i], stream_run(s, events)[j]]
        0 <= i < j < events.len() && ends_stream(events[i]) implies !(stream_run(s, events)[j] is Send)
        && !(stream_run(s, events)[j] is SendError) by {
        lemma_nothing_after_end(s, events, i, j);
    }
}

/// While the stream is open, every chunk with text is passed on unchanged,
/// whatever its characters, and a chunk without text passes nothing on.
pub proof fn lemma_chunk_text_passed_on(s: StreamState, c: StreamChunk)
    ensures
        !s.finished && c.response@.len() > 0 ==> stream_next(s, StreamEvent::Decoded(c)).1
            == StreamAction::Send(c.response),
        !(stream_next(s, StreamEvent::Decoded(c)).1 is Send) || c.response@.len() > 0,
{
}

/// The note on the scope, as the prompt carries it.
pub open spec fn scope_note_text(sc: Seq<char>) -> Seq<char> {
    "The commit scope is '"@ + sc
        + "' — factor this into your description if relevant, but do NOT include the type or scope prefix in your output.\n"@
}

/// A non-empty scope is always named in the prompt, whatever the diff, the
/// commit type and the feedback.
pub proof fn lemma_prompt_names_scope(
    diff: Seq<char>,
    commit_type: Option<Seq<char>>,
    hint: Option<Seq<char>>,
    sc: Seq<char>,
)
    requires
        sc.len() > 0,
    ensures
        exists|k: int|
            0 <= k && k + scope_note_text(sc).len() <= hint_prompt(diff, commit_type, hint, Some(sc)).len()
                && #[trigger] hint_prompt(diff, commit_type, hint, Some(sc)).subrange(
                k,
                k + scope_note_text(sc).len(),
            ) == scope_note_text(sc),
{
    let head = "Generate a conventional commit message for the following staged diff.\n"@ + type_rule(
        commit_type,
    ) + "\n"@;
    let note = scope_note_text(sc);
    let p = hint_prompt(diff, commit_type, hint, Some(sc));
    let tail = "Rules:\n- Max 72 characters total\n- Imperative mood (\"add\", not \"added\")\n- Be specific, not generic\n- Output ONLY the commit message line, nothing else\n"@
        + hint_section(hint) + "\nDiff:\n"@ + diff;
    assert(scope_note(Some(sc)) == note);
    assert(p =~= head + note + tail);
    let k = head.len() as int;
    assert(p.subrange(k, k + note.len()) =~= note);
}

} // verus!
