//! The review screen as a state machine: the screen's state, the action each
//! key stands for, what an action does to the state, and which outside work
//! (generating a message or a body) it asks for. Drawing and waiting for keys
//! happen around it.
use vstd::prelude::*;

use crate::commit::{build_commit_message, message, opt_str, opt_string, parse_full, parse_full_commit};
use crate::git::FileStat;
use crate::text::{join, chars_of, first_line, first_line_range, line_ranges, lines, pieces, push_char, string_of};

verus! {

/// The number of frames of the progress spinner.
pub const SPINNER_FRAMES: usize = 10;

/// What the screen is doing.
pub enum Mode {
    /// Waiting for a generated message; `tick` is the spinner frame.
    Loading { tick: usize },
    /// Choosing between proceeding (0) and improving (1).
    Menu { selected: usize },
    /// Typing feedback for a new message.
    EditingImprove { input: String },
    /// Typing the scope.
    EditingScope { input: String },
    /// Typing the body.
    EditingBody { input: String },
}

/// The mathematical form of a `Mode`.
pub enum ModeView {
    Loading { tick: usize },
    Menu { selected: usize },
    EditingImprove(Seq<char>),
    EditingScope(Seq<char>),
    EditingBody(Seq<char>),
}

impl View for Mode {
    type V = ModeView;

    open spec fn view(&self) -> ModeView {
        match self {
            Mode::Loading { tick } => ModeView::Loading { tick: *tick },
            Mode::Menu { selected } => ModeView::Menu { selected: *selected },
            Mode::EditingImprove { input } => ModeView::EditingImprove(input@),
            Mode::EditingScope { input } => ModeView::EditingScope(input@),
            Mode::EditingBody { input } => ModeView::EditingBody(input@),
        }
    }
}

/// A key press, as far as the screen tells keys apart.
#[derive(PartialEq, Eq, Structural)]
pub enum Key {
    Left,
    Right,
    Enter,
    Esc,
    Backspace,
    Char(char),
    Other,
}

/// What a key press asks for.
#[derive(PartialEq, Eq, Structural)]
pub enum KeyAction {
    Ignore,
    Proceed,
    NavUp,
    NavDown,
    ToggleBreaking,
    StartEditingImprove,
    StartEditingScope,
    StartEditingBody,
    GenerateBody,
    InsertChar(char),
    DeleteChar,
    SubmitEditing,
    BackToMenu { restore_selected: usize },
    Cancel,
}

/// The state of the review screen. `msg` is the description alone; type,
/// scope and breaking mark are added when the message is assembled.
pub struct App {
    pub msg: String,
    pub scope: String,
    pub breaking: bool,
    pub body: String,
    /// A body is being generated.
    pub body_pending: bool,
    pub body_tick: usize,
    pub mode: Mode,
    pub commit_type: Option<String>,
    pub use_ai: bool,
}

/// The mathematical form of an `App`.
pub struct AppState {
    pub msg: Seq<char>,
    pub scope: Seq<char>,
    pub breaking: bool,
    pub body: Seq<char>,
    pub body_pending: bool,
    pub body_tick: usize,
    pub mode: ModeView,
    pub commit_type: Option<Seq<char>>,
    pub use_ai: bool,
}

impl View for App {
    type V = AppState;

    open spec fn view(&self) -> AppState {
        AppState {
            msg: self.msg@,
            scope: self.scope@,
            breaking: self.breaking,
            body: self.body@,
            body_pending: self.body_pending,
            body_tick: self.body_tick,
            mode: self.mode@,
            commit_type: opt_string(self.commit_type),
            use_ai: self.use_ai,
        }
    }
}

/// A request to generate a commit message.
pub struct GenerationRequest {
    pub commit_type: Option<String>,
    pub feedback: Option<String>,
    pub scope: Option<String>,
}

/// What the screen asks of the code around it after a key press.
pub enum Effect {
    /// Keep going.
    Continue,
    /// Commit this message.
    Finish(String),
    /// Stop without committing.
    Abort,
    /// Generate a message, then call `generation_done`.
    Generate(GenerationRequest),
    /// Generate a body for this subject, then call `body_done`.
    GenerateBody(String),
}

/// The mathematical form of an `Effect`.
pub enum EffectView {
    Continue,
    Finish(Seq<char>),
    Abort,
    Generate { commit_type: Option<Seq<char>>, feedback: Option<Seq<char>>, scope: Option<Seq<char>> },
    GenerateBody(Seq<char>),
}

impl View for Effect {
    type V = EffectView;

    open spec fn view(&self) -> EffectView {
        match self {
            Effect::Continue => EffectView::Continue,
            Effect::Finish(m) => EffectView::Finish(m@),
            Effect::Abort => EffectView::Abort,
            Effect::Generate(g) => EffectView::Generate {
                commit_type: opt_string(g.commit_type),
                feedback: opt_string(g.feedback),
                scope: opt_string(g.scope),
            },
            Effect::GenerateBody(s) => EffectView::GenerateBody(s@),
        }
    }
}

/// The action of a key while text is typed: Enter submits non-empty text, Esc
/// goes back to the menu with `back_selected` chosen, Backspace deletes and a
/// character is inserted.
pub open spec fn editing_action(input: Seq<char>, key: Key, back_selected: usize) -> KeyAction {
    match key {
        Key::Enter => if input.len() > 0 {
            KeyAction::SubmitEditing
        } else {
            KeyAction::Ignore
        },
        Key::Esc => KeyAction::BackToMenu { restore_selected: back_selected },
        Key::Backspace => KeyAction::DeleteChar,
        Key::Char(c) => KeyAction::InsertChar(c),
        _ => KeyAction::Ignore,
    }
}

/// The action of a key in each mode. Keys do nothing while loading. In the
/// menu, the arrows move the choice, `s`, `b` and `!` edit the scope, edit the
/// body and toggle the breaking mark, `B` generates a body, Enter proceeds or
/// starts improving, and Esc or `q` cancels. While typing feedback, Esc returns
/// to "Improve"; while typing scope or body, to "Proceed".
pub open spec fn action_for(mode: ModeView, key: Key) -> KeyAction {
    match mode {
        ModeView::Loading { .. } => KeyAction::Ignore,
        ModeView::Menu { selected } => match key {
            Key::Left => KeyAction::NavUp,
            Key::Right => KeyAction::NavDown,
            Key::Char(c) => if c == 's' {
                KeyAction::StartEditingScope
            } else if c == '!' {
                KeyAction::ToggleBreaking
            } else if c == 'b' {
                KeyAction::StartEditingBody
            } else if c == 'B' {
                KeyAction::GenerateBody
            } else if c == 'q' {
                KeyAction::Cancel
            } else {
                KeyAction::Ignore
            },
            Key::Enter => if selected == 0 {
                KeyAction::Proceed
            } else {
                KeyAction::StartEditingImprove
            },
            Key::Esc => KeyAction::Cancel,
            _ => KeyAction::Ignore,
        },
        ModeView::EditingImprove(input) => editing_action(input, key, 1),
        ModeView::EditingScope(input) => editing_action(input, key, 0),
        ModeView::EditingBody(input) => editing_action(input, key, 0),
    }
}

/// The action of a key while text is typed.
pub fn editing_key_action(input: &str, key: &Key, back_selected: usize) -> (r: KeyAction)
    ensures
        r == editing_action(input@, *key, back_selected),
{
    match key {
        Key::Enter => {
            if !input.is_empty() {
                KeyAction::SubmitEditing
            } else {
                KeyAction::Ignore
            }
        },
        Key::Esc => KeyAction::BackToMenu { restore_selected: back_selected },
        Key::Backspace => KeyAction::DeleteChar,
        Key::Char(c) => KeyAction::InsertChar(*c),
        _ => KeyAction::Ignore,
    }
}

/// The action of a key in the given mode.
pub fn compute_action(mode: &Mode, key: &Key) -> (r: KeyAction)
    ensures
        r == action_for(mode@, *key),
{
    match mode {
        Mode::Loading { .. } => KeyAction::Ignore,
        Mode::Menu { selected } => match key {
            Key::Left => KeyAction::NavUp,
            Key::Right => KeyAction::NavDown,
            Key::Char(c) => {
                let c = *c;
                if c == 's' {
                    KeyAction::StartEditingScope
                } else if c == '!' {
                    KeyAction::ToggleBreaking
                } else if c == 'b' {
                    KeyAction::StartEditingBody
                } else if c == 'B' {
                    KeyAction::GenerateBody
                } else if c == 'q' {
                    KeyAction::Cancel
                } else {
                    KeyAction::Ignore
                }
            },
            Key::Enter => {
                if *selected == 0 {
                    KeyAction::Proceed
                } else {
                    KeyAction::StartEditingImprove
                }
            },
            Key::Esc => KeyAction::Cancel,
            _ => KeyAction::Ignore,
        },
        Mode::EditingImprove { input } => editing_key_action(input.as_str(), key, 1),
        Mode::EditingScope { input } => editing_key_action(input.as_str(), key, 0),
        Mode::EditingBody { input } => editing_key_action(input.as_str(), key, 0),
    }
}

pub open spec fn opt_nonempty(s: Seq<char>) -> Option<Seq<char>> {
    if s.len() == 0 {
        None
    } else {
        Some(s)
    }
}

/// What an action does to the screen, and what it asks for.
pub open spec fn step(s: AppState, a: KeyAction) -> (AppState, EffectView) {
    match a {
        KeyAction::Ignore => (s, EffectView::Continue),
        KeyAction::Proceed => (
            s,
            EffectView::Finish(message(s.commit_type, s.scope, s.breaking, s.msg, s.body)),
        ),
        KeyAction::Cancel => (s, EffectView::Abort),
        KeyAction::NavUp => match s.mode {
            ModeView::Menu { selected } => (
                AppState {
                    mode: ModeView::Menu {
                        selected: if selected == 0 {
                            0
                        } else {
                            (selected - 1) as usize
                        },
                    },
                    ..s
                },
                EffectView::Continue,
            ),
            _ => (s, EffectView::Continue),
        },
        KeyAction::NavDown => match s.mode {
            ModeView::Menu { selected } => (
                AppState {
                    mode: ModeView::Menu {
                        selected: if selected < 1 {
                            (selected + 1) as usize
                        } else {
                            selected
                        },
                    },
                    ..s
                },
                EffectView::Continue,
            ),
            _ => (s, EffectView::Continue),
        },
        KeyAction::ToggleBreaking => (AppState { breaking: !s.breaking, ..s }, EffectView::Continue),
        KeyAction::StartEditingImprove => (
            AppState { mode: ModeView::EditingImprove(seq![]), ..s },
            EffectView::Continue,
        ),
        KeyAction::StartEditingScope => (
            AppState { mode: ModeView::EditingScope(s.scope), ..s },
            EffectView::Continue,
        ),
        KeyAction::StartEditingBody => (
            AppState { mode: ModeView::EditingBody(s.body), ..s },
            EffectView::Continue,
        ),
        KeyAction::GenerateBody => (
            AppState { body_pending: true, ..s },
            EffectView::GenerateBody(message(s.commit_type, s.scope, s.breaking, s.msg, seq![])),
        ),
        KeyAction::BackToMenu { restore_selected } => (
            AppState { mode: ModeView::Menu { selected: restore_selected }, ..s },
            EffectView::Continue,
        ),
        KeyAction::InsertChar(c) => (
            match s.mode {
                ModeView::EditingImprove(i) => AppState {
                    mode: ModeView::EditingImprove(i.push(c)),
                    ..s
                },
                ModeView::EditingScope(i) => AppState { mode: ModeView::EditingScope(i.push(c)), ..s },
                ModeView::EditingBody(i) => AppState { mode: ModeView::EditingBody(i.push(c)), ..s },
                _ => s,
            },
            EffectView::Continue,
        ),
        KeyAction::DeleteChar => (
            match s.mode {
                ModeView::EditingImprove(i) => AppState {
                    mode: ModeView::EditingImprove(drop_last_char(i)),
                    ..s
                },
                ModeView::EditingScope(i) => AppState {
                    mode: ModeView::EditingScope(drop_last_char(i)),
                    ..s
                },
                ModeView::EditingBody(i) => AppState {
                    mode: ModeView::EditingBody(drop_last_char(i)),
                    ..s
                },
                _ => s,
            },
            EffectView::Continue,
        ),
        KeyAction::SubmitEditing => match s.mode {
            ModeView::EditingImprove(i) => if s.use_ai {
                (
                    AppState { mode: ModeView::Loading { tick: 0 }, ..s },
                    EffectView::Generate {
                        commit_type: s.commit_type,
                        feedback: Some(i),
                        scope: opt_nonempty(s.scope),
                    },
                )
            } else {
                (
                    AppState { msg: i, mode: ModeView::Menu { selected: 0 }, ..s },
                    EffectView::Continue,
                )
            },
            ModeView::EditingScope(i) => (
                AppState { scope: i, mode: ModeView::Menu { selected: 0 }, ..s },
                EffectView::Continue,
            ),
            ModeView::EditingBody(i) => (
                AppState { body: i, mode: ModeView::Menu { selected: 0 }, ..s },
                EffectView::Continue,
            ),
            _ => (s, EffectView::Continue),
        },
    }
}

/// `i` without its last character, as `String::pop` leaves it.
pub open spec fn drop_last_char(i: Seq<char>) -> Seq<char> {
    if i.len() > 0 {
        i.drop_last()
    } else {
        i
    }
}

/// Calls `String::pop`, which removes the last character, if any; the
/// contract claims that the text afterwards is the text before without its last
/// character, and unchanged when it was empty.
#[verifier::external_body]
fn pop_char(s: &mut String)
    ensures
        final(s)@ == drop_last_char(old(s)@),
{
    s.pop();
}

fn copy_text(s: &String) -> (r: String)
    ensures
        r@ == s@,
{
    s.clone()
}

fn copy_opt(o: &Option<String>) -> (r: Option<String>)
    ensures
        opt_string(r) == opt_string(*o),
{
    match o {
        Some(s) => Some(s.clone()),
        None => None,
    }
}

fn as_opt_str(o: &Option<String>) -> (r: Option<&str>)
    ensures
        crate::commit::opt_str(r) == opt_string(*o),
{
    match o {
        Some(s) => Some(s.as_str()),
        None => None,
    }
}

impl App {
    /// Carries out an action.
    pub fn apply(&mut self, action: KeyAction) -> (e: Effect)
        ensures
            (final(self)@, e@) == step(old(self)@, action),
    {
        match action {
            KeyAction::Ignore => Effect::Continue,
            KeyAction::Proceed => {
                let m = build_commit_message(
                    as_opt_str(&self.commit_type),
                    self.scope.as_str(),
                    self.breaking,
                    self.msg.as_str(),
                    self.body.as_str(),
                );
                Effect::Finish(m)
            },
            KeyAction::Cancel => Effect::Abort,
            KeyAction::NavUp => {
                match &mut self.mode {
                    Mode::Menu { selected } => {
                        *selected = if *selected == 0 {
                            0
                        } else {
                            *selected - 1
                        };
                    },
                    _ => {},
                }
                Effect::Continue
            },
            KeyAction::NavDown => {
                match &mut self.mode {
                    Mode::Menu { selected } => {
                        if *selected < 1 {
                            *selected = *selected + 1;
                        }
                    },
                    _ => {},
                }
                Effect::Continue
            },
            KeyAction::ToggleBreaking => {
                self.breaking = !self.breaking;
                Effect::Continue
            },
            KeyAction::StartEditingImprove => {
                self.mode = Mode::EditingImprove { input: String::new() };
                Effect::Continue
            },
            KeyAction::StartEditingScope => {
                self.mode = Mode::EditingScope { input: copy_text(&self.scope) };
                Effect::Continue
            },
            KeyAction::StartEditingBody => {
                self.mode = Mode::EditingBody { input: copy_text(&self.body) };
                Effect::Continue
            },
            KeyAction::GenerateBody => {
                proof {
                    reveal_strlit("");
                }
                assert(""@ =~= Seq::<char>::empty());
                let subject = build_commit_message(
                    as_opt_str(&self.commit_type),
                    self.scope.as_str(),
                    self.breaking,
                    self.msg.as_str(),
                    "",
                );
                self.body_pending = true;
                Effect::GenerateBody(subject)
            },
            KeyAction::BackToMenu { restore_selected } => {
                self.mode = Mode::Menu { selected: restore_selected };
                Effect::Continue
            },
            KeyAction::InsertChar(c) => {
                match &mut self.mode {
                    Mode::EditingImprove { input } => push_char(input, c),
                    Mode::EditingScope { input } => push_char(input, c),
                    Mode::EditingBody { input } => push_char(input, c),
                    _ => {},
                }
                Effect::Continue
            },
            KeyAction::DeleteChar => {
                match &mut self.mode {
                    Mode::EditingImprove { input } => pop_char(input),
                    Mode::EditingScope { input } => pop_char(input),
                    Mode::EditingBody { input } => pop_char(input),
                    _ => {},
                }
                Effect::Continue
            },
            KeyAction::SubmitEditing => {
                let mut mode = Mode::Menu { selected: 0 };
                std::mem::swap(&mut mode, &mut self.mode);
                match mode {
                    Mode::EditingImprove { input } => {
                        if self.use_ai {
                            let scope = if self.scope.as_str().is_empty() {
                                None
                            } else {
                                Some(copy_text(&self.scope))
                            };
                            self.mode = Mode::Loading { tick: 0 };
                            Effect::Generate(
                                GenerationRequest {
                                    commit_type: copy_opt(&self.commit_type),
                                    feedback: Some(input),
                                    scope,
                                },
                            )
                        } else {
                            self.msg = input;
                            Effect::Continue
                        }
                    },
                    Mode::EditingScope { input } => {
                        self.scope = input;
                        Effect::Continue
                    },
                    Mode::EditingBody { input } => {
                        self.body = input;
                        Effect::Continue
                    },
                    other => {
                        self.mode = other;
                        Effect::Continue
                    },
                }
            },
        }
    }
}

/// The screen after a generated message `raw` arrived. Without a fixed type,
/// a conventional header in `raw` supplies the type and the description;
/// otherwise the first line of `raw` is the description. The menu follows,
/// with "Proceed" chosen.
pub open spec fn after_generation(s: AppState, raw: Seq<char>) -> AppState {
    let p = parse_full(raw);
    if s.commit_type is None && p.0 is Some {
        AppState { commit_type: p.0, msg: p.3, mode: ModeView::Menu { selected: 0 }, ..s }
    } else {
        AppState { msg: first_line(raw), mode: ModeView::Menu { selected: 0 }, ..s }
    }
}

/// The screen after a spinner step: the message spinner turns while loading,
/// the body spinner while a body is being generated.
pub open spec fn ticked(s: AppState) -> AppState {
    AppState {
        mode: match s.mode {
            ModeView::Loading { tick } => ModeView::Loading {
                tick: ((tick + 1) % (SPINNER_FRAMES as int)) as usize,
            },
            m => m,
        },
        body_tick: if s.body_pending {
            ((s.body_tick + 1) % (SPINNER_FRAMES as int)) as usize
        } else {
            s.body_tick
        },
        ..s
    }
}

/// What the commit panel shows: the message as it would be committed, with a
/// placeholder for a missing description and the text being typed in place of
/// the scope or the body.
pub open spec fn preview_of(s: AppState) -> Seq<char> {
    let desc = if s.msg.len() == 0 {
        "…"@
    } else {
        s.msg
    };
    let scope = match s.mode {
        ModeView::EditingScope(i) => i,
        _ => s.scope,
    };
    let body = match s.mode {
        ModeView::EditingBody(i) => i,
        _ => s.body,
    };
    message(s.commit_type, scope, s.breaking, desc, body)
}

/// A well-formed screen: the menu choice is 0 or 1 and both spinners show one
/// of their frames.
pub open spec fn well_formed(s: AppState) -> bool {
    &&& s.body_tick < SPINNER_FRAMES
    &&& match s.mode {
        ModeView::Menu { selected } => selected <= 1,
        ModeView::Loading { tick } => tick < SPINNER_FRAMES,
        _ => true,
    }
}

impl App {
    /// The screen at the start: the menu when a message is given, otherwise
    /// loading, together with the request for a first message.
    pub fn start(
        initial_msg: Option<String>,
        commit_type: Option<&str>,
        use_ai: bool,
        initial_scope: String,
        initial_breaking: bool,
        initial_body: String,
    ) -> (r: (App, Option<GenerationRequest>))
        ensures
            r.0@.scope == initial_scope@,
            r.0@.breaking == initial_breaking,
            r.0@.body == initial_body@,
            !r.0@.body_pending,
            r.0@.body_tick == 0,
            r.0@.commit_type == opt_str(commit_type),
            r.0@.use_ai == use_ai,
            match initial_msg {
                Some(m) => r.0@.msg == m@ && r.0@.mode == ModeView::Menu { selected: 0 } && r.1 is None,
                None => {
                    &&& r.0@.msg == Seq::<char>::empty()
                    &&& r.0@.mode == ModeView::Loading { tick: 0 }
                    &&& r.1 matches Some(g)
                    &&& opt_string(g.commit_type) == opt_str(commit_type)
                    &&& g.feedback is None
                    &&& opt_string(g.scope) == opt_nonempty(initial_scope@)
                },
            },
    {
        let ct: Option<String> = match commit_type {
            Some(t) => {
                let mut c = String::new();
                c.append(t);
                assert(c@ =~= t@);
                Some(c)
            },
            None => None,
        };
        let (msg, mode, request) = match initial_msg {
            Some(m) => (m, Mode::Menu { selected: 0 }, None),
            None => {
                let scope = if initial_scope.as_str().is_empty() {
                    None
                } else {
                    Some(copy_text(&initial_scope))
                };
                let req = GenerationRequest { commit_type: copy_opt(&ct), feedback: None, scope };
                (String::new(), Mode::Loading { tick: 0 }, Some(req))
            },
        };
        let app = App {
            msg,
            scope: initial_scope,
            breaking: initial_breaking,
            body: initial_body,
            body_pending: false,
            body_tick: 0,
            mode,
            commit_type: ct,
            use_ai,
        };
        (app, request)
    }

    /// Turns the spinners by one frame.
    pub fn tick(&mut self)
        requires
            old(self).mode matches Mode::Loading { tick } ==> tick < usize::MAX,
            old(self).body_pending ==> old(self).body_tick < usize::MAX,
        ensures
            final(self)@ == ticked(old(self)@),
    {
        match &mut self.mode {
            Mode::Loading { tick } => {
                *tick = (*tick + 1) % SPINNER_FRAMES;
            },
            _ => {},
        }
        if self.body_pending {
            self.body_tick = (self.body_tick + 1) % SPINNER_FRAMES;
        }
    }

    /// Takes in a generated message.
    pub fn generation_done(&mut self, raw: &str)
        ensures
            final(self)@ == after_generation(old(self)@, raw@),
    {
        let v = chars_of(raw);
        let n = v.len();
        assert(v@.subrange(0, n as int) =~= raw@);
        if self.commit_type.is_none() {
            let (parsed_type, _scope, _breaking, parsed_desc, _body) = parse_full_commit(raw);
            if parsed_type.is_some() {
                self.commit_type = parsed_type;
                self.msg = parsed_desc;
                self.mode = Mode::Menu { selected: 0 };
                return;
            }
        }
        let (a, b) = first_line_range(&v, 0, n);
        self.msg = string_of(&v, a, b);
        self.mode = Mode::Menu { selected: 0 };
    }

    /// Takes in a generated body.
    pub fn body_done(&mut self, body: String)
        ensures
            final(self)@ == (AppState { body: body@, body_pending: false, ..old(self)@ }),
    {
        self.body = body;
        self.body_pending = false;
    }

    /// How long to wait for a key, in milliseconds: briefly while something is
    /// being generated, so that the spinners turn.
    pub fn poll_timeout_ms(&self) -> (r: u64)
        ensures
            r == if self@.mode is Loading || self.body_pending {
                80u64
            } else {
                10000u64
            },
    {
        match self.mode {
            Mode::Loading { .. } => 80,
            _ => {
                if self.body_pending {
                    80
                } else {
                    10000
                }
            },
        }
    }

    /// Handles a key press.
    pub fn handle_key(&mut self, key: &Key) -> (e: Effect)
        ensures
            (final(self)@, e@) == step(old(self)@, action_for(old(self)@.mode, *key)),
    {
        let action = compute_action(&self.mode, key);
        self.apply(action)
    }

    /// The message as the commit panel shows it.
    pub fn preview(&self) -> (r: String)
        ensures
            r@ == preview_of(self@),
    {
        let desc = if self.msg.as_str().is_empty() {
            "…"
        } else {
            self.msg.as_str()
        };
        let scope = match &self.mode {
            Mode::EditingScope { input } => input.as_str(),
            _ => self.scope.as_str(),
        };
        let body = match &self.mode {
            Mode::EditingBody { input } => input.as_str(),
            _ => self.body.as_str(),
        };
        build_commit_message(as_opt_str(&self.commit_type), scope, self.breaking, desc, body)
    }
}

/// The frames of the progress spinner.
pub open spec fn spinner_frames() -> Seq<Seq<char>> {
    seq!["⠋"@, "⠙"@, "⠹"@, "⠸"@, "⠼"@, "⠴"@, "⠦"@, "⠧"@, "⠇"@, "⠏"@]
}

/// The spinner frame for step `tick`.
pub fn spinner_frame(tick: usize) -> (r: &'static str)
    ensures
        r@ == spinner_frames()[(tick % SPINNER_FRAMES) as int],
{
    let i = tick % SPINNER_FRAMES;
    if i == 0 {
        "⠋"
    } else if i == 1 {
        "⠙"
    } else if i == 2 {
        "⠹"
    } else if i == 3 {
        "⠸"
    } else if i == 4 {
        "⠼"
    } else if i == 5 {
        "⠴"
    } else if i == 6 {
        "⠦"
    } else if i == 7 {
        "⠧"
    } else if i == 8 {
        "⠇"
    } else {
        "⠏"
    }
}

/// The key hints under the screen for each mode.
pub open spec fn hint_of(mode: ModeView, use_ai: bool) -> Seq<char> {
    match mode {
        ModeView::Loading { .. } => ""@,
        ModeView::Menu { .. } => if use_ai {
            "←/→ navigate   Enter select   s scope   ! breaking   b body   B ai-body   q cancel"@
        } else {
            "←/→ navigate   Enter select   s scope   ! breaking   b body   q cancel"@
        },
        _ => "Enter confirm   Esc back"@,
    }
}

/// The key hints under the screen.
pub fn hint_text(mode: &Mode, use_ai: bool) -> (r: &'static str)
    ensures
        r@ == hint_of(mode@, use_ai),
{
    match mode {
        Mode::Loading { .. } => "",
        Mode::Menu { .. } => {
            if use_ai {
                "←/→ navigate   Enter select   s scope   ! breaking   b body   B ai-body   q cancel"
            } else {
                "←/→ navigate   Enter select   s scope   ! breaking   b body   q cancel"
            }
        },
        _ => "Enter confirm   Esc back",
    }
}

/// The scope entry of the menu.
pub open spec fn scope_label_of(scope: Seq<char>) -> Seq<char> {
    if scope.len() == 0 {
        "[s] scope"@
    } else {
        "[s] ("@ + scope + ")"@
    }
}

/// The body entry of the menu: a spinner while a body is generated, and a
/// check mark once there is a body.
pub open spec fn body_label_of(pending: bool, tick: usize, body: Seq<char>) -> Seq<char> {
    if pending {
        "[B] "@ + spinner_frames()[(tick % SPINNER_FRAMES) as int] + "  generating…"@
    } else if body.len() == 0 {
        "[b] body  [B] ai"@
    } else {
        "[b] body✓  [B] ai"@
    }
}

/// A menu choice, marked when selected.
pub open spec fn choice_label_of(name: Seq<char>, selected: bool) -> Seq<char> {
    (if selected {
        "▶ "@
    } else {
        "  "@
    }) + name
}

/// The line shown while a message is generated.
pub open spec fn loading_label_of(tick: usize) -> Seq<char> {
    "  "@ + spinner_frames()[(tick % SPINNER_FRAMES) as int] + "  generating…"@
}

/// The line shown while a message is generated.
pub fn loading_label(tick: usize) -> (r: String)
    ensures
        r@ == loading_label_of(tick),
{
    let mut r = String::new();
    r.append("  ");
    r.append(spinner_frame(tick));
    r.append("  generating…");
    assert(r@ =~= loading_label_of(tick));
    r
}

/// A menu choice, marked when selected.
pub fn choice_label(name: &str, selected: bool) -> (r: String)
    ensures
        r@ == choice_label_of(name@, selected),
{
    let mut r = String::new();
    r.append(if selected {
        "▶ "
    } else {
        "  "
    });
    r.append(name);
    assert(r@ =~= choice_label_of(name@, selected));
    r
}

impl App {
    /// The scope entry of the menu.
    pub fn scope_label(&self) -> (r: String)
        ensures
            r@ == scope_label_of(self.scope@),
    {
        let mut r = String::new();
        if self.scope.as_str().is_empty() {
            r.append("[s] scope");
        } else {
            r.append("[s] (");
            r.append(self.scope.as_str());
            r.append(")");
        }
        assert(r@ =~= scope_label_of(self.scope@));
        r
    }

    /// The breaking-change entry of the menu.
    pub fn breaking_label(&self) -> (r: &'static str)
        ensures
            r@ == if self.breaking {
                "[!] ✓"@
            } else {
                "[!]"@
            },
    {
        if self.breaking {
            "[!] ✓"
        } else {
            "[!]"
        }
    }

    /// The body entry of the menu.
    pub fn body_label(&self) -> (r: String)
        ensures
            r@ == body_label_of(self.body_pending, self.body_tick, self.body@),
    {
        let mut r = String::new();
        if self.body_pending {
            r.append("[B] ");
            r.append(spinner_frame(self.body_tick));
            r.append("  generating…");
        } else if self.body.as_str().is_empty() {
            r.append("[b] body  [B] ai");
        } else {
            r.append("[b] body✓  [B] ai");
        }
        assert(r@ =~= body_label_of(self.body_pending, self.body_tick, self.body@));
        r
    }
}

/// The rows a line of `len` characters takes at width `w`: at least one, the
/// count taken modulo 2^16 as a `u16` conversion does.
pub open spec fn line_rows(len: nat, w: nat) -> u16 {
    let r = if len % w == 0 {
        len / w
    } else {
        len / w + 1
    };
    (if r == 0 {
        1
    } else {
        r
    }) as u16
}

/// The rows that the lines take at width `w`.
pub open spec fn rows_of(ls: Seq<Seq<char>>, w: nat) -> nat
    decreases ls.len(),
{
    if ls.len() == 0 {
        0
    } else {
        rows_of(ls.drop_last(), w) + line_rows(ls.last().len(), w) as nat
    }
}

/// The width available to the body inside a panel of width `width`: six
/// columns less, at least one.
pub open spec fn inner_width(width: u16) -> nat {
    if width > 6 {
        (width - 6) as nat
    } else {
        1
    }
}

/// The height of the commit panel for a body `body` in a screen of width
/// `width`: three rows without a body; otherwise header, blank line, the body's
/// rows and two borders, at most twelve. `None` when the rows overflow the
/// 16-bit row count.
pub open spec fn panel_height_of(body: Seq<char>, width: u16) -> Option<u16> {
    if body.len() == 0 {
        Some(3)
    } else {
        let total = rows_of(lines(body), inner_width(width));
        if total + 4 > u16::MAX {
            None
        } else if total + 4 < 12 {
            Some((total + 4) as u16)
        } else {
            Some(12)
        }
    }
}

/// The height of the commit panel.
pub fn panel_height(body: &str, width: u16) -> (r: Option<u16>)
    ensures
        r == panel_height_of(body@, width),
{
    let v = chars_of(body);
    let n = v.len();
    if n == 0 {
        return Some(3);
    }
    assert(v@.subrange(0, n as int) =~= body@);
    let w: usize = if width > 6 {
        (width - 6) as usize
    } else {
        1
    };
    let ls = line_ranges(&v, 0, n);
    let ghost lv = pieces(v@, ls@);
    let mut total: u16 = 0;
    let mut k: usize = 0;
    while k < ls.len()
        invariant
            w as nat == inner_width(width),
            w > 0,
            k <= ls.len(),
            lv == pieces(v@, ls@),
            lv == lines(body@),
            crate::text::ranges_within(ls@, 0, n as int),
            n == v.len(),
            total as nat == rows_of(lv.take(k as int), w as nat),
        decreases ls.len() - k,
    {
        let (a, b) = ls[k];
        assert(0 <= ls@[k as int].0 <= ls@[k as int].1 <= n);
        let len = b - a;
        assert(lv[k as int].len() == len);
        let r0 = if len % w == 0 {
            len / w
        } else {
            assert(len / w < usize::MAX) by (nonlinear_arith)
                requires
                    len % w != 0,
                    w > 0,
            ;
            len / w + 1
        };
        let r1 = if r0 == 0 {
            1
        } else {
            r0
        };
        let rows = #[verifier::truncate] (r1 as u16);
        assert(lv.take(k + 1).drop_last() =~= lv.take(k as int));
        assert(lv.take(k + 1).last() == lv[k as int]);
        assert(rows == line_rows(len as nat, w as nat));
        assert(rows_of(lv.take(k + 1), w as nat) == total + rows);
        match total.checked_add(rows) {
            Some(t) => {
                total = t;
            },
            None => {
                proof {
                    lemma_rows_grow(lv, w as nat, k as int + 1);
                }
                return None;
            },
        }
        k += 1;
    }
    assert(lv.take(ls.len() as int) =~= lv);
    if total > 65531 {
        None
    } else if total + 4 < 12 {
        Some(total + 4)
    } else {
        Some(12)
    }
}

/// Adding lines never lowers the row count.
pub proof fn lemma_rows_grow(ls: Seq<Seq<char>>, w: nat, k: int)
    requires
        0 <= k <= ls.len(),
    ensures
        rows_of(ls.take(k), w) <= rows_of(ls, w),
    decreases ls.len(),
{
    if k < ls.len() {
        lemma_rows_grow(ls.drop_last(), w, k);
        assert(ls.drop_last().take(k) =~= ls.take(k));
    } else {
        assert(ls.take(k) =~= ls);
    }
}

impl App {
    /// The body the commit panel shows: the text being typed while editing the
    /// body, the body otherwise.
    pub open spec fn live_body(s: AppState) -> Seq<char> {
        match s.mode {
            ModeView::EditingBody(i) => i,
            _ => s.body,
        }
    }

    /// The height of the commit panel for this screen.
    pub fn commit_panel_height(&self, width: u16) -> (r: Option<u16>)
        ensures
            r == panel_height_of(Self::live_body(self@), width),
    {
        let live = match &self.mode {
            Mode::EditingBody { input } => input.as_str(),
            _ => self.body.as_str(),
        };
        panel_height(live, width)
    }
}

/// Every key keeps the screen well formed.
pub proof fn lemma_key_keeps_well_formed(s: AppState, key: Key)
    requires
        well_formed(s),
    ensures
        well_formed(step(s, action_for(s.mode, key)).0),
{
}

/// The spinners, a generated message and a generated body keep the screen
/// well formed, and the screen starts well formed.
pub proof fn lemma_events_keep_well_formed(s: AppState, raw: Seq<char>, body: Seq<char>)
    requires
        well_formed(s),
    ensures
        well_formed(ticked(s)),
        well_formed(after_generation(s, raw)),
        well_formed(AppState { body: body, body_pending: false, ..s }),
{
}

/// Pressing Enter on "Proceed" commits exactly the message that the commit
/// panel shows, once there is a description.
pub proof fn lemma_proceed_commits_preview(s: AppState)
    requires
        s.mode == (ModeView::Menu { selected: 0 }),
        s.msg.len() > 0,
    ensures
        step(s, action_for(s.mode, Key::Enter)) == (s, EffectView::Finish(preview_of(s))),
{
}

/// Esc while typing returns to the menu and discards what was typed: nothing
/// but the mode changes, and nothing is asked for.
pub proof fn lemma_escape_discards_typing(s: AppState)
    requires
        s.mode is EditingImprove || s.mode is EditingScope || s.mode is EditingBody,
    ensures
        ({
            let (t, e) = step(s, action_for(s.mode, Key::Esc));
            &&& t == AppState { mode: t.mode, ..s }
            &&& t.mode == (ModeView::Menu { selected: if s.mode is EditingImprove { 1 } else { 0 } })
            &&& e == EffectView::Continue
        }),
{
}

/// Toggling the breaking mark twice restores the screen.
pub proof fn lemma_toggle_twice(s: AppState)
    ensures
        step(step(s, KeyAction::ToggleBreaking).0, KeyAction::ToggleBreaking).0 == s,
{
}

/// Backspace undoes a typed character.
pub proof fn lemma_backspace_undoes_typing(s: AppState, c: char)
    requires
        s.mode is EditingImprove || s.mode is EditingScope || s.mode is EditingBody,
    ensures
        step(step(s, KeyAction::InsertChar(c)).0, KeyAction::DeleteChar).0 == s,
{
    match s.mode {
        ModeView::EditingImprove(i) => {
            assert(i.push(c).drop_last() =~= i);
        },
        ModeView::EditingScope(i) => {
            assert(i.push(c).drop_last() =~= i);
        },
        ModeView::EditingBody(i) => {
            assert(i.push(c).drop_last() =~= i);
        },
        _ => {},
    }
}

/// Opening the scope or the body for editing and confirming it unchanged
/// leaves everything but the menu choice as it was.
pub proof fn lemma_confirm_unchanged_edit(s: AppState)
    ensures
        step(step(s, KeyAction::StartEditingScope).0, KeyAction::SubmitEditing).0 == (AppState {
            mode: ModeView::Menu { selected: 0 },
            ..s
        }),
        step(step(s, KeyAction::StartEditingBody).0, KeyAction::SubmitEditing).0 == (AppState {
            mode: ModeView::Menu { selected: 0 },
            ..s
        }),
{
}

/// The decimal digit for `d`.
pub open spec fn digit(d: nat) -> char {
    (48 + d) as char
}

/// The decimal representation of `n`, as `usize`'s `Display` writes it.
pub open spec fn decimal(n: nat) -> Seq<char>
    decreases n,
{
    if n < 10 {
        seq![digit(n)]
    } else {
        decimal(n / 10).push(digit(n % 10))
    }
}

/// Appends the decimal representation of `n`.
pub fn push_decimal(s: &mut String, n: usize)
    ensures
        final(s)@ == old(s)@ + decimal(n as nat),
    decreases n,
{
    if n >= 10 {
        push_decimal(s, n / 10);
    }
    let d = (n % 10) as u32;
    let c = char_from_digit(d);
    push_char(s, c);
    assert(s@ =~= old(s)@ + decimal(n as nat));
}

fn char_from_digit(d: u32) -> (c: char)
    requires
        d < 10,
    ensures
        c == digit(d as nat),
{
    if d == 0 {
        '0'
    } else if d == 1 {
        '1'
    } else if d == 2 {
        '2'
    } else if d == 3 {
        '3'
    } else if d == 4 {
        '4'
    } else if d == 5 {
        '5'
    } else if d == 6 {
        '6'
    } else if d == 7 {
        '7'
    } else if d == 8 {
        '8'
    } else {
        '9'
    }
}

/// The length in bytes of a file name, as `str::len` counts it.
pub open spec fn byte_len(s: Seq<char>) -> nat {
    (vstd::utf8::encode_utf8(s).len() as usize) as nat
}

/// The longest file name, in bytes, or zero without files.
pub open spec fn widest(stats: Seq<FileStat>) -> nat
    decreases stats.len(),
{
    if stats.len() == 0 {
        0
    } else {
        let w = widest(stats.drop_last());
        let l = byte_len(stats.last().file@);
        if l > w {
            l
        } else {
            w
        }
    }
}

/// `n` spaces.
pub open spec fn spaces(n: nat) -> Seq<char> {
    Seq::new(n, |i: int| ' ')
}

/// The line for one file in the changes panel: the name padded to `width`
/// bytes, then the added and deleted line counts.
pub open spec fn change_line(st: FileStat, width: nat) -> Seq<char> {
    st.file@ + spaces((width - byte_len(st.file@)) as nat) + "  +"@ + decimal(st.added as nat) + "  -"@
        + decimal(st.deleted as nat)
}

/// The text of the changes panel: one line per file, the names padded to the
/// longest.
pub open spec fn changes_text_of(stats: Seq<FileStat>) -> Seq<char> {
    join(stats.map_values(|st: FileStat| change_line(st, widest(stats))), "\n"@)
}

proof fn lemma_widest_bounds(stats: Seq<FileStat>, k: int)
    requires
        0 <= k < stats.len(),
    ensures
        byte_len(stats[k].file@) <= widest(stats),
    decreases stats.len(),
{
    if k < stats.len() - 1 {
        lemma_widest_bounds(stats.drop_last(), k);
    }
}

/// The text of the changes panel.
pub fn changes_text(stats: &Vec<FileStat>) -> (r: String)
    ensures
        r@ == changes_text_of(stats@),
{
    let mut width: usize = 0;
    let mut k: usize = 0;
    while k < stats.len()
        invariant
            k <= stats.len(),
            width as nat == widest(stats@.take(k as int)),
        decreases stats.len() - k,
    {
        let l = stats[k].file.as_str().len();
        assert(stats@.take(k + 1).drop_last() =~= stats@.take(k as int));
        assert(stats@.take(k + 1).last() == stats@[k as int]);
        if l > width {
            width = l;
        }
        k += 1;
    }
    assert(stats@.take(stats.len() as int) =~= stats@);
    let ghost lines = stats@.map_values(|st: FileStat| change_line(st, widest(stats@)));
    let nl = "\n";
    let mut r = String::new();
    let mut k: usize = 0;
    assert(lines.take(0).len() == 0);
    assert(join(lines.take(0), nl@) =~= r@);
    while k < stats.len()
        invariant
            k <= stats.len(),
            width as nat == widest(stats@),
            lines == stats@.map_values(|st: FileStat| change_line(st, widest(stats@))),
            r@ == join(lines.take(k as int), nl@),
        decreases stats.len() - k,
    {
        let ghost before = r@;
        if k > 0 {
            r.append(nl);
        }
        let st = &stats[k];
        let l = st.file.as_str().len();
        proof {
            lemma_widest_bounds(stats@, k as int);
        }
        r.append(st.file.as_str());
        let mut p: usize = 0;
        while p < width - l
            invariant
                l <= width,
                p <= width - l,
                r@ == (if k > 0 {
                    before + nl@
                } else {
                    before
                }) + st.file@ + spaces(p as nat),
            decreases width - l - p,
        {
            push_char(&mut r, ' ');
            assert(spaces(p as nat).push(' ') =~= spaces((p + 1) as nat));
            p += 1;
        }
        r.append("  +");
        push_decimal(&mut r, st.added);
        r.append("  -");
        push_decimal(&mut r, st.deleted);
        let ghost pre = lines.take(k + 1);
        assert(pre.drop_last() =~= lines.take(k as int));
        assert(pre.last() == change_line(stats@[k as int], widest(stats@)));
        assert(r@ =~= join(pre, nl@));
        k += 1;
    }
    assert(lines.take(stats.len() as int) =~= lines);
    r
}

/// Where the parts of a one-line text field go: the label's width, the
/// column and width of the input, and the cursor's column.
pub struct InlineLayout {
    pub label_width: u16,
    pub input_x: u16,
    pub input_width: u16,
    pub cursor_x: u16,
}

/// The layout of a text field in a row at `row_x` of width `row_width`, for a
/// label of `label_chars` characters (two spaces follow it) and an input of
/// `input_chars` characters. `None` when the row is too narrow, and only the
/// label is shown. The cursor stands after the input, but inside the row.
pub open spec fn inline_layout_of(row_x: u16, row_width: u16, label_chars: nat, input_chars: nat) -> Option<
    InlineLayout,
> {
    let lw = #[verifier::truncate] ((label_chars + 2) as u16);
    if row_width <= lw + 2 {
        None
    } else {
        let input_x = (row_x + lw) as u16;
        let input_width = (row_width - lw) as u16;
        let wanted = input_x + (input_chars as u16);
        let last = input_x + input_width - 1;
        Some(
            InlineLayout {
                label_width: lw,
                input_x,
                input_width,
                cursor_x: (if wanted < last {
                    wanted
                } else {
                    last
                }) as u16,
            },
        )
    }
}

/// Places a text field in a row.
pub fn inline_layout(row_x: u16, row_width: u16, label: &str, input: &str) -> (r: Option<InlineLayout>)
    requires
        label@.len() + 2 <= usize::MAX,
        (#[verifier::truncate] ((label@.len() + 2) as u16)) + 2 <= u16::MAX,
        row_width > (#[verifier::truncate] ((label@.len() + 2) as u16)) + 2 ==> {
            &&& row_x + (#[verifier::truncate] ((label@.len() + 2) as u16)) + (#[verifier::truncate] (
            input@.len() as u16)) <= u16::MAX
            &&& row_x + row_width <= u16::MAX
        },
    ensures
        r == inline_layout_of(row_x, row_width, label@.len(), input@.len()),
{
    let label_chars = chars_of(label).len();
    let lw = #[verifier::truncate] ((label_chars + 2) as u16);
    if row_width <= lw + 2 {
        return None;
    }
    let input_x = row_x + lw;
    let input_width = row_width - lw;
    let input_chars = chars_of(input).len();
    let wanted = input_x + #[verifier::truncate] (input_chars as u16);
    let last = input_x + input_width - 1;
    Some(
        InlineLayout {
            label_width: lw,
            input_x,
            input_width,
            cursor_x: if wanted < last {
                wanted
            } else {
                last
            },
        },
    )
}

/// The row, inside the actions panel at `inner_y` of height `inner_height`,
/// that holds the actions: the middle one.
pub fn actions_row(inner_y: u16, inner_height: u16) -> (r: u16)
    requires
        inner_y + (if inner_height > 0 {
            (inner_height - 1) as int
        } else {
            0
        }) / 2 <= u16::MAX,
    ensures
        r == inner_y + (if inner_height > 0 {
            (inner_height - 1) as int
        } else {
            0
        }) / 2,
{
    let h = if inner_height > 0 {
        inner_height - 1
    } else {
        0
    };
    inner_y + h / 2
}

/// Confirming typed text stores exactly that text: the body when editing the
/// body, the scope when editing the scope, the description when improving
/// without the model. Nothing else but the mode changes, and the menu comes
/// back with "Proceed" chosen.
pub proof fn lemma_confirm_stores_typed_text(s: AppState, i: Seq<char>)
    ensures
        s.mode == ModeView::EditingBody(i) ==> step(s, KeyAction::SubmitEditing) == (
            AppState { body: i, mode: ModeView::Menu { selected: 0 }, ..s },
            EffectView::Continue,
        ),
        s.mode == ModeView::EditingScope(i) ==> step(s, KeyAction::SubmitEditing) == (
            AppState { scope: i, mode: ModeView::Menu { selected: 0 }, ..s },
            EffectView::Continue,
        ),
        s.mode == ModeView::EditingImprove(i) && !s.use_ai ==> step(s, KeyAction::SubmitEditing) == (
            AppState { msg: i, mode: ModeView::Menu { selected: 0 }, ..s },
            EffectView::Continue,
        ),
        s.mode == ModeView::EditingBody(i) && i.len() > 0 ==> step(s, action_for(s.mode, Key::Enter)).0.body
            == i,
{
}

} // verus!
