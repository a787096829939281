use gup::git::FileStat;
use gup::ui::{
    actions_row, changes_text, choice_label, compute_action, editing_key_action, hint_text,
    inline_layout, loading_label, panel_height, push_decimal, spinner_frame, App, Effect, Key,
    KeyAction, Mode,
};

fn menu_app() -> App {
    let (app, req) = App::start(
        Some("add login".to_string()),
        Some("feat"),
        true,
        String::new(),
        false,
        String::new(),
    );
    assert!(req.is_none());
    app
}

fn press(app: &mut App, key: Key) -> Effect {
    app.handle_key(&key)
}

#[test]
fn start_without_message_requests_generation() {
    let (app, req) = App::start(None, None, true, "auth".to_string(), true, "b".to_string());
    assert!(matches!(app.mode, Mode::Loading { tick: 0 }));
    assert!(app.msg.is_empty());
    let req = req.expect("request");
    assert!(req.commit_type.is_none());
    assert!(req.feedback.is_none());
    assert_eq!(req.scope.as_deref(), Some("auth"));
    let (_, req) = App::start(None, Some("fix"), true, String::new(), false, String::new());
    let req = req.expect("request");
    assert_eq!(req.commit_type.as_deref(), Some("fix"));
    assert!(req.scope.is_none());
}

#[test]
fn key_actions() {
    assert!(compute_action(&Mode::Loading { tick: 3 }, &Key::Enter) == KeyAction::Ignore);
    let menu = Mode::Menu { selected: 0 };
    assert!(compute_action(&menu, &Key::Enter) == KeyAction::Proceed);
    assert!(compute_action(&Mode::Menu { selected: 1 }, &Key::Enter) == KeyAction::StartEditingImprove);
    assert!(compute_action(&menu, &Key::Left) == KeyAction::NavUp);
    assert!(compute_action(&menu, &Key::Right) == KeyAction::NavDown);
    assert!(compute_action(&menu, &Key::Char('s')) == KeyAction::StartEditingScope);
    assert!(compute_action(&menu, &Key::Char('!')) == KeyAction::ToggleBreaking);
    assert!(compute_action(&menu, &Key::Char('b')) == KeyAction::StartEditingBody);
    assert!(compute_action(&menu, &Key::Char('B')) == KeyAction::GenerateBody);
    assert!(compute_action(&menu, &Key::Char('q')) == KeyAction::Cancel);
    assert!(compute_action(&menu, &Key::Esc) == KeyAction::Cancel);
    assert!(compute_action(&menu, &Key::Char('x')) == KeyAction::Ignore);
    let improve = Mode::EditingImprove { input: "x".to_string() };
    assert!(compute_action(&improve, &Key::Esc) == KeyAction::BackToMenu { restore_selected: 1 });
    let scope = Mode::EditingScope { input: String::new() };
    assert!(compute_action(&scope, &Key::Esc) == KeyAction::BackToMenu { restore_selected: 0 });
    assert!(compute_action(&scope, &Key::Enter) == KeyAction::Ignore);
    assert!(editing_key_action("a", &Key::Enter, 0) == KeyAction::SubmitEditing);
    assert!(editing_key_action("", &Key::Backspace, 0) == KeyAction::DeleteChar);
    assert!(editing_key_action("", &Key::Char('z'), 0) == KeyAction::InsertChar('z'));
    assert!(editing_key_action("", &Key::Left, 0) == KeyAction::Ignore);
}

#[test]
fn edit_scope_toggle_breaking_and_proceed() {
    let mut app = menu_app();
    assert!(matches!(press(&mut app, Key::Char('s')), Effect::Continue));
    for c in "auth".chars() {
        press(&mut app, Key::Char(c));
    }
    press(&mut app, Key::Char('x'));
    press(&mut app, Key::Backspace);
    assert_eq!(app.preview(), "feat(auth): add login");
    press(&mut app, Key::Enter);
    assert_eq!(app.scope, "auth");
    press(&mut app, Key::Char('!'));
    match press(&mut app, Key::Enter) {
        Effect::Finish(m) => assert_eq!(m, "feat(auth)!: add login"),
        _ => panic!("no message"),
    }
}

#[test]
fn escape_discards_typing() {
    let mut app = menu_app();
    press(&mut app, Key::Char('b'));
    press(&mut app, Key::Char('y'));
    assert_eq!(app.preview(), "feat: add login\n\ny");
    press(&mut app, Key::Esc);
    assert!(app.body.is_empty());
    assert!(matches!(app.mode, Mode::Menu { selected: 0 }));
    assert_eq!(app.preview(), "feat: add login");
}

#[test]
fn navigation_stays_in_menu() {
    let mut app = menu_app();
    press(&mut app, Key::Left);
    assert!(matches!(app.mode, Mode::Menu { selected: 0 }));
    press(&mut app, Key::Right);
    press(&mut app, Key::Right);
    assert!(matches!(app.mode, Mode::Menu { selected: 1 }));
    press(&mut app, Key::Left);
    assert!(matches!(app.mode, Mode::Menu { selected: 0 }));
}

#[test]
fn improve_with_ai_requests_generation() {
    let mut app = menu_app();
    app.scope = "ui".to_string();
    press(&mut app, Key::Right);
    press(&mut app, Key::Enter);
    for c in "shorter".chars() {
        press(&mut app, Key::Char(c));
    }
    match press(&mut app, Key::Enter) {
        Effect::Generate(r) => {
            assert_eq!(r.commit_type.as_deref(), Some("feat"));
            assert_eq!(r.feedback.as_deref(), Some("shorter"));
            assert_eq!(r.scope.as_deref(), Some("ui"));
        }
        _ => panic!("no request"),
    }
    assert!(matches!(app.mode, Mode::Loading { tick: 0 }));
    app.generation_done("add login form\nextra");
    assert_eq!(app.msg, "add login form");
    assert!(matches!(app.mode, Mode::Menu { selected: 0 }));
}

#[test]
fn improve_without_ai_replaces_description() {
    let (mut app, _) = App::start(Some("x".to_string()), None, false, String::new(), false, String::new());
    press(&mut app, Key::Right);
    press(&mut app, Key::Enter);
    for c in "typed".chars() {
        press(&mut app, Key::Char(c));
    }
    assert!(matches!(press(&mut app, Key::Enter), Effect::Continue));
    assert_eq!(app.msg, "typed");
    match press(&mut app, Key::Enter) {
        Effect::Finish(m) => assert_eq!(m, "typed"),
        _ => panic!("no message"),
    }
}

#[test]
fn generation_without_type_takes_parsed_header() {
    let (mut app, _) = App::start(None, None, true, String::new(), false, String::new());
    app.generation_done("fix(api): handle null\n\nbody text");
    assert_eq!(app.commit_type.as_deref(), Some("fix"));
    assert_eq!(app.msg, "handle null");
    let (mut app, _) = App::start(None, None, true, String::new(), false, String::new());
    app.generation_done("just words\nmore");
    assert!(app.commit_type.is_none());
    assert_eq!(app.msg, "just words");
}

#[test]
fn body_generation_and_spinners() {
    let mut app = menu_app();
    assert_eq!(app.poll_timeout_ms(), 10000);
    match press(&mut app, Key::Char('B')) {
        Effect::GenerateBody(subject) => assert_eq!(subject, "feat: add login"),
        _ => panic!("no request"),
    }
    assert!(app.body_pending);
    assert_eq!(app.poll_timeout_ms(), 80);
    for _ in 0..12 {
        app.tick();
    }
    assert_eq!(app.body_tick, 2);
    assert_eq!(app.body_label(), "[B] ⠹  generating…");
    app.body_done("Because.".to_string());
    assert!(!app.body_pending);
    assert_eq!(app.body_label(), "[b] body✓  [B] ai");
    match press(&mut app, Key::Enter) {
        Effect::Finish(m) => assert_eq!(m, "feat: add login\n\nBecause."),
        _ => panic!("no message"),
    }
    let (mut loading, _) = App::start(None, None, true, String::new(), false, String::new());
    for _ in 0..11 {
        loading.tick();
    }
    assert!(matches!(loading.mode, Mode::Loading { tick: 1 }));
    assert_eq!(loading.poll_timeout_ms(), 80);
}

#[test]
fn cancel_and_labels() {
    let mut app = menu_app();
    assert_eq!(app.scope_label(), "[s] scope");
    assert_eq!(app.breaking_label(), "[!]");
    assert_eq!(app.body_label(), "[b] body  [B] ai");
    app.scope = "core".to_string();
    app.breaking = true;
    assert_eq!(app.scope_label(), "[s] (core)");
    assert_eq!(app.breaking_label(), "[!] ✓");
    assert!(matches!(press(&mut app, Key::Char('q')), Effect::Abort));
    assert_eq!(choice_label("Proceed", true), "▶ Proceed");
    assert_eq!(choice_label("Improve", false), "  Improve");
    assert_eq!(loading_label(13), "  ⠸  generating…");
    assert_eq!(spinner_frame(0), "⠋");
    assert_eq!(spinner_frame(19), "⠏");
    assert_eq!(hint_text(&Mode::Loading { tick: 0 }, true), "");
    assert_eq!(hint_text(&Mode::Menu { selected: 0 }, false), "←/→ navigate   Enter select   s scope   ! breaking   b body   q cancel");
    assert_eq!(hint_text(&Mode::EditingBody { input: String::new() }, false), "Enter confirm   Esc back");
}

#[test]
fn preview_placeholder() {
    let (app, _) = App::start(None, Some("feat"), true, String::new(), false, String::new());
    assert_eq!(app.preview(), "feat: …");
}

#[test]
fn commit_panel_heights() {
    assert_eq!(panel_height("", 80), Some(3));
    assert_eq!(panel_height("short", 80), Some(5));
    assert_eq!(panel_height("a\nb", 80), Some(6));
    assert_eq!(panel_height("\n", 80), Some(5));
    assert_eq!(panel_height("abcdefghij", 11), Some(6));
    assert_eq!(panel_height("abcdefghijk", 11), Some(7));
    assert_eq!(panel_height("abc", 3), Some(7));
    assert_eq!(panel_height("1\n2\n3\n4\n5\n6\n7\n8\n9\n10", 80), Some(12));
    let huge = "x\n".repeat(70000);
    assert_eq!(panel_height(&huge, 80), None);
    let mut app = menu_app();
    press(&mut app, Key::Char('b'));
    press(&mut app, Key::Char('z'));
    assert_eq!(app.commit_panel_height(80), Some(5));
}

#[test]
fn changes_panel() {
    let stats = vec![
        FileStat { file: "src/ui.rs".to_string(), added: 180, deleted: 45 },
        FileStat { file: "a.rs".to_string(), added: 0, deleted: 7 },
    ];
    assert_eq!(changes_text(&stats), "src/ui.rs  +180  -45\na.rs       +0  -7");
    assert_eq!(changes_text(&Vec::new()), "");
    let mut s = String::new();
    push_decimal(&mut s, 1234567890);
    assert_eq!(s, "1234567890");
}

#[test]
fn inline_layouts() {
    let l = inline_layout(2, 40, "  Scope", "auth").expect("layout");
    assert_eq!((l.label_width, l.input_x, l.input_width, l.cursor_x), (9, 11, 31, 15));
    let l = inline_layout(0, 12, "  Scope", "abcdefgh").expect("layout");
    assert_eq!((l.label_width, l.input_x, l.input_width, l.cursor_x), (9, 9, 3, 11));
    assert!(inline_layout(0, 11, "  Scope", "").is_none());
    assert_eq!(actions_row(5, 1), 5);
    assert_eq!(actions_row(5, 4), 6);
    assert_eq!(actions_row(5, 0), 5);
}
