use gup::ai::{strip_fences, StreamAction, StreamChunk, StreamEvent, StreamState};

#[test]
fn strip_fences_plain_message() {
    assert_eq!(strip_fences("feat: add login"), "feat: add login");
}

#[test]
fn strip_fences_with_closing_fence() {
    let input = "```\nfeat: add login\n```";
    assert_eq!(strip_fences(input), "feat: add login");
}

#[test]
fn strip_fences_with_language_tag() {
    let input = "```text\nfix: handle null pointer\n```";
    assert_eq!(strip_fences(input), "fix: handle null pointer");
}

#[test]
fn strip_fences_multiline_keeps_first_line() {
    let input = "```\nfeat: add feature\nextra line\n```";
    assert_eq!(strip_fences(input), "feat: add feature\nextra line");
}

#[test]
fn strip_fences_unclosed_fence() {
    let input = "```\nfeat: add feature";
    assert_eq!(strip_fences(input), "feat: add feature");
}

#[test]
fn strip_fences_trailing_newline_and_crlf() {
    assert_eq!(strip_fences("```\r\nfeat: x\r\n```\r\n"), "feat: x");
    assert_eq!(strip_fences("```\n  fix: y  \n```  "), "fix: y");
}

#[test]
fn lone_fence_is_refused() {
    assert!(!gup::ai::strip_fences_accepts("```"));
    assert!(!gup::ai::strip_fences_accepts("```  \n"));
    assert!(!gup::ai::strip_fences_accepts("```\n"));
    assert!(gup::ai::strip_fences_accepts("```\n\n"));
    assert!(gup::ai::strip_fences_accepts("plain"));
    assert_eq!(strip_fences("```\n\n"), "");
}

#[test]
fn hint_prompt_with_type_scope_and_feedback() {
    let p = gup::ai::generate_with_hint("DIFF", Some("feat"), Some("shorter"), Some("auth"));
    assert_eq!(
        p,
        "Generate a conventional commit message for the following staged diff.\n\
         The commit type is fixed: 'feat'. Output ONLY the description after 'feat: ' — do NOT include the type prefix in your response.\n\
         The commit scope is 'auth' — factor this into your description if relevant, but do NOT include the type or scope prefix in your output.\n\
         Rules:\n\
         - Max 72 characters total\n\
         - Imperative mood (\"add\", not \"added\")\n\
         - Be specific, not generic\n\
         - Output ONLY the commit message line, nothing else\n\
         \nUser feedback on previous attempt: shorter\n\
         \nDiff:\nDIFF"
    );
}

#[test]
fn hint_prompt_open_type_no_scope_no_feedback() {
    let p = gup::ai::generate_with_hint("d", None, Some(""), Some(""));
    assert_eq!(
        p,
        "Generate a conventional commit message for the following staged diff.\n\
         Choose the most appropriate conventional commit type (feat, fix, docs, chore, refactor, test, style, perf, ci, build, revert). Output the full message as <type>: <description>.\n\
         Rules:\n\
         - Max 72 characters total\n\
         - Imperative mood (\"add\", not \"added\")\n\
         - Be specific, not generic\n\
         - Output ONLY the commit message line, nothing else\n\
         \nDiff:\nd"
    );
}

#[test]
fn body_prompt_text() {
    let p = gup::ai::generate_body("DIFF", "feat: add login");
    assert_eq!(
        p,
        "Write a short paragraph explaining WHY this change was made.\n\
         Commit subject: \"feat: add login\"\n\
         Rules:\n\
         - 2-4 sentences\n\
         - Explain the motivation and context, not what changed (the subject covers that)\n\
         - Wrap lines at 72 characters\n\
         - Plain prose, no bullets, no markdown\n\
         - Output ONLY the body paragraph, nothing else\n\
         Diff:\nDIFF"
    );
}

#[test]
fn stream_chunks() {
    let mut st = StreamState::new();
    assert!(matches!(st.step(StreamEvent::Line(String::new())), StreamAction::Continue));
    match st.step(StreamEvent::Line("{}".to_string())) {
        StreamAction::Decode(l) => assert_eq!(l, "{}"),
        _ => panic!("no decode"),
    }
    match st.step(StreamEvent::Decoded(StreamChunk { response: "feat".to_string(), done: false })) {
        StreamAction::Send(t) => assert_eq!(t, "feat"),
        _ => panic!("no send"),
    }
    assert!(matches!(st.step(StreamEvent::Sent { delivered: true }), StreamAction::Continue));
    assert!(matches!(
        st.step(StreamEvent::Decoded(StreamChunk { response: String::new(), done: false })),
        StreamAction::Continue
    ));
    match st.step(StreamEvent::Decoded(StreamChunk { response: "!".to_string(), done: true })) {
        StreamAction::Send(t) => assert_eq!(t, "!"),
        _ => panic!("no send"),
    }
    assert!(matches!(st.step(StreamEvent::Sent { delivered: true }), StreamAction::Stop));
    assert!(st.finished);
    assert!(matches!(st.step(StreamEvent::ReadFailed("x".to_string())), StreamAction::Stop));
}

#[test]
fn stream_errors_end_it() {
    let mut st = StreamState::new();
    match st.step(StreamEvent::DecodeFailed("bad json".to_string())) {
        StreamAction::SendError(m) => assert_eq!(m, "bad json"),
        _ => panic!("no error"),
    }
    assert!(matches!(st.step(StreamEvent::RequestFailed("y".to_string())), StreamAction::Stop));
    let mut st = StreamState::new();
    st.step(StreamEvent::Decoded(StreamChunk { response: "a".to_string(), done: false }));
    assert!(matches!(st.step(StreamEvent::Sent { delivered: false }), StreamAction::Stop));
    let mut st = StreamState::new();
    assert!(matches!(st.step(StreamEvent::Ended), StreamAction::Stop));
    let mut st = StreamState::new();
    assert!(matches!(
        st.step(StreamEvent::Decoded(StreamChunk { response: String::new(), done: true })),
        StreamAction::Stop
    ));
}
