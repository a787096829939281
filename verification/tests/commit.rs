use gup::commit::{build_commit_message, parse_commit_header, parse_full_commit};

#[test]
fn build_simple_type_desc() {
    assert_eq!(
        build_commit_message(Some("feat"), "", false, "add login", ""),
        "feat: add login"
    );
}

#[test]
fn build_with_scope() {
    assert_eq!(
        build_commit_message(Some("feat"), "auth", false, "add login", ""),
        "feat(auth): add login"
    );
}

#[test]
fn build_breaking_no_body() {
    assert_eq!(
        build_commit_message(Some("feat"), "auth", true, "add login", ""),
        "feat(auth)!: add login"
    );
}

#[test]
fn build_breaking_with_body() {
    assert_eq!(
        build_commit_message(Some("feat"), "", true, "rework API", "Details here"),
        "feat!: rework API\n\nBREAKING CHANGE: Details here"
    );
}

#[test]
fn build_body_no_breaking() {
    assert_eq!(
        build_commit_message(Some("fix"), "", false, "handle null", "Extra context"),
        "fix: handle null\n\nExtra context"
    );
}

#[test]
fn build_raw_no_type() {
    assert_eq!(
        build_commit_message(None, "", false, "raw commit message", ""),
        "raw commit message"
    );
}

#[test]
fn parse_header_simple() {
    let (t, s, b, d) = parse_commit_header("feat: add login");
    assert_eq!(t.as_deref(), Some("feat"));
    assert_eq!(s, None);
    assert!(!b);
    assert_eq!(d, "add login");
}

#[test]
fn parse_header_with_scope() {
    let (t, s, b, d) = parse_commit_header("feat(auth): add login");
    assert_eq!(t.as_deref(), Some("feat"));
    assert_eq!(s.as_deref(), Some("auth"));
    assert!(!b);
    assert_eq!(d, "add login");
}

#[test]
fn parse_header_breaking() {
    let (t, s, b, d) = parse_commit_header("feat(auth)!: rework API");
    assert_eq!(t.as_deref(), Some("feat"));
    assert_eq!(s.as_deref(), Some("auth"));
    assert!(b);
    assert_eq!(d, "rework API");
}

#[test]
fn parse_header_raw() {
    let (t, s, b, d) = parse_commit_header("raw commit message");
    assert_eq!(t, None);
    assert_eq!(s, None);
    assert!(!b);
    assert_eq!(d, "raw commit message");
}

#[test]
fn parse_full_roundtrip() {
    let message = "feat(auth)!: rework API\n\nBREAKING CHANGE: the auth API changed";
    let (t, s, b, d, body) = parse_full_commit(message);
    let rebuilt = build_commit_message(t.as_deref(), &s, b, &d, &body);
    assert_eq!(rebuilt, message);
}

#[test]
fn parse_full_with_body() {
    let raw = "fix: handle null\n\nSome description here";
    let (t, _s, b, d, body) = parse_full_commit(raw);
    assert_eq!(t.as_deref(), Some("fix"));
    assert!(!b);
    assert_eq!(d, "handle null");
    assert_eq!(body, "Some description here");
}

#[test]
fn parse_full_simple_header_only() {
    let (t, s, b, d, body) = parse_full_commit("chore: update deps");
    assert_eq!(t.as_deref(), Some("chore"));
    assert!(s.is_empty());
    assert!(!b);
    assert_eq!(d, "update deps");
    assert!(body.is_empty());
}
