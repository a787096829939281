use gup::commit::{build_commit_message, parse_commit_header, parse_full_commit};

#[test]
fn header_reads_back() {
    for (t, s, b, d) in [
        ("feat", "", false, "add login"),
        ("fix", "api", true, "handle: colons in text"),
        ("chore", "deps", false, "bump (minor) versions"),
        ("BREAKING CHANGE", "", false, "spaced type"),
        (" my type ", "x y", true, "d"),
    ] {
        let h = build_commit_message(Some(t), s, b, d, "");
        let (pt, ps, pb, pd) = parse_commit_header(&h);
        assert_eq!(pt.as_deref(), Some(t));
        assert_eq!(ps.as_deref(), if s.is_empty() { None } else { Some(s) });
        assert_eq!(pb, b);
        assert_eq!(pd, d);
    }
}

#[test]
fn message_reads_back() {
    for (t, s, b, d, body) in [
        ("feat", "auth", true, "rework API", "the auth API changed"),
        ("fix", "", false, "handle null", "First paragraph.\n\nSecond paragraph."),
        ("docs", "readme", false, "explain usage", ""),
        ("perf", "", true, "faster parse", ""),
    ] {
        let m = build_commit_message(Some(t), s, b, d, body);
        let (pt, ps, pb, pd, pbody) = parse_full_commit(&m);
        assert_eq!(pt.as_deref(), Some(t));
        assert_eq!(ps, s);
        assert_eq!(pb, b);
        assert_eq!(pd, d);
        assert_eq!(pbody, body);
        assert_eq!(build_commit_message(pt.as_deref(), &ps, pb, &pd, &pbody), m);
    }
}

#[test]
fn parse_edge_cases() {
    let (t, s, b, d) = parse_commit_header("(x): y");
    assert_eq!((t.as_deref(), s.as_deref(), b, d.as_str()), (Some("(x)"), None, false, "y"));
    let (t, s, b, d) = parse_commit_header(": y");
    assert_eq!((t, s, b, d.as_str()), (None, None, false, ": y"));
    let (t, s, b, d) = parse_commit_header("!: y");
    assert_eq!((t, s, b, d.as_str()), (None, None, false, "!: y"));
    let (t, s, _, _) = parse_commit_header("feat)x(: y");
    assert_eq!((t.as_deref(), s), (Some("feat)x("), None));
    let (t, s, b, d, body) = parse_full_commit("");
    assert_eq!((t, s.as_str(), b, d.as_str(), body.as_str()), (None, "", false, "", ""));
    let (t, _, b, d, body) = parse_full_commit("  \n\nBREAKING CHANGE: gone  ");
    assert_eq!((t.as_deref(), b, d.as_str(), body.as_str()), (Some("BREAKING CHANGE"), true, "gone", "gone"));
    let (_, _, b, _, body) = parse_full_commit("feat: x\n\nwhy\n\nBREAKING CHANGE: what");
    assert!(b);
    assert_eq!(body, "why");
    let (_, _, _, d, _) = parse_full_commit("  feat: x \r\nsecond line\n\nbody");
    assert_eq!(d, "x");
}
