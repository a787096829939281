//! Conventional commit messages: `<type>[(<scope>)][!]: <description>`,
//! optionally followed by a blank line and a body, which a breaking change
//! turns into a `BREAKING CHANGE:` footer.
use vstd::prelude::*;

use crate::text::{
    append_joined, append_range, chars_of, clean, clean_ranges, find, find_in, first_line,
    first_line_range, join, lemma_find, pieces, push_char, range_starts_with, split, split_ranges,
    starts_with, string_of, trim, trim_range, matches_at, lemma_find_at, is_ws, is_trimmed_text,
    lines, lemma_split_none, lemma_split_first, lemma_clean_append, lemma_clean_trimmed,
    lemma_join_split, lemma_split_nonempty, lemma_trim_after_space, lemma_trim_trimmed,
    ranges_within, lemma_join_cons,
};

verus! {

/// `": "`, which ends the prefix of a conventional header.
pub open spec fn colon_space() -> Seq<char> {
    seq![':', ' ']
}

/// `"\n\n"`, the blank line between paragraphs.
pub open spec fn blank_line() -> Seq<char> {
    seq!['\n', '\n']
}

/// `"BREAKING CHANGE:"`, the label of the breaking-change footer.
pub open spec fn footer_label() -> Seq<char> {
    seq!['B', 'R', 'E', 'A', 'K', 'I', 'N', 'G', ' ', 'C', 'H', 'A', 'N', 'G', 'E', ':']
}

pub open spec fn opt_str(o: Option<&str>) -> Option<Seq<char>> {
    match o {
        Some(t) => Some(t@),
        None => None,
    }
}

pub open spec fn opt_string(o: Option<String>) -> Option<Seq<char>> {
    match o {
        Some(t) => Some(t@),
        None => None,
    }
}

/// `"(scope)"`, or nothing for an empty scope.
pub open spec fn scope_part(scope: Seq<char>) -> Seq<char> {
    if scope.len() == 0 {
        seq![]
    } else {
        seq!['('] + scope + seq![')']
    }
}

/// `"!"` for a breaking change, or nothing.
pub open spec fn bang(breaking: bool) -> Seq<char> {
    if breaking {
        seq!['!']
    } else {
        seq![]
    }
}

/// The first line of a commit message. Without a type (or with an empty one)
/// it is the description alone.
pub open spec fn header(
    commit_type: Option<Seq<char>>,
    scope: Seq<char>,
    breaking: bool,
    desc: Seq<char>,
) -> Seq<char> {
    match commit_type {
        Some(t) => if t.len() == 0 {
            desc
        } else {
            t + scope_part(scope) + bang(breaking) + colon_space() + desc
        },
        None => desc,
    }
}

/// The whole commit message: the header, then, for a non-empty body, a blank
/// line and the body, introduced by `BREAKING CHANGE: ` for a breaking change.
pub open spec fn message(
    commit_type: Option<Seq<char>>,
    scope: Seq<char>,
    breaking: bool,
    desc: Seq<char>,
    body: Seq<char>,
) -> Seq<char> {
    let h = header(commit_type, scope, breaking, desc);
    if body.len() == 0 {
        h
    } else if breaking {
        h + blank_line() + footer_label() + seq![' '] + body
    } else {
        h + blank_line() + body
    }
}

/// Assembles a commit message from its parts.
pub fn build_commit_message(
    commit_type: Option<&str>,
    scope: &str,
    breaking: bool,
    desc: &str,
    body: &str,
) -> (r: String)
    ensures
        r@ == message(opt_str(commit_type), scope@, breaking, desc@, body@),
{
    let mut out = String::new();
    let typed = match commit_type {
        Some(t) => !t.is_empty(),
        None => false,
    };
    if typed {
        let t = commit_type.unwrap();
        out.append(t);
        if !scope.is_empty() {
            push_char(&mut out, '(');
            out.append(scope);
            push_char(&mut out, ')');
        }
        if breaking {
            push_char(&mut out, '!');
        }
        push_char(&mut out, ':');
        push_char(&mut out, ' ');
        out.append(desc);
        assert(out@ =~= header(opt_str(commit_type), scope@, breaking, desc@));
    } else {
        out.append(desc);
        assert(out@ =~= header(opt_str(commit_type), scope@, breaking, desc@));
    }
    if body.is_empty() {
        return out;
    }
    let ghost h = out@;
    push_char(&mut out, '\n');
    push_char(&mut out, '\n');
    if breaking {
        let label = "BREAKING CHANGE: ";
        proof {
            reveal_strlit("BREAKING CHANGE: ");
        }
        out.append(label);
        assert(label@ =~= footer_label() + seq![' ']);
    }
    out.append(body);
    assert(out@ =~= message(opt_str(commit_type), scope@, breaking, desc@, body@));
    out
}

/// What `parse_header` reads from a header line `h`: the type, the scope, the
/// breaking mark and the description. A line without `": "`, or with nothing
/// before it, has no type, and its description is the whole line. The scope is
/// the text between the first `(` and the first `)` before `": "`, when the `(`
/// comes first and something precedes it.
pub open spec fn parse_header(h: Seq<char>) -> (Option<Seq<char>>, Option<Seq<char>>, bool, Seq<char>) {
    match find(h, colon_space()) {
        None => (None, None, false, h),
        Some(c) => {
            let prefix0 = h.take(c);
            let desc = h.skip(c + 2);
            let breaking = prefix0.len() > 0 && prefix0.last() == '!';
            let prefix = if breaking {
                prefix0.drop_last()
            } else {
                prefix0
            };
            match (find(prefix, seq!['(']), find(prefix, seq![')'])) {
                (Some(ps), Some(pe)) => if 0 < ps < pe {
                    (Some(prefix.take(ps)), Some(prefix.subrange(ps + 1, pe)), breaking, desc)
                } else {
                    (Some(prefix), None, breaking, desc)
                },
                _ => if prefix.len() > 0 {
                    (Some(prefix), None, breaking, desc)
                } else {
                    (None, None, false, h)
                },
            }
        },
    }
}

/// Splits a header line into type, scope, breaking mark and description.
pub fn parse_commit_header(header: &str) -> (r: (Option<String>, Option<String>, bool, String))
    ensures
        (opt_string(r.0), opt_string(r.1), r.2, r.3@) == parse_header(header@),
{
    let v = chars_of(header);
    let n = v.len();
    assert(v@.subrange(0, n as int) =~= header@);
    let cs = vec![':', ' '];
    assert(cs@ =~= colon_space());
    match find_in(&v, 0, n, &cs) {
        Some(c) => {
            proof {
                lemma_find(header@, colon_space());
            }
            let breaking = c > 0 && v[c - 1] == '!';
            let pend = if breaking {
                c - 1
            } else {
                c
            };
            let ghost prefix0 = header@.take(c as int);
            let ghost prefix = if breaking {
                prefix0.drop_last()
            } else {
                prefix0
            };
            assert(prefix =~= v@.subrange(0, pend as int));
            assert(header@.skip(c + 2) =~= v@.subrange(c + 2, n as int));
            let op = vec!['('];
            let cp = vec![')'];
            assert(op@ =~= seq!['(']);
            assert(cp@ =~= seq![')']);
            let ps = find_in(&v, 0, pend, &op);
            let pe = find_in(&v, 0, pend, &cp);
            proof {
                lemma_find(prefix, seq!['(']);
                lemma_find(prefix, seq![')']);
            }
            let desc = string_of(&v, c + 2, n);
            match (ps, pe) {
                (Some(a), Some(b)) => {
                    if 0 < a && a < b {
                        assert(prefix.take(a as int) =~= v@.subrange(0, a as int));
                        assert(prefix.subrange(a + 1, b as int) =~= v@.subrange(a + 1, b as int));
                        return (
                            Some(string_of(&v, 0, a)),
                            Some(string_of(&v, a + 1, b)),
                            breaking,
                            desc,
                        );
                    }
                    return (Some(string_of(&v, 0, pend)), None, breaking, desc);
                },
                _ => {
                    if pend > 0 {
                        return (Some(string_of(&v, 0, pend)), None, breaking, desc);
                    }
                },
            }
        },
        None => {},
    }
    (None, None, false, string_of(&v, 0, n))
}

/// The paragraphs of a raw message: the pieces between blank lines, trimmed,
/// without the empty ones.
pub open spec fn paragraphs(raw: Seq<char>) -> Seq<Seq<char>> {
    clean(split(raw, blank_line()))
}

/// The body that a list of paragraphs carries after its first one. A last
/// paragraph that starts with `BREAKING CHANGE:` is the footer, not body; when
/// no other paragraph follows the header, the footer's text is the body.
pub open spec fn body_of(ps: Seq<Seq<char>>) -> Seq<char> {
    let last = ps.last();
    let has_footer = starts_with(last, footer_label());
    let body_ps = if ps.len() > 1 {
        if has_footer {
            ps.subrange(1, ps.len() - 1)
        } else {
            ps.subrange(1, ps.len() as int)
        }
    } else {
        seq![]
    };
    if body_ps.len() == 0 {
        if has_footer {
            trim(last.skip(footer_label().len() as int))
        } else {
            seq![]
        }
    } else {
        join(body_ps, blank_line())
    }
}

/// What `parse_full_commit` reads from a raw message: type, scope (empty when
/// absent), breaking flag, description and body. The header is the trimmed
/// first line of the first paragraph; a `BREAKING CHANGE:` footer also marks
/// the change as breaking.
pub open spec fn parse_full(raw: Seq<char>) -> (Option<Seq<char>>, Seq<char>, bool, Seq<char>, Seq<char>) {
    let ps = paragraphs(raw);
    if ps.len() == 0 {
        (None, seq![], false, seq![], seq![])
    } else {
        let hp = parse_header(trim(first_line(ps[0])));
        let scope = match hp.1 {
            Some(s) => s,
            None => seq![],
        };
        (hp.0, scope, hp.2 || starts_with(ps.last(), footer_label()), hp.3, body_of(ps))
    }
}

/// The bounds, inside `v`, of the paragraphs of `v`.
fn paragraph_ranges(v: &Vec<char>) -> (r: Vec<(usize, usize)>)
    ensures
        ranges_within(r@, 0, v.len() as int),
        pieces(v@, r@) == paragraphs(v@),
{
    let n = v.len();
    assert(v@.subrange(0, n as int) =~= v@);
    let sep = vec!['\n', '\n'];
    assert(sep@ =~= blank_line());
    let pieces_r = split_ranges(v, 0, n, &sep);
    clean_ranges(v, &pieces_r, 0, n)
}

/// The body that the paragraphs `paras` of `v` carry, given whether the last
/// one is a breaking-change footer.
fn body_from(v: &Vec<char>, paras: &Vec<(usize, usize)>, has_footer: bool) -> (body: String)
    requires
        paras.len() > 0,
        ranges_within(paras@, 0, v.len() as int),
        has_footer == starts_with(pieces(v@, paras@).last(), footer_label()),
    ensures
        body@ == body_of(pieces(v@, paras@)),
{
    let ghost ps = pieces(v@, paras@);
    let count = paras.len();
    let (q0, q1) = paras[count - 1];
    assert(0 <= paras@[count - 1].0 <= paras@[count - 1].1 <= v.len());
    assert(ps.last() == v@.subrange(q0 as int, q1 as int));
    let (lo, hi) = if count > 1 {
        if has_footer {
            (1, count - 1)
        } else {
            (1, count)
        }
    } else {
        (1, 1)
    };
    let mut body = String::new();
    if lo == hi {
        if has_footer {
            let (f0, f1) = trim_range(v, q0 + 16, q1);
            assert(v@.subrange(q0 as int, q1 as int).skip(16) =~= v@.subrange(q0 + 16, q1 as int));
            append_range(&mut body, v, f0, f1);
            assert(body@ =~= v@.subrange(f0 as int, f1 as int));
        }
    } else {
        let nn = "\n\n";
        proof {
            reveal_strlit("\n\n");
        }
        assert(nn@ =~= blank_line());
        append_joined(&mut body, v, paras, lo, hi, nn);
        assert(body@ =~= join(ps.subrange(lo as int, hi as int), blank_line()));
    }
    body
}

/// Reads type, scope, breaking flag, description and body back from a whole
/// commit message.
pub fn parse_full_commit(raw: &str) -> (r: (Option<String>, String, bool, String, String))
    ensures
        (opt_string(r.0), r.1@, r.2, r.3@, r.4@) == parse_full(raw@),
{
    let v = chars_of(raw);
    let n = v.len();
    let paras = paragraph_ranges(&v);
    let ghost ps = pieces(v@, paras@);
    let count = paras.len();
    if count == 0 {
        return (None, String::new(), false, String::new(), String::new());
    }
    let (p0, p1) = paras[0];
    assert(0 <= paras@[0].0 <= paras@[0].1 <= n);
    assert(ps[0] == v@.subrange(p0 as int, p1 as int));
    let (l0, l1) = first_line_range(&v, p0, p1);
    let (h0, h1) = trim_range(&v, l0, l1);
    let header_line = string_of(&v, h0, h1);
    let (commit_type, scope_opt, header_breaking, desc) = parse_commit_header(header_line.as_str());
    let scope = match scope_opt {
        Some(s) => s,
        None => String::new(),
    };
    let (q0, q1) = paras[count - 1];
    assert(0 <= paras@[count - 1].0 <= paras@[count - 1].1 <= n);
    assert(ps.last() == v@.subrange(q0 as int, q1 as int));
    let label = vec!['B', 'R', 'E', 'A', 'K', 'I', 'N', 'G', ' ', 'C', 'H', 'A', 'N', 'G', 'E', ':'];
    assert(label@ =~= footer_label());
    let has_footer = range_starts_with(&v, q0, q1, &label);
    let body = body_from(&v, &paras, has_footer);
    (commit_type, scope, header_breaking || has_footer, desc, body)
}

/// A commit type as a whole message can carry it: a header type without
/// whitespace.
pub open spec fn is_type_word(t: Seq<char>) -> bool {
    &&& is_header_type(t)
    &&& forall|i: int| 0 <= i < t.len() ==> !is_ws(#[trigger] t[i])
}

/// A commit type that a header line carries: not empty, and free of the
/// characters `:`, `(`, `)` and `!`. Whitespace is allowed.
pub open spec fn is_header_type(t: Seq<char>) -> bool {
    &&& t.len() > 0
    &&& forall|i: int|
        0 <= i < t.len() ==> {
            let c = #[trigger] t[i];
            c != ':' && c != '(' && c != ')' && c != '!'
        }
}

/// A scope as the header syntax can carry it: free of `:` and `)`.
pub open spec fn is_scope_text(s: Seq<char>) -> bool {
    forall|i: int|
        0 <= i < s.len() ==> {
            let c = #[trigger] s[i];
            c != ':' && c != ')'
        }
}

/// Text on one line.
pub open spec fn is_one_line(s: Seq<char>) -> bool {
    forall|i: int| 0 <= i < s.len() ==> #[trigger] s[i] != '\n'
}

/// The type, scope and breaking mark in front of `": "`.
pub open spec fn header_prefix(t: Seq<char>, scope: Seq<char>, breaking: bool) -> Seq<char> {
    t + scope_part(scope) + bang(breaking)
}

pub open spec fn opt_scope(scope: Seq<char>) -> Option<Seq<char>> {
    if scope.len() == 0 {
        None
    } else {
        Some(scope)
    }
}

proof fn lemma_prefix_chars(t: Seq<char>, scope: Seq<char>, breaking: bool)
    requires
        is_header_type(t),
        is_scope_text(scope),
    ensures
        forall|j: int|
            0 <= j < header_prefix(t, scope, breaking).len() ==> #[trigger] header_prefix(
                t,
                scope,
                breaking,
            )[j] != ':',
        header_prefix(t, scope, breaking).len() == t.len() + scope_part(scope).len() + bang(
            breaking,
        ).len(),
{
    let p = header_prefix(t, scope, breaking);
    assert forall|j: int| 0 <= j < p.len() implies #[trigger] p[j] != ':' by {
        if j < t.len() {
            assert(p[j] == t[j]);
        } else if j < t.len() + scope_part(scope).len() {
            assert(p[j] == scope_part(scope)[j - t.len()]);
            if scope.len() > 0 {
                let q = j - t.len();
                if 0 < q < scope.len() + 1 {
                    assert(scope_part(scope)[q] == scope[q - 1]);
                }
            }
        } else {
            assert(p[j] == bang(breaking)[j - t.len() - scope_part(scope).len()]);
        }
    }
}

/// Reading back a header that was built from a header type and a scope text
/// gives the type, the scope (none when empty), the breaking mark and the
/// description that went in.
pub proof fn lemma_parse_header_of_header(
    t: Seq<char>,
    scope: Seq<char>,
    breaking: bool,
    desc: Seq<char>,
)
    requires
        is_header_type(t),
        is_scope_text(scope),
    ensures
        parse_header(header(Some(t), scope, breaking, desc)) == (
            Some(t),
            opt_scope(scope),
            breaking,
            desc,
        ),
{
    let h = header(Some(t), scope, breaking, desc);
    let p = header_prefix(t, scope, breaking);
    let k = p.len() as int;
    lemma_prefix_chars(t, scope, breaking);
    assert(h =~= p + colon_space() + desc);
    assert(h.subrange(k, k + 2) =~= colon_space());
    assert forall|j: int| 0 <= j < k implies !#[trigger] matches_at(h, colon_space(), j) by {
        assert(h[j] == p[j]);
        if matches_at(h, colon_space(), j) {
            assert(h.subrange(j, j + 2)[0] == ':');
        }
    }
    lemma_find_at(h, colon_space(), k);
    assert(h.take(k) =~= p);
    assert(h.skip(k + 2) =~= desc);
    let pre = t + scope_part(scope);
    if breaking {
        assert(p.drop_last() =~= pre);
    } else {
        if scope.len() > 0 {
            assert(p.last() == ')');
        } else {
            assert(p.last() == t.last());
        }
        assert(p =~= pre);
    }
    assert(pre.len() > 0);
    let open_paren = seq!['('];
    let close_paren = seq![')'];
    lemma_find(pre, open_paren);
    lemma_find(pre, close_paren);
    if scope.len() > 0 {
        let ps = t.len() as int;
        let pe = (t.len() + 1 + scope.len()) as int;
        assert(pre[ps] == '(');
        assert(pre.subrange(ps, ps + 1) =~= open_paren);
        assert forall|j: int| 0 <= j < ps implies !#[trigger] matches_at(pre, open_paren, j) by {
            assert(pre[j] == t[j]);
            if matches_at(pre, open_paren, j) {
                assert(pre.subrange(j, j + 1)[0] == '(');
            }
        }
        lemma_find_at(pre, open_paren, ps);
        assert(pre[pe] == ')');
        assert(pre.subrange(pe, pe + 1) =~= close_paren);
        assert forall|j: int| 0 <= j < pe implies !#[trigger] matches_at(pre, close_paren, j) by {
            if j < ps {
                assert(pre[j] == t[j]);
            } else if j > ps {
                assert(pre[j] == scope[j - ps - 1]);
            }
            if matches_at(pre, close_paren, j) {
                assert(pre.subrange(j, j + 1)[0] == ')');
            }
        }
        lemma_find_at(pre, close_paren, pe);
        assert(pre.take(ps) =~= t);
        assert(pre.subrange(ps + 1, pe) =~= scope);
    } else {
        assert(pre =~= t);
        if let Some(f) = find(pre, open_paren) {
            assert(pre.subrange(f, f + 1)[0] == t[f]);
        }
    }
}

/// A description that a header line carries unchanged: not empty, on one
/// line, and not ending with whitespace.
pub open spec fn is_description(d: Seq<char>) -> bool {
    &&& d.len() > 0
    &&& !is_ws(d.last())
    &&& is_one_line(d)
}

/// A body that reads back unchanged after a header without the breaking mark:
/// empty, or paragraphs that are trimmed and not empty, the last of which does
/// not start like a breaking-change footer.
pub open spec fn is_plain_body(body: Seq<char>) -> bool {
    let ps = split(body, blank_line());
    body.len() == 0 || ((forall|k: int| 0 <= k < ps.len() ==> is_trimmed_text(#[trigger] ps[k]))
        && !starts_with(ps.last(), footer_label()))
}

/// A body that reads back unchanged from a breaking-change footer: empty, or a
/// single trimmed paragraph.
pub open spec fn is_footer_body(body: Seq<char>) -> bool {
    body.len() == 0 || (is_trimmed_text(body) && forall|j: int|
        !#[trigger] matches_at(body, blank_line(), j))
}

proof fn lemma_footer_label_chars()
    ensures
        forall|j: int|
            0 <= j < 16 ==> {
                let c = #[trigger] footer_label()[j];
                c != '(' && c != '!' && c != '\n' && (c == ':' ==> j == 15) && (is_ws(c) ==> j
                    == 8)
            },
        footer_label().len() == 16,
{
    let l = footer_label();
    assert forall|j: int| 0 <= j < 16 implies {
        let c = #[trigger] l[j];
        c != '(' && c != '!' && c != '\n' && (c == ':' ==> j == 15) && (is_ws(c) ==> j == 8)
    } by {
        if j == 0 {
        } else if j == 1 {
        } else if j == 2 {
        } else if j == 3 {
        } else if j == 4 {
        } else if j == 5 {
        } else if j == 6 {
        } else if j == 7 {
        } else if j == 8 {
        } else if j == 9 {
        } else if j == 10 {
        } else if j == 11 {
        } else if j == 12 {
        } else if j == 13 {
        } else if j == 14 {
        } else {
        }
    }
}

/// The header of a well-formed message: one trimmed line that does not start
/// like a breaking-change footer.
proof fn lemma_header_shape(t: Seq<char>, scope: Seq<char>, breaking: bool, desc: Seq<char>)
    requires
        is_type_word(t),
        is_scope_text(scope),
        is_one_line(scope),
        is_description(desc),
    ensures
        forall|i: int|
            0 <= i < header(Some(t), scope, breaking, desc).len() ==> #[trigger] header(
                Some(t),
                scope,
                breaking,
                desc,
            )[i] != '\n',
        is_trimmed_text(header(Some(t), scope, breaking, desc)),
        !starts_with(header(Some(t), scope, breaking, desc), footer_label()),
{
    let h = header(Some(t), scope, breaking, desc);
    let p = header_prefix(t, scope, breaking);
    assert(h =~= p + colon_space() + desc);
    assert forall|i: int| 0 <= i < h.len() implies #[trigger] h[i] != '\n' by {
        if i < t.len() {
            assert(h[i] == t[i]);
        } else if i < t.len() + scope_part(scope).len() {
            let q = i - t.len();
            assert(h[i] == scope_part(scope)[q]);
            if scope.len() > 0 && 0 < q < scope.len() + 1 {
                assert(scope_part(scope)[q] == scope[q - 1]);
            }
        } else if i < p.len() {
            assert(h[i] == bang(breaking)[i - t.len() - scope_part(scope).len()]);
        } else if i < p.len() + 2 {
            assert(h[i] == colon_space()[i - p.len()]);
        } else {
            assert(h[i] == desc[i - p.len() - 2]);
        }
    }
    assert(h[0] == t[0]);
    assert(h.last() == desc.last());
    lemma_footer_label_chars();
    if starts_with(h, footer_label()) {
        let tl = t.len() as int;
        if tl > 8 {
            assert(h.take(16)[8] == footer_label()[8]);
            assert(h[8] == t[8]);
        } else {
            assert(h.take(16)[tl] == footer_label()[tl]);
            if scope.len() > 0 {
                assert(h[tl] == '(');
            } else if breaking {
                assert(h[tl] == '!');
            } else {
                assert(h[tl] == ':');
            }
        }
    }
}

/// Reading back a message built from a type word, a scope text, a description
/// and a body that the format can carry gives exactly those parts.
pub proof fn lemma_parse_full_of_message(
    t: Seq<char>,
    scope: Seq<char>,
    breaking: bool,
    desc: Seq<char>,
    body: Seq<char>,
)
    requires
        is_type_word(t),
        is_scope_text(scope),
        is_one_line(scope),
        is_description(desc),
        breaking ==> is_footer_body(body),
        !breaking ==> is_plain_body(body),
    ensures
        parse_full(message(Some(t), scope, breaking, desc, body)) == (
            Some(t),
            scope,
            breaking,
            desc,
            body,
        ),
{
    let h = header(Some(t), scope, breaking, desc);
    let nn = blank_line();
    let raw = message(Some(t), scope, breaking, desc, body);
    lemma_header_shape(t, scope, breaking, desc);
    lemma_parse_header_of_header(t, scope, breaking, desc);
    lemma_trim_trimmed(h);
    // The header is one line.
    lemma_find(h, seq!['\n']);
    if let Some(f) = find(h, seq!['\n']) {
        assert(h.subrange(f, f + 1)[0] == h[f]);
    }
    assert(lines(h) == seq![h]);
    assert(first_line(h) == h);
    assert(forall|j: int| 0 <= j < h.len() ==> !#[trigger] matches_at(h + nn, nn, j)) by {
        assert forall|j: int| 0 <= j < h.len() implies !#[trigger] matches_at(h + nn, nn, j) by {
            if matches_at(h + nn, nn, j) {
                assert((h + nn).subrange(j, j + 2)[0] == (h + nn)[j]);
                assert((h + nn)[j] == h[j]);
            }
        }
    }
    let empty_scope = match opt_scope(scope) {
        Some(s) => s,
        None => seq![],
    };
    assert(empty_scope =~= scope);
    lemma_footer_label_chars();
    if body.len() == 0 {
        assert(raw == h);
        assert forall|j: int| !#[trigger] matches_at(h, nn, j) by {
            if matches_at(h, nn, j) {
                assert(h.subrange(j, j + 2)[0] == h[j]);
            }
        }
        lemma_split_none(h, nn);
        lemma_clean_trimmed(seq![h]);
        assert(paragraphs(raw) == seq![h]);
    } else if !breaking {
        assert(raw =~= h + nn + body);
        assert forall|j: int| 0 <= j < h.len() implies !#[trigger] matches_at(h + nn + body, nn, j) by {
            if matches_at(h + nn + body, nn, j) {
                assert((h + nn + body).subrange(j, j + 2)[0] == (h + nn + body)[j]);
                assert((h + nn + body)[j] == h[j]);
            }
        }
        lemma_split_first(h, nn, body);
        let bs = split(body, nn);
        lemma_split_nonempty(body, nn);
        lemma_clean_append(seq![h], bs);
        lemma_clean_trimmed(seq![h]);
        lemma_clean_trimmed(bs);
        let ps = paragraphs(raw);
        assert(ps =~= seq![h] + bs);
        assert(ps.subrange(1, ps.len() as int) =~= bs);
        assert(ps.last() == bs.last());
        lemma_join_split(body, nn);
    } else {
        let rest = footer_label() + seq![' '] + body;
        assert(raw =~= h + nn + rest);
        assert forall|j: int| 0 <= j < h.len() implies !#[trigger] matches_at(h + nn + rest, nn, j) by {
            if matches_at(h + nn + rest, nn, j) {
                assert((h + nn + rest).subrange(j, j + 2)[0] == (h + nn + rest)[j]);
                assert((h + nn + rest)[j] == h[j]);
            }
        }
        lemma_split_first(h, nn, rest);
        assert forall|j: int| !#[trigger] matches_at(rest, nn, j) by {
            if matches_at(rest, nn, j) {
                if j < 17 {
                    assert(rest.subrange(j, j + 2)[0] == rest[j]);
                    if j < 16 {
                        assert(rest[j] == footer_label()[j]);
                    }
                } else {
                    assert(rest.subrange(j, j + 2) =~= body.subrange(j - 17, j - 15));
                    assert(matches_at(body, nn, j - 17));
                }
            }
        }
        lemma_split_none(rest, nn);
        assert(rest[0] == 'B');
        assert(rest.last() == body.last());
        lemma_clean_append(seq![h], seq![rest]);
        lemma_clean_trimmed(seq![h]);
        lemma_clean_trimmed(seq![rest]);
        let ps = paragraphs(raw);
        assert(ps =~= seq![h, rest]);
        assert(rest.take(16) =~= footer_label());
        assert(rest.skip(16) =~= seq![' '] + body);
        lemma_trim_after_space(' ', body);
        lemma_trim_trimmed(body);
    }
}

/// Building a message from what `parse_full_commit` read back out of a
/// well-formed message gives that message again.
pub proof fn lemma_build_of_parse_full(
    t: Seq<char>,
    scope: Seq<char>,
    breaking: bool,
    desc: Seq<char>,
    body: Seq<char>,
)
    requires
        is_type_word(t),
        is_scope_text(scope),
        is_one_line(scope),
        is_description(desc),
        breaking ==> is_footer_body(body),
        !breaking ==> is_plain_body(body),
    ensures
        ({
            let m = message(Some(t), scope, breaking, desc, body);
            let p = parse_full(m);
            message(p.0, p.1, p.2, p.3, p.4) == m
        }),
{
    lemma_parse_full_of_message(t, scope, breaking, desc, body);
}

/// A paragraph as a message carries it: trimmed, not empty, without a blank
/// line inside.
pub open spec fn is_paragraph(p: Seq<char>) -> bool {
    is_trimmed_text(p) && forall|j: int| !#[trigger] matches_at(p, blank_line(), j)
}

/// No blank line starts inside the paragraph `p` of `p + "\n\n" + rest`.
proof fn lemma_no_blank_in_paragraph(p: Seq<char>, rest: Seq<char>)
    requires
        is_paragraph(p),
    ensures
        forall|j: int|
            0 <= j < p.len() ==> !#[trigger] matches_at(p + blank_line() + rest, blank_line(), j),
{
    let all = p + blank_line() + rest;
    assert forall|j: int| 0 <= j < p.len() implies !#[trigger] matches_at(all, blank_line(), j) by {
        if matches_at(all, blank_line(), j) {
            assert(all.subrange(j, j + 2)[0] == all[j]);
            assert(all.subrange(j, j + 2)[1] == all[j + 1]);
            if j + 1 < p.len() {
                assert(p.subrange(j, j + 2) =~= all.subrange(j, j + 2));
                assert(matches_at(p, blank_line(), j));
            } else {
                assert(all[j] == p.last());
            }
        }
    }
}

/// Splitting paragraphs joined by blank lines, followed by a blank line and
/// more text, gives the paragraphs and then the pieces of the rest.
proof fn lemma_split_joined(ps: Seq<Seq<char>>, rest: Seq<char>)
    requires
        ps.len() > 0,
        forall|k: int| 0 <= k < ps.len() ==> is_paragraph(#[trigger] ps[k]),
    ensures
        split(join(ps, blank_line()) + blank_line() + rest, blank_line()) == ps + split(
            rest,
            blank_line(),
        ),
    decreases ps.len(),
{
    let nn = blank_line();
    let p0 = ps[0];
    assert(is_paragraph(ps[0]));
    if ps.len() == 1 {
        assert(join(ps, nn) == p0);
        lemma_no_blank_in_paragraph(p0, rest);
        lemma_split_first(p0, nn, rest);
        assert(seq![p0] =~= ps);
    } else {
        let more = ps.drop_first();
        assert(ps =~= seq![p0] + more);
        lemma_join_cons(p0, more, nn);
        let tail = join(more, nn) + nn + rest;
        assert(join(ps, nn) + nn + rest =~= p0 + nn + tail);
        lemma_no_blank_in_paragraph(p0, tail);
        lemma_split_first(p0, nn, tail);
        assert forall|k: int| 0 <= k < more.len() implies is_paragraph(#[trigger] more[k]) by {
            assert(more[k] == ps[k + 1]);
        }
        lemma_split_joined(more, rest);
        assert(seq![p0] + (more + split(rest, nn)) =~= ps + split(rest, nn));
    }
}

/// A message whose body paragraphs are followed by a breaking-change footer
/// reads back as breaking, with every body paragraph kept, in order, and the
/// footer left out.
pub proof fn lemma_body_before_footer_kept(h: Seq<char>, ps: Seq<Seq<char>>, f: Seq<char>)
    requires
        is_paragraph(h),
        ps.len() > 0,
        forall|k: int| 0 <= k < ps.len() ==> is_paragraph(#[trigger] ps[k]),
        !starts_with(ps.last(), footer_label()),
        is_paragraph(f),
    ensures
        ({
            let raw = h + blank_line() + join(ps, blank_line()) + blank_line() + footer_label()
                + seq![' '] + f;
            parse_full(raw).2 && parse_full(raw).4 == join(ps, blank_line())
        }),
{
    let nn = blank_line();
    let foot = footer_label() + seq![' '] + f;
    let raw = h + nn + join(ps, nn) + nn + foot;
    let body = join(ps, nn) + nn + foot;
    assert(raw =~= h + nn + body);
    lemma_no_blank_in_paragraph(h, body);
    lemma_split_first(h, nn, body);
    lemma_split_joined(ps, foot);
    lemma_footer_label_chars();
    assert forall|j: int| !#[trigger] matches_at(foot, nn, j) by {
        if matches_at(foot, nn, j) {
            if j < 17 {
                assert(foot.subrange(j, j + 2)[0] == foot[j]);
                if j < 16 {
                    assert(foot[j] == footer_label()[j]);
                }
            } else {
                assert(foot.subrange(j, j + 2) =~= f.subrange(j - 17, j - 15));
                assert(matches_at(f, nn, j - 17));
            }
        }
    }
    lemma_split_none(foot, nn);
    assert(foot[0] == 'B');
    assert(foot.last() == f.last());
    let all = seq![h] + ps + seq![foot];
    assert(split(raw, nn) =~= all);
    assert forall|k: int| 0 <= k < all.len() implies is_trimmed_text(#[trigger] all[k]) by {
        if k == 0 {
        } else if k < all.len() - 1 {
            assert(all[k] == ps[k - 1]);
            assert(is_paragraph(ps[k - 1]));
        } else {
            assert(all[k] == foot);
        }
    }
    lemma_clean_trimmed(all);
    assert(paragraphs(raw) == all);
    assert(all.last() == foot);
    assert(foot.take(16) =~= footer_label());
    assert(all.subrange(1, all.len() - 1) =~= ps);
    assert(starts_with(all.last(), footer_label()));
    assert(body_of(all) == join(ps, nn));
    let raw2 = h + blank_line() + join(ps, blank_line()) + blank_line() + footer_label() + seq![' ']
        + f;
    assert(raw2 =~= raw);
    assert(parse_full(raw).4 == body_of(paragraphs(raw)));
}

} // verus!
