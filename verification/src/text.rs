//! Character-sequence operations with their mathematical meaning: searching,
//! splitting, trimming, line breaking and joining.
use vstd::prelude::*;

verus! {

/// `pat` occurs in `s` starting at index `i`.
pub open spec fn matches_at(s: Seq<char>, pat: Seq<char>, i: int) -> bool {
    0 <= i && i + pat.len() <= s.len() && s.subrange(i, i + pat.len()) == pat
}

/// The first index at or after `i` where `pat` occurs in `s`.
pub open spec fn find_from(s: Seq<char>, pat: Seq<char>, i: nat) -> Option<int>
    decreases s.len() - i,
{
    if i + pat.len() > s.len() {
        None
    } else if matches_at(s, pat, i as int) {
        Some(i as int)
    } else if i >= s.len() {
        None
    } else {
        find_from(s, pat, i + 1)
    }
}

/// The first index where `pat` occurs in `s`, as `str::find` reports it.
pub open spec fn find(s: Seq<char>, pat: Seq<char>) -> Option<int> {
    find_from(s, pat, 0)
}

pub proof fn lemma_find_from(s: Seq<char>, pat: Seq<char>, i: nat)
    requires
        pat.len() > 0,
    ensures
        match find_from(s, pat, i) {
            Some(k) => i <= k && matches_at(s, pat, k) && forall|j: int|
                i <= j < k ==> !#[trigger] matches_at(s, pat, j),
            None => forall|j: int| i <= j ==> !#[trigger] matches_at(s, pat, j),
        },
    decreases s.len() - i,
{
    if i + pat.len() > s.len() {
    } else if matches_at(s, pat, i as int) {
    } else if i >= s.len() {
    } else {
        lemma_find_from(s, pat, i + 1);
        assert forall|j: int| i <= j < i + 1 implies !#[trigger] matches_at(s, pat, j) by {
            assert(j == i);
        }
    }
}

/// `find` gives the first occurrence, or `None` when there is none.
pub proof fn lemma_find(s: Seq<char>, pat: Seq<char>)
    requires
        pat.len() > 0,
    ensures
        match find(s, pat) {
            Some(k) => 0 <= k && k + pat.len() <= s.len() && matches_at(s, pat, k) && forall|j: int|
                0 <= j < k ==> !#[trigger] matches_at(s, pat, j),
            None => forall|j: int| !#[trigger] matches_at(s, pat, j),
        },
{
    lemma_find_from(s, pat, 0);
    if find(s, pat) is None {
        assert forall|j: int| !#[trigger] matches_at(s, pat, j) by {
            if j >= 0 {
            }
        }
    }
}

/// The first occurrence is at `k` when `pat` occurs at `k` and nowhere before.
pub proof fn lemma_find_at(s: Seq<char>, pat: Seq<char>, k: int)
    requires
        pat.len() > 0,
        matches_at(s, pat, k),
        forall|j: int| 0 <= j < k ==> !#[trigger] matches_at(s, pat, j),
    ensures
        find(s, pat) == Some(k),
{
    lemma_find(s, pat);
    match find(s, pat) {
        Some(f) => {
            if f < k {
                assert(matches_at(s, pat, f));
            }
        },
        None => {
            assert(matches_at(s, pat, k));
        },
    }
}

pub open spec fn opt_usize(o: Option<usize>) -> Option<int> {
    match o {
        Some(k) => Some(k as int),
        None => None,
    }
}

/// Whether `pat` occurs in `s[a..b]` at relative index `i`.
fn matches_in(s: &Vec<char>, a: usize, b: usize, pat: &Vec<char>, i: usize) -> (r: bool)
    requires
        a <= b <= s.len(),
        i + pat.len() <= b - a,
    ensures
        r == matches_at(s@.subrange(a as int, b as int), pat@, i as int),
{
    let ghost sub = s@.subrange(a as int, b as int);
    let mut j: usize = 0;
    while j < pat.len()
        invariant
            sub == s@.subrange(a as int, b as int),
            a <= b <= s.len(),
            i + pat.len() <= b - a,
            j <= pat.len(),
            forall|t: int| 0 <= t < j ==> sub[i + t] == pat@[t],
        decreases pat.len() - j,
    {
        if s[a + i + j] != pat[j] {
            assert(sub.subrange(i as int, i + pat.len())[j as int] != pat@[j as int]);
            return false;
        }
        j += 1;
    }
    assert(sub.subrange(i as int, i + pat.len()) =~= pat@);
    true
}

/// The first index, relative to `a`, where `pat` occurs in `s[a..b]`.
pub fn find_in(s: &Vec<char>, a: usize, b: usize, pat: &Vec<char>) -> (r: Option<usize>)
    requires
        a <= b <= s.len(),
        pat.len() > 0,
    ensures
        opt_usize(r) == find(s@.subrange(a as int, b as int), pat@),
{
    let ghost sub = s@.subrange(a as int, b as int);
    let n = b - a;
    let mut i: usize = 0;
    while pat.len() <= n - i
        invariant
            sub == s@.subrange(a as int, b as int),
            a <= b <= s.len(),
            n == b - a,
            pat.len() > 0,
            i <= n,
            find(sub, pat@) == find_from(sub, pat@, i as nat),
        decreases n - i,
    {
        if matches_in(s, a, b, pat, i) {
            return Some(i);
        }
        i += 1;
    }
    None
}

/// Calls `String::push`, which appends one character; the contract claims
/// that the text afterwards is the text before with `c` at its end.
#[verifier::external_body]
pub(crate) fn push_char(s: &mut String, c: char)
    ensures
        final(s)@ == old(s)@.push(c),
{
    s.push(c);
}

/// The characters of `s`, in order.
pub fn chars_of(s: &str) -> (v: Vec<char>)
    ensures
        v@ == s@,
{
    let mut v: Vec<char> = Vec::new();
    for c in it: s.chars()
        invariant
            v@ == it.seq().take(it.index() as int),
    {
        v.push(c);
    }
    v
}

/// Appends the characters of `v[a..b]` to `s`.
pub fn append_range(s: &mut String, v: &Vec<char>, a: usize, b: usize)
    requires
        a <= b <= v.len(),
    ensures
        final(s)@ == old(s)@ + v@.subrange(a as int, b as int),
{
    let ghost start = s@;
    let mut i = a;
    while i < b
        invariant
            a <= i <= b <= v.len(),
            s@ == start + v@.subrange(a as int, i as int),
        decreases b - i,
    {
        push_char(s, v[i]);
        assert(v@.subrange(a as int, i + 1) =~= v@.subrange(a as int, i as int).push(v@[i as int]));
        i += 1;
    }
}

/// The characters of `v[a..b]` as a `String`.
pub fn string_of(v: &Vec<char>, a: usize, b: usize) -> (s: String)
    requires
        a <= b <= v.len(),
    ensures
        s@ == v@.subrange(a as int, b as int),
{
    let mut s = String::new();
    append_range(&mut s, v, a, b);
    assert(Seq::<char>::empty() + v@.subrange(a as int, b as int) =~= v@.subrange(a as int, b as int));
    s
}

/// `s` begins with `p`.
pub open spec fn starts_with(s: Seq<char>, p: Seq<char>) -> bool {
    p.len() <= s.len() && s.take(p.len() as int) == p
}

/// Whether `v[a..b]` begins with `p`.
pub fn range_starts_with(v: &Vec<char>, a: usize, b: usize, p: &Vec<char>) -> (r: bool)
    requires
        a <= b <= v.len(),
    ensures
        r == starts_with(v@.subrange(a as int, b as int), p@),
{
    if p.len() > b - a {
        return false;
    }
    let mut j: usize = 0;
    while j < p.len()
        invariant
            a <= b <= v.len(),
            p.len() <= b - a,
            j <= p.len(),
            forall|t: int| 0 <= t < j ==> v@[a + t] == p@[t],
        decreases p.len() - j,
    {
        if v[a + j] != p[j] {
            assert(v@.subrange(a as int, b as int).take(p.len() as int)[j as int] != p@[j as int]);
            return false;
        }
        j += 1;
    }
    assert(v@.subrange(a as int, b as int).take(p.len() as int) =~= p@);
    true
}

/// Unicode `White_Space`, the property that `char::is_whitespace` tests.
pub open spec fn is_ws(c: char) -> bool {
    ||| '\t' <= c <= '\r'
    ||| c == ' '
    ||| c == '\u{85}'
    ||| c == '\u{a0}'
    ||| c == '\u{1680}'
    ||| '\u{2000}' <= c <= '\u{200a}'
    ||| c == '\u{2028}'
    ||| c == '\u{2029}'
    ||| c == '\u{202f}'
    ||| c == '\u{205f}'
    ||| c == '\u{3000}'
}

pub fn is_whitespace(c: char) -> (r: bool)
    ensures
        r == is_ws(c),
{
    ('\t' <= c && c <= '\r') || c == ' ' || c == '\u{85}' || c == '\u{a0}' || c == '\u{1680}'
        || ('\u{2000}' <= c && c <= '\u{200a}') || c == '\u{2028}' || c == '\u{2029}' || c
        == '\u{202f}' || c == '\u{205f}' || c == '\u{3000}'
}

/// `s` without its leading whitespace.
pub open spec fn trim_start(s: Seq<char>) -> Seq<char>
    decreases s.len(),
{
    if s.len() > 0 && is_ws(s[0]) {
        trim_start(s.drop_first())
    } else {
        s
    }
}

/// `s` without its trailing whitespace.
pub open spec fn trim_end(s: Seq<char>) -> Seq<char>
    decreases s.len(),
{
    if s.len() > 0 && is_ws(s.last()) {
        trim_end(s.drop_last())
    } else {
        s
    }
}

/// `s` without leading and trailing whitespace, as `str::trim` gives it.
pub open spec fn trim(s: Seq<char>) -> Seq<char> {
    trim_end(trim_start(s))
}

/// The bounds of `trim(v[a..b])` inside `v`.
pub fn trim_range(v: &Vec<char>, a: usize, b: usize) -> (r: (usize, usize))
    requires
        a <= b <= v.len(),
    ensures
        a <= r.0 <= r.1 <= b,
        v@.subrange(r.0 as int, r.1 as int) == trim(v@.subrange(a as int, b as int)),
{
    let mut i = a;
    while i < b && is_whitespace(v[i])
        invariant
            a <= i <= b <= v.len(),
            trim_start(v@.subrange(a as int, b as int)) == trim_start(v@.subrange(i as int, b as int)),
        decreases b - i,
    {
        assert(v@.subrange(i as int, b as int).drop_first() =~= v@.subrange(i + 1, b as int));
        i += 1;
    }
    let mut j = b;
    while j > i && is_whitespace(v[j - 1])
        invariant
            a <= i <= j <= b <= v.len(),
            trim_end(v@.subrange(i as int, b as int)) == trim_end(v@.subrange(i as int, j as int)),
        decreases j - i,
    {
        assert(v@.subrange(i as int, j as int).drop_last() =~= v@.subrange(i as int, j - 1));
        j -= 1;
    }
    (i, j)
}

/// The pieces of `s` between the non-overlapping occurrences of `sep`, left to
/// right, as `str::split` gives them.
pub open spec fn split(s: Seq<char>, sep: Seq<char>) -> Seq<Seq<char>>
    decreases s.len(),
{
    if sep.len() == 0 {
        seq![s]
    } else {
        match find(s, sep) {
            Some(i) => {
                proof {
                    lemma_find(s, sep);
                }
                seq![s.take(i)] + split(s.skip(i + sep.len()), sep)
            },
            None => seq![s],
        }
    }
}

/// `l` without one trailing carriage return.
pub open spec fn strip_cr(l: Seq<char>) -> Seq<char> {
    if l.len() > 0 && l.last() == '\r' {
        l.drop_last()
    } else {
        l
    }
}

/// The lines of `s`, as `str::lines` gives them: split at each newline, a
/// carriage return before the newline dropped, no empty last line after a
/// final newline.
pub open spec fn lines(s: Seq<char>) -> Seq<Seq<char>>
    decreases s.len(),
{
    if s.len() == 0 {
        seq![]
    } else {
        match find(s, seq!['\n']) {
            Some(i) => {
                proof {
                    lemma_find(s, seq!['\n']);
                }
                seq![strip_cr(s.take(i))] + lines(s.skip(i + 1))
            },
            None => seq![s],
        }
    }
}

/// The parts joined with `sep` between consecutive parts.
pub open spec fn join(parts: Seq<Seq<char>>, sep: Seq<char>) -> Seq<char>
    decreases parts.len(),
{
    if parts.len() == 0 {
        seq![]
    } else if parts.len() == 1 {
        parts[0]
    } else {
        join(parts.drop_last(), sep) + sep + parts.last()
    }
}

/// The parts, each trimmed, without those that trimming leaves empty.
pub open spec fn clean(parts: Seq<Seq<char>>) -> Seq<Seq<char>>
    decreases parts.len(),
{
    if parts.len() == 0 {
        seq![]
    } else {
        let rest = clean(parts.drop_last());
        let t = trim(parts.last());
        if t.len() == 0 {
            rest
        } else {
            rest.push(t)
        }
    }
}

/// The pieces of `s` that the index pairs in `r` delimit.
pub open spec fn pieces(s: Seq<char>, r: Seq<(usize, usize)>) -> Seq<Seq<char>> {
    r.map_values(|p: (usize, usize)| s.subrange(p.0 as int, p.1 as int))
}

pub open spec fn ranges_within(r: Seq<(usize, usize)>, a: int, b: int) -> bool {
    forall|k: int| 0 <= k < r.len() ==> a <= #[trigger] r[k].0 <= r[k].1 <= b
}

/// The bounds, inside `v`, of the pieces of `v[a..b]` between occurrences of `sep`.
pub fn split_ranges(v: &Vec<char>, a: usize, b: usize, sep: &Vec<char>) -> (r: Vec<(usize, usize)>)
    requires
        a <= b <= v.len(),
        sep.len() > 0,
    ensures
        ranges_within(r@, a as int, b as int),
        pieces(v@, r@) == split(v@.subrange(a as int, b as int), sep@),
{
    let mut r: Vec<(usize, usize)> = Vec::new();
    let mut pos = a;
    loop
        invariant
            a <= pos <= b <= v.len(),
            sep.len() > 0,
            ranges_within(r@, a as int, b as int),
            split(v@.subrange(a as int, b as int), sep@) == pieces(v@, r@) + split(
                v@.subrange(pos as int, b as int),
                sep@,
            ),
        decreases b - pos,
    {
        let ghost sub = v@.subrange(pos as int, b as int);
        proof {
            lemma_find(sub, sep@);
        }
        let ghost before = r@;
        match find_in(v, pos, b, sep) {
            Some(i) => {
                assert(sub.take(i as int) =~= v@.subrange(pos as int, pos + i));
                assert(sub.skip(i + sep.len()) =~= v@.subrange(pos + i + sep.len(), b as int));
                r.push((pos, pos + i));
                assert(pieces(v@, r@) =~= pieces(v@, before).push(sub.take(i as int)));
                assert(split(sub, sep@) == seq![sub.take(i as int)] + split(sub.skip(i + sep.len()), sep@));
                assert(pieces(v@, before) + split(sub, sep@) =~= pieces(v@, r@) + split(
                    sub.skip(i + sep.len()),
                    sep@,
                ));
                pos = pos + i + sep.len();
            },
            None => {
                r.push((pos, b));
                assert(pieces(v@, r@) =~= pieces(v@, before).push(sub));
                assert(split(sub, sep@) == seq![sub]);
                assert(pieces(v@, before) + seq![sub] =~= pieces(v@, r@));
                return r;
            },
        }
    }
}

/// The first line of `p`, or nothing when `p` is empty.
pub open spec fn first_line(p: Seq<char>) -> Seq<char> {
    if lines(p).len() == 0 {
        seq![]
    } else {
        lines(p)[0]
    }
}

/// The bounds, inside `v`, of the first line of `v[a..b]`.
pub fn first_line_range(v: &Vec<char>, a: usize, b: usize) -> (r: (usize, usize))
    requires
        a <= b <= v.len(),
    ensures
        a <= r.0 <= r.1 <= b,
        v@.subrange(r.0 as int, r.1 as int) == first_line(v@.subrange(a as int, b as int)),
{
    let ghost sub = v@.subrange(a as int, b as int);
    if a == b {
        assert(lines(sub) == Seq::<Seq<char>>::empty());
        assert(v@.subrange(a as int, a as int) =~= Seq::<char>::empty());
        return (a, a);
    }
    let nl = vec!['\n'];
    assert(nl@ =~= seq!['\n']);
    proof {
        lemma_find(sub, seq!['\n']);
    }
    match find_in(v, a, b, &nl) {
        Some(i) => {
            let ghost l = sub.take(i as int);
            assert(lines(sub)[0] == strip_cr(l));
            assert(l =~= v@.subrange(a as int, a + i));
            if i > 0 && v[a + i - 1] == '\r' {
                assert(l.drop_last() =~= v@.subrange(a as int, a + i - 1));
                (a, a + i - 1)
            } else {
                (a, a + i)
            }
        },
        None => {
            assert(lines(sub)[0] == sub);
            (a, b)
        },
    }
}

/// The bounds, inside `v`, of the paragraphs of `v[a..b]`: the pieces between
/// blank lines, trimmed, without the empty ones.
pub fn clean_ranges(v: &Vec<char>, r: &Vec<(usize, usize)>, a: usize, b: usize) -> (out: Vec<(usize, usize)>)
    requires
        a <= b <= v.len(),
        ranges_within(r@, a as int, b as int),
    ensures
        ranges_within(out@, a as int, b as int),
        forall|k: int| 0 <= k < out@.len() ==> #[trigger] out@[k].0 < out@[k].1,
        pieces(v@, out@) == clean(pieces(v@, r@)),
{
    let mut out: Vec<(usize, usize)> = Vec::new();
    let mut k: usize = 0;
    while k < r.len()
        invariant
            a <= b <= v.len(),
            ranges_within(r@, a as int, b as int),
            k <= r.len(),
            ranges_within(out@, a as int, b as int),
            forall|j: int| 0 <= j < out@.len() ==> #[trigger] out@[j].0 < out@[j].1,
            pieces(v@, out@) == clean(pieces(v@, r@).take(k as int)),
        decreases r.len() - k,
    {
        let (p0, p1) = r[k];
        assert(a <= r@[k as int].0 <= r@[k as int].1 <= b);
        let (t0, t1) = trim_range(v, p0, p1);
        let ghost before = out@;
        let ghost ps = pieces(v@, r@);
        assert(ps.take(k + 1).drop_last() =~= ps.take(k as int));
        assert(ps.take(k + 1).last() == ps[k as int]);
        if t0 < t1 {
            out.push((t0, t1));
            assert(pieces(v@, out@) =~= pieces(v@, before).push(v@.subrange(t0 as int, t1 as int)));
        }
        k += 1;
    }
    assert(pieces(v@, r@).take(r.len() as int) =~= pieces(v@, r@));
    out
}

/// The pieces that `r[lo..hi]` delimits in `v`, joined with `sep`, appended to `s`.
pub fn append_joined(
    s: &mut String,
    v: &Vec<char>,
    r: &Vec<(usize, usize)>,
    lo: usize,
    hi: usize,
    sep: &str,
)
    requires
        lo <= hi <= r.len(),
        ranges_within(r@, 0, v.len() as int),
    ensures
        final(s)@ == old(s)@ + join(pieces(v@, r@).subrange(lo as int, hi as int), sep@),
{
    let ghost start = s@;
    let ghost ps = pieces(v@, r@);
    let mut k = lo;
    assert(ps.subrange(lo as int, lo as int).len() == 0);
    assert(start + Seq::<char>::empty() =~= start);
    while k < hi
        invariant
            lo <= k <= hi <= r.len(),
            ranges_within(r@, 0, v.len() as int),
            ps == pieces(v@, r@),
            s@ == start + join(ps.subrange(lo as int, k as int), sep@),
        decreases hi - k,
    {
        let ghost before = s@;
        let (p0, p1) = r[k];
        assert(0 <= r@[k as int].0 <= r@[k as int].1 <= v.len());
        if k > lo {
            s.append(sep);
        }
        append_range(s, v, p0, p1);
        let ghost sub = ps.subrange(lo as int, k + 1);
        assert(sub.drop_last() =~= ps.subrange(lo as int, k as int));
        assert(sub.last() == ps[k as int]);
        if k > lo {
            assert(s@ =~= start + join(sub, sep@));
        } else {
            assert(s@ =~= start + join(sub, sep@));
        }
        k += 1;
    }
}

/// Text that trimming leaves as it is: not empty, and neither starting nor
/// ending with whitespace.
pub open spec fn is_trimmed_text(p: Seq<char>) -> bool {
    p.len() > 0 && !is_ws(p[0]) && !is_ws(p.last())
}

pub proof fn lemma_trim_trimmed(p: Seq<char>)
    requires
        is_trimmed_text(p),
    ensures
        trim(p) == p,
{
}

/// Leading whitespace does not change what trimming gives.
pub proof fn lemma_trim_after_space(c: char, p: Seq<char>)
    requires
        is_ws(c),
    ensures
        trim(seq![c] + p) == trim(p),
{
    assert((seq![c] + p).drop_first() =~= p);
}

pub proof fn lemma_split_nonempty(s: Seq<char>, sep: Seq<char>)
    ensures
        split(s, sep).len() >= 1,
{
}

/// Without any occurrence of the separator, splitting gives one piece.
pub proof fn lemma_split_none(s: Seq<char>, sep: Seq<char>)
    requires
        sep.len() > 0,
        forall|j: int| !#[trigger] matches_at(s, sep, j),
    ensures
        split(s, sep) == seq![s],
{
    lemma_find(s, sep);
}

/// Splitting `x + sep + y`, where the separator does not occur earlier, gives
/// `x` and then the pieces of `y`.
pub proof fn lemma_split_first(x: Seq<char>, sep: Seq<char>, y: Seq<char>)
    requires
        sep.len() > 0,
        forall|j: int| 0 <= j < x.len() ==> !#[trigger] matches_at(x + sep + y, sep, j),
    ensures
        split(x + sep + y, sep) == seq![x] + split(y, sep),
{
    let s = x + sep + y;
    assert(s.subrange(x.len() as int, (x.len() + sep.len()) as int) =~= sep);
    lemma_find_at(s, sep, x.len() as int);
    assert(s.take(x.len() as int) =~= x);
    assert(s.skip((x.len() + sep.len()) as int) =~= y);
}

pub proof fn lemma_join_cons(a: Seq<char>, xs: Seq<Seq<char>>, sep: Seq<char>)
    requires
        xs.len() > 0,
    ensures
        join(seq![a] + xs, sep) == a + sep + join(xs, sep),
    decreases xs.len(),
{
    let all = seq![a] + xs;
    if xs.len() == 1 {
        assert(all.drop_last() =~= seq![a]);
        assert(join(seq![a], sep) == a);
        assert(all.last() == xs[0]);
        assert(join(xs, sep) == xs[0]);
    } else {
        assert(all.drop_last() =~= seq![a] + xs.drop_last());
        lemma_join_cons(a, xs.drop_last(), sep);
        assert(all.last() == xs.last());
        assert(join(all, sep) == join(all.drop_last(), sep) + sep + all.last());
        assert(join(xs, sep) == join(xs.drop_last(), sep) + sep + xs.last());
        assert(a + sep + join(xs.drop_last(), sep) + sep + xs.last() =~= a + sep + (join(
            xs.drop_last(),
            sep,
        ) + sep + xs.last()));
    }
}

/// Joining the pieces of a split with the same separator gives back the text.
pub proof fn lemma_join_split(s: Seq<char>, sep: Seq<char>)
    requires
        sep.len() > 0,
    ensures
        join(split(s, sep), sep) == s,
    decreases s.len(),
{
    lemma_find(s, sep);
    match find(s, sep) {
        Some(i) => {
            let rest = s.skip(i + sep.len());
            lemma_join_split(rest, sep);
            lemma_split_nonempty(rest, sep);
            lemma_join_cons(s.take(i), split(rest, sep), sep);
            assert(s.subrange(i, i + sep.len()) == sep);
            assert(s =~= s.take(i) + sep + rest);
        },
        None => {},
    }
}

/// Cleaning works piecewise.
pub proof fn lemma_clean_append(a: Seq<Seq<char>>, b: Seq<Seq<char>>)
    ensures
        clean(a + b) == clean(a) + clean(b),
    decreases b.len(),
{
    if b.len() == 0 {
        assert(a + b =~= a);
        assert(clean(a) + clean(b) =~= clean(a));
    } else {
        lemma_clean_append(a, b.drop_last());
        assert((a + b).drop_last() =~= a + b.drop_last());
        assert((a + b).last() == b.last());
        let t = trim(b.last());
        if t.len() == 0 {
        } else {
            assert(clean(a) + clean(b.drop_last()).push(t) =~= (clean(a) + clean(b.drop_last())).push(t));
        }
    }
}

/// Cleaning keeps parts that are already trimmed and not empty.
pub proof fn lemma_clean_trimmed(xs: Seq<Seq<char>>)
    requires
        forall|k: int| 0 <= k < xs.len() ==> is_trimmed_text(#[trigger] xs[k]),
    ensures
        clean(xs) == xs,
    decreases xs.len(),
{
    if xs.len() > 0 {
        lemma_clean_trimmed(xs.drop_last());
        assert(is_trimmed_text(xs[xs.len() - 1]));
        assert(xs.drop_last().push(xs.last()) =~= xs);
    }
}

/// Whether two texts are equal.
pub fn same_text(a: &str, b: &str) -> (r: bool)
    ensures
        r == (a@ == b@),
{
    let x = chars_of(a);
    let y = chars_of(b);
    if x.len() != y.len() {
        return false;
    }
    let mut i: usize = 0;
    while i < x.len()
        invariant
            x@ == a@,
            y@ == b@,
            x.len() == y.len(),
            i <= x.len(),
            forall|j: int| 0 <= j < i ==> x@[j] == y@[j],
        decreases x.len() - i,
    {
        if x[i] != y[i] {
            return false;
        }
        i += 1;
    }
    assert(x@ =~= y@);
    true
}

/// The bounds, inside `v`, of the lines of `v[a..b]`.
pub fn line_ranges(v: &Vec<char>, a: usize, b: usize) -> (r: Vec<(usize, usize)>)
    requires
        a <= b <= v.len(),
    ensures
        ranges_within(r@, a as int, b as int),
        pieces(v@, r@) == lines(v@.subrange(a as int, b as int)),
{
    let mut r: Vec<(usize, usize)> = Vec::new();
    let nl = vec!['\n'];
    assert(nl@ =~= seq!['\n']);
    let mut pos = a;
    while pos < b
        invariant
            a <= pos <= b <= v.len(),
            nl@ == seq!['\n'],
            ranges_within(r@, a as int, b as int),
            lines(v@.subrange(a as int, b as int)) == pieces(v@, r@) + lines(
                v@.subrange(pos as int, b as int),
            ),
        decreases b - pos,
    {
        let ghost sub = v@.subrange(pos as int, b as int);
        let ghost before = r@;
        proof {
            lemma_find(sub, seq!['\n']);
        }
        match find_in(v, pos, b, &nl) {
            Some(i) => {
                let ghost l = sub.take(i as int);
                assert(l =~= v@.subrange(pos as int, pos + i));
                assert(sub.skip(i + 1) =~= v@.subrange(pos + i + 1, b as int));
                let end = if i > 0 && v[pos + i - 1] == '\r' {
                    assert(l.drop_last() =~= v@.subrange(pos as int, pos + i - 1));
                    pos + i - 1
                } else {
                    pos + i
                };
                r.push((pos, end));
                assert(pieces(v@, r@) =~= pieces(v@, before).push(strip_cr(l)));
                assert(pieces(v@, before) + lines(sub) =~= pieces(v@, r@) + lines(
                    sub.skip(i + 1),
                ));
                pos = pos + i + 1;
            },
            None => {
                r.push((pos, b));
                assert(pieces(v@, r@) =~= pieces(v@, before).push(sub));
                assert(pieces(v@, before) + lines(sub) =~= pieces(v@, r@));
                assert(v@.subrange(b as int, b as int).len() == 0);
                pos = b;
            },
        }
    }
    assert(lines(v@.subrange(b as int, b as int)) == Seq::<Seq<char>>::empty());
    assert(pieces(v@, r@) + Seq::<Seq<char>>::empty() =~= pieces(v@, r@));
    r
}

} // verus!
