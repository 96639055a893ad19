//! Heading spacing: a fixed number of blank lines before and after every
//! heading, and one space after the `#` run.
use vstd::prelude::*;
use crate::config::HeadingConfig;
use crate::text::{
    lemma_lines_no_nl, lemma_split_join, no_nl, split_nl, is_ws, lead_ws, lemma_lead_ws_bound, lemma_trail_ws_bound, trail_ws, chars_of, count_lead_run, join_lines, join_lines_exec, lead_run, lemma_lead_run_bound,
    lines_of, push_all, slice_of, split_lines, string_of, trim, trim_spec, views,
};

verus! {

/// A line whose trimmed text starts with `#`.
pub open spec fn is_heading_line(line: Seq<char>) -> bool {
    let t = trim_spec(line);
    t.len() > 0 && t[0] == '#'
}

/// A line that is empty or whitespace only.
pub open spec fn is_blank(line: Seq<char>) -> bool {
    trim_spec(line).len() == 0
}

/// A heading with one space inserted after its `#` run when text follows
/// the run directly.
pub open spec fn normalize_heading_spec(line: Seq<char>) -> Seq<char> {
    let t = trim_spec(line);
    let h = lead_run(t, '#');
    if h >= t.len() || t[h as int] == ' ' {
        t
    } else {
        t.take(h as int) + seq![' '] + t.skip(h as int)
    }
}

/// Whether `line` is a heading.
pub fn is_heading(line: &str) -> (r: bool)
    ensures
        r == is_heading_line(line@),
{
    let v = chars_of(line);
    let t = trim(&v);
    t.len() > 0 && t[0] == '#'
}

/// [`normalize_heading_spec`] on one line.
fn normalize(line: &Vec<char>) -> (r: Vec<char>)
    ensures
        r@ == normalize_heading_spec(line@),
{
    let t = trim(line);
    let h = count_lead_run(&t, '#');
    proof {
        lemma_lead_run_bound(t@, '#');
    }
    if h >= t.len() || t[h] == ' ' {
        t
    } else {
        let mut r = slice_of(&t, 0, h);
        r.push(' ');
        let rest = slice_of(&t, h, t.len());
        push_all(&mut r, &rest);
        assert(r@ =~= normalize_heading_spec(line@));
        r
    }
}

/// Puts one space after the `#` run of a heading that lacks it.
pub fn normalize_heading(line: &str) -> (r: String)
    ensures
        r@ == normalize_heading_spec(line@),
{
    let v = chars_of(line);
    let r = normalize(&v);
    string_of(&r)
}

/// `n` empty lines.
pub open spec fn blanks(n: nat) -> Seq<Seq<char>> {
    Seq::new(n, |i: int| Seq::<char>::empty())
}

/// Number of blank lines at the end of `ls`.
pub open spec fn trailing_blanks(ls: Seq<Seq<char>>) -> nat
    decreases ls.len(),
{
    if ls.len() > 0 && is_blank(ls.last()) {
        1 + trailing_blanks(ls.drop_last())
    } else {
        0
    }
}

/// `ls` with exactly `n` blank lines at its end, by adding empty lines or
/// removing blank ones.
pub open spec fn adjust_blanks(ls: Seq<Seq<char>>, n: nat) -> Seq<Seq<char>> {
    let c = trailing_blanks(ls);
    if c < n {
        ls + blanks((n - c) as nat)
    } else {
        ls.take(ls.len() - (c - n))
    }
}

/// Lines emitted so far, and whether blank lines after a heading are being
/// skipped.
pub ghost struct HeadScan {
    pub out: Seq<Seq<char>>,
    pub skipping: bool,
}

/// One line of the heading pass; `first` tells the document's first line.
pub open spec fn heading_step(st: HeadScan, line: Seq<char>, first: bool, before: nat, after: nat, space: bool) -> HeadScan {
    if st.skipping && is_blank(line) {
        st
    } else if is_heading_line(line) {
        let adj = if first { st.out } else { adjust_blanks(st.out, before) };
        let h = if space { normalize_heading_spec(line) } else { trim_spec(line) };
        HeadScan { out: adj.push(h) + blanks(after), skipping: true }
    } else {
        HeadScan { out: st.out.push(line), skipping: false }
    }
}

/// The heading pass over the first lines of a text.
pub open spec fn heading_scan(ls: Seq<Seq<char>>, before: nat, after: nat, space: bool) -> HeadScan
    decreases ls.len(),
{
    if ls.len() == 0 {
        HeadScan { out: seq![], skipping: false }
    } else {
        heading_step(heading_scan(ls.drop_last(), before, after, space), ls.last(), ls.len() == 1, before, after, space)
    }
}

/// The lines that the heading pass emits for `s`.
pub open spec fn heading_lines(s: Seq<char>, c: HeadingConfig) -> Seq<Seq<char>> {
    heading_scan(lines_of(s), c.blank_lines_before as nat, c.blank_lines_after as nat, c.space_after_hash).out
}

/// The heading pass over a whole text.
pub open spec fn format_headings_spec(s: Seq<char>, c: HeadingConfig) -> Seq<char> {
    join_lines(heading_lines(s, c))
}

/// The trailing blank run fits in `ls` and is blank.
proof fn lemma_trailing_blanks_bound(ls: Seq<Seq<char>>)
    ensures
        trailing_blanks(ls) <= ls.len(),
        forall|j: int| ls.len() - trailing_blanks(ls) <= j < ls.len() ==> is_blank(#[trigger] ls[j]),
    decreases ls.len(),
{
    if ls.len() > 0 && is_blank(ls.last()) {
        lemma_trailing_blanks_bound(ls.drop_last());
        assert forall|j: int| ls.len() - trailing_blanks(ls) <= j < ls.len() implies is_blank(#[trigger] ls[j]) by {
            if j < ls.len() - 1 {
                assert(ls[j] == ls.drop_last()[j]);
            }
        }
    }
}

/// Whether `line` is blank.
fn blank(line: &Vec<char>) -> (r: bool)
    ensures
        r == is_blank(line@),
{
    let t = trim(line);
    t.len() == 0
}

/// Gives `out` exactly `n` blank lines at its end.
fn adjust(out: &mut Vec<Vec<char>>, n: usize)
    ensures
        views(final(out)@) == adjust_blanks(views(old(out)@), n as nat),
{
    let ghost ls = views(out@);
    let mut k: usize = out.len();
    assert(ls.take(k as int) =~= ls);
    while k > 0 && blank(&out[k - 1])
        invariant
            k <= out.len(),
            out@ == old(out)@,
            ls == views(out@),
            trailing_blanks(ls) == (out.len() - k) + trailing_blanks(ls.take(k as int)),
        decreases k,
    {
        assert(ls.take(k as int).drop_last() =~= ls.take(k as int - 1));
        assert(ls[k - 1] == out@[k - 1]@);
        k -= 1;
    }
    proof {
        lemma_trailing_blanks_bound(ls);
    }
    let mut count: usize = out.len() - k;
    assert(count == trailing_blanks(ls));
    if count < n {
        while count < n
            invariant
                count <= n,
                views(out@) == ls + blanks((count - trailing_blanks(ls)) as nat),
                count >= trailing_blanks(ls),
            decreases n - count,
        {
            let ghost prev = views(out@);
            let e: Vec<char> = Vec::new();
            out.push(e);
            assert(views(out@) =~= prev.push(e@));
            count += 1;
            assert(views(out@) =~= ls + blanks((count - trailing_blanks(ls)) as nat));
        }
    } else {
        while count > n
            invariant
                count >= n,
                count <= trailing_blanks(ls),
                trailing_blanks(ls) <= ls.len(),
                out@.len() == ls.len() - (trailing_blanks(ls) - count),
                views(out@) == ls.take(ls.len() - (trailing_blanks(ls) - count)),
            decreases count,
        {
            let ghost prev = out@;
            let ghost pv = views(out@);
            out.pop();
            assert(out@ =~= prev.drop_last());
            assert(views(out@) =~= pv.drop_last());
            count -= 1;
            assert(views(out@) =~= ls.take(ls.len() - (trailing_blanks(ls) - count)));
        }
        assert(ls.take(ls.len() - 0) =~= ls);
    }
}

/// Sets the blank lines before each heading (but the first line's) to
/// `blank_lines_before`, those after it to `blank_lines_after`, and
/// normalizes the heading when `space_after_hash` is set.
pub fn format_headings(content: &str, config: &HeadingConfig) -> (r: String)
    ensures
        r@ == format_headings_spec(content@, *config),
{
    let text = chars_of(content);
    let lines = split_lines(&text);
    let ghost ls = views(lines@);
    let ghost before = config.blank_lines_before as nat;
    let ghost after = config.blank_lines_after as nat;
    let mut out: Vec<Vec<char>> = Vec::new();
    let mut skipping = false;
    let mut i: usize = 0;
    assert(ls.take(0) =~= Seq::<Seq<char>>::empty());
    assert(views(out@) =~= Seq::<Seq<char>>::empty());
    while i < lines.len()
        invariant
            i <= lines.len(),
            ls == views(lines@),
            ls == lines_of(text@),
            text@ == content@,
            heading_scan(ls.take(i as int), config.blank_lines_before as nat, config.blank_lines_after as nat, config.space_after_hash)
                == (HeadScan { out: views(out@), skipping }),
        decreases lines.len() - i,
    {
        assert(ls.take(i as int + 1).drop_last() =~= ls.take(i as int));
        assert(ls[i as int] == lines@[i as int]@);
        let line = &lines[i];
        if skipping && blank(line) {
        } else if is_heading_vec(line) {
            if i > 0 {
                adjust(&mut out, config.blank_lines_before);
            }
            let h = if config.space_after_hash {
                normalize(line)
            } else {
                trim(line)
            };
            let ghost o1 = views(out@);
            out.push(h);
            let mut k: usize = 0;
            while k < config.blank_lines_after
                invariant
                    k <= config.blank_lines_after,
                    views(out@) == o1.push(h@) + blanks(k as nat),
                decreases config.blank_lines_after - k,
            {
                let ghost prev = views(out@);
                let e: Vec<char> = Vec::new();
                out.push(e);
                assert(views(out@) =~= prev.push(e@));
                k += 1;
                assert(views(out@) =~= o1.push(h@) + blanks(k as nat));
            }
            skipping = true;
        } else {
            let ghost o1 = views(out@);
            out.push(line.clone());
            assert(views(out@) =~= o1.push(line@));
            skipping = false;
        }
        i += 1;
    }
    assert(ls.take(i as int) =~= ls);
    let joined = join_lines_exec(&out);
    string_of(&joined)
}

/// Whether `line` is a heading.
fn is_heading_vec(line: &Vec<char>) -> (r: bool)
    ensures
        r == is_heading_line(line@),
{
    let t = trim(line);
    t.len() > 0 && t[0] == '#'
}

// ---------------------------------------------------------- spacing law

/// A line that starts with `#` is a heading.
proof fn lemma_starts_with_hash(r: Seq<char>)
    requires
        r.len() > 0,
        r[0] == '#',
    ensures
        is_heading_line(r),
{
    lemma_lead_ws_bound(r);
    lemma_trail_ws_bound(r);
    assert(lead_ws(r) == 0);
    assert(r.skip(0) =~= r);
    if trail_ws(r) == r.len() {
        assert(is_ws(r[0]));
    }
}

/// A heading is still one once normalized or trimmed.
proof fn lemma_heading_stays_heading(line: Seq<char>, space: bool)
    requires
        is_heading_line(line),
    ensures
        is_heading_line(if space { normalize_heading_spec(line) } else { trim_spec(line) }),
{
    let t = trim_spec(line);
    lemma_lead_run_bound(t, '#');
    let r = if space { normalize_heading_spec(line) } else { t };
    assert(r[0] == '#');
    lemma_starts_with_hash(r);
}

/// Empty lines added at the end lengthen the trailing blank run.
proof fn lemma_blanks_add(ls: Seq<Seq<char>>, m: nat)
    ensures
        trailing_blanks(ls + blanks(m)) == trailing_blanks(ls) + m,
    decreases m,
{
    if m > 0 {
        assert((ls + blanks(m)).drop_last() =~= ls + blanks((m - 1) as nat));
        assert(trim_spec(Seq::<char>::empty()) =~= Seq::<char>::empty());
        lemma_blanks_add(ls, (m - 1) as nat);
    } else {
        assert(ls + blanks(0) =~= ls);
    }
}

/// Dropping lines of the trailing blank run shortens it.
proof fn lemma_blanks_take(ls: Seq<Seq<char>>, d: nat)
    requires
        d <= trailing_blanks(ls),
    ensures
        trailing_blanks(ls.take(ls.len() - d)) == trailing_blanks(ls) - d,
    decreases d,
{
    lemma_trailing_blanks_bound(ls);
    if d == 0 {
        assert(ls.take(ls.len() as int) =~= ls);
    } else {
        lemma_blanks_take(ls.drop_last(), (d - 1) as nat);
        assert(ls.drop_last().take(ls.drop_last().len() - (d - 1)) =~= ls.take(ls.len() - d));
    }
}

/// Adjusting leaves `n` trailing blank lines and keeps every non-blank
/// line where it was.
proof fn lemma_adjust(ls: Seq<Seq<char>>, n: nat)
    ensures
        trailing_blanks(adjust_blanks(ls, n)) == n,
        forall|k: int| 0 <= k < adjust_blanks(ls, n).len() && !is_blank(#[trigger] adjust_blanks(ls, n)[k])
            ==> k < ls.len() && adjust_blanks(ls, n)[k] == ls[k] && adjust_blanks(ls, n).take(k) == ls.take(k),
{
    let c = trailing_blanks(ls);
    lemma_trailing_blanks_bound(ls);
    let a = adjust_blanks(ls, n);
    assert(trim_spec(Seq::<char>::empty()) =~= Seq::<char>::empty());
    if c < n {
        lemma_blanks_add(ls, (n - c) as nat);
        assert forall|k: int| 0 <= k < a.len() && !is_blank(#[trigger] a[k]) implies k < ls.len() && a[k] == ls[k] && a.take(k) == ls.take(k) by {
            if k >= ls.len() {
                assert(a[k] == blanks((n - c) as nat)[k - ls.len()]);
            }
            assert(a.take(k) =~= ls.take(k));
        }
    } else {
        lemma_blanks_take(ls, (c - n) as nat);
        assert forall|k: int| 0 <= k < a.len() && !is_blank(#[trigger] a[k]) implies k < ls.len() && a[k] == ls[k] && a.take(k) == ls.take(k) by {
            assert(a.take(k) =~= ls.take(k));
        }
    }
}

/// Every heading of `out` after its first line has `before` blank lines
/// right above it.
pub open spec fn headings_spaced_before(out: Seq<Seq<char>>, before: nat) -> bool {
    forall|k: int| 0 < k < out.len() && is_heading_line(#[trigger] out[k]) ==> trailing_blanks(out.take(k)) == before
}

/// The heading pass keeps headings spaced before.
proof fn lemma_scan_before(ls: Seq<Seq<char>>, before: nat, after: nat, space: bool)
    ensures
        headings_spaced_before(heading_scan(ls, before, after, space).out, before),
    decreases ls.len(),
{
    if ls.len() > 0 {
        let st = heading_scan(ls.drop_last(), before, after, space);
        lemma_scan_before(ls.drop_last(), before, after, space);
        let line = ls.last();
        let first = ls.len() == 1;
        let out = heading_scan(ls, before, after, space).out;
        assert(trim_spec(Seq::<char>::empty()) =~= Seq::<char>::empty());
        if st.skipping && is_blank(line) {
        } else if is_heading_line(line) {
            let adj = if first { st.out } else { adjust_blanks(st.out, before) };
            let h = if space { normalize_heading_spec(line) } else { trim_spec(line) };
            lemma_heading_stays_heading(line, space);
            if first {
                assert(ls.drop_last().len() == 0);
                assert(st.out.len() == 0);
            } else {
                lemma_adjust(st.out, before);
            }
            assert forall|k: int| 0 < k < out.len() && is_heading_line(#[trigger] out[k]) implies trailing_blanks(out.take(k)) == before by {
                if k < adj.len() {
                    assert(out[k] == adj[k]);
                    assert(out.take(k) =~= adj.take(k));
                } else if k == adj.len() {
                    assert(out.take(k) =~= adj);
                } else {
                    assert(out[k] == blanks(after)[k - adj.len() - 1]);
                }
            }
        } else {
            assert forall|k: int| 0 < k < out.len() && is_heading_line(#[trigger] out[k]) implies trailing_blanks(out.take(k)) == before by {
                assert(k < st.out.len());
                assert(out[k] == st.out[k]);
                assert(out.take(k) =~= st.out.take(k));
            }
        }
    }
}

/// Index of the first non-blank line of `ls` at or after `j`, or its length.
pub open spec fn next_nonblank(ls: Seq<Seq<char>>, j: int) -> int
    decreases ls.len() - j,
{
    if j >= ls.len() {
        ls.len() as int
    } else if !is_blank(ls[j]) {
        j
    } else {
        next_nonblank(ls, j + 1)
    }
}

/// Lines before the next non-blank one are blank.
proof fn lemma_next_nonblank_props(ls: Seq<Seq<char>>, j: int)
    requires
        0 <= j <= ls.len(),
    ensures
        j <= next_nonblank(ls, j) <= ls.len(),
        forall|i: int| j <= i < next_nonblank(ls, j) ==> is_blank(#[trigger] ls[i]),
        next_nonblank(ls, j) < ls.len() ==> !is_blank(ls[next_nonblank(ls, j)]),
    decreases ls.len() - j,
{
    if j < ls.len() && is_blank(ls[j]) {
        lemma_next_nonblank_props(ls, j + 1);
    }
}

/// The next non-blank line is the first line after a blank run.
proof fn lemma_next_nonblank_is(ls: Seq<Seq<char>>, j: int, e: int)
    requires
        0 <= j <= e <= ls.len(),
        forall|i: int| j <= i < e ==> is_blank(#[trigger] ls[i]),
        e < ls.len() ==> !is_blank(ls[e]),
    ensures
        next_nonblank(ls, j) == e,
    decreases e - j,
{
    if j < e {
        lemma_next_nonblank_is(ls, j + 1, e);
    }
}

/// The trailing blank run after a non-blank line.
proof fn lemma_trailing_blanks_exact(ls: Seq<Seq<char>>, k: int)
    requires
        0 <= k < ls.len(),
        !is_blank(ls[k]),
        forall|i: int| k < i < ls.len() ==> is_blank(#[trigger] ls[i]),
    ensures
        trailing_blanks(ls) == ls.len() - k - 1,
    decreases ls.len(),
{
    if k < ls.len() - 1 {
        assert(is_blank(ls[ls.len() - 1]));
        assert forall|i: int| k < i < ls.drop_last().len() implies is_blank(#[trigger] ls.drop_last()[i]) by {
            assert(ls.drop_last()[i] == ls[i]);
        }
        lemma_trailing_blanks_exact(ls.drop_last(), k);
    }
}

/// After each heading of `out` come `after` blank lines, or `before` where
/// the next non-blank line is a heading; while the last heading is followed
/// by blank lines only, they are `after` of them and blank lines are being
/// skipped.
pub open spec fn headings_spaced_after(st: HeadScan, before: nat, after: nat) -> bool {
    forall|k: int| 0 <= k < st.out.len() && is_heading_line(#[trigger] st.out[k]) ==> {
        let e = next_nonblank(st.out, k + 1);
        if e == st.out.len() {
            e - k - 1 == after && st.skipping
        } else if is_heading_line(st.out[e]) {
            e - k - 1 == before
        } else {
            e - k - 1 == after
        }
    }
}

/// The heading pass keeps headings spaced after.
proof fn lemma_scan_after(ls: Seq<Seq<char>>, before: nat, after: nat, space: bool)
    ensures
        headings_spaced_after(heading_scan(ls, before, after, space), before, after),
    decreases ls.len(),
{
    if ls.len() > 0 {
        let st = heading_scan(ls.drop_last(), before, after, space);
        lemma_scan_after(ls.drop_last(), before, after, space);
        let line = ls.last();
        let first = ls.len() == 1;
        let nst = heading_scan(ls, before, after, space);
        let out = st.out;
        let out2 = nst.out;
        assert(trim_spec(Seq::<char>::empty()) =~= Seq::<char>::empty());
        if st.skipping && is_blank(line) {
        } else if is_heading_line(line) {
            let adj = if first { out } else { adjust_blanks(out, before) };
            let h = if space { normalize_heading_spec(line) } else { trim_spec(line) };
            lemma_heading_stays_heading(line, space);
            lemma_trailing_blanks_bound(out);
            if first {
                assert(ls.drop_last().len() == 0);
                assert(out.len() == 0);
            } else {
                lemma_adjust(out, before);
            }
            let a = adj.len() as int;
            assert(out2 == adj.push(h) + blanks(after));
            assert forall|i: int| 0 <= i < a implies #[trigger] out2[i] == adj[i] by {}
            assert(out2[a] == h);
            assert forall|i: int| a < i < out2.len() implies is_blank(#[trigger] out2[i]) by {
                assert(out2[i] == blanks(after)[i - a - 1]);
            }
            // adj keeps out's lines before its trailing blank run
            let keep = out.len() - trailing_blanks(out);
            assert forall|i: int| 0 <= i < keep implies i < a && #[trigger] adj[i] == out[i] by {
                if !first {
                    if trailing_blanks(out) < before {
                        assert(adj == out + blanks((before - trailing_blanks(out)) as nat));
                    } else {
                        assert(adj == out.take(out.len() - (trailing_blanks(out) - before)));
                    }
                }
            }
            assert forall|k: int| 0 <= k < out2.len() && is_heading_line(#[trigger] out2[k]) implies ({
                let e = next_nonblank(out2, k + 1);
                if e == out2.len() {
                    e - k - 1 == after && nst.skipping
                } else if is_heading_line(out2[e]) {
                    e - k - 1 == before
                } else {
                    e - k - 1 == after
                }
            }) by {
                if k > a {
                    assert(is_blank(out2[k]));
                } else if k == a {
                    lemma_next_nonblank_is(out2, k + 1, out2.len() as int);
                } else {
                    // an earlier heading: it is a line of `out`
                    assert(!is_blank(adj[k]));
                    if !first {
                        assert(k < out.len() && adj[k] == out[k]);
                    }
                    assert(out[k] == out2[k]);
                    assert(k < keep) by {
                        if k >= keep {
                            assert(is_blank(out[k]));
                        }
                    }
                    lemma_next_nonblank_props(out, k + 1);
                    let e = next_nonblank(out, k + 1);
                    if e < out.len() {
                        assert(e < keep) by {
                            if e >= keep {
                                assert(is_blank(out[e]));
                            }
                        }
                        assert forall|i: int| k + 1 <= i < e implies is_blank(#[trigger] out2[i]) by {
                            assert(out2[i] == adj[i]);
                            assert(adj[i] == out[i]);
                        }
                        assert(out2[e] == out[e]);
                        lemma_next_nonblank_is(out2, k + 1, e);
                    } else {
                        // only blank lines followed it: they are the trailing run
                        lemma_trailing_blanks_exact(out, k);
                        assert(!first);
                        assert(a == k + 1 + before);
                        assert forall|i: int| k + 1 <= i < a implies is_blank(#[trigger] out2[i]) by {
                            assert(out2[i] == adj[i]);
                            if i < out.len() {
                                if trailing_blanks(out) < before {
                                    assert(adj == out + blanks((before - trailing_blanks(out)) as nat));
                                } else {
                                    assert(adj == out.take(out.len() - (trailing_blanks(out) - before)));
                                }
                                assert(adj[i] == out[i]);
                            } else {
                                assert(adj == out + blanks((before - trailing_blanks(out)) as nat));
                                assert(adj[i] == blanks((before - trailing_blanks(out)) as nat)[i - out.len()]);
                            }
                        }
                        lemma_next_nonblank_is(out2, k + 1, a);
                    }
                }
            }
        } else {
            assert(out2 == out.push(line));
            assert forall|k: int| 0 <= k < out2.len() && is_heading_line(#[trigger] out2[k]) implies ({
                let e = next_nonblank(out2, k + 1);
                if e == out2.len() {
                    e - k - 1 == after && nst.skipping
                } else if is_heading_line(out2[e]) {
                    e - k - 1 == before
                } else {
                    e - k - 1 == after
                }
            }) by {
                assert(k < out.len());
                assert(out2[k] == out[k]);
                lemma_next_nonblank_props(out, k + 1);
                let e = next_nonblank(out, k + 1);
                assert forall|i: int| k + 1 <= i < e implies is_blank(#[trigger] out2[i]) by {
                    assert(out2[i] == out[i]);
                }
                if e < out.len() {
                    assert(out2[e] == out[e]);
                    lemma_next_nonblank_is(out2, k + 1, e);
                } else {
                    assert(!is_blank(line));
                    assert(out2[e] == line);
                    lemma_next_nonblank_is(out2, k + 1, e);
                }
            }
        }
    }
}

/// Trimming or normalizing a line adds no newline.
proof fn lemma_heading_no_nl(line: Seq<char>)
    requires
        no_nl(line),
    ensures
        no_nl(trim_spec(line)),
        no_nl(normalize_heading_spec(line)),
{
    lemma_lead_ws_bound(line);
    let a = line.skip(lead_ws(line) as int);
    lemma_trail_ws_bound(a);
    let t = trim_spec(line);
    assert forall|i: int| 0 <= i < t.len() implies #[trigger] t[i] != '\n' by {
        assert(t[i] == line[i + lead_ws(line)]);
    }
    let h = lead_run(t, '#');
    lemma_lead_run_bound(t, '#');
    let r = normalize_heading_spec(line);
    assert forall|i: int| 0 <= i < r.len() implies #[trigger] r[i] != '\n' by {
        if !(h >= t.len() || t[h as int] == ' ') {
            if i < h {
                assert(r[i] == t[i]);
            } else if i > h {
                assert(r[i] == t[i - 1]);
            }
        }
    }
}

/// The heading pass emits no line holding a newline when it reads none.
proof fn lemma_scan_no_nl(ls: Seq<Seq<char>>, before: nat, after: nat, space: bool)
    requires
        forall|i: int| 0 <= i < ls.len() ==> no_nl(#[trigger] ls[i]),
    ensures
        forall|i: int| 0 <= i < heading_scan(ls, before, after, space).out.len()
            ==> no_nl(#[trigger] heading_scan(ls, before, after, space).out[i]),
    decreases ls.len(),
{
    if ls.len() > 0 {
        let init = ls.drop_last();
        assert forall|i: int| 0 <= i < init.len() implies no_nl(#[trigger] init[i]) by {
            assert(init[i] == ls[i]);
        }
        lemma_scan_no_nl(init, before, after, space);
        let st = heading_scan(init, before, after, space);
        let line = ls.last();
        assert(no_nl(ls[ls.len() - 1]));
        lemma_heading_no_nl(line);
        let out2 = heading_scan(ls, before, after, space).out;
        let e = Seq::<char>::empty();
        assert(no_nl(e));
        if st.skipping && is_blank(line) {
        } else if is_heading_line(line) {
            let first = ls.len() == 1;
            let adj = if first { st.out } else { adjust_blanks(st.out, before) };
            let h = if space { normalize_heading_spec(line) } else { trim_spec(line) };
            lemma_trailing_blanks_bound(st.out);
            assert forall|i: int| 0 <= i < adj.len() implies no_nl(#[trigger] adj[i]) by {
                if !first {
                    let c = trailing_blanks(st.out);
                    if c < before {
                        assert(adj == st.out + blanks((before - c) as nat));
                        if i >= st.out.len() {
                            assert(adj[i] == blanks((before - c) as nat)[i - st.out.len()]);
                        } else {
                            assert(adj[i] == st.out[i]);
                        }
                    } else {
                        assert(adj == st.out.take(st.out.len() - (c - before)));
                        assert(adj[i] == st.out[i]);
                    }
                }
            }
            assert(out2 == adj.push(h) + blanks(after));
            assert forall|i: int| 0 <= i < out2.len() implies no_nl(#[trigger] out2[i]) by {
                if i < adj.len() {
                    assert(out2[i] == adj[i]);
                } else if i == adj.len() {
                    assert(out2[i] == h);
                } else {
                    assert(out2[i] == blanks(after)[i - adj.len() - 1]);
                }
            }
        } else {
            assert forall|i: int| 0 <= i < out2.len() implies no_nl(#[trigger] out2[i]) by {
                if i < st.out.len() {
                    assert(out2[i] == st.out[i]);
                }
            }
        }
    }
}

/// The text the heading pass returns, split at newlines, is the lines it
/// emits (or one empty line when it emits none).
proof fn lemma_heading_text(s: Seq<char>, c: HeadingConfig)
    ensures
        heading_lines(s, c).len() >= 1 ==> split_nl(format_headings_spec(s, c)) == heading_lines(s, c),
        heading_lines(s, c).len() == 0 ==> split_nl(format_headings_spec(s, c)) == seq![Seq::<char>::empty()],
{
    lemma_lines_no_nl(s, seq![]);
    lemma_scan_no_nl(lines_of(s), c.blank_lines_before as nat, c.blank_lines_after as nat, c.space_after_hash);
    if heading_lines(s, c).len() >= 1 {
        lemma_split_join(heading_lines(s, c));
    }
}

/// Heading spacing, blank lines after: in the text the heading pass
/// returns, split at newlines, every heading is followed by exactly `blank_lines_after` blank lines,
/// except where the next non-blank line is itself a heading: the lines
/// between them then number `blank_lines_before`, as that heading asks.
pub proof fn lemma_heading_blanks_after(s: Seq<char>, c: HeadingConfig, k: int)
    requires
        0 <= k < split_nl(format_headings_spec(s, c)).len(),
        is_heading_line(split_nl(format_headings_spec(s, c))[k]),
    ensures
        ({
            let out = split_nl(format_headings_spec(s, c));
            let e = next_nonblank(out, k + 1);
            &&& forall|i: int| k < i < e ==> is_blank(#[trigger] out[i])
            &&& if e < out.len() && is_heading_line(out[e]) {
                e - k - 1 == c.blank_lines_before
            } else {
                e - k - 1 == c.blank_lines_after
            }
        }),
{
    lemma_heading_text(s, c);
    if heading_lines(s, c).len() == 0 {
        assert(trim_spec(Seq::<char>::empty()) =~= Seq::<char>::empty());
    }
    lemma_scan_after(lines_of(s), c.blank_lines_before as nat, c.blank_lines_after as nat, c.space_after_hash);
    lemma_next_nonblank_props(heading_lines(s, c), k + 1);
}

/// Heading spacing, blank lines before: in the text the heading pass
/// returns, split at newlines, every heading not on the first line has
/// exactly `blank_lines_before` blank lines immediately above it.
pub proof fn lemma_heading_blanks_before(s: Seq<char>, c: HeadingConfig, k: int)
    requires
        0 < k < split_nl(format_headings_spec(s, c)).len(),
        is_heading_line(split_nl(format_headings_spec(s, c))[k]),
    ensures
        trailing_blanks(split_nl(format_headings_spec(s, c)).take(k)) == c.blank_lines_before,
{
    lemma_heading_text(s, c);
    lemma_scan_before(lines_of(s), c.blank_lines_before as nat, c.blank_lines_after as nat, c.space_after_hash);
}

} // verus!
