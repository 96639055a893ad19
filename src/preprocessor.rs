//! Structural repair: heading spacing, list-marker spacing and missing table
//! pipes are fixed before parsing, and what was fixed or found wrong is
//! reported as diagnostics.
use vstd::prelude::*;
use crate::diagnostics::{Diagnostic, DiagnosticKind, DiagnosticView, Diagnostics, Severity};
use crate::formatters::table::{cells, is_sep_row, sep_row, split_cells};
use crate::text::{
    chars_of, count_lead_digits, count_lead_run, count_lead_ws, count_trail_run, dec, has_char,
    has_prefix, join_lines, join_lines_exec, lead_digits, lead_run, lead_ws,
    lemma_lead_digits_bound, lemma_lead_run_bound, lemma_lead_ws_bound, lemma_trail_run_bound,
    lines_of, push_all, push_decimal, push_spaces, push_str, slice_of, spaces, split_lines,
    starts_with, string_of, trail_run, trim, trim_end, trim_end_spec, trim_spec, trim_start,
    trim_start_spec, views,
};

verus! {

/// A fence line: three backticks or three tildes at its start.
pub open spec fn is_fence(t: Seq<char>) -> bool {
    starts_with(t, seq!['`', '`', '`']) || starts_with(t, seq!['~', '~', '~'])
}

/// Whether the trimmed line `t` is a fence line.
pub fn fence_line(t: &Vec<char>) -> (r: bool)
    ensures
        r == is_fence(t@),
{
    proof {
        assert(['`', '`', '`']@ =~= seq!['`', '`', '`']);
        assert(['~', '~', '~']@ =~= seq!['~', '~', '~']);
    }
    has_prefix(t, &['`', '`', '`']) || has_prefix(t, &['~', '~', '~'])
}

// ------------------------------------------------------------ table pipes

/// A trimmed line that is a table row: it holds a pipe and is no quote.
pub open spec fn is_row_line(t: Seq<char>) -> bool {
    t.contains('|') && !(t.len() > 0 && t[0] == '>')
}

/// A table row with a leading and a trailing pipe added where missing.
pub open spec fn piped(t: Seq<char>) -> Seq<char> {
    let a = if t.len() > 0 && t[0] == '|' { t } else { seq!['|'] + t };
    if a.last() == '|' { a } else { a.push('|') }
}

/// The warning for a data row with `found` columns where the table's first
/// data row had `expected`.
pub open spec fn column_warning(n: nat, expected: nat, found: nat, t: Seq<char>) -> DiagnosticView {
    DiagnosticView {
        severity: Severity::Warning,
        kind: DiagnosticKind::MalformedTable,
        line: n,
        message: "Table has inconsistent columns: expected "@ + dec(expected) + ", found "@ + dec(
            found,
        ),
        snippet: Some(t),
    }
}

/// The note for a row `t` that was repaired into `f`.
pub open spec fn pipe_info(n: nat, t: Seq<char>, f: Seq<char>) -> DiagnosticView {
    DiagnosticView {
        severity: Severity::Info,
        kind: DiagnosticKind::MalformedTable,
        line: n,
        message: "Fixed missing table pipes"@,
        snippet: Some(t + " \u{2192} "@ + f),
    }
}

/// What one line of the table-pipe scan leaves: whether a fence is open,
/// the column count that the current table's first data row set, the line
/// emitted and the diagnostics raised.
pub ghost struct PipeStep {
    pub in_code: bool,
    pub expected: Option<nat>,
    pub line: Seq<char>,
    pub diags: Seq<DiagnosticView>,
}

/// One line of the table-pipe scan, at line number `n`.
pub open spec fn pipe_step(in_code: bool, expected: Option<nat>, line: Seq<char>, n: nat) -> PipeStep {
    let t = trim_spec(line);
    if is_fence(t) {
        PipeStep { in_code: !in_code, expected: None, line, diags: seq![] }
    } else if in_code {
        PipeStep { in_code, expected: None, line, diags: seq![] }
    } else if is_row_line(t) {
        let f = piped(t);
        let cs = cells(f);
        let cols = cs.len();
        let info = if f != t { seq![pipe_info(n, t, f)] } else { seq![] };
        if is_sep_row(cs) {
            PipeStep { in_code, expected, line: f, diags: info }
        } else {
            match expected {
                None => PipeStep { in_code, expected: Some(cols), line: f, diags: info },
                Some(e) => PipeStep {
                    in_code,
                    expected,
                    line: f,
                    diags: if cols != e { seq![column_warning(n, e, cols, t)] + info } else { info },
                },
            }
        }
    } else {
        PipeStep { in_code, expected: None, line, diags: seq![] }
    }
}

/// State of the table-pipe scan after some lines, with the lines emitted and
/// the diagnostics raised so far.
pub ghost struct PipeScan {
    pub in_code: bool,
    pub expected: Option<nat>,
    pub lines: Seq<Seq<char>>,
    pub diags: Seq<DiagnosticView>,
}

/// The table-pipe scan over the first lines of a text.
pub open spec fn pipe_scan(ls: Seq<Seq<char>>) -> PipeScan
    decreases ls.len(),
{
    if ls.len() == 0 {
        PipeScan { in_code: false, expected: None, lines: seq![], diags: seq![] }
    } else {
        let p = pipe_scan(ls.drop_last());
        let s = pipe_step(p.in_code, p.expected, ls.last(), ls.len());
        PipeScan {
            in_code: s.in_code,
            expected: s.expected,
            lines: p.lines.push(s.line),
            diags: p.diags + s.diags,
        }
    }
}

/// Table-pipe repair of a whole text.
pub open spec fn fix_table_pipes_spec(s: Seq<char>) -> Seq<char> {
    join_lines(pipe_scan(lines_of(s)).lines)
}

/// Diagnostics of table-pipe repair of a whole text.
pub open spec fn table_pipe_diags(s: Seq<char>) -> Seq<DiagnosticView> {
    pipe_scan(lines_of(s)).diags
}

pub open spec fn opt_nat(o: Option<usize>) -> Option<nat> {
    match o {
        Some(e) => Some(e as nat),
        None => None,
    }
}

/// Adds missing leading and trailing pipes to table rows outside fences,
/// and reports each repair and each data row whose column count differs from
/// the first data row of its table.
pub fn fix_table_pipes(content: &str, diagnostics: &mut Diagnostics) -> (r: String)
    ensures
        r@ == fix_table_pipes_spec(content@),
        final(diagnostics)@ == old(diagnostics)@ + table_pipe_diags(content@),
{
    let text = chars_of(content);
    let lines = split_lines(&text);
    let ghost ls = views(lines@);
    let mut out: Vec<Vec<char>> = Vec::new();
    let mut in_code = false;
    let mut expected: Option<usize> = None;
    let mut i: usize = 0;
    proof {
        assert(ls.take(0) =~= Seq::<Seq<char>>::empty());
        assert(views(out@) =~= pipe_scan(ls.take(0)).lines);
        assert(diagnostics@ =~= old(diagnostics)@ + pipe_scan(ls.take(0)).diags);
    }
    while i < lines.len()
        invariant
            i <= lines.len(),
            ls == views(lines@),
            ls == lines_of(text@),
            views(out@) == pipe_scan(ls.take(i as int)).lines,
            in_code == pipe_scan(ls.take(i as int)).in_code,
            opt_nat(expected) == pipe_scan(ls.take(i as int)).expected,
            diagnostics@ == old(diagnostics)@ + pipe_scan(ls.take(i as int)).diags,
        decreases lines.len() - i,
    {
        let ghost pre = ls.take(i as int);
        proof {
            assert(ls.take(i as int + 1).drop_last() =~= pre);
            assert(ls.take(i as int + 1).last() == ls[i as int]);
        }
        let ghost step = pipe_step(in_code, opt_nat(expected), ls[i as int], (i + 1) as nat);
        let ghost d0 = diagnostics@;
        let line = &lines[i];
        let n = i + 1;
        let t = trim(line);
        if fence_line(&t) {
            in_code = !in_code;
            expected = None;
            out.push(line.clone());
        } else if in_code {
            expected = None;
            out.push(line.clone());
        } else if has_char(&t, '|') && !(t.len() > 0 && t[0] == '>') {
            let mut f: Vec<char> = Vec::new();
            if !(t[0] == '|') {
                f.push('|');
            }
            push_all(&mut f, &t);
            if f[f.len() - 1] != '|' {
                f.push('|');
            }
            let fixed_any = f.len() != t.len();
            proof {
                assert(f@ =~= piped(t@));
                if f@ == t@ {
                    assert(f@.len() == t@.len());
                }
            }
            let cs = split_cells(&f);
            let cols = cs.len();
            let tstr = string_of(&t);
            if !sep_row(&cs) {
                match expected {
                    None => {
                        expected = Some(cols);
                    },
                    Some(e) => {
                        if cols != e {
                            let mut m: Vec<char> = Vec::new();
                            push_str(&mut m, "Table has inconsistent columns: expected ");
                            push_decimal(&mut m, e);
                            push_str(&mut m, ", found ");
                            push_decimal(&mut m, cols);
                            let ms = string_of(&m);
                            diagnostics.add(
                                Diagnostic::new(
                                    Severity::Warning,
                                    DiagnosticKind::MalformedTable,
                                    n,
                                    ms.as_str(),
                                ).with_snippet(tstr.as_str()),
                            );
                            assert(m@ =~= column_warning(n as nat, e as nat, cols as nat, t@).message);
                        }
                    },
                }
            }
            if fixed_any {
                let mut sn: Vec<char> = Vec::new();
                push_all(&mut sn, &t);
                push_str(&mut sn, " \u{2192} ");
                push_all(&mut sn, &f);
                let sns = string_of(&sn);
                diagnostics.add(
                    Diagnostic::new(
                        Severity::Info,
                        DiagnosticKind::MalformedTable,
                        n,
                        "Fixed missing table pipes",
                    ).with_snippet(sns.as_str()),
                );
            }
            out.push(f);
        } else {
            expected = None;
            out.push(line.clone());
        }
        proof {
            assert(diagnostics@ =~= d0 + step.diags);
            assert(views(out@) =~= pipe_scan(pre).lines.push(step.line));
        }
        i += 1;
    }
    proof {
        assert(ls.take(i as int) =~= ls);
    }
    let joined = join_lines_exec(&out);
    string_of(&joined)
}

// --------------------------------------------------------------- headings

/// A line repaired as a heading: one to six `#`, followed by text, get
/// exactly one space between the hashes and the text; trailing hashes and
/// whitespace go. Other lines stay.
pub open spec fn repair_heading_line(line: Seq<char>) -> Seq<char> {
    let t = trim_spec(line);
    let h = lead_run(t, '#');
    if 1 <= h <= 6 && h < t.len() && trim_spec(t.skip(h as int)).len() > 0 {
        let body = trim_spec(t.skip(h as int));
        t.take(h as int) + seq![' '] + trim_end_spec(body.take(body.len() - trail_run(body, '#')))
    } else {
        line
    }
}

/// [`repair_heading_line`] on one line.
pub fn repair_heading(line: &Vec<char>) -> (r: Vec<char>)
    ensures
        r@ == repair_heading_line(line@),
{
    let t = trim(line);
    let h = count_lead_run(&t, '#');
    proof {
        lemma_lead_run_bound(t@, '#');
    }
    if 1 <= h && h <= 6 && h < t.len() {
        let rest = slice_of(&t, h, t.len());
        let body = trim(&rest);
        if body.len() > 0 {
            let k = count_trail_run(&body, '#');
            proof {
                lemma_trail_run_bound(body@, '#');
            }
            let stripped = slice_of(&body, 0, body.len() - k);
            let text = trim_end(&stripped);
            let mut r = slice_of(&t, 0, h);
            r.push(' ');
            push_all(&mut r, &text);
            assert(rest@ =~= t@.skip(h as int));
            assert(stripped@ =~= body@.take(body@.len() - trail_run(body@, '#')));
            assert(r@ =~= repair_heading_line(line@));
            return r;
        }
        assert(rest@ =~= t@.skip(h as int));
    }
    line.clone()
}

/// Heading repair of a whole text, line by line.
pub open spec fn fix_headings_spec(s: Seq<char>) -> Seq<char> {
    join_lines(lines_of(s).map_values(|l: Seq<char>| repair_heading_line(l)))
}

/// Rewrites each heading line with exactly one space after its `#` run and
/// without trailing hashes.
pub fn fix_headings(content: &str) -> (r: String)
    ensures
        r@ == fix_headings_spec(content@),
{
    let text = chars_of(content);
    let lines = split_lines(&text);
    let ghost ls = views(lines@);
    let mut out: Vec<Vec<char>> = Vec::new();
    let mut i: usize = 0;
    while i < lines.len()
        invariant
            i <= lines.len(),
            ls == views(lines@),
            views(out@) == ls.take(i as int).map_values(|l: Seq<char>| repair_heading_line(l)),
        decreases lines.len() - i,
    {
        assert(ls[i as int] == lines@[i as int]@);
        let ghost prev = views(out@);
        let x = repair_heading(&lines[i]);
        out.push(x);
        assert(views(out@) =~= prev.push(x@));
        assert(ls.take(i as int + 1) =~= ls.take(i as int).push(ls[i as int]));
        i += 1;
        assert(views(out@) =~= ls.take(i as int).map_values(|l: Seq<char>| repair_heading_line(l)));
    }
    assert(ls.take(i as int) =~= ls);
    let joined = join_lines_exec(&out);
    string_of(&joined)
}

// ----------------------------------------------------------- list markers

/// A bullet marker glued to its text: `-`, `*` or `+` not followed by a
/// space (and, for `-`, no `---` rule).
pub open spec fn glued_bullet(t: Seq<char>) -> bool {
    t.len() > 0 && (
    (t[0] == '-' && !starts_with(t, seq!['-', '-', '-']) && !starts_with(t, seq!['-', ' ']))
        || (t[0] == '*' && !starts_with(t, seq!['*', ' ']))
        || (t[0] == '+' && !starts_with(t, seq!['+', ' '])))
}

/// An ordered marker glued to its text: digits, `.`, then a character other
/// than a space.
pub open spec fn glued_number(t: Seq<char>) -> bool {
    let d = lead_digits(t);
    d >= 1 && d + 1 < t.len() && t[d as int] == '.' && t[d + 1int] != ' '
}

/// A line whose list marker is repaired: one space goes after the marker,
/// indentation is kept as spaces.
pub open spec fn repair_marker_line(line: Seq<char>) -> Seq<char> {
    let lead = lead_ws(line);
    let t = trim_start_spec(line);
    if glued_bullet(t) {
        spaces(lead) + seq![t[0], ' '] + trim_start_spec(t.skip(1))
    } else if glued_number(t) {
        let d = lead_digits(t);
        spaces(lead) + t.take(d as int) + seq!['.', ' '] + trim_start_spec(t.skip(d + 1int))
    } else {
        line
    }
}

/// [`repair_marker_line`] on one line.
pub fn repair_marker(line: &Vec<char>) -> (r: Vec<char>)
    ensures
        r@ == repair_marker_line(line@),
{
    let lead = count_lead_ws(line);
    let t = trim_start(line);
    proof {
        lemma_lead_ws_bound(line@);
        lemma_lead_digits_bound(t@);
        assert(['-', '-', '-']@ =~= seq!['-', '-', '-']);
        assert(['-', ' ']@ =~= seq!['-', ' ']);
        assert(['*', ' ']@ =~= seq!['*', ' ']);
        assert(['+', ' ']@ =~= seq!['+', ' ']);
    }
    let glued = t.len() > 0 && ((t[0] == '-' && !has_prefix(&t, &['-', '-', '-']) && !has_prefix(
        &t,
        &['-', ' '],
    )) || (t[0] == '*' && !has_prefix(&t, &['*', ' '])) || (t[0] == '+' && !has_prefix(
        &t,
        &['+', ' '],
    )));
    if glued {
        let mut r: Vec<char> = Vec::new();
        push_spaces(&mut r, lead);
        r.push(t[0]);
        r.push(' ');
        let rest = slice_of(&t, 1, t.len());
        let rest = trim_start(&rest);
        push_all(&mut r, &rest);
        assert(r@ =~= repair_marker_line(line@));
        return r;
    }
    let d = count_lead_digits(&t);
    if d >= 1 && d < t.len() && d + 1 < t.len() && t[d] == '.' && t[d + 1] != ' ' {
        let mut r: Vec<char> = Vec::new();
        push_spaces(&mut r, lead);
        let num = slice_of(&t, 0, d);
        push_all(&mut r, &num);
        r.push('.');
        r.push(' ');
        let rest = slice_of(&t, d + 1, t.len());
        let rest = trim_start(&rest);
        push_all(&mut r, &rest);
        assert(r@ =~= repair_marker_line(line@));
        return r;
    }
    line.clone()
}

/// List-marker repair of a whole text, line by line.
pub open spec fn fix_list_markers_spec(s: Seq<char>) -> Seq<char> {
    join_lines(lines_of(s).map_values(|l: Seq<char>| repair_marker_line(l)))
}

/// Puts one space after list markers that lack it, keeping indentation.
pub fn fix_list_markers(content: &str) -> (r: String)
    ensures
        r@ == fix_list_markers_spec(content@),
{
    let text = chars_of(content);
    let lines = split_lines(&text);
    let ghost ls = views(lines@);
    let mut out: Vec<Vec<char>> = Vec::new();
    let mut i: usize = 0;
    while i < lines.len()
        invariant
            i <= lines.len(),
            ls == views(lines@),
            views(out@) == ls.take(i as int).map_values(|l: Seq<char>| repair_marker_line(l)),
        decreases lines.len() - i,
    {
        assert(ls[i as int] == lines@[i as int]@);
        let ghost prev = views(out@);
        let x = repair_marker(&lines[i]);
        out.push(x);
        assert(views(out@) =~= prev.push(x@));
        assert(ls.take(i as int + 1) =~= ls.take(i as int).push(ls[i as int]));
        i += 1;
        assert(views(out@) =~= ls.take(i as int).map_values(|l: Seq<char>| repair_marker_line(l)));
    }
    assert(ls.take(i as int) =~= ls);
    let joined = join_lines_exec(&out);
    string_of(&joined)
}

// ------------------------------------------------------------------ pass

/// The three repairs in their fixed order.
pub open spec fn preprocess_spec(s: Seq<char>) -> Seq<char> {
    fix_table_pipes_spec(fix_list_markers_spec(fix_headings_spec(s)))
}

/// Diagnostics of the repair pass.
pub open spec fn preprocess_diags(s: Seq<char>) -> Seq<DiagnosticView> {
    table_pipe_diags(fix_list_markers_spec(fix_headings_spec(s)))
}

/// Repairs headings, then list markers, then table pipes, and returns the
/// repaired text with the diagnostics of the table repair.
pub fn preprocess(content: &str) -> (r: (String, Diagnostics))
    ensures
        r.0@ == preprocess_spec(content@),
        r.1@ == preprocess_diags(content@),
{
    let mut diagnostics = Diagnostics::new();
    let a = fix_headings(content);
    let b = fix_list_markers(a.as_str());
    let c = fix_table_pipes(b.as_str(), &mut diagnostics);
    assert(diagnostics@ =~= preprocess_diags(content@));
    (c, diagnostics)
}

} // verus!
