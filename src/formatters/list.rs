//! List formatting: bullets get the configured marker and indentation,
//! ordered items are renumbered per run.
use vstd::prelude::*;
use crate::config::ListConfig;
use crate::text::{
    chars_of, count_lead_digits, count_lead_ws, dec, join_lines, join_lines_exec, lead_digits,
    lead_ws, lemma_lead_digits_bound, lines_of, push_all, push_decimal, push_spaces, slice_of,
    spaces, split_lines, starts_with, string_of, trim, trim_spec, views,
};

verus! {

/// A trimmed line that is a bullet item: `- `, `* ` or `+ ` and no `---` rule.
pub open spec fn bullet_text(t: Seq<char>) -> bool {
    (starts_with(t, seq!['-', ' ']) || starts_with(t, seq!['*', ' ']) || starts_with(t, seq!['+', ' ']))
        && !starts_with(t, seq!['-', '-', '-'])
}

/// A trimmed line that is an ordered item: digits, `.`, then a space.
pub open spec fn numbered_text(t: Seq<char>) -> bool {
    let d = lead_digits(t);
    d >= 1 && d + 1 < t.len() && t[d as int] == '.' && t[d + 1int] == ' '
}

/// A bullet item line.
pub open spec fn is_unordered_spec(line: Seq<char>) -> bool {
    bullet_text(trim_spec(line))
}

/// An ordered item line.
pub open spec fn is_ordered_spec(line: Seq<char>) -> bool {
    numbered_text(trim_spec(line))
}

/// Nesting level of an item: its leading whitespace over two.
pub open spec fn item_level(line: Seq<char>) -> nat {
    lead_ws(line) / 2
}

/// Text of an item after its marker or number.
pub open spec fn item_content(line: Seq<char>) -> Seq<char> {
    let t = trim_spec(line);
    if bullet_text(t) {
        t.skip(2)
    } else if numbered_text(t) {
        t.skip(lead_digits(t) + 2int)
    } else {
        t
    }
}

/// Whether the trimmed line `t` is a bullet item.
fn bullet_vec(t: &Vec<char>) -> (r: bool)
    ensures
        r == bullet_text(t@),
{
    let n = t.len();
    let marker = n >= 2 && (t[0] == '-' || t[0] == '*' || t[0] == '+') && t[1] == ' ';
    let rule = n >= 3 && t[0] == '-' && t[1] == '-' && t[2] == '-';
    proof {
        if n >= 2 {
            assert(t@.take(2) =~= seq![t@[0], t@[1]]);
        }
        if n >= 3 {
            assert(t@.take(3) =~= seq![t@[0], t@[1], t@[2]]);
        }
    }
    marker && !rule
}

/// Whether the trimmed line `t` is an ordered item, with the length of its
/// number.
fn numbered_vec(t: &Vec<char>) -> (r: Option<usize>)
    ensures
        match r {
            Some(d) => numbered_text(t@) && lead_digits(t@) == d,
            None => !numbered_text(t@),
        },
{
    let d = count_lead_digits(t);
    proof {
        lemma_lead_digits_bound(t@);
    }
    if d >= 1 && d < t.len() && t.len() - d > 1 && t[d] == '.' && t[d + 1] == ' ' {
        Some(d)
    } else {
        None
    }
}

/// Whether `line` is a bullet item.
pub fn is_unordered_list_item(line: &str) -> (r: bool)
    ensures
        r == is_unordered_spec(line@),
{
    let v = chars_of(line);
    let t = trim(&v);
    bullet_vec(&t)
}

/// Whether `line` is an ordered item.
pub fn is_ordered_list_item(line: &str) -> (r: bool)
    ensures
        r == is_ordered_spec(line@),
{
    let v = chars_of(line);
    let t = trim(&v);
    numbered_vec(&t).is_some()
}

/// Nesting level and content of a list item.
fn item_parts(line: &Vec<char>) -> (r: (usize, Vec<char>))
    ensures
        r.0 == item_level(line@),
        r.1@ == item_content(line@),
{
    let lead = count_lead_ws(line);
    let t = trim(line);
    let content = if bullet_vec(&t) {
        slice_of(&t, 2, t.len())
    } else {
        match numbered_vec(&t) {
            Some(d) => slice_of(&t, d + 2, t.len()),
            None => t,
        }
    };
    (lead / 2, content)
}

/// Nesting level and content of a list item.
pub fn parse_list_item(line: &str) -> (r: (usize, String))
    ensures
        r.0 == item_level(line@),
        r.1@ == item_content(line@),
{
    let v = chars_of(line);
    let (level, content) = item_parts(&v);
    (level, string_of(&content))
}

/// Lines emitted so far, whether an ordered run is open, and the number its
/// next item gets.
pub ghost struct ListScan {
    pub out: Seq<Seq<char>>,
    pub in_ordered: bool,
    pub counter: nat,
}

/// One line of the list pass.
pub open spec fn list_step(st: ListScan, line: Seq<char>, indent: nat, marker: Seq<char>, renumber: bool) -> ListScan {
    let lead = spaces(item_level(line) * indent);
    if is_unordered_spec(line) {
        ListScan {
            out: st.out.push(lead + marker + seq![' '] + item_content(line)),
            in_ordered: false,
            counter: st.counter,
        }
    } else if is_ordered_spec(line) {
        let c: nat = if st.in_ordered { st.counter } else { 1 };
        if renumber {
            ListScan {
                out: st.out.push(lead + dec(c) + seq!['.', ' '] + item_content(line)),
                in_ordered: true,
                counter: c + 1,
            }
        } else {
            ListScan { out: st.out.push(line), in_ordered: true, counter: c }
        }
    } else {
        ListScan { out: st.out.push(line), in_ordered: false, counter: 1 }
    }
}

/// The list pass over the first lines of a text.
pub open spec fn list_scan(ls: Seq<Seq<char>>, indent: nat, marker: Seq<char>, renumber: bool) -> ListScan
    decreases ls.len(),
{
    if ls.len() == 0 {
        ListScan { out: seq![], in_ordered: false, counter: 1 }
    } else {
        list_step(list_scan(ls.drop_last(), indent, marker, renumber), ls.last(), indent, marker, renumber)
    }
}

/// The lines that the list pass emits for `s`.
pub open spec fn list_lines(s: Seq<char>, c: ListConfig) -> Seq<Seq<char>> {
    list_scan(lines_of(s), c.indent_size as nat, c.marker@, c.normalize_numbers).out
}

/// The list pass over a whole text.
pub open spec fn format_lists_spec(s: Seq<char>, c: ListConfig) -> Seq<char> {
    join_lines(list_lines(s, c))
}

/// Appends `level * indent` spaces.
fn push_indent(out: &mut Vec<char>, level: usize, indent: usize)
    ensures
        final(out)@ == old(out)@ + spaces(level as nat * indent as nat),
{
    let mut j: usize = 0;
    assert(old(out)@ + spaces(0) =~= old(out)@);
    while j < level
        invariant
            j <= level,
            out@ == old(out)@ + spaces(j as nat * indent as nat),
        decreases level - j,
    {
        push_spaces(out, indent);
        assert((j + 1) as nat * indent as nat == j as nat * indent as nat + indent as nat) by (nonlinear_arith);
        j += 1;
        assert(out@ =~= old(out)@ + spaces(j as nat * indent as nat));
    }
}

/// Re-emits bullet items with the configured marker and indentation, and
/// numbers ordered items 1, 2, 3, ... within each run when
/// `normalize_numbers` is set.
pub fn format_lists(content: &str, config: &ListConfig) -> (r: String)
    ensures
        r@ == format_lists_spec(content@, *config),
{
    let text = chars_of(content);
    let lines = split_lines(&text);
    let marker = chars_of(config.marker.as_str());
    let ghost ls = views(lines@);
    let mut out: Vec<Vec<char>> = Vec::new();
    let mut in_ordered = false;
    // items of the current ordered run numbered so far
    let mut run: usize = 0;
    let mut i: usize = 0;
    assert(ls.take(0) =~= Seq::<Seq<char>>::empty());
    assert(views(out@) =~= Seq::<Seq<char>>::empty());
    while i < lines.len()
        invariant
            i <= lines.len(),
            ls == views(lines@),
            ls == lines_of(text@),
            text@ == content@,
            marker@ == config.marker@,
            run <= i,
            list_scan(ls.take(i as int), config.indent_size as nat, config.marker@, config.normalize_numbers)
                == (ListScan { out: views(out@), in_ordered, counter: run as nat + 1 }),
        decreases lines.len() - i,
    {
        assert(ls.take(i as int + 1).drop_last() =~= ls.take(i as int));
        assert(ls[i as int] == lines@[i as int]@);
        let line = &lines[i];
        let ghost o1 = views(out@);
        let t = trim(line);
        if bullet_vec(&t) {
            in_ordered = false;
            let (level, item) = item_parts(line);
            let mut l: Vec<char> = Vec::new();
            push_indent(&mut l, level, config.indent_size);
            push_all(&mut l, &marker);
            l.push(' ');
            push_all(&mut l, &item);
            assert(l@ =~= spaces(item_level(line@) * config.indent_size as nat) + config.marker@ + seq![' '] + item_content(line@));
            out.push(l);
            assert(views(out@) =~= o1.push(l@));
        } else if numbered_vec(&t).is_some() {
            if !in_ordered {
                run = 0;
                in_ordered = true;
            }
            if config.normalize_numbers {
                let (level, item) = item_parts(line);
                let mut l: Vec<char> = Vec::new();
                push_indent(&mut l, level, config.indent_size);
                push_decimal(&mut l, run + 1);
                l.push('.');
                l.push(' ');
                push_all(&mut l, &item);
                assert(l@ =~= spaces(item_level(line@) * config.indent_size as nat) + dec(run as nat + 1) + seq!['.', ' '] + item_content(line@));
                out.push(l);
                assert(views(out@) =~= o1.push(l@));
                run += 1;
            } else {
                out.push(line.clone());
                assert(views(out@) =~= o1.push(line@));
            }
        } else {
            in_ordered = false;
            run = 0;
            out.push(line.clone());
            assert(views(out@) =~= o1.push(line@));
        }
        i += 1;
    }
    assert(ls.take(i as int) =~= ls);
    let joined = join_lines_exec(&out);
    string_of(&joined)
}

// -------------------------------------------------------- renumbering law

/// The list pass emits one line per line, each fixed once emitted.
proof fn lemma_list_prefix(ls: Seq<Seq<char>>, k: int, indent: nat, marker: Seq<char>, renumber: bool)
    requires
        0 <= k <= ls.len(),
    ensures
        list_scan(ls, indent, marker, renumber).out.len() == ls.len(),
        list_scan(ls, indent, marker, renumber).out.take(k) == list_scan(ls.take(k), indent, marker, renumber).out,
    decreases ls.len(),
{
    if ls.len() > 0 {
        lemma_list_prefix(ls.drop_last(), if k < ls.len() { k } else { 0 }, indent, marker, renumber);
    }
    if k == ls.len() {
        assert(ls.take(k) =~= ls);
        assert(list_scan(ls, indent, marker, renumber).out.take(k) =~= list_scan(ls, indent, marker, renumber).out);
    } else {
        assert(ls.drop_last().take(k) =~= ls.take(k));
        assert(list_scan(ls, indent, marker, renumber).out.take(k) =~= list_scan(ls.drop_last(), indent, marker, renumber).out.take(k));
    }
}

/// Ordered-list renumbering: with `normalize_numbers`, an ordered item on
/// the first line, or after any line that is not an ordered item (a blank
/// line, a bullet item or other text), starts a new run and is numbered 1.
pub proof fn lemma_ordered_run_restarts(ls: Seq<Seq<char>>, indent: nat, marker: Seq<char>, i: int)
    requires
        0 <= i < ls.len(),
        is_ordered_spec(ls[i]),
        i > 0 ==> !is_ordered_spec(ls[i - 1]),
    ensures
        list_scan(ls, indent, marker, true).out[i] == spaces(item_level(ls[i]) * indent) + dec(1)
            + seq!['.', ' '] + item_content(ls[i]),
{
    lemma_list_prefix(ls, i + 1, indent, marker, true);
    lemma_list_prefix(ls.take(i), i, indent, marker, true);
    if i > 0 {
        assert(ls.take(i).drop_last() =~= ls.take(i - 1));
        assert(ls.take(i).last() == ls[i - 1]);
    }
    let tr = trim_spec(ls[i]);
    if bullet_text(tr) {
        assert(tr.take(2)[0] == tr[0]);
        assert(seq!['-', ' '][0] == '-' && seq!['*', ' '][0] == '*' && seq!['+', ' '][0] == '+');
    }
    let t = ls.take(i + 1);
    assert(t.drop_last() =~= ls.take(i));
    assert(t.last() == ls[i]);
    assert(list_scan(ls, indent, marker, true).out.take(i + 1)[i] == list_scan(ls, indent, marker, true).out[i]);
}

} // verus!
