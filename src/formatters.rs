//! Structural formatters, and the code-fence guard that keeps fenced code
//! out of their reach.
use vstd::prelude::*;
use crate::config::Config;
use crate::preprocessor::{fence_line, is_fence};
use crate::text::{
    chars_of, dec, digit_char, is_digit, join_lines,
    join_lines_exec, lead_digits, lemma_lead_digits_bound, lines_of, push_all, push_decimal,
    push_str, slice_of, split_lines, starts_with, string_of, trim, trim_spec, views,
};
use self::heading::{format_headings, format_headings_spec};
use self::list::{format_lists, format_lists_spec};
use self::table::{format_tables, format_tables_spec};

pub mod code;
pub mod heading;
pub mod list;
pub mod table;

verus! {

/// The three structural formatters in their fixed order: tables, headings,
/// lists.
pub open spec fn apply_all_spec(s: Seq<char>, c: Config) -> Seq<char> {
    format_lists_spec(
        format_headings_spec(
            format_tables_spec(s, c.tables.align, c.tables.min_column_width as nat, c.tables.padding as nat),
            c.headings,
        ),
        c.lists,
    )
}

/// Runs the table, heading and list formatters, in that order.
pub fn apply_all(content: &str, config: &Config) -> (r: String)
    ensures
        r@ == apply_all_spec(content@, *config),
{
    let a = format_tables(content, &config.tables);
    let b = format_headings(a.as_str(), &config.headings);
    format_lists(b.as_str(), &config.lists)
}

// ------------------------------------------------------------ code guard

/// The placeholder that stands for code block `k`.
pub open spec fn token(k: nat) -> Seq<char> {
    "<!--BEAUTIFUL_MD_CODE_BLOCK_"@ + dec(k) + "-->"@
}

/// A code block: language tag and verbatim body.
pub open spec fn block_view(b: (String, String)) -> (Seq<char>, Seq<char>) {
    (b.0@, b.1@)
}

/// The code blocks as language tags and bodies.
pub open spec fn blocks_view(bs: Seq<(String, String)>) -> Seq<(Seq<char>, Seq<char>)> {
    bs.map_values(|b: (String, String)| block_view(b))
}

/// State of extraction: lines emitted with the source line (1-indexed) of
/// each, blocks taken out, whether a block is open, and the open block's
/// language tag, body lines and opening line.
pub ghost struct GuardScan {
    pub out: Seq<Seq<char>>,
    pub src: Seq<nat>,
    pub open: nat,
    pub blocks: Seq<(Seq<char>, Seq<char>)>,
    pub in_code: bool,
    pub lang: Seq<char>,
    pub body: Seq<Seq<char>>,
}

/// A block closed: its tag and joined body recorded, its token emitted in
/// place of the opening fence's line.
pub open spec fn close_block(st: GuardScan) -> GuardScan {
    GuardScan {
        out: st.out.push(token(st.blocks.len())),
        src: st.src.push(st.open),
        open: st.open,
        blocks: st.blocks.push((st.lang, join_lines(st.body))),
        in_code: false,
        lang: st.lang,
        body: seq![],
    }
}

/// One line of extraction, source line `n`.
pub open spec fn guard_step(st: GuardScan, line: Seq<char>, n: nat) -> GuardScan {
    let t = trim_spec(line);
    if is_fence(t) {
        if st.in_code {
            close_block(st)
        } else {
            GuardScan { in_code: true, lang: trim_spec(t.skip(3)), open: n, ..st }
        }
    } else if st.in_code {
        GuardScan { body: st.body.push(line), ..st }
    } else {
        GuardScan { out: st.out.push(line), src: st.src.push(n), ..st }
    }
}

/// Extraction over the first lines of a text.
pub open spec fn guard_scan(ls: Seq<Seq<char>>) -> GuardScan
    decreases ls.len(),
{
    if ls.len() == 0 {
        GuardScan {
            out: seq![],
            src: seq![],
            open: 0,
            blocks: seq![],
            in_code: false,
            lang: seq![],
            body: seq![],
        }
    } else {
        guard_step(guard_scan(ls.drop_last()), ls.last(), ls.len())
    }
}

/// Extraction over a whole text; a block still open at the end is closed.
pub open spec fn extract_spec(s: Seq<char>) -> GuardScan {
    let st = guard_scan(lines_of(s));
    if st.in_code {
        close_block(st)
    } else {
        st
    }
}

/// Appends the placeholder of block `k`.
fn push_token(out: &mut Vec<char>, k: usize)
    ensures
        final(out)@ == old(out)@ + token(k as nat),
{
    push_str(out, "<!--BEAUTIFUL_MD_CODE_BLOCK_");
    push_decimal(out, k);
    push_str(out, "-->");
    assert(final(out)@ =~= old(out)@ + token(k as nat));
}

/// Takes every fenced code block out of `content`: the fence lines and body
/// become one placeholder line, and the language tag and body (lines joined
/// with newlines, unchanged) are returned in order. A block left open at the
/// end of the input is taken out as well.
pub fn extract_code_blocks_early(content: &str) -> (r: (String, Vec<(String, String)>))
    ensures
        r.0@ == join_lines(extract_spec(content@).out),
        blocks_view(r.1@) == extract_spec(content@).blocks,
{
    let (text, blocks, _) = extract_with_lines(content);
    (text, blocks)
}

/// The numbers as naturals.
pub open spec fn nats(v: Seq<usize>) -> Seq<nat> {
    v.map_values(|x: usize| x as nat)
}

/// [`extract_code_blocks_early`], with the source line (1-indexed) of each
/// line of the returned text; a placeholder line maps to its block's opening
/// fence.
pub fn extract_with_lines(content: &str) -> (r: (String, Vec<(String, String)>, Vec<usize>))
    ensures
        r.0@ == join_lines(extract_spec(content@).out),
        blocks_view(r.1@) == extract_spec(content@).blocks,
        nats(r.2@) == extract_spec(content@).src,
{
    let text = chars_of(content);
    let lines = split_lines(&text);
    let ghost ls = views(lines@);
    let mut out: Vec<Vec<char>> = Vec::new();
    let mut blocks: Vec<(String, String)> = Vec::new();
    let mut in_code = false;
    let mut lang: Vec<char> = Vec::new();
    let mut body: Vec<Vec<char>> = Vec::new();
    let mut src: Vec<usize> = Vec::new();
    let mut open: usize = 0;
    let mut i: usize = 0;
    assert(ls.take(0) =~= Seq::<Seq<char>>::empty());
    assert(views(out@) =~= Seq::<Seq<char>>::empty());
    assert(views(body@) =~= Seq::<Seq<char>>::empty());
    assert(nats(src@) =~= Seq::<nat>::empty());
    assert(blocks_view(blocks@) =~= Seq::<(Seq<char>, Seq<char>)>::empty());
    while i < lines.len()
        invariant
            i <= lines.len(),
            ls == views(lines@),
            ls == lines_of(text@),
            text@ == content@,
            guard_scan(ls.take(i as int)) == (GuardScan {
                out: views(out@),
                src: nats(src@),
                open: open as nat,
                blocks: blocks_view(blocks@),
                in_code,
                lang: lang@,
                body: views(body@),
            }),
        decreases lines.len() - i,
    {
        assert(ls.take(i as int + 1).drop_last() =~= ls.take(i as int));
        assert(ls[i as int] == lines@[i as int]@);
        let line = &lines[i];
        let t = trim(line);
        if fence_line(&t) {
            if in_code {
                close(&mut out, &mut blocks, &lang, &body);
                let ghost s1 = nats(src@);
                src.push(open);
                assert(nats(src@) =~= s1.push(open as nat));
                body = Vec::new();
                assert(views(body@) =~= Seq::<Seq<char>>::empty());
                in_code = false;
            } else {
                in_code = true;
                open = i + 1;
                let rest = slice_of(&t, 3, t.len());
                assert(rest@ =~= t@.skip(3));
                lang = trim(&rest);
            }
        } else if in_code {
            let ghost b1 = views(body@);
            body.push(line.clone());
            assert(views(body@) =~= b1.push(line@));
        } else {
            let ghost o1 = views(out@);
            out.push(line.clone());
            assert(views(out@) =~= o1.push(line@));
            let ghost s1 = nats(src@);
            src.push(i + 1);
            assert(nats(src@) =~= s1.push((i + 1) as nat));
        }
        i += 1;
    }
    assert(ls.take(i as int) =~= ls);
    if in_code {
        close(&mut out, &mut blocks, &lang, &body);
        let ghost s1 = nats(src@);
        src.push(open);
        assert(nats(src@) =~= s1.push(open as nat));
    }
    let joined = join_lines_exec(&out);
    (string_of(&joined), blocks, src)
}

/// Records the open block and emits its placeholder line.
fn close(out: &mut Vec<Vec<char>>, blocks: &mut Vec<(String, String)>, lang: &Vec<char>, body: &Vec<Vec<char>>)
    ensures
        views(final(out)@) == views(old(out)@).push(token(old(blocks)@.len() as nat)),
        blocks_view(final(blocks)@) == blocks_view(old(blocks)@).push((lang@, join_lines(views(body@)))),
{
    let mut tok: Vec<char> = Vec::new();
    push_token(&mut tok, blocks.len());
    assert(tok@ =~= token(blocks@.len() as nat));
    let ghost o1 = views(out@);
    out.push(tok);
    assert(views(out@) =~= o1.push(token(old(blocks)@.len() as nat)));
    let joined = join_lines_exec(body);
    let ghost b1 = blocks_view(blocks@);
    blocks.push((string_of(lang), string_of(&joined)));
    assert(blocks_view(blocks@) =~= b1.push((lang@, join_lines(views(body@)))));
}

// ---------------------------------------------------------- restoration

/// Value of a decimal digit.
pub open spec fn digit_value(c: char) -> nat {
    if c == '1' { 1 } else if c == '2' { 2 } else if c == '3' { 3 } else if c == '4' { 4 }
    else if c == '5' { 5 } else if c == '6' { 6 } else if c == '7' { 7 } else if c == '8' { 8 }
    else if c == '9' { 9 } else { 0 }
}

/// Value of a run of decimal digits.
pub open spec fn digits_value(d: Seq<char>) -> nat
    decreases d.len(),
{
    if d.len() == 0 {
        0
    } else {
        digits_value(d.drop_last()) * 10 + digit_value(d.last())
    }
}

/// What every placeholder starts with.
pub open spec fn token_prefix() -> Seq<char> {
    "<!--BEAUTIFUL_MD_CODE_BLOCK_"@
}

/// What every placeholder ends with.
pub open spec fn token_suffix() -> Seq<char> {
    "-->"@
}

/// The placeholder at the start of `t`, if one stands there for a block
/// index below `n`: its index and length. The index is written without
/// leading zeros.
pub open spec fn token_at(t: Seq<char>, n: nat) -> Option<(nat, nat)> {
    let pl = token_prefix().len();
    if starts_with(t, token_prefix()) {
        let rest = t.skip(pl as int);
        let d = lead_digits(rest);
        let v = digits_value(rest.take(d as int));
        if d >= 1 && (d == 1 || rest[0] != '0') && starts_with(rest.skip(d as int), token_suffix())
            && v < n {
            Some((v, pl + d + token_suffix().len()))
        } else {
            None
        }
    } else {
        None
    }
}

/// A code block re-fenced with `fence`; an empty tag leaves nothing behind
/// the opening fence.
pub open spec fn fenced(b: (Seq<char>, Seq<char>), fence: Seq<char>) -> Seq<char> {
    fence + b.0 + seq!['\n'] + b.1 + seq!['\n'] + fence
}

/// `t` with each placeholder of a block replaced by that block, fenced,
/// read from left to right. The bounds tested on a placeholder always hold
/// (`lemma_token_at_len`); they keep the definition well founded.
pub open spec fn restore_spec(t: Seq<char>, blocks: Seq<(Seq<char>, Seq<char>)>, fence: Seq<char>) -> Seq<char>
    decreases t.len(),
{
    if t.len() == 0 {
        seq![]
    } else {
        match token_at(t, blocks.len()) {
            Some((k, l)) => if 0 < l <= t.len() && k < blocks.len() {
                fenced(blocks[k as int], fence) + restore_spec(t.skip(l as int), blocks, fence)
            } else {
                seq![]
            },
            None => seq![t[0]] + restore_spec(t.drop_first(), blocks, fence),
        }
    }
}

/// A placeholder found lies within `t` and names a block below `n`.
proof fn lemma_token_at_len(t: Seq<char>, n: nat)
    ensures
        token_at(t, n) matches Some((k, l)) ==> 0 < l <= t.len() && k < n,
{
    reveal_strlit("<!--BEAUTIFUL_MD_CODE_BLOCK_");
    reveal_strlit("-->");
    let pl = token_prefix().len();
    if starts_with(t, token_prefix()) {
        let rest = t.skip(pl as int);
        lemma_lead_digits_bound(rest);
    }
}

/// Whether `p` stands in `v` at position `i`.
fn matches_at(v: &Vec<char>, i: usize, p: &Vec<char>) -> (r: bool)
    requires
        i <= v.len(),
    ensures
        r == starts_with(v@.skip(i as int), p@),
{
    if p.len() > v.len() - i {
        return false;
    }
    let mut j: usize = 0;
    while j < p.len()
        invariant
            i <= v.len(),
            j <= p.len() <= v.len() - i,
            forall|m: int| 0 <= m < j ==> v@[i + m] == p@[m],
        decreases p.len() - j,
    {
        if v[i + j] != p[j] {
            assert(v@.skip(i as int).take(p@.len() as int)[j as int] != p@[j as int]);
            return false;
        }
        j += 1;
    }
    assert(v@.skip(i as int).take(p@.len() as int) =~= p@);
    true
}

/// Number of ASCII digits from position `i` of `v` on.
fn digits_from(v: &Vec<char>, i: usize) -> (r: usize)
    requires
        i <= v.len(),
    ensures
        r == lead_digits(v@.skip(i as int)),
        i + r <= v.len(),
{
    let mut k: usize = i;
    assert(v@.skip(i as int).skip(0) =~= v@.skip(i as int));
    while k < v.len() && '0' <= v[k] && v[k] <= '9'
        invariant
            i <= k <= v.len(),
            lead_digits(v@.skip(i as int)) == (k - i) + lead_digits(v@.skip(k as int)),
        decreases v.len() - k,
    {
        assert(v@.skip(k as int).drop_first() =~= v@.skip(k as int + 1));
        k += 1;
    }
    k - i
}

/// Value of a decimal digit.
fn digit_of(c: char) -> (r: u8)
    ensures
        r as nat == digit_value(c),
        r <= 9,
{
    if c == '1' { 1 } else if c == '2' { 2 } else if c == '3' { 3 } else if c == '4' { 4 }
    else if c == '5' { 5 } else if c == '6' { 6 } else if c == '7' { 7 } else if c == '8' { 8 }
    else if c == '9' { 9 } else { 0 }
}

/// The placeholder at position `i` of `t`, for a block index below `n`.
fn token_here(t: &Vec<char>, i: usize, n: usize, prefix: &Vec<char>, suffix: &Vec<char>) -> (r: Option<(usize, usize)>)
    requires
        i <= t.len(),
        prefix@ == token_prefix(),
        suffix@ == token_suffix(),
    ensures
        match r {
            Some((k, l)) => token_at(t@.skip(i as int), n as nat) == Some((k as nat, l as nat)),
            None => token_at(t@.skip(i as int), n as nat) is None,
        },
{
    proof {
        reveal_strlit("<!--BEAUTIFUL_MD_CODE_BLOCK_");
        reveal_strlit("-->");
    }
    let ghost s = t@.skip(i as int);
    if !matches_at(t, i, prefix) {
        return None;
    }
    let pl = prefix.len();
    let j = i + pl;
    assert(s.skip(pl as int) =~= t@.skip(j as int));
    let d = digits_from(t, j);
    if d == 0 || (d > 1 && t[j] == '0') {
        return None;
    }
    let ghost digits = t@.skip(j as int).take(d as int);
    // value of the digits, or `big` once it reaches `n`
    let mut acc: usize = 0;
    let mut big = n == 0;
    let mut m: usize = 0;
    assert(digits.take(0) =~= Seq::<char>::empty());
    while m < d
        invariant
            m <= d,
            j + d <= t.len(),
            digits == t@.skip(j as int).take(d as int),
            !big ==> acc as nat == digits_value(digits.take(m as int)) && acc < n,
            big ==> digits_value(digits.take(m as int)) >= n,
        decreases d - m,
    {
        let ghost prev = digits.take(m as int);
        assert(digits.take(m as int + 1).drop_last() =~= prev);
        assert(digits.take(m as int + 1).last() == t@[j + m]);
        let dv = digit_of(t[j + m]);
        if big {
            let ghost v = digits_value(prev);
            assert(v * 10 >= v) by (nonlinear_arith);
        } else {
            let x: u128 = (acc as u128) * 10 + (dv as u128);
            if x >= n as u128 {
                big = true;
            } else {
                acc = x as usize;
            }
        }
        m += 1;
    }
    assert(digits.take(d as int) =~= digits);
    if big {
        return None;
    }
    if !matches_at(t, j + d, suffix) {
        assert(t@.skip(j as int).skip(d as int) =~= t@.skip(j as int + d));
        return None;
    }
    assert(t@.skip(j as int).skip(d as int) =~= t@.skip(j as int + d));
    Some((acc, pl + d + suffix.len()))
}

/// Puts each code block back in place of its placeholder, fenced with the
/// configured fence style; the body is inserted verbatim.
pub fn restore_code_blocks_early(content: &str, code_blocks: &[(String, String)], config: &Config) -> (r: String)
    ensures
        r@ == restore_spec(content@, blocks_view(code_blocks@), config.code.fence_style@),
{
    let t = chars_of(content);
    let fence = chars_of(config.code.fence_style.as_str());
    let prefix = chars_of("<!--BEAUTIFUL_MD_CODE_BLOCK_");
    let suffix = chars_of("-->");
    let ghost bs = blocks_view(code_blocks@);
    let ghost f = fence@;
    let mut out: Vec<char> = Vec::new();
    let mut i: usize = 0;
    assert(t@.skip(0) =~= t@);
    while i < t.len()
        invariant
            i <= t.len(),
            t@ == content@,
            fence@ == config.code.fence_style@,
            prefix@ == token_prefix(),
            suffix@ == token_suffix(),
            bs == blocks_view(code_blocks@),
            out@ + restore_spec(t@.skip(i as int), bs, fence@) == restore_spec(t@, bs, fence@),
        decreases t.len() - i,
    {
        let ghost rest = t@.skip(i as int);
        proof {
            lemma_token_at_len(rest, bs.len());
        }
        match token_here(&t, i, code_blocks.len(), &prefix, &suffix) {
            Some((k, l)) => {
                let ghost o1 = out@;
                let lang = chars_of(code_blocks[k].0.as_str());
                let body = chars_of(code_blocks[k].1.as_str());
                push_all(&mut out, &fence);
                push_all(&mut out, &lang);
                out.push('\n');
                push_all(&mut out, &body);
                out.push('\n');
                push_all(&mut out, &fence);
                assert(bs[k as int] == block_view(code_blocks@[k as int]));
                assert(out@ =~= o1 + fenced(bs[k as int], fence@));
                assert(rest.skip(l as int) =~= t@.skip(i + l));
                i = i + l;
            },
            None => {
                out.push(t[i]);
                assert(rest.drop_first() =~= t@.skip(i + 1));
                i = i + 1;
            },
        }
    }
    assert(t@.skip(i as int) =~= Seq::<char>::empty());
    assert(out@ =~= out@ + restore_spec(t@.skip(i as int), bs, fence@));
    string_of(&out)
}

// ------------------------------------------------------- verbatim law

/// A decimal numeral is made of digits, starts with a non-zero digit when
/// the number is, and reads back as the number.
proof fn lemma_dec(n: nat)
    ensures
        dec(n).len() >= 1,
        forall|i: int| 0 <= i < dec(n).len() ==> is_digit(#[trigger] dec(n)[i]),
        n >= 1 ==> dec(n)[0] != '0',
        dec(n).len() > 1 ==> n >= 1,
        digits_value(dec(n)) == n,
    decreases n,
{
    if n >= 10 {
        lemma_dec(n / 10);
        let d = dec(n);
        assert(d.drop_last() =~= dec(n / 10));
        assert forall|i: int| 0 <= i < d.len() implies is_digit(#[trigger] d[i]) by {
            if i < d.len() - 1 {
                assert(d[i] == dec(n / 10)[i]);
            }
        }
        assert(d[0] == dec(n / 10)[0]);
        assert(d.last() == digit_char(n % 10));
        assert(digit_value(digit_char(n % 10)) == n % 10);
        assert(digits_value(d) == digits_value(dec(n / 10)) * 10 + digit_value(d.last()));
        assert((n / 10) * 10 + n % 10 == n);
    } else {
        assert(digit_value(digit_char(n)) == n);
        assert(dec(n).drop_last() =~= Seq::<char>::empty());
        assert(digits_value(dec(n)) == digits_value(dec(n).drop_last()) * 10 + digit_value(dec(n).last()));
    }
}

/// The digit run of digits followed by a non-digit is the digits.
proof fn lemma_lead_digits_concat(a: Seq<char>, b: Seq<char>)
    requires
        forall|i: int| 0 <= i < a.len() ==> is_digit(#[trigger] a[i]),
        b.len() > 0,
        !is_digit(b[0]),
    ensures
        lead_digits(a + b) == a.len(),
    decreases a.len(),
{
    if a.len() > 0 {
        assert((a + b).drop_first() =~= a.drop_first() + b);
        assert forall|i: int| 0 <= i < a.drop_first().len() implies is_digit(#[trigger] a.drop_first()[i]) by {
            assert(a.drop_first()[i] == a[i + 1]);
        }
        lemma_lead_digits_concat(a.drop_first(), b);
    } else {
        assert(a + b =~= b);
    }
}

/// Code verbatim preservation: where the placeholder of block `k` stands,
/// restoration puts exactly the fence, the block's language tag, a newline,
/// its body unchanged, a newline and the fence. The blocks are those that
/// extraction took out, each body being the source lines between its fences
/// joined unchanged, so the body comes back byte for byte.
pub proof fn lemma_code_verbatim(blocks: Seq<(Seq<char>, Seq<char>)>, fence: Seq<char>, k: nat, rest: Seq<char>)
    requires
        k < blocks.len(),
    ensures
        restore_spec(token(k) + rest, blocks, fence) == fence + blocks[k as int].0 + seq!['\n']
            + blocks[k as int].1 + seq!['\n'] + fence + restore_spec(rest, blocks, fence),
{
    reveal_strlit("<!--BEAUTIFUL_MD_CODE_BLOCK_");
    reveal_strlit("-->");
    lemma_dec(k);
    let t = token(k) + rest;
    let pl = token_prefix().len();
    let tail = dec(k) + (token_suffix() + rest);
    assert(t.take(pl as int) =~= token_prefix());
    assert(t.skip(pl as int) =~= tail);
    lemma_lead_digits_concat(dec(k), token_suffix() + rest);
    let d = dec(k).len();
    assert(tail.take(d as int) =~= dec(k));
    assert(tail.skip(d as int) =~= token_suffix() + rest);
    assert((token_suffix() + rest).take(3) =~= token_suffix());
    assert(token_at(t, blocks.len()) == Some((k, pl + d + 3)));
    assert(t.skip((pl + d + 3) as int) =~= rest);
    lemma_token_at_len(t, blocks.len());
}

} // verus!
