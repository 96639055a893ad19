//! Code block formatting: fenced blocks re-emitted in place with the
//! configured fence.
use vstd::prelude::*;
use crate::config::CodeConfig;
use crate::error::Error;
use crate::preprocessor::{fence_line, is_fence};
use crate::text::{
    chars_of, join_lines, join_lines_exec, lines_of, push_all, slice_of, split_lines, string_of,
    trim, trim_spec, views,
};

verus! {

/// State of the in-place code pass: lines emitted, whether a block is open,
/// and the open block's language tag and body lines.
pub ghost struct CodeScan {
    pub out: Seq<Seq<char>>,
    pub in_code: bool,
    pub lang: Seq<char>,
    pub body: Seq<Seq<char>>,
}

/// A block as lines: the fence with the tag, the body, the fence.
pub open spec fn fenced_lines(style: Seq<char>, lang: Seq<char>, body: Seq<Seq<char>>) -> Seq<Seq<char>> {
    seq![style + lang] + body + seq![style]
}

/// One line of the in-place code pass.
pub open spec fn code_step(st: CodeScan, line: Seq<char>, style: Seq<char>) -> CodeScan {
    let t = trim_spec(line);
    if is_fence(t) {
        if !st.in_code {
            CodeScan { in_code: true, lang: trim_spec(t.skip(3)), body: seq![], ..st }
        } else {
            CodeScan {
                out: st.out + fenced_lines(style, st.lang, st.body),
                in_code: false,
                body: seq![],
                ..st
            }
        }
    } else if st.in_code {
        CodeScan { body: st.body.push(line), ..st }
    } else {
        CodeScan { out: st.out.push(line), ..st }
    }
}

/// The in-place code pass over the first lines of a text.
pub open spec fn code_scan(ls: Seq<Seq<char>>, style: Seq<char>) -> CodeScan
    decreases ls.len(),
{
    if ls.len() == 0 {
        CodeScan { out: seq![], in_code: false, lang: seq![], body: seq![] }
    } else {
        code_step(code_scan(ls.drop_last(), style), ls.last(), style)
    }
}

/// The in-place code pass over a whole text. A block left open at the end
/// is re-emitted closed.
pub open spec fn format_code_blocks_spec(s: Seq<char>, style: Seq<char>) -> Seq<char> {
    let st = code_scan(lines_of(s), style);
    if st.in_code {
        join_lines(st.out + fenced_lines(style, st.lang, st.body))
    } else {
        join_lines(st.out)
    }
}

/// Appends a block: the fence with the tag, the body lines, the fence.
fn emit_block(out: &mut Vec<Vec<char>>, style: &Vec<char>, lang: &Vec<char>, body: &Vec<Vec<char>>)
    ensures
        views(final(out)@) == views(old(out)@) + fenced_lines(style@, lang@, views(body@)),
{
    let ghost o1 = views(out@);
    let mut open = style.clone();
    push_all(&mut open, lang);
    out.push(open);
    let mut k: usize = 0;
    let ghost o2 = views(out@);
    assert(o2 =~= o1.push(style@ + lang@));
    while k < body.len()
        invariant
            k <= body.len(),
            views(out@) == o2 + views(body@).take(k as int),
        decreases body.len() - k,
    {
        let ghost o3 = views(out@);
        out.push(body[k].clone());
        assert(views(out@) =~= o3.push(body@[k as int]@));
        assert(views(body@).take(k as int + 1) =~= views(body@).take(k as int).push(body@[k as int]@));
        k += 1;
    }
    assert(views(body@).take(k as int) =~= views(body@));
    let ghost o4 = views(out@);
    let close = style.clone();
    out.push(close);
    assert(views(out@) =~= o4.push(style@));
    assert(views(out@) =~= o1 + fenced_lines(style@, lang@, views(body@)));
}

/// Re-emits fenced code blocks in place: both fences take the configured
/// style, the opening one keeps the language tag, and the body is unchanged.
/// A block left open at the end of the input is closed.
pub fn format_code_blocks(content: &str, config: &CodeConfig) -> (r: Result<String, Error>)
    ensures
        r matches Ok(s) && s@ == format_code_blocks_spec(content@, config.fence_style@),
{
    let text = chars_of(content);
    let lines = split_lines(&text);
    let style = chars_of(config.fence_style.as_str());
    let ghost ls = views(lines@);
    let mut out: Vec<Vec<char>> = Vec::new();
    let mut in_code = false;
    let mut lang: Vec<char> = Vec::new();
    let mut body: Vec<Vec<char>> = Vec::new();
    let mut i: usize = 0;
    assert(ls.take(0) =~= Seq::<Seq<char>>::empty());
    assert(views(out@) =~= Seq::<Seq<char>>::empty());
    assert(views(body@) =~= Seq::<Seq<char>>::empty());
    while i < lines.len()
        invariant
            i <= lines.len(),
            ls == views(lines@),
            ls == lines_of(text@),
            text@ == content@,
            style@ == config.fence_style@,
            code_scan(ls.take(i as int), style@) == (CodeScan {
                out: views(out@),
                in_code,
                lang: lang@,
                body: views(body@),
            }),
        decreases lines.len() - i,
    {
        assert(ls.take(i as int + 1).drop_last() =~= ls.take(i as int));
        assert(ls[i as int] == lines@[i as int]@);
        let line = &lines[i];
        let t = trim(line);
        if fence_line(&t) {
            if !in_code {
                in_code = true;
                let rest = slice_of(&t, 3, t.len());
                lang = trim(&rest);
                assert(rest@ =~= t@.skip(3));
                body = Vec::new();
                assert(views(body@) =~= Seq::<Seq<char>>::empty());
            } else {
                emit_block(&mut out, &style, &lang, &body);
                body = Vec::new();
                assert(views(body@) =~= Seq::<Seq<char>>::empty());
                in_code = false;
            }
        } else if in_code {
            let ghost b1 = views(body@);
            body.push(line.clone());
            assert(views(body@) =~= b1.push(line@));
        } else {
            let ghost o1 = views(out@);
            out.push(line.clone());
            assert(views(out@) =~= o1.push(line@));
        }
        i += 1;
    }
    assert(ls.take(i as int) =~= ls);
    if in_code {
        emit_block(&mut out, &style, &lang, &body);
    }
    let joined = join_lines_exec(&out);
    Ok(string_of(&joined))
}

} // verus!
