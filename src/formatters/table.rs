//! Table alignment: every row of a table is re-emitted with its cells padded
//! to the width of their column.
use vstd::prelude::*;
use crate::config::TableConfig;
use crate::text::{
    chars_of, has_char, join_lines, join_lines_exec, lines_of, push_all, push_spaces, spaces, split_lines,
    string_of, trim, trim_spec, views,
};

verus! {

/// The trimmed cell if it is not empty.
pub open spec fn keep_cell(cur: Seq<char>) -> Seq<Seq<char>> {
    if trim_spec(cur).len() > 0 {
        seq![trim_spec(cur)]
    } else {
        seq![]
    }
}

/// The cells of a row given the part `cur` of the current cell read so far:
/// the row is split at every `'|'`, each piece is trimmed, and empty pieces
/// are dropped.
pub open spec fn cells_acc(s: Seq<char>, cur: Seq<char>) -> Seq<Seq<char>>
    decreases s.len(),
{
    if s.len() == 0 {
        keep_cell(cur)
    } else if s[0] == '|' {
        keep_cell(cur) + cells_acc(s.drop_first(), seq![])
    } else {
        cells_acc(s.drop_first(), cur.push(s[0]))
    }
}

/// The non-empty trimmed cells of a pipe-delimited row.
pub open spec fn cells(row: Seq<char>) -> Seq<Seq<char>> {
    cells_acc(row, seq![])
}

/// A cell made only of `-` and `:` (an alignment cell of a separator row).
pub open spec fn is_sep_cell(c: Seq<char>) -> bool {
    forall|i: int| 0 <= i < c.len() ==> (#[trigger] c[i] == '-' || c[i] == ':')
}

/// A row whose every non-empty cell is an alignment cell.
pub open spec fn is_sep_row(cs: Seq<Seq<char>>) -> bool {
    forall|k: int| 0 <= k < cs.len() ==> is_sep_cell(#[trigger] cs[k])
}

/// The non-empty trimmed cells of `row`.
pub fn split_cells(row: &Vec<char>) -> (r: Vec<Vec<char>>)
    ensures
        views(r@) == cells(row@),
{
    let mut r: Vec<Vec<char>> = Vec::new();
    let mut cur: Vec<char> = Vec::new();
    let mut i: usize = 0;
    assert(row@.skip(0) =~= row@);
    assert(views(r@) + cells_acc(row@, cur@) =~= cells(row@));
    while i < row.len()
        invariant
            i <= row.len(),
            views(r@) + cells_acc(row@.skip(i as int), cur@) == cells(row@),
        decreases row.len() - i,
    {
        assert(row@.skip(i as int).drop_first() =~= row@.skip(i as int + 1));
        let ghost old_r = r@;
        let ghost old_cur = cur@;
        if row[i] == '|' {
            let t = trim(&cur);
            if t.len() > 0 {
                r.push(t);
            }
            assert(views(r@) =~= views(old_r) + keep_cell(old_cur));
            cur = Vec::new();
            assert(cur@ =~= Seq::<char>::empty());
        } else {
            cur.push(row[i]);
        }
        i += 1;
    }
    assert(row@.skip(i as int) =~= Seq::<char>::empty());
    let ghost old_r = r@;
    let ghost c = cur@;
    let t = trim(&cur);
    if t.len() > 0 {
        r.push(t);
    }
    assert(views(r@) =~= views(old_r) + keep_cell(c));
    r
}

/// Whether `c` is made only of `-` and `:`.
pub fn sep_cell(c: &Vec<char>) -> (r: bool)
    ensures
        r == is_sep_cell(c@),
{
    let mut i: usize = 0;
    while i < c.len()
        invariant
            i <= c.len(),
            forall|j: int| 0 <= j < i ==> (#[trigger] c@[j] == '-' || c@[j] == ':'),
        decreases c.len() - i,
    {
        if c[i] != '-' && c[i] != ':' {
            return false;
        }
        i += 1;
    }
    true
}

/// Whether every cell of `cs` is an alignment cell.
pub fn sep_row(cs: &Vec<Vec<char>>) -> (r: bool)
    ensures
        r == is_sep_row(views(cs@)),
{
    let mut k: usize = 0;
    while k < cs.len()
        invariant
            k <= cs.len(),
            forall|j: int| 0 <= j < k ==> is_sep_cell(#[trigger] views(cs@)[j]),
        decreases cs.len() - k,
    {
        if !sep_cell(&cs[k]) {
            assert(!is_sep_cell(views(cs@)[k as int]));
            return false;
        }
        k += 1;
    }
    true
}

/// `n` dashes.
pub open spec fn dashes(n: nat) -> Seq<char> {
    Seq::new(n, |i: int| '-')
}

/// Width an alignment cell needs for its colons.
pub open spec fn colon_need(c: Seq<char>) -> nat {
    if c.len() > 0 && c[0] == ':' && c.last() == ':' {
        2
    } else if c.len() > 0 && (c[0] == ':' || c.last() == ':') {
        1
    } else {
        0
    }
}

/// Width a cell asks of its column: its length for content, the room for its
/// colons for an alignment cell.
pub open spec fn cell_need(c: Seq<char>) -> nat {
    if is_sep_cell(c) {
        colon_need(c)
    } else {
        c.len()
    }
}

/// Width of column `c` over `rows`: at least `min_w`, and as wide as every
/// cell of the column asks.
pub open spec fn col_width(rows: Seq<Seq<Seq<char>>>, c: int, min_w: nat) -> nat
    decreases rows.len(),
{
    if rows.len() == 0 {
        min_w
    } else {
        let w = col_width(rows.drop_last(), c, min_w);
        let r = rows.last();
        if 0 <= c < r.len() && cell_need(r[c]) > w {
            cell_need(r[c])
        } else {
            w
        }
    }
}

/// An alignment cell rendered at width `w`, its colons kept.
pub open spec fn sep_body(c: Seq<char>, w: nat) -> Seq<char> {
    if c.len() > 0 && c[0] == ':' && c.last() == ':' {
        seq![':'] + dashes((w - 2) as nat) + seq![':']
    } else if c.len() > 0 && c.last() == ':' {
        dashes((w - 1) as nat) + seq![':']
    } else if c.len() > 0 && c[0] == ':' {
        seq![':'] + dashes((w - 1) as nat)
    } else {
        dashes(w)
    }
}

/// A cell rendered at width `w` with padding `p`, followed by its pipe.
pub open spec fn render_cell(c: Seq<char>, w: nat, p: nat) -> Seq<char> {
    let body = if is_sep_cell(c) {
        sep_body(c, w)
    } else {
        c + spaces((w - c.len()) as nat)
    };
    spaces(p) + body + spaces(p) + seq!['|']
}

/// The first `k` cells of row `r` rendered with the widths of table `rows`.
pub open spec fn render_cells(r: Seq<Seq<char>>, k: int, rows: Seq<Seq<Seq<char>>>, min_w: nat, p: nat) -> Seq<char>
    decreases k,
{
    if k <= 0 {
        seq![]
    } else {
        render_cells(r, k - 1, rows, min_w, p) + render_cell(r[k - 1], col_width(rows, k - 1, min_w), p)
    }
}

/// A row rendered with the widths of table `rows`.
pub open spec fn render_row(r: Seq<Seq<char>>, rows: Seq<Seq<Seq<char>>>, min_w: nat, p: nat) -> Seq<char> {
    seq!['|'] + render_cells(r, r.len() as int, rows, min_w, p)
}

/// The first `k` rows of table `rows` rendered, each followed by a newline.
pub open spec fn render_rows(k: int, rows: Seq<Seq<Seq<char>>>, min_w: nat, p: nat) -> Seq<char>
    decreases k,
{
    if k <= 0 {
        seq![]
    } else {
        render_rows(k - 1, rows, min_w, p) + render_row(rows[k - 1], rows, min_w, p) + seq!['\n']
    }
}

/// The cells of each line of a table block.
pub open spec fn table_rows(lines: Seq<Seq<char>>) -> Seq<Seq<Seq<char>>> {
    lines.map_values(|l: Seq<char>| cells(l))
}

/// A block of consecutive pipe lines, aligned. Fewer than two lines are no
/// table and come back as they are.
pub open spec fn table_text(lines: Seq<Seq<char>>, min_w: nat, p: nat) -> Seq<char> {
    if lines.len() < 2 {
        join_lines(lines) + seq!['\n']
    } else {
        let rows = table_rows(lines);
        render_rows(rows.len() as int, rows, min_w, p)
    }
}

/// Column width after one more row.
proof fn lemma_col_width_step(rows: Seq<Seq<Seq<char>>>, i: int, c: int, min_w: nat)
    requires
        0 <= i < rows.len(),
    ensures
        col_width(rows.take(i + 1), c, min_w) == if 0 <= c < rows[i].len() && cell_need(rows[i][c])
            > col_width(rows.take(i), c, min_w) {
            cell_need(rows[i][c])
        } else {
            col_width(rows.take(i), c, min_w)
        },
{
    assert(rows.take(i + 1).drop_last() =~= rows.take(i));
}

/// Room that an alignment cell needs for its colons.
fn colon_room(c: &Vec<char>) -> (r: usize)
    ensures
        r == colon_need(c@),
        r <= 2,
{
    let n = c.len();
    if n > 0 && c[0] == ':' && c[n - 1] == ':' {
        2
    } else if n > 0 && (c[0] == ':' || c[n - 1] == ':') {
        1
    } else {
        0
    }
}

/// Appends `n` dashes.
fn push_dashes(out: &mut Vec<char>, n: usize)
    ensures
        final(out)@ == old(out)@ + dashes(n as nat),
{
    let mut i: usize = 0;
    while i < n
        invariant
            i <= n,
            out@ == old(out)@ + dashes(i as nat),
        decreases n - i,
    {
        out.push('-');
        i += 1;
        assert(out@ =~= old(out)@ + dashes(i as nat));
    }
}

/// Appends one rendered cell with its pipe.
fn push_cell(out: &mut Vec<char>, cell: &Vec<char>, w: usize, padding: usize)
    requires
        w >= cell_need(cell@),
    ensures
        final(out)@ == old(out)@ + render_cell(cell@, w as nat, padding as nat),
{
    let ghost p = padding as nat;
    push_spaces(out, padding);
    let ghost mid = out@;
    let ghost body = if is_sep_cell(cell@) {
        sep_body(cell@, w as nat)
    } else {
        cell@ + spaces((w - cell@.len()) as nat)
    };
    if sep_cell(cell) {
        let n = cell.len();
        if n > 0 && cell[0] == ':' && cell[n - 1] == ':' {
            out.push(':');
            push_dashes(out, w - 2);
            out.push(':');
        } else if n > 0 && cell[n - 1] == ':' {
            push_dashes(out, w - 1);
            out.push(':');
        } else if n > 0 && cell[0] == ':' {
            out.push(':');
            push_dashes(out, w - 1);
        } else {
            push_dashes(out, w);
        }
        assert(out@ =~= mid + sep_body(cell@, w as nat));
    } else {
        push_all(out, cell);
        push_spaces(out, w - cell.len());
        assert(out@ =~= mid + cell@ + spaces((w - cell@.len()) as nat));
    }
    assert(out@ == mid + body);
    push_spaces(out, padding);
    out.push('|');
    assert(out@ =~= old(out)@ + render_cell(cell@, w as nat, p));
}

/// Formats one block of consecutive pipe lines: each row's cells are padded
/// to their column's width, alignment colons are kept, and every row ends
/// with a newline.
pub fn format_table(lines: &[String], config: &TableConfig) -> (r: String)
    ensures
        r@ == table_text(
            lines@.map_values(|l: String| l@),
            config.min_column_width as nat,
            config.padding as nat,
        ),
{
    let mut v: Vec<Vec<char>> = Vec::new();
    let mut i: usize = 0;
    while i < lines.len()
        invariant
            i <= lines.len(),
            views(v@) == lines@.take(i as int).map_values(|l: String| l@),
        decreases lines.len() - i,
    {
        let ghost prev = views(v@);
        let c = chars_of(lines[i].as_str());
        v.push(c);
        assert(views(v@) =~= prev.push(c@));
        assert(lines@.take(i as int + 1).map_values(|l: String| l@) =~= lines@.take(i as int).map_values(|l: String| l@).push(lines@[i as int]@));
        i += 1;
    }
    assert(lines@.take(i as int) =~= lines@);
    let r = render_table(&v, config);
    string_of(&r)
}

/// [`format_table`] on lines held as characters.
fn render_table(lines: &Vec<Vec<char>>, config: &TableConfig) -> (r: Vec<char>)
    ensures
        r@ == table_text(views(lines@), config.min_column_width as nat, config.padding as nat),
{
    if lines.len() < 2 {
        let mut r = join_lines_exec(lines);
        r.push('\n');
        return r;
    }
    let ghost ls = views(lines@);
    let ghost rows = table_rows(ls);
    // cells of every row
    let mut cs: Vec<Vec<Vec<char>>> = Vec::new();
    let mut num_cols: usize = 0;
    let mut i: usize = 0;
    while i < lines.len()
        invariant
            i <= lines.len(),
            ls == views(lines@),
            rows == table_rows(ls),
            cs@.len() == i,
            forall|k: int| 0 <= k < i ==> views(#[trigger] cs@[k]@) == rows[k],
            forall|k: int| 0 <= k < i ==> cs@[k]@.len() <= num_cols,
        decreases lines.len() - i,
    {
        assert(ls[i as int] == lines@[i as int]@);
        let row = split_cells(&lines[i]);
        if row.len() > num_cols {
            num_cols = row.len();
        }
        cs.push(row);
        i += 1;
    }
    // column widths
    let mut widths: Vec<usize> = Vec::new();
    let mut c: usize = 0;
    while c < num_cols
        invariant
            c <= num_cols,
            widths@.len() == c,
            forall|j: int| 0 <= j < c ==> widths@[j] == config.min_column_width,
        decreases num_cols - c,
    {
        widths.push(config.min_column_width);
        c += 1;
    }
    assert(rows.take(0) =~= Seq::<Seq<Seq<char>>>::empty());
    let mut i: usize = 0;
    while i < cs.len()
        invariant
            i <= cs.len() == lines.len(),
            rows.len() == cs.len(),
            widths@.len() == num_cols,
            forall|k: int| 0 <= k < cs.len() ==> views(#[trigger] cs@[k]@) == rows[k],
            forall|k: int| 0 <= k < cs.len() ==> cs@[k]@.len() <= num_cols,
            forall|j: int| 0 <= j < num_cols ==> widths@[j] == col_width(rows.take(i as int), j, config.min_column_width as nat),
        decreases cs.len() - i,
    {
        let row = &cs[i];
        assert(views(cs@[i as int]@) == rows[i as int]);
        let ghost before = widths@;
        let mut j: usize = 0;
        while j < row.len()
            invariant
                0 <= i < cs.len(),
                rows.len() == cs.len(),
                before.len() == num_cols,
                row == cs@[i as int],
                views(row@) == rows[i as int],
                row@.len() <= num_cols,
                j <= row.len(),
                widths@.len() == num_cols,
                forall|k: int| 0 <= k < j ==> widths@[k] == col_width(rows.take(i as int + 1), k, config.min_column_width as nat),
                forall|k: int| j <= k < num_cols ==> widths@[k] == before[k],
                forall|k: int| 0 <= k < num_cols ==> before[k] == col_width(rows.take(i as int), k, config.min_column_width as nat),
            decreases row.len() - j,
        {
            let cell = &row[j];
            assert(rows[i as int][j as int] == cell@);
            let need = if sep_cell(cell) {
                colon_room(cell)
            } else {
                cell.len()
            };
            proof {
                lemma_col_width_step(rows, i as int, j as int, config.min_column_width as nat);
                assert(rows[i as int].len() == row@.len());
                assert(need == cell_need(rows[i as int][j as int]));
                assert(widths@[j as int] == before[j as int]);
                assert(before[j as int] == col_width(rows.take(i as int), j as int, config.min_column_width as nat));
            }
            if need > widths[j] {
                widths.set(j, need);
            }
            assert(widths@[j as int] == col_width(rows.take(i as int + 1), j as int, config.min_column_width as nat));
            j += 1;
        }
        proof {
            assert forall|k: int| 0 <= k < num_cols implies widths@[k] == col_width(rows.take(i as int + 1), k, config.min_column_width as nat) by {
                lemma_col_width_step(rows, i as int, k, config.min_column_width as nat);
                assert(rows[i as int].len() == row@.len());
                if k >= row@.len() {
                    assert(widths@[k] == before[k]);
                    assert(before[k] == col_width(rows.take(i as int), k, config.min_column_width as nat));
                }
            }
        }
        i += 1;
    }
    assert(rows.take(i as int) =~= rows);
    // rendering
    let mut out: Vec<char> = Vec::new();
    let mut i: usize = 0;
    while i < cs.len()
        invariant
            i <= cs.len(),
            rows.len() == cs.len(),
            widths@.len() == num_cols,
            forall|k: int| 0 <= k < cs.len() ==> views(#[trigger] cs@[k]@) == rows[k],
            forall|k: int| 0 <= k < cs.len() ==> cs@[k]@.len() <= num_cols,
            forall|j: int| 0 <= j < num_cols ==> widths@[j] == col_width(rows, j, config.min_column_width as nat),
            out@ == render_rows(i as int, rows, config.min_column_width as nat, config.padding as nat),
        decreases cs.len() - i,
    {
        let row = &cs[i];
        assert(views(cs@[i as int]@) == rows[i as int]);
        let ghost r = rows[i as int];
        let ghost start = out@;
        out.push('|');
        let mut j: usize = 0;
        while j < row.len()
            invariant
                0 <= i < cs.len(),
                rows.len() == cs.len(),
                row == cs@[i as int],
                views(row@) == r,
                r == rows[i as int],
                row@.len() <= num_cols,
                j <= row.len(),
                widths@.len() == num_cols,
                forall|k: int| 0 <= k < num_cols ==> widths@[k] == col_width(rows, k, config.min_column_width as nat),
                out@ == start + seq!['|'] + render_cells(r, j as int, rows, config.min_column_width as nat, config.padding as nat),
            decreases row.len() - j,
        {
            let cell = &row[j];
            assert(r[j as int] == cell@);
            let w = widths[j];
            proof {
                lemma_col_width_ge(rows, j as int, config.min_column_width as nat, i as int);
            }
            push_cell(&mut out, cell, w, config.padding);
            assert(w as nat == col_width(rows, j as int, config.min_column_width as nat));
            assert(out@ =~= start + seq!['|'] + render_cells(r, j as int + 1, rows, config.min_column_width as nat, config.padding as nat));
            j += 1;
        }
        out.push('\n');
        assert(r.len() == row@.len());
        assert(out@ =~= render_rows(i as int + 1, rows, config.min_column_width as nat, config.padding as nat));
        i += 1;
    }
    out
}

/// Every column of a table is at least `min_w` wide and as wide as each of
/// its cells asks.
pub proof fn lemma_col_width_ge(rows: Seq<Seq<Seq<char>>>, c: int, min_w: nat, i: int)
    ensures
        col_width(rows, c, min_w) >= min_w,
        0 <= i < rows.len() && 0 <= c < rows[i].len() ==> col_width(rows, c, min_w) >= cell_need(rows[i][c]),
    decreases rows.len(),
{
    if rows.len() > 0 {
        lemma_col_width_ge(rows.drop_last(), c, min_w, i);
        if 0 <= i < rows.len() - 1 {
            assert(rows.drop_last()[i] == rows[i]);
        }
    }
}

/// A pending table block rendered, or nothing when there is none.
pub open spec fn flush(block: Seq<Seq<char>>, min_w: nat, p: nat) -> Seq<char> {
    if block.len() == 0 {
        seq![]
    } else {
        table_text(block, min_w, p)
    }
}

/// Text emitted so far and the table block still pending.
pub ghost struct TableScan {
    pub out: Seq<char>,
    pub block: Seq<Seq<char>>,
}

/// The table pass over the first lines of a text: pipe lines gather into a
/// block; any other line flushes the block and is emitted with a newline.
pub open spec fn tables_scan(ls: Seq<Seq<char>>, min_w: nat, p: nat) -> TableScan
    decreases ls.len(),
{
    if ls.len() == 0 {
        TableScan { out: seq![], block: seq![] }
    } else {
        let s = tables_scan(ls.drop_last(), min_w, p);
        let l = ls.last();
        if l.contains('|') {
            TableScan { out: s.out, block: s.block.push(l) }
        } else {
            TableScan { out: s.out + flush(s.block, min_w, p) + l + seq!['\n'], block: seq![] }
        }
    }
}

/// The table pass over a whole text; the identity when alignment is off.
pub open spec fn format_tables_spec(s: Seq<char>, align: bool, min_w: nat, p: nat) -> Seq<char> {
    if !align {
        s
    } else {
        let sc = tables_scan(lines_of(s), min_w, p);
        sc.out + flush(sc.block, min_w, p)
    }
}

/// Aligns every table of `content`: consecutive lines holding a pipe form a
/// table, each of which is re-emitted with padded columns.
pub fn format_tables(content: &str, config: &TableConfig) -> (r: String)
    ensures
        r@ == format_tables_spec(
            content@,
            config.align,
            config.min_column_width as nat,
            config.padding as nat,
        ),
{
    if !config.align {
        return content.to_string();
    }
    let text = chars_of(content);
    let lines = split_lines(&text);
    let ghost ls = views(lines@);
    let mut out: Vec<char> = Vec::new();
    let mut block: Vec<Vec<char>> = Vec::new();
    let mut i: usize = 0;
    assert(ls.take(0) =~= Seq::<Seq<char>>::empty());
    while i < lines.len()
        invariant
            i <= lines.len(),
            ls == views(lines@),
            out@ == tables_scan(ls.take(i as int), config.min_column_width as nat, config.padding as nat).out,
            views(block@) == tables_scan(ls.take(i as int), config.min_column_width as nat, config.padding as nat).block,
        decreases lines.len() - i,
    {
        assert(ls.take(i as int + 1).drop_last() =~= ls.take(i as int));
        assert(ls[i as int] == lines@[i as int]@);
        let line = &lines[i];
        if has_char(line, '|') {
            let ghost b0 = views(block@);
            block.push(line.clone());
            assert(views(block@) =~= b0.push(line@));
        } else {
            if block.len() > 0 {
                let t = render_table(&block, config);
                push_all(&mut out, &t);
            }
            push_all(&mut out, line);
            out.push('\n');
            block = Vec::new();
            assert(views(block@) =~= Seq::<Seq<char>>::empty());
        }
        i += 1;
    }
    assert(ls.take(i as int) =~= ls);
    if block.len() > 0 {
        let t = render_table(&block, config);
        push_all(&mut out, &t);
    }
    string_of(&out)
}

// ------------------------------------------------------------ alignment

/// Where the pipe after column `c` stands in every rendered row: the leading
/// pipe, then each earlier column's width, padding and pipe.
pub open spec fn boundary(rows: Seq<Seq<Seq<char>>>, c: int, min_w: nat, p: nat) -> nat
    decreases c,
{
    if c <= 0 {
        0
    } else {
        boundary(rows, c - 1, min_w, p) + col_width(rows, c - 1, min_w) + 2 * p + 1
    }
}

/// A rendered cell is its width, twice the padding and a pipe long.
proof fn lemma_render_cell_len(c: Seq<char>, w: nat, p: nat)
    requires
        w >= cell_need(c),
    ensures
        render_cell(c, w, p).len() == w + 2 * p + 1,
        render_cell(c, w, p).last() == '|',
{
}

/// Rendered cells end at the column boundaries.
proof fn lemma_render_cells(r: Seq<Seq<char>>, k: int, rows: Seq<Seq<Seq<char>>>, i: int, min_w: nat, p: nat)
    requires
        0 <= i < rows.len(),
        r == rows[i],
        0 <= k <= r.len(),
    ensures
        render_cells(r, k, rows, min_w, p).len() == boundary(rows, k, min_w, p),
        forall|c: int| 0 <= c < k ==> render_cells(r, k, rows, min_w, p)[#[trigger] boundary(rows, c + 1, min_w, p) - 1] == '|',
    decreases k,
{
    if k > 0 {
        lemma_render_cells(r, k - 1, rows, i, min_w, p);
        lemma_col_width_ge(rows, k - 1, min_w, i);
        lemma_render_cell_len(r[k - 1], col_width(rows, k - 1, min_w), p);
        let prev = render_cells(r, k - 1, rows, min_w, p);
        let cell = render_cell(r[k - 1], col_width(rows, k - 1, min_w), p);
        assert forall|c: int| 0 <= c < k implies render_cells(r, k, rows, min_w, p)[#[trigger] boundary(rows, c + 1, min_w, p) - 1] == '|' by {
            if c < k - 1 {
                lemma_boundary_mono(rows, c + 1, k - 1, min_w, p);
                assert((prev + cell)[boundary(rows, c + 1, min_w, p) - 1] == prev[boundary(rows, c + 1, min_w, p) - 1]);
            } else {
                assert((prev + cell)[prev.len() + cell.len() - 1] == cell.last());
            }
        }
    }
}

/// Column boundaries grow with the column.
proof fn lemma_boundary_mono(rows: Seq<Seq<Seq<char>>>, a: int, b: int, min_w: nat, p: nat)
    requires
        0 <= a <= b,
    ensures
        boundary(rows, a, min_w, p) <= boundary(rows, b, min_w, p),
        a >= 1 ==> boundary(rows, a, min_w, p) >= 1,
    decreases b,
{
    if a < b {
        lemma_boundary_mono(rows, a, b - 1, min_w, p);
    }
    if a >= 1 {
        assert(boundary(rows, a, min_w, p) == boundary(rows, a - 1, min_w, p) + col_width(rows, a - 1, min_w) + 2 * p + 1);
    }
}

/// Column alignment: in an aligned table (two lines or more) every column
/// is at least `min_w` wide, and in every rendered row the pipe that closes
/// column `c` stands at the same position, so rows agree in length up to
/// each column boundary.
pub proof fn lemma_table_alignment(lines: Seq<Seq<char>>, min_w: nat, p: nat, i: int, c: int)
    requires
        lines.len() >= 2,
        0 <= i < lines.len(),
        0 <= c,
    ensures
        col_width(table_rows(lines), c, min_w) >= min_w,
        c < cells(lines[i]).len() ==> render_row(cells(lines[i]), table_rows(lines), min_w, p)[boundary(table_rows(lines), c + 1, min_w, p) as int] == '|',
        render_row(cells(lines[i]), table_rows(lines), min_w, p).len() == 1 + boundary(table_rows(lines), cells(lines[i]).len() as int, min_w, p),
{
    let rows = table_rows(lines);
    let r = cells(lines[i]);
    assert(rows[i] == r);
    lemma_col_width_ge(rows, c, min_w, i);
    lemma_render_cells(r, r.len() as int, rows, i, min_w, p);
    if c < r.len() {
        lemma_boundary_mono(rows, c + 1, r.len() as int, min_w, p);
    }
}

} // verus!
