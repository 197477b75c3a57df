//! Laying rendered faces out side by side in rows that fit the terminal.

use vstd::prelude::*;
use vstd::string::*;
use vstd::utf8::encode_utf8;
use crate::render::Rendered;

verus! {

/// Columns between two faces in a row.
pub const GAP: usize = 2;

/// `n` spaces.
pub open spec fn spaces(n: int) -> Seq<char> {
    Seq::new(if n > 0 { n as nat } else { 0 }, |i: int| ' ')
}

/// The byte length of a text in UTF-8.
pub open spec fn byte_len(s: Seq<char>) -> int {
    encode_utf8(s).len() as int
}

/// Whitespace as Rust's `char::is_whitespace` defines it (Unicode White_Space).
pub open spec fn is_ws(c: char) -> bool {
    let u = c as u32;
    ||| 0x09 <= u <= 0x0d
    ||| u == 0x20
    ||| u == 0x85
    ||| u == 0xa0
    ||| u == 0x1680
    ||| 0x2000 <= u <= 0x200a
    ||| u == 0x2028
    ||| u == 0x2029
    ||| u == 0x202f
    ||| u == 0x205f
    ||| u == 0x3000
}

/// The text without its trailing whitespace.
pub open spec fn trim_end(s: Seq<char>) -> Seq<char>
    decreases s.len(),
{
    if s.len() > 0 && is_ws(s.last()) {
        trim_end(s.drop_last())
    } else {
        s
    }
}

/// The width of a face's column: the face, or its name when names are shown and the
/// name is wider.
pub open spec fn column_width(b: (Rendered, String), names: bool) -> int {
    let n = byte_len(b.1@);
    if names && n > b.0.width {
        n
    } else {
        b.0.width as int
    }
}

/// The column widths of all faces.
pub open spec fn column_widths(blocks: Seq<(Rendered, String)>, names: bool) -> Seq<int> {
    Seq::new(blocks.len(), |i: int| column_width(blocks[i], names))
}

/// Greedy wrapping of columns of widths `ws` into rows (lists of column positions)
/// at most `max` wide, columns `GAP` apart; with the width used by the last row. A
/// column wider than `max` gets a row of its own.
pub open spec fn wrap(ws: Seq<int>, max: int) -> (Seq<Seq<usize>>, int)
    decreases ws.len(),
{
    if ws.len() == 0 {
        (seq![Seq::empty()], 0)
    } else {
        let (rows, used) = wrap(ws.drop_last(), max);
        let i = ws.len() - 1;
        let w = ws.last();
        let row = rows.last();
        if row.len() > 0 && used + GAP + w > max {
            (rows.push(seq![i as usize]), w)
        } else {
            (rows.update(rows.len() - 1, row.push(i as usize)), if row.len() == 0 { w } else { used + GAP + w })
        }
    }
}

/// Line `y` of one face, centred in a column `w` wide; blank below the face's last line.
pub open spec fn cell_line(b: (Rendered, String), w: int, y: int) -> Seq<char> {
    let left = (w - b.0.width) / 2;
    let content = if 0 <= y < b.0.lines@.len() {
        b.0.lines@[y]@
    } else {
        spaces(b.0.width as int)
    };
    spaces(left) + content + spaces(w - b.0.width - left)
}

/// A name centred in a column `w` wide.
pub open spec fn centred(name: Seq<char>, w: int) -> Seq<char> {
    let pad = w - name.len();
    spaces(pad / 2) + name + spaces(pad - pad / 2)
}

/// Line `y` of the faces in `row`, side by side.
pub open spec fn row_line(blocks: Seq<(Rendered, String)>, ws: Seq<int>, row: Seq<usize>, y: int) -> Seq<char>
    decreases row.len(),
{
    if row.len() == 0 {
        Seq::empty()
    } else {
        let j = row.last();
        row_line(blocks, ws, row.drop_last(), y) + (if row.len() > 1 { spaces(GAP as int) } else { Seq::empty() })
            + cell_line(blocks[j as int], ws[j as int], y)
    }
}

/// The names of the faces in `row`, each centred under its face.
pub open spec fn name_line(blocks: Seq<(Rendered, String)>, ws: Seq<int>, row: Seq<usize>) -> Seq<char>
    decreases row.len(),
{
    if row.len() == 0 {
        Seq::empty()
    } else {
        let j = row.last();
        name_line(blocks, ws, row.drop_last()) + (if row.len() > 1 { spaces(GAP as int) } else { Seq::empty() })
            + centred(blocks[j as int].1@, ws[j as int])
    }
}

/// The number of lines of the tallest face in `row`.
pub open spec fn row_height(blocks: Seq<(Rendered, String)>, row: Seq<usize>) -> int
    decreases row.len(),
{
    if row.len() == 0 {
        0
    } else {
        let h = row_height(blocks, row.drop_last());
        let l = blocks[row.last() as int].0.lines@.len() as int;
        if l > h {
            l
        } else {
            h
        }
    }
}

/// The first `n` lines of a row of faces, each without trailing whitespace.
pub open spec fn row_lines(blocks: Seq<(Rendered, String)>, ws: Seq<int>, row: Seq<usize>, n: int) -> Seq<char>
    decreases n,
{
    if n <= 0 {
        Seq::empty()
    } else {
        row_lines(blocks, ws, row, n - 1) + trim_end(row_line(blocks, ws, row, n - 1)) + seq!['\n']
    }
}

/// A row of faces, with the names below them when `names`.
pub open spec fn row_text(blocks: Seq<(Rendered, String)>, ws: Seq<int>, row: Seq<usize>, names: bool) -> Seq<char> {
    row_lines(blocks, ws, row, row_height(blocks, row)) + if names {
        trim_end(name_line(blocks, ws, row)) + seq!['\n']
    } else {
        Seq::empty()
    }
}

/// The first `n` rows, separated by empty lines.
pub open spec fn rows_text(blocks: Seq<(Rendered, String)>, ws: Seq<int>, rows: Seq<Seq<usize>>, names: bool, n: int) -> Seq<char>
    decreases n,
{
    if n <= 0 {
        Seq::empty()
    } else {
        rows_text(blocks, ws, rows, names, n - 1) + (if n > 1 { seq!['\n'] } else { Seq::empty() })
            + row_text(blocks, ws, rows[n - 1], names)
    }
}

/// The faces laid out in rows at most `max` columns wide.
pub open spec fn layout_text(blocks: Seq<(Rendered, String)>, names: bool, max: int) -> Seq<char> {
    let ws = column_widths(blocks, names);
    let rows = wrap(ws, max).0;
    rows_text(blocks, ws, rows, names, rows.len() as int)
}

fn push_spaces(out: &mut String, n: usize)
    ensures
        final(out)@ == old(out)@ + spaces(n as int),
{
    let mut i: usize = 0;
    while i < n
        invariant
            i <= n,
            out@ == old(out)@ + spaces(i as int),
        decreases n - i,
    {
        out.push(' ');
        i = i + 1;
        proof {
            assert(out@ =~= old(out)@ + spaces(i as int));
        }
    }
}

fn ws_char(c: char) -> (b: bool)
    ensures
        b == is_ws(c),
{
    let u = c as u32;
    (0x09 <= u && u <= 0x0d) || u == 0x20 || u == 0x85 || u == 0xa0 || u == 0x1680 || (0x2000 <= u && u <= 0x200a)
        || u == 0x2028 || u == 0x2029 || u == 0x202f || u == 0x205f || u == 0x3000
}

/// Appends `s` without its trailing whitespace.
fn push_trimmed(out: &mut String, s: &str)
    ensures
        final(out)@ == old(out)@ + trim_end(s@),
{
    let mut k: usize = s.unicode_len();
    proof {
        assert(s@.subrange(0, k as int) =~= s@);
    }
    while k > 0 && ws_char(s.get_char(k - 1))
        invariant
            k <= s@.len(),
            trim_end(s@) == trim_end(s@.subrange(0, k as int)),
        decreases k,
    {
        proof {
            assert(s@.subrange(0, k as int).drop_last() =~= s@.subrange(0, k - 1));
        }
        k = k - 1;
    }
    proof {
        assert(trim_end(s@.subrange(0, k as int)) == s@.subrange(0, k as int));
    }
    out.append(s.substring_char(0, k));
}

/// The width of a face's column.
fn column_width_of(b: &(Rendered, String), names: bool) -> (w: usize)
    requires
        byte_len(b.1@) <= usize::MAX,
    ensures
        w == column_width(*b, names),
{
    let n: usize = b.1.as_str().len();
    if names && n > b.0.width {
        n
    } else {
        b.0.width
    }
}

pub open spec fn rows_view(rows: Seq<Vec<usize>>) -> Seq<Seq<usize>> {
    rows.map_values(|r: Vec<usize>| r@)
}

/// Wraps columns of the given widths greedily into rows at most `max` wide.
fn wrap_columns(ws: &Vec<usize>, max: usize) -> (rows: Vec<Vec<usize>>)
    ensures
        rows_view(rows@) == wrap(ws@.map_values(|w: usize| w as int), max as int).0,
{
    let ghost wsi = ws@.map_values(|w: usize| w as int);
    let mut rows: Vec<Vec<usize>> = Vec::new();
    rows.push(Vec::new());
    let mut used: usize = 0;
    let mut i: usize = 0;
    proof {
        assert(wsi.subrange(0, 0) =~= Seq::<int>::empty());
        assert(rows_view(rows@) =~= seq![Seq::<usize>::empty()]);
    }
    while i < ws.len()
        invariant
            i <= ws@.len(),
            wsi == ws@.map_values(|w: usize| w as int),
            rows@.len() >= 1,
            (rows_view(rows@), used as int) == wrap(wsi.subrange(0, i as int), max as int),
        decreases ws@.len() - i,
    {
        let ghost prev = wsi.subrange(0, i as int);
        proof {
            assert(wsi.subrange(0, i + 1).drop_last() =~= prev);
        }
        let w = ws[i];
        let last = rows.len() - 1;
        let row_empty = rows[last].len() == 0;
        if !row_empty && (used as u128) + (GAP as u128) + (w as u128) > max as u128 {
            let mut r: Vec<usize> = Vec::new();
            r.push(i);
            rows.push(r);
            used = w;
            proof {
                assert(rows_view(rows@) =~= wrap(wsi.subrange(0, i + 1), max as int).0);
            }
        } else {
            let mut r = rows.remove(last);
            r.push(i);
            rows.push(r);
            if row_empty {
                used = w;
            } else {
                used = used + GAP + w;
            }
            proof {
                assert(rows_view(rows@) =~= wrap(wsi.subrange(0, i + 1), max as int).0);
            }
        }
        i = i + 1;
    }
    proof {
        assert(wsi.subrange(0, ws@.len() as int) =~= wsi);
    }
    rows
}

/// Every position in the rows of `wrap` is that of a column.
proof fn lemma_wrap_positions(ws: Seq<int>, max: int)
    ensures
        wrap(ws, max).0.len() >= 1,
        forall|r: int, k: int|
            0 <= r < wrap(ws, max).0.len() && 0 <= k < wrap(ws, max).0[r].len() ==> #[trigger] wrap(ws, max).0[r][k] < ws.len(),
    decreases ws.len(),
{
    if ws.len() > 0 {
        lemma_wrap_positions(ws.drop_last(), max);
        let (rows, used) = wrap(ws.drop_last(), max);
        let res = wrap(ws, max).0;
        assert forall|r: int, k: int| 0 <= r < res.len() && 0 <= k < res[r].len() implies #[trigger] res[r][k] < ws.len() by {
            if r < rows.len() - 1 {
                assert(res[r] == rows[r]);
            } else if r == rows.len() - 1 {
                if k < rows[r].len() {
                    assert(res[r][k] == rows[r][k]);
                }
            }
        }
    }
}

/// The faces' lines are all in bounds and columns are at least as wide as their faces.
pub open spec fn columns_fit(blocks: Seq<(Rendered, String)>, ws: Seq<int>) -> bool {
    &&& ws.len() == blocks.len()
    &&& forall|j: int| 0 <= j < blocks.len() ==> blocks[j].0.width <= #[trigger] ws[j] <= usize::MAX
}

fn cell_line_into(out: &mut String, b: &(Rendered, String), w: usize, y: usize)
    requires
        b.0.width <= w,
    ensures
        final(out)@ == old(out)@ + cell_line(*b, w as int, y as int),
{
    let width = b.0.width;
    let left: usize = (w - width) / 2;
    push_spaces(out, left);
    if y < b.0.lines.len() {
        out.append(b.0.lines[y].as_str());
    } else {
        push_spaces(out, width);
    }
    push_spaces(out, w - width - left);
    proof {
        assert(final(out)@ =~= old(out)@ + cell_line(*b, w as int, y as int));
    }
}

fn centred_into(out: &mut String, name: &String, w: usize)
    ensures
        final(out)@ == old(out)@ + centred(name@, w as int),
{
    let n = name.as_str().unicode_len();
    if n >= w {
        out.append(name.as_str());
        proof {
            assert(final(out)@ =~= old(out)@ + centred(name@, w as int));
        }
    } else {
        let pad: usize = w - n;
        push_spaces(out, pad / 2);
        out.append(name.as_str());
        push_spaces(out, pad - pad / 2);
        proof {
            assert(final(out)@ =~= old(out)@ + centred(name@, w as int));
        }
    }
}

/// Line `y` of a row of faces.
fn row_line_of(blocks: &Vec<(Rendered, String)>, ws: &Vec<usize>, row: &Vec<usize>, y: usize) -> (s: String)
    requires
        columns_fit(blocks@, ws@.map_values(|w: usize| w as int)),
        forall|k: int| 0 <= k < row@.len() ==> #[trigger] row@[k] < blocks@.len(),
    ensures
        s@ == row_line(blocks@, ws@.map_values(|w: usize| w as int), row@, y as int),
{
    let ghost wsi = ws@.map_values(|w: usize| w as int);
    let mut s = String::new();
    let mut k: usize = 0;
    proof {
        assert(row@.subrange(0, 0) =~= Seq::<usize>::empty());
    }
    while k < row.len()
        invariant
            k <= row@.len(),
            wsi == ws@.map_values(|w: usize| w as int),
            columns_fit(blocks@, wsi),
            forall|k: int| 0 <= k < row@.len() ==> #[trigger] row@[k] < blocks@.len(),
            s@ == row_line(blocks@, wsi, row@.subrange(0, k as int), y as int),
        decreases row@.len() - k,
    {
        proof {
            assert(row@.subrange(0, k + 1).drop_last() =~= row@.subrange(0, k as int));
        }
        if k > 0 {
            push_spaces(&mut s, GAP);
        }
        let j = row[k];
        assert(blocks@[j as int].0.width <= wsi[j as int]);
        cell_line_into(&mut s, &blocks[j], ws[j], y);
        k = k + 1;
        proof {
            assert(s@ =~= row_line(blocks@, wsi, row@.subrange(0, k as int), y as int));
        }
    }
    proof {
        assert(row@.subrange(0, row@.len() as int) =~= row@);
    }
    s
}

/// The names of a row of faces.
fn name_line_of(blocks: &Vec<(Rendered, String)>, ws: &Vec<usize>, row: &Vec<usize>) -> (s: String)
    requires
        columns_fit(blocks@, ws@.map_values(|w: usize| w as int)),
        forall|k: int| 0 <= k < row@.len() ==> #[trigger] row@[k] < blocks@.len(),
    ensures
        s@ == name_line(blocks@, ws@.map_values(|w: usize| w as int), row@),
{
    let ghost wsi = ws@.map_values(|w: usize| w as int);
    let mut s = String::new();
    let mut k: usize = 0;
    proof {
        assert(row@.subrange(0, 0) =~= Seq::<usize>::empty());
    }
    while k < row.len()
        invariant
            k <= row@.len(),
            wsi == ws@.map_values(|w: usize| w as int),
            columns_fit(blocks@, wsi),
            forall|k: int| 0 <= k < row@.len() ==> #[trigger] row@[k] < blocks@.len(),
            s@ == name_line(blocks@, wsi, row@.subrange(0, k as int)),
        decreases row@.len() - k,
    {
        proof {
            assert(row@.subrange(0, k + 1).drop_last() =~= row@.subrange(0, k as int));
        }
        if k > 0 {
            push_spaces(&mut s, GAP);
        }
        let j = row[k];
        centred_into(&mut s, &blocks[j].1, ws[j]);
        k = k + 1;
        proof {
            assert(s@ =~= name_line(blocks@, wsi, row@.subrange(0, k as int)));
        }
    }
    proof {
        assert(row@.subrange(0, row@.len() as int) =~= row@);
    }
    s
}

/// The number of lines of the tallest face in a row.
fn row_height_of(blocks: &Vec<(Rendered, String)>, row: &Vec<usize>) -> (h: usize)
    requires
        forall|k: int| 0 <= k < row@.len() ==> #[trigger] row@[k] < blocks@.len(),
    ensures
        h == row_height(blocks@, row@),
{
    let mut h: usize = 0;
    let mut k: usize = 0;
    proof {
        assert(row@.subrange(0, 0) =~= Seq::<usize>::empty());
    }
    while k < row.len()
        invariant
            k <= row@.len(),
            forall|k: int| 0 <= k < row@.len() ==> #[trigger] row@[k] < blocks@.len(),
            h == row_height(blocks@, row@.subrange(0, k as int)),
        decreases row@.len() - k,
    {
        proof {
            assert(row@.subrange(0, k + 1).drop_last() =~= row@.subrange(0, k as int));
        }
        let l = blocks[row[k]].0.lines.len();
        if l > h {
            h = l;
        }
        k = k + 1;
    }
    proof {
        assert(row@.subrange(0, row@.len() as int) =~= row@);
    }
    h
}

/// Appends a row of faces, with their names when `names`.
fn row_text_into(out: &mut String, blocks: &Vec<(Rendered, String)>, ws: &Vec<usize>, row: &Vec<usize>, names: bool)
    requires
        columns_fit(blocks@, ws@.map_values(|w: usize| w as int)),
        forall|k: int| 0 <= k < row@.len() ==> #[trigger] row@[k] < blocks@.len(),
    ensures
        final(out)@ == old(out)@ + row_text(blocks@, ws@.map_values(|w: usize| w as int), row@, names),
{
    let ghost wsi = ws@.map_values(|w: usize| w as int);
    let height = row_height_of(blocks, row);
    let ghost start = out@;
    let mut y: usize = 0;
    while y < height
        invariant
            y <= height,
            height == row_height(blocks@, row@),
            wsi == ws@.map_values(|w: usize| w as int),
            columns_fit(blocks@, wsi),
            forall|k: int| 0 <= k < row@.len() ==> #[trigger] row@[k] < blocks@.len(),
            out@ == start + row_lines(blocks@, wsi, row@, y as int),
        decreases height - y,
    {
        let line = row_line_of(blocks, ws, row, y);
        push_trimmed(out, line.as_str());
        out.push('\n');
        y = y + 1;
        proof {
            assert(out@ =~= start + row_lines(blocks@, wsi, row@, y as int));
        }
    }
    if names {
        let line = name_line_of(blocks, ws, row);
        push_trimmed(out, line.as_str());
        out.push('\n');
    }
    proof {
        assert(start == old(out)@);
        assert(out@ =~= old(out)@ + row_text(blocks@, wsi, row@, names));
    }
}

/// Lays faces out side by side (`GAP` columns apart, each centred in its column, names
/// centred below when `names`), wrapping into rows at most `max` columns wide; rows are
/// separated by an empty line and trailing whitespace is dropped from every line.
pub fn layout(blocks: &Vec<(Rendered, String)>, names: bool, max: usize) -> (s: String)
    requires
        forall|j: int| 0 <= j < blocks@.len() ==> byte_len((#[trigger] blocks@[j]).1@) <= usize::MAX,
    ensures
        s@ == layout_text(blocks@, names, max as int),
{
    let mut ws: Vec<usize> = Vec::new();
    let mut i: usize = 0;
    while i < blocks.len()
        invariant
            i <= blocks@.len(),
            forall|j: int| 0 <= j < blocks@.len() ==> byte_len((#[trigger] blocks@[j]).1@) <= usize::MAX,
            ws@.len() == i,
            forall|j: int| 0 <= j < i ==> #[trigger] ws@[j] == column_width(blocks@[j], names),
        decreases blocks@.len() - i,
    {
        ws.push(column_width_of(&blocks[i], names));
        i = i + 1;
    }
    let ghost wsi = ws@.map_values(|w: usize| w as int);
    proof {
        assert(wsi =~= column_widths(blocks@, names));
        assert forall|j: int| 0 <= j < blocks@.len() implies blocks@[j].0.width <= #[trigger] wsi[j] <= usize::MAX by {
            assert(wsi[j] == ws@[j] as int);
        }
    }
    let rows = wrap_columns(&ws, max);
    proof {
        lemma_wrap_positions(wsi, max as int);
    }
    let mut out = String::new();
    let mut r: usize = 0;
    while r < rows.len()
        invariant
            r <= rows@.len(),
            wsi == ws@.map_values(|w: usize| w as int),
            wsi == column_widths(blocks@, names),
            columns_fit(blocks@, wsi),
            rows_view(rows@) == wrap(wsi, max as int).0,
            forall|a: int, k: int|
                0 <= a < wrap(wsi, max as int).0.len() && 0 <= k < wrap(wsi, max as int).0[a].len()
                    ==> #[trigger] wrap(wsi, max as int).0[a][k] < wsi.len(),
            out@ == rows_text(blocks@, wsi, rows_view(rows@), names, r as int),
        decreases rows@.len() - r,
    {
        if r > 0 {
            out.push('\n');
        }
        let row = &rows[r];
        proof {
            assert(rows_view(rows@)[r as int] == row@);
            assert forall|k: int| 0 <= k < row@.len() implies #[trigger] row@[k] < blocks@.len() by {
                assert(wrap(wsi, max as int).0[r as int][k] < wsi.len());
            }
        }
        row_text_into(&mut out, blocks, &ws, row, names);
        r = r + 1;
        proof {
            assert(out@ =~= rows_text(blocks@, wsi, rows_view(rows@), names, r as int));
        }
    }
    out
}

/// The width a row of columns takes: its columns plus a gap between each two.
pub open spec fn row_width(ws: Seq<int>, row: Seq<usize>) -> int
    decreases row.len(),
{
    if row.len() == 0 {
        0
    } else if row.len() == 1 {
        ws[row[0] as int]
    } else {
        row_width(ws, row.drop_last()) + GAP + ws[row.last() as int]
    }
}

/// The column positions of rows, in order.
pub open spec fn flatten_rows(rows: Seq<Seq<usize>>) -> Seq<usize>
    decreases rows.len(),
{
    if rows.len() == 0 {
        Seq::empty()
    } else {
        flatten_rows(rows.drop_last()) + rows.last()
    }
}

proof fn lemma_flatten_update_last(rows: Seq<Seq<usize>>, x: usize)
    requires
        rows.len() >= 1,
    ensures
        flatten_rows(rows.update(rows.len() - 1, rows.last().push(x))) == flatten_rows(rows).push(x),
{
    let r2 = rows.update(rows.len() - 1, rows.last().push(x));
    assert(r2.drop_last() =~= rows.drop_last());
    assert(flatten_rows(r2) =~= flatten_rows(rows).push(x));
}

proof fn lemma_row_width_push(ws: Seq<int>, row: Seq<usize>, x: usize)
    requires
        row.len() >= 1,
    ensures
        row_width(ws, row.push(x)) == row_width(ws, row) + GAP + ws[x as int],
{
    assert(row.push(x).drop_last() =~= row);
}

/// The greedy wrap keeps every face, in order, in non-empty rows; a row is wider than
/// the terminal only when it holds a single face that is wider on its own.
pub proof fn law_wrap_fits(ws: Seq<int>, max: int)
    requires
        ws.len() <= usize::MAX,
        forall|i: int| 0 <= i < ws.len() ==> #[trigger] ws[i] >= 0,
    ensures
        flatten_rows(wrap(ws, max).0) == Seq::new(ws.len(), |i: int| i as usize),
        ws.len() > 0 ==> forall|r: int| 0 <= r < wrap(ws, max).0.len() ==> (#[trigger] wrap(ws, max).0[r]).len() > 0,
        forall|r: int|
            0 <= r < wrap(ws, max).0.len() ==> (#[trigger] wrap(ws, max).0[r]).len() <= 1 || row_width(ws, wrap(ws, max).0[r]) <= max,
        wrap(ws, max).1 == row_width(ws, wrap(ws, max).0.last()),
    decreases ws.len(),
{
    let res = wrap(ws, max);
    if ws.len() == 0 {
        assert(res.0 =~= seq![Seq::<usize>::empty()]);
        assert(res.0.drop_last() =~= Seq::<Seq<usize>>::empty());
        assert(flatten_rows(res.0) == flatten_rows(res.0.drop_last()) + res.0.last());
        assert(flatten_rows(res.0) =~= Seq::new(0, |i: int| i as usize));
        assert(res.0.last() == Seq::<usize>::empty());
    } else {
        let prev = ws.drop_last();
        law_wrap_fits(prev, max);
        lemma_wrap_positions(prev, max);
        let (rows, used) = wrap(prev, max);
        let i = ws.len() - 1;
        let w = ws.last();
        let row = rows.last();
        assert forall|r: int| 0 <= r < rows.len() implies row_width(ws, #[trigger] rows[r]) == row_width(prev, rows[r]) by {
            assert forall|k: int| 0 <= k < rows[r].len() implies (#[trigger] rows[r][k]) < prev.len() by {
            }
            lemma_row_width_same(prev, ws, rows[r]);
        }
        assert(used == row_width(ws, row));
        if row.len() > 0 && used + GAP + w > max {
            assert(res.0 == rows.push(seq![i as usize]));
            assert(res.0.drop_last() =~= rows);
            assert(flatten_rows(res.0) =~= Seq::new(ws.len(), |i: int| i as usize));
            assert forall|r: int| 0 <= r < res.0.len() implies (#[trigger] res.0[r]).len() <= 1 || row_width(ws, res.0[r]) <= max by {
                if r < rows.len() {
                    assert(res.0[r] == rows[r]);
                }
            }
            assert(row_width(ws, seq![i as usize]) == w);
        } else {
            assert(res.0 == rows.update(rows.len() - 1, row.push(i as usize)));
            lemma_flatten_update_last(rows, i as usize);
            assert(flatten_rows(res.0) =~= Seq::new(ws.len(), |i: int| i as usize));
            if row.len() > 0 {
                lemma_row_width_push(ws, row, i as usize);
            } else {
                assert(row.push(i as usize) =~= seq![i as usize]);
            }
            assert forall|r: int| 0 <= r < res.0.len() implies (#[trigger] res.0[r]).len() <= 1 || row_width(ws, res.0[r]) <= max by {
                if r < rows.len() - 1 {
                    assert(res.0[r] == rows[r]);
                }
            }
            if prev.len() > 0 {
                assert(row.len() > 0);
            }
            assert(res.0.last() == row.push(i as usize));
        }
    }
}

proof fn lemma_row_width_same(prev: Seq<int>, ws: Seq<int>, row: Seq<usize>)
    requires
        prev.len() <= ws.len(),
        forall|i: int| 0 <= i < prev.len() ==> prev[i] == ws[i],
        forall|k: int| 0 <= k < row.len() ==> (#[trigger] row[k]) < prev.len(),
    ensures
        row_width(ws, row) == row_width(prev, row),
    decreases row.len(),
{
    if row.len() > 1 {
        lemma_row_width_same(prev, ws, row.drop_last());
    }
}

} // verus!
