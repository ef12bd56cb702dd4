//! Where everything stands in rendered results: each header and each cell, as it is, in
//! its place.

use vstd::prelude::*;

use crate::output::{
    bars, border, cell_at, cell_size, column_cells, column_line, column_lines, column_text,
    csv_chars, csv_fields, csv_line, csv_lines, csv_quoted, csv_text, dashes, grid, json_char,
    json_chars, json_fields, json_lines, json_object, json_quoted, json_text, labelled, largest_cell,
    largest_name, line_blocks, line_text, list_lines, list_text, mode_called, rendered, table_cells,
    table_line, table_lines, table_text, table_width, width_at, widths, Measure, OutputMode,
};
use crate::text::{
    byte_len, concat, join, law_concatenating_in_parts, law_padding_adds_only_spaces,
    lemma_byte_len_bounds, padded,
};

verus! {

/// The larger of two numbers.
pub open spec fn most(a: int, b: int) -> int {
    if a < b {
        b
    } else {
        a
    }
}

/// A part stands in the whole where the parts before it end.
proof fn lemma_part_stands(parts: Seq<Seq<char>>, i: int)
    requires
        0 <= i < parts.len(),
    ensures
        ({
            let off = concat(parts.take(i)).len() as int;
            &&& concat(parts.take(i + 1)).len() == off + parts[i].len()
            &&& off + parts[i].len() <= concat(parts).len()
            &&& concat(parts).subrange(off, off + parts[i].len()) == parts[i]
        }),
{
    let a = parts.take(i);
    let b = seq![parts[i]];
    let c = parts.skip(i + 1);
    assert(parts =~= a + b + c);
    assert(parts.take(i + 1) =~= a + b);
    law_concatenating_in_parts(a + b, c);
    law_concatenating_in_parts(a, b);
    law_concatenating_in_parts(b, c);
    let off = concat(a).len() as int;
    assert(concat(parts).subrange(off, off + parts[i].len()) =~= parts[i]);
}

/// The characters that cell `i` of a line of a table takes, padding included: as many as
/// its column is wide, and no less than it has. Without a column it is as wide as it has
/// bytes.
pub open spec fn cell_room(cells: Seq<Seq<char>>, w: Seq<nat>, i: int) -> int {
    most(
        cells[i].len() as int,
        if i < w.len() {
            w[i] as int
        } else {
            byte_len(cells[i]) as int
        },
    )
}

/// Where cell `i` of a line of a table begins: behind a bar and a space, and behind the
/// cells before it, each with a space, a bar and a space.
pub open spec fn cell_start(cells: Seq<Seq<char>>, w: Seq<nat>, i: int) -> int
    decreases i,
{
    if i <= 0 {
        2
    } else {
        cell_start(cells, w, i - 1) + cell_room(cells, w, i - 1) + 3
    }
}

proof fn lemma_cell_start(cells: Seq<Seq<char>>, w: Seq<nat>, i: int)
    requires
        0 <= i <= cells.len(),
    ensures
        concat(table_cells(cells, w).take(i)).len() == cell_start(cells, w, i) - 2,
    decreases i,
{
    let parts = table_cells(cells, w);
    if i == 0 {
        assert(parts.take(0) =~= seq![]);
    } else {
        lemma_cell_start(cells, w, i - 1);
        lemma_part_stands(parts, i - 1);
        law_padding_adds_only_spaces(cells[i - 1], table_width(cells, w, i - 1) as int);
    }
}

/// Every cell stands in its line of a table as it is, behind a bar and a space. Behind it
/// there is nothing but the spaces that it lacks, one more, and a bar.
pub proof fn law_cells_stand_in_a_line_of_a_table(cells: Seq<Seq<char>>, w: Seq<nat>, i: int)
    requires
        0 <= i < cells.len(),
    ensures
        ({
            let line = table_line(cells, w);
            let s = cell_start(cells, w, i);
            let e = s + cell_room(cells, w, i);
            &&& 2 <= s
            &&& e + 1 < line.len() - 1
            &&& line.subrange(s, s + cells[i].len()) == cells[i]
            &&& forall|p: int| s + cells[i].len() <= p <= e ==> #[trigger] line[p] == ' '
            &&& line[s - 1] == ' '
            &&& line[e + 1] == '│'
            &&& line[0] == '│'
            &&& line.last() == '\n'
            &&& line.len() == cell_start(cells, w, cells.len() as int)
        }),
{
    let parts = table_cells(cells, w);
    let n = cells.len() as int;
    let line = table_line(cells, w);
    let all = concat(parts);
    let s = cell_start(cells, w, i);
    let width = table_width(cells, w, i) as int;
    let room = cell_room(cells, w, i);
    lemma_cell_start(cells, w, i);
    lemma_cell_start(cells, w, n);
    assert(parts.take(n) =~= parts);
    lemma_part_stands(parts, i);
    law_padding_adds_only_spaces(cells[i], width);
    let off = s - 2;
    let part = parts[i];
    let pad = padded(cells[i], width);
    assert(pad.len() == room);
    assert(part =~= seq![' '] + pad + seq![' ', '│']);
    assert forall|q: int| 0 <= q < part.len() implies line[1 + off + q] == #[trigger] part[q] by {
        assert(all.subrange(off, off + part.len())[q] == all[off + q]);
        assert(line[1 + off + q] == all[off + q]);
    }
    assert forall|q: int| 0 <= q < room implies #[trigger] line[s + q] == pad[q] by {
        assert(part[1 + q] == pad[q]);
    }
    assert(line.subrange(s, s + cells[i].len()) =~= cells[i]) by {
        assert forall|q: int| 0 <= q < cells[i].len() implies line[s + q] == cells[i][q] by {
            assert(pad.take(cells[i].len() as int)[q] == pad[q]);
            assert(line[s + q] == pad[q]);
        }
    }
    assert forall|p: int| s + cells[i].len() <= p <= s + room implies #[trigger] line[p] == ' ' by {
        if p < s + room {
            assert(line[s + (p - s)] == pad[p - s]);
        } else {
            assert(part[1 + room] == ' ');
        }
    }
    assert(part[0] == ' ');
    assert(part[2 + room] == '│');
}

/// Where column `i` of a table begins, for columns of the given widths.
pub open spec fn column_start(w: Seq<nat>, i: int) -> int
    decreases i,
{
    if i <= 0 {
        2
    } else {
        column_start(w, i - 1) + w[i - 1] + 3
    }
}

proof fn lemma_column_start(cells: Seq<Seq<char>>, w: Seq<nat>, i: int)
    requires
        0 <= i <= cells.len(),
        cells.len() == w.len(),
        forall|j: int| 0 <= j < w.len() ==> byte_len(#[trigger] cells[j]) <= w[j],
    ensures
        cell_start(cells, w, i) == column_start(w, i),
        i < cells.len() ==> cell_room(cells, w, i) == w[i],
    decreases i,
{
    if i > 0 {
        lemma_column_start(cells, w, i - 1);
    }
    if i < cells.len() {
        lemma_byte_len_bounds(cells[i]);
        assert(byte_len(cells[i]) <= w[i]);
    }
}

proof fn lemma_bars_step(w: Seq<nat>, n: int, mid: char)
    requires
        1 < n <= w.len(),
    ensures
        join(bars(w).take(n), seq![mid]) == join(bars(w).take(n - 1), seq![mid]) + seq![mid] + bars(
            w,
        )[n - 1],
{
    assert(bars(w).take(n).drop_last() =~= bars(w).take(n - 1));
}

proof fn lemma_bars_len(w: Seq<nat>, n: int, mid: char)
    requires
        1 <= n <= w.len(),
    ensures
        join(bars(w).take(n), seq![mid]).len() == column_start(w, n) - 3,
    decreases n,
{
    if n == 1 {
        assert(join(bars(w).take(1), seq![mid]) == bars(w)[0]);
        reveal_with_fuel(column_start, 2);
    } else {
        lemma_bars_len(w, n - 1, mid);
        lemma_bars_step(w, n, mid);
    }
}

proof fn lemma_bar_at(w: Seq<nat>, n: int, mid: char, i: int, p: int)
    requires
        0 <= i < n <= w.len(),
        column_start(w, i) - 2 <= p < column_start(w, i) + w[i],
    ensures
        p < join(bars(w).take(n), seq![mid]).len(),
        join(bars(w).take(n), seq![mid])[p] == '─',
    decreases n,
{
    lemma_bars_len(w, n, mid);
    lemma_starts_grow(w, n);
    lemma_starts_grow(w, i);
    assert(column_start(w, i) + w[i] + 3 <= column_start(w, n));
    if n == 1 {
        assert(join(bars(w).take(1), seq![mid]) == bars(w)[0]);
    } else {
        lemma_bars_step(w, n, mid);
        lemma_bars_len(w, n - 1, mid);
        if i < n - 1 {
            lemma_bar_at(w, n - 1, mid, i, p);
        }
    }
}

proof fn lemma_joint_at(w: Seq<nat>, n: int, mid: char, i: int)
    requires
        0 <= i < n - 1,
        n <= w.len(),
    ensures
        column_start(w, i) + w[i] < join(bars(w).take(n), seq![mid]).len(),
        join(bars(w).take(n), seq![mid])[column_start(w, i) + w[i]] == mid,
    decreases n,
{
    lemma_bars_len(w, n, mid);
    lemma_bars_len(w, n - 1, mid);
    lemma_bars_step(w, n, mid);
    lemma_starts_grow(w, n);
    lemma_starts_grow(w, i);
    assert(column_start(w, i) + w[i] + 3 <= column_start(w, n));
    if i < n - 2 {
        lemma_joint_at(w, n - 1, mid, i);
    }
}

proof fn lemma_starts_grow(w: Seq<nat>, n: int)
    requires
        0 <= n <= w.len(),
    ensures
        forall|i: int| 0 <= i < n ==> #[trigger] column_start(w, i) + w[i] + 3 <= column_start(w, n),
        column_start(w, n) >= 2,
    decreases n,
{
    if n > 0 {
        lemma_starts_grow(w, n - 1);
        assert forall|i: int| 0 <= i < n implies #[trigger] column_start(w, i) + w[i] + 3
            <= column_start(w, n) by {}
    }
}

/// A border is as long as the lines of its table and lines up with their bars: above and
/// below the room of each column it is drawn through, and there is a corner or a joint
/// where the lines have a bar.
pub proof fn law_borders_line_up(w: Seq<nat>, left: char, mid: char, right: char, i: int, p: int)
    requires
        0 <= i < w.len(),
        column_start(w, i) - 1 <= p <= column_start(w, i) + w[i],
    ensures
        ({
            let line = border(w, left, mid, right);
            &&& line.len() == column_start(w, w.len() as int)
            &&& line[0] == left
            &&& line[p] == '─'
            &&& line[column_start(w, i) + w[i] + 1] == if i + 1 < w.len() {
                mid
            } else {
                right
            }
            &&& line.last() == '\n'
        }),
{
    let n = w.len() as int;
    assert(bars(w).take(n) =~= bars(w));
    let all = join(bars(w), seq![mid]);
    let line = border(w, left, mid, right);
    lemma_bars_len(w, n, mid);
    lemma_bar_at(w, n, mid, i, p - 1);
    lemma_starts_grow(w, n);
    lemma_starts_grow(w, i);
    assert(line[p] == all[p - 1]);
    if i + 1 < n {
        lemma_joint_at(w, n, mid, i);
        assert(line[column_start(w, i) + w[i] + 1] == all[column_start(w, i) + w[i]]);
    } else {
        assert(column_start(w, n) == column_start(w, n - 1) + w[n - 1] + 3);
    }
}

/// A table is its lines: a border, the headers, a border, one line for each row in its
/// order, and a border. Without headers there is none.
pub proof fn law_tables_are_made_of_lines(headers: Seq<Seq<char>>, rows: Seq<Seq<Seq<char>>>)
    ensures
        headers.len() == 0 ==> table_text(headers, rows) == Seq::<char>::empty(),
        headers.len() > 0 ==> ({
            let w = widths(Measure::Bytes, headers, rows, true);
            let lines = Seq::new(rows.len(), |k: int| table_line(rows[k], w));
            table_text(headers, rows) == concat(
                seq![
                    border(w, '┌', '┬', '┐'),
                    table_line(headers, w),
                    border(w, '├', '┼', '┤'),
                ] + lines + seq![border(w, '└', '┴', '┘')],
            )
        }),
{
    let w = widths(Measure::Bytes, headers, rows, true);
    let lines = Seq::new(rows.len(), |k: int| table_line(rows[k], w));
    assert(lines =~= table_lines(rows, w));
    let a = border(w, '┌', '┬', '┐');
    let b = table_line(headers, w);
    let c = border(w, '├', '┼', '┤');
    let e = border(w, '└', '┴', '┘');
    law_concatenating_in_parts(seq![a, b, c] + lines, seq![e]);
    law_concatenating_in_parts(seq![e], seq![]);
    law_concatenating_in_parts(seq![a, b, c], lines);
    assert(seq![a, b, c] =~= seq![a] + seq![b] + seq![c]);
    law_concatenating_in_parts(seq![a] + seq![b], seq![c]);
    law_concatenating_in_parts(seq![a], seq![b]);
    law_concatenating_in_parts(seq![b], seq![]);
    law_concatenating_in_parts(seq![c], seq![]);
}

proof fn lemma_equal_lines(lines: Seq<Seq<char>>, len: int, k: int)
    requires
        0 <= k <= lines.len(),
        forall|j: int| 0 <= j < lines.len() ==> (#[trigger] lines[j]).len() == len,
    ensures
        concat(lines.take(k)).len() == k * len,
        k < lines.len() ==> (k + 1) * len <= concat(lines).len() && concat(lines).subrange(
            k * len,
            (k + 1) * len,
        ) == lines[k],
    decreases k,
{
    assert((k + 1) * len == k * len + len) by (nonlinear_arith);
    if k == 0 {
        assert(lines.take(0) =~= seq![]);
        assert(0 * len == 0);
    } else {
        lemma_equal_lines(lines, len, k - 1);
        lemma_part_stands(lines, k - 1);
        assert((k - 1) * len + len == k * len) by (nonlinear_arith);
    }
    if k < lines.len() {
        lemma_part_stands(lines, k);
    }
}

/// Every header and every cell stands in a table as it is. The lines of the table are
/// equally long; the headers stand in the second and the rows from the fourth on, each
/// cell where its column begins and with nothing but spaces up to the column's end.
pub proof fn law_every_cell_stands_in_the_table(
    headers: Seq<Seq<char>>,
    rows: Seq<Seq<Seq<char>>>,
    k: int,
    i: int,
)
    requires
        0 <= i < headers.len(),
        0 <= k < rows.len(),
        forall|j: int| 0 <= j < rows.len() ==> (#[trigger] rows[j]).len() == headers.len(),
    ensures
        ({
            let w = widths(Measure::Bytes, headers, rows, true);
            let text = table_text(headers, rows);
            let len = column_start(w, headers.len() as int);
            let top = text.subrange(len, 2 * len);
            let line = text.subrange((k + 3) * len, (k + 4) * len);
            let s = column_start(w, i);
            &&& text.len() == (rows.len() + 4) * len
            &&& s + w[i] < len
            &&& headers[i].len() <= w[i] && rows[k][i].len() <= w[i]
            &&& top.subrange(s, s + headers[i].len()) == headers[i]
            &&& forall|p: int| s + headers[i].len() <= p <= s + w[i] ==> #[trigger] top[p] == ' '
            &&& line.subrange(s, s + rows[k][i].len()) == rows[k][i]
            &&& forall|p: int| s + rows[k][i].len() <= p <= s + w[i] ==> #[trigger] line[p] == ' '
            &&& line[s + w[i] + 1] == '│' && top[s + w[i] + 1] == '│'
            &&& line[0] == '│' && top[0] == '│'
            &&& text[0] == '┌'
        }),
{
    let w = widths(Measure::Bytes, headers, rows, true);
    let n = headers.len() as int;
    let text = table_text(headers, rows);
    let len = column_start(w, n);
    let body = Seq::new(rows.len(), |j: int| table_line(rows[j], w));
    let front = seq![
        border(w, '┌', '┬', '┐'),
        table_line(headers, w),
        border(w, '├', '┼', '┤'),
    ];
    let lines = front + body + seq![border(w, '└', '┴', '┘')];
    law_tables_are_made_of_lines(headers, rows);
    assert(text == concat(lines));
    lemma_starts_grow(w, n);
    assert(column_start(w, i) + w[i] + 3 <= len);
    law_borders_line_up(w, '┌', '┬', '┐', 0, 1);
    law_borders_line_up(w, '├', '┼', '┤', 0, 1);
    law_borders_line_up(w, '└', '┴', '┘', 0, 1);
    lemma_row_fits(headers, rows, headers, w, -1);
    lemma_column_start(headers, w, n);
    lemma_column_start(headers, w, i);
    law_cells_stand_in_a_line_of_a_table(headers, w, i);
    assert forall|j: int| 0 <= j < lines.len() implies (#[trigger] lines[j]).len() == len by {
        if 3 <= j < 3 + rows.len() {
            let row = rows[j - 3];
            assert(lines[j] == table_line(row, w));
            lemma_row_fits(headers, rows, row, w, j - 3);
            lemma_column_start(row, w, n);
            law_cells_stand_in_a_line_of_a_table(row, w, 0);
        } else if j == 1 {
            assert(lines[j] == table_line(headers, w));
        }
    }
    lemma_equal_lines(lines, len, lines.len() as int);
    assert(lines.take(lines.len() as int) =~= lines);
    lemma_equal_lines(lines, len, 0);
    lemma_equal_lines(lines, len, 1);
    lemma_equal_lines(lines, len, k + 3);
    assert(lines[k + 3] == table_line(rows[k], w));
    assert(lines[1] == table_line(headers, w));
    lemma_row_fits(headers, rows, rows[k], w, k);
    lemma_column_start(rows[k], w, n);
    lemma_column_start(rows[k], w, i);
    law_cells_stand_in_a_line_of_a_table(rows[k], w, i);
    lemma_byte_len_bounds(headers[i]);
    lemma_byte_len_bounds(rows[k][i]);
    assert(byte_len(headers[i]) <= w[i]);
    assert(byte_len(rows[k][i]) <= w[i]);
    assert(0 * len == 0 && 1 * len == len);
    assert((k + 3 + 1) * len == (k + 4) * len);
    assert(text.subrange(0, len)[0] == text[0]);
}

proof fn lemma_row_fits(
    headers: Seq<Seq<char>>,
    rows: Seq<Seq<Seq<char>>>,
    cells: Seq<Seq<char>>,
    w: Seq<nat>,
    k: int,
)
    requires
        w == widths(Measure::Bytes, headers, rows, true),
        cells == headers || (0 <= k < rows.len() && cells == rows[k]),
        cells.len() == headers.len(),
    ensures
        forall|j: int| 0 <= j < w.len() ==> byte_len(#[trigger] cells[j]) <= w[j],
{
    assert forall|j: int| 0 <= j < w.len() implies byte_len(#[trigger] cells[j]) <= w[j] by {
        if cells != headers {
            lemma_fits(Measure::Bytes, rows, j, k);
        }
    }
}

proof fn lemma_fits(m: Measure, rows: Seq<Seq<Seq<char>>>, i: int, k: int)
    requires
        0 <= k < rows.len(),
    ensures
        cell_size(m, rows[k], i) <= largest_cell(m, rows, i),
    decreases rows.len(),
{
    if k < rows.len() - 1 {
        lemma_fits(m, rows.drop_last(), i, k);
    }
}

/// The columns of a table are as wide as their longest text in bytes, headers included:
/// none is longer, and one is as long.
pub proof fn law_table_columns_are_as_wide_as_needed(
    headers: Seq<Seq<char>>,
    rows: Seq<Seq<Seq<char>>>,
    i: int,
)
    requires
        0 <= i < headers.len(),
    ensures
        ({
            let w = widths(Measure::Bytes, headers, rows, true);
            &&& w.len() == headers.len()
            &&& byte_len(headers[i]) <= w[i]
            &&& forall|k: int|
                0 <= k < rows.len() && i < rows[k].len() ==> byte_len(#[trigger] rows[k][i]) <= w[i]
            &&& byte_len(headers[i]) == w[i] || exists|k: int|
                0 <= k < rows.len() && i < rows[k].len() && byte_len(#[trigger] rows[k][i]) == w[i]
        }),
{
    let w = widths(Measure::Bytes, headers, rows, true);
    assert forall|k: int| 0 <= k < rows.len() && i < rows[k].len() implies byte_len(
        #[trigger] rows[k][i],
    ) <= w[i] by {
        lemma_fits(Measure::Bytes, rows, i, k);
    }
    if byte_len(headers[i]) != w[i] {
        let k = lemma_attained(rows, i);
        assert(byte_len(rows[k][i]) == w[i]);
    }
}

proof fn lemma_attained(rows: Seq<Seq<Seq<char>>>, i: int) -> (k: int)
    requires
        0 <= i,
        largest_cell(Measure::Bytes, rows, i) > 0,
    ensures
        0 <= k < rows.len(),
        i < rows[k].len(),
        byte_len(rows[k][i]) == largest_cell(Measure::Bytes, rows, i),
    decreases rows.len(),
{
    let last = cell_size(Measure::Bytes, rows.last(), i);
    if largest_cell(Measure::Bytes, rows.drop_last(), i) < last || rows.len() == 1 {
        rows.len() - 1
    } else {
        lemma_attained(rows.drop_last(), i)
    }
}

/// The characters that cell `i` of a line in columns takes: those of its column and two
/// more, and in the last column only its own.
pub open spec fn column_room(cells: Seq<Seq<char>>, w: Seq<nat>, i: int) -> int {
    if i + 1 == w.len() {
        cells[i].len() as int
    } else if i < w.len() {
        most(cells[i].len() as int, w[i] as int) + 2
    } else {
        cells[i].len() as int + 2
    }
}

/// Where cell `i` of a line in columns begins.
pub open spec fn column_cell_start(cells: Seq<Seq<char>>, w: Seq<nat>, i: int) -> int
    decreases i,
{
    if i <= 0 {
        0
    } else {
        column_cell_start(cells, w, i - 1) + column_room(cells, w, i - 1)
    }
}

proof fn lemma_column_cell(cells: Seq<Seq<char>>, w: Seq<nat>, i: int)
    requires
        0 <= i < cells.len(),
    ensures
        ({
            let part = column_cells(cells, w)[i];
            &&& part.len() == column_room(cells, w, i)
            &&& part.take(cells[i].len() as int) == cells[i]
            &&& forall|q: int| cells[i].len() <= q < part.len() ==> #[trigger] part[q] == ' '
        }),
{
    reveal_strlit("  ");
    law_padding_adds_only_spaces(cells[i], width_at(w, i) as int);
    let part = column_cells(cells, w)[i];
    let pad = padded(cells[i], width_at(w, i) as int);
    if i + 1 == w.len() {
        assert(part.take(cells[i].len() as int) =~= cells[i]);
    } else {
        assert(part.take(cells[i].len() as int) =~= pad.take(cells[i].len() as int));
        assert forall|q: int| cells[i].len() <= q < part.len() implies #[trigger] part[q] == ' ' by {
            if q < pad.len() {
                assert(part[q] == pad[q]);
            }
        }
    }
}

proof fn lemma_column_cell_start(cells: Seq<Seq<char>>, w: Seq<nat>, i: int)
    requires
        0 <= i <= cells.len(),
    ensures
        concat(column_cells(cells, w).take(i)).len() == column_cell_start(cells, w, i),
    decreases i,
{
    let parts = column_cells(cells, w);
    if i == 0 {
        assert(parts.take(0) =~= seq![]);
    } else {
        lemma_column_cell_start(cells, w, i - 1);
        lemma_part_stands(parts, i - 1);
        lemma_column_cell(cells, w, i - 1);
    }
}

/// Every cell stands in its line in columns as it is, and behind it there is nothing but
/// spaces, up to the next cell. The line ends with a line feed.
pub proof fn law_cells_stand_in_a_line_in_columns(cells: Seq<Seq<char>>, w: Seq<nat>, i: int)
    requires
        0 <= i < cells.len(),
    ensures
        ({
            let line = column_line(cells, w);
            let s = column_cell_start(cells, w, i);
            let e = s + column_room(cells, w, i);
            &&& 0 <= s <= e < line.len()
            &&& line.subrange(s, s + cells[i].len()) == cells[i]
            &&& forall|p: int| s + cells[i].len() <= p < e ==> #[trigger] line[p] == ' '
            &&& line.last() == '\n'
            &&& line.len() == column_cell_start(cells, w, cells.len() as int) + 1
        }),
{
    let parts = column_cells(cells, w);
    let n = cells.len() as int;
    let all = concat(parts);
    let line = column_line(cells, w);
    let s = column_cell_start(cells, w, i);
    lemma_column_cell_start(cells, w, i);
    lemma_column_cell_start(cells, w, n);
    assert(parts.take(n) =~= parts);
    lemma_part_stands(parts, i);
    lemma_column_cell(cells, w, i);
    let part = parts[i];
    assert forall|q: int| 0 <= q < part.len() implies line[s + q] == #[trigger] part[q] by {
        assert(all.subrange(s, s + part.len())[q] == all[s + q]);
    }
    assert(line.subrange(s, s + cells[i].len()) =~= cells[i]) by {
        assert forall|q: int| 0 <= q < cells[i].len() implies line[s + q] == cells[i][q] by {
            assert(part.take(cells[i].len() as int)[q] == part[q]);
        }
    }
    assert forall|p: int| s + cells[i].len() <= p < s + part.len() implies #[trigger] line[p]
        == ' ' by {
        assert(part[p - s] == ' ');
    }
}

/// Results in columns are their lines: the headers and as many dashes as each column is
/// wide, where headers are shown, and then a line for each row in its order.
pub proof fn law_columns_are_made_of_lines(
    headers: Seq<Seq<char>>,
    rows: Seq<Seq<Seq<char>>>,
    show_headers: bool,
)
    ensures
        ({
            let w = widths(Measure::Chars, headers, rows, show_headers);
            let below = Seq::new(
                headers.len(),
                |i: int| Seq::new(w[i], |j: int| '-'),
            );
            let lines = Seq::new(rows.len(), |k: int| column_line(rows[k], w));
            let top = if show_headers {
                seq![column_line(headers, w), column_line(below, w)]
            } else {
                seq![]
            };
            &&& w.len() == headers.len()
            &&& column_text(headers, rows, show_headers) == concat(top + lines)
        }),
{
    let w = widths(Measure::Chars, headers, rows, show_headers);
    let below = Seq::new(headers.len(), |i: int| Seq::new(w[i], |j: int| '-'));
    assert forall|i: int| 0 <= i < below.len() implies below[i] == dashes(w)[i] by {
        assert(below[i] =~= dashes(w)[i]);
    }
    assert(below =~= dashes(w));
    let lines = Seq::new(rows.len(), |k: int| column_line(rows[k], w));
    assert(lines =~= column_lines(rows, w));
    let a = column_line(headers, w);
    let b = column_line(below, w);
    let none = Seq::<Seq<char>>::empty();
    law_concatenating_in_parts(seq![a, b], lines);
    law_concatenating_in_parts(none, lines);
    assert(seq![a, b] =~= seq![a] + seq![b]);
    law_concatenating_in_parts(seq![a], seq![b]);
    law_concatenating_in_parts(seq![b], none);
}

/// A value in line mode stands on a line of its own, as it is, behind the name of its
/// column, the spaces that the name lacks, and an equals sign between two spaces. Where
/// there is no such column the name is empty.
pub proof fn law_values_stand_behind_their_names(
    headers: Seq<Seq<char>>,
    row: Seq<Seq<char>>,
    i: int,
)
    requires
        0 <= i < row.len(),
    ensures
        ({
            let line = labelled(headers, row)[i];
            let name = if i < headers.len() {
                headers[i]
            } else {
                seq![]
            };
            let e = most(name.len() as int, largest_name(headers) as int);
            &&& labelled(headers, row).len() == row.len()
            &&& line.len() == e + 3 + row[i].len() + 1
            &&& line.take(name.len() as int) == name
            &&& forall|p: int| name.len() <= p <= e ==> #[trigger] line[p] == ' '
            &&& line[e + 1] == '='
            &&& line[e + 2] == ' '
            &&& line.subrange(e + 3, e + 3 + row[i].len()) == row[i]
            &&& line.last() == '\n'
        }),
{
    reveal_strlit(" = ");
    let name = cell_at(headers, i);
    let pad = padded(name, largest_name(headers) as int);
    law_padding_adds_only_spaces(name, largest_name(headers) as int);
    let line = labelled(headers, row)[i];
    let e = pad.len() as int;
    assert(line =~= pad + " = "@ + row[i] + seq!['\n']);
    assert(line.take(name.len() as int) =~= pad.take(name.len() as int));
    assert forall|p: int| name.len() <= p <= e implies #[trigger] line[p] == ' ' by {
        if p < e {
            assert(line[p] == pad[p]);
        }
    }
    assert(line.subrange(e + 3, e + 3 + row[i].len()) =~= row[i]);
}

/// The names in line mode are padded to the longest of them in bytes.
pub proof fn law_names_are_padded_to_the_longest(headers: Seq<Seq<char>>)
    ensures
        forall|i: int|
            0 <= i < headers.len() ==> byte_len(#[trigger] headers[i]) <= largest_name(headers),
        headers.len() > 0 ==> exists|i: int|
            0 <= i < headers.len() && byte_len(#[trigger] headers[i]) == largest_name(headers),
        headers.len() == 0 ==> largest_name(headers) == 0,
    decreases headers.len(),
{
    if headers.len() > 0 {
        let init = headers.drop_last();
        let n = headers.len() - 1;
        law_names_are_padded_to_the_longest(init);
        assert forall|i: int| 0 <= i < headers.len() implies byte_len(#[trigger] headers[i])
            <= largest_name(headers) by {
            if i < n {
                assert(init[i] == headers[i]);
            }
        }
        if byte_len(headers[n]) != largest_name(headers) {
            let i = choose|i: int|
                0 <= i < init.len() && byte_len(#[trigger] init[i]) == largest_name(init);
            assert(byte_len(headers[i]) == largest_name(headers));
        }
    }
}

/// In line mode one more row is its values behind an empty line; the first row has no
/// such line in front of it.
pub proof fn law_line_mode_adds_row_by_row(
    headers: Seq<Seq<char>>,
    rows: Seq<Seq<Seq<char>>>,
    row: Seq<Seq<char>>,
)
    ensures
        line_text(headers, seq![]) == Seq::<char>::empty(),
        line_text(headers, seq![row]) == concat(labelled(headers, row)),
        rows.len() > 0 ==> line_text(headers, rows.push(row)) == line_text(headers, rows).push(
            '\n',
        ) + concat(labelled(headers, row)),
{
    let one = line_blocks(headers, seq![row]);
    assert(one =~= seq![one[0]]);
    law_concatenating_in_parts(one, seq![]);
    assert(one[0] =~= concat(labelled(headers, row)));
    assert(line_blocks(headers, seq![]) =~= seq![]);
    if rows.len() > 0 {
        let all = line_blocks(headers, rows.push(row));
        assert(all.drop_last() =~= line_blocks(headers, rows));
        assert(all.last() =~= seq!['\n'] + concat(labelled(headers, row)));
        assert(line_text(headers, rows.push(row)) =~= line_text(headers, rows).push('\n') + concat(
            labelled(headers, row),
        ));
    }
}

/// A list is one line for each row, the cells as they are with a bar between any two,
/// behind such a line for the headers if they are shown.
pub proof fn law_lists_add_row_by_row(
    headers: Seq<Seq<char>>,
    rows: Seq<Seq<Seq<char>>>,
    row: Seq<Seq<char>>,
    show_headers: bool,
)
    ensures
        list_text(headers, rows.push(row), show_headers) == list_text(headers, rows, show_headers)
            + join(row, "|"@).push('\n'),
        list_text(headers, seq![], true) == join(headers, "|"@).push('\n'),
        list_text(headers, seq![], false) == Seq::<char>::empty(),
{
    assert(list_lines(rows.push(row)).drop_last() =~= list_lines(rows));
    assert(list_lines(seq![]) =~= seq![]);
    assert(list_text(headers, rows.push(row), show_headers) =~= list_text(
        headers,
        rows,
        show_headers,
    ) + join(row, "|"@).push('\n'));
}

/// CSV is one line for each row, the fields with a comma between any two, behind such a
/// line for the headers if they are shown. A field that holds neither a comma nor a quote
/// nor a line feed stands as it is; any other stands in quotes.
pub proof fn law_csv_adds_row_by_row(
    headers: Seq<Seq<char>>,
    rows: Seq<Seq<Seq<char>>>,
    row: Seq<Seq<char>>,
    show_headers: bool,
)
    ensures
        csv_text(headers, rows.push(row), show_headers) == csv_text(headers, rows, show_headers)
            + csv_line(row).push('\n'),
        csv_text(headers, seq![], true) == csv_line(headers).push('\n'),
        csv_text(headers, seq![], false) == Seq::<char>::empty(),
        (forall|i: int|
            0 <= i < row.len() ==> !(#[trigger] row[i]).contains(',') && !row[i].contains('"')
                && !row[i].contains('\n')) ==> csv_line(row) == join(row, ","@),
{
    assert(csv_lines(rows.push(row)).drop_last() =~= csv_lines(rows));
    assert(csv_lines(seq![]) =~= seq![]);
    assert(csv_text(headers, rows.push(row), show_headers) =~= csv_text(
        headers,
        rows,
        show_headers,
    ) + csv_line(row).push('\n'));
    if forall|i: int|
        0 <= i < row.len() ==> !(#[trigger] row[i]).contains(',') && !row[i].contains('"')
            && !row[i].contains('\n') {
        assert(csv_fields(row) =~= row);
    }
}

/// A single CSV field: as it is, or in quotes where it has to be.
pub proof fn law_csv_quotes_where_needed(field: Seq<char>)
    ensures
        csv_line(seq![field]) == if field.contains(',') || field.contains('"') || field.contains(
            '\n',
        ) {
            csv_quoted(field)
        } else {
            field
        },
        field.contains(',') || field.contains('"') || field.contains('\n') ==> csv_quoted(
            field,
        ).len() >= 2 && csv_quoted(field)[0] == '"' && csv_quoted(field).last() == '"',
        !field.contains('"') && (field.contains(',') || field.contains('\n')) ==> csv_quoted(field)
            == seq!['"'] + field + seq!['"'],
{
    assert(csv_fields(seq![field]) =~= seq![csv_quoted(field)]);
    if !field.contains('"') {
        let parts = csv_chars(field);
        assert forall|i: int| 0 <= i < field.len() implies #[trigger] parts[i] == seq![field[i]] by {
            assert(field.contains(field[i]));
        }
        lemma_unchanged(parts, field);
    }
}

proof fn lemma_unchanged(parts: Seq<Seq<char>>, s: Seq<char>)
    requires
        parts.len() == s.len(),
        forall|i: int| 0 <= i < s.len() ==> #[trigger] parts[i] == seq![s[i]],
    ensures
        concat(parts) == s,
    decreases s.len(),
{
    if s.len() == 0 {
        assert(concat(parts) =~= s);
    } else {
        let n = s.len() - 1;
        let t = s.drop_last();
        assert forall|i: int| 0 <= i < t.len() implies #[trigger] parts.drop_last()[i] == seq![
            t[i],
        ] by {
            assert(parts[i] == seq![s[i]]);
        }
        lemma_unchanged(parts.drop_last(), t);
        assert(parts[n] == seq![s[n]]);
        assert(parts.last() == seq![s[n]]);
        assert(concat(parts) =~= s);
    }
}

/// In a JSON string every character stands as it is that is neither a quote nor a
/// backslash nor a control character.
pub proof fn law_json_keeps_ordinary_characters(s: Seq<char>)
    requires
        forall|i: int|
            0 <= i < s.len() ==> #[trigger] s[i] != '"' && s[i] != '\\' && s[i] >= ' ',
    ensures
        json_quoted(s) == seq!['"'] + s + seq!['"'],
{
    assert forall|i: int| 0 <= i < s.len() implies #[trigger] json_chars(s)[i] == seq![s[i]] by {
        assert(s[i] != '"');
    }
    lemma_unchanged(json_chars(s), s);
}

/// The characters with an escape of their own in a JSON string, and a JSON string in two
/// parts.
pub proof fn law_json_escapes(a: Seq<char>, b: Seq<char>)
    ensures
        json_quoted(seq!['"']) == seq!['"', '\\', '"', '"'],
        json_quoted(seq!['\\']) == seq!['"', '\\', '\\', '"'],
        json_quoted(seq!['\n']) == seq!['"', '\\', 'n', '"'],
        json_quoted(seq!['\t']) == seq!['"', '\\', 't', '"'],
        json_quoted(seq!['\r']) == seq!['"', '\\', 'r', '"'],
        json_quoted(seq!['\u{8}']) == seq!['"', '\\', 'b', '"'],
        json_quoted(seq!['\u{c}']) == seq!['"', '\\', 'f', '"'],
        json_quoted(a + b) == json_quoted(a).drop_last() + json_quoted(b).drop_first(),
{
    lemma_json_one_char('"');
    lemma_json_one_char('\\');
    lemma_json_one_char('\n');
    lemma_json_one_char('\t');
    lemma_json_one_char('\r');
    lemma_json_one_char('\u{8}');
    lemma_json_one_char('\u{c}');
    assert(json_chars(a + b) =~= json_chars(a) + json_chars(b));
    law_concatenating_in_parts(json_chars(a), json_chars(b));
    assert(json_quoted(a + b) =~= json_quoted(a).drop_last() + json_quoted(b).drop_first());
}

proof fn lemma_json_one_char(c: char)
    ensures
        json_quoted(seq![c]) == seq!['"'] + json_char(c) + seq!['"'],
        json_char(c).len() == 2 ==> json_quoted(seq![c]) == seq![
            '"',
            json_char(c)[0],
            json_char(c)[1],
            '"',
        ],
{
    let part = json_char(c);
    assert(json_chars(seq![c]) =~= seq![part]);
    law_concatenating_in_parts(seq![part], seq![]);
    if part.len() == 2 {
        assert(json_quoted(seq![c]) =~= seq!['"', part[0], part[1], '"']);
    }
}

/// A JSON object grows field by field: a name, a colon and a value, with a comma between
/// two fields. A value that the row lacks is the empty string.
pub proof fn law_json_objects_grow_field_by_field(
    headers: Seq<Seq<char>>,
    header: Seq<char>,
    row: Seq<Seq<char>>,
)
    ensures
        ({
            let i = headers.len() as int;
            let value = if i < row.len() {
                row[i]
            } else {
                seq![]
            };
            let field = json_quoted(header) + ": "@ + json_quoted(value);
            &&& i == 0 ==> json_object(headers.push(header), row) == "  {"@ + field + seq!['}']
            &&& i > 0 ==> json_object(headers.push(header), row) == json_object(
                headers,
                row,
            ).drop_last() + ", "@ + field + seq!['}']
        }),
        json_object(seq![], row) == "  {"@ + seq!['}'],
{
    let all = json_fields(headers.push(header), row);
    assert(all.drop_last() =~= json_fields(headers, row));
    assert(json_fields(seq![], row) =~= seq![]);
    assert(json_object(seq![], row) =~= "  {"@ + seq!['}']);
    if headers.len() > 0 {
        assert(json_object(headers.push(header), row) =~= json_object(headers, row).drop_last()
            + ", "@ + all.last() + seq!['}']);
    } else {
        assert(json_object(headers.push(header), row) =~= "  {"@ + all[0] + seq!['}']);
    }
}

/// A JSON array grows row by row: each object stands on a line of its own, and a comma
/// behind all but the last.
pub proof fn law_json_grows_row_by_row(
    headers: Seq<Seq<char>>,
    rows: Seq<Seq<Seq<char>>>,
    row: Seq<Seq<char>>,
)
    ensures
        json_text(headers, seq![]) == "[\n"@ + seq![']'],
        json_text(headers, seq![row]) == "[\n"@ + json_object(headers, row) + seq!['\n', ']'],
        rows.len() > 0 ==> json_text(headers, rows.push(row)) == json_text(
            headers,
            rows,
        ).drop_last().drop_last() + seq![',', '\n'] + json_object(headers, row) + seq!['\n', ']'],
{
    let none = Seq::<Seq<Seq<char>>>::empty();
    assert(json_lines(headers, none) =~= seq![]);
    assert(json_text(headers, none) =~= "[\n"@ + seq![']']);
    let one = json_lines(headers, seq![row]);
    assert(one =~= seq![json_object(headers, row) + seq!['\n']]);
    law_concatenating_in_parts(one, seq![]);
    assert(json_text(headers, seq![row]) =~= "[\n"@ + json_object(headers, row) + seq!['\n', ']']);
    if rows.len() > 0 {
        let n = rows.len() - 1;
        let more = json_lines(headers, rows.push(row));
        let now = json_lines(headers, rows);
        let obj = json_object(headers, rows[n]);
        let front = now.drop_last();
        assert(more.drop_last().drop_last() =~= front);
        assert(more.drop_last().last() == obj + seq![',', '\n']);
        assert(more.last() == json_object(headers, row) + seq!['\n']);
        assert(now.last() == obj + seq!['\n']);
        assert(concat(more.drop_last()) == concat(front) + (obj + seq![',', '\n']));
        assert(concat(more) == concat(front) + (obj + seq![',', '\n']) + (json_object(headers, row)
            + seq!['\n']));
        assert(concat(now) == concat(front) + (obj + seq!['\n']));
        let text = json_text(headers, rows);
        assert(text.drop_last().drop_last() =~= "[\n"@ + (concat(front) + obj));
        assert(json_text(headers, rows.push(row)) =~= text.drop_last().drop_last() + seq![
            ',',
            '\n',
        ] + json_object(headers, row) + seq!['\n', ']']);
    }
}

/// Each mode renders in its own way, and only a list, columns and CSV look at whether
/// headers are to be shown.
pub proof fn law_each_mode_has_its_rendering(
    headers: Seq<Seq<char>>,
    rows: Seq<Seq<Seq<char>>>,
    show_headers: bool,
)
    ensures
        rendered(OutputMode::Table, headers, rows, show_headers) == table_text(headers, rows),
        rendered(OutputMode::Json, headers, rows, show_headers) == json_text(headers, rows),
        rendered(OutputMode::Line, headers, rows, show_headers) == line_text(headers, rows),
        rendered(OutputMode::Csv, headers, rows, show_headers) == csv_text(
            headers,
            rows,
            show_headers,
        ),
        rendered(OutputMode::List, headers, rows, show_headers) == list_text(
            headers,
            rows,
            show_headers,
        ),
        rendered(OutputMode::Column, headers, rows, show_headers) == column_text(
            headers,
            rows,
            show_headers,
        ),
{
}

/// Each mode has one name, and no other text names a mode.
pub proof fn law_each_mode_has_one_name(name: Seq<char>)
    ensures
        mode_called(name) == Some(OutputMode::Table) <==> name == "table"@,
        mode_called(name) == Some(OutputMode::List) <==> name == "list"@,
        mode_called(name) == Some(OutputMode::Column) <==> name == "column"@,
        mode_called(name) == Some(OutputMode::Line) <==> name == "line"@,
        mode_called(name) == Some(OutputMode::Csv) <==> name == "csv"@,
        mode_called(name) == Some(OutputMode::Json) <==> name == "json"@,
{
    reveal_strlit("table");
    reveal_strlit("list");
    reveal_strlit("column");
    reveal_strlit("line");
    reveal_strlit("csv");
    reveal_strlit("json");
    assert("table"@.len() == 5 && "column"@.len() == 6 && "csv"@.len() == 3);
    assert("list"@.len() == 4 && "line"@.len() == 4 && "json"@.len() == 4);
    assert("list"@[2] != "line"@[2]);
    assert("list"@[0] != "json"@[0]);
    assert("line"@[0] != "json"@[0]);
}

/// The views of some rows are those of each cell, in its place.
pub proof fn law_grids_are_the_views(rows: Seq<Vec<String>>, k: int, i: int)
    requires
        0 <= k < rows.len(),
        0 <= i < rows[k]@.len(),
    ensures
        grid(rows).len() == rows.len(),
        grid(rows)[k].len() == rows[k]@.len(),
        grid(rows)[k][i] == rows[k]@[i]@,
{
}

} // verus!
