//! What a reader gets out of rendered results: CSV gives back what was put in,
//! tables are rectangular, and headers appear where they are asked for.

use vstd::prelude::*;

use crate::output::{
    bars, border, cell_size, csv_chars, csv_fields, csv_line, csv_lines, csv_quoted, csv_special,
    csv_text, largest_cell, list_lines, list_text, mode_called, rendered, table_cells, table_line,
    table_lines, table_text, widths, Measure, OutputMode,
};
use crate::text::{byte_len, concat, join, lemma_byte_len_bounds, lowered, padded, raised};

verus! {

/// Where within a CSV text a reader stands.
pub enum CsvPlace {
    /// At the start of a field.
    Start,
    /// In a field without quotes.
    Plain,
    /// Within quotes.
    Quoted,
    /// Behind a quote that ends the quotes, unless another follows.
    Closing,
}

/// What has been read of a CSV text: the rows that are complete, the fields of the
/// row that is not, and the field that is not.
pub struct CsvReading {
    pub place: CsvPlace,
    pub rows: Seq<Seq<Seq<char>>>,
    pub fields: Seq<Seq<char>>,
    pub field: Seq<char>,
}

impl CsvReading {
    /// One more character of the field.
    pub open spec fn more(self, place: CsvPlace, c: char) -> CsvReading {
        CsvReading { place, field: self.field.push(c), ..self }
    }

    /// The field is complete.
    pub open spec fn end_field(self) -> CsvReading {
        CsvReading {
            place: CsvPlace::Start,
            rows: self.rows,
            fields: self.fields.push(self.field),
            field: seq![],
        }
    }

    /// The row is complete.
    pub open spec fn end_row(self) -> CsvReading {
        CsvReading {
            place: CsvPlace::Start,
            rows: self.rows.push(self.fields.push(self.field)),
            fields: seq![],
            field: seq![],
        }
    }

    /// Reads one character.
    pub open spec fn step(self, c: char) -> CsvReading {
        match self.place {
            CsvPlace::Quoted => if c == '"' {
                CsvReading { place: CsvPlace::Closing, ..self }
            } else {
                self.more(CsvPlace::Quoted, c)
            },
            CsvPlace::Start if c == '"' => CsvReading { place: CsvPlace::Quoted, ..self },
            CsvPlace::Closing if c == '"' => self.more(CsvPlace::Quoted, c),
            _ => if c == ',' {
                self.end_field()
            } else if c == '\n' {
                self.end_row()
            } else {
                self.more(CsvPlace::Plain, c)
            },
        }
    }

    /// Reads one character after the other.
    pub open spec fn run(self, s: Seq<char>) -> CsvReading
        decreases s.len(),
    {
        if s.len() == 0 {
            self
        } else {
            self.run(s.drop_last()).step(s.last())
        }
    }
}

/// A reader that has read the given rows.
pub open spec fn rows_read(rows: Seq<Seq<Seq<char>>>) -> CsvReading {
    CsvReading { place: CsvPlace::Start, rows, fields: seq![], field: seq![] }
}

proof fn lemma_csv_add(r: CsvReading, a: Seq<char>, b: Seq<char>)
    ensures
        r.run(a + b) == r.run(a).run(b),
    decreases b.len(),
{
    if b.len() == 0 {
        assert(a + b == a);
    } else {
        lemma_csv_add(r, a, b.drop_last());
        assert((a + b).drop_last() == a + b.drop_last());
        assert((a + b).last() == b.last());
    }
}

proof fn lemma_csv_one(r: CsvReading, c: char)
    ensures
        r.run(seq![c]) == r.step(c),
{
    assert(seq![c].drop_last() == Seq::<char>::empty());
    reveal_with_fuel(CsvReading::run, 2);
}

/// A field has been read to its end, and what ends it may follow.
spec fn field_read(r: CsvReading, before: CsvReading, f: Seq<char>) -> bool {
    &&& !(r.place is Quoted)
    &&& r.rows == before.rows
    &&& r.fields == before.fields
    &&& r.field == f
}

proof fn lemma_csv_plain(r: CsvReading, f: Seq<char>)
    requires
        r.place is Start,
        r.field.len() == 0,
        !csv_special(f),
    ensures
        field_read(r.run(f), r, f),
        !(r.run(f).place is Closing),
        f.len() > 0 ==> r.run(f).place is Plain,
    decreases f.len(),
{
    if f.len() == 0 {
        assert(r.field =~= f);
    } else {
        let g = f.drop_last();
        assert forall|c: char| g.contains(c) implies f.contains(c) by {
            let k = choose|k: int| 0 <= k < g.len() && g[k] == c;
            assert(f[k] == c);
        }
        lemma_csv_plain(r, g);
        assert(f.contains(f.last()));
        assert(g.push(f.last()) =~= f);
    }
}

proof fn lemma_csv_inside(r: CsvReading, f: Seq<char>, n: int)
    requires
        r.place is Quoted,
        r.field.len() == 0,
        0 <= n <= f.len(),
    ensures
        r.run(concat(csv_chars(f).take(n))) == (CsvReading { field: f.take(n), ..r }),
    decreases n,
{
    let parts = csv_chars(f);
    if n == 0 {
        assert(parts.take(0) =~= Seq::<Seq<char>>::empty());
        assert(r.field =~= f.take(0));
    } else {
        lemma_csv_inside(r, f, n - 1);
        assert(parts.take(n).drop_last() =~= parts.take(n - 1));
        assert(parts.take(n).last() == parts[n - 1]);
        let before = CsvReading { field: f.take(n - 1), ..r };
        let c = f[n - 1];
        lemma_csv_add(r, concat(parts.take(n - 1)), parts[n - 1]);
        assert(f.take(n - 1).push(c) =~= f.take(n));
        if c == '"' {
            assert(parts[n - 1] =~= seq!['"'] + seq!['"']);
            lemma_csv_add(before, seq!['"'], seq!['"']);
            lemma_csv_one(before, '"');
            lemma_csv_one(before.step('"'), '"');
        } else {
            lemma_csv_one(before, c);
        }
    }
}

proof fn lemma_csv_field(r: CsvReading, f: Seq<char>)
    requires
        r.place is Start,
        r.field.len() == 0,
    ensures
        field_read(r.run(csv_quoted(f)), r, f),
{
    if csv_special(f) {
        let inner = concat(csv_chars(f));
        let r1 = CsvReading { place: CsvPlace::Quoted, ..r };
        lemma_csv_add(r, seq!['"'] + inner, seq!['"']);
        lemma_csv_add(r, seq!['"'], inner);
        lemma_csv_one(r, '"');
        lemma_csv_inside(r1, f, f.len() as int);
        assert(csv_chars(f).take(f.len() as int) =~= csv_chars(f));
        assert(f.take(f.len() as int) =~= f);
        lemma_csv_one(CsvReading { field: f, ..r1 }, '"');
    } else {
        lemma_csv_plain(r, f);
    }
}

proof fn lemma_csv_fields(r: CsvReading, fields: Seq<Seq<char>>, n: int)
    requires
        r.place is Start,
        r.field.len() == 0,
        r.fields.len() == 0,
        1 <= n <= fields.len(),
    ensures
        ({
            let e = r.run(join(csv_fields(fields).take(n), ","@));
            &&& !(e.place is Quoted)
            &&& e.rows == r.rows
            &&& e.fields == fields.take(n - 1)
            &&& e.field == fields[n - 1]
        }),
    decreases n,
{
    reveal_strlit(",");
    let parts = csv_fields(fields);
    if n == 1 {
        assert(join(parts.take(1), ","@) == parts[0]);
        lemma_csv_field(r, fields[0]);
        assert(r.fields =~= fields.take(0));
    } else {
        lemma_csv_fields(r, fields, n - 1);
        let before = join(parts.take(n - 1), ","@);
        assert(parts.take(n).drop_last() =~= parts.take(n - 1));
        assert(parts.take(n).last() == csv_quoted(fields[n - 1]));
        assert(","@ =~= seq![',']);
        let e1 = r.run(before);
        lemma_csv_add(r, before + seq![','], csv_quoted(fields[n - 1]));
        lemma_csv_add(r, before, seq![',']);
        lemma_csv_one(e1, ',');
        lemma_csv_field(e1.end_field(), fields[n - 1]);
        assert(fields.take(n - 2).push(fields[n - 2]) =~= fields.take(n - 1));
    }
}

proof fn lemma_csv_line(rows: Seq<Seq<Seq<char>>>, fields: Seq<Seq<char>>)
    requires
        fields.len() > 0,
    ensures
        rows_read(rows).run(csv_line(fields).push('\n')) == rows_read(rows.push(fields)),
{
    let n = fields.len() as int;
    let r = rows_read(rows);
    let line = csv_line(fields);
    lemma_csv_fields(r, fields, n);
    assert(csv_fields(fields).take(n) =~= csv_fields(fields));
    assert(line.push('\n').drop_last() =~= line);
    assert(fields.take(n - 1).push(fields[n - 1]) =~= fields);
}

proof fn lemma_csv_rows(first: Seq<Seq<Seq<char>>>, rows: Seq<Seq<Seq<char>>>, n: int)
    requires
        0 <= n <= rows.len(),
        forall|k: int| 0 <= k < rows.len() ==> (#[trigger] rows[k]).len() > 0,
    ensures
        rows_read(first).run(concat(csv_lines(rows).take(n))) == rows_read(first + rows.take(n)),
    decreases n,
{
    let lines = csv_lines(rows);
    if n == 0 {
        assert(lines.take(0) =~= Seq::<Seq<char>>::empty());
        assert(first + rows.take(0) =~= first);
    } else {
        lemma_csv_rows(first, rows, n - 1);
        assert(lines.take(n).drop_last() =~= lines.take(n - 1));
        assert(lines.take(n).last() == csv_line(rows[n - 1]).push('\n'));
        lemma_csv_add(
            rows_read(first),
            concat(lines.take(n - 1)),
            csv_line(rows[n - 1]).push('\n'),
        );
        lemma_csv_line(first + rows.take(n - 1), rows[n - 1]);
        assert((first + rows.take(n - 1)).push(rows[n - 1]) =~= first + rows.take(n));
    }
}

/// Reading rendered CSV gives back the rows that were rendered, behind the headers
/// if those are shown, whatever their fields hold. No row is without a field.
pub proof fn law_csv_is_read_back(
    headers: Seq<Seq<char>>,
    rows: Seq<Seq<Seq<char>>>,
    show_headers: bool,
)
    requires
        show_headers ==> headers.len() > 0,
        forall|k: int| 0 <= k < rows.len() ==> (#[trigger] rows[k]).len() > 0,
    ensures
        rows_read(seq![]).run(csv_text(headers, rows, show_headers)) == rows_read(
            if show_headers {
                seq![headers] + rows
            } else {
                rows
            },
        ),
{
    let n = rows.len() as int;
    let none = Seq::<Seq<Seq<char>>>::empty();
    assert(csv_lines(rows).take(n) =~= csv_lines(rows));
    assert(rows.take(n) =~= rows);
    if show_headers {
        lemma_csv_add(rows_read(none), csv_line(headers).push('\n'), concat(csv_lines(rows)));
        lemma_csv_line(none, headers);
        assert(none.push(headers) =~= seq![headers]);
        lemma_csv_rows(seq![headers], rows, n);
    } else {
        assert(csv_text(headers, rows, false) =~= concat(csv_lines(rows)));
        lemma_csv_rows(none, rows, n);
        assert(none + rows =~= rows);
    }
}

/// Tables, JSON and line-by-line output are the same whether headers are asked for
/// or not.
pub proof fn law_some_modes_do_not_depend_on_headers(
    mode: OutputMode,
    headers: Seq<Seq<char>>,
    rows: Seq<Seq<Seq<char>>>,
)
    requires
        mode is Table || mode is Json || mode is Line,
    ensures
        rendered(mode, headers, rows, true) == rendered(mode, headers, rows, false),
{
}

/// In a list and in CSV, headers add one line in front of the same lines.
pub proof fn law_headers_add_a_first_line(headers: Seq<Seq<char>>, rows: Seq<Seq<Seq<char>>>)
    ensures
        rendered(OutputMode::List, headers, rows, true) == join(headers, "|"@).push('\n')
            + rendered(OutputMode::List, headers, rows, false),
        rendered(OutputMode::Csv, headers, rows, true) == csv_line(headers).push('\n') + rendered(
            OutputMode::Csv,
            headers,
            rows,
            false,
        ),
{
    assert(list_text(headers, rows, false) =~= concat(list_lines(rows)));
    assert(csv_text(headers, rows, false) =~= concat(csv_lines(rows)));
}

/// A text names the same mode, if any, in small letters and in capitals.
pub proof fn law_mode_names_ignore_case(name: Seq<char>)
    ensures
        mode_called(lowered(lowered(name))) == mode_called(lowered(name)),
        mode_called(lowered(raised(name))) == mode_called(lowered(name)),
{
    assert(lowered(lowered(name)) =~= lowered(name));
    assert(lowered(raised(name)) =~= lowered(name));
}

/// The sum of some widths.
spec fn total(widths: Seq<nat>) -> nat
    decreases widths.len(),
{
    if widths.len() == 0 {
        0
    } else {
        total(widths.drop_last()) + widths.last()
    }
}

proof fn lemma_border_len(w: Seq<nat>, mid: char)
    requires
        w.len() > 0,
    ensures
        join(bars(w), seq![mid]).len() == total(w) + 3 * w.len() - 1,
    decreases w.len(),
{
    if w.len() == 1 {
        assert(total(w.drop_last()) == 0);
        assert(join(bars(w), seq![mid]) == bars(w)[0]);
    } else {
        lemma_border_len(w.drop_last(), mid);
        assert(bars(w).drop_last() =~= bars(w.drop_last()));
    }
}

proof fn lemma_largest_cell(m: Measure, rows: Seq<Seq<Seq<char>>>, i: int, k: int)
    requires
        0 <= k < rows.len(),
    ensures
        cell_size(m, rows[k], i) <= largest_cell(m, rows, i),
    decreases rows.len(),
{
    if k < rows.len() - 1 {
        lemma_largest_cell(m, rows.drop_last(), i, k);
    }
}

proof fn lemma_cells_len(cells: Seq<Seq<char>>, w: Seq<nat>, n: int)
    requires
        cells.len() == w.len(),
        forall|i: int| 0 <= i < w.len() ==> byte_len(#[trigger] cells[i]) <= w[i],
        0 <= n <= w.len(),
    ensures
        concat(table_cells(cells, w).take(n)).len() == total(w.take(n)) + 3 * n,
    decreases n,
{
    let parts = table_cells(cells, w);
    if n > 0 {
        lemma_cells_len(cells, w, n - 1);
        assert(parts.take(n).drop_last() =~= parts.take(n - 1));
        assert(parts.take(n).last() == parts[n - 1]);
        assert(w.take(n).drop_last() =~= w.take(n - 1));
        lemma_byte_len_bounds(cells[n - 1]);
        assert(padded(cells[n - 1], w[n - 1] as int).len() == w[n - 1]);
    }
}

proof fn lemma_line_len(cells: Seq<Seq<char>>, w: Seq<nat>)
    requires
        cells.len() == w.len(),
        forall|i: int| 0 <= i < w.len() ==> byte_len(#[trigger] cells[i]) <= w[i],
    ensures
        table_line(cells, w).len() == total(w) + 3 * w.len() + 2,
{
    let n = w.len() as int;
    lemma_cells_len(cells, w, n);
    assert(table_cells(cells, w).take(n) =~= table_cells(cells, w));
    assert(w.take(n) =~= w);
}

/// A table is rectangular: the borders, the headers and every row with a cell for
/// each header are lines of the same length.
pub proof fn law_tables_are_rectangular(
    headers: Seq<Seq<char>>,
    rows: Seq<Seq<Seq<char>>>,
    k: int,
    left: char,
    mid: char,
    right: char,
)
    requires
        headers.len() > 0,
        0 <= k < rows.len(),
        rows[k].len() == headers.len(),
    ensures
        ({
            let w = widths(Measure::Bytes, headers, rows, true);
            &&& table_line(rows[k], w).len() == border(w, left, mid, right).len()
            &&& table_line(headers, w).len() == border(w, left, mid, right).len()
        }),
{
    let w = widths(Measure::Bytes, headers, rows, true);
    lemma_border_len(w, mid);
    assert forall|i: int| 0 <= i < w.len() implies byte_len(#[trigger] rows[k][i]) <= w[i] by {
        lemma_largest_cell(Measure::Bytes, rows, i, k);
    }
    lemma_line_len(rows[k], w);
    lemma_line_len(headers, w);
}

/// In columns, every cell of a column fills the column exactly: no cell is wider,
/// so that the next column begins at the same place in every line.
pub proof fn law_cells_fill_their_column(
    headers: Seq<Seq<char>>,
    rows: Seq<Seq<Seq<char>>>,
    show_headers: bool,
    k: int,
    i: int,
)
    requires
        0 <= k < rows.len(),
        0 <= i < headers.len(),
        i < rows[k].len(),
    ensures
        ({
            let w = widths(Measure::Chars, headers, rows, show_headers);
            &&& padded(rows[k][i], w[i] as int).len() == w[i]
            &&& show_headers ==> padded(headers[i], w[i] as int).len() == w[i]
        }),
{
    lemma_largest_cell(Measure::Chars, rows, i, k);
}

/// Whether a column holds a text of `n` characters, the header counting if it is
/// shown.
pub open spec fn column_holds(
    headers: Seq<Seq<char>>,
    rows: Seq<Seq<Seq<char>>>,
    show_headers: bool,
    i: int,
    n: nat,
) -> bool {
    ||| show_headers && headers[i].len() == n
    ||| exists|k: int| 0 <= k < rows.len() && i < (#[trigger] rows[k]).len() && rows[k][i].len() == n
}

/// In columns, no column is wider than its longest text: a column that is not empty
/// holds a text which takes up all of it.
pub proof fn law_columns_are_no_wider_than_needed(
    headers: Seq<Seq<char>>,
    rows: Seq<Seq<Seq<char>>>,
    show_headers: bool,
    i: int,
)
    requires
        0 <= i < headers.len(),
    ensures
        ({
            let n = widths(Measure::Chars, headers, rows, show_headers)[i];
            n > 0 ==> column_holds(headers, rows, show_headers, i, n)
        }),
{
    let n = largest_cell(Measure::Chars, rows, i);
    if n > 0 {
        let k = lemma_largest_cell_stands(rows, i);
        assert(rows[k][i].len() == n);
    }
}

proof fn lemma_largest_cell_stands(rows: Seq<Seq<Seq<char>>>, i: int) -> (k: int)
    requires
        0 <= i,
        largest_cell(Measure::Chars, rows, i) > 0,
    ensures
        0 <= k < rows.len(),
        i < rows[k].len(),
        rows[k][i].len() == largest_cell(Measure::Chars, rows, i),
    decreases rows.len(),
{
    let last = cell_size(Measure::Chars, rows.last(), i);
    if largest_cell(Measure::Chars, rows.drop_last(), i) < last || rows.len() == 1 {
        rows.len() - 1
    } else {
        lemma_largest_cell_stands(rows.drop_last(), i)
    }
}

/// The number of line feeds in a text, which is the number of its lines.
pub open spec fn line_feeds(s: Seq<char>) -> nat
    decreases s.len(),
{
    if s.len() == 0 {
        0
    } else {
        line_feeds(s.drop_last()) + if s.last() == '\n' {
            1nat
        } else {
            0
        }
    }
}

proof fn lemma_line_feeds_add(a: Seq<char>, b: Seq<char>)
    ensures
        line_feeds(a + b) == line_feeds(a) + line_feeds(b),
    decreases b.len(),
{
    if b.len() == 0 {
        assert(a + b =~= a);
    } else {
        lemma_line_feeds_add(a, b.drop_last());
        assert((a + b).drop_last() =~= a + b.drop_last());
        assert((a + b).last() == b.last());
    }
}

proof fn lemma_no_line_feeds(s: Seq<char>)
    requires
        forall|i: int| 0 <= i < s.len() ==> s[i] != '\n',
    ensures
        line_feeds(s) == 0,
    decreases s.len(),
{
    if s.len() > 0 {
        lemma_no_line_feeds(s.drop_last());
    }
}

/// No cell holds a line feed.
pub open spec fn single_lines(row: Seq<Seq<char>>) -> bool {
    forall|i: int| 0 <= i < row.len() ==> !(#[trigger] row[i]).contains('\n')
}

proof fn lemma_one_line_feed(s: Seq<char>)
    requires
        s.len() > 0,
        s.last() == '\n',
        forall|i: int| 0 <= i < s.len() - 1 ==> s[i] != '\n',
    ensures
        line_feeds(s) == 1,
{
    lemma_no_line_feeds(s.drop_last());
}

proof fn lemma_concat_plain(parts: Seq<Seq<char>>)
    requires
        forall|i: int, j: int|
            0 <= i < parts.len() && 0 <= j < parts[i].len() ==> #[trigger] parts[i][j] != '\n',
    ensures
        forall|j: int| 0 <= j < concat(parts).len() ==> #[trigger] concat(parts)[j] != '\n',
    decreases parts.len(),
{
    if parts.len() > 0 {
        let init = parts.drop_last();
        assert forall|i: int, j: int|
            0 <= i < init.len() && 0 <= j < init[i].len() implies #[trigger] init[i][j] != '\n' by {
            assert(init[i] == parts[i]);
            assert(parts[i][j] != '\n');
        }
        lemma_concat_plain(init);
        assert forall|j: int| 0 <= j < concat(parts).len() implies #[trigger] concat(parts)[j]
            != '\n' by {
            let n = concat(init).len() as int;
            if j < n {
                assert(concat(init)[j] != '\n');
            } else {
                assert(parts[parts.len() - 1][j - n] != '\n');
            }
        }
    }
}

proof fn lemma_join_plain(parts: Seq<Seq<char>>, mid: char)
    requires
        mid != '\n',
        forall|i: int, j: int|
            0 <= i < parts.len() && 0 <= j < parts[i].len() ==> #[trigger] parts[i][j] != '\n',
    ensures
        forall|j: int|
            0 <= j < join(parts, seq![mid]).len() ==> #[trigger] join(parts, seq![mid])[j] != '\n',
    decreases parts.len(),
{
    let whole = join(parts, seq![mid]);
    if parts.len() == 1 {
        assert forall|j: int| 0 <= j < whole.len() implies #[trigger] whole[j] != '\n' by {
            assert(parts[0][j] != '\n');
        }
    } else if parts.len() > 1 {
        let init = parts.drop_last();
        assert forall|i: int, j: int|
            0 <= i < init.len() && 0 <= j < init[i].len() implies #[trigger] init[i][j] != '\n' by {
            assert(init[i] == parts[i]);
            assert(parts[i][j] != '\n');
        }
        lemma_join_plain(init, mid);
        let front = join(init, seq![mid]);
        assert forall|j: int| 0 <= j < whole.len() implies #[trigger] whole[j] != '\n' by {
            let n = front.len() as int;
            if j < n {
                assert(front[j] != '\n');
            } else if j > n {
                assert(parts[parts.len() - 1][j - n - 1] != '\n');
            }
        }
    }
}

proof fn lemma_border_is_a_line(w: Seq<nat>, left: char, mid: char, right: char)
    requires
        left != '\n',
        mid != '\n',
        right != '\n',
    ensures
        line_feeds(border(w, left, mid, right)) == 1,
{
    lemma_join_plain(bars(w), mid);
    lemma_one_line_feed(border(w, left, mid, right));
}

proof fn lemma_table_line_is_a_line(cells: Seq<Seq<char>>, w: Seq<nat>)
    requires
        single_lines(cells),
    ensures
        line_feeds(table_line(cells, w)) == 1,
{
    let parts = table_cells(cells, w);
    assert forall|i: int, j: int|
        0 <= i < parts.len() && 0 <= j < parts[i].len() implies #[trigger] parts[i][j] != '\n' by {
        let n = cells[i].len() as int;
        if 1 <= j < 1 + n {
            assert(parts[i][j] == cells[i][j - 1]);
            if cells[i][j - 1] == '\n' {
                assert(cells[i].contains('\n'));
            }
        }
    }
    lemma_concat_plain(parts);
    lemma_one_line_feed(table_line(cells, w));
}

proof fn lemma_table_lines_count(rows: Seq<Seq<Seq<char>>>, w: Seq<nat>, n: int)
    requires
        0 <= n <= rows.len(),
        forall|k: int| 0 <= k < rows.len() ==> single_lines(#[trigger] rows[k]),
    ensures
        line_feeds(concat(table_lines(rows, w).take(n))) == n,
    decreases n,
{
    let lines = table_lines(rows, w);
    if n == 0 {
        assert(lines.take(0) =~= Seq::<Seq<char>>::empty());
    } else {
        lemma_table_lines_count(rows, w, n - 1);
        assert(lines.take(n).drop_last() =~= lines.take(n - 1));
        assert(lines.take(n).last() == table_line(rows[n - 1], w));
        lemma_line_feeds_add(concat(lines.take(n - 1)), table_line(rows[n - 1], w));
        lemma_table_line_is_a_line(rows[n - 1], w);
    }
}

/// A table with headers has a line for each row, one for the headers, and three
/// borders, where no cell holds a line feed.
pub proof fn law_tables_have_a_line_for_each_row(
    headers: Seq<Seq<char>>,
    rows: Seq<Seq<Seq<char>>>,
)
    requires
        headers.len() > 0,
        single_lines(headers),
        forall|k: int| 0 <= k < rows.len() ==> single_lines(#[trigger] rows[k]),
    ensures
        line_feeds(table_text(headers, rows)) == rows.len() + 4,
{
    let w = widths(Measure::Bytes, headers, rows, true);
    let a = border(w, '┌', '┬', '┐');
    let b = table_line(headers, w);
    let c = border(w, '├', '┼', '┤');
    let d = concat(table_lines(rows, w));
    let e = border(w, '└', '┴', '┘');
    lemma_border_is_a_line(w, '┌', '┬', '┐');
    lemma_border_is_a_line(w, '├', '┼', '┤');
    lemma_border_is_a_line(w, '└', '┴', '┘');
    lemma_table_line_is_a_line(headers, w);
    let n = rows.len() as int;
    lemma_table_lines_count(rows, w, n);
    assert(table_lines(rows, w).take(n) =~= table_lines(rows, w));
    lemma_line_feeds_add(a + b + c + d, e);
    lemma_line_feeds_add(a + b + c, d);
    lemma_line_feeds_add(a + b, c);
    lemma_line_feeds_add(a, b);
}

} // verus!
