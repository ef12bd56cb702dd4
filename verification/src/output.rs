//! Rendering of headers and rows of plain strings: as a table, as lists, in
//! columns, line by line, as CSV and as JSON.

use vstd::prelude::*;

use crate::text::{
    byte_len, bytes_in, char_count, chars_of, concat, join, joined, lowered, padded, push_padded,
    push_repeated, repeated, same_text, texts, to_ascii_lowercase,
};

verus! {

/// The format in which results are rendered.
#[derive(Debug, Clone, Copy, PartialEq, Eq, Structural)]
pub enum OutputMode {
    Table,
    List,
    Column,
    Line,
    Csv,
    Json,
}

/// The mode that a name in small letters stands for.
pub open spec fn mode_called(name: Seq<char>) -> Option<OutputMode> {
    if name == "table"@ {
        Some(OutputMode::Table)
    } else if name == "list"@ {
        Some(OutputMode::List)
    } else if name == "column"@ {
        Some(OutputMode::Column)
    } else if name == "line"@ {
        Some(OutputMode::Line)
    } else if name == "csv"@ {
        Some(OutputMode::Csv)
    } else if name == "json"@ {
        Some(OutputMode::Json)
    } else {
        None
    }
}

impl OutputMode {
    /// The mode with the given name, in small letters or capitals.
    pub fn parse(s: &str) -> (mode: Option<Self>)
        ensures
            mode == mode_called(lowered(s@)),
    {
        let name = to_ascii_lowercase(s);
        let name: &str = name.as_str();
        if same_text(name, "table") {
            Some(OutputMode::Table)
        } else if same_text(name, "list") {
            Some(OutputMode::List)
        } else if same_text(name, "column") {
            Some(OutputMode::Column)
        } else if same_text(name, "line") {
            Some(OutputMode::Line)
        } else if same_text(name, "csv") {
            Some(OutputMode::Csv)
        } else if same_text(name, "json") {
            Some(OutputMode::Json)
        } else {
            None
        }
    }
}

/// The views of a sequence of rows.
pub open spec fn grid(rows: Seq<Vec<String>>) -> Seq<Seq<Seq<char>>> {
    rows.map_values(|row: Vec<String>| texts(row@))
}

/// The larger of two numbers.
pub open spec fn larger(a: nat, b: nat) -> nat {
    if a < b {
        b
    } else {
        a
    }
}

/// What the size of a cell counts.
#[derive(Debug, Clone, Copy, PartialEq, Eq, Structural)]
pub enum Measure {
    Bytes,
    Chars,
}

/// The size of a text.
pub open spec fn size(m: Measure, s: Seq<char>) -> nat {
    match m {
        Measure::Bytes => byte_len(s),
        Measure::Chars => s.len(),
    }
}

fn size_of(m: Measure, s: &str) -> (n: usize)
    ensures
        n == size(m, s@),
{
    match m {
        Measure::Bytes => bytes_in(s),
        Measure::Chars => char_count(s),
    }
}

/// The size of the cell in column `i` of a row; zero if there is none.
pub open spec fn cell_size(m: Measure, row: Seq<Seq<char>>, i: int) -> nat {
    if 0 <= i < row.len() {
        size(m, row[i])
    } else {
        0
    }
}

/// The size of the largest cell in column `i`.
pub open spec fn largest_cell(m: Measure, rows: Seq<Seq<Seq<char>>>, i: int) -> nat
    decreases rows.len(),
{
    if rows.len() == 0 {
        0
    } else {
        larger(largest_cell(m, rows.drop_last(), i), cell_size(m, rows.last(), i))
    }
}

/// The widths of the columns: each as wide as its largest cell, and as its header
/// if headers count.
pub open spec fn widths(
    m: Measure,
    headers: Seq<Seq<char>>,
    rows: Seq<Seq<Seq<char>>>,
    headers_count: bool,
) -> Seq<nat> {
    Seq::new(
        headers.len(),
        |i: int|
            if headers_count {
                larger(size(m, headers[i]), largest_cell(m, rows, i))
            } else {
                largest_cell(m, rows, i)
            },
    )
}

/// `v` holds the numbers of `s`.
spec fn holds(v: Seq<usize>, s: Seq<nat>) -> bool {
    &&& v.len() == s.len()
    &&& forall|i: int| 0 <= i < v.len() ==> #[trigger] v[i] == s[i]
}

fn widen(m: Measure, widths: &mut Vec<usize>, row: &[String])
    ensures
        final(widths)@.len() == old(widths)@.len(),
        forall|i: int|
            0 <= i < old(widths)@.len() ==> #[trigger] final(widths)@[i] == larger(
                old(widths)@[i] as nat,
                cell_size(m, texts(row@), i),
            ),
{
    let mut i: usize = 0;
    while i < row.len() && i < widths.len()
        invariant
            i <= row@.len(),
            i <= widths@.len(),
            widths@.len() == old(widths)@.len(),
            forall|j: int|
                0 <= j < i ==> #[trigger] widths@[j] == larger(
                    old(widths)@[j] as nat,
                    cell_size(m, texts(row@), j),
                ),
            forall|j: int| i <= j < widths@.len() ==> #[trigger] widths@[j] == old(widths)@[j],
        decreases row@.len() - i,
    {
        let n = size_of(m, row[i].as_str());
        assert(texts(row@)[i as int] == row@[i as int]@);
        if widths[i] < n {
            widths.set(i, n);
        }
        i = i + 1;
    }
}

fn column_widths(
    m: Measure,
    headers: &[String],
    rows: &[Vec<String>],
    headers_count: bool,
) -> (v: Vec<usize>)
    ensures
        holds(v@, widths(m, texts(headers@), grid(rows@), headers_count)),
{
    let mut v: Vec<usize> = Vec::new();
    for i in 0..headers.len()
        invariant
            holds(v@, widths(m, texts(headers@).take(i as int), seq![], headers_count)),
    {
        let ghost before = widths(m, texts(headers@).take(i as int), seq![], headers_count);
        let ghost after = widths(m, texts(headers@).take(i + 1), seq![], headers_count);
        assert(forall|j: int| 0 <= j < i ==> before[j] == after[j]);
        if headers_count {
            v.push(size_of(m, headers[i].as_str()));
        } else {
            v.push(0);
        }
    }
    proof {
        assert(texts(headers@).take(headers@.len() as int) == texts(headers@));
    }
    for k in 0..rows.len()
        invariant
            holds(v@, widths(m, texts(headers@), grid(rows@).take(k as int), headers_count)),
    {
        assert(grid(rows@).take(k + 1).drop_last() == grid(rows@).take(k as int));
        assert(grid(rows@).take(k + 1).last() == texts(rows@[k as int]@));
        widen(m, &mut v, rows[k].as_slice());
    }
    proof {
        assert(grid(rows@).take(rows@.len() as int) == grid(rows@));
    }
    v
}

/// For each column a bar two wider than the column.
pub open spec fn bars(widths: Seq<nat>) -> Seq<Seq<char>> {
    Seq::new(widths.len(), |i: int| repeated('─', widths[i] as int + 2))
}

/// A horizontal line of a table.
pub open spec fn border(widths: Seq<nat>, left: char, mid: char, right: char) -> Seq<char> {
    seq![left] + join(bars(widths), seq![mid]) + seq![right, '\n']
}

/// The width at which a cell of a table is padded: that of its column, or its own
/// size if there is no such column.
pub open spec fn table_width(cells: Seq<Seq<char>>, widths: Seq<nat>, i: int) -> nat {
    if i < widths.len() {
        widths[i]
    } else {
        byte_len(cells[i])
    }
}

/// The cells of a line of a table, each with the bar behind it.
pub open spec fn table_cells(cells: Seq<Seq<char>>, widths: Seq<nat>) -> Seq<Seq<char>> {
    Seq::new(
        cells.len(),
        |i: int|
            seq![' '] + padded(cells[i], table_width(cells, widths, i) as int) + seq![' ', '│'],
    )
}

/// A line of a table with the given cells.
pub open spec fn table_line(cells: Seq<Seq<char>>, widths: Seq<nat>) -> Seq<char> {
    seq!['│'] + concat(table_cells(cells, widths)) + seq!['\n']
}

/// The lines of a table for its rows.
pub open spec fn table_lines(rows: Seq<Seq<Seq<char>>>, widths: Seq<nat>) -> Seq<Seq<char>> {
    Seq::new(rows.len(), |k: int| table_line(rows[k], widths))
}

/// A table drawn with lines: a border, the headers, a border, the rows, a border.
pub open spec fn table_text(headers: Seq<Seq<char>>, rows: Seq<Seq<Seq<char>>>) -> Seq<char> {
    if headers.len() == 0 {
        seq![]
    } else {
        let w = widths(Measure::Bytes, headers, rows, true);
        border(w, '┌', '┬', '┐') + table_line(headers, w) + border(w, '├', '┼', '┤') + concat(
            table_lines(rows, w),
        ) + border(w, '└', '┴', '┘')
    }
}

fn push_border(out: &mut String, widths: &Vec<usize>, left: char, mid: char, right: char, w: Ghost<
    Seq<nat>,
>)
    requires
        holds(widths@, w@),
    ensures
        final(out)@ == old(out)@ + border(w@, left, mid, right),
{
    let ghost start = out@;
    let ghost bars = self::bars(w@);
    out.push(left);
    for i in 0..widths.len()
        invariant
            holds(widths@, w@),
            bars == self::bars(w@),
            out@ == start + (seq![left] + join(bars.take(i as int), seq![mid])),
    {
        proof {
            assert(bars.take(i + 1).drop_last() == bars.take(i as int));
            assert(bars.take(i + 1).last() == repeated('─', w@[i as int] as int + 2));
        }
        if i > 0 {
            out.push(mid);
        }
        push_repeated(out, '─', widths[i]);
        out.push('─');
        out.push('─');
        proof {
            assert(repeated('─', widths@[i as int] as int).push('─').push('─') == repeated(
                '─',
                w@[i as int] as int + 2,
            ));
            assert(out@ =~= start + (seq![left] + join(bars.take(i + 1), seq![mid])));
        }
    }
    assert(bars.take(bars.len() as int) == bars);
    out.push(right);
    out.push('\n');
    assert(out@ =~= start + border(w@, left, mid, right));
}

fn push_table_line(out: &mut String, cells: &[String], widths: &Vec<usize>, w: Ghost<Seq<nat>>)
    requires
        holds(widths@, w@),
    ensures
        final(out)@ == old(out)@ + table_line(texts(cells@), w@),
{
    let ghost start = out@;
    let ghost row = texts(cells@);
    let ghost parts = table_cells(row, w@);
    out.push('│');
    for i in 0..cells.len()
        invariant
            holds(widths@, w@),
            row == texts(cells@),
            parts == table_cells(row, w@),
            out@ == start + (seq!['│'] + concat(parts.take(i as int))),
    {
        proof {
            assert(parts.take(i + 1).drop_last() == parts.take(i as int));
            assert(parts.take(i + 1).last() == parts[i as int]);
        }
        let width = if i < widths.len() {
            widths[i]
        } else {
            bytes_in(cells[i].as_str())
        };
        out.push(' ');
        push_padded(out, cells[i].as_str(), width);
        out.push(' ');
        out.push('│');
        assert(out@ =~= start + (seq!['│'] + concat(parts.take(i + 1))));
    }
    assert(parts.take(parts.len() as int) == parts);
    out.push('\n');
    assert(out@ =~= start + table_line(row, w@));
}

/// A table drawn with lines, headers included.
pub fn render_table(headers: &[String], rows: &[Vec<String>]) -> (out: String)
    ensures
        out@ == table_text(texts(headers@), grid(rows@)),
{
    let mut out = String::new();
    if headers.len() == 0 {
        return out;
    }
    let v = column_widths(Measure::Bytes, headers, rows, true);
    let ghost w = widths(Measure::Bytes, texts(headers@), grid(rows@), true);
    let ghost top = border(w, '┌', '┬', '┐') + table_line(texts(headers@), w) + border(
        w,
        '├',
        '┼',
        '┤',
    );
    let ghost lines = table_lines(grid(rows@), w);
    push_border(&mut out, &v, '┌', '┬', '┐', Ghost(w));
    push_table_line(&mut out, headers, &v, Ghost(w));
    push_border(&mut out, &v, '├', '┼', '┤', Ghost(w));
    assert(out@ =~= top + concat(lines.take(0)));
    for k in 0..rows.len()
        invariant
            holds(v@, w),
            lines == table_lines(grid(rows@), w),
            out@ == top + concat(lines.take(k as int)),
    {
        proof {
            assert(lines.take(k + 1).drop_last() == lines.take(k as int));
            assert(lines.take(k + 1).last() == table_line(texts(rows@[k as int]@), w));
        }
        push_table_line(&mut out, rows[k].as_slice(), &v, Ghost(w));
        assert(out@ =~= top + concat(lines.take(k + 1)));
    }
    assert(lines.take(lines.len() as int) == lines);
    push_border(&mut out, &v, '└', '┴', '┘', Ghost(w));
    out
}

/// The hexadecimal digit for `d`, which is less than sixteen.
pub open spec fn hex_digit(d: int) -> char {
    if d < 10 {
        ('0' as int + d) as char
    } else {
        ('a' as int + (d - 10)) as char
    }
}

/// How a character stands in a JSON string: control characters are escaped, as are
/// quotes and backslashes.
pub open spec fn json_char(c: char) -> Seq<char> {
    if c == '"' {
        seq!['\\', '"']
    } else if c == '\\' {
        seq!['\\', '\\']
    } else if c == '\n' {
        seq!['\\', 'n']
    } else if c == '\t' {
        seq!['\\', 't']
    } else if c == '\r' {
        seq!['\\', 'r']
    } else if c == '\u{8}' {
        seq!['\\', 'b']
    } else if c == '\u{c}' {
        seq!['\\', 'f']
    } else if c <= '\u{1f}' {
        seq!['\\', 'u', '0', '0', hex_digit(c as int / 16), hex_digit(c as int % 16)]
    } else {
        seq![c]
    }
}

/// How the characters of `s` stand in a JSON string.
pub open spec fn json_chars(s: Seq<char>) -> Seq<Seq<char>> {
    Seq::new(s.len(), |i: int| json_char(s[i]))
}

/// `s` as a JSON string, quotes included.
pub open spec fn json_quoted(s: Seq<char>) -> Seq<char> {
    seq!['"'] + concat(json_chars(s)) + seq!['"']
}

fn push_hex_digit(out: &mut String, d: u8)
    requires
        d < 16,
    ensures
        final(out)@ == old(out)@.push(hex_digit(d as int)),
{
    if d < 10 {
        out.push((48u8 + d) as char);
    } else {
        out.push((97u8 + (d - 10)) as char);
    }
}

fn push_json_char(out: &mut String, c: char)
    ensures
        final(out)@ == old(out)@ + json_char(c),
{
    if c == '"' {
        out.append("\\\"");
    } else if c == '\\' {
        out.append("\\\\");
    } else if c == '\n' {
        out.append("\\n");
    } else if c == '\t' {
        out.append("\\t");
    } else if c == '\r' {
        out.append("\\r");
    } else if c == '\u{8}' {
        out.append("\\b");
    } else if c == '\u{c}' {
        out.append("\\f");
    } else if c <= '\u{1f}' {
        let code = c as u8;
        out.append("\\u00");
        push_hex_digit(out, code / 16);
        push_hex_digit(out, code % 16);
    } else {
        out.push(c);
    }
    proof {
        reveal_strlit("\\\"");
        reveal_strlit("\\\\");
        reveal_strlit("\\n");
        reveal_strlit("\\t");
        reveal_strlit("\\r");
        reveal_strlit("\\b");
        reveal_strlit("\\f");
        reveal_strlit("\\u00");
        assert(out@ =~= old(out)@ + json_char(c));
    }
}

/// `s` as a JSON string, quotes included.
pub fn json_string(s: &str) -> (out: String)
    ensures
        out@ == json_quoted(s@),
{
    let ghost parts = json_chars(s@);
    let mut out = String::new();
    out.push('"');
    for c in it: s.chars()
        invariant
            it.seq() == s@,
            parts == json_chars(s@),
            out@ == seq!['"'] + concat(parts.take(it.index())),
    {
        let ghost before = out@;
        push_json_char(&mut out, c);
        proof {
            let i = it.index();
            assert(parts.take(i + 1).drop_last() == parts.take(i));
            assert(parts.take(i + 1).last() == json_char(c));
            assert(out@ =~= seq!['"'] + concat(parts.take(i + 1)));
        }
    }
    proof {
        assert(parts.take(parts.len() as int) == parts);
    }
    out.push('"');
    out
}

/// The cell in column `i` of a row, empty if there is none.
pub open spec fn cell_at(row: Seq<Seq<char>>, i: int) -> Seq<char> {
    if 0 <= i < row.len() {
        row[i]
    } else {
        seq![]
    }
}

/// The fields of a JSON object for a row, one for each header.
pub open spec fn json_fields(headers: Seq<Seq<char>>, row: Seq<Seq<char>>) -> Seq<Seq<char>> {
    Seq::new(
        headers.len(),
        |i: int| json_quoted(headers[i]) + ": "@ + json_quoted(cell_at(row, i)),
    )
}

/// A row as a JSON object.
pub open spec fn json_object(headers: Seq<Seq<char>>, row: Seq<Seq<char>>) -> Seq<char> {
    "  {"@ + join(json_fields(headers, row), ", "@) + seq!['}']
}

/// The lines of a JSON array for its rows.
pub open spec fn json_lines(headers: Seq<Seq<char>>, rows: Seq<Seq<Seq<char>>>) -> Seq<Seq<char>> {
    Seq::new(
        rows.len(),
        |k: int|
            json_object(headers, rows[k]) + (if k + 1 < rows.len() {
                seq![',', '\n']
            } else {
                seq!['\n']
            }),
    )
}

/// The rows as a JSON array of objects, one on each line.
pub open spec fn json_text(headers: Seq<Seq<char>>, rows: Seq<Seq<Seq<char>>>) -> Seq<char> {
    "[\n"@ + concat(json_lines(headers, rows)) + seq![']']
}

fn push_json_object(out: &mut String, headers: &[String], row: &[String])
    ensures
        final(out)@ == old(out)@ + json_object(texts(headers@), texts(row@)),
{
    let ghost start = out@;
    let ghost names = texts(headers@);
    let ghost cells = texts(row@);
    let ghost fields = json_fields(names, cells);
    out.append("  {");
    for i in 0..headers.len()
        invariant
            names == texts(headers@),
            cells == texts(row@),
            fields == json_fields(names, cells),
            out@ == start + ("  {"@ + join(fields.take(i as int), ", "@)),
    {
        proof {
            assert(fields.take(i + 1).drop_last() == fields.take(i as int));
            assert(fields.take(i + 1).last() == fields[i as int]);
        }
        if i > 0 {
            out.append(", ");
        }
        let name = json_string(headers[i].as_str());
        let cell = if i < row.len() {
            json_string(row[i].as_str())
        } else {
            json_string("")
        };
        proof {
            reveal_strlit("");
            assert(cell@ == json_quoted(cell_at(cells, i as int))) by {
                assert(""@ =~= Seq::<char>::empty());
            }
        }
        out.append(name.as_str());
        out.append(": ");
        out.append(cell.as_str());
        assert(out@ =~= start + ("  {"@ + join(fields.take(i + 1), ", "@)));
    }
    assert(fields.take(fields.len() as int) == fields);
    out.push('}');
    assert(out@ =~= start + json_object(names, cells));
}

/// The rows as a JSON array of objects, headers as keys and all values as strings.
pub fn render_json(headers: &[String], rows: &[Vec<String>]) -> (out: String)
    ensures
        out@ == json_text(texts(headers@), grid(rows@)),
{
    let ghost names = texts(headers@);
    let ghost table = grid(rows@);
    let ghost lines = json_lines(names, table);
    let mut out = String::new();
    out.append("[\n");
    assert(out@ =~= "[\n"@ + concat(lines.take(0)));
    for k in 0..rows.len()
        invariant
            names == texts(headers@),
            table == grid(rows@),
            lines == json_lines(names, table),
            out@ == "[\n"@ + concat(lines.take(k as int)),
    {
        proof {
            assert(lines.take(k + 1).drop_last() == lines.take(k as int));
            assert(lines.take(k + 1).last() == lines[k as int]);
            assert(table[k as int] == texts(rows@[k as int]@));
        }
        push_json_object(&mut out, headers, rows[k].as_slice());
        if k + 1 < rows.len() {
            out.push(',');
        }
        out.push('\n');
        assert(out@ =~= "[\n"@ + concat(lines.take(k + 1)));
    }
    assert(lines.take(lines.len() as int) == lines);
    out.push(']');
    out
}

/// Whether a CSV field needs quotes.
pub open spec fn csv_special(field: Seq<char>) -> bool {
    field.contains(',') || field.contains('"') || field.contains('\n')
}

/// The characters of a quoted CSV field, with each quote doubled.
pub open spec fn csv_chars(field: Seq<char>) -> Seq<Seq<char>> {
    Seq::new(
        field.len(),
        |i: int|
            if field[i] == '"' {
                seq!['"', '"']
            } else {
                seq![field[i]]
            },
    )
}

/// A CSV field: in quotes if it needs them, and otherwise as it is.
pub open spec fn csv_quoted(field: Seq<char>) -> Seq<char> {
    if csv_special(field) {
        seq!['"'] + concat(csv_chars(field)) + seq!['"']
    } else {
        field
    }
}

/// The fields of a CSV line.
pub open spec fn csv_fields(fields: Seq<Seq<char>>) -> Seq<Seq<char>> {
    Seq::new(fields.len(), |i: int| csv_quoted(fields[i]))
}

/// A CSV line, without its end.
pub open spec fn csv_line(fields: Seq<Seq<char>>) -> Seq<char> {
    join(csv_fields(fields), ","@)
}

/// The CSV lines for the rows.
pub open spec fn csv_lines(rows: Seq<Seq<Seq<char>>>) -> Seq<Seq<char>> {
    Seq::new(rows.len(), |k: int| csv_line(rows[k]).push('\n'))
}

/// The rows as CSV, behind a line with the headers if they are to be shown.
pub open spec fn csv_text(
    headers: Seq<Seq<char>>,
    rows: Seq<Seq<Seq<char>>>,
    show_headers: bool,
) -> Seq<char> {
    (if show_headers {
        csv_line(headers).push('\n')
    } else {
        seq![]
    }) + concat(csv_lines(rows))
}

/// A CSV field, in quotes if it holds a comma, a quote or a line feed.
pub fn csv_field(field: &str) -> (out: String)
    ensures
        out@ == csv_quoted(field@),
{
    let chars = chars_of(field);
    let mut special = false;
    for i in 0..chars.len()
        invariant
            chars@ == field@,
            special == exists|j: int|
                0 <= j < i && (#[trigger] field@[j] == ',' || field@[j] == '"' || field@[j] == '\n'),
    {
        if chars[i] == ',' || chars[i] == '"' || chars[i] == '\n' {
            special = true;
        }
    }
    proof {
        if special {
            let j = choose|j: int|
                0 <= j < field@.len() && (#[trigger] field@[j] == ',' || field@[j] == '"'
                    || field@[j] == '\n');
            assert(field@.contains(field@[j]));
        }
        assert(special == csv_special(field@));
    }
    if !special {
        return field.to_string();
    }
    let ghost parts = csv_chars(field@);
    let mut out = String::new();
    out.push('"');
    assert(out@ =~= seq!['"'] + concat(parts.take(0)));
    for i in 0..chars.len()
        invariant
            chars@ == field@,
            parts == csv_chars(field@),
            out@ == seq!['"'] + concat(parts.take(i as int)),
    {
        proof {
            assert(parts.take(i + 1).drop_last() == parts.take(i as int));
            assert(parts.take(i + 1).last() == parts[i as int]);
        }
        if chars[i] == '"' {
            out.push('"');
        }
        out.push(chars[i]);
        assert(out@ =~= seq!['"'] + concat(parts.take(i + 1)));
    }
    assert(parts.take(parts.len() as int) == parts);
    out.push('"');
    out
}

/// A CSV line with the given fields, without its end.
pub fn csv_row(fields: &[String]) -> (out: String)
    ensures
        out@ == csv_line(texts(fields@)),
{
    let ghost parts = csv_fields(texts(fields@));
    let mut out = String::new();
    for i in 0..fields.len()
        invariant
            parts == csv_fields(texts(fields@)),
            out@ == join(parts.take(i as int), ","@),
    {
        proof {
            assert(parts.take(i + 1).drop_last() == parts.take(i as int));
            assert(parts.take(i + 1).last() == csv_quoted(texts(fields@)[i as int]));
        }
        if i > 0 {
            out.append(",");
        }
        let field = csv_field(fields[i].as_str());
        out.append(field.as_str());
    }
    assert(parts.take(parts.len() as int) == parts);
    out
}

/// The rows as CSV.
pub fn render_csv(headers: &[String], rows: &[Vec<String>], show_headers: bool) -> (out: String)
    ensures
        out@ == csv_text(texts(headers@), grid(rows@), show_headers),
{
    let mut out = String::new();
    if show_headers {
        out.append(csv_row(headers).as_str());
        out.push('\n');
    }
    let ghost top = out@;
    let ghost lines = csv_lines(grid(rows@));
    assert(top =~= if show_headers {
        csv_line(texts(headers@)).push('\n')
    } else {
        seq![]
    });
    assert(out@ =~= top + concat(lines.take(0)));
    for k in 0..rows.len()
        invariant
            lines == csv_lines(grid(rows@)),
            out@ == top + concat(lines.take(k as int)),
    {
        proof {
            assert(lines.take(k + 1).drop_last() == lines.take(k as int));
            assert(lines.take(k + 1).last() == csv_line(grid(rows@)[k as int]).push('\n'));
        }
        out.append(csv_row(rows[k].as_slice()).as_str());
        out.push('\n');
        assert(out@ =~= top + concat(lines.take(k + 1)));
    }
    assert(lines.take(lines.len() as int) == lines);
    out
}

/// The lines of a list for the rows: the cells of a row with bars between them.
pub open spec fn list_lines(rows: Seq<Seq<Seq<char>>>) -> Seq<Seq<char>> {
    Seq::new(rows.len(), |k: int| join(rows[k], "|"@).push('\n'))
}

/// The rows as a list, behind a line with the headers if they are to be shown.
pub open spec fn list_text(
    headers: Seq<Seq<char>>,
    rows: Seq<Seq<Seq<char>>>,
    show_headers: bool,
) -> Seq<char> {
    (if show_headers {
        join(headers, "|"@).push('\n')
    } else {
        seq![]
    }) + concat(list_lines(rows))
}

/// The rows as a list, with bars between the cells.
pub fn render_list(headers: &[String], rows: &[Vec<String>], show_headers: bool) -> (out: String)
    ensures
        out@ == list_text(texts(headers@), grid(rows@), show_headers),
{
    let mut out = String::new();
    if show_headers {
        out.append(joined(headers, "|").as_str());
        out.push('\n');
    }
    let ghost top = out@;
    let ghost lines = list_lines(grid(rows@));
    assert(top =~= if show_headers {
        join(texts(headers@), "|"@).push('\n')
    } else {
        seq![]
    });
    assert(out@ =~= top + concat(lines.take(0)));
    for k in 0..rows.len()
        invariant
            lines == list_lines(grid(rows@)),
            out@ == top + concat(lines.take(k as int)),
    {
        proof {
            assert(lines.take(k + 1).drop_last() == lines.take(k as int));
            assert(lines.take(k + 1).last() == join(grid(rows@)[k as int], "|"@).push('\n'));
        }
        out.append(joined(rows[k].as_slice(), "|").as_str());
        out.push('\n');
        assert(out@ =~= top + concat(lines.take(k + 1)));
    }
    assert(lines.take(lines.len() as int) == lines);
    out
}

/// The width of column `i`, zero if there is no such column.
pub open spec fn width_at(widths: Seq<nat>, i: int) -> nat {
    if 0 <= i < widths.len() {
        widths[i]
    } else {
        0
    }
}

/// The cells of a line in columns: each padded to its column and two spaces more,
/// but for the last column.
pub open spec fn column_cells(cells: Seq<Seq<char>>, widths: Seq<nat>) -> Seq<Seq<char>> {
    Seq::new(
        cells.len(),
        |i: int|
            if i + 1 == widths.len() {
                cells[i]
            } else {
                padded(cells[i], width_at(widths, i) as int) + "  "@
            },
    )
}

/// A line in columns.
pub open spec fn column_line(cells: Seq<Seq<char>>, widths: Seq<nat>) -> Seq<char> {
    concat(column_cells(cells, widths)).push('\n')
}

/// The lines in columns for the rows.
pub open spec fn column_lines(rows: Seq<Seq<Seq<char>>>, widths: Seq<nat>) -> Seq<Seq<char>> {
    Seq::new(rows.len(), |k: int| column_line(rows[k], widths))
}

/// For each column a row of dashes as wide as the column.
pub open spec fn dashes(widths: Seq<nat>) -> Seq<Seq<char>> {
    Seq::new(widths.len(), |i: int| repeated('-', widths[i] as int))
}

/// The rows in columns, behind the headers and a line of dashes if the headers are
/// to be shown; then the headers count for the widths too. Each column is as wide as
/// the longest text in it has characters.
pub open spec fn column_text(
    headers: Seq<Seq<char>>,
    rows: Seq<Seq<Seq<char>>>,
    show_headers: bool,
) -> Seq<char> {
    let w = widths(Measure::Chars, headers, rows, show_headers);
    (if show_headers {
        column_line(headers, w) + column_line(dashes(w), w)
    } else {
        seq![]
    }) + concat(column_lines(rows, w))
}

fn push_column_line(out: &mut String, cells: &[String], widths: &Vec<usize>, w: Ghost<Seq<nat>>)
    requires
        holds(widths@, w@),
    ensures
        final(out)@ == old(out)@ + column_line(texts(cells@), w@),
{
    let ghost start = out@;
    let ghost parts = column_cells(texts(cells@), w@);
    for i in 0..cells.len()
        invariant
            holds(widths@, w@),
            parts == column_cells(texts(cells@), w@),
            out@ == start + concat(parts.take(i as int)),
    {
        proof {
            assert(parts.take(i + 1).drop_last() == parts.take(i as int));
            assert(parts.take(i + 1).last() == parts[i as int]);
            assert(texts(cells@)[i as int] == cells@[i as int]@);
        }
        let width: usize = if i < widths.len() {
            widths[i]
        } else {
            0
        };
        if i + 1 == widths.len() {
            out.append(cells[i].as_str());
        } else {
            push_padded(out, cells[i].as_str(), width);
            out.append("  ");
        }
        assert(out@ =~= start + concat(parts.take(i + 1)));
    }
    assert(parts.take(parts.len() as int) == parts);
    out.push('\n');
    assert(out@ =~= start + column_line(texts(cells@), w@));
}

/// The rows in columns, each as wide as its longest value, two spaces apart.
pub fn render_column(headers: &[String], rows: &[Vec<String>], show_headers: bool) -> (out: String)
    ensures
        out@ == column_text(texts(headers@), grid(rows@), show_headers),
{
    let v = column_widths(Measure::Chars, headers, rows, show_headers);
    let ghost w = widths(Measure::Chars, texts(headers@), grid(rows@), show_headers);
    let mut out = String::new();
    if show_headers {
        push_column_line(&mut out, headers, &v, Ghost(w));
        let mut bars: Vec<String> = Vec::new();
        for i in 0..v.len()
            invariant
                holds(v@, w),
                texts(bars@) == dashes(w).take(i as int),
        {
            let mut bar = String::new();
            push_repeated(&mut bar, '-', v[i]);
            assert(bar@ =~= dashes(w)[i as int]);
            let ghost before = bars@;
            bars.push(bar);
            assert(texts(bars@) =~= texts(before).push(bar@));
            assert(dashes(w).take(i + 1) =~= dashes(w).take(i as int).push(dashes(w)[i as int]));
        }
        assert(dashes(w).take(v@.len() as int) =~= dashes(w));
        push_column_line(&mut out, bars.as_slice(), &v, Ghost(w));
    }
    let ghost top = out@;
    let ghost lines = column_lines(grid(rows@), w);
    assert(top =~= if show_headers {
        column_line(texts(headers@), w) + column_line(dashes(w), w)
    } else {
        seq![]
    });
    assert(out@ =~= top + concat(lines.take(0)));
    for k in 0..rows.len()
        invariant
            holds(v@, w),
            lines == column_lines(grid(rows@), w),
            out@ == top + concat(lines.take(k as int)),
    {
        proof {
            assert(lines.take(k + 1).drop_last() == lines.take(k as int));
            assert(lines.take(k + 1).last() == column_line(texts(rows@[k as int]@), w));
        }
        push_column_line(&mut out, rows[k].as_slice(), &v, Ghost(w));
        assert(out@ =~= top + concat(lines.take(k + 1)));
    }
    assert(lines.take(lines.len() as int) == lines);
    out
}

/// The size of the largest of `names`, in bytes.
pub open spec fn largest_name(names: Seq<Seq<char>>) -> nat
    decreases names.len(),
{
    if names.len() == 0 {
        0
    } else {
        larger(largest_name(names.drop_last()), byte_len(names.last()))
    }
}

/// The values of a row, each on a line behind the name of its column.
pub open spec fn labelled(headers: Seq<Seq<char>>, row: Seq<Seq<char>>) -> Seq<Seq<char>> {
    Seq::new(
        row.len(),
        |i: int|
            padded(cell_at(headers, i), largest_name(headers) as int) + " = "@ + row[i] + seq![
                '\n',
            ],
    )
}

/// The labelled lines of each row, behind an empty line for all but the first.
pub open spec fn line_blocks(headers: Seq<Seq<char>>, rows: Seq<Seq<Seq<char>>>) -> Seq<Seq<char>> {
    Seq::new(
        rows.len(),
        |k: int|
            (if k > 0 {
                seq!['\n']
            } else {
                seq![]
            }) + concat(labelled(headers, rows[k])),
    )
}

/// The rows value by value.
pub open spec fn line_text(headers: Seq<Seq<char>>, rows: Seq<Seq<Seq<char>>>) -> Seq<char> {
    concat(line_blocks(headers, rows))
}

fn push_labelled(out: &mut String, headers: &[String], name_width: usize, row: &[String])
    requires
        name_width == largest_name(texts(headers@)),
    ensures
        final(out)@ == old(out)@ + concat(labelled(texts(headers@), texts(row@))),
{
    let ghost start = out@;
    let ghost parts = labelled(texts(headers@), texts(row@));
    for i in 0..row.len()
        invariant
            name_width == largest_name(texts(headers@)),
            parts == labelled(texts(headers@), texts(row@)),
            out@ == start + concat(parts.take(i as int)),
    {
        proof {
            assert(parts.take(i + 1).drop_last() == parts.take(i as int));
            assert(parts.take(i + 1).last() == parts[i as int]);
            assert(texts(row@)[i as int] == row@[i as int]@);
            reveal_strlit("");
            assert(""@ =~= Seq::<char>::empty());
        }
        let name: &str = if i < headers.len() {
            headers[i].as_str()
        } else {
            ""
        };
        push_padded(out, name, name_width);
        out.append(" = ");
        out.append(row[i].as_str());
        out.push('\n');
        assert(out@ =~= start + concat(parts.take(i + 1)));
    }
    assert(parts.take(parts.len() as int) == parts);
}

/// The rows value by value, each behind the name of its column, with an empty line
/// between rows.
pub fn render_line(headers: &[String], rows: &[Vec<String>]) -> (out: String)
    ensures
        out@ == line_text(texts(headers@), grid(rows@)),
{
    let ghost names = texts(headers@);
    let mut name_width: usize = 0;
    for i in 0..headers.len()
        invariant
            names == texts(headers@),
            name_width == largest_name(names.take(i as int)),
    {
        assert(names.take(i + 1).drop_last() == names.take(i as int));
        let n = bytes_in(headers[i].as_str());
        if name_width < n {
            name_width = n;
        }
    }
    assert(names.take(names.len() as int) == names);
    let ghost blocks = line_blocks(names, grid(rows@));
    let mut out = String::new();
    for k in 0..rows.len()
        invariant
            names == texts(headers@),
            name_width == largest_name(names),
            blocks == line_blocks(names, grid(rows@)),
            out@ == concat(blocks.take(k as int)),
    {
        proof {
            assert(blocks.take(k + 1).drop_last() == blocks.take(k as int));
            assert(blocks.take(k + 1).last() == blocks[k as int]);
            assert(grid(rows@)[k as int] == texts(rows@[k as int]@));
        }
        if k > 0 {
            out.push('\n');
        }
        push_labelled(&mut out, headers, name_width, rows[k].as_slice());
        assert(out@ =~= concat(blocks.take(k + 1)));
    }
    assert(blocks.take(blocks.len() as int) == blocks);
    out
}

/// Headers and rows in a given mode.
pub open spec fn rendered(
    mode: OutputMode,
    headers: Seq<Seq<char>>,
    rows: Seq<Seq<Seq<char>>>,
    show_headers: bool,
) -> Seq<char> {
    match mode {
        OutputMode::Table => table_text(headers, rows),
        OutputMode::Json => json_text(headers, rows),
        OutputMode::Csv => csv_text(headers, rows, show_headers),
        OutputMode::List => list_text(headers, rows, show_headers),
        OutputMode::Column => column_text(headers, rows, show_headers),
        OutputMode::Line => line_text(headers, rows),
    }
}

/// Renders headers and rows in the given mode. A list, columns and CSV show the
/// headers only if told to; a table and JSON always do, and line by line every
/// value has its name.
pub fn render(
    mode: OutputMode,
    headers: &[String],
    rows: &[Vec<String>],
    show_headers: bool,
) -> (out: String)
    ensures
        out@ == rendered(mode, texts(headers@), grid(rows@), show_headers),
{
    match mode {
        OutputMode::Table => render_table(headers, rows),
        OutputMode::Json => render_json(headers, rows),
        OutputMode::Csv => render_csv(headers, rows, show_headers),
        OutputMode::List => render_list(headers, rows, show_headers),
        OutputMode::Column => render_column(headers, rows, show_headers),
        OutputMode::Line => render_line(headers, rows),
    }
}

} // verus!
