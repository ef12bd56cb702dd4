//! What a reader gets out of results that were rendered as JSON.

use vstd::prelude::*;

use crate::output::{
    cell_at, hex_digit, json_char, json_chars, json_fields, json_lines, json_object, json_quoted,
    json_text,
};
use crate::text::{concat, join};

verus! {

/// Where within a string a reader stands.
pub enum Spelling {
    /// Between two characters.
    Plain,
    /// Behind a backslash.
    Escape,
    /// Behind some digits of the code of a character, and what they come to.
    Code(int, int),
}

/// Where within a JSON array of objects a reader stands.
pub enum JsonPlace {
    /// Before the array.
    Start,
    /// Before the first object.
    FirstRow,
    /// Behind an object.
    NextRow,
    /// Behind the comma between two objects.
    MoreRows,
    /// Before the first field of an object.
    FirstField,
    /// Behind a field.
    NextField,
    /// Behind the comma between two fields.
    MoreFields,
    /// Within the name of a field.
    Name(Spelling),
    /// Behind the name of a field.
    Colon,
    /// Behind the colon.
    BeforeValue,
    /// Within the value of a field.
    Value(Spelling),
    /// Behind the array.
    End,
    /// Behind something that does not belong there.
    Lost,
}

/// What has been read: the objects that are complete, each with the names and the
/// values of its fields, then the fields of the object that is not, and the name
/// and the text that are being read.
pub struct JsonReading {
    pub place: JsonPlace,
    pub rows: Seq<Seq<(Seq<char>, Seq<char>)>>,
    pub fields: Seq<(Seq<char>, Seq<char>)>,
    pub name: Seq<char>,
    pub text: Seq<char>,
}

/// The character that a backslash and `c` stand for, if they stand for one.
pub open spec fn escaped(c: char) -> Option<char> {
    if c == '"' || c == '\\' || c == '/' {
        Some(c)
    } else if c == 'b' {
        Some('\u{8}')
    } else if c == 'f' {
        Some('\u{c}')
    } else if c == 'n' {
        Some('\n')
    } else if c == 'r' {
        Some('\r')
    } else if c == 't' {
        Some('\t')
    } else {
        None
    }
}

/// The number that a hexadecimal digit stands for.
pub open spec fn hex_value(c: char) -> Option<int> {
    if '0' <= c <= '9' {
        Some(c as int - '0' as int)
    } else if 'a' <= c <= 'f' {
        Some(c as int - 'a' as int + 10)
    } else if 'A' <= c <= 'F' {
        Some(c as int - 'A' as int + 10)
    } else {
        None
    }
}

/// What one more character of a string comes to.
pub enum Spelled {
    /// The end of the string.
    End,
    /// A part of a character.
    Part(Spelling),
    /// A character.
    Char(char),
    /// Nothing that may stand in a string.
    Wrong,
}

/// One more character of a string. No control character may stand there as it is. Of
/// codes, only those that stand for a character by themselves are read.
pub open spec fn spelled(spelling: Spelling, c: char) -> Spelled {
    match spelling {
        Spelling::Plain => if c == '"' {
            Spelled::End
        } else if c == '\\' {
            Spelled::Part(Spelling::Escape)
        } else if c <= '\u{1f}' {
            Spelled::Wrong
        } else {
            Spelled::Char(c)
        },
        Spelling::Escape => if c == 'u' {
            Spelled::Part(Spelling::Code(0, 0))
        } else {
            match escaped(c) {
                Some(e) => Spelled::Char(e),
                None => Spelled::Wrong,
            }
        },
        Spelling::Code(n, code) => match hex_value(c) {
            Some(d) => {
                let next = 16 * code + d;
                if n < 3 {
                    Spelled::Part(Spelling::Code(n + 1, next))
                } else if 0xd800 <= next <= 0xdfff {
                    Spelled::Wrong
                } else {
                    Spelled::Char(next as char)
                }
            },
            None => Spelled::Wrong,
        },
    }
}

impl JsonReading {
    /// The same, elsewhere.
    pub open spec fn at(self, place: JsonPlace) -> JsonReading {
        JsonReading { place, ..self }
    }

    /// One more character of a name or a value.
    pub open spec fn more(self, c: char) -> JsonReading {
        JsonReading { text: self.text.push(c), ..self }
    }

    /// The name is complete.
    pub open spec fn end_name(self) -> JsonReading {
        JsonReading { place: JsonPlace::Colon, name: self.text, text: seq![], ..self }
    }

    /// The field is complete.
    pub open spec fn end_field(self) -> JsonReading {
        JsonReading {
            place: JsonPlace::NextField,
            rows: self.rows,
            fields: self.fields.push((self.name, self.text)),
            name: seq![],
            text: seq![],
        }
    }

    /// The object is complete.
    pub open spec fn end_row(self) -> JsonReading {
        JsonReading {
            place: JsonPlace::NextRow,
            rows: self.rows.push(self.fields),
            fields: seq![],
            ..self
        }
    }

    /// Reads one character.
    pub open spec fn step(self, c: char) -> JsonReading {
        let space = c == ' ' || c == '\n' || c == '\r' || c == '\t';
        match self.place {
            JsonPlace::Name(spelling) => match spelled(spelling, c) {
                Spelled::End => self.end_name(),
                Spelled::Part(next) => self.at(JsonPlace::Name(next)),
                Spelled::Char(e) => self.at(JsonPlace::Name(Spelling::Plain)).more(e),
                Spelled::Wrong => self.at(JsonPlace::Lost),
            },
            JsonPlace::Value(spelling) => match spelled(spelling, c) {
                Spelled::End => self.end_field(),
                Spelled::Part(next) => self.at(JsonPlace::Value(next)),
                Spelled::Char(e) => self.at(JsonPlace::Value(Spelling::Plain)).more(e),
                Spelled::Wrong => self.at(JsonPlace::Lost),
            },
            _ if space => self,
            JsonPlace::Start if c == '[' => self.at(JsonPlace::FirstRow),
            JsonPlace::FirstRow if c == '{' => self.at(JsonPlace::FirstField),
            JsonPlace::FirstRow if c == ']' => self.at(JsonPlace::End),
            JsonPlace::NextRow if c == ',' => self.at(JsonPlace::MoreRows),
            JsonPlace::NextRow if c == ']' => self.at(JsonPlace::End),
            JsonPlace::MoreRows if c == '{' => self.at(JsonPlace::FirstField),
            JsonPlace::FirstField if c == '"' => self.at(JsonPlace::Name(Spelling::Plain)),
            JsonPlace::FirstField if c == '}' => self.end_row(),
            JsonPlace::NextField if c == ',' => self.at(JsonPlace::MoreFields),
            JsonPlace::NextField if c == '}' => self.end_row(),
            JsonPlace::MoreFields if c == '"' => self.at(JsonPlace::Name(Spelling::Plain)),
            JsonPlace::Colon if c == ':' => self.at(JsonPlace::BeforeValue),
            JsonPlace::BeforeValue if c == '"' => self.at(JsonPlace::Value(Spelling::Plain)),
            _ => self.at(JsonPlace::Lost),
        }
    }

    /// Reads one character after the other.
    pub open spec fn run(self, s: Seq<char>) -> JsonReading
        decreases s.len(),
    {
        if s.len() == 0 {
            self
        } else {
            self.run(s.drop_last()).step(s.last())
        }
    }
}

/// A reader that stands between fields or objects, with nothing read of a field.
pub open spec fn reading(
    place: JsonPlace,
    rows: Seq<Seq<(Seq<char>, Seq<char>)>>,
    fields: Seq<(Seq<char>, Seq<char>)>,
) -> JsonReading {
    JsonReading { place, rows, fields, name: seq![], text: seq![] }
}

/// A row as names and values: the headers, and the cells below them. A cell that the
/// row lacks is empty.
pub open spec fn record(headers: Seq<Seq<char>>, row: Seq<Seq<char>>) -> Seq<
    (Seq<char>, Seq<char>),
> {
    Seq::new(headers.len(), |i: int| (headers[i], cell_at(row, i)))
}

/// The rows as names and values.
pub open spec fn records(headers: Seq<Seq<char>>, rows: Seq<Seq<Seq<char>>>) -> Seq<
    Seq<(Seq<char>, Seq<char>)>,
> {
    Seq::new(rows.len(), |k: int| record(headers, rows[k]))
}

proof fn lemma_add(r: JsonReading, a: Seq<char>, b: Seq<char>)
    ensures
        r.run(a + b) == r.run(a).run(b),
    decreases b.len(),
{
    if b.len() == 0 {
        assert(a + b == a);
    } else {
        lemma_add(r, a, b.drop_last());
        assert((a + b).drop_last() == a + b.drop_last());
        assert((a + b).last() == b.last());
    }
}

proof fn lemma_one(r: JsonReading, c: char)
    ensures
        r.run(seq![c]) == r.step(c),
{
    assert(seq![c].drop_last() == Seq::<char>::empty());
    reveal_with_fuel(JsonReading::run, 2);
}

proof fn lemma_two(r: JsonReading, c: char, d: char)
    ensures
        r.run(seq![c, d]) == r.step(c).step(d),
{
    assert(seq![c, d].drop_last() == seq![c]);
    lemma_one(r, c);
}

proof fn lemma_hex(d: int)
    requires
        0 <= d < 16,
    ensures
        hex_value(hex_digit(d)) == Some(d),
{
}

proof fn lemma_char(r: JsonReading, c: char)
    requires
        r.place == JsonPlace::Name(Spelling::Plain) || r.place == JsonPlace::Value(Spelling::Plain),
    ensures
        r.run(json_char(c)) == r.more(c),
{
    let part = json_char(c);
    if part.len() == 1 {
        lemma_one(r, c);
    } else if part.len() == 2 {
        assert(part =~= seq!['\\', part[1]]);
        lemma_two(r, '\\', part[1]);
    } else {
        let code = c as int;
        let h = hex_digit(code / 16);
        let l = hex_digit(code % 16);
        let a = seq!['\\', 'u'];
        let b = seq!['0', '0'];
        assert(part =~= a + b + seq![h, l]);
        lemma_add(r, a + b, seq![h, l]);
        lemma_add(r, a, b);
        lemma_two(r, '\\', 'u');
        let r1 = r.run(a);
        lemma_two(r1, '0', '0');
        let r2 = r1.run(b);
        lemma_two(r2, h, l);
        lemma_hex(code / 16);
        lemma_hex(code % 16);
    }
}

proof fn lemma_inside(r: JsonReading, s: Seq<char>, n: int)
    requires
        r.place == JsonPlace::Name(Spelling::Plain) || r.place == JsonPlace::Value(Spelling::Plain),
        r.text.len() == 0,
        0 <= n <= s.len(),
    ensures
        r.run(concat(json_chars(s).take(n))) == (JsonReading { text: s.take(n), ..r }),
    decreases n,
{
    let parts = json_chars(s);
    if n == 0 {
        assert(parts.take(0) =~= Seq::<Seq<char>>::empty());
        assert(s.take(0) =~= r.text);
    } else {
        lemma_inside(r, s, n - 1);
        assert(parts.take(n).drop_last() =~= parts.take(n - 1));
        assert(parts.take(n).last() == parts[n - 1]);
        lemma_add(r, concat(parts.take(n - 1)), parts[n - 1]);
        let before = JsonReading { text: s.take(n - 1), ..r };
        let c = s[n - 1];
        assert(s.take(n - 1).push(c) =~= s.take(n));
        lemma_char(before, c);
    }
}

proof fn lemma_quoted(r: JsonReading, s: Seq<char>)
    requires
        r.place is FirstField || r.place is MoreFields || r.place is BeforeValue,
        r.text.len() == 0,
    ensures
        !(r.place is BeforeValue) ==> r.run(json_quoted(s)) == (JsonReading {
            text: s,
            ..r
        }).end_name(),
        r.place is BeforeValue ==> r.run(json_quoted(s)) == (JsonReading {
            text: s,
            ..r
        }).end_field(),
{
    let inner = concat(json_chars(s));
    lemma_add(r, seq!['"'] + inner, seq!['"']);
    lemma_add(r, seq!['"'], inner);
    lemma_one(r, '"');
    let r1 = r.step('"');
    lemma_inside(r1, s, s.len() as int);
    assert(json_chars(s).take(s.len() as int) =~= json_chars(s));
    assert(s.take(s.len() as int) =~= s);
    lemma_one(JsonReading { text: s, ..r1 }, '"');
}

proof fn lemma_field(
    place: JsonPlace,
    rows: Seq<Seq<(Seq<char>, Seq<char>)>>,
    fields: Seq<(Seq<char>, Seq<char>)>,
    name: Seq<char>,
    value: Seq<char>,
)
    requires
        place is FirstField || place is MoreFields,
    ensures
        reading(place, rows, fields).run(json_quoted(name) + ": "@ + json_quoted(value)) == reading(
            JsonPlace::NextField,
            rows,
            fields.push((name, value)),
        ),
{
    reveal_strlit(": ");
    assert(": "@ =~= seq![':', ' ']);
    let r = reading(place, rows, fields);
    lemma_add(r, json_quoted(name) + ": "@, json_quoted(value));
    lemma_add(r, json_quoted(name), ": "@);
    lemma_quoted(r, name);
    let r1 = r.run(json_quoted(name));
    lemma_two(r1, ':', ' ');
    lemma_quoted(r1.at(JsonPlace::BeforeValue), value);
}

proof fn lemma_fields(
    rows: Seq<Seq<(Seq<char>, Seq<char>)>>,
    headers: Seq<Seq<char>>,
    row: Seq<Seq<char>>,
    n: int,
)
    requires
        1 <= n <= headers.len(),
    ensures
        reading(JsonPlace::FirstField, rows, seq![]).run(
            join(json_fields(headers, row).take(n), ", "@),
        ) == reading(JsonPlace::NextField, rows, record(headers, row).take(n)),
    decreases n,
{
    reveal_strlit(", ");
    let parts = json_fields(headers, row);
    let whole = record(headers, row);
    let r = reading(JsonPlace::FirstField, rows, seq![]);
    let name = headers[n - 1];
    let value = cell_at(row, n - 1);
    assert(whole.take(n - 1).push(whole[n - 1]) =~= whole.take(n));
    assert(parts[n - 1] == json_quoted(name) + ": "@ + json_quoted(value));
    if n == 1 {
        assert(join(parts.take(1), ", "@) == parts[0]);
        lemma_field(JsonPlace::FirstField, rows, seq![], name, value);
        assert(whole.take(0) =~= Seq::<(Seq<char>, Seq<char>)>::empty());
    } else {
        lemma_fields(rows, headers, row, n - 1);
        let before = join(parts.take(n - 1), ", "@);
        assert(parts.take(n).drop_last() =~= parts.take(n - 1));
        assert(parts.take(n).last() == parts[n - 1]);
        assert(", "@ =~= seq![',', ' ']);
        lemma_add(r, before + ", "@, parts[n - 1]);
        lemma_add(r, before, ", "@);
        lemma_two(r.run(before), ',', ' ');
        lemma_field(JsonPlace::MoreFields, rows, whole.take(n - 1), name, value);
    }
}

proof fn lemma_object(
    place: JsonPlace,
    rows: Seq<Seq<(Seq<char>, Seq<char>)>>,
    headers: Seq<Seq<char>>,
    row: Seq<Seq<char>>,
)
    requires
        place is FirstRow || place is MoreRows,
    ensures
        reading(place, rows, seq![]).run(json_object(headers, row)) == reading(
            JsonPlace::NextRow,
            rows.push(record(headers, row)),
            seq![],
        ),
{
    reveal_strlit("  {");
    let r = reading(place, rows, seq![]);
    let fields = join(json_fields(headers, row), ", "@);
    assert("  {"@ =~= seq![' ', ' '] + seq!['{']);
    lemma_add(r, "  {"@ + fields, seq!['}']);
    lemma_add(r, "  {"@, fields);
    lemma_add(r, seq![' ', ' '], seq!['{']);
    lemma_two(r, ' ', ' ');
    lemma_one(r, '{');
    let r1 = reading(JsonPlace::FirstField, rows, seq![]);
    let n = headers.len() as int;
    if n > 0 {
        lemma_fields(rows, headers, row, n);
        assert(json_fields(headers, row).take(n) =~= json_fields(headers, row));
        assert(record(headers, row).take(n) =~= record(headers, row));
    } else {
        assert(record(headers, row) =~= Seq::<(Seq<char>, Seq<char>)>::empty());
    }
    lemma_one(r1.run(fields), '}');
}

/// Where a reader stands behind the first `n` of `len` lines.
spec fn line_place(n: int, len: int) -> JsonPlace {
    if n == len && n > 0 {
        JsonPlace::NextRow
    } else if n > 0 {
        JsonPlace::MoreRows
    } else {
        JsonPlace::FirstRow
    }
}

proof fn lemma_lines(headers: Seq<Seq<char>>, rows: Seq<Seq<Seq<char>>>, n: int)
    requires
        0 <= n <= rows.len(),
    ensures
        reading(JsonPlace::FirstRow, seq![], seq![]).run(concat(json_lines(headers, rows).take(n)))
            == reading(line_place(n, rows.len() as int), records(headers, rows).take(n), seq![]),
    decreases n,
{
    let lines = json_lines(headers, rows);
    let all = records(headers, rows);
    let r = reading(JsonPlace::FirstRow, seq![], seq![]);
    if n == 0 {
        assert(lines.take(0) =~= Seq::<Seq<char>>::empty());
        assert(all.take(0) =~= Seq::<Seq<(Seq<char>, Seq<char>)>>::empty());
    } else {
        lemma_lines(headers, rows, n - 1);
        assert(lines.take(n).drop_last() =~= lines.take(n - 1));
        assert(lines.take(n).last() == lines[n - 1]);
        lemma_add(r, concat(lines.take(n - 1)), lines[n - 1]);
        let before = r.run(concat(lines.take(n - 1)));
        let object = json_object(headers, rows[n - 1]);
        lemma_object(before.place, all.take(n - 1), headers, rows[n - 1]);
        assert(all.take(n - 1).push(all[n - 1]) =~= all.take(n));
        let after = reading(JsonPlace::NextRow, all.take(n), seq![]);
        if n < rows.len() {
            lemma_add(before, object, seq![',', '\n']);
            lemma_two(after, ',', '\n');
        } else {
            lemma_add(before, object, seq!['\n']);
            lemma_one(after, '\n');
        }
    }
}

/// Reading rendered JSON gives an object for each row, with the headers as names and
/// the cells as values, whatever they hold.
pub proof fn law_json_is_read_back(headers: Seq<Seq<char>>, rows: Seq<Seq<Seq<char>>>)
    ensures
        reading(JsonPlace::Start, seq![], seq![]).run(json_text(headers, rows)) == reading(
            JsonPlace::End,
            records(headers, rows),
            seq![],
        ),
{
    reveal_strlit("[\n");
    assert("[\n"@ =~= seq!['[', '\n']);
    let r = reading(JsonPlace::Start, seq![], seq![]);
    let n = rows.len() as int;
    let lines = concat(json_lines(headers, rows));
    lemma_add(r, "[\n"@ + lines, seq![']']);
    lemma_add(r, "[\n"@, lines);
    lemma_two(r, '[', '\n');
    lemma_lines(headers, rows, n);
    assert(json_lines(headers, rows).take(n) =~= json_lines(headers, rows));
    assert(records(headers, rows).take(n) =~= records(headers, rows));
    lemma_one(reading(line_place(n, n), records(headers, rows), seq![]), ']');
}

/// Reading a rendered string, as the value of a field, gives back its text.
pub proof fn law_json_string_is_read_back(r: JsonReading, s: Seq<char>)
    requires
        r.place is BeforeValue,
        r.text.len() == 0,
    ensures
        r.run(json_quoted(s)).fields == r.fields.push((r.name, s)),
        r.run(json_quoted(s)).place is NextField,
{
    lemma_quoted(r, s);
}

} // verus!
