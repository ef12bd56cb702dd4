use db_cli::output::{csv_field, csv_row, json_string};
use db_cli::{
    render, render_column, render_csv, render_json, render_line, render_list, render_table,
    OutputMode,
};

fn sample() -> (Vec<String>, Vec<Vec<String>>) {
    (
        vec!["id".to_string(), "name".to_string()],
        vec![
            vec!["1".to_string(), "a".to_string()],
            vec!["2".to_string(), "b, c".to_string()],
        ],
    )
}

fn strings(v: &[&str]) -> Vec<String> {
    v.iter().map(|s| s.to_string()).collect()
}

#[test]
fn table_has_header_and_row_count() {
    let (headers, rows) = sample();
    let out = render_table(&headers, &rows);
    // top border, header, separator, 2 data rows, bottom border.
    assert_eq!(out.lines().count(), 6);
}

#[test]
fn json_round_trips_field_count() {
    let (headers, rows) = sample();
    let out = render_json(&headers, &rows);
    assert!(out.contains("\"id\": \"1\""));
    assert!(out.contains("\"name\": \"b, c\""));
}

#[test]
fn csv_quotes_fields_with_commas() {
    let (headers, rows) = sample();
    let out = render_csv(&headers, &rows, true);
    assert!(out.contains("\"b, c\""));
    assert_eq!(out.lines().next().unwrap(), "id,name");
}

#[test]
fn csv_omits_header_row_when_show_headers_is_false() {
    let (headers, rows) = sample();
    let out = render_csv(&headers, &rows, false);
    assert_eq!(out, "1,a\n2,\"b, c\"\n");
}

#[test]
fn empty_headers_render_empty_table() {
    assert_eq!(render_table(&[], &[]), "");
}

#[test]
fn mode_parse_is_case_insensitive() {
    assert_eq!(OutputMode::parse("JSON"), Some(OutputMode::Json));
    assert_eq!(OutputMode::parse("nope"), None);
}

#[test]
fn mode_parse_covers_sqlite3_modes() {
    assert_eq!(OutputMode::parse("list"), Some(OutputMode::List));
    assert_eq!(OutputMode::parse("COLUMN"), Some(OutputMode::Column));
    assert_eq!(OutputMode::parse("Line"), Some(OutputMode::Line));
}

#[test]
fn list_mode_is_pipe_separated() {
    let (headers, rows) = sample();
    assert_eq!(render_list(&headers, &rows, false), "1|a\n2|b, c\n");
    assert_eq!(render_list(&headers, &rows, true), "id|name\n1|a\n2|b, c\n");
}

#[test]
fn column_mode_pads_to_widest_value_with_two_space_gap() {
    let (headers, rows) = sample();
    assert_eq!(
        render_column(&headers, &rows, true),
        "id  name\n--  ----\n1   a\n2   b, c\n"
    );
    // Without headers, widths come from row data alone (id is 1 wide,
    // not 2), so column widths shrink compared to the headers-on case.
    assert_eq!(render_column(&headers, &rows, false), "1  a\n2  b, c\n");
}

#[test]
fn line_mode_labels_every_value_with_a_blank_line_between_rows() {
    let (headers, rows) = sample();
    assert_eq!(
        render_line(&headers, &rows),
        "id   = 1\nname = a\n\nid   = 2\nname = b, c\n"
    );
}

#[test]
fn render_dispatches_by_mode() {
    let (headers, rows) = sample();
    assert_eq!(
        render(OutputMode::List, &headers, &rows, false),
        render_list(&headers, &rows, false)
    );
    assert_eq!(
        render(OutputMode::Column, &headers, &rows, true),
        render_column(&headers, &rows, true)
    );
    assert_eq!(
        render(OutputMode::Line, &headers, &rows, true),
        render_line(&headers, &rows)
    );
}

#[test]
fn every_mode_is_rendered_by_its_function() {
    let (headers, rows) = sample();
    for on in [false, true] {
        assert_eq!(render(OutputMode::Table, &headers, &rows, on), render_table(&headers, &rows));
        assert_eq!(render(OutputMode::Json, &headers, &rows, on), render_json(&headers, &rows));
        assert_eq!(render(OutputMode::Line, &headers, &rows, on), render_line(&headers, &rows));
        assert_eq!(render(OutputMode::Csv, &headers, &rows, on), render_csv(&headers, &rows, on));
    }
}

#[test]
fn every_mode_has_a_name() {
    assert_eq!(OutputMode::parse("Table"), Some(OutputMode::Table));
    assert_eq!(OutputMode::parse("cSv"), Some(OutputMode::Csv));
    assert_eq!(OutputMode::parse(""), None);
    assert_eq!(OutputMode::parse(" json"), None);
}

#[test]
fn tables_are_boxes() {
    let headers = strings(&["id", "val"]);
    let rows = [strings(&["1", "a"])];
    assert_eq!(
        render_table(&headers, &rows),
        "┌────┬─────┐\n│ id │ val │\n├────┼─────┤\n│ 1  │ a   │\n└────┴─────┘\n"
    );
}

#[test]
fn ragged_rows_keep_their_cells_in_a_table() {
    let headers = strings(&["a"]);
    let rows = [strings(&["1", "extra"]), strings(&[])];
    assert_eq!(
        render_table(&headers, &rows),
        "┌───┐\n│ a │\n├───┤\n│ 1 │ extra │\n│\n└───┘\n"
    );
}

#[test]
fn widths_count_bytes_and_padding_counts_characters() {
    let headers = strings(&["x"]);
    let rows = [strings(&["é"])];
    assert_eq!(render_table(&headers, &rows), "┌────┐\n│ x  │\n├────┤\n│ é  │\n└────┘\n");
}

#[test]
fn table_lines_are_equally_long() {
    let headers = strings(&["id", "größe"]);
    let rows = [strings(&["10000", "é"]), strings(&["", "x"])];
    let out = render_table(&headers, &rows);
    let lengths: Vec<usize> = out.lines().map(|l| l.chars().count()).collect();
    assert_eq!(lengths, vec![19; 6]);
}

#[test]
fn json_is_an_array_of_objects() {
    let (headers, mut rows) = sample();
    assert_eq!(
        render_json(&headers, &rows),
        "[\n  {\"id\": \"1\", \"name\": \"a\"},\n  {\"id\": \"2\", \"name\": \"b, c\"}\n]"
    );
    assert_eq!(render_json(&headers, &[]), "[\n]");
    // Missing cells are empty, and cells without a header are left out.
    rows[0].pop();
    rows[1].push("more".to_string());
    assert_eq!(
        render_json(&headers, &rows),
        "[\n  {\"id\": \"1\", \"name\": \"\"},\n  {\"id\": \"2\", \"name\": \"b, c\"}\n]"
    );
}

#[test]
fn json_strings_are_escaped() {
    assert_eq!(json_string("a\"b\\c\nd\te"), "\"a\\\"b\\\\c\\nd\\te\"");
    assert_eq!(json_string(""), "\"\"");
}

/// Undoes `json_string`.
fn unescaped(s: &str) -> String {
    let inner = &s[1..s.len() - 1];
    let mut out = String::new();
    let mut chars = inner.chars();
    while let Some(c) = chars.next() {
        if c == '\\' {
            match chars.next() {
                Some('n') => out.push('\n'),
                Some('t') => out.push('\t'),
                Some('r') => out.push('\r'),
                Some('b') => out.push('\u{8}'),
                Some('f') => out.push('\u{c}'),
                Some('u') => {
                    let digits: String = chars.by_ref().take(4).collect();
                    let code = u32::from_str_radix(&digits, 16).unwrap();
                    out.push(char::from_u32(code).unwrap());
                }
                Some(other) => out.push(other),
                None => panic!("nothing escaped"),
            }
        } else {
            out.push(c);
        }
    }
    out
}

#[test]
fn json_strings_are_read_back() {
    for s in ["", "\\n", "\"\\\n\t", "größe", "a\\", "\u{7f}\u{85}/"] {
        assert_eq!(unescaped(&json_string(s)), s);
    }
}

#[test]
fn json_strings_hold_no_control_characters() {
    assert_eq!(json_string("a\rb"), "\"a\\rb\"");
    assert_eq!(json_string("\u{8}\u{c}"), "\"\\b\\f\"");
    assert_eq!(json_string("\0\u{1b}\u{1f}"), "\"\\u0000\\u001b\\u001f\"");
    let headers = strings(&["a\r"]);
    let rows = [strings(&["\u{1}"])];
    assert_eq!(render_json(&headers, &rows), "[\n  {\"a\\r\": \"\\u0001\"}\n]");
    for code in 0..0x20u8 {
        let s = format!("x{}y", code as char);
        let out = json_string(&s);
        assert!(out.chars().all(|c| c >= ' '));
        assert_eq!(unescaped(&out), s);
    }
}

#[test]
fn csv_fields_are_quoted_where_needed() {
    assert_eq!(csv_field("plain"), "plain");
    assert_eq!(csv_field("a,b"), "\"a,b\"");
    assert_eq!(csv_field("a\"b"), "\"a\"\"b\"");
    assert_eq!(csv_field("a\nb"), "\"a\nb\"");
    assert_eq!(csv_field(""), "");
    assert_eq!(csv_row(&strings(&["a", "b,c", ""])), "a,\"b,c\",");
}

/// Reads CSV text.
fn csv_rows(s: &str) -> Vec<Vec<String>> {
    let mut rows = Vec::new();
    let mut fields: Vec<String> = Vec::new();
    let mut field = String::new();
    let mut chars = s.chars().peekable();
    let mut quoted = false;
    while let Some(c) = chars.next() {
        if quoted {
            if c != '"' {
                field.push(c);
            } else if chars.peek() == Some(&'"') {
                chars.next();
                field.push('"');
            } else {
                quoted = false;
            }
        } else if c == '"' {
            quoted = true;
        } else if c == ',' || c == '\n' {
            fields.push(field);
            field = String::new();
            if c == '\n' {
                rows.push(fields);
                fields = Vec::new();
            }
        } else {
            field.push(c);
        }
    }
    rows
}

#[test]
fn csv_is_read_back() {
    let headers = strings(&["a", "b,\"c\""]);
    let rows = vec![strings(&["1\n2", ""]), strings(&["\"\"", ",,"]), strings(&["x"])];
    assert_eq!(csv_rows(&render_csv(&headers, &rows, false)), rows);
    let mut all = vec![headers.clone()];
    all.extend(rows.clone());
    assert_eq!(csv_rows(&render_csv(&headers, &rows, true)), all);
}

#[test]
fn headers_stand_in_front_of_the_same_lines() {
    let (headers, rows) = sample();
    assert_eq!(
        render_list(&headers, &rows, true),
        format!("id|name\n{}", render_list(&headers, &rows, false))
    );
    assert_eq!(
        render_csv(&headers, &rows, true),
        format!("id,name\n{}", render_csv(&headers, &rows, false))
    );
}

#[test]
fn columns_take_ragged_rows() {
    let headers = strings(&["a", "b"]);
    let rows = [strings(&["1", "2", "3"]), strings(&["10"])];
    assert_eq!(
        render_column(&headers, &rows, true),
        "a   b\n--  -\n1   23  \n10  \n"
    );
    assert_eq!(render_column(&[], &[], true), "\n\n");
}

#[test]
fn columns_count_characters() {
    let headers = strings(&["a", "b"]);
    let rows = [strings(&["é", "x"])];
    assert_eq!(render_column(&headers, &rows, false), "é  x\n");
    let headers = strings(&["größe", "b"]);
    let rows = [strings(&["—", "x"]), strings(&["longer", "y"])];
    assert_eq!(
        render_column(&headers, &rows, true),
        "größe   b\n------  -\n—       x\nlonger  y\n"
    );
}

#[test]
fn lines_take_ragged_rows() {
    let headers = strings(&["id"]);
    let rows = [strings(&["1", "2"]), strings(&[])];
    assert_eq!(render_line(&headers, &rows), "id = 1\n   = 2\n\n");
    assert_eq!(render_line(&headers, &[]), "");
}
