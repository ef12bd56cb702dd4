//! What is sent to the terminal to display the line that is being entered.

use vstd::prelude::*;

use crate::ansi::{csi, push_csi, ESC};
use crate::layout::{columns, cursor_cell, end_cell, law_cursor_lies_within_the_rows, layout};
use crate::text::char_count;

verus! {

/// How many rows upwards the cursor goes once the line is printed: as many as
/// its own row is above the last one, and one more where the printing filled the
/// last row and a line feed was sent to leave it.
pub open spec fn rows_up(prompt: int, line: int, cursor: int, width: int) -> int {
    let end = end_cell(prompt + line, width);
    let target = cursor_cell(prompt, line, cursor, width);
    if leaves_full_row(prompt, line, cursor, width) {
        end.0 + 1 - target.0
    } else {
        end.0 - target.0
    }
}

/// Whether the last row is full and the cursor belongs further up. A terminal
/// keeps its cursor behind a full row until the next character comes, and moving
/// up from there is not reliable.
pub open spec fn leaves_full_row(prompt: int, line: int, cursor: int, width: int) -> bool {
    let end = end_cell(prompt + line, width);
    let target = cursor_cell(prompt, line, cursor, width);
    target.0 < end.0 && end.1 == width
}

/// What displays a line afresh: up to the first row of what was displayed before,
/// of which the cursor is in row `from_row`; everything from there on cleared; the
/// prompt and the line printed; and the cursor put to its place. `display` is the
/// line with its colours, `line` the number of its visible characters.
pub open spec fn redraw_text(
    prompt: Seq<char>,
    display: Seq<char>,
    line: int,
    cursor: int,
    width: int,
    from_row: int,
) -> Seq<char> {
    let n = prompt.len() as int;
    csi(from_row, 'A') + seq!['\r', ESC, '[', 'J'] + (prompt + display) + (if leaves_full_row(
        n,
        line,
        cursor,
        width,
    ) {
        seq!['\n']
    } else {
        seq![]
    }) + csi(rows_up(n, line, cursor, width), 'A') + seq!['\r'] + csi(
        cursor_cell(n, line, cursor, width).1,
        'C',
    )
}

/// What leaves a line: down to its last row, and on to the row behind it.
pub open spec fn finish_text(prompt: int, line: int, width: int, from_row: int) -> Seq<char> {
    csi(end_cell(prompt + line, width).0 - from_row, 'B') + seq!['\n']
}

/// What clears the screen and puts the cursor to its top.
pub open spec fn clear_text() -> Seq<char> {
    seq![ESC, '[', '2', 'J', ESC, '[', 'H']
}

/// Appends what displays a line afresh. Returns the row in which the cursor is
/// then, counted from the first row of the prompt.
pub fn push_redraw(
    out: &mut String,
    prompt: &str,
    line: &str,
    display: &str,
    cursor: usize,
    width: usize,
    from_row: usize,
) -> (row: usize)
    requires
        cursor <= line@.len(),
    ensures
        final(out)@ == old(out)@ + redraw_text(
            prompt@,
            display@,
            line@.len() as int,
            cursor as int,
            width as int,
            from_row as int,
        ),
        row == cursor_cell(
            prompt@.len() as int,
            line@.len() as int,
            cursor as int,
            width as int,
        ).0,
{
    let prompt_chars = char_count(prompt);
    let line_chars = char_count(line);
    proof {
        law_cursor_lies_within_the_rows(
            prompt_chars as int,
            line_chars as int,
            line_chars as int,
            width as int,
        );
        law_cursor_lies_within_the_rows(
            prompt_chars as int,
            line_chars as int,
            cursor as int,
            width as int,
        );
        lemma_last_row(prompt_chars as int, line_chars as int, width as int);
    }
    let (_, end_row, end_col) = layout(prompt_chars, line_chars, line_chars, width);
    let (_, target_row, target_col) = layout(prompt_chars, line_chars, cursor, width);

    let ghost start = out@;
    let ghost a = csi(from_row as int, 'A');
    let ghost b = seq!['\r', ESC, '[', 'J'];
    let ghost c = prompt@ + display@;
    let ghost full = leaves_full_row(
        prompt_chars as int,
        line_chars as int,
        cursor as int,
        width as int,
    );
    let ghost d = if full {
        seq!['\n']
    } else {
        seq![]
    };
    push_csi(out, from_row, 'A');
    out.push('\r');
    out.push(ESC);
    out.push('[');
    out.push('J');
    assert(out@ =~= start + (a + b));
    out.append(prompt);
    out.append(display);
    assert(out@ =~= start + (a + b + c));
    let mut current_row = end_row;
    if target_row < end_row && end_col == width {
        out.push('\n');
        current_row = current_row + 1;
    }
    assert(out@ =~= start + (a + b + c + d));
    let ghost e = csi(current_row - target_row, 'A');
    push_csi(out, current_row - target_row, 'A');
    assert(out@ =~= start + (a + b + c + d + e));
    out.push('\r');
    assert(out@ =~= start + (a + b + c + d + e + seq!['\r']));
    push_csi(out, target_col, 'C');
    assert(out@ =~= start + (a + b + c + d + e + seq!['\r'] + csi(target_col as int, 'C')));
    target_row
}

/// The last row of a line is no further down than the line has characters.
proof fn lemma_last_row(prompt: int, line: int, width: int)
    requires
        0 <= prompt,
        0 <= line,
    ensures
        end_cell(prompt + line, width).0 <= prompt + line,
{
    let w = columns(width);
    let total = prompt + line;
    assert(total / w <= total) by (nonlinear_arith)
        requires
            1 <= w,
            0 <= total,
    ;
}

/// What leaves a line, from the row `from_row` in which its cursor is.
pub fn finish(prompt: &str, line: &str, width: usize, from_row: usize) -> (out: String)
    ensures
        out@ == finish_text(prompt@.len() as int, line@.len() as int, width as int, from_row as int),
{
    let prompt_chars = char_count(prompt);
    let line_chars = char_count(line);
    let (_, end_row, _) = layout(prompt_chars, line_chars, line_chars, width);
    let mut out = String::new();
    if end_row > from_row {
        push_csi(&mut out, end_row - from_row, 'B');
    }
    out.push('\n');
    assert(out@ =~= finish_text(
        prompt@.len() as int,
        line@.len() as int,
        width as int,
        from_row as int,
    ));
    out
}

/// What clears the screen.
pub fn clear() -> (out: String)
    ensures
        out@ == clear_text(),
{
    let mut out = String::new();
    out.push(ESC);
    out.push('[');
    out.push('2');
    out.push('J');
    out.push(ESC);
    out.push('[');
    out.push('H');
    assert(out@ =~= clear_text());
    out
}

} // verus!
