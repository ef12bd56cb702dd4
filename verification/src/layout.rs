//! Where a line that wraps at the edge of the terminal puts the cursor.

use vstd::prelude::*;

verus! {

/// The width that rows are counted with: no terminal is narrower than a column.
pub open spec fn columns(width: int) -> int {
    if width < 1 {
        1
    } else {
        width
    }
}

/// The columns that a terminal is taken to have where it does not say.
pub const DEFAULT_WIDTH: usize = 80;

/// The width to go by, given what a terminal says of its columns, if it says
/// anything. None at all is as good as no answer.
pub fn width(answer: Option<u16>) -> (w: usize)
    ensures
        match answer {
            Some(n) => w == if n > 0 {
                n as usize
            } else {
                DEFAULT_WIDTH
            },
            None => w == DEFAULT_WIDTH,
        },
        w >= 1,
{
    match answer {
        Some(n) => if n > 0 {
            n as usize
        } else {
            DEFAULT_WIDTH
        },
        None => DEFAULT_WIDTH,
    }
}

/// How many rows `total` characters take, at least one.
pub open spec fn rows_of(total: int, width: int) -> int {
    if total <= 0 {
        1
    } else {
        (total - 1) / columns(width) + 1
    }
}

/// The row and the column that follow `total` characters. A terminal whose last
/// row has just been filled keeps its cursor in that row, behind the last column,
/// until the next character comes.
pub open spec fn end_cell(total: int, width: int) -> (int, int) {
    if total > 0 && total % columns(width) == 0 {
        (total / columns(width) - 1, columns(width))
    } else {
        (total / columns(width), total % columns(width))
    }
}

/// The row and the column of the character at `pos`, for one that was written.
pub open spec fn cell(pos: int, width: int) -> (int, int) {
    (pos / columns(width), pos % columns(width))
}

/// The cell of a cursor at character `cursor` of a line of `line` characters that
/// follows a prompt of `prompt` characters.
pub open spec fn cursor_cell(prompt: int, line: int, cursor: int, width: int) -> (int, int) {
    if cursor == line {
        end_cell(prompt + line, width)
    } else {
        cell(prompt + cursor, width)
    }
}

/// The number of rows that a prompt and a line occupy at `width` columns, and the
/// row and the column of the cursor. Rows and columns count from zero.
///
/// The sizes are numbers of visible characters: colour codes do not count.
pub fn layout(prompt_chars: usize, line_chars: usize, cursor: usize, width: usize) -> (r: (
    usize,
    usize,
    usize,
))
    requires
        prompt_chars + line_chars <= usize::MAX,
        prompt_chars + cursor <= usize::MAX,
    ensures
        r.0 == rows_of(prompt_chars + line_chars, width as int),
        (r.1 as int, r.2 as int) == cursor_cell(
            prompt_chars as int,
            line_chars as int,
            cursor as int,
            width as int,
        ),
{
    let width: usize = if width < 1 {
        1
    } else {
        width
    };
    let total = prompt_chars + line_chars;
    proof {
        lemma_end_cell(total as int, width as int);
    }
    let rows: usize = if total == 0 {
        1
    } else {
        (total - 1) / width + 1
    };
    if cursor == line_chars {
        let row = rows - 1;
        let col = total - row * width;
        (rows, row, col)
    } else {
        let pos = prompt_chars + cursor;
        (rows, pos / width, pos % width)
    }
}

proof fn lemma_end_cell(total: int, width: int)
    requires
        0 <= total,
        1 <= width,
    ensures
        ({
            let row = rows_of(total, width) - 1;
            &&& 0 <= row
            &&& 0 <= row * width <= total
            &&& row + 1 <= total || total == 0
            &&& end_cell(total, width) == (row, total - row * width)
            &&& end_cell(total, width).1 <= width
        }),
{
    let q = total / width;
    let m = total % width;
    assert(total == q * width + m && 0 <= m < width && 0 <= q) by (nonlinear_arith)
        requires
            1 <= width,
            0 <= total,
            q == total / width,
            m == total % width,
    ;
    if total > 0 {
        let row = (total - 1) / width;
        if m == 0 {
            assert(row == q - 1 && row * width + width == total) by (nonlinear_arith)
                requires
                    1 <= width,
                    0 < total,
                    total == q * width,
                    row == (total - 1) / width,
            ;
        } else {
            assert(row == q && row * width == total - m) by (nonlinear_arith)
                requires
                    1 <= width,
                    0 < m < width,
                    total == q * width + m,
                    row == (total - 1) / width,
            ;
        }
        assert(row + 1 <= total) by (nonlinear_arith)
            requires
                1 <= width,
                0 < total,
                row == (total - 1) / width,
        ;
        assert(0 <= row * width) by (nonlinear_arith)
            requires
                0 <= row,
                1 <= width,
        ;
    } else {
        assert(q == 0 && m == 0) by (nonlinear_arith)
            requires
                1 <= width,
                total == 0,
                q == total / width,
                m == total % width,
        ;
    }
}

/// The cursor lies in one of the rows of the line, no further right than just
/// behind the last column, and rows and columns together give its position back.
/// The line ends in the last of its rows.
pub proof fn law_cursor_lies_within_the_rows(prompt: int, line: int, cursor: int, width: int)
    requires
        0 <= prompt,
        0 <= cursor <= line,
    ensures
        ({
            let (row, col) = cursor_cell(prompt, line, cursor, width);
            &&& 0 <= row < rows_of(prompt + line, width)
            &&& 0 <= col <= columns(width)
            &&& row * columns(width) + col == prompt + cursor
            &&& cursor < line ==> col < columns(width)
            &&& end_cell(prompt + line, width).0 == rows_of(prompt + line, width) - 1
        }),
{
    let w = columns(width);
    lemma_end_cell(prompt + line, w);
    if cursor < line {
        let pos = prompt + cursor;
        let total = prompt + line;
        assert(pos == (pos / w) * w + pos % w && 0 <= pos % w < w && 0 <= pos / w && pos / w <= (
        total - 1) / w) by (nonlinear_arith)
            requires
                1 <= w,
                0 <= pos <= total - 1,
        ;
    }
}

/// A prompt and a line take just as many rows as their characters need, one at least,
/// and a terminal without columns counts as one of a single column.
pub proof fn law_rows_are_just_enough(total: int, width: int)
    requires
        0 <= total,
    ensures
        ({
            let w = if width < 1 {
                1
            } else {
                width
            };
            let rows = rows_of(total, width);
            &&& total <= rows * w
            &&& rows >= 1
            &&& total > 0 ==> (rows - 1) * w < total
            &&& total == 0 ==> rows == 1
        }),
{
    let w = columns(width);
    if total > 0 {
        let q = (total - 1) / w;
        assert(q * w <= total - 1 && total - 1 < q * w + w && 0 <= q) by (nonlinear_arith)
            requires
                1 <= w,
                1 <= total,
                q == (total - 1) / w,
        ;
        assert((q + 1) * w == q * w + w) by (nonlinear_arith);
    }
}

/// The cursor stands where the character at its position does, and behind the last
/// character where it is at the end: there in the row of that character, even if the
/// row is full.
pub proof fn law_cursor_stands_at_its_character(prompt: int, line: int, cursor: int, width: int)
    requires
        0 <= prompt,
        0 <= cursor <= line,
    ensures
        ({
            let w = if width < 1 {
                1
            } else {
                width
            };
            let (row, col) = cursor_cell(prompt, line, cursor, width);
            &&& row * w + col == prompt + cursor
            &&& row >= 0
            &&& cursor < line ==> 0 <= col < w
            &&& cursor == line && prompt + line > 0 ==> 1 <= col <= w
            &&& prompt + line == 0 ==> col == 0
        }),
{
    let w = columns(width);
    law_cursor_lies_within_the_rows(prompt, line, cursor, width);
    let total = prompt + line;
    if cursor == line {
        assert(total > 0 && total % w != 0 ==> total % w >= 1) by (nonlinear_arith)
            requires
                1 <= w,
        ;
        if total == 0 {
            assert(0int % w == 0) by (nonlinear_arith)
                requires
                    1 <= w,
            ;
        }
    }
}

} // verus!
