use db_cli::layout::{layout, width};

#[test]
fn no_wrap_fits_on_one_row() {
    // prompt "pr" (2) + line "abc" (3), cursor after 2 chars, width 80.
    assert_eq!(layout(2, 3, 2, 80), (1, 0, 4));
}

#[test]
fn exact_wrap_boundary_is_pending_wrap_at_cursor() {
    // 10 chars exactly fill a 10-wide row; cursor at the true end lands
    // in the "pending wrap" cell (row 0, col == width), not row 1 col 0.
    assert_eq!(layout(0, 10, 10, 10), (1, 0, 10));
}

#[test]
fn cursor_on_first_row_of_a_two_row_line() {
    // prompt 0, line 8 chars, width 5 -> 2 rows; cursor at 3 is row 0.
    assert_eq!(layout(0, 8, 3, 5), (2, 0, 3));
}

#[test]
fn cursor_on_last_row_of_a_two_row_line() {
    // Same line/width; cursor at the true end (8) is row 1, col 3.
    assert_eq!(layout(0, 8, 8, 5), (2, 1, 3));
}

#[test]
fn width_one_is_degenerate_but_does_not_panic() {
    // Every character is its own row; cursor at the true end lands in
    // the pending-wrap cell of the last row.
    assert_eq!(layout(0, 3, 3, 1), (3, 2, 1));
    // An interior cursor sits at the start of its own row.
    assert_eq!(layout(0, 3, 1, 1), (3, 1, 0));
}

#[test]
fn zero_width_is_clamped_to_one_rather_than_dividing_by_zero() {
    assert_eq!(layout(0, 2, 2, 0), layout(0, 2, 2, 1));
}

#[test]
fn empty_line_is_one_row_at_the_prompt_column() {
    assert_eq!(layout(4, 0, 0, 80), (1, 0, 4));
}

#[test]
fn nothing_at_all_still_takes_a_row() {
    assert_eq!(layout(0, 0, 0, 80), (1, 0, 0));
}

#[test]
fn cursor_stays_within_the_rows() {
    for prompt in 0..7 {
        for line in 0..12 {
            for columns in 0..6 {
                for cursor in 0..=line {
                    let (rows, row, col) = layout(prompt, line, cursor, columns);
                    assert!(row < rows);
                    assert!(col <= columns.max(1));
                }
            }
        }
    }
}

#[test]
fn terminals_that_do_not_say_are_taken_to_have_a_usual_width() {
    assert_eq!(width(Some(20)), 20);
    assert_eq!(width(Some(u16::MAX)), 65535);
    assert_eq!(width(Some(0)), 80);
    assert_eq!(width(None), 80);
}
