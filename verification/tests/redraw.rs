//! Keys go to an editor, and what it prints to a small terminal: what the screen
//! shows in the end is what a user would see.

use db_cli::editor::{DefaultHighlighter, NoCompleter};
use db_cli::keys::{read_key, ByteRead, KeyState, KeyStep};
use db_cli::line::LineBuffer;
use db_cli::Readline;

const COLS: usize = 20;
const ROWS: usize = 10;
const PROMPT: &str = "column> ";

/// A tiny terminal that knows just the control sequences which the editor prints
/// (`\r`, `\n`, cursor motions, clearing the screen), and wraps lines as terminals
/// do: a full row is left only when the next character is written.
struct Screen {
    rows: Vec<Vec<char>>,
    cur_row: usize,
    cur_col: usize,
    pending_wrap: bool,
}

impl Screen {
    fn new(rows: usize, cols: usize) -> Self {
        Screen {
            rows: (0..rows).map(|_| vec![' '; cols]).collect(),
            cur_row: 0,
            cur_col: 0,
            pending_wrap: false,
        }
    }

    fn cols(&self) -> usize {
        self.rows[0].len()
    }

    fn feed(&mut self, bytes: &[u8]) {
        let mut i = 0;
        while i < bytes.len() {
            let b = bytes[i];
            if b == 0x1b && i + 1 < bytes.len() && bytes[i + 1] == b'[' {
                let mut j = i + 2;
                let start = j;
                while j < bytes.len() && bytes[j].is_ascii_digit() {
                    j += 1;
                }
                let had_digits = j > start;
                let n: usize = if had_digits {
                    std::str::from_utf8(&bytes[start..j])
                        .unwrap()
                        .parse()
                        .unwrap()
                } else {
                    1
                };
                if j < bytes.len() {
                    match bytes[j] {
                        b'A' => self.cur_row = self.cur_row.saturating_sub(n),
                        b'B' => self.cur_row = (self.cur_row + n).min(self.rows.len() - 1),
                        b'C' => {
                            self.cur_col = (self.cur_col + n).min(self.cols() - 1);
                            self.pending_wrap = false;
                        }
                        b'D' => {
                            self.cur_col = self.cur_col.saturating_sub(n);
                            self.pending_wrap = false;
                        }
                        b'J' if had_digits && n == 2 => {
                            // Whole-screen clear (Ctrl-L's `\x1b[2J`); cursor unmoved.
                            let cols = self.cols();
                            for row in self.rows.iter_mut() {
                                *row = vec![' '; cols];
                            }
                        }
                        b'J' => {
                            // Clear from cursor to end of screen.
                            let cols = self.cols();
                            for c in self.cur_col..cols {
                                self.rows[self.cur_row][c] = ' ';
                            }
                            for r in (self.cur_row + 1)..self.rows.len() {
                                self.rows[r] = vec![' '; cols];
                            }
                        }
                        b'H' => {
                            // Cursor home (Ctrl-L's `\x1b[H`, no params).
                            self.cur_row = 0;
                            self.cur_col = 0;
                            self.pending_wrap = false;
                        }
                        _ => {}
                    }
                    i = j + 1;
                    continue;
                }
            }
            match b {
                b'\r' => {
                    self.cur_col = 0;
                    self.pending_wrap = false;
                }
                b'\n' => {
                    self.cur_row = (self.cur_row + 1).min(self.rows.len() - 1);
                    self.cur_col = 0;
                    self.pending_wrap = false;
                }
                0x20..=0x7e => {
                    if self.pending_wrap {
                        self.cur_row = (self.cur_row + 1).min(self.rows.len() - 1);
                        self.cur_col = 0;
                        self.pending_wrap = false;
                    }
                    self.rows[self.cur_row][self.cur_col] = b as char;
                    self.cur_col += 1;
                    if self.cur_col == self.cols() {
                        self.pending_wrap = true;
                    }
                }
                _ => {}
            }
            i += 1;
        }
    }

    fn row_text(&self, r: usize) -> String {
        self.rows[r]
            .iter()
            .collect::<String>()
            .trim_end()
            .to_string()
    }
}

struct Harness {
    editor: Readline<DefaultHighlighter, NoCompleter>,
    line: LineBuffer,
    state: KeyState,
    screen: Screen,
}

impl Harness {
    fn start() -> Self {
        let mut editor = Readline::new(true);
        let line = editor.begin_line();
        let mut screen = Screen::new(ROWS, COLS);
        screen.feed(PROMPT.as_bytes());
        Harness { editor, line, state: KeyState::Start, screen }
    }

    fn send(&mut self, bytes: &[u8]) {
        for b in bytes {
            let key = match read_key(self.state, ByteRead::Byte(*b)) {
                KeyStep::More(state) => {
                    self.state = state;
                    continue;
                }
                KeyStep::Done(key) => key,
                KeyStep::Fail => panic!("no key"),
            };
            self.state = KeyState::Start;
            let r = self.editor.press(&mut self.line, PROMPT, key, COLS);
            self.screen.feed(r.output.as_bytes());
            if let Some(Ok(line)) = r.done {
                self.editor.add_history_entry(&line);
                self.line = self.editor.begin_line();
                self.screen.feed(PROMPT.as_bytes());
            }
        }
    }
}

#[test]
fn wrapped_line_redraws_without_duplicating_the_prompt() {
    let mut h = Harness::start();
    assert_eq!(h.screen.row_text(0), "column>");

    // Prompt is 8 chars ("column> "); 12 more fills row 0 exactly (20 cols),
    // then the rest wraps onto row 1, where no keystroke may reprint the prompt.
    h.send(b"abcdefghijklmnopqrstuvwxyz");
    assert_eq!(h.screen.row_text(0), "column> abcdefghijkl");
    assert_eq!(h.screen.row_text(1), "mnopqrstuvwxyz");
    // The prompt is not reprinted mid-row.
    assert!(
        !h.screen.row_text(1).contains("column>"),
        "prompt leaked onto the wrapped row: {:?}",
        h.screen.row_text(1)
    );
    assert_eq!((h.screen.cur_row, h.screen.cur_col), (1, 14));

    // Edit across the wrap boundary: Left x3, Backspace x2, insert 'Z'.
    h.send(b"\x1b[D\x1b[D\x1b[D");
    h.send(b"\x7f\x7f");
    h.send(b"Z");
    assert_eq!(h.screen.row_text(0), "column> abcdefghijkl");
    assert_eq!(h.screen.row_text(1), "mnopqrstuZxyz");
    assert!(
        !h.screen.row_text(1).contains("column>"),
        "prompt leaked onto the wrapped row after edits: {:?}",
        h.screen.row_text(1)
    );

    // Enter must move past every wrapped row, not print over one of them.
    h.send(b"\n");
    assert_eq!(h.screen.row_text(2), "column>");
    assert_eq!(h.screen.row_text(0), "column> abcdefghijkl");
    assert_eq!(h.screen.row_text(1), "mnopqrstuZxyz");
}

#[test]
fn three_row_wrap_supports_home_end_and_left_navigation() {
    let mut h = Harness::start();

    // prompt(8) + 39 chars = 47 -> ceil(47/20) = 3 rows (20, 20, 7).
    h.send(b"0123456789ABCDEFGHIJKLMNOPQRSTUVWXYZ012");
    assert_eq!(h.screen.row_text(0), "column> 0123456789AB");
    assert_eq!(h.screen.row_text(1), "CDEFGHIJKLMNOPQRSTUV");
    assert_eq!(h.screen.row_text(2), "WXYZ012");
    assert_eq!((h.screen.cur_row, h.screen.cur_col), (2, 7));

    h.send(b"\x1b[H"); // Home
    assert_eq!((h.screen.cur_row, h.screen.cur_col), (0, 8));

    h.send(b"\x1b[F"); // End
    assert_eq!((h.screen.cur_row, h.screen.cur_col), (2, 7));

    h.send(&b"\x1b[D".repeat(30)); // Left x30
    assert_eq!((h.screen.cur_row, h.screen.cur_col), (0, 17));

    // No corruption anywhere on screen after all that navigation.
    assert_eq!(h.screen.row_text(0), "column> 0123456789AB");
    assert_eq!(h.screen.row_text(1), "CDEFGHIJKLMNOPQRSTUV");
    assert_eq!(h.screen.row_text(2), "WXYZ012");
}

/// Ctrl-A/E/B/F are emacs/readline aliases for Home/End/Left/Right.
#[test]
fn ctrl_a_e_b_f_move_cursor_like_home_end_left_right() {
    let mut h = Harness::start();

    h.send(b"hello world"); // prompt(8) + 11 = 19, fits on one row.
    assert_eq!((h.screen.cur_row, h.screen.cur_col), (0, 19));

    h.send(b"\x01"); // Ctrl-A
    assert_eq!((h.screen.cur_row, h.screen.cur_col), (0, 8));

    h.send(b"\x05"); // Ctrl-E
    assert_eq!((h.screen.cur_row, h.screen.cur_col), (0, 19));

    h.send(b"\x02"); // Ctrl-B
    assert_eq!((h.screen.cur_row, h.screen.cur_col), (0, 18));

    h.send(b"\x06"); // Ctrl-F
    assert_eq!((h.screen.cur_row, h.screen.cur_col), (0, 19));
}

/// Ctrl-K kills to end of line, Ctrl-U kills to start, Ctrl-W kills the
/// previous word.
#[test]
fn ctrl_k_u_w_kill_bindings() {
    let mut h = Harness::start();

    h.send(b"hello world");
    h.send(b"\x01"); // Ctrl-A -> cursor 0
    h.send(b"\x06\x06\x06\x06\x06\x06"); // Ctrl-F x6 -> cursor after "hello "
    h.send(b"\x0b"); // Ctrl-K: kill to end of line
    assert_eq!(h.screen.row_text(0), "column> hello");

    h.send(b"\x15"); // Ctrl-U: kill to start of line
    assert_eq!(h.screen.row_text(0), "column>");
    assert_eq!((h.screen.cur_row, h.screen.cur_col), (0, 8));

    h.send(b"foo   bar"); // multiple spaces between words
    h.send(b"\x17"); // Ctrl-W: kill the previous word ("bar")
    assert_eq!(h.screen.row_text(0), "column> foo");
}

/// Alt-B/Alt-F move by word (whitespace-delimited), sharing the same
/// boundary logic as Ctrl-W.
#[test]
fn alt_b_and_alt_f_move_by_word() {
    let mut h = Harness::start();

    h.send(b"foo bar baz"); // prompt(8) + 11 = 19; cursor at true end.
    assert_eq!((h.screen.cur_row, h.screen.cur_col), (0, 19));

    h.send(b"\x1bb"); // Alt-B -> start of "baz"
    assert_eq!((h.screen.cur_row, h.screen.cur_col), (0, 16));

    h.send(b"\x1bb"); // Alt-B -> start of "bar"
    assert_eq!((h.screen.cur_row, h.screen.cur_col), (0, 12));

    h.send(b"\x1bf"); // Alt-F -> start of "baz" (word end + trailing space)
    assert_eq!((h.screen.cur_row, h.screen.cur_col), (0, 16));
}

/// Ctrl-L clears the screen and redraws the current line at the top.
#[test]
fn ctrl_l_clears_screen_and_redraws_at_top() {
    let mut h = Harness::start();

    h.send(b"hello");
    h.send(b"\x0c"); // Ctrl-L
    assert_eq!(h.screen.row_text(0), "column> hello");
    assert_eq!((h.screen.cur_row, h.screen.cur_col), (0, 13));
    // Nothing left over from wherever the cursor was before the clear.
    assert_eq!(h.screen.row_text(1), "");
}

/// Ctrl-P/Ctrl-N are emacs/readline aliases for history Up/Down.
#[test]
fn ctrl_p_n_navigate_history_like_up_down() {
    let mut h = Harness::start();

    h.send(b"first line");
    h.send(b"\n");
    h.send(b"second");
    h.send(b"\n");

    h.send(b"\x10"); // Ctrl-P -> most recent ("second")
    assert_eq!(h.screen.row_text(2), "column> second");

    h.send(b"\x10"); // Ctrl-P -> older ("first line")
    assert_eq!(h.screen.row_text(2), "column> first line");

    h.send(b"\x0e"); // Ctrl-N -> back to "second"
    assert_eq!(h.screen.row_text(2), "column> second");

    h.send(b"\x0e"); // Ctrl-N -> past the newest entry, back to blank
    assert_eq!(h.screen.row_text(2), "column>");
}

/// word motion (Alt-B here) must still work correctly once the line has
/// wrapped past the terminal width -- a
/// broken redraw would show up at a wrap point.
#[test]
fn alt_b_word_motion_works_across_a_wrapped_line() {
    let mut h = Harness::start();

    // prompt(8) + "aaaa bbbb cccc dddd" (19 chars) = 27 -> wraps onto row 1.
    h.send(b"aaaa bbbb cccc dddd");
    assert_eq!(h.screen.row_text(0), "column> aaaa bbbb cc");
    assert_eq!(h.screen.row_text(1), "cc dddd");
    assert_eq!((h.screen.cur_row, h.screen.cur_col), (1, 7));

    h.send(b"\x1bb"); // Alt-B -> start of "dddd"
    assert_eq!((h.screen.cur_row, h.screen.cur_col), (1, 3));
    assert!(
        !h.screen.row_text(1).contains("column>"),
        "prompt leaked onto the wrapped row during word motion: {:?}",
        h.screen.row_text(1)
    );
}
