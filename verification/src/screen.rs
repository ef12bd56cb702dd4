//! A model of a terminal, and what the line editor's output does to it.
//!
//! The terminal knows the few control sequences that the editor sends. It takes
//! every character that is no control character to be one column wide, wraps a
//! line at its last column, and has as many rows below the cursor as are needed.

use vstd::prelude::*;

use crate::ansi::{csi, read_char, read_text, visible, Reading, Scan, ESC};
use crate::layout::{cell, cursor_cell, end_cell, law_cursor_lies_within_the_rows};
use crate::redraw::{clear_text, finish_text, leaves_full_row, redraw_text, rows_up};
use crate::text::{control, decimal, digit};

verus! {

/// How much of a control sequence the terminal has received.
pub enum Received {
    Nothing,
    Escape,
    /// A control sequence up to its letter, and its last number.
    Sequence(Option<nat>),
}

/// A terminal. In the column behind the last one the cursor waits to wrap.
pub struct Terminal {
    pub width: int,
    pub row: int,
    pub col: int,
    pub cells: spec_fn(int, int) -> char,
    pub received: Received,
}

impl Terminal {
    /// The character that is displayed in a row and a column.
    pub open spec fn at(self, row: int, col: int) -> char {
        (self.cells)(row, col)
    }

    /// No control sequence is under way.
    pub open spec fn ready(self) -> bool {
        self.received is Nothing
    }

    /// Displays a character at the cursor, and moves on.
    pub open spec fn put(self, c: char) -> Terminal {
        let row = if self.col >= self.width {
            self.row + 1
        } else {
            self.row
        };
        let col = if self.col >= self.width {
            0
        } else {
            self.col
        };
        Terminal {
            row,
            col: col + 1,
            cells: |r: int, k: int|
                if r == row && k == col {
                    c
                } else {
                    self.at(r, k)
                },
            ..self
        }
    }

    /// Blanks everything from the cursor on.
    pub open spec fn cleared(self) -> Terminal {
        Terminal {
            cells: |r: int, k: int|
                if r > self.row || (r == self.row && k >= self.col) {
                    ' '
                } else {
                    self.at(r, k)
                },
            ..self
        }
    }

    /// Carries out a control sequence.
    pub open spec fn command(self, number: Option<nat>, letter: char) -> Terminal {
        let n = match number {
            Some(n) => n as int,
            None => 1,
        };
        if letter == 'A' {
            Terminal {
                row: if self.row < n {
                    0
                } else {
                    self.row - n
                },
                ..self
            }
        } else if letter == 'B' {
            Terminal { row: self.row + n, ..self }
        } else if letter == 'C' {
            Terminal {
                col: if self.col + n < self.width {
                    self.col + n
                } else {
                    self.width - 1
                },
                ..self
            }
        } else if letter == 'J' {
            if number == Some(2nat) {
                Terminal { cells: |r: int, k: int| ' ', ..self }
            } else {
                self.cleared()
            }
        } else if letter == 'H' {
            Terminal { row: 0, col: 0, ..self }
        } else {
            self
        }
    }

    /// Receives a character.
    pub open spec fn step(self, c: char) -> Terminal {
        match self.received {
            Received::Nothing => if c == ESC {
                Terminal { received: Received::Escape, ..self }
            } else if c == '\r' {
                Terminal { col: 0, ..self }
            } else if c == '\n' {
                Terminal { row: self.row + 1, col: 0, ..self }
            } else if control(c) {
                self
            } else {
                self.put(c)
            },
            Received::Escape => if c == '[' {
                Terminal { received: Received::Sequence(None), ..self }
            } else {
                Terminal { received: Received::Nothing, ..self }
            },
            Received::Sequence(number) => if '0' <= c <= '9' {
                let d = c as int - '0' as int;
                let n = match number {
                    Some(n) => n as int,
                    None => 0,
                };
                Terminal { received: Received::Sequence(Some((10 * n + d) as nat)), ..self }
            } else if c == ';' {
                Terminal { received: Received::Sequence(None), ..self }
            } else {
                Terminal { received: Received::Nothing, ..self }.command(number, c)
            },
        }
    }

    /// Receives one character after the other.
    pub open spec fn run(self, s: Seq<char>) -> Terminal
        decreases s.len(),
    {
        if s.len() == 0 {
            self
        } else {
            self.run(s.drop_last()).step(s.last())
        }
    }
}

/// Receiving one text behind the other is receiving both.
pub proof fn lemma_run_add(t: Terminal, a: Seq<char>, b: Seq<char>)
    ensures
        t.run(a + b) == t.run(a).run(b),
    decreases b.len(),
{
    if b.len() == 0 {
        assert(a + b == a);
    } else {
        lemma_run_add(t, a, b.drop_last());
        assert((a + b).drop_last() == a + b.drop_last());
        assert((a + b).last() == b.last());
    }
}

proof fn lemma_run_one(t: Terminal, c: char)
    ensures
        t.run(seq![c]) == t.step(c),
{
    assert(seq![c].drop_last() == Seq::<char>::empty());
    reveal_with_fuel(Terminal::run, 2);
}

proof fn lemma_run_decimal(t: Terminal, n: nat)
    requires
        t.received == Received::Sequence(None),
    ensures
        t.run(decimal(n)) == (Terminal { received: Received::Sequence(Some(n)), ..t }),
    decreases n,
{
    if n < 10 {
        lemma_run_one(t, digit(n as int));
    } else {
        lemma_run_decimal(t, n / 10);
        let d = digit((n % 10) as int);
        assert(decimal(n).drop_last() == decimal(n / 10));
        assert(decimal(n).last() == d);
    }
}

proof fn lemma_run_introducer(t: Terminal)
    requires
        t.ready(),
    ensures
        t.run(seq![ESC, '[']) == (Terminal { received: Received::Sequence(None), ..t }),
{
    assert(seq![ESC, '['].drop_last() == seq![ESC]);
    lemma_run_one(t, ESC);
}

proof fn lemma_run_csi(t: Terminal, n: int, letter: char)
    requires
        t.ready(),
        letter == 'A' || letter == 'B' || letter == 'C',
    ensures
        n > 0 ==> t.run(csi(n, letter)) == t.command(Some(n as nat), letter),
        n <= 0 ==> t.run(csi(n, letter)) == t,
{
    if n > 0 {
        let t1 = Terminal { received: Received::Sequence(None), ..t };
        lemma_run_introducer(t);
        lemma_run_add(t, seq![ESC, '['] + decimal(n as nat), seq![letter]);
        lemma_run_add(t, seq![ESC, '['], decimal(n as nat));
        lemma_run_decimal(t1, n as nat);
        lemma_run_one(Terminal { received: Received::Sequence(Some(n as nat)), ..t }, letter);
        assert((Terminal {
            received: Received::Nothing,
            ..(Terminal { received: Received::Sequence(Some(n as nat)), ..t })
        }) == t);
    }
}

proof fn lemma_run_plain(t: Terminal, s: Seq<char>)
    requires
        t.ready(),
        !s.contains(ESC),
    ensures
        t.run(s).ready(),
        t.run(s).width == t.width,
    decreases s.len(),
{
    if s.len() > 0 {
        assert(s.contains(s.last()));
        assert forall|c: char| s.drop_last().contains(c) implies s.contains(c) by {
            let k = choose|k: int| 0 <= k < s.drop_last().len() && s.drop_last()[k] == c;
            assert(s[k] == c);
        }
        lemma_run_plain(t, s.drop_last());
    }
}

/// What the terminal has received of a text with colour codes, where a reader of
/// the text stands in a given place.
spec fn follows(t: Terminal, plain: Terminal, scan: Scan) -> bool {
    match scan {
        Scan::Text => t == plain,
        Scan::Escape => t == (Terminal { received: Received::Escape, ..plain }),
        Scan::Code => t.received is Sequence && plain == (Terminal {
            received: Received::Nothing,
            ..t
        }),
        Scan::Lost => true,
    }
}

proof fn lemma_run_colored(t: Terminal, s: Seq<char>)
    requires
        t.ready(),
    ensures
        ({
            let r = read_text(Reading { scan: Scan::Text, seen: seq![] }, s);
            &&& !r.seen.contains(ESC)
            &&& t.run(r.seen).ready()
            &&& follows(t.run(s), t.run(r.seen), r.scan)
        }),
    decreases s.len(),
{
    let init = Reading { scan: Scan::Text, seen: Seq::<char>::empty() };
    if s.len() > 0 {
        let c = s.last();
        let before = read_text(init, s.drop_last());
        let after = read_text(init, s);
        lemma_run_colored(t, s.drop_last());
        assert(after == read_char(before, c));
        let plain = t.run(before.seen);
        match before.scan {
            Scan::Text => {
                if c != ESC {
                    assert(after.seen.drop_last() == before.seen);
                    assert(!after.seen.contains(ESC)) by {
                        if after.seen.contains(ESC) {
                            let k = choose|k: int|
                                0 <= k < after.seen.len() && after.seen[k] == ESC;
                            assert(before.seen[k] == ESC);
                        }
                    }
                    lemma_run_plain(t, after.seen);
                }
            },
            Scan::Escape => {
                if c == '[' {
                    assert(plain == (Terminal { received: Received::Nothing, ..t.run(s) }));
                }
            },
            Scan::Code => {
                if '0' <= c <= '9' || c == ';' {
                    assert(plain == (Terminal { received: Received::Nothing, ..t.run(s) }));
                }
            },
            Scan::Lost => {},
        }
    } else {
        assert(read_text(init, s) == init);
    }
}

/// Text that a terminal displays as it is.
pub open spec fn printable(s: Seq<char>) -> bool {
    forall|i: int| 0 <= i < s.len() ==> !control(#[trigger] s[i])
}

proof fn lemma_next_cell(p: int, w: int)
    requires
        0 <= p,
        1 <= w,
    ensures
        ({
            let (row, col) = end_cell(p, w);
            let r = if col >= w {
                row + 1
            } else {
                row
            };
            let k = if col >= w {
                0
            } else {
                col
            };
            &&& (r, k) == cell(p, w)
            &&& end_cell(p + 1, w) == (r, k + 1)
            &&& 0 <= col <= w
            &&& 0 <= k < w
        }),
{
    let q = p / w;
    let m = p % w;
    assert(p == q * w + m && 0 <= m < w && 0 <= q) by (nonlinear_arith)
        requires
            1 <= w,
            0 <= p,
            q == p / w,
            m == p % w,
    ;
    if m + 1 == w {
        assert((p + 1) / w == q + 1 && (p + 1) % w == 0) by (nonlinear_arith)
            requires
                1 <= w,
                p + 1 == q * w + w,
        ;
    } else {
        assert((p + 1) / w == q && (p + 1) % w == m + 1) by (nonlinear_arith)
            requires
                1 <= w,
                0 <= m,
                m + 1 < w,
                p + 1 == q * w + (m + 1),
        ;
    }
}

proof fn lemma_cell_is(p: int, w: int, row: int, col: int)
    requires
        0 <= p,
        1 <= w,
        0 <= col < w,
    ensures
        row * w + col == p <==> (row, col) == cell(p, w),
{
    let q = p / w;
    let m = p % w;
    assert(p == q * w + m && 0 <= m < w) by (nonlinear_arith)
        requires
            1 <= w,
            0 <= p,
            q == p / w,
            m == p % w,
    ;
    assert(row * w + col == q * w + m ==> row == q && col == m) by (nonlinear_arith)
        requires
            1 <= w,
            0 <= m < w,
            0 <= col < w,
    ;
}

/// `t` shows the characters of `s` row by row from `base` on, and elsewhere what
/// `before` shows.
pub open spec fn shows(t: Terminal, before: Terminal, base: int, s: Seq<char>) -> bool {
    forall|row: int, col: int|
        0 <= col < t.width ==> #[trigger] t.at(row, col) == {
            let p = (row - base) * t.width + col;
            if 0 <= p < s.len() {
                s[p]
            } else {
                before.at(row, col)
            }
        }
}

/// Printing text from the first column on shows it row by row.
pub proof fn lemma_run_printable(t: Terminal, s: Seq<char>)
    requires
        t.ready(),
        t.col == 0,
        1 <= t.width,
        printable(s),
    ensures
        ({
            let r = t.run(s);
            &&& r.ready()
            &&& r.width == t.width
            &&& (r.row, r.col) == (
                t.row + end_cell(s.len() as int, t.width).0,
                end_cell(s.len() as int, t.width).1,
            )
            &&& shows(r, t, t.row, s)
        }),
    decreases s.len(),
{
    let w = t.width;
    let r = t.run(s);
    if s.len() == 0 {
        assert(0int / w == 0 && 0int % w == 0) by (nonlinear_arith)
            requires
                1 <= w,
        ;
    } else {
        let s1 = s.drop_last();
        let p = s1.len() as int;
        let c = s.last();
        assert forall|i: int| 0 <= i < s1.len() implies !control(#[trigger] s1[i]) by {
            assert(s1[i] == s[i]);
        }
        lemma_run_printable(t, s1);
        let r1 = t.run(s1);
        assert(c == s[p]);
        assert(!control(c));
        assert(r == r1.put(c));
        lemma_next_cell(p, w);
        assert forall|row: int, col: int| 0 <= col < w implies #[trigger] r.at(row, col) == {
            let k = (row - t.row) * w + col;
            if 0 <= k < s.len() {
                s[k]
            } else {
                t.at(row, col)
            }
        } by {
            lemma_cell_is(p, w, row - t.row, col);
            let k = (row - t.row) * w + col;
            assert(r1.at(row, col) == if 0 <= k < s1.len() {
                s1[k]
            } else {
                t.at(row, col)
            });
            assert(r.at(row, col) == if row == t.row + cell(p, w).0 && col == cell(p, w).1 {
                c
            } else {
                r1.at(row, col)
            });
        }
    }
}

/// What a redraw leaves on the terminal, whatever was displayed of the line before
/// from row `base` on: the prompt and the line once, wrapped at the width of the
/// terminal, blanks behind them, the rows above untouched, and the cursor where
/// the next character is to go.
///
/// The cursor was in row `from_row` of what was displayed. `display` is the line
/// as a highlighter gives it, and `line` what is visible of that. Neither the
/// prompt nor the line holds control characters.
pub proof fn law_redraw_displays_the_line_once(
    t: Terminal,
    base: int,
    prompt: Seq<char>,
    line: Seq<char>,
    display: Seq<char>,
    cursor: int,
    from_row: int,
)
    requires
        t.ready(),
        1 <= t.width,
        0 <= base,
        0 <= from_row,
        t.row == base + from_row,
        printable(prompt),
        printable(line),
        visible(display) == Some(line),
        0 <= cursor <= line.len(),
    ensures
        ({
            let n = prompt.len() as int;
            let len = line.len() as int;
            let target = cursor_cell(n, len, cursor, t.width);
            let r = t.run(redraw_text(prompt, display, len, cursor, t.width, from_row));
            &&& r.ready()
            &&& r.width == t.width
            &&& r.row == base + target.0
            &&& r.col == if target.1 < t.width {
                target.1
            } else {
                t.width - 1
            }
            &&& forall|row: int, col: int|
                0 <= col < t.width ==> #[trigger] r.at(row, col) == {
                    let p = (row - base) * t.width + col;
                    if row < base {
                        t.at(row, col)
                    } else if p < n + len {
                        (prompt + line)[p]
                    } else {
                        ' '
                    }
                }
        }),
{
    let w = t.width;
    let n = prompt.len() as int;
    let len = line.len() as int;
    let end = end_cell(n + len, w);
    let target = cursor_cell(n, len, cursor, w);
    let full = leaves_full_row(n, len, cursor, w);
    let up = rows_up(n, len, cursor, w);
    law_cursor_lies_within_the_rows(n, len, cursor, w);
    law_cursor_lies_within_the_rows(n, len, len, w);

    let a = csi(from_row, 'A');
    let b = seq!['\r', ESC, '[', 'J'];
    let c = prompt + display;
    let d = if full {
        seq!['\n']
    } else {
        seq![]
    };
    let e = csi(up, 'A');
    let f = seq!['\r'];
    let g = csi(target.1, 'C');
    let all = redraw_text(prompt, display, len, cursor, w, from_row);
    assert(all == a + b + c + d + e + f + g);

    let ta = t.run(a);
    lemma_run_csi(t, from_row, 'A');
    assert(ta.row == base);

    let tb = ta.run(b);
    assert(tb == (Terminal { col: 0, ..ta }).cleared()) by {
        assert(b == seq!['\r'] + (seq![ESC, '['] + seq!['J']));
        lemma_run_add(ta, seq!['\r'], seq![ESC, '['] + seq!['J']);
        lemma_run_one(ta, '\r');
        let t0 = Terminal { col: 0, ..ta };
        lemma_run_add(t0, seq![ESC, '['], seq!['J']);
        lemma_run_introducer(t0);
        let t1 = Terminal { received: Received::Sequence(None), ..t0 };
        lemma_run_one(t1, 'J');
        assert((Terminal { received: Received::Nothing, ..t1 }) == t0);
    }

    let tc = tb.run(c);
    let plain = prompt + line;
    assert(tc == tb.run(plain)) by {
        lemma_run_add(tb, prompt, display);
        lemma_run_add(tb, prompt, line);
        assert(!prompt.contains(ESC)) by {
            if prompt.contains(ESC) {
                let k = choose|k: int| 0 <= k < prompt.len() && prompt[k] == ESC;
                assert(!control(prompt[k]));
            }
        }
        lemma_run_plain(tb, prompt);
        lemma_run_colored(tb.run(prompt), display);
    }
    assert(printable(plain)) by {
        assert forall|i: int| 0 <= i < plain.len() implies !control(#[trigger] plain[i]) by {
            if i < n {
                assert(plain[i] == prompt[i]);
            } else {
                assert(plain[i] == line[i - n]);
            }
        }
    }
    lemma_run_printable(tb, plain);
    assert(tc.row == base + end.0 && tc.col == end.1);

    let td = tc.run(d);
    if full {
        lemma_run_one(tc, '\n');
    } else {
        assert(td == tc);
    }
    let te = td.run(e);
    lemma_run_csi(td, up, 'A');
    assert(target.0 <= end.0);
    assert(te.row == base + target.0);
    let tf = te.run(f);
    lemma_run_one(te, '\r');
    let tg = tf.run(g);
    lemma_run_csi(tf, target.1, 'C');

    lemma_run_add(t, a + b + c + d + e + f, g);
    lemma_run_add(t, a + b + c + d + e, f);
    lemma_run_add(t, a + b + c + d, e);
    lemma_run_add(t, a + b + c, d);
    lemma_run_add(t, a + b, c);
    lemma_run_add(t, a, b);
    assert(t.run(all) == tg);

    assert forall|row: int, col: int| 0 <= col < w implies #[trigger] tg.at(row, col) == {
        let p = (row - base) * w + col;
        if row < base {
            t.at(row, col)
        } else if p < n + len {
            plain[p]
        } else {
            ' '
        }
    } by {
        let p = (row - base) * w + col;
        assert(tg.at(row, col) == tc.at(row, col));
        assert(tb.at(row, col) == if row >= base {
            ' '
        } else {
            t.at(row, col)
        });
        if row < base {
            assert(p < 0) by (nonlinear_arith)
                requires
                    p == (row - base) * w + col,
                    row < base,
                    0 <= col < w,
            ;
        } else {
            assert(0 <= p) by (nonlinear_arith)
                requires
                    p == (row - base) * w + col,
                    row >= base,
                    0 <= col < w,
            ;
        }
    }
}

/// Leaving a line puts the cursor to the start of the row behind its last one, and
/// leaves what is displayed as it is.
pub proof fn law_finish_goes_below_the_line(
    t: Terminal,
    base: int,
    prompt: int,
    line: int,
    from_row: int,
)
    requires
        t.ready(),
        0 <= from_row <= end_cell(prompt + line, t.width).0,
        t.row == base + from_row,
    ensures
        ({
            let r = t.run(finish_text(prompt, line, t.width, from_row));
            &&& r.ready()
            &&& r.row == base + end_cell(prompt + line, t.width).0 + 1
            &&& r.col == 0
            &&& r.cells == t.cells
        }),
{
    let down = end_cell(prompt + line, t.width).0 - from_row;
    lemma_run_add(t, csi(down, 'B'), seq!['\n']);
    lemma_run_csi(t, down, 'B');
    lemma_run_one(t.run(csi(down, 'B')), '\n');
}

/// Clearing the screen blanks it all and puts the cursor to its first row.
pub proof fn law_clear_blanks_the_screen(t: Terminal)
    requires
        t.ready(),
    ensures
        t.run(clear_text()).ready(),
        t.run(clear_text()).row == 0,
        t.run(clear_text()).col == 0,
        t.run(clear_text()).width == t.width,
        forall|row: int, col: int| #[trigger] t.run(clear_text()).at(row, col) == ' ',
{
    let intro = seq![ESC, '['];
    let all = clear_text();
    assert(all == (intro + seq!['2'] + seq!['J']) + (intro + seq!['H']));
    lemma_run_add(t, intro + seq!['2'] + seq!['J'], intro + seq!['H']);
    lemma_run_add(t, intro + seq!['2'], seq!['J']);
    lemma_run_add(t, intro, seq!['2']);
    lemma_run_introducer(t);
    let t1 = t.run(intro);
    lemma_run_one(t1, '2');
    let t2 = t1.run(seq!['2']);
    assert(t2.received == Received::Sequence(Some(2nat)));
    lemma_run_one(t2, 'J');
    let t3 = t2.run(seq!['J']);
    lemma_run_add(t3, intro, seq!['H']);
    lemma_run_introducer(t3);
    lemma_run_one(t3.run(intro), 'H');
}

} // verus!
