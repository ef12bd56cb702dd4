//! The editor and the terminal together: what is on the screen while a line is
//! entered, from the prompt to the key that ends it.

use vstd::prelude::*;

use crate::ansi::{
    law_highlighting_keeps_the_visible_text, lemma_read_plain, visible, Reading, Scan, ESC,
};
use crate::editor::{
    answers, displays, shown, Completer, DefaultHighlighter, Highlighter, Readline, Response,
};
use crate::highlight::{word_parts, word_starts};
use crate::keys::Key;
use crate::layout::{cursor_cell, law_cursor_lies_within_the_rows, rows_of};
use crate::line::{key_action, recalled, Action, Line};
use crate::redraw::{clear_text, redraw_text};
use crate::screen::{
    law_clear_blanks_the_screen, law_finish_goes_below_the_line, law_redraw_displays_the_line_once,
    lemma_run_add, lemma_run_printable, printable, Terminal,
};
use crate::text::control;

verus! {

/// The terminal shows `prompt` and behind it `look`, wrapped at its width, from the
/// first column of the row `top` on, and blanks behind that. `look` is what the
/// user sees of `line`, character for character. The cursor is at its place in the
/// line, in row `row` from the top; where that is behind a full row, it may also
/// stand in the last column.
pub open spec fn on_screen(
    t: Terminal,
    top: int,
    prompt: Seq<char>,
    look: Seq<char>,
    line: Line,
    row: int,
) -> bool {
    let target = cursor_cell(prompt.len() as int, line.text.len() as int, line.cursor, t.width);
    &&& t.ready()
    &&& 1 <= t.width
    &&& 0 <= top
    &&& look.len() == line.text.len()
    &&& row == target.0
    &&& t.row == top + row
    &&& if target.1 < t.width {
        t.col == target.1
    } else {
        t.col == t.width || t.col == t.width - 1
    }
    &&& forall|r: int, c: int|
        r >= top && 0 <= c < t.width ==> #[trigger] t.at(r, c) == {
            let p = (r - top) * t.width + c;
            if p < prompt.len() + look.len() {
                (prompt + look)[p]
            } else {
                ' '
            }
        }
}

/// `look` is what a user sees of `text` as `painter` gives it.
pub open spec fn looks<G: Highlighter>(
    painter: G,
    colored: bool,
    text: Seq<char>,
    look: Seq<char>,
) -> bool {
    exists|display: Seq<char>| #[trigger]
        displays(painter, colored, text, display) && visible(display) == Some(look)
}

/// However `painter` gives `text`, as many characters are visible as `text` has, and
/// none of them is a control character.
pub open spec fn steady<G: Highlighter>(painter: G, colored: bool, text: Seq<char>) -> bool {
    forall|display: Seq<char>| #[trigger]
        displays(painter, colored, text, display) ==> (visible(display) matches Some(look)
            && look.len() == text.len() && printable(look))
}

/// Printing the prompt on a blank part of the screen begins a line there. The prompt
/// is no wider than the terminal.
pub proof fn law_prompt_begins_a_line(t: Terminal, prompt: Seq<char>)
    requires
        t.ready(),
        1 <= t.width,
        0 <= t.row,
        t.col == 0,
        printable(prompt),
        prompt.len() <= t.width,
        forall|r: int, c: int| r >= t.row && 0 <= c < t.width ==> #[trigger] t.at(r, c) == ' ',
    ensures
        on_screen(t.run(prompt), t.row, prompt, seq![], recalled(seq![], None), 0),
{
    lemma_run_printable(t, prompt);
    let n = prompt.len() as int;
    let w = t.width;
    assert(n < w ==> n / w == 0 && n % w == n) by (nonlinear_arith)
        requires
            0 <= n,
            1 <= w,
    ;
    assert(n == w ==> n / w == 1 && n % w == 0) by (nonlinear_arith)
        requires
            1 <= w,
    ;
    let t2 = t.run(prompt);
    let look = Seq::<char>::empty();
    assert(prompt + look =~= prompt);
    assert forall|r: int, c: int| r >= t.row && 0 <= c < w implies #[trigger] t2.at(r, c) == {
        let p = (r - t.row) * w + c;
        if p < n {
            prompt[p]
        } else {
            ' '
        }
    } by {
        let p = (r - t.row) * w + c;
        assert(0 <= p) by (nonlinear_arith)
            requires
                p == (r - t.row) * w + c,
                r >= t.row,
                0 <= c < w,
        ;
    }
}

/// Redrawing a line puts it on the screen.
proof fn lemma_shown<G: Highlighter, C: Completer>(
    before: Readline<G, C>,
    after: Readline<G, C>,
    prompt: Seq<char>,
    line: Line,
    t: Terminal,
    top: int,
    from_row: int,
    output: Seq<char>,
) -> (look: Seq<char>)
    requires
        shown(before, after, prompt, line, t.width, from_row, seq![], output),
        steady(before.painter(), before.colored(), line.text),
        0 <= line.cursor <= line.text.len(),
        printable(prompt),
        t.ready(),
        1 <= t.width,
        0 <= top,
        0 <= from_row,
        t.row == top + from_row,
    ensures
        looks(before.painter(), before.colored(), line.text, look),
        on_screen(t.run(output), top, prompt, look, line, after.row()),
        t.run(output).width == t.width,
        forall|r: int, c: int|
            r < top && 0 <= c < t.width ==> #[trigger] t.run(output).at(r, c) == t.at(r, c),
{
    let len = line.text.len() as int;
    let display = choose|display: Seq<char>| #[trigger]
        displays(before.painter(), before.colored(), line.text, display) && output == Seq::<
            char,
        >::empty() + redraw_text(
            prompt,
            display,
            len,
            line.cursor,
            t.width,
            from_row,
        );
    let look = visible(display)->0;
    assert(output =~= redraw_text(
        prompt,
        display,
        len,
        line.cursor,
        t.width,
        from_row,
    ));
    law_redraw_displays_the_line_once(t, top, prompt, look, display, line.cursor, from_row);
    law_cursor_lies_within_the_rows(prompt.len() as int, len, line.cursor, t.width);
    look
}

/// The first row of the line once a key has been answered.
pub open spec fn top_after(action: Action, top: int) -> int {
    if action is Clear {
        0
    } else {
        top
    }
}

/// The line stays on the screen: where it is on the screen before a key that does
/// not end it, what the editor answers to the key puts the line that the key makes
/// there, once, with the cursor at its place. It stays in the same rows, and what is
/// above them as it is, unless the key clears the screen; then it moves to the top.
///
/// The highlighter keeps the number of visible characters.
pub proof fn law_keys_keep_the_line_on_the_screen<G: Highlighter, C: Completer>(
    before: Readline<G, C>,
    line: Line,
    prompt: Seq<char>,
    key: Key,
    after: Readline<G, C>,
    next: Line,
    r: Response,
    t: Terminal,
    top: int,
    look: Seq<char>,
)
    requires
        answers(before, line, prompt, key, t.width, after, next, r),
        r.done is None,
        next.valid(),
        on_screen(t, top, prompt, look, line, before.row()),
        printable(prompt),
        steady(before.painter(), before.colored(), next.text),
        0 <= line.cursor <= line.text.len(),
    ensures
        ({
            let t2 = t.run(r.output@);
            &&& exists|look2: Seq<char>|
                {
                    &&& #[trigger] on_screen(
                        t2,
                        top_after(key_action(line, before.past(), key), top),
                        prompt,
                        look2,
                        next,
                        after.row(),
                    )
                    &&& looks(before.painter(), before.colored(), next.text, look2) || (look2
                        == look && next.text == line.text)
                }
            &&& t2.width == t.width
            &&& !(key_action(line, before.past(), key) is Clear) ==> forall|r: int, c: int|
                r < top && 0 <= c < t.width ==> #[trigger] t2.at(r, c) == t.at(r, c)
        }),
{
    let out = r.output@;
    law_cursor_lies_within_the_rows(
        prompt.len() as int,
        line.text.len() as int,
        line.cursor,
        t.width,
    );
    let action = key_action(line, before.past(), key);
    match action {
        Action::Still(l) => {
            assert(t.run(out) == t);
            assert(on_screen(t.run(out), top_after(action, top), prompt, look, next, after.row()));
        },
        Action::Show(l) => {
            let look2 = lemma_shown(before, after, prompt, next, t, top, before.row(), out);
            assert(on_screen(t.run(out), top_after(action, top), prompt, look2, next, after.row()));
        },
        Action::Clear => {
            law_clear_blanks_the_screen(t);
            let t1 = t.run(clear_text());
            let display = choose|display: Seq<char>| #[trigger]
                displays(before.painter(), before.colored(), line.text, display) && out
                    == clear_text() + redraw_text(
                    prompt,
                    display,
                    line.text.len() as int,
                    line.cursor,
                    t.width,
                    0,
                );
            let rest = redraw_text(
                prompt,
                display,
                line.text.len() as int,
                line.cursor,
                t.width,
                0,
            );
            lemma_run_add(t, clear_text(), rest);
            assert(Seq::<char>::empty() + rest =~= rest);
            assert(shown(before, after, prompt, line, t.width, 0, seq![], rest));
            let look2 = lemma_shown(before, after, prompt, line, t1, 0, 0, rest);
            assert(on_screen(t.run(out), top_after(action, top), prompt, look2, next, after.row()));
        },
        Action::Complete => {
            if out.len() == 0 {
                assert(t.run(out) == t);
            }
            if next == line && after.row() == before.row() && out.len() == 0 {
                assert(on_screen(
                    t.run(out),
                    top_after(action, top),
                    prompt,
                    look,
                    next,
                    after.row(),
                ));
            } else {
                let look2 = lemma_shown(before, after, prompt, next, t, top, before.row(), out);
                assert(on_screen(
                    t.run(out),
                    top_after(action, top),
                    prompt,
                    look2,
                    next,
                    after.row(),
                ));
            }
        },
        _ => {},
    }
}

/// Ending a line leaves it on the screen as it is, and puts the cursor to the start
/// of the row below its last one.
pub proof fn law_ending_a_line_goes_below_it<G: Highlighter, C: Completer>(
    before: Readline<G, C>,
    line: Line,
    prompt: Seq<char>,
    key: Key,
    after: Readline<G, C>,
    next: Line,
    r: Response,
    t: Terminal,
    top: int,
    look: Seq<char>,
)
    requires
        answers(before, line, prompt, key, t.width, after, next, r),
        r.done is Some,
        on_screen(t, top, prompt, look, line, before.row()),
        0 <= line.cursor <= line.text.len(),
    ensures
        ({
            let t2 = t.run(r.output@);
            &&& t2.ready()
            &&& t2.cells == t.cells
            &&& t2.row == top + rows_of((prompt.len() + line.text.len()) as int, t.width)
            &&& t2.col == 0
        }),
{
    let n = prompt.len() as int;
    let len = line.text.len() as int;
    law_cursor_lies_within_the_rows(n, len, line.cursor, t.width);
    law_finish_goes_below_the_line(t, top, n, len, before.row());
}

/// The built-in highlighter shows every character of a line and nothing else, and so
/// does an editor without colours.
pub proof fn law_built_in_highlighter_is_steady(colored: bool, text: Seq<char>)
    requires
        printable(text),
    ensures
        steady(DefaultHighlighter, colored, text),
        forall|look: Seq<char>| #[trigger]
            looks(DefaultHighlighter, colored, text, look) ==> look == text,
{
    assert(!text.contains(ESC)) by {
        if text.contains(ESC) {
            let k = choose|k: int| 0 <= k < text.len() && text[k] == ESC;
            assert(!control(text[k]));
        }
    }
    law_highlighting_keeps_the_visible_text(text, word_starts(text), word_parts(text));
    lemma_read_plain(Reading { scan: Scan::Text, seen: seq![] }, text);
    assert(Seq::<char>::empty() + text =~= text);
}

/// With the built-in highlighter, what is on the screen is the line itself, before a
/// key and after it.
pub proof fn law_built_in_editor_shows_the_line<C: Completer>(
    before: Readline<DefaultHighlighter, C>,
    line: Line,
    prompt: Seq<char>,
    key: Key,
    after: Readline<DefaultHighlighter, C>,
    next: Line,
    r: Response,
    t: Terminal,
    top: int,
)
    requires
        answers(before, line, prompt, key, t.width, after, next, r),
        r.done is None,
        next.valid(),
        on_screen(t, top, prompt, line.text, line, before.row()),
        printable(prompt),
        printable(next.text),
        0 <= line.cursor <= line.text.len(),
    ensures
        on_screen(
            t.run(r.output@),
            top_after(key_action(line, before.past(), key), top),
            prompt,
            next.text,
            next,
            after.row(),
        ),
{
    assert(before.painter() == DefaultHighlighter);
    law_built_in_highlighter_is_steady(before.colored(), next.text);
    law_keys_keep_the_line_on_the_screen(
        before,
        line,
        prompt,
        key,
        after,
        next,
        r,
        t,
        top,
        line.text,
    );
}

} // verus!
