use std::io;

use db_cli::editor::{plain_line, DefaultHighlighter, NoCompleter};
use db_cli::keys::{read_key, ByteRead, Key, KeyState, KeyStep};
use db_cli::line::{Effect, LineBuffer};
use db_cli::redraw::{clear, finish};
use db_cli::repl::Turn;
use db_cli::{Completer, Highlighter, History, OutputMode, Readline, ReadlineError, Repl, ReplHandler};

/// A fixed three-keyword completer for testing Tab -- not meant to be
/// realistic, just deterministic: completes an alphanumeric/`_` prefix
/// against `SELECT`/`FROM`/`WHERE`.
struct TestCompleter;

impl Completer for TestCompleter {
    fn complete(&self, line: &str, cursor: usize) -> (usize, Vec<String>) {
        const KEYWORDS: &[&str] = &["SELECT", "SELF", "FROM", "WHERE"];
        let chars: Vec<char> = line.chars().collect();
        let mut start = cursor;
        while start > 0 && (chars[start - 1].is_alphanumeric() || chars[start - 1] == '_') {
            start -= 1;
        }
        let prefix: String = chars[start..cursor].iter().collect();
        if prefix.is_empty() {
            return (start, Vec::new());
        }
        let prefix_upper = prefix.to_ascii_uppercase();
        let candidates: Vec<String> = KEYWORDS
            .iter()
            .filter(|k| k.starts_with(&prefix_upper))
            .map(|s| s.to_string())
            .collect();
        (start, candidates)
    }
}

/// A highlighter that upper-cases the line -- visibly different from the
/// built-in keyword one, but (like any real `Highlighter`) preserves the
/// exact char count so cursor positioning stays correct.
struct TestHighlighter;

impl Highlighter for TestHighlighter {
    fn highlight(&self, line: &str) -> String {
        line.to_uppercase()
    }
}

/// The keys that some bytes make.
fn keys(bytes: &[u8]) -> Vec<Key> {
    let mut found = Vec::new();
    let mut state = KeyState::Start;
    for b in bytes {
        match read_key(state, ByteRead::Byte(*b)) {
            KeyStep::More(next) => state = next,
            KeyStep::Done(key) => {
                found.push(key);
                state = KeyState::Start;
            }
            KeyStep::Fail => panic!("no key"),
        }
    }
    found
}

/// The line, and the cursor in it, that some bytes make of a fresh line.
fn entered(history: &History, bytes: &[u8]) -> (String, usize) {
    let mut line = LineBuffer::new();
    for key in keys(bytes) {
        line.apply(history, key);
    }
    (line.text(), line.cursor())
}

fn typed(bytes: &[u8]) -> (String, usize) {
    entered(&History::new(), bytes)
}

#[test]
fn characters_are_inserted_at_the_cursor() {
    assert_eq!(typed(b"abc"), ("abc".to_string(), 3));
    assert_eq!(typed(b"ac\x1b[Db"), ("abc".to_string(), 2));
    assert_eq!(typed(b"\xe9a"), ("éa".to_string(), 2));
}

#[test]
fn erasing_goes_both_ways() {
    assert_eq!(typed(b"abc\x7f"), ("ab".to_string(), 2));
    assert_eq!(typed(b"\x7f"), ("".to_string(), 0));
    assert_eq!(typed(b"abc\x1b[D\x1b[3~"), ("ab".to_string(), 2));
    assert_eq!(typed(b"abc\x1b[3~"), ("abc".to_string(), 3));
    assert_eq!(typed(b"abc\x01\x1b[3~"), ("bc".to_string(), 0));
    let mut line = LineBuffer::new();
    let none = History::new();
    line.apply(&none, Key::Char('x'));
    assert_eq!(line.apply(&none, Key::Char('\x7f')), Effect::Show);
    assert_eq!(line.text(), "");
}

#[test]
fn kills_take_out_parts_of_the_line() {
    assert_eq!(typed(b"ab cd\x1b[D\x0b"), ("ab c".to_string(), 4));
    assert_eq!(typed(b"ab cd\x1b[D\x15"), ("d".to_string(), 0));
    assert_eq!(typed(b"ab cd ef\x1b[D\x17"), ("ab cd f".to_string(), 6));
    assert_eq!(typed(b"ab cd\x02\x02\x15\x0b"), ("".to_string(), 0));
}

#[test]
fn motions_stay_within_the_line() {
    assert_eq!(typed(b"ab\x06\x1b[C"), ("ab".to_string(), 2));
    assert_eq!(typed(b"ab\x01\x02\x1b[D"), ("ab".to_string(), 0));
    assert_eq!(typed(b"ab\x02\x06"), ("ab".to_string(), 2));
    assert_eq!(typed(b"ab cd\x1b[H\x1bf"), ("ab cd".to_string(), 3));
    assert_eq!(typed(b"ab cd\x1b[H\x1bf\x1b[F"), ("ab cd".to_string(), 5));
    assert_eq!(typed(b"ab cd\x1bb\x1bb\x1bb"), ("ab cd".to_string(), 0));
}

#[test]
fn other_keys_do_nothing() {
    let none = History::new();
    let mut line = LineBuffer::new();
    line.apply(&none, Key::Char('a'));
    assert_eq!(line.apply(&none, Key::Unknown), Effect::Still);
    assert_eq!(line.apply(&none, Key::Alt('x')), Effect::Still);
    assert_eq!(line.apply(&none, Key::Char('\x07')), Effect::Still);
    assert_eq!(line.apply(&none, Key::Char('\u{85}')), Effect::Still);
    assert_eq!(line.apply(&none, Key::Char('\x04')), Effect::Still);
    assert_eq!(line.apply(&none, Key::Up), Effect::Still);
    assert_eq!((line.text(), line.cursor()), ("a".to_string(), 1));
    assert_eq!(line.apply(&none, Key::Char('\x0c')), Effect::Clear);
    assert_eq!(line.apply(&none, Key::Char('\t')), Effect::Complete);
    assert_eq!(line.apply(&none, Key::Char('\r')), Effect::Submit);
    assert_eq!(line.apply(&none, Key::Char('\n')), Effect::Submit);
    assert_eq!(line.apply(&none, Key::Char('\x03')), Effect::Interrupt);
    assert_eq!(LineBuffer::new().apply(&none, Key::Char('\x04')), Effect::Finish);
}

#[test]
fn history_is_walked_up_and_down() {
    let mut h = History::new();
    h.add("one");
    h.add("two");
    assert_eq!(entered(&h, b"x\x1b[A"), ("two".to_string(), 3));
    assert_eq!(entered(&h, b"x\x1b[A\x1b[A"), ("one".to_string(), 3));
    assert_eq!(entered(&h, b"x\x1b[A\x1b[A\x1b[A"), ("one".to_string(), 3));
    assert_eq!(entered(&h, b"x\x1b[A\x1b[A\x1b[B"), ("two".to_string(), 3));
    assert_eq!(entered(&h, b"x\x1b[A\x1b[B"), ("".to_string(), 0));
    assert_eq!(entered(&h, b"x\x1b[B"), ("".to_string(), 0));
}

#[test]
fn candidates_complete_the_word() {
    let none = History::new();
    let mut line = LineBuffer::new();
    for c in "a sel b".chars() {
        line.apply(&none, Key::Char(c));
    }
    line.apply(&none, Key::Left);
    line.apply(&none, Key::Left);
    assert!(!line.complete(2, &[]));
    let several = ["select".to_string(), "self".to_string()];
    assert!(!line.complete(2, &several));
    assert_eq!((line.text(), line.cursor()), ("a sel b".to_string(), 5));
    assert!(line.complete(2, &["select".to_string()]));
    assert_eq!((line.text(), line.cursor()), ("a select b".to_string(), 8));
}

#[test]
fn candidates_that_share_more_complete_a_part() {
    let none = History::new();
    let mut line = LineBuffer::new();
    line.apply(&none, Key::Char('s'));
    assert!(line.complete(0, &["SELECT".to_string(), "SELF".to_string()]));
    assert_eq!((line.text(), line.cursor()), ("SEL".to_string(), 3));
}

/// Presses keys on a fresh line; what the last one printed, and the line.
fn pressed<G: Highlighter, C: Completer>(
    editor: &mut Readline<G, C>,
    bytes: &[u8],
) -> (String, String, usize) {
    let mut line = editor.begin_line();
    let mut output = String::new();
    for key in keys(bytes) {
        let r = editor.press(&mut line, "> ", key, 80);
        assert!(r.done.is_none());
        output = r.output;
    }
    (output, line.text(), line.cursor())
}

#[test]
fn tab_completes_by_the_completer() {
    let mut editor = Readline::new(true).set_completer(TestCompleter);
    editor.set_color(false);
    let (output, line, cursor) = pressed(&mut editor, b"x fr\t");
    assert_eq!((line.as_str(), cursor), ("x FROM", 6));
    assert_eq!(output, "\r\x1b[J> x FROM\r\x1b[8C");
    assert_eq!(pressed(&mut editor, b"s\t"), ("\r\x1b[J> SEL\r\x1b[5C".to_string(), "SEL".to_string(), 3));
    assert_eq!(pressed(&mut editor, b"sel\t"), ("".to_string(), "sel".to_string(), 3));
    assert_eq!(pressed(&mut editor, b"xyz\t"), ("".to_string(), "xyz".to_string(), 3));
    assert_eq!(pressed(&mut editor, b"\t"), ("".to_string(), "".to_string(), 0));
}

#[test]
fn tab_does_nothing_without_a_completer() {
    let mut editor = Readline::new(true);
    assert_eq!(pressed(&mut editor, b"sel\t").1, "sel");
    assert_eq!(NoCompleter.complete("sel", 3), (3, Vec::new()));
}

#[test]
fn lines_are_displayed_by_the_highlighter() {
    let mut editor = Readline::new(true);
    assert_eq!(pressed(&mut editor, b"by").0, "\r\x1b[J> \x1b[1;34mby\x1b[0m\r\x1b[4C");
    assert_eq!(DefaultHighlighter.highlight("by"), "\x1b[1;34mby\x1b[0m");
    editor.set_color(false);
    assert_eq!(pressed(&mut editor, b"by").0, "\r\x1b[J> by\r\x1b[4C");
    let mut editor = editor.set_highlighter(TestHighlighter);
    assert_eq!(pressed(&mut editor, b"by").0, "\r\x1b[J> by\r\x1b[4C");
    editor.set_color(true);
    assert_eq!(pressed(&mut editor, b"by").0, "\r\x1b[J> BY\r\x1b[4C");
}

#[test]
fn settings_survive_a_new_highlighter_or_completer() {
    let mut editor = Readline::new(true);
    editor.add_history_entry("one");
    let mut editor = editor.set_highlighter(TestHighlighter).set_completer(TestCompleter);
    assert!(editor.is_tty());
    assert!(!Readline::new(false).is_tty());
    editor.load_history("two\nthree");
    assert_eq!(editor.save_history(), "one\ntwo\nthree");
    assert_eq!(pressed(&mut editor, b"\x1b[A").1, "three");
}

#[test]
fn reading_ends_with_a_line_or_an_error() {
    let mut editor = Readline::new(true);
    let mut line = editor.begin_line();
    for c in "select".chars() {
        editor.press(&mut line, "> ", Key::Char(c), 80);
    }
    let r = editor.press(&mut line, "> ", Key::Char('\r'), 80);
    assert_eq!(r.output, "\n");
    assert!(matches!(r.done, Some(Ok(text)) if text == "select"));
    let r = editor.press(&mut line, "> ", Key::Char('\x03'), 80);
    assert_eq!(r.output, "\n");
    assert!(matches!(r.done, Some(Err(ReadlineError::Interrupted))));
    let r = editor.press(&mut line, "> ", Key::Char('\x04'), 80);
    assert_eq!(r.output, "");
    assert!(r.done.is_none());
    let mut line = editor.begin_line();
    let r = editor.press(&mut line, "> ", Key::Char('\x04'), 80);
    assert_eq!(r.output, "\n");
    assert!(matches!(r.done, Some(Err(ReadlineError::Eof))));
}

#[test]
fn wrapped_lines_are_displayed_from_their_first_row() {
    let mut editor = Readline::new(true);
    editor.set_color(false);
    let mut line = editor.begin_line();
    for c in "abcd".chars() {
        editor.press(&mut line, "> ", Key::Char(c), 5);
    }
    // "> abc" fills the first row, so that "d" stands in the second.
    let r = editor.press(&mut line, "> ", Key::Left, 5);
    assert_eq!(r.output, "\x1b[1A\r\x1b[J> abcd\r");
    let r = editor.press(&mut line, "> ", Key::Left, 5);
    assert_eq!(r.output, "\x1b[1A\r\x1b[J> abcd\x1b[1A\r\x1b[4C");
    // Enter goes below the last row.
    let r = editor.press(&mut line, "> ", Key::Char('\n'), 5);
    assert_eq!(r.output, "\x1b[1B\n");
}

#[test]
fn full_rows_are_left_by_a_line_feed() {
    let mut editor = Readline::new(true);
    editor.set_color(false);
    let mut line = editor.begin_line();
    for c in "abcdefgh".chars() {
        editor.press(&mut line, "> ", Key::Char(c), 5);
    }
    let r = editor.press(&mut line, "> ", Key::Home, 5);
    assert_eq!(r.output, "\x1b[1A\r\x1b[J> abcdefgh\n\x1b[2A\r\x1b[2C");
}

#[test]
fn clearing_the_screen_displays_the_line_at_its_top() {
    let mut editor = Readline::new(true);
    editor.set_color(false);
    let mut line = editor.begin_line();
    editor.press(&mut line, "> ", Key::Char('a'), 80);
    let r = editor.press(&mut line, "> ", Key::Char('\x0c'), 80);
    assert_eq!(r.output, "\x1b[2J\x1b[H\r\x1b[J> a\r\x1b[3C");
    assert_eq!(clear(), "\x1b[2J\x1b[H");
}

#[test]
fn leaving_a_line_counts_characters() {
    assert_eq!(finish("> ", "größe", 7, 0), "\n");
    assert_eq!(finish("> ", "größen", 7, 0), "\x1b[1B\n");
    assert_eq!(finish("> ", "größen", 7, 1), "\n");
    assert_eq!(finish("", "", 0, 0), "\n");
}

#[test]
fn plain_reads_drop_the_line_feed() {
    assert!(matches!(plain_line(Ok(0), ""), Err(ReadlineError::Eof)));
    assert!(matches!(plain_line(Ok(4), "abc\n"), Ok(s) if s == "abc"));
    assert!(matches!(plain_line(Ok(5), "abc\r\n"), Ok(s) if s == "abc\r"));
    assert!(matches!(plain_line(Ok(3), "abc"), Ok(s) if s == "abc"));
    let error = io::Error::new(io::ErrorKind::Other, "gone");
    assert!(matches!(plain_line(Err(error), ""), Err(ReadlineError::Io(e)) if e.to_string() == "gone"));
}

#[test]
fn errors_have_messages() {
    assert_eq!(ReadlineError::Eof.message(), "EOF");
    assert_eq!(ReadlineError::Interrupted.message(), "interrupted");
    let error = io::Error::new(io::ErrorKind::Other, "gone");
    assert_eq!(ReadlineError::Io(error).message(), "gone");
}

struct Echo;

impl ReplHandler for Echo {
    type Output = String;

    fn execute(&mut self, input: &str) -> Result<String, String> {
        Ok(input.to_string())
    }

    fn format(&self, output: &String, _mode: OutputMode, _headers: bool) -> String {
        output.clone()
    }
}

#[test]
fn colour_follows_the_loop() {
    let mut repl = Repl::new(Echo);
    let mut editor = Readline::new(true);
    assert!(matches!(
        repl.take_turn(&mut editor, Ok(".color off".to_string())),
        Turn::Again(None)
    ));
    assert_eq!(pressed(&mut editor, b"by").0, "\r\x1b[J> by\r\x1b[4C");
    assert!(matches!(
        repl.take_turn(&mut editor, Ok(".color on".to_string())),
        Turn::Again(None)
    ));
    assert_eq!(pressed(&mut editor, b"by").0, "\r\x1b[J> \x1b[1;34mby\x1b[0m\r\x1b[4C");
}
