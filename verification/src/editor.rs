//! The line editor: from keys to lines, and to what a terminal displays meanwhile.
//!
//! The editor reads and writes nothing itself. It is told each key and the width
//! of the terminal, and says what to print.

use std::io;

use vstd::prelude::*;

use crate::highlight::{highlight, highlighted, word_parts, word_starts};
use crate::history::{added, entry_lines, newest, History};
use crate::keys::Key;
use crate::layout::cursor_cell;
use crate::line::{
    completed, key_action, law_one_candidate_is_put_in_whole,
    law_several_candidates_put_in_what_they_share, recalled, Action, Effect, Line, LineBuffer,
};
use crate::redraw::{clear, clear_text, finish, finish_text, push_redraw, redraw_text};
use crate::text::{join, texts, trim_end_matches, trimmed_end_matches};

verus! {

/// Trusted: the error that a failed read gives. It is only carried along, and its
/// text taken by `to_string`.
#[verifier::external_type_specification]
#[verifier::external_body]
pub struct ExIoError(io::Error);

/// Why no line was read.
#[derive(Debug)]
pub enum ReadlineError {
    /// The input has ended.
    Eof,
    /// Entering the line was given up.
    Interrupted,
    /// Reading failed.
    Io(io::Error),
}

impl ReadlineError {
    /// The error in words.
    pub fn message(&self) -> (s: String)
        ensures
            match self {
                ReadlineError::Eof => s@ == "EOF"@,
                ReadlineError::Interrupted => s@ == "interrupted"@,
                ReadlineError::Io(e) => vstd::string::to_string_from_display_ensures(e, s),
            },
    {
        match self {
            ReadlineError::Eof => "EOF".to_string(),
            ReadlineError::Interrupted => "interrupted".to_string(),
            ReadlineError::Io(e) => e.to_string(),
        }
    }
}

/// Colours a line of input for display.
///
/// What is visible of the result must have exactly as many characters as `line`:
/// the place of the cursor is computed from `line`. Colour codes are not visible,
/// and may be added.
pub trait Highlighter {
    fn highlight(&self, line: &str) -> (display: String)
    ;
}

/// The built-in highlighter, which knows SQL keywords, literals and dot-commands.
pub struct DefaultHighlighter;

impl Highlighter for DefaultHighlighter {
    fn highlight(&self, line: &str) -> (display: String)
        ensures
            display@ == highlighted(line@, word_starts(line@), word_parts(line@)),
    {
        highlight(line)
    }
}

/// Finds completions for the word at the cursor.
pub trait Completer {
    /// Where the word begins that ends at `cursor`, counted in characters, and
    /// what it can be completed to. No candidates mean no completion; with any, the
    /// word must not begin behind the cursor.
    fn complete(&self, line: &str, cursor: usize) -> (found: (usize, Vec<String>))
        requires
            cursor <= line@.len(),
        ensures
            found.1@.len() > 0 ==> found.0 <= cursor,
    ;
}

/// The built-in completer, which completes nothing.
pub struct NoCompleter;

impl Completer for NoCompleter {
    fn complete(&self, line: &str, cursor: usize) -> (found: (usize, Vec<String>))
        ensures
            found.0 == cursor,
            found.1@.len() == 0,
    {
        (cursor, Vec::new())
    }
}

/// What a key that was pressed leads to.
pub struct Response {
    /// What is to be printed.
    pub output: String,
    /// The line or the error with which reading ends, if it does.
    pub done: Option<Result<String, ReadlineError>>,
}

/// The line editor, with its history and its settings.
pub struct Readline<G: Highlighter, C: Completer> {
    history: History,
    tty: bool,
    color: bool,
    highlighter: G,
    completer: C,
    cursor_row: usize,
}

impl<G: Highlighter, C: Completer> Readline<G, C> {
    /// The entries of the history.
    pub closed spec fn past(&self) -> Seq<Seq<char>> {
        self.history@
    }

    /// Whether the input comes from a terminal.
    pub closed spec fn terminal(&self) -> bool {
        self.tty
    }

    /// Whether the line is displayed in colours.
    pub closed spec fn colored(&self) -> bool {
        self.color
    }

    /// What gives the line its colours.
    pub closed spec fn painter(&self) -> G {
        self.highlighter
    }

    /// What completes words.
    pub closed spec fn finder(&self) -> C {
        self.completer
    }

    /// The row in which the cursor was left, from the first row of the prompt.
    pub closed spec fn row(&self) -> int {
        self.cursor_row as int
    }

    /// The history keeps to its limit.
    pub closed spec fn wf(&self) -> bool {
        self.history.wf()
    }

    /// Everything but the cursor's row is as it is in `other`.
    pub open spec fn same_but_row(&self, other: &Self) -> bool {
        &&& self.past() == other.past()
        &&& self.terminal() == other.terminal()
        &&& self.colored() == other.colored()
        &&& self.painter() == other.painter()
        &&& self.finder() == other.finder()
    }
}

/// `display` is what `painter` makes of `text`, or `text` itself without colours.
pub open spec fn displays<G: Highlighter>(
    painter: G,
    colored: bool,
    text: Seq<char>,
    display: Seq<char>,
) -> bool {
    if colored {
        exists|line: &str, d: String|
            line@ == text && d@ == display && #[trigger] call_ensures(
                G::highlight,
                (&painter, line),
                d,
            )
    } else {
        display == text
    }
}

/// `output` is `lead` and what displays `line` afresh, for a cursor that was left
/// in row `from_row`; the editor notes the row in which the cursor is then.
pub open spec fn shown<G: Highlighter, C: Completer>(
    before: Readline<G, C>,
    after: Readline<G, C>,
    prompt: Seq<char>,
    line: Line,
    width: int,
    from_row: int,
    lead: Seq<char>,
    output: Seq<char>,
) -> bool {
    &&& exists|display: Seq<char>| #[trigger]
        displays(before.painter(), before.colored(), line.text, display) && output == lead
            + redraw_text(prompt, display, line.text.len() as int, line.cursor, width, from_row)
    &&& after.row() == cursor_cell(
        prompt.len() as int,
        line.text.len() as int,
        line.cursor,
        width,
    ).0
}

/// What `before` answers to a key that is pressed while `line` is being entered:
/// the response `r`, the editor `after` and the line `next`.
pub open spec fn answers<G: Highlighter, C: Completer>(
    before: Readline<G, C>,
    line: Line,
    prompt: Seq<char>,
    key: Key,
    width: int,
    after: Readline<G, C>,
    next: Line,
    r: Response,
) -> bool {
    let out = r.output@;
    let left = finish_text(prompt.len() as int, line.text.len() as int, width, before.row());
    match key_action(line, before.past(), key) {
        Action::Still(l) => {
            &&& next == l
            &&& after.row() == before.row()
            &&& out.len() == 0 && r.done is None
        },
        Action::Show(l) => {
            &&& next == l
            &&& shown(before, after, prompt, l, width, before.row(), seq![], out)
            &&& r.done is None
        },
        Action::Clear => {
            &&& next == line
            &&& shown(before, after, prompt, line, width, 0, clear_text(), out)
            &&& r.done is None
        },
        Action::Submit => {
            &&& next == line
            &&& after.row() == before.row()
            &&& out == left
            &&& r.done matches Some(Ok(s)) && s@ == line.text
        },
        Action::Interrupt => {
            &&& next == line
            &&& after.row() == before.row()
            &&& out == left
            &&& r.done == Some(Err::<String, _>(ReadlineError::Interrupted))
        },
        Action::Finish => {
            &&& next == line
            &&& after.row() == before.row()
            &&& out == left
            &&& r.done == Some(Err::<String, _>(ReadlineError::Eof))
        },
        Action::Complete => {
            &&& r.done is None
            &&& exists|text: &str, found: (usize, Vec<String>)|
                text@ == line.text && #[trigger] call_ensures(
                    C::complete,
                    (&before.finder(), text, line.cursor as usize),
                    found,
                ) && match completed(line, found.0 as int, texts(found.1@)) {
                    Some(l) => next == l && shown(
                        before,
                        after,
                        prompt,
                        l,
                        width,
                        before.row(),
                        seq![],
                        out,
                    ),
                    None => next == line && after.row() == before.row() && out.len() == 0,
                }
        },
    }
}

impl Readline<DefaultHighlighter, NoCompleter> {
    /// An editor with an empty history, in colour, with the built-in highlighter
    /// and no completions. `tty` says whether the input comes from a terminal.
    pub fn new(tty: bool) -> (r: Self)
        ensures
            r.wf(),
            r.past() == Seq::<Seq<char>>::empty(),
            r.terminal() == tty,
            r.colored(),
            r.painter() == DefaultHighlighter,
            r.finder() == NoCompleter,
            r.row() == 0,
    {
        Readline {
            history: History::new(),
            tty,
            color: true,
            highlighter: DefaultHighlighter,
            completer: NoCompleter,
            cursor_row: 0,
        }
    }
}

impl<G: Highlighter, C: Completer> Readline<G, C> {
    /// Switches colours on or off.
    pub fn set_color(&mut self, enabled: bool)
        ensures
            final(self).colored() == enabled,
            final(self).past() == old(self).past(),
            final(self).terminal() == old(self).terminal(),
            final(self).painter() == old(self).painter(),
            final(self).finder() == old(self).finder(),
            final(self).row() == old(self).row(),
            old(self).wf() ==> final(self).wf(),
    {
        self.color = enabled;
    }

    /// The same editor with another highlighter.
    pub fn set_highlighter<N: Highlighter>(self, highlighter: N) -> (r: Readline<N, C>)
        ensures
            r.painter() == highlighter,
            r.past() == self.past(),
            r.terminal() == self.terminal(),
            r.colored() == self.colored(),
            r.finder() == self.finder(),
            r.row() == self.row(),
            self.wf() ==> r.wf(),
    {
        Readline {
            history: self.history,
            tty: self.tty,
            color: self.color,
            highlighter,
            completer: self.completer,
            cursor_row: self.cursor_row,
        }
    }

    /// The same editor with another completer.
    pub fn set_completer<N: Completer>(self, completer: N) -> (r: Readline<G, N>)
        ensures
            r.finder() == completer,
            r.past() == self.past(),
            r.terminal() == self.terminal(),
            r.colored() == self.colored(),
            r.painter() == self.painter(),
            r.row() == self.row(),
            self.wf() ==> r.wf(),
    {
        Readline {
            history: self.history,
            tty: self.tty,
            color: self.color,
            highlighter: self.highlighter,
            completer,
            cursor_row: self.cursor_row,
        }
    }

    /// Takes in the contents of a history file.
    pub fn load_history(&mut self, contents: &str)
        ensures
            final(self).past() == newest(old(self).past() + entry_lines(contents@)),
            final(self).terminal() == old(self).terminal(),
            final(self).colored() == old(self).colored(),
            final(self).painter() == old(self).painter(),
            final(self).finder() == old(self).finder(),
            final(self).row() == old(self).row(),
            final(self).wf(),
    {
        self.history.load(contents);
    }

    /// The contents of a history file with the entries of the history.
    pub fn save_history(&self) -> (contents: String)
        ensures
            contents@ == join(self.past(), "\n"@),
    {
        self.history.save()
    }

    /// Enters a line into the history.
    pub fn add_history_entry(&mut self, line: &str)
        ensures
            final(self).past() == added(old(self).past(), line@),
            final(self).terminal() == old(self).terminal(),
            final(self).colored() == old(self).colored(),
            final(self).painter() == old(self).painter(),
            final(self).finder() == old(self).finder(),
            final(self).row() == old(self).row(),
            old(self).wf() ==> final(self).wf(),
    {
        self.history.add(line);
    }

    /// Whether the input comes from a terminal.
    pub fn is_tty(&self) -> (b: bool)
        ensures
            b == self.terminal(),
    {
        self.tty
    }

    /// Begins a line, right behind the prompt that was printed.
    pub fn begin_line(&mut self) -> (line: LineBuffer)
        ensures
            line@ == recalled(seq![], None),
            line@.valid(),
            final(self).row() == 0,
            final(self).same_but_row(old(self)),
            old(self).wf() ==> final(self).wf(),
    {
        self.cursor_row = 0;
        LineBuffer::new()
    }

    /// Displays the line afresh, behind what `out` holds.
    fn show(&mut self, mut out: String, prompt: &str, line: &LineBuffer, width: usize) -> (r: String)
        requires
            line@.valid(),
        ensures
            shown(
                *old(self),
                *final(self),
                prompt@,
                line@,
                width as int,
                old(self).row(),
                out@,
                r@,
            ),
            final(self).same_but_row(old(self)),
            old(self).wf() ==> final(self).wf(),
    {
        let text = line.text();
        let display = if self.color {
            self.highlighter.highlight(text.as_str())
        } else {
            text.clone()
        };
        assert(displays(self.painter(), self.colored(), line@.text, display@));
        let row = push_redraw(
            &mut out,
            prompt,
            text.as_str(),
            display.as_str(),
            line.cursor(),
            width,
            self.cursor_row,
        );
        self.cursor_row = row;
        out
    }

    /// Takes a key that was pressed while `line` was being entered behind `prompt`,
    /// on a terminal of `width` columns. Says what to print, and whether that ends
    /// the reading of the line.
    pub fn press(&mut self, line: &mut LineBuffer, prompt: &str, key: Key, width: usize) -> (r:
        Response)
        requires
            old(self).wf(),
            old(line)@.valid(),
        ensures
            answers(
                *old(self),
                old(line)@,
                prompt@,
                key,
                width as int,
                *final(self),
                final(line)@,
                r,
            ),
            final(line)@.valid(),
            final(self).same_but_row(old(self)),
            final(self).wf(),
    {
        let effect = line.apply(&self.history, key);
        match effect {
            Effect::Still => Response { output: String::new(), done: None },
            Effect::Show => {
                let output = self.show(String::new(), prompt, line, width);
                Response { output, done: None }
            },
            Effect::Clear => {
                self.cursor_row = 0;
                assert(self.painter() == old(self).painter());
                assert(self.colored() == old(self).colored());
                let output = self.show(clear(), prompt, line, width);
                Response { output, done: None }
            },
            Effect::Complete => {
                let text = line.text();
                let word: &str = text.as_str();
                let found = self.completer.complete(word, line.cursor());
                assert(call_ensures(
                    C::complete,
                    (&old(self).finder(), word, old(line)@.cursor as usize),
                    found,
                ));
                let changed = line.complete(found.0, found.1.as_slice());
                let output = if changed {
                    self.show(String::new(), prompt, line, width)
                } else {
                    String::new()
                };
                Response { output, done: None }
            },
            Effect::Submit => {
                let text = line.text();
                let output = finish(prompt, text.as_str(), width, self.cursor_row);
                Response { output, done: Some(Ok(text)) }
            },
            Effect::Interrupt => {
                let text = line.text();
                let output = finish(prompt, text.as_str(), width, self.cursor_row);
                Response { output, done: Some(Err(ReadlineError::Interrupted)) }
            },
            Effect::Finish => {
                let text = line.text();
                let output = finish(prompt, text.as_str(), width, self.cursor_row);
                Response { output, done: Some(Err(ReadlineError::Eof)) }
            },
        }
    }
}

/// The line that a plain read has given, without the line feed that ended it.
/// `read` is the number of bytes that were read: none at the end of the input.
pub fn plain_line(read: Result<usize, io::Error>, line: &str) -> (r: Result<String, ReadlineError>)
    ensures
        match read {
            Ok(n) => if n == 0 {
                r == Err::<String, _>(ReadlineError::Eof)
            } else {
                r matches Ok(s) && s@ == trim_end_matches(line@, '\n')
            },
            Err(e) => r == Err::<String, _>(ReadlineError::Io(e)),
        },
{
    match read {
        Ok(n) => if n == 0 {
            Err(ReadlineError::Eof)
        } else {
            Ok(trimmed_end_matches(line, '\n').to_string())
        },
        Err(e) => Err(ReadlineError::Io(e)),
    }
}

/// Without a completer of its own, the editor does nothing about Tab.
pub proof fn law_tab_does_nothing_by_itself<G: Highlighter>(
    before: Readline<G, NoCompleter>,
    line: Line,
    prompt: Seq<char>,
    width: int,
    after: Readline<G, NoCompleter>,
    next: Line,
    r: Response,
)
    requires
        answers(before, line, prompt, Key::Char('\t'), width, after, next, r),
    ensures
        next == line,
        r.output@.len() == 0,
        r.done is None,
{
}

/// Enter ends the reading with the line as it stands, Ctrl-C with the line given up, and
/// Ctrl-D on an empty line with the end of the input. No other key ends it.
pub proof fn law_keys_that_end_the_reading<G: Highlighter, C: Completer>(
    before: Readline<G, C>,
    line: Line,
    prompt: Seq<char>,
    key: Key,
    width: int,
    after: Readline<G, C>,
    next: Line,
    r: Response,
)
    requires
        answers(before, line, prompt, key, width, after, next, r),
    ensures
        key == Key::Char('\n') || key == Key::Char('\r') ==> (r.done matches Some(Ok(s)) && s@
            == line.text),
        key == Key::Char('\x03') ==> (r.done matches Some(Err(e)) && e is Interrupted),
        key == Key::Char('\x04') && line.text.len() == 0 ==> (r.done matches Some(Err(e))
            && e is Eof),
        r.done is Some ==> next == line && (key == Key::Char('\n') || key == Key::Char('\r') || key
            == Key::Char('\x03') || (key == Key::Char('\x04') && line.text.len() == 0)),
{
}

/// A key that edits changes the line as it does by itself, and the reading goes on; where
/// it changes nothing that is displayed, nothing is printed.
pub proof fn law_keys_that_edit_the_line<G: Highlighter, C: Completer>(
    before: Readline<G, C>,
    line: Line,
    prompt: Seq<char>,
    key: Key,
    width: int,
    after: Readline<G, C>,
    next: Line,
    r: Response,
)
    requires
        answers(before, line, prompt, key, width, after, next, r),
    ensures
        key_action(line, before.past(), key) matches Action::Show(l) ==> next == l && r.done is None,
        key_action(line, before.past(), key) matches Action::Still(l) ==> next == l && r.done is None
            && r.output@.len() == 0 && after.row() == before.row(),
        key_action(line, before.past(), key) is Clear ==> next == line && r.done is None,
{
}

/// On Tab the completer is asked about the line and its cursor. What it finds completes
/// the word: nothing leaves all as it is and prints nothing, a single candidate is put in
/// whole, and several as far as they agree, where that is more than the word.
pub proof fn law_tab_completes_by_the_completer<G: Highlighter, C: Completer>(
    before: Readline<G, C>,
    line: Line,
    prompt: Seq<char>,
    width: int,
    after: Readline<G, C>,
    next: Line,
    r: Response,
) -> (found: (usize, Vec<String>))
    requires
        answers(before, line, prompt, Key::Char('\t'), width, after, next, r),
        line.valid(),
        line.text.len() <= usize::MAX,
    ensures
        exists|text: &str|
            text@ == line.text && #[trigger] call_ensures(
                C::complete,
                (&before.finder(), text, line.cursor as usize),
                found,
            ),
        r.done is None,
        found.1@.len() == 0 ==> next == line && r.output@.len() == 0,
        found.1@.len() > 0 ==> 0 <= found.0 <= line.cursor,
        found.1@.len() == 1 ==> next.text == line.text.take(found.0 as int) + found.1@[0]@
            + line.text.skip(line.cursor) && next.cursor == found.0 + found.1@[0]@.len(),
        found.1@.len() >= 2 ==> exists|common: Seq<char>|
            {
                &&& forall|i: int|
                    0 <= i < found.1@.len() ==> common.is_prefix_of((#[trigger] found.1@[i])@)
                &&& forall|p: Seq<char>|
                    (forall|i: int|
                        0 <= i < found.1@.len() ==> p.is_prefix_of((#[trigger] found.1@[i])@))
                        ==> #[trigger] p.is_prefix_of(common)
                &&& common.len() <= line.cursor - found.0 ==> next == line && r.output@.len() == 0
                &&& common.len() > line.cursor - found.0 ==> next.text == line.text.take(
                    found.0 as int,
                ) + #[trigger] (common + line.text.skip(line.cursor)) && next.cursor == found.0
                    + common.len()
            },
{
    let (text, found) = choose|text: &str, found: (usize, Vec<String>)|
        text@ == line.text && #[trigger] call_ensures(
            C::complete,
            (&before.finder(), text, line.cursor as usize),
            found,
        ) && match completed(line, found.0 as int, texts(found.1@)) {
            Some(l) => next == l && shown(
                before,
                after,
                prompt,
                l,
                width,
                before.row(),
                seq![],
                r.output@,
            ),
            None => next == line && after.row() == before.row() && r.output@.len() == 0,
        };
    let start = found.0 as int;
    let words = texts(found.1@);
    if found.1@.len() == 0 {
        assert(words =~= seq![]);
        law_one_candidate_is_put_in_whole(line, 0, seq![]);
    } else if found.1@.len() == 1 {
        assert(words =~= seq![found.1@[0]@]);
        law_one_candidate_is_put_in_whole(line, start, found.1@[0]@);
    } else {
        let common = law_several_candidates_put_in_what_they_share(line, start, words);
        assert forall|i: int| 0 <= i < found.1@.len() implies common.is_prefix_of(
            (#[trigger] found.1@[i])@,
        ) by {
            assert(words[i] == found.1@[i]@);
        }
        assert forall|p: Seq<char>|
            (forall|i: int|
                0 <= i < found.1@.len() ==> p.is_prefix_of(
                    (#[trigger] found.1@[i])@,
                )) implies #[trigger] p.is_prefix_of(common) by {
            assert forall|i: int| 0 <= i < words.len() implies p.is_prefix_of(
                #[trigger] words[i],
            ) by {
                assert(words[i] == found.1@[i]@);
            }
        }
        let rest = line.text.skip(line.cursor);
        assert(line.text.take(start) + common + rest =~= line.text.take(start) + (common + rest));
    }
    found
}

/// Without colours a line is displayed as it is; with them, as the highlighter gives it.
pub proof fn law_lines_are_displayed_by_the_highlighter<G: Highlighter>(
    painter: G,
    text: Seq<char>,
    display: Seq<char>,
)
    ensures
        displays(painter, false, text, display) <==> display == text,
        displays(painter, true, text, display) ==> exists|line: &str, d: String|
            line@ == text && d@ == display && #[trigger] call_ensures(
                G::highlight,
                (&painter, line),
                d,
            ),
        displays(DefaultHighlighter, true, text, display) ==> display == highlighted(
            text,
            word_starts(text),
            word_parts(text),
        ),
{
}

} // verus!
