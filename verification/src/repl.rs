//! The read-eval-print loop without its input and output: statements are gathered
//! up to a semicolon, dot-commands carried out, and everything else handed to an
//! engine's handler.

use std::io;
use std::path::Path;

use vstd::prelude::*;

use crate::editor::{Completer, Highlighter, Readline, ReadlineError};
use crate::history::added;
use crate::output::{mode_called, OutputMode};
use crate::text::{
    blank, chars_of, is_whitespace, join, joined, law_copies_at_the_end_are_taken_off,
    law_joining_in_parts, law_trimming_takes_off_only_white_space,
    law_white_space_around_a_text_does_not_count, lemma_trim, lemma_trim_end, lemma_trim_start,
    lowered, same_text, starts_with, substring, texts, trim, trim_end, trim_end_matches, trim_start,
    trim_start_at, trimmed, trimmed_end_matches, white_space,
};
use crate::words::after_word;

verus! {

/// Trusted: a path, which is only carried along.
#[verifier::external_type_specification]
#[verifier::external_body]
pub struct ExPath(Path);

/// What an engine plugs into the loop: how its statements are executed, and how
/// its results are rendered.
pub trait ReplHandler {
    /// The result of a statement.
    type Output;

    /// Executes one statement.
    fn execute(&mut self, input: &str) -> (result: Result<Self::Output, String>)
    ;

    /// Renders a result in the given mode, with or without headers.
    fn format(&self, output: &Self::Output, mode: OutputMode, headers: bool) -> (text: String)
    ;

    /// Carries out a dot-command that is not built in. `name` comes without its
    /// dot, and `arg` is the text behind it. Returns the lines to print, or `None`
    /// if there is no such command.
    fn command(&mut self, name: &str, arg: &str) -> (lines: Option<Vec<String>>)
        default_ensures
            lines is None,
            &*final(self) == &*old(self),
    {
        None
    }

    /// Lines to add to the built-in help.
    fn help_extra(&self) -> (lines: Vec<String>)
        default_ensures
            lines@.len() == 0,
    {
        Vec::new()
    }

    /// What to print once at the start.
    fn banner(&self) -> (text: Option<String>)
        default_ensures
            text is None,
    {
        None
    }
}

/// What follows from one line of input.
pub enum Step {
    /// Nothing to print.
    Continue,
    /// A text to print.
    Print(String),
    /// The end of the loop.
    Quit,
}

/// The state of the loop: the handler, the settings, and the part of a statement
/// that has been entered so far.
pub struct Repl<H: ReplHandler> {
    handler: H,
    mode: OutputMode,
    headers: bool,
    color: bool,
    buffer: String,
}

impl<H: ReplHandler> Repl<H> {
    /// The engine's handler.
    pub closed spec fn engine(&self) -> H {
        self.handler
    }

    /// The output mode.
    pub closed spec fn output_mode(&self) -> OutputMode {
        self.mode
    }

    /// Whether headers are shown.
    pub closed spec fn shows_headers(&self) -> bool {
        self.headers
    }

    /// Whether input is displayed in colours.
    pub closed spec fn shows_color(&self) -> bool {
        self.color
    }

    /// What has been entered of a statement that is not complete.
    pub closed spec fn pending(&self) -> Seq<char> {
        self.buffer@
    }

    /// What is pending is the beginning of a statement.
    pub open spec fn wf(&self) -> bool {
        begins_statement(self.pending())
    }

    /// The settings are those of `other`.
    pub open spec fn same_settings(&self, other: &Self) -> bool {
        &&& self.output_mode() == other.output_mode()
        &&& self.shows_headers() == other.shows_headers()
        &&& self.shows_color() == other.shows_color()
    }

    /// Nothing differs from `other`.
    pub open spec fn same(&self, other: &Self) -> bool {
        &&& self.same_settings(other)
        &&& self.engine() == other.engine()
        &&& self.pending() == other.pending()
    }
}

/// Whether `s` ends with a semicolon, but for white space.
pub open spec fn ends_statement(s: Seq<char>) -> bool {
    trim_end(s).len() > 0 && trim_end(s).last() == ';'
}

/// `s` is empty, or the beginning of a statement that is not complete.
pub open spec fn begins_statement(s: Seq<char>) -> bool {
    s.len() > 0 ==> !white_space(s[0]) && s[0] != '.' && !ends_statement(s)
}

/// What is pending once `line` has been entered too: the lines without the white
/// space around them, with a space in place of the line breaks.
pub open spec fn grown(pending: Seq<char>, line: Seq<char>) -> Seq<char> {
    if pending.len() == 0 {
        trim(line)
    } else {
        pending.push(' ') + trim(line)
    }
}

/// The statement in what was entered: all of it but the semicolons at its end.
pub open spec fn statement(entered: Seq<char>) -> Seq<char> {
    trim(trim_end_matches(entered, ';'))
}

/// The first word of `s`.
pub open spec fn first_word(s: Seq<char>) -> Seq<char> {
    let t = trim_start(s);
    t.take(after_word(t, 0))
}

/// What follows the first word of `s`, without the white space around it.
pub open spec fn argument(s: Seq<char>) -> Seq<char> {
    let t = trim_start(s);
    trim(t.skip(after_word(t, 0)))
}

/// The built-in commands.
#[derive(Debug, Clone, Copy, PartialEq, Eq, Structural)]
pub enum Command {
    Quit,
    Help,
    Mode,
    Headers,
    Color,
    /// None of them: a command of the engine.
    Engine,
}

/// The command that `name` abbreviates. Where it abbreviates several, the first of
/// them in this order: quit and exit, help, mode, headers, color.
pub open spec fn command_called(name: Seq<char>) -> Command {
    if name.len() == 0 {
        Command::Engine
    } else if name.is_prefix_of("quit"@) || name.is_prefix_of("exit"@) {
        Command::Quit
    } else if name.is_prefix_of("help"@) {
        Command::Help
    } else if name.is_prefix_of("mode"@) {
        Command::Mode
    } else if name.is_prefix_of("headers"@) {
        Command::Headers
    } else if name.is_prefix_of("color"@) {
        Command::Color
    } else {
        Command::Engine
    }
}

/// The setting that `arg` stands for.
pub open spec fn switch_called(arg: Seq<char>) -> Option<bool> {
    if arg == "on"@ {
        Some(true)
    } else if arg == "off"@ {
        Some(false)
    } else {
        None
    }
}

/// The lines of the help that come first.
pub open spec fn help_commands() -> Seq<Seq<char>> {
    seq![
        ".help          Show this message"@,
        ".mode <table|list|column|line|csv|json>  Set output format"@,
        ".headers on|off  Toggle header row (list/column/csv)"@,
        ".color on|off  Toggle syntax highlighting"@,
        ".quit / .exit  Exit"@,
    ]
}

/// The lines of the help that come last.
pub open spec fn help_keys() -> Seq<Seq<char>> {
    seq![
        ""@,
        "Keybindings:"@,
        "  Ctrl-A / Ctrl-E   line start / end"@,
        "  Ctrl-B / Ctrl-F   char left / right"@,
        "  Ctrl-K / Ctrl-U   kill to end / start of line"@,
        "  Ctrl-W            kill previous word"@,
        "  Alt-B / Alt-F     word left / right"@,
        "  Ctrl-L            clear screen"@,
        "  Ctrl-P / Ctrl-N   history previous / next"@,
    ]
}

/// The help, with the engine's own lines in the middle.
pub open spec fn help_text(extra: Seq<Seq<char>>) -> Seq<char> {
    join(help_commands() + extra + help_keys(), "\n"@)
}

/// `step` prints `text`.
pub open spec fn prints(step: Step, text: Seq<char>) -> bool {
    step matches Step::Print(t) && t@ == text
}

/// What the loop asks of the handler.
pub enum Request {
    /// Nothing.
    Nothing,
    /// To execute a statement.
    Execute(Seq<char>),
    /// To carry out a dot-command, with an argument.
    Command(Seq<char>, Seq<char>),
}

/// `step` prints a result as the handler renders it, or its error.
pub open spec fn reports<H: ReplHandler>(
    handler: H,
    result: Result<H::Output, String>,
    mode: OutputMode,
    headers: bool,
    step: Step,
) -> bool {
    match result {
        Ok(output) => step matches Step::Print(text) && call_ensures(
            H::format,
            (&handler, &output, mode, headers),
            text,
        ),
        Err(e) => prints(step, "error: "@ + e@),
    }
}

/// `step` prints the lines with which the handler answered the dot-command `name`,
/// or complains if there is no such command.
pub open spec fn replies(name: Seq<char>, lines: Option<Vec<String>>, step: Step) -> bool {
    match lines {
        Some(v) => prints(step, join(texts(v@), "\n"@)),
        None => prints(step, "unknown command: ."@ + name),
    }
}

/// What a dot-command, given without its dot, asks of the handler.
pub open spec fn command_request(rest: Seq<char>) -> Request {
    if command_called(first_word(rest)) is Engine {
        Request::Command(first_word(rest), argument(rest))
    } else {
        Request::Nothing
    }
}

/// Whether `line` is a dot-command, with `pending` entered before it.
pub open spec fn is_command(pending: Seq<char>, line: Seq<char>) -> bool {
    pending.len() == 0 && trim(line).len() > 0 && trim(line)[0] == '.'
}

/// What a line of input asks of the handler, with `pending` entered before it: a
/// dot-command that is not built in, or a statement that is complete.
pub open spec fn line_request(pending: Seq<char>, line: Seq<char>) -> Request {
    let entered = grown(pending, line);
    if is_command(pending, line) {
        command_request(trim(line).drop_first())
    } else if ends_statement(entered) && statement(entered).len() > 0 {
        Request::Execute(statement(entered))
    } else {
        Request::Nothing
    }
}

/// What the loop itself does about the dot-command `rest`, given without its dot.
/// The handler stays as it is, unless it is asked to carry out the command.
pub open spec fn dotted<H: ReplHandler>(
    before: Repl<H>,
    rest: Seq<char>,
    after: Repl<H>,
    step: Step,
) -> bool {
    let arg = argument(rest);
    match command_called(first_word(rest)) {
        Command::Quit => after.same(&before) && step is Quit,
        Command::Help => after.same(&before) && exists|extra: Vec<String>| #[trigger]
            call_ensures(H::help_extra, (&before.engine(),), extra) && prints(
                step,
                help_text(texts(extra@)),
            ),
        Command::Mode => match mode_called(lowered(arg)) {
            Some(mode) => {
                &&& after.output_mode() == mode
                &&& after.shows_headers() == before.shows_headers()
                &&& after.shows_color() == before.shows_color()
                &&& after.engine() == before.engine()
                &&& after.pending() == before.pending()
                &&& prints(step, "mode: "@ + arg)
            },
            None => after.same(&before) && prints(step, ".mode table|list|column|line|csv|json"@),
        },
        Command::Headers => match switch_called(arg) {
            Some(on) => {
                &&& after.shows_headers() == on
                &&& after.output_mode() == before.output_mode()
                &&& after.shows_color() == before.shows_color()
                &&& after.engine() == before.engine()
                &&& after.pending() == before.pending()
                &&& step is Continue
            },
            None => after.same(&before) && prints(step, "usage: .headers on|off"@),
        },
        Command::Color => match switch_called(arg) {
            Some(on) => {
                &&& after.shows_color() == on
                &&& after.output_mode() == before.output_mode()
                &&& after.shows_headers() == before.shows_headers()
                &&& after.engine() == before.engine()
                &&& after.pending() == before.pending()
                &&& step is Continue
            },
            None => after.same(&before) && prints(step, "usage: .color on|off"@),
        },
        Command::Engine => after.same_settings(&before) && after.pending() == before.pending(),
    }
}

/// What the loop itself does about a line of input: a dot-command, unless a
/// statement is pending, or one more line of a statement. The handler stays as it
/// is, unless it is asked to execute the statement or to carry out the command.
pub open spec fn fed<H: ReplHandler>(
    before: Repl<H>,
    line: Seq<char>,
    after: Repl<H>,
    step: Step,
) -> bool {
    let entered = grown(before.pending(), line);
    if is_command(before.pending(), line) {
        dotted(before, trim(line).drop_first(), after, step)
    } else if !ends_statement(entered) {
        &&& after.pending() == entered
        &&& after.engine() == before.engine()
        &&& after.same_settings(&before)
        &&& step is Continue
    } else {
        &&& after.pending().len() == 0
        &&& after.same_settings(&before)
        &&& statement(entered).len() == 0 ==> after.engine() == before.engine() && step is Continue
    }
}

/// Entering a line that does not complete a statement leaves the beginning of one.
proof fn lemma_grown(pending: Seq<char>, line: Seq<char>)
    requires
        begins_statement(pending),
        pending.len() == 0 && trim(line).len() > 0 ==> trim(line)[0] != '.',
        !ends_statement(grown(pending, line)),
    ensures
        begins_statement(grown(pending, line)),
{
    lemma_trim(line);
}

/// Whether `s` ends with a semicolon, but for white space.
fn is_complete(s: &str) -> (b: bool)
    ensures
        b == ends_statement(s@),
{
    let chars = chars_of(s);
    let mut to: usize = chars.len();
    assert(s@.take(s@.len() as int) == s@);
    while to > 0 && is_whitespace(chars[to - 1])
        invariant
            chars@ == s@,
            to <= chars@.len(),
            trim_end(s@) == trim_end(s@.take(to as int)),
        decreases to,
    {
        assert(s@.take(to as int).drop_last() == s@.take(to - 1));
        to = to - 1;
    }
    assert(trim_end(s@) == s@.take(to as int));
    to > 0 && chars[to - 1] == ';'
}

/// The position of the first white space, or the length.
fn word_length(chars: &[char]) -> (i: usize)
    ensures
        i == after_word(chars@, 0),
        i <= chars@.len(),
{
    let mut i: usize = 0;
    while i < chars.len() && !is_whitespace(chars[i])
        invariant
            i <= chars@.len(),
            after_word(chars@, 0) == after_word(chars@, i as int),
        decreases chars@.len() - i,
    {
        i = i + 1;
    }
    i
}

/// The first word of `s`, and what follows it.
fn split_command(s: &str) -> (r: (String, String))
    ensures
        r.0@ == first_word(s@),
        r.1@ == argument(s@),
{
    let chars = chars_of(s);
    let from = trim_start_at(chars.as_slice());
    let text = substring(chars.as_slice(), from, chars.len());
    let chars = chars_of(text.as_str());
    assert(chars@ == trim_start(s@));
    let n = word_length(chars.as_slice());
    let name = substring(chars.as_slice(), 0, n);
    let rest = substring(chars.as_slice(), n, chars.len());
    assert(rest@ == chars@.skip(n as int));
    (name, trimmed(rest.as_str()).to_string())
}

fn command_named(name: &str) -> (c: Command)
    ensures
        c == command_called(name@),
{
    if name.is_empty() {
        Command::Engine
    } else if starts_with("quit", name) || starts_with("exit", name) {
        Command::Quit
    } else if starts_with("help", name) {
        Command::Help
    } else if starts_with("mode", name) {
        Command::Mode
    } else if starts_with("headers", name) {
        Command::Headers
    } else if starts_with("color", name) {
        Command::Color
    } else {
        Command::Engine
    }
}

fn switch_named(arg: &str) -> (on: Option<bool>)
    ensures
        on == switch_called(arg@),
{
    if same_text(arg, "on") {
        Some(true)
    } else if same_text(arg, "off") {
        Some(false)
    } else {
        None
    }
}

fn help(extra: Vec<String>) -> (text: String)
    ensures
        text@ == help_text(texts(extra@)),
{
    let mut extra = extra;
    let ghost own = texts(extra@);
    let mut lines: Vec<String> = Vec::new();
    lines.push(".help          Show this message".to_string());
    lines.push(".mode <table|list|column|line|csv|json>  Set output format".to_string());
    lines.push(".headers on|off  Toggle header row (list/column/csv)".to_string());
    lines.push(".color on|off  Toggle syntax highlighting".to_string());
    lines.push(".quit / .exit  Exit".to_string());
    assert(texts(lines@) =~= help_commands());
    let mut keys: Vec<String> = Vec::new();
    keys.push("".to_string());
    keys.push("Keybindings:".to_string());
    keys.push("  Ctrl-A / Ctrl-E   line start / end".to_string());
    keys.push("  Ctrl-B / Ctrl-F   char left / right".to_string());
    keys.push("  Ctrl-K / Ctrl-U   kill to end / start of line".to_string());
    keys.push("  Ctrl-W            kill previous word".to_string());
    keys.push("  Alt-B / Alt-F     word left / right".to_string());
    keys.push("  Ctrl-L            clear screen".to_string());
    keys.push("  Ctrl-P / Ctrl-N   history previous / next".to_string());
    assert(texts(keys@) =~= help_keys());
    lines.append(&mut extra);
    assert(texts(lines@) =~= help_commands() + own);
    lines.append(&mut keys);
    assert(texts(lines@) =~= help_commands() + own + help_keys());
    joined(lines.as_slice(), "\n")
}

/// The string `a` followed by the string `b`.
fn followed_by(a: &str, b: &str) -> (s: String)
    ensures
        s@ == a@ + b@,
{
    let mut s = String::new();
    s.append(a);
    s.append(b);
    assert(s@ =~= a@ + b@);
    s
}

/// What follows from the handler's answer to the dot-command `name`.
pub fn reply(name: &str, lines: Option<Vec<String>>) -> (step: Step)
    ensures
        replies(name@, lines, step),
{
    match lines {
        Some(lines) => Step::Print(joined(lines.as_slice(), "\n")),
        None => Step::Print(followed_by("unknown command: .", name)),
    }
}

impl<H: ReplHandler> Repl<H> {
    /// A loop around `handler` that renders tables, without headers where that is a
    /// choice, and displays input in colours.
    pub fn new(handler: H) -> (r: Self)
        ensures
            r.engine() == handler,
            r.output_mode() == OutputMode::Table,
            !r.shows_headers(),
            r.shows_color(),
            r.pending().len() == 0,
            r.wf(),
    {
        Repl {
            handler,
            mode: OutputMode::Table,
            headers: false,
            color: true,
            buffer: String::new(),
        }
    }

    /// The output mode.
    pub fn mode(&self) -> (m: OutputMode)
        ensures
            m == self.output_mode(),
    {
        self.mode
    }

    /// Whether headers are shown.
    pub fn headers(&self) -> (b: bool)
        ensures
            b == self.shows_headers(),
    {
        self.headers
    }

    /// Whether input is displayed in colours.
    pub fn color(&self) -> (b: bool)
        ensures
            b == self.shows_color(),
    {
        self.color
    }

    /// Whether a statement has been begun and is not complete.
    pub fn is_buffering(&self) -> (b: bool)
        ensures
            b == (self.pending().len() > 0),
    {
        !self.buffer.as_str().is_empty()
    }

    /// Takes one line of input.
    pub fn feed_line(&mut self, line: &str) -> (step: Step)
        ensures
            fed(*old(self), line@, *final(self), step),
            line_request(old(self).pending(), line@) matches Request::Execute(input) ==> exists|
                h: &mut H,
                s: &str,
                result: Result<H::Output, String>,
            |
                *h == old(self).engine() && *final(h) == final(self).engine() && s@ == input
                    && #[trigger] call_ensures(H::execute, (h, s), result) && reports(
                    final(self).engine(),
                    result,
                    old(self).output_mode(),
                    old(self).shows_headers(),
                    step,
                ),
            line_request(old(self).pending(), line@) matches Request::Command(name, arg)
                ==> exists|h: &mut H, n: &str, a: &str, lines: Option<Vec<String>>|
                *h == old(self).engine() && *final(h) == final(self).engine() && n@ == name && a@
                    == arg && #[trigger] call_ensures(H::command, (h, n, a), lines) && replies(
                    name,
                    lines,
                    step,
                ),
            old(self).wf() ==> final(self).wf(),
    {
        let ghost typed = line@;
        let line = trimmed(line);
        proof {
            lemma_trim(typed);
        }
        if self.buffer.as_str().is_empty() {
            let chars = chars_of(line);
            if chars.len() > 0 && chars[0] == '.' {
                let rest = substring(chars.as_slice(), 1, chars.len());
                assert(rest@ =~= line@.drop_first());
                return self.dot_command(rest.as_str());
            }
        } else {
            self.buffer.push(' ');
        }
        self.buffer.append(line);
        assert(self.buffer@ =~= grown(old(self).pending(), typed));

        let entered: &str = self.buffer.as_str();
        if !is_complete(entered) {
            proof {
                if old(self).wf() {
                    lemma_grown(old(self).pending(), typed);
                }
            }
            return Step::Continue;
        }
        let stmt = trimmed(trimmed_end_matches(entered, ';')).to_string();
        self.buffer = String::new();
        if stmt.as_str().is_empty() {
            return Step::Continue;
        }
        let input: &str = stmt.as_str();
        let result = self.handler.execute(input);
        self.report(result)
    }

    /// What follows from the result of a statement: it is printed as the handler
    /// renders it, or its error is.
    pub fn report(&self, result: Result<H::Output, String>) -> (step: Step)
        ensures
            reports(self.engine(), result, self.output_mode(), self.shows_headers(), step),
    {
        match result {
            Ok(output) => {
                let text = self.handler.format(&output, self.mode, self.headers);
                Step::Print(text)
            },
            Err(e) => Step::Print(followed_by("error: ", e.as_str())),
        }
    }

    /// Carries out a dot-command, given without its dot.
    pub fn dot_command(&mut self, rest: &str) -> (step: Step)
        ensures
            dotted(*old(self), rest@, *final(self), step),
            command_request(rest@) matches Request::Command(name, arg) ==> exists|
                h: &mut H,
                n: &str,
                a: &str,
                lines: Option<Vec<String>>,
            |
                *h == old(self).engine() && *final(h) == final(self).engine() && n@ == name && a@
                    == arg && #[trigger] call_ensures(H::command, (h, n, a), lines) && replies(
                    name,
                    lines,
                    step,
                ),
            old(self).wf() ==> final(self).wf(),
    {
        let (name, arg) = split_command(rest);
        let name: &str = name.as_str();
        let arg: &str = arg.as_str();
        match command_named(name) {
            Command::Quit => Step::Quit,
            Command::Help => {
                let extra = self.handler.help_extra();
                assert(call_ensures(H::help_extra, (&old(self).engine(),), extra));
                Step::Print(help(extra))
            },
            Command::Mode => match OutputMode::parse(arg) {
                Some(mode) => {
                    self.mode = mode;
                    Step::Print(followed_by("mode: ", arg))
                },
                None => Step::Print(".mode table|list|column|line|csv|json".to_string()),
            },
            Command::Headers => match switch_named(arg) {
                Some(on) => {
                    self.headers = on;
                    Step::Continue
                },
                None => Step::Print("usage: .headers on|off".to_string()),
            },
            Command::Color => match switch_named(arg) {
                Some(on) => {
                    self.color = on;
                    Step::Continue
                },
                None => Step::Print("usage: .color on|off".to_string()),
            },
            Command::Engine => {
                let lines = self.handler.command(name, arg);
                reply(name, lines)
            },
        }
    }

    /// Gives the handler back.
    pub fn into_handler(self) -> (h: H)
        ensures
            h == self.engine(),
    {
        self.handler
    }

    /// The handler, to be changed.
    pub fn handler_mut(&mut self) -> (h: &mut H)
        ensures
            *h == old(self).engine(),
            final(self).engine() == *final(h),
            final(self).same_settings(old(self)),
            final(self).pending() == old(self).pending(),
    {
        &mut self.handler
    }
}

/// How the loop is presented.
pub struct ReplOptions<'a> {
    /// The prompt for the first line of a statement.
    pub prompt: &'a str,
    /// The prompt while a statement is not complete.
    pub continuation_prompt: &'a str,
    /// The file that keeps the history, if it is kept.
    pub history_file: Option<&'a Path>,
}

impl<'a> Default for ReplOptions<'a> {
    fn default() -> (o: Self)
        ensures
            o.prompt@ == "> "@,
            o.continuation_prompt@ == "  -> "@,
            o.history_file is None,
    {
        ReplOptions { prompt: "> ", continuation_prompt: "  -> ", history_file: None }
    }
}

/// What follows from an attempt to read a line.
pub enum Turn {
    /// A text to print, if any, and another line to read.
    Again(Option<String>),
    /// The end of the loop; the history is to be saved.
    Stop,
    /// The failure of the loop.
    Fail(io::Error),
}

/// `turn` is what `step` means for the loop.
pub open spec fn turns(step: Step, turn: Turn) -> bool {
    match step {
        Step::Continue => turn == Turn::Again(None),
        Step::Print(text) => turn == Turn::Again(Some(text)),
        Step::Quit => turn is Stop,
    }
}

impl<H: ReplHandler> Repl<H> {
    /// The prompt for the next line.
    pub fn prompt<'a>(&self, options: &ReplOptions<'a>) -> (p: &'a str)
        ensures
            p@ == if self.pending().len() > 0 {
                options.continuation_prompt@
            } else {
                options.prompt@
            },
    {
        if self.is_buffering() {
            options.continuation_prompt
        } else {
            options.prompt
        }
    }

    /// Takes what an attempt to read a line has given. A line goes into the history
    /// unless it is blank, and is then fed to the loop; the editor takes over the
    /// colour setting. The end of the input ends the loop, a line that was given up
    /// is passed over, and a failure to read is passed on.
    pub fn take_turn<G: Highlighter, C: Completer>(
        &mut self,
        editor: &mut Readline<G, C>,
        read: Result<String, ReadlineError>,
    ) -> (turn: Turn)
        ensures
            match read {
                Ok(line) => {
                    &&& final(editor).past() == added(old(editor).past(), line@)
                    &&& final(editor).colored() == if turn is Stop {
                        old(editor).colored()
                    } else {
                        final(self).shows_color()
                    }
                    &&& exists|step: Step|
                        {
                            &&& turns(step, turn)
                            &&& #[trigger] fed(*old(self), line@, *final(self), step)
                            &&& line_request(old(self).pending(), line@) matches Request::Execute(
                                input,
                            ) ==> exists|h: &mut H, s: &str, result: Result<H::Output, String>|
                                *h == old(self).engine() && *final(h) == final(self).engine() && s@
                                    == input && #[trigger] call_ensures(H::execute, (h, s), result)
                                    && reports(
                                    final(self).engine(),
                                    result,
                                    old(self).output_mode(),
                                    old(self).shows_headers(),
                                    step,
                                )
                            &&& line_request(old(self).pending(), line@) matches Request::Command(
                                name,
                                arg,
                            ) ==> exists|h: &mut H, n: &str, a: &str, lines: Option<Vec<String>>|
                                *h == old(self).engine() && *final(h) == final(self).engine() && n@
                                    == name && a@ == arg && #[trigger] call_ensures(
                                    H::command,
                                    (h, n, a),
                                    lines,
                                ) && replies(name, lines, step)
                        }
                },
                Err(e) => {
                    &&& *final(self) == *old(self)
                    &&& *final(editor) == *old(editor)
                    &&& match e {
                        ReadlineError::Eof => turn is Stop,
                        ReadlineError::Interrupted => turn == Turn::Again(None),
                        ReadlineError::Io(e) => turn == Turn::Fail(e),
                    }
                },
            },
            final(editor).terminal() == old(editor).terminal(),
            final(editor).painter() == old(editor).painter(),
            final(editor).finder() == old(editor).finder(),
            final(editor).row() == old(editor).row(),
            old(editor).wf() ==> final(editor).wf(),
            old(self).wf() ==> final(self).wf(),
    {
        let line = match read {
            Ok(line) => line,
            Err(e) => {
                return match e {
                    ReadlineError::Eof => Turn::Stop,
                    ReadlineError::Interrupted => Turn::Again(None),
                    ReadlineError::Io(e) => Turn::Fail(e),
                };
            },
        };
        if !trimmed(line.as_str()).is_empty() {
            editor.add_history_entry(line.as_str());
        }
        let step = self.feed_line(line.as_str());
        assert(fed(*old(self), line@, *self, step));
        let turn = match step {
            Step::Continue => Turn::Again(None),
            Step::Print(text) => Turn::Again(Some(text)),
            Step::Quit => {
                return Turn::Stop;
            },
        };
        editor.set_color(self.color);
        turn
    }
}

/// What is pending once some lines have been entered.
pub open spec fn gathered(lines: Seq<Seq<char>>) -> Seq<char>
    decreases lines.len(),
{
    if lines.len() == 0 {
        seq![]
    } else {
        grown(gathered(lines.drop_last()), lines.last())
    }
}

/// The lines without the white space around them.
pub open spec fn trimmed_lines(lines: Seq<Seq<char>>) -> Seq<Seq<char>> {
    lines.map_values(|line: Seq<char>| trim(line))
}

proof fn lemma_gathered(lines: Seq<Seq<char>>)
    requires
        lines.len() > 0,
        trim(lines[0]).len() > 0,
    ensures
        gathered(lines) == join(trimmed_lines(lines), " "@),
        gathered(lines).len() > 0,
        gathered(lines)[0] == trim(lines[0])[0],
    decreases lines.len(),
{
    reveal_strlit(" ");
    let init = lines.drop_last();
    if lines.len() == 1 {
        assert(gathered(init) == Seq::<char>::empty());
    } else {
        lemma_gathered(init);
        assert(trimmed_lines(lines).drop_last() =~= trimmed_lines(init));
        assert(gathered(init).push(' ') =~= gathered(init) + " "@);
    }
}

/// The lines of a statement that is not complete are pending as one text: each
/// without the white space around it, and a single space in place of each line
/// break.
///
/// The loop is in `states[i]` when the line `lines[i]` is fed to it.
pub proof fn law_lines_of_a_statement_are_joined<H: ReplHandler>(
    states: Seq<Repl<H>>,
    lines: Seq<Seq<char>>,
    steps: Seq<Step>,
)
    requires
        states.len() == lines.len() + 1,
        lines.len() > 0,
        states[0].pending().len() == 0,
        trim(lines[0]).len() > 0,
        trim(lines[0])[0] != '.',
        forall|i: int|
            0 <= i < lines.len() ==> fed(
                #[trigger] states[i],
                lines[i],
                states[i + 1],
                steps[i],
            ) && !ends_statement(grown(states[i].pending(), lines[i])),
    ensures
        states[lines.len() as int].pending() == join(trimmed_lines(lines), " "@),
    decreases lines.len(),
{
    let n = lines.len() as int;
    let init = lines.drop_last();
    assert(fed(states[n - 1], lines[n - 1], states[n - 1 + 1], steps[n - 1]));
    if n > 1 {
        let before = states.take(n);
        assert forall|i: int| 0 <= i < init.len() implies fed(
            #[trigger] before[i],
            init[i],
            before[i + 1],
            steps[i],
        ) && !ends_statement(grown(before[i].pending(), init[i])) by {
            assert(before[i] == states[i]);
            assert(before[i + 1] == states[i + 1]);
        }
        law_lines_of_a_statement_are_joined(before, init, steps);
        assert(before[n - 1] == states[n - 1]);
        lemma_gathered(init);
    }
    lemma_gathered(lines);
}

/// The line that completes a statement hands the handler the statement as one text:
/// all of its lines, joined as they are while it is pending, without the semicolon.
///
/// The loop is in `states[i]` when the line `lines[i]` is fed to it.
pub proof fn law_lines_of_a_statement_reach_the_handler_as_one<H: ReplHandler>(
    states: Seq<Repl<H>>,
    lines: Seq<Seq<char>>,
    steps: Seq<Step>,
)
    requires
        states.len() == lines.len(),
        lines.len() > 0,
        states[0].pending().len() == 0,
        trim(lines[0]).len() > 0,
        trim(lines[0])[0] != '.',
        forall|i: int|
            0 <= i < lines.len() - 1 ==> fed(
                #[trigger] states[i],
                lines[i],
                states[i + 1],
                steps[i],
            ) && !ends_statement(grown(states[i].pending(), lines[i])),
        ends_statement(join(trimmed_lines(lines), " "@)),
        statement(join(trimmed_lines(lines), " "@)).len() > 0,
    ensures
        line_request(states.last().pending(), lines.last()) == Request::Execute(
            statement(join(trimmed_lines(lines), " "@)),
        ),
{
    let n = lines.len() as int;
    let init = lines.drop_last();
    lemma_gathered(lines);
    if n > 1 {
        assert forall|i: int| 0 <= i < init.len() implies fed(
            #[trigger] states[i],
            init[i],
            states[i + 1],
            steps[i],
        ) && !ends_statement(grown(states[i].pending(), init[i])) by {
            assert(init[i] == lines[i]);
        }
        law_lines_of_a_statement_are_joined(states, init, steps);
        lemma_gathered(init);
    } else {
        assert(gathered(init) == Seq::<char>::empty());
    }
}

/// The handler is never asked to execute a blank statement, nor one with white space
/// around it.
pub proof fn law_statements_are_trimmed_and_not_blank(pending: Seq<char>, line: Seq<char>)
    ensures
        line_request(pending, line) matches Request::Execute(input) ==> input.len() > 0 && trim(
            input,
        ) == input,
{
    lemma_trim(trim_end_matches(grown(pending, line), ';'));
}

/// A text and a semicolon behind it make a statement of that text.
pub proof fn law_statement_drops_its_semicolon(text: Seq<char>)
    requires
        trim(text) == text,
        text.len() > 0,
        text.last() != ';',
    ensures
        ends_statement(text.push(';')),
        statement(text.push(';')) == text,
{
    let entered = text.push(';');
    assert(entered.drop_last() =~= text);
    assert(trim_end(entered) == entered);
    assert(trim_end_matches(text, ';') == text);
}

proof fn lemma_first_word(name: Seq<char>, rest: Seq<char>, i: int)
    requires
        0 <= i <= name.len(),
        forall|j: int| 0 <= j < name.len() ==> !white_space(#[trigger] name[j]),
        rest.len() > 0 ==> white_space(rest[0]),
    ensures
        after_word(name + rest, i) == name.len(),
    decreases name.len() - i,
{
    if i < name.len() {
        assert(!white_space(name[i]));
        lemma_first_word(name, rest, i + 1);
    }
}

/// A dot-command is its name, then white space, then its argument; white space may
/// stand in front of the name too. With nothing behind the name the argument is the
/// empty text.
pub proof fn law_commands_are_a_name_and_an_argument(
    lead: Seq<char>,
    name: Seq<char>,
    space: Seq<char>,
    arg: Seq<char>,
)
    requires
        forall|j: int| 0 <= j < lead.len() ==> white_space(#[trigger] lead[j]),
        name.len() > 0,
        forall|j: int| 0 <= j < name.len() ==> !white_space(#[trigger] name[j]),
        space.len() > 0,
        forall|j: int| 0 <= j < space.len() ==> white_space(#[trigger] space[j]),
        trim(arg) == arg,
    ensures
        first_word(lead + name + space + arg) == name,
        argument(lead + name + space + arg) == arg,
        first_word(lead + name) == name,
        argument(lead + name) == Seq::<char>::empty(),
{
    let rest = space + arg;
    let t = name + rest;
    let none = Seq::<char>::empty();
    assert(white_space(space[0]));
    assert(!white_space(name[0]));
    assert(lead + name + space + arg =~= lead + t);
    lemma_trim_start_behind_space(lead, t);
    lemma_trim_start_behind_space(lead, name);
    assert(trim_start(t) == t);
    assert(trim_start(name) == name);
    lemma_first_word(name, rest, 0);
    lemma_first_word(name, none, 0);
    assert(name + none =~= name);
    assert(t.take(name.len() as int) =~= name);
    assert(name.take(name.len() as int) =~= name);
    assert(t.skip(name.len() as int) =~= rest);
    assert(name.skip(name.len() as int) =~= none);
    lemma_trim_start_behind_space(space, arg);
}

proof fn lemma_trim_start_behind_space(space: Seq<char>, s: Seq<char>)
    requires
        forall|j: int| 0 <= j < space.len() ==> white_space(#[trigger] space[j]),
    ensures
        trim_start(space + s) == trim_start(s),
    decreases space.len(),
{
    if space.len() > 0 {
        assert(white_space(space[0]));
        lemma_trim_start_behind_space(space.drop_first(), s);
        assert((space + s).drop_first() =~= space.drop_first() + s);
    } else {
        assert(space + s =~= s);
    }
}

/// A built-in command leaves the handler alone.
pub proof fn law_built_in_commands_do_not_reach_the_handler<H: ReplHandler>(
    before: Repl<H>,
    rest: Seq<char>,
    after: Repl<H>,
    step: Step,
)
    requires
        dotted(before, rest, after, step),
        !(command_called(first_word(rest)) is Engine),
    ensures
        after.engine() == before.engine(),
        command_request(rest) is Nothing,
{
}

/// While a statement is pending, no line is a dot-command: none changes a setting,
/// ends the loop, or reaches the handler as a command.
pub proof fn law_lines_of_a_statement_are_no_commands<H: ReplHandler>(
    before: Repl<H>,
    line: Seq<char>,
    after: Repl<H>,
    step: Step,
)
    requires
        before.pending().len() > 0,
        fed(before, line, after, step),
    ensures
        after.same_settings(&before),
        !(line_request(before.pending(), line) is Command),
        !ends_statement(grown(before.pending(), line)) ==> step is Continue && after.engine()
            == before.engine(),
{
}

/// A built-in command may be shortened to any beginning of its name; what begins
/// both `help` and `headers` means the former.
pub proof fn law_built_in_commands_may_be_shortened(name: Seq<char>)
    requires
        name.len() > 0,
    ensures
        name.is_prefix_of("quit"@) || name.is_prefix_of("exit"@) ==> command_called(name) is Quit,
        name.is_prefix_of("help"@) ==> command_called(name) is Help,
        name.is_prefix_of("mode"@) ==> command_called(name) is Mode,
        name.is_prefix_of("headers"@) && !name.is_prefix_of("help"@) ==> command_called(
            name,
        ) is Headers,
        name.is_prefix_of("color"@) ==> command_called(name) is Color,
{
    reveal_strlit("quit");
    reveal_strlit("exit");
    reveal_strlit("help");
    reveal_strlit("mode");
    reveal_strlit("headers");
    reveal_strlit("color");
    assert(name.is_prefix_of("quit"@) ==> name[0] == 'q');
    assert(name.is_prefix_of("exit"@) ==> name[0] == 'e');
    assert(name.is_prefix_of("help"@) ==> name[0] == 'h');
    assert(name.is_prefix_of("mode"@) ==> name[0] == 'm');
    assert(name.is_prefix_of("headers"@) ==> name[0] == 'h');
    assert(name.is_prefix_of("color"@) ==> name[0] == 'c');
}

/// The last character of `s` that is no white space is a semicolon.
pub open spec fn last_is_semicolon(s: Seq<char>) -> bool {
    exists|i: int|
        0 <= i < s.len() && #[trigger] s[i] == ';' && forall|k: int|
            i < k < s.len() ==> white_space(#[trigger] s[k])
}

/// A text is a complete statement exactly where its last character that is no white space
/// is a semicolon.
pub proof fn law_statements_end_with_a_semicolon(s: Seq<char>)
    ensures
        ends_statement(s) <==> last_is_semicolon(s),
{
    let i = lemma_trim_end(s);
    if ends_statement(s) {
        assert(s[i - 1] == ';');
    }
    if last_is_semicolon(s) {
        let j = choose|j: int|
            0 <= j < s.len() && #[trigger] s[j] == ';' && forall|k: int|
                j < k < s.len() ==> white_space(#[trigger] s[k]);
        if i <= j {
            assert(white_space(s[j]));
        } else if i > j + 1 {
            assert(white_space(s[i - 1]));
        }
    }
}

/// The statement in a text is what stands in front of the semicolons at its end, without
/// the white space around it: `a..b` of the text, with white space before it, white space
/// from `b` to `c` behind it, and nothing but semicolons from `c` on.
pub proof fn law_statement_stands_before_its_semicolons(entered: Seq<char>) -> (r: (int, int, int))
    ensures
        ({
            let (a, b, c) = r;
            &&& 0 <= a <= b <= c <= entered.len()
            &&& statement(entered) == entered.subrange(a, b)
            &&& forall|k: int| 0 <= k < a ==> white_space(#[trigger] entered[k])
            &&& forall|k: int| b <= k < c ==> white_space(#[trigger] entered[k])
            &&& forall|k: int| c <= k < entered.len() ==> #[trigger] entered[k] == ';'
            &&& c > 0 ==> entered[c - 1] != ';'
            &&& a < b ==> !white_space(entered[a]) && !white_space(entered[b - 1])
        }),
{
    let c = law_copies_at_the_end_are_taken_off(entered, ';');
    let t = entered.take(c);
    let (a, b) = law_trimming_takes_off_only_white_space(t);
    assert(t.subrange(a, b) =~= entered.subrange(a, b));
    assert forall|k: int| 0 <= k < a implies white_space(#[trigger] entered[k]) by {
        assert(t[k] == entered[k]);
    }
    assert forall|k: int| b <= k < c implies white_space(#[trigger] entered[k]) by {
        assert(t[k] == entered[k]);
    }
    (a, b, c)
}

/// A line that is no dot-command is gathered, without the white space around it and
/// behind a space where something is pending. Nothing else happens until the text ends
/// with a semicolon; then nothing is pending any more, and the handler is asked for the
/// statement in the text, unless that is blank.
pub proof fn law_lines_are_gathered_up_to_a_semicolon<H: ReplHandler>(
    before: Repl<H>,
    line: Seq<char>,
    after: Repl<H>,
    step: Step,
)
    requires
        fed(before, line, after, step),
        before.pending().len() > 0 || trim(line).len() == 0 || trim(line)[0] != '.',
    ensures
        ({
            let entered = if before.pending().len() == 0 {
                trim(line)
            } else {
                before.pending() + seq![' '] + trim(line)
            };
            let asked = line_request(before.pending(), line);
            &&& !last_is_semicolon(entered) ==> step is Continue && after.pending() == entered
                && after.engine() == before.engine() && asked is Nothing
            &&& last_is_semicolon(entered) ==> after.pending().len() == 0
            &&& last_is_semicolon(entered) && statement(entered).len() > 0 ==> asked
                == Request::Execute(statement(entered))
            &&& last_is_semicolon(entered) && statement(entered).len() == 0 ==> asked is Nothing
                && step is Continue && after.engine() == before.engine()
            &&& after.output_mode() == before.output_mode()
            &&& after.shows_headers() == before.shows_headers()
            &&& after.shows_color() == before.shows_color()
        }),
{
    let entered = if before.pending().len() == 0 {
        trim(line)
    } else {
        before.pending() + seq![' '] + trim(line)
    };
    assert(grown(before.pending(), line) =~= entered);
    law_statements_end_with_a_semicolon(entered);
}

/// A line with a dot in front is a dot-command where nothing is pending, whatever white
/// space is around it: what is carried out is the text behind the dot.
pub proof fn law_lines_with_a_dot_are_commands<H: ReplHandler>(
    before: Repl<H>,
    lead: Seq<char>,
    rest: Seq<char>,
    tail: Seq<char>,
    after: Repl<H>,
    step: Step,
)
    requires
        before.pending().len() == 0,
        blank(lead),
        blank(tail),
        rest.len() > 0 ==> !white_space(rest.last()),
        fed(before, lead + (seq!['.'] + rest) + tail, after, step),
    ensures
        dotted(before, rest, after, step),
        line_request(before.pending(), lead + (seq!['.'] + rest) + tail) == command_request(rest),
{
    let s = seq!['.'] + rest;
    assert(s[s.len() - 1] == if rest.len() > 0 {
        rest.last()
    } else {
        '.'
    });
    law_white_space_around_a_text_does_not_count(lead, s, tail);
    assert(s.drop_first() =~= rest);
}

/// What each built-in command does, and to which settings: no other setting changes, and
/// neither does what is pending nor the handler.
pub proof fn law_built_in_commands<H: ReplHandler>(
    before: Repl<H>,
    rest: Seq<char>,
    after: Repl<H>,
    step: Step,
)
    requires
        dotted(before, rest, after, step),
    ensures
        ({
            let name = first_word(rest);
            let arg = argument(rest);
            let quit = name.len() > 0 && (name.is_prefix_of("quit"@) || name.is_prefix_of("exit"@));
            let help = name.len() > 0 && name.is_prefix_of("help"@);
            let mode = name.len() > 0 && name.is_prefix_of("mode"@);
            let headers = name.len() > 0 && name.is_prefix_of("headers"@) && !help;
            let color = name.len() > 0 && name.is_prefix_of("color"@);
            let chosen = mode_called(lowered(arg));
            &&& after.pending() == before.pending()
            &&& after.output_mode() == if mode && chosen is Some {
                chosen->0
            } else {
                before.output_mode()
            }
            &&& after.shows_headers() == if headers && arg == "on"@ {
                true
            } else if headers && arg == "off"@ {
                false
            } else {
                before.shows_headers()
            }
            &&& after.shows_color() == if color && arg == "on"@ {
                true
            } else if color && arg == "off"@ {
                false
            } else {
                before.shows_color()
            }
            &&& quit || help || mode || headers || color ==> after.engine() == before.engine()
                && command_request(rest) is Nothing
            &&& !(quit || help || mode || headers || color) ==> command_request(rest)
                == Request::Command(name, arg)
            &&& quit ==> step is Quit
            &&& help || mode ==> step is Print
            &&& help ==> exists|extra: Vec<String>| #[trigger]
                call_ensures(H::help_extra, (&before.engine(),), extra) && step->Print_0@
                    == help_text(texts(extra@))
            &&& mode && chosen is Some ==> (step matches Step::Print(t) && t@ == "mode: "@ + arg)
            &&& mode && chosen is None ==> (step matches Step::Print(t) && t@
                == ".mode table|list|column|line|csv|json"@)
            &&& headers || color ==> (if arg == "on"@ || arg == "off"@ {
                step is Continue
            } else {
                step matches Step::Print(t) && t@ == if headers {
                    "usage: .headers on|off"@
                } else {
                    "usage: .color on|off"@
                }
            })
        }),
{
    reveal_strlit("quit");
    reveal_strlit("exit");
    reveal_strlit("help");
    reveal_strlit("mode");
    reveal_strlit("headers");
    reveal_strlit("color");
    reveal_strlit("on");
    reveal_strlit("off");
    let name = first_word(rest);
    if name.len() > 0 {
        assert(name.is_prefix_of("quit"@) ==> name[0] == 'q');
        assert(name.is_prefix_of("exit"@) ==> name[0] == 'e');
        assert(name.is_prefix_of("help"@) ==> name[0] == 'h');
        assert(name.is_prefix_of("mode"@) ==> name[0] == 'm');
        assert(name.is_prefix_of("headers"@) ==> name[0] == 'h');
        assert(name.is_prefix_of("color"@) ==> name[0] == 'c');
    }
    assert("on"@.len() == 2 && "off"@.len() == 3);
}

/// A dot with nothing behind it is a command with an empty name and an empty argument.
pub proof fn law_a_lone_dot_has_an_empty_name(rest: Seq<char>)
    requires
        blank(rest),
    ensures
        first_word(rest) == Seq::<char>::empty(),
        argument(rest) == Seq::<char>::empty(),
        command_request(rest) == Request::Command(seq![], seq![]),
{
    let i = lemma_trim_start(rest);
    if i < rest.len() {
        assert(white_space(rest[i]));
    }
    let t = trim_start(rest);
    assert(t =~= seq![]);
    assert(first_word(rest) =~= seq![]);
    assert(t.skip(0) =~= seq![]);
    assert(argument(rest) =~= seq![]);
}

/// The help has the engine's own lines, all of them and in their order, between those on
/// the built-in commands and those on the keys.
pub proof fn law_help_holds_the_engines_lines(
    extra: Seq<Seq<char>>,
    front: Seq<char>,
    back: Seq<char>,
)
    requires
        front == join(help_commands(), "\n"@),
        back == join(help_keys(), "\n"@),
    ensures
        help_text(seq![]) == front + "\n"@ + back,
        extra.len() > 0 ==> help_text(extra) == front + "\n"@ + join(extra, "\n"@) + "\n"@ + back,
{
    law_joining_in_parts(help_commands(), help_keys(), "\n"@);
    assert(help_commands() + Seq::<Seq<char>>::empty() =~= help_commands());
    law_joining_in_parts(help_commands() + extra, help_keys(), "\n"@);
    law_joining_in_parts(help_commands(), extra, "\n"@);
}

/// The lines with which an engine answers are printed one below the other; no answer is
/// printed as a complaint about the command's name.
pub proof fn law_answers_are_printed(name: Seq<char>, lines: Option<Vec<String>>, step: Step)
    requires
        replies(name, lines, step),
    ensures
        step is Print,
        lines matches Some(v) ==> step->Print_0@ == join(texts(v@), "\n"@),
        lines is None ==> step->Print_0@ == "unknown command: ."@ + name,
{
}

/// A result is printed as the handler renders it in the mode and with the headers that
/// are set; an error is printed as one, and nothing is rendered.
pub proof fn law_results_are_printed<H: ReplHandler>(
    handler: H,
    result: Result<H::Output, String>,
    mode: OutputMode,
    headers: bool,
    step: Step,
)
    requires
        reports(handler, result, mode, headers, step),
    ensures
        step is Print,
        result matches Ok(output) ==> call_ensures(
            H::format,
            (&handler, &output, mode, headers),
            step->Print_0,
        ),
        result matches Err(e) ==> step->Print_0@ == "error: "@ + e@,
{
}

/// The loop goes on after a step, with what is to be printed, unless the step ends it.
pub proof fn law_turns_follow_from_steps(step: Step, turn: Turn)
    requires
        turns(step, turn),
    ensures
        step is Quit <==> turn is Stop,
        step is Continue ==> turn == Turn::Again(None),
        step matches Step::Print(text) ==> turn == Turn::Again(Some(text)),
{
}

} // verus!
