use std::io;

use db_cli::repl::{reply, Turn};
use db_cli::{OutputMode, Readline, ReadlineError, Repl, ReplHandler, ReplOptions, Step};

struct MockHandler {
    executed: Vec<String>,
}

impl ReplHandler for MockHandler {
    type Output = (Vec<String>, Vec<Vec<String>>);

    fn execute(&mut self, input: &str) -> Result<Self::Output, String> {
        self.executed.push(input.to_string());
        if input == "fail" {
            return Err("boom".to_string());
        }
        Ok((vec!["x".to_string()], vec![vec![input.to_string()]]))
    }

    fn format(&self, output: &Self::Output, mode: OutputMode, headers: bool) -> String {
        db_cli::output::render(mode, &output.0, &output.1, headers)
    }

    fn command(&mut self, name: &str, arg: &str) -> Option<Vec<String>> {
        if name == "echo" {
            Some(vec![arg.to_string()])
        } else {
            None
        }
    }
}

fn mock() -> Repl<MockHandler> {
    Repl::new(MockHandler {
        executed: Vec::new(),
    })
}

#[test]
fn buffers_until_semicolon() {
    let mut repl = mock();
    assert!(matches!(repl.feed_line("select"), Step::Continue));
    assert!(repl.is_buffering());
    assert!(matches!(repl.feed_line("1;"), Step::Print(_)));
    assert!(!repl.is_buffering());
    assert_eq!(repl.into_handler().executed, vec!["select 1".to_string()]);
}

#[test]
fn execute_error_is_printed_not_fatal() {
    let mut repl = mock();
    match repl.feed_line("fail;") {
        Step::Print(text) => assert!(text.contains("error: boom")),
        _ => panic!("expected Print"),
    }
}

#[test]
fn quit_and_exit_dot_commands_stop_the_repl() {
    assert!(matches!(mock().feed_line(".quit"), Step::Quit));
    assert!(matches!(mock().feed_line(".exit"), Step::Quit));
}

#[test]
fn mode_command_switches_output_mode() {
    let mut repl = mock();
    repl.feed_line(".mode json");
    assert_eq!(repl.mode(), OutputMode::Json);
}

#[test]
fn unknown_dot_command_reports_itself() {
    match mock().feed_line(".bogus") {
        Step::Print(text) => assert_eq!(text, "unknown command: .bogus"),
        _ => panic!("expected Print"),
    }
}

#[test]
fn handler_command_is_dispatched() {
    match mock().feed_line(".echo hello") {
        Step::Print(text) => assert_eq!(text, "hello"),
        _ => panic!("expected Print"),
    }
}

#[test]
fn empty_statement_is_ignored() {
    assert!(matches!(mock().feed_line(";"), Step::Continue));
}

#[test]
fn mode_command_accepts_list_column_line() {
    let mut repl = mock();
    repl.feed_line(".mode list");
    assert_eq!(repl.mode(), OutputMode::List);
    repl.feed_line(".mode column");
    assert_eq!(repl.mode(), OutputMode::Column);
    repl.feed_line(".mode line");
    assert_eq!(repl.mode(), OutputMode::Line);
}

#[test]
fn headers_default_off_and_toggled_by_dot_command() {
    let mut repl = mock();
    assert!(!repl.headers());
    assert!(matches!(repl.feed_line(".headers on"), Step::Continue));
    assert!(repl.headers());
    assert!(matches!(repl.feed_line(".headers off"), Step::Continue));
    assert!(!repl.headers());
}

#[test]
fn headers_command_rejects_bad_argument() {
    match mock().feed_line(".headers bogus") {
        Step::Print(text) => assert_eq!(text, "usage: .headers on|off"),
        _ => panic!("expected Print"),
    }
}

#[test]
fn headers_setting_reaches_format_via_execute() {
    let mut repl = mock();
    repl.feed_line(".mode list");
    repl.feed_line(".headers on");
    match repl.feed_line("select 1;") {
        Step::Print(text) => assert!(text.starts_with("x\n")),
        _ => panic!("expected Print"),
    }
}

#[test]
fn color_default_on_and_toggled_by_dot_command() {
    let mut repl = mock();
    assert!(repl.color());
    assert!(matches!(repl.feed_line(".color off"), Step::Continue));
    assert!(!repl.color());
    assert!(matches!(repl.feed_line(".color on"), Step::Continue));
    assert!(repl.color());
}

#[test]
fn color_command_rejects_bad_argument() {
    match mock().feed_line(".color bogus") {
        Step::Print(text) => assert_eq!(text, "usage: .color on|off"),
        _ => panic!("expected Print"),
    }
}

fn printed(step: Step) -> String {
    match step {
        Step::Print(text) => text,
        _ => panic!("expected Print"),
    }
}

#[test]
fn statements_are_rendered_in_the_mode() {
    let mut repl = mock();
    assert_eq!(repl.mode(), OutputMode::Table);
    assert_eq!(printed(repl.feed_line("select 1;")), "┌──────────┐\n│ x        │\n├──────────┤\n│ select 1 │\n└──────────┘\n");
    assert_eq!(printed(repl.feed_line(".mode LIST")), "mode: LIST");
    assert_eq!(printed(repl.feed_line("select 1;")), "select 1\n");
    assert_eq!(printed(repl.feed_line("fail;")), "error: boom");
    assert_eq!(
        printed(repl.feed_line(".mode nope")),
        ".mode table|list|column|line|csv|json"
    );
    assert_eq!(repl.mode(), OutputMode::List);
}

#[test]
fn lines_of_a_statement_are_joined_by_spaces() {
    let mut repl = mock();
    repl.feed_line("  select  a,  ");
    repl.feed_line("");
    repl.feed_line("\tb");
    repl.feed_line("from t ; ");
    assert!(!repl.is_buffering());
    assert_eq!(repl.handler_mut().executed, vec!["select  a,  b from t".to_string()]);
}

#[test]
fn semicolons_at_the_end_are_dropped() {
    let mut repl = mock();
    repl.feed_line("select 1;;;");
    repl.feed_line("a; b;");
    repl.feed_line(";;");
    assert_eq!(
        repl.into_handler().executed,
        vec!["select 1".to_string(), "a; b".to_string()]
    );
}

#[test]
fn semicolon_on_a_line_of_its_own_ends_the_statement() {
    let mut repl = mock();
    repl.feed_line("select 1");
    assert!(matches!(repl.feed_line(";"), Step::Print(_)));
    assert_eq!(repl.into_handler().executed, vec!["select 1".to_string()]);
}

#[test]
fn blank_lines_begin_no_statement() {
    let mut repl = mock();
    assert!(matches!(repl.feed_line("   "), Step::Continue));
    assert!(!repl.is_buffering());
}

#[test]
fn dots_within_a_statement_are_no_commands() {
    let mut repl = mock();
    repl.feed_line("select");
    assert!(matches!(repl.feed_line(".quit"), Step::Continue));
    assert!(matches!(repl.feed_line(".mode csv;"), Step::Print(_)));
    assert_eq!(repl.mode(), OutputMode::Table);
    assert_eq!(
        repl.into_handler().executed,
        vec!["select .quit .mode csv".to_string()]
    );
}

#[test]
fn commands_may_be_shortened() {
    assert!(matches!(mock().feed_line(".q"), Step::Quit));
    assert!(matches!(mock().feed_line(".ex"), Step::Quit));
    assert!(printed(mock().feed_line(".h")).starts_with(".help"));
    assert!(printed(mock().feed_line(".he")).starts_with(".help"));
    let mut repl = mock();
    assert!(matches!(repl.feed_line("  .hea   on  "), Step::Continue));
    assert!(repl.headers());
    assert_eq!(printed(repl.feed_line(".m csv")), "mode: csv");
    assert_eq!(repl.mode(), OutputMode::Csv);
    assert!(matches!(repl.feed_line(".c off"), Step::Continue));
    assert!(!repl.color());
}

#[test]
fn longer_names_are_not_built_in() {
    assert_eq!(printed(mock().feed_line(".quitx")), "unknown command: .quitx");
    assert_eq!(printed(mock().feed_line(".")), "unknown command: .");
    assert_eq!(printed(mock().feed_line(".HELP")), "unknown command: .HELP");
}

#[test]
fn arguments_are_trimmed() {
    assert_eq!(printed(mock().feed_line(".echo   a  b  ")), "a  b");
    assert_eq!(printed(mock().feed_line(".echo")), "");
}

#[test]
fn names_may_stand_apart_from_their_dot() {
    assert_eq!(printed(mock().feed_line(". echo x")), "x");
    let mut repl = mock();
    assert_eq!(printed(repl.dot_command(" echo hi")), "hi");
    assert_eq!(printed(repl.feed_line(". mode json")), "mode: json");
    assert_eq!(repl.mode(), OutputMode::Json);
    assert!(matches!(repl.feed_line(".  headers  on"), Step::Continue));
    assert!(repl.headers());
    assert!(matches!(repl.feed_line(". quit"), Step::Quit));
}

#[test]
fn commands_are_carried_out_without_their_dot() {
    let mut repl = mock();
    assert_eq!(printed(repl.dot_command("echo hi")), "hi");
    assert!(matches!(repl.dot_command("headers on"), Step::Continue));
    assert!(repl.headers());
}

struct Helpful;

impl ReplHandler for Helpful {
    type Output = String;

    fn execute(&mut self, input: &str) -> Result<String, String> {
        Ok(input.to_uppercase())
    }

    fn format(&self, output: &String, _mode: OutputMode, headers: bool) -> String {
        format!("{} {}", output, headers)
    }

    fn help_extra(&self) -> Vec<String> {
        vec![".tables  List tables".to_string()]
    }

    fn banner(&self) -> Option<String> {
        Some("welcome".to_string())
    }
}

#[test]
fn help_lists_commands_and_keys() {
    let expected = "\
.help          Show this message
.mode <table|list|column|line|csv|json>  Set output format
.headers on|off  Toggle header row (list/column/csv)
.color on|off  Toggle syntax highlighting
.quit / .exit  Exit
.tables  List tables

Keybindings:
  Ctrl-A / Ctrl-E   line start / end
  Ctrl-B / Ctrl-F   char left / right
  Ctrl-K / Ctrl-U   kill to end / start of line
  Ctrl-W            kill previous word
  Alt-B / Alt-F     word left / right
  Ctrl-L            clear screen
  Ctrl-P / Ctrl-N   history previous / next";
    assert_eq!(printed(Repl::new(Helpful).feed_line(".help")), expected);
    let plain = expected.replace(".tables  List tables\n", "");
    assert_eq!(printed(mock().feed_line(".help")), plain);
}

#[test]
fn handlers_need_only_execute_and_format() {
    let mut repl = Repl::new(Helpful);
    assert_eq!(printed(repl.feed_line("a;")), "A false");
    assert_eq!(printed(repl.feed_line(".tables")), "unknown command: .tables");
    assert_eq!(repl.handler_mut().banner(), Some("welcome".to_string()));
    assert_eq!(mock().handler_mut().banner(), None);
}

#[test]
fn results_and_replies_are_printed() {
    let repl = Repl::new(Helpful);
    assert_eq!(printed(repl.report(Ok("x".to_string()))), "x false");
    assert_eq!(printed(repl.report(Err("no".to_string()))), "error: no");
    let lines = vec!["a".to_string(), "b".to_string()];
    assert_eq!(printed(reply("t", Some(lines))), "a\nb");
    assert_eq!(printed(reply("t", None)), "unknown command: .t");
}

#[test]
fn prompts_follow_the_statement() {
    let options = ReplOptions::default();
    assert_eq!(options.prompt, "> ");
    assert_eq!(options.continuation_prompt, "  -> ");
    assert!(options.history_file.is_none());
    let mut repl = mock();
    assert_eq!(repl.prompt(&options), "> ");
    repl.feed_line("select");
    assert_eq!(repl.prompt(&options), "  -> ");
    repl.feed_line("1;");
    assert_eq!(repl.prompt(&options), "> ");
}

#[test]
fn turns_end_with_the_input() {
    let mut repl = mock();
    let mut editor = Readline::new(false);
    assert!(matches!(
        repl.take_turn(&mut editor, Ok("select".to_string())),
        Turn::Again(None)
    ));
    // Giving up a line leaves what was entered before it.
    assert!(matches!(
        repl.take_turn(&mut editor, Err(ReadlineError::Interrupted)),
        Turn::Again(None)
    ));
    assert!(repl.is_buffering());
    assert!(matches!(
        repl.take_turn(&mut editor, Ok("1;".to_string())),
        Turn::Again(Some(_))
    ));
    assert!(matches!(
        repl.take_turn(&mut editor, Ok("  ".to_string())),
        Turn::Again(None)
    ));
    assert!(matches!(
        repl.take_turn(&mut editor, Ok(".quit".to_string())),
        Turn::Stop
    ));
    assert!(matches!(
        repl.take_turn(&mut editor, Err(ReadlineError::Eof)),
        Turn::Stop
    ));
    assert_eq!(editor.save_history(), "select\n1;\n.quit");
}

#[test]
fn failures_to_read_are_passed_on() {
    let mut repl = mock();
    let mut editor = Readline::new(false);
    let error = io::Error::new(io::ErrorKind::Other, "gone");
    match repl.take_turn(&mut editor, Err(ReadlineError::Io(error))) {
        Turn::Fail(e) => assert_eq!(e.to_string(), "gone"),
        _ => panic!("expected Fail"),
    }
}
