//! Line editing, rendering and read-eval-print machinery for database command
//! lines, whatever the engine behind them.
//!
//! An engine plugs in its own execution of statements and rendering of results by
//! a [`ReplHandler`]. Nothing here reads from a terminal or writes to one: the
//! editor is told which keys were pressed and says what to print, and the loop is
//! told which lines were read.
//!
//! - [`history`]: the lines that were entered before, and how they are recalled.
//! - [`keys`], [`line`], [`words`]: keys, and what each does to a line.
//! - [`layout`], [`redraw`], [`screen`]: where a line lies on a terminal, what is
//!   printed to display it, and what that comes to on the screen.
//! - [`highlight`], [`tokens`], [`ansi`]: colours for a line of SQL.
//! - [`editor`], [`session`]: the line editor, made of these, and what is on the
//!   screen while it is used.
//! - [`output`], [`reading`], [`json`], [`tables`]: tables and the other ways to render
//!   results, and what a reader gets out of them.
//! - [`repl`]: the read-eval-print loop.
//! - [`paths`]: where the history is kept.
//! - [`text`]: the strings that all of this is about.

pub mod ansi;
pub mod editor;
pub mod highlight;
pub mod history;
pub mod json;
pub mod keys;
pub mod layout;
pub mod line;
pub mod output;
pub mod paths;
pub mod reading;
pub mod redraw;
pub mod repl;
pub mod screen;
pub mod session;
pub mod tables;
pub mod text;
pub mod tokens;
pub mod words;

pub use editor::{Completer, Highlighter, Readline, ReadlineError};
pub use history::History;
pub use output::{
    render, render_column, render_csv, render_json, render_line, render_list, render_table,
    OutputMode,
};
pub use paths::history_path;
pub use repl::{Repl, ReplHandler, ReplOptions, Step};
