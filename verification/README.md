# db-cli

Line editing, rendering and read-eval-print machinery for the command lines of
database engines. It knows nothing of any engine: an engine plugs in how its
statements are executed and how its results are rendered.

The library under `src/` is written in [Verus](https://github.com/verus-lang/verus):
every function states in its contract what it returns or changes, and the verifier
proves it. `app/` holds what talks to a terminal and to files.

## Modules

- `history`: the lines that were entered before, recalled one by one, and the
  contents of the file that keeps them.
- `keys`: the bytes that a terminal sends for each key.
- `line`, `words`: the line that is being entered, and what each key does to it.
- `layout`, `redraw`, `screen`: the rows and columns that a line takes, the text that
  displays it afresh, and a model of a terminal by which that text is shown to
  display each line once, wrapped or not.
- `highlight`, `ansi`: colours for SQL, which leave what is visible as it is.
- `editor`, `session`: the editor that combines these, and the proof that the line
  stays on the screen, with the cursor at its place, whatever key is pressed.
- `output`, `reading`, `json`: results as tables, lists, columns, lines, CSV or JSON, and
  what a reader gets back out of CSV and JSON.
- `repl`: the loop. Statements are gathered up to a semicolon; dot-commands are
  carried out; everything else is the engine's.
- `paths`: the default place of the history file.
- `text`: operations on characters and strings.

## Plugging in an engine

Implement `ReplHandler`. `execute` gets each statement without its semicolon and with
a space in place of each line break; `format` renders a result in the current output
mode, for which `output::render` is at hand; `command` gets the dot-commands that are
not built in. The built-in ones are `.help`, `.quit` and `.exit`, `.mode`, `.headers`
and `.color`.

`Readline::set_completer` and `Readline::set_highlighter` take an engine's own
`Completer` and `Highlighter`. A highlighter may add colour codes, but must leave as
many visible characters as the line has. A completer that finds candidates must say
where their word begins, at or before the cursor.

## Output modes

| Mode | Headers |
|---|---|
| `list` | if switched on |
| `column` | if switched on |
| `csv` | if switched on |
| `line` | always, as labels |
| `table` | always |
| `json` | always, as keys |

## What is taken on trust

The verifier does not look into std or other crates. What it is told of them is
stated where it is used, in doc comments that begin with "Trusted".
