//! Where the history of an application is kept.

use std::path::PathBuf;

use vstd::prelude::*;
use vstd::utf8::encode_utf8;

use crate::highlight::ascii_letter;
use crate::text::chars_of;

verus! {

/// Trusted: a path that owns its text. Nothing is known of it but what
/// `path_bytes` gives.
#[verifier::external_type_specification]
#[verifier::external_body]
pub struct ExPathBuf(PathBuf);

/// The bytes that a path holds, as `OsStr::as_encoded_bytes` gives them. In them
/// Unicode text stands in UTF-8.
pub uninterp spec fn path_bytes(p: PathBuf) -> Seq<u8>;

/// Trusted: `dirs::state_dir` gives the directory in which the user's programs
/// keep their state, from the environment; some platforms have none.
pub assume_specification[ dirs::state_dir ]() -> (dir: Option<PathBuf>)
;

/// Trusted: `dirs::home_dir` gives the user's home directory, from the environment
/// or from what the system knows of the user; there may be none.
pub assume_specification[ dirs::home_dir ]() -> (dir: Option<PathBuf>)
;

/// A character that separates the parts of a path, on some platform.
pub open spec fn separator(c: char) -> bool {
    c == '/' || c == '\\'
}

/// The name begins with a drive, as on Windows: a letter and a colon.
pub open spec fn drive(name: Seq<char>) -> bool {
    name.len() > 1 && ascii_letter(name[0]) && name[1] == ':'
}

/// The name of a file below some directory: neither a separator nor a drive in front.
pub open spec fn relative(name: Seq<char>) -> bool {
    &&& name.len() > 0 ==> !separator(name[0])
    &&& !drive(name)
}

/// The path begins with a backslash, as on Windows those of network shares do, and
/// those that are not to be interpreted.
pub open spec fn backslashed(path: Seq<u8>) -> bool {
    path.len() > 0 && path[0] == 0x5c
}

/// `path` holds the path of the file `name` in the directory `dir`: the one behind
/// the other, with a slash or a backslash between them. There is none where `dir` is
/// empty or ends with a slash; where it ends with a backslash or a colon, there may
/// be none. Where `dir` begins with a backslash, this only says that `path` does too.
pub open spec fn within(path: Seq<u8>, dir: Seq<u8>, name: Seq<char>) -> bool {
    let together = path == dir + encode_utf8(name);
    let apart = path == dir.push(0x2f) + encode_utf8(name) || path == dir.push(0x5c)
        + encode_utf8(name);
    if backslashed(dir) {
        backslashed(path)
    } else if dir.len() == 0 || dir.last() == 0x2f {
        together
    } else if dir.last() == 0x5c || dir.last() == 0x3a {
        together || apart
    } else {
        apart
    }
}

/// Trusted: `Path::join` extends a path by a relative one. The result holds the
/// directory, a separator unless the directory ends with one or is empty, and the
/// name. Which characters separate depends on the platform, and on Windows a drive
/// takes no separator. What comes of a name that begins with a separator or a drive
/// is left unsaid: it may replace the directory. So is what exactly comes of a
/// directory that begins with a backslash, which Windows may have rewritten.
#[verifier::external_body]
fn join_path(dir: &PathBuf, name: &str) -> (path: PathBuf)
    ensures
        relative(name@) ==> within(path_bytes(path), path_bytes(*dir), name@),
{
    dir.join(name)
}

/// A file of this name would not stay in the directory that it is put in: the name
/// begins with a separator, with a drive, or with a step up.
pub open spec fn strays(app: Seq<char>) -> bool {
    ||| app.len() > 0 && separator(app[0])
    ||| drive(app)
    ||| app.len() > 2 && app[0] == '.' && app[1] == '.' && separator(app[2])
}

/// The name of the history file of an application: with a dot in front of it among
/// the other files of a home directory, and without in a directory for state. There
/// too the dot stands in front of a name that would not stay in the directory.
pub open spec fn history_name(app: Seq<char>, at_home: bool) -> Seq<char> {
    if at_home || strays(app) {
        "."@ + app + "_history"@
    } else {
        app + "_history"@
    }
}

/// `path` is the history file of `app` in the directory `dir`.
pub open spec fn history_file(path: PathBuf, dir: PathBuf, app: Seq<char>, at_home: bool) -> bool {
    within(path_bytes(path), path_bytes(dir), history_name(app, at_home))
}

/// `path` is the history file of `app`, given the directory for state and the home
/// directory where there are such: in the directory for state, or else in the home
/// directory, or else nowhere.
pub open spec fn history_kept(
    path: Option<PathBuf>,
    state_dir: Option<PathBuf>,
    home_dir: Option<PathBuf>,
    app: Seq<char>,
) -> bool {
    match (state_dir, home_dir) {
        (Some(dir), _) => path matches Some(p) && history_file(p, dir, app, false),
        (None, Some(dir)) => path matches Some(p) && history_file(p, dir, app, true),
        (None, None) => path is None,
    }
}

fn is_separator(c: char) -> (b: bool)
    ensures
        b == separator(c),
{
    c == '/' || c == '\\'
}

fn is_letter(c: char) -> (b: bool)
    ensures
        b == ascii_letter(c),
{
    ('a' <= c && c <= 'z') || ('A' <= c && c <= 'Z')
}

fn is_stray(app: &str) -> (b: bool)
    ensures
        b == strays(app@),
{
    let chars = chars_of(app);
    (chars.len() > 0 && is_separator(chars[0])) || (chars.len() > 1 && is_letter(chars[0])
        && chars[1] == ':') || (chars.len() > 2 && chars[0] == '.' && chars[1] == '.'
        && is_separator(chars[2]))
}

/// The history file of an application in a directory.
fn history_in(dir: &PathBuf, app_name: &str, at_home: bool) -> (path: PathBuf)
    ensures
        history_file(path, *dir, app_name@, at_home),
{
    let mut name = String::new();
    if at_home || is_stray(app_name) {
        name.append(".");
    }
    name.append(app_name);
    name.append("_history");
    assert(name@ =~= history_name(app_name@, at_home));
    proof {
        law_history_stays_in_its_directory(app_name@, at_home);
    }
    join_path(dir, name.as_str())
}

/// The history file of `app`, given the directory for state and the home directory
/// where there are such: in the directory for state, or else in the home directory.
pub fn history_path_in(
    state_dir: Option<PathBuf>,
    home_dir: Option<PathBuf>,
    app_name: &str,
) -> (path: Option<PathBuf>)
    ensures
        history_kept(path, state_dir, home_dir, app_name@),
{
    match state_dir {
        Some(dir) => Some(history_in(&dir, app_name, false)),
        None => match home_dir {
            Some(dir) => Some(history_in(&dir, app_name, true)),
            None => None,
        },
    }
}

/// The file in which the history of an application is kept by default, such as
/// `~/.local/state/column-rs_history` for `column-rs`: the one that goes with what
/// `dirs::state_dir` gives and, where that is nothing, with what `dirs::home_dir`
/// gives.
pub fn history_path(app_name: &str) -> (path: Option<PathBuf>)
    ensures
        exists|state: Option<PathBuf>| #[trigger]
            call_ensures(dirs::state_dir, (), state) && match state {
                Some(_) => history_kept(path, state, None, app_name@),
                None => exists|home: Option<PathBuf>| #[trigger]
                    call_ensures(dirs::home_dir, (), home) && history_kept(
                        path,
                        None,
                        home,
                        app_name@,
                    ),
            },
{
    match dirs::state_dir() {
        Some(dir) => history_path_in(Some(dir), None, app_name),
        None => history_path_in(None, dirs::home_dir(), app_name),
    }
}

/// The name of a history file is relative: whatever the application is called, the
/// file does not replace the directory. In a directory for state it begins with no
/// step up either.
pub proof fn law_history_stays_in_its_directory(app: Seq<char>, at_home: bool)
    ensures
        relative(history_name(app, at_home)),
        !at_home ==> !strays(history_name(app, at_home)),
{
    reveal_strlit(".");
    reveal_strlit("_history");
    let name = history_name(app, at_home);
    let k = if at_home || strays(app) {
        1int
    } else {
        0
    };
    if k <= 0 < k + app.len() {
        assert(name[0] == app[0 - k]);
    }
    if k <= 1 < k + app.len() {
        assert(name[1] == app[1 - k]);
    }
    if k <= 2 < k + app.len() {
        assert(name[2] == app[2 - k]);
    }
}

/// The history of an application is kept under its name: in the directory for state where
/// there is one, and otherwise, with a dot in front, in the home directory. In the former
/// too there is a dot in front of a name that would lead out of it.
pub proof fn law_history_is_kept_under_the_applications_name(
    path: Option<PathBuf>,
    state_dir: Option<PathBuf>,
    home_dir: Option<PathBuf>,
    app: Seq<char>,
)
    requires
        history_kept(path, state_dir, home_dir, app),
    ensures
        state_dir matches Some(dir) ==> (path matches Some(p) && within(
            path_bytes(p),
            path_bytes(dir),
            if app.len() > 0 && (app[0] == '/' || app[0] == '\\') || app.len() > 1 && (
            'a' <= app[0] <= 'z' || 'A' <= app[0] <= 'Z') && app[1] == ':' || app.len() > 2
                && app[0] == '.' && app[1] == '.' && (app[2] == '/' || app[2] == '\\') {
                "."@ + app + "_history"@
            } else {
                app + "_history"@
            },
        )),
        state_dir is None ==> (home_dir matches Some(dir) ==> (path matches Some(p) && within(
            path_bytes(p),
            path_bytes(dir),
            "."@ + app + "_history"@,
        ))),
        state_dir is None && home_dir is None ==> path is None,
{
}

} // verus!
