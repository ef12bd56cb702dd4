use std::path::PathBuf;

use db_cli::history_path;
use db_cli::paths::history_path_in;

#[test]
fn history_is_kept_with_the_state() {
    let state = PathBuf::from("/home/me/.local/state");
    let home = PathBuf::from("/home/me");
    assert_eq!(
        history_path_in(Some(state.clone()), Some(home), "column-rs"),
        Some(PathBuf::from("/home/me/.local/state/column-rs_history"))
    );
    assert_eq!(
        history_path_in(Some(state), None, "column-rs"),
        Some(PathBuf::from("/home/me/.local/state/column-rs_history"))
    );
}

#[test]
fn history_is_hidden_in_the_home_directory() {
    let home = PathBuf::from("/home/me/");
    assert_eq!(
        history_path_in(None, Some(home), "column-rs"),
        Some(PathBuf::from("/home/me/.column-rs_history"))
    );
}

#[test]
fn history_stays_in_its_directory() {
    let state = PathBuf::from("/state");
    let path = |app: &str| history_path_in(Some(state.clone()), None, app).unwrap();
    assert_eq!(path("/x"), PathBuf::from("/state/x_history"));
    assert_eq!(path("../x"), PathBuf::from("/state/.../x_history"));
    assert_eq!(path("a/b"), PathBuf::from("/state/a/b_history"));
    assert_eq!(path(".."), PathBuf::from("/state/.._history"));
    assert_eq!(path("C:x"), PathBuf::from("/state/.C:x_history"));
    assert_eq!(path("ab:c"), PathBuf::from("/state/ab:c_history"));
    assert_eq!(path(":x"), PathBuf::from("/state/:x_history"));
    assert_eq!(path(""), PathBuf::from("/state/_history"));
    let home = PathBuf::from("/home/me");
    assert_eq!(
        history_path_in(None, Some(home), "/x"),
        Some(PathBuf::from("/home/me/x_history"))
    );
}

#[test]
fn history_is_separated_from_its_directory() {
    for (dir, path) in [("/a", "/a/x_history"), ("/a/", "/a/x_history"), ("", "x_history")] {
        let found = history_path_in(Some(PathBuf::from(dir)), None, "x").unwrap();
        assert_eq!(found.as_os_str(), path);
    }
}

#[test]
fn history_needs_a_directory() {
    assert_eq!(history_path_in(None, None, "column-rs"), None);
}

#[test]
fn history_goes_where_the_directories_are() {
    assert_eq!(
        history_path("column-rs"),
        history_path_in(dirs::state_dir(), dirs::home_dir(), "column-rs")
    );
}
