use db_cli::history::{History, MAX_HISTORY};

#[test]
fn add_skips_blank_and_consecutive_duplicates() {
    let mut h = History::new();
    h.add("select 1");
    h.add("  ");
    h.add("select 1");
    h.add("select 2");
    assert_eq!(h.len(), 2);
}

#[test]
fn prev_next_navigate_in_order() {
    let mut h = History::new();
    h.add("a");
    h.add("b");
    h.add("c");
    let mut idx = None;
    assert_eq!(h.prev(&mut idx), Some("c"));
    assert_eq!(h.prev(&mut idx), Some("b"));
    assert_eq!(h.next(&mut idx), Some("c"));
    assert_eq!(h.next(&mut idx), None);
}

#[test]
fn load_and_save_round_trip() {
    let mut h = History::new();
    h.add("select 1");
    h.add("select 2");
    let contents = h.save();

    let mut loaded = History::new();
    loaded.load(&contents);
    assert_eq!(loaded.len(), 2);
    assert_eq!(loaded.save(), "select 1\nselect 2");
}

#[test]
fn entries_are_trimmed() {
    let mut h = History::new();
    h.add("  select 1\t\n");
    assert_eq!(h.save(), "select 1");
    h.add("select 1");
    assert_eq!(h.len(), 1);
}

#[test]
fn a_line_may_come_again_later() {
    let mut h = History::new();
    h.add("a");
    h.add("b");
    h.add("a");
    assert_eq!(h.save(), "a\nb\na");
}

#[test]
fn prev_stays_at_the_oldest_entry() {
    let mut h = History::default();
    let mut idx = None;
    assert!(h.is_empty());
    assert_eq!(h.prev(&mut idx), None);
    assert_eq!(idx, None);
    h.add("a");
    h.add("b");
    assert!(!h.is_empty());
    assert_eq!(h.next(&mut idx), None);
    assert_eq!(h.prev(&mut idx), Some("b"));
    assert_eq!(h.prev(&mut idx), Some("a"));
    assert_eq!(h.prev(&mut idx), Some("a"));
    assert_eq!(idx, Some(0));
    assert_eq!(h.next(&mut idx), Some("b"));
    assert_eq!(h.next(&mut idx), None);
    assert_eq!(idx, None);
}

#[test]
fn positions_behind_the_entries_find_none() {
    let mut h = History::new();
    h.add("a");
    let mut idx = Some(7);
    assert_eq!(h.prev(&mut idx), None);
    assert_eq!(idx, Some(6));
    assert_eq!(h.next(&mut idx), None);
    assert_eq!(idx, None);
}

#[test]
fn the_oldest_entry_makes_room() {
    let mut h = History::new();
    for i in 0..MAX_HISTORY + 1 {
        h.add(&format!("line {}", i));
    }
    assert_eq!(h.len(), MAX_HISTORY);
    assert!(h.save().starts_with("line 1\nline 2\n"));
    assert!(h.save().ends_with("\nline 1000"));
}

#[test]
fn load_skips_empty_lines_and_line_ends() {
    let mut h = History::new();
    h.add("first");
    h.load("a\n\nb\r\n  c\n");
    assert_eq!(h.save(), "first\na\nb\n  c");
    h.load("");
    assert_eq!(h.len(), 4);
    // Only a carriage return in front of a line feed belongs to the line end.
    let mut h = History::new();
    h.load("a\rb\r\nc\r");
    assert_eq!(h.save(), "a\rb\nc\r");
}

#[test]
fn load_keeps_the_newest_entries() {
    let mut contents = String::new();
    for i in 0..MAX_HISTORY + 5 {
        contents.push_str(&format!("line {}\n", i));
    }
    let mut h = History::new();
    h.load(&contents);
    assert_eq!(h.len(), MAX_HISTORY);
    assert!(h.save().starts_with("line 5\n"));
    let mut idx = None;
    assert_eq!(h.prev(&mut idx), Some("line 1004"));
}
