use db_cli::highlight::{
    highlight, highlight_words, BOLD_BLUE, CYAN, GREEN, RESET, YELLOW,
};

#[test]
fn dot_commands_highlight_whole_line() {
    assert!(highlight(".help").starts_with(YELLOW));
}

#[test]
fn keyword_gets_colored() {
    let out = highlight("SELECT 1");
    assert!(out.contains(BOLD_BLUE));
}

#[test]
fn plain_identifier_is_uncolored_passthrough() {
    assert_eq!(highlight("foo"), "foo");
}

#[test]
fn every_kind_of_word_has_its_colour() {
    let out = highlight("select a_1 from t where x = 'it' and n < 3.5;");
    let expected = format!(
        "{b}select{r} a_1 {b}from{r} t {b}where{r} x = {g}'it'{r} {b}and{r} n < {c}3.5{r};",
        b = BOLD_BLUE,
        g = GREEN,
        c = CYAN,
        r = RESET
    );
    assert_eq!(out, expected);
}

#[test]
fn dot_commands_may_be_indented() {
    assert_eq!(highlight("  .mode csv"), format!("{}  .mode csv{}", YELLOW, RESET));
}

#[test]
fn an_open_string_literal_runs_to_the_end() {
    assert_eq!(highlight("'abc"), format!("{}'abc{}", GREEN, RESET));
    assert_eq!(highlight("'"), format!("{}'{}", GREEN, RESET));
}

#[test]
fn words_of_any_script_hold_together() {
    // The digit belongs to the word, and so does the keyword at its end.
    assert_eq!(highlight("größe1"), "größe1");
    assert_eq!(highlight("éAND"), "éAND");
    // A dash is no letter, so that the keyword behind it stands alone.
    assert_eq!(highlight("—AND"), format!("—{}AND{}", BOLD_BLUE, RESET));
    // A superscript digit is numeric: within a word, but not at its start.
    assert_eq!(highlight("AND²"), "AND²");
    assert_eq!(highlight("²AND"), format!("²{}AND{}", BOLD_BLUE, RESET));
}

#[test]
fn words_go_by_what_may_begin_and_continue_them() {
    let starts = [true, false, false];
    let parts = [true, true, false];
    assert_eq!(highlight_words("by;", &starts, &parts), format!("{}by{};", BOLD_BLUE, RESET));
    assert_eq!(highlight_words("by;", &[false; 3], &parts), "by;");
}

#[test]
fn colours_do_not_change_what_is_visible() {
    let lines = ["select 1.2 from 'x", ".help", "", "a 'b' c", "COUNT(*)"];
    for line in lines {
        let mut out = highlight(line);
        for code in [RESET, BOLD_BLUE, GREEN, CYAN, YELLOW] {
            out = out.replace(code, "");
        }
        assert_eq!(out, line);
    }
}

#[test]
fn all_keywords_are_coloured_in_any_case() {
    let words = [
        "SELECT", "FROM", "WHERE", "GROUP", "BY", "ORDER", "LIMIT", "AND", "OR", "NOT", "IN", "AS",
        "JOIN", "INNER", "LEFT", "RIGHT", "OUTER", "ON", "NULL", "TRUE", "FALSE", "ASC", "DESC",
        "COUNT", "SUM", "AVG", "MIN", "MAX", "OVER", "PARTITION", "ROW_NUMBER", "RANK",
        "DENSE_RANK", "LAG", "LEAD", "FIRST_VALUE", "LAST_VALUE",
    ];
    for word in words {
        assert_eq!(highlight(word), format!("{}{}{}", BOLD_BLUE, word, RESET));
        let small = word.to_ascii_lowercase();
        assert_eq!(highlight(&small), format!("{}{}{}", BOLD_BLUE, small, RESET));
        let longer = format!("{}x", word);
        assert_eq!(highlight(&longer), longer);
    }
}
