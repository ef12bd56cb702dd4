use db_cli::words::{
    char_byte_index, longest_common_prefix, next_word_boundary, prev_word_boundary,
};

#[test]
fn prev_boundary_from_end_of_last_word() {
    assert_eq!(prev_word_boundary("hello world", 11), 6);
}

#[test]
fn prev_boundary_skips_multiple_spaces() {
    assert_eq!(prev_word_boundary("hello   world", 13), 8);
}

#[test]
fn prev_boundary_with_leading_spaces_stops_at_zero() {
    assert_eq!(prev_word_boundary("   hello", 8), 3);
    assert_eq!(prev_word_boundary("   hello", 2), 0);
}

#[test]
fn prev_boundary_mid_word_stops_at_word_start() {
    assert_eq!(prev_word_boundary("hello world", 8), 6);
}

#[test]
fn prev_boundary_at_start_is_zero() {
    assert_eq!(prev_word_boundary("hello", 0), 0);
}

#[test]
fn prev_boundary_handles_multibyte_chars() {
    // "héllo wörld": both non-ASCII chars count as one char each.
    assert_eq!(prev_word_boundary("héllo wörld", 11), 6);
}

#[test]
fn next_boundary_from_start_of_first_word() {
    assert_eq!(next_word_boundary("hello world", 0), 6);
}

#[test]
fn next_boundary_skips_multiple_spaces() {
    assert_eq!(next_word_boundary("hello   world", 0), 8);
}

#[test]
fn next_boundary_with_trailing_spaces_stops_at_end() {
    assert_eq!(next_word_boundary("hello   ", 0), 8);
}

#[test]
fn next_boundary_mid_word_skips_to_start_of_next_word() {
    assert_eq!(next_word_boundary("hello world", 2), 6);
}

#[test]
fn next_boundary_at_end_is_line_length() {
    assert_eq!(next_word_boundary("hello", 5), 5);
}

#[test]
fn next_boundary_handles_multibyte_chars() {
    assert_eq!(next_word_boundary("héllo wörld", 0), 6);
}

#[test]
fn cursors_behind_the_line_count_as_its_end() {
    assert_eq!(prev_word_boundary("hello world", 100), 6);
    assert_eq!(next_word_boundary("hello world", 100), 11);
}

#[test]
fn empty_input_is_empty() {
    assert_eq!(longest_common_prefix(&[]), "");
}

#[test]
fn single_string_is_itself() {
    assert_eq!(longest_common_prefix(&["select".to_string()]), "select");
}

#[test]
fn shared_prefix_across_several_strings() {
    let strings = ["select".to_string(), "self".to_string()];
    assert_eq!(longest_common_prefix(&strings), "sel");
}

#[test]
fn no_shared_prefix_is_empty() {
    let strings = ["select".to_string(), "from".to_string()];
    assert_eq!(longest_common_prefix(&strings), "");
}

#[test]
fn one_string_being_a_prefix_of_another() {
    let strings = ["order".to_string(), "order_by".to_string()];
    assert_eq!(longest_common_prefix(&strings), "order");
}

#[test]
fn handles_multibyte_chars() {
    let strings = ["héllo".to_string(), "héllx".to_string()];
    assert_eq!(longest_common_prefix(&strings), "héll");
}

#[test]
fn three_strings_share_what_all_of_them_begin_with() {
    let strings = ["abcd".to_string(), "abce".to_string(), "abx".to_string()];
    assert_eq!(longest_common_prefix(&strings), "ab");
    let strings = ["abcd".to_string(), "x".to_string(), "abcd".to_string()];
    assert_eq!(longest_common_prefix(&strings), "");
}

#[test]
fn ascii_index_matches_byte_offset() {
    assert_eq!(char_byte_index("hello", 2), 2);
}

#[test]
fn index_at_or_past_end_returns_byte_len() {
    assert_eq!(char_byte_index("hi", 2), 2);
    assert_eq!(char_byte_index("hi", 100), 2);
}

#[test]
fn empty_string_returns_zero() {
    assert_eq!(char_byte_index("", 0), 0);
}

#[test]
fn multibyte_chars_use_char_count_not_byte_count() {
    // "héllo": 'é' is 2 bytes, so char index 2 ('l') is at byte 3.
    let s = "héllo";
    assert_eq!(char_byte_index(s, 2), 3);
    assert_eq!(char_byte_index(s, 0), 0);
}
