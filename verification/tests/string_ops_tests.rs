use pip::utils::string_ops;

fn test_horizontal(s: &str, app: &str, expected: &str) {
    let result = string_ops::append_horizontal(&s, app);
    assert_eq!(expected, result);
}

fn test_vertical(s: &str, app: &str, expected: &str) {
    let result = string_ops::append_vertical(&s, app);
    assert_eq!(expected, result);
}

#[test]
fn add_nothing_horizontal() {
    test_horizontal("", "", "");
}

#[test]
fn add_one_char_horizontal() {
    test_horizontal("", "a", "a")
}

#[test]
fn add_nothing_to_one_char_horizontal() {
    test_horizontal("a", "", "a")
}

#[test]
fn add_one_line_to_one_horizontal() {
    test_horizontal("abc", "pqr", "abcpqr")
}

#[test]
fn add_two_lines_to_one_horizontal() {
    test_horizontal("abc", "pqr\nstu", "abcpqr\n   stu")
}

#[test]
fn add_one_line_to_two_horizontal() {
    test_horizontal("abc\ndef", "pqr", "abcpqr\ndef   ")
}

#[test]
fn add_two_lines_to_two_horizontal() {
    test_horizontal("abc\ndef", "pqr\nstu", "abcpqr\ndefstu")
}

#[test]
fn add_lines_of_different_lengths_horizontal() {
    test_horizontal("a\ndef", "pqr\nst", "a  pqr\ndefst ")
}

#[test]
fn add_nothing_vertical() {
    test_vertical("", "", "");
}

#[test]
fn add_one_char_vertical() {
    test_vertical("", "a", "a")
}

#[test]
fn add_nothing_to_one_char_vertical() {
    test_vertical("a", "", "a")
}

#[test]
fn add_one_line_to_one_vertical() {
    test_vertical("abc", "pqr", "abc\npqr")
}

#[test]
fn add_two_lines_to_one_vertical() {
    test_vertical("abc", "pqr\nstu", "abc\npqr\nstu")
}

#[test]
fn add_one_line_to_two_vertical() {
    test_vertical("abc\ndef", "pqr", "abc\ndef\npqr")
}

#[test]
fn top_line_longer_vertical() {
    test_vertical("a", "pqr", "a  \npqr")
}

#[test]
fn bottom_line_longer_vertical() {
    test_vertical("abc", " r", "abc\n r ")
}

#[test]
fn trailing_newline_adds_an_empty_line_horizontal() {
    test_horizontal("ab\n", "x", "abx\n   ");
    test_horizontal("x", "ab\n", "xab\n   ");
}

#[test]
fn carriage_return_before_newline_is_dropped_horizontal() {
    test_horizontal("ab\r\ncd", "x", "abx\ncd ");
    test_horizontal("ab\r", "x", "abx");
}

#[test]
fn lone_carriage_return_is_kept_vertical() {
    test_vertical("ab\r", "xyz", "ab\r\nxyz");
    test_vertical("ab\r\ncd", "x", "ab\ncd\nx ");
}

#[test]
fn width_is_counted_in_bytes() {
    // 'é' takes two bytes, so the line "é" is as wide as "ab".
    test_vertical("é", "ab", "é\nab");
    test_vertical("é", "abc", "é \nabc");
    test_horizontal("é\nabc", "x", "é x\nabc ");
}

#[test]
fn blank_lines_are_filled_vertical() {
    test_vertical("abc\n\nd", "x", "abc\n   \nd  \nx  ");
}

#[test]
fn only_newlines() {
    test_horizontal("\n", "\n", "\n");
    test_vertical("\n", "\n", "\n");
    test_vertical("\n", "a", " \na");
}
