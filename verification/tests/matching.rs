use miniregex::compile;
use miniregex::evaluate;

fn match_str(pattern: &str, input: &str) -> Option<String> {
    let expression = compile(pattern).expect("pattern should compile");
    evaluate(&expression, input)
}

#[test]
fn plain_pattern_matches_substring() {
    assert_eq!(match_str("cat", "a concatenation"), Some(String::from("cat")));
}

#[test]
fn plain_pattern_absent() {
    assert_eq!(match_str("dog", "a concatenation"), None);
}

#[test]
fn empty_pattern_on_empty_input() {
    assert_eq!(match_str("", ""), None);
}

#[test]
fn empty_pattern_on_nonempty_input() {
    assert_eq!(match_str("", "x"), Some(String::new()));
}

#[test]
fn repeat_is_greedy() {
    assert_eq!(match_str("a*", "aaab"), Some(String::from("aaa")));
}

#[test]
fn repeat_backtracks_to_match_remainder() {
    assert_eq!(match_str("a*b", "aaab"), Some(String::from("aaab")));
}

#[test]
fn repeat_matches_zero_occurrences() {
    assert_eq!(match_str("a*b", "b"), Some(String::from("b")));
}

#[test]
fn repeat_fails_without_remainder() {
    assert_eq!(match_str("a*b", "aaa"), None);
}

#[test]
fn negative_group_rejects_member() {
    assert_eq!(match_str("[^abc]", "b"), None);
}

#[test]
fn negative_group_accepts_other() {
    assert_eq!(match_str("[^abc]", "x"), Some(String::from("x")));
}

#[test]
fn positive_group_accepts_member() {
    assert_eq!(match_str("[abc]", "b"), Some(String::from("b")));
}

#[test]
fn positive_group_rejects_other() {
    assert_eq!(match_str("[abc]", "x"), None);
}

#[test]
fn backreference_replays_capture() {
    assert_eq!(match_str("(cat) and \\1", "cat and cat"), Some(String::from("cat and cat")));
}

#[test]
fn backreference_mismatch_fails() {
    assert_eq!(match_str("(cat) and \\1", "cat and dog"), None);
}

#[test]
fn backreference_without_capture_fails() {
    assert_eq!(match_str("\\1", "xx"), None);
}

#[test]
fn nested_captures_number_by_order_of_success() {
    assert_eq!(match_str("((a)b)\\1\\2", "abaab"), Some(String::from("abaab")));
}

#[test]
fn alternation_second_branch_after_first_fails() {
    assert_eq!(match_str("(cat|car)s", "cars"), Some(String::from("cars")));
}

#[test]
fn alternation_first_matching_branch_wins() {
    assert_eq!(match_str("(a|ab)", "ab"), Some(String::from("a")));
}

#[test]
fn anchors_accept_exact_line() {
    assert_eq!(match_str("^abc$", "\nabc\n"), Some(String::from("abc")));
}

#[test]
fn anchors_reject_longer_line() {
    assert_eq!(match_str("^abc$", "\nabcd\n"), None);
}

#[test]
fn anchors_reject_prefixed_line() {
    assert_eq!(match_str("^abc$", "\nzabc\n"), None);
}

#[test]
fn anchors_accept_empty_line() {
    assert_eq!(match_str("^$", "\n\n"), Some(String::new()));
}

#[test]
fn end_anchor_alone_slides_to_line_end() {
    assert_eq!(match_str("abc$", "\nzabc\n"), Some(String::from("abc")));
}

#[test]
fn wildcard_matches_pattern_alphabet() {
    assert_eq!(match_str("a.c", "abc"), Some(String::from("abc")));
}

#[test]
fn wildcard_rejects_newline() {
    assert_eq!(match_str(".", "\n"), None);
}

#[test]
fn wildcard_rejects_character_outside_alphabet() {
    assert_eq!(match_str(".", "?"), None);
}

#[test]
fn digit_class_matches_digit() {
    assert_eq!(match_str("\\d", "a1"), Some(String::from("1")));
}

#[test]
fn word_class_matches_underscore() {
    assert_eq!(match_str("\\w", " _"), Some(String::from("_")));
}

#[test]
fn escaped_backslash_matches_backslash() {
    assert_eq!(match_str("\\\\", "a\\b"), Some(String::from("\\")));
}

#[test]
fn optional_absent() {
    assert_eq!(match_str("colou?r", "color"), Some(String::from("color")));
}

#[test]
fn optional_present() {
    assert_eq!(match_str("colou?r", "colour"), Some(String::from("colour")));
}

#[test]
fn optional_commits_to_inner_match() {
    assert_eq!(match_str("ab?c", "abbc"), None);
}

#[test]
fn plus_requires_one_occurrence() {
    assert_eq!(match_str("ab+c", "ac"), None);
}

#[test]
fn plus_matches_many_occurrences() {
    assert_eq!(match_str("ab+c", "abbbc"), Some(String::from("abbbc")));
}

#[test]
fn space_and_hyphen_are_literals() {
    assert_eq!(match_str("a -b", "xa -by"), Some(String::from("a -b")));
}

#[test]
fn repeat_of_group_matches_whole_run() {
    assert_eq!(match_str("(ab)*c", "ababc"), Some(String::from("ababc")));
}

#[test]
fn repeat_can_match_nothing() {
    assert_eq!(match_str("a*", "bbb"), Some(String::new()));
}

#[test]
fn repeat_of_zero_width_body_does_not_extend() {
    assert_eq!(match_str("(a?)*b", "b"), Some(String::from("b")));
}

#[test]
fn backreference_to_capture_of_one_word_character() {
    assert_eq!(match_str("(\\w)\\1", "xaab"), Some(String::from("aa")));
}
