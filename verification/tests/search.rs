use swanling::find_matches;

fn search(content: &str, pattern: &str) -> Vec<u8> {
    let mut output = Vec::new();
    find_matches(content, pattern, &mut output);
    output
}

#[test]
fn lib_t_find_matches() {
    let mut output = Vec::new();
    let _result = find_matches("lorem ipsum\ndolor sit amet", "lorem", &mut output);
    assert_eq!(output, b"lorem ipsum\n");
}

#[test]
fn matches_keep_their_order() {
    let out = search("one apple\ntwo pears\nthree apples\nfour", "apple");
    assert_eq!(out, b"one apple\nthree apples\n");
}

#[test]
fn no_match_writes_nothing() {
    assert_eq!(search("alpha\nbeta\n", "gamma"), b"");
}

#[test]
fn empty_content_writes_nothing() {
    assert_eq!(search("", "x"), b"");
}

#[test]
fn crlf_line_endings_are_dropped() {
    assert_eq!(search("a match\r\nno\r\nmatch again\r\n", "match"), b"a match\nmatch again\n");
}

#[test]
fn lone_carriage_return_stays_in_last_line() {
    assert_eq!(search("tail\r", "tail"), b"tail\r\n");
}

#[test]
fn only_one_carriage_return_is_dropped() {
    assert_eq!(search("x\r\r\n", "x"), b"x\r\n");
}

#[test]
fn final_newline_is_optional() {
    assert_eq!(search("last line", "line"), search("last line\n", "line"));
    assert_eq!(search("last line", "line"), b"last line\n");
}

#[test]
fn empty_lines_count_as_lines() {
    assert_eq!(search("\n\nabc\n", ""), b"\n\nabc\n");
}

#[test]
fn empty_pattern_writes_every_line() {
    assert_eq!(search("a\r\nb\nc", ""), b"a\nb\nc\n");
}

#[test]
fn pattern_longer_than_line_does_not_match() {
    assert_eq!(search("ab\nabc", "abc"), b"abc\n");
}

#[test]
fn pattern_does_not_span_lines() {
    assert_eq!(search("ab\ncd", "b\nc"), b"");
}

#[test]
fn multibyte_text_is_searched_by_bytes() {
    assert_eq!(search("größe\nstraße\nweg", "ße"), "größe\nstraße\n".as_bytes());
}

#[test]
fn output_is_appended_to_writer() {
    let mut output = b"before\n".to_vec();
    find_matches("x1\ny\nx2", "x", &mut output);
    assert_eq!(output, b"before\nx1\nx2\n");
}

#[test]
fn searching_output_again_changes_nothing() {
    let first = search("red fox\nblue bird\nred car\n", "red");
    let again = search(std::str::from_utf8(&first).unwrap(), "red");
    assert_eq!(first, again);
}

#[test]
fn joined_texts_search_line_by_line() {
    let a = "fox one\ncat\n";
    let b = "dog\nfox two";
    let mut joined = search(a, "fox");
    joined.extend(search(b, "fox"));
    assert_eq!(search(&format!("{}{}", a, b), "fox"), joined);
}

#[test]
fn main_t_find_matches() {
    let mut output = Vec::new();
    let _result = find_matches("lorem ipsum\ndolor sit amet", "lorem", &mut output);
    assert_eq!(output, b"lorem ipsum\n");
}

#[test]
fn longer_pattern_never_adds_a_line() {
    let content = "red fox\nred car\nblue fox\nredder fox\n";
    assert_eq!(search(content, "red"), b"red fox\nred car\nredder fox\n");
    assert_eq!(search(content, "red fox"), b"red fox\n");
    assert_eq!(search(content, "der fox"), b"redder fox\n");
}
