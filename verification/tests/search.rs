use kashan786_cli_app::{match_pattern, view_file, ErrorClass, Failure, FailureKind};

fn read_failure(path: &str) -> Failure {
    Failure { kind: FailureKind::Read, class: ErrorClass::Io, path: path.to_string() }
}

#[test]
fn matching_lines_come_in_file_order() {
    let contents = b"alpha\nbeta\ngamma alpha\ndelta\nalphabet\n";
    let outcome = match_pattern("alpha", "words.txt", contents);
    assert_eq!(outcome.matches, vec!["alpha", "gamma alpha", "alphabet"]);
    assert_eq!(outcome.failure, None);
}

#[test]
fn nothing_is_found_where_no_line_matches() {
    let outcome = match_pattern("omega", "words.txt", b"alpha\nbeta\n");
    assert_eq!(outcome.matches, Vec::<String>::new());
    assert_eq!(outcome.failure, None);
}

#[test]
fn the_search_is_case_sensitive_and_literal() {
    let outcome = match_pattern("a.c", "f", b"abc\na.c\nA.C\nxa.cx\n");
    assert_eq!(outcome.matches, vec!["a.c", "xa.cx"]);
}

#[test]
fn the_last_line_needs_no_line_feed() {
    let outcome = match_pattern("end", "f", b"start\nthe end");
    assert_eq!(outcome.matches, vec!["the end"]);
}

#[test]
fn a_carriage_return_before_the_line_feed_is_dropped() {
    let outcome = match_pattern("o", "f", b"one\r\ntwo\r\nthree\r");
    assert_eq!(outcome.matches, vec!["one", "two"]);
    let kept = match_pattern("three", "f", b"one\r\nthree\r");
    assert_eq!(kept.matches, vec!["three\r"]);
    let inner = match_pattern("a", "f", b"a\rb\n");
    assert_eq!(inner.matches, vec!["a\rb"]);
}

#[test]
fn the_line_end_is_not_searched() {
    assert_eq!(match_pattern("\n", "f", b"one\ntwo\n").matches, Vec::<String>::new());
    assert_eq!(match_pattern("e\r", "f", b"one\r\n").matches, Vec::<String>::new());
}

#[test]
fn the_empty_pattern_occurs_in_every_line() {
    let outcome = match_pattern("", "f", b"one\n\ntwo\n");
    assert_eq!(outcome.matches, vec!["one", "", "two"]);
}

#[test]
fn an_empty_file_has_no_lines() {
    let outcome = match_pattern("", "f", b"");
    assert_eq!(outcome.matches, Vec::<String>::new());
    assert_eq!(outcome.failure, None);
}

#[test]
fn a_pattern_longer_than_the_line_does_not_occur() {
    assert_eq!(match_pattern("abcd", "f", b"abc\nbcd\n").matches, Vec::<String>::new());
    assert_eq!(match_pattern("abc", "f", b"abc").matches, vec!["abc"]);
}

#[test]
fn a_pattern_may_occur_at_either_end() {
    assert_eq!(match_pattern("ab", "f", b"abxx\nxxab\nxabx\naxb\n").matches, vec![
        "abxx", "xxab", "xabx"
    ]);
}

#[test]
fn wide_characters_are_matched_as_characters() {
    let contents = "schnee \u{2603} mann\n\u{fc}ber\nuber\n".as_bytes();
    assert_eq!(match_pattern("\u{2603}", "f", contents).matches, vec!["schnee \u{2603} mann"]);
    assert_eq!(match_pattern("\u{fc}b", "f", contents).matches, vec!["\u{fc}ber"]);
}

#[test]
fn a_line_that_is_not_text_ends_the_search() {
    let contents = b"first match\nsecond\n\xff\xfe match\nthird match\n";
    let outcome = match_pattern("match", "data.bin", contents);
    assert_eq!(outcome.matches, vec!["first match"]);
    assert_eq!(outcome.failure, Some(read_failure("data.bin")));
}

#[test]
fn a_bad_first_line_finds_nothing() {
    let outcome = match_pattern("a", "f", b"\xc3\n" as &[u8]);
    assert_eq!(outcome.matches, Vec::<String>::new());
    assert_eq!(outcome.failure, Some(read_failure("f")));
}

#[test]
fn a_character_cut_by_the_end_of_the_file_is_not_text() {
    let outcome = match_pattern("a", "f", b"a\nb\xe2\x98");
    assert_eq!(outcome.matches, vec!["a"]);
    assert_eq!(outcome.failure, Some(read_failure("f")));
}

#[test]
fn view_file_gives_the_text() {
    assert_eq!(view_file("notes.txt", b"one\ntwo\n"), Ok("one\ntwo\n"));
    assert_eq!(view_file("empty", b""), Ok(""));
    assert_eq!(view_file("snow", "\u{2603}".as_bytes()), Ok("\u{2603}"));
}

#[test]
fn view_file_refuses_what_is_not_text() {
    assert_eq!(view_file("blob", b"ok\n\xff"), Err(read_failure("blob")));
    assert_eq!(view_file("blob", b"\xed\xa0\x80"), Err(read_failure("blob")));
}
