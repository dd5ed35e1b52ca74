use ctxgrep::pattern::{Matcher, SearchSpec};
use ctxgrep::scan::{match_in_file, MatchResult};

fn spec(pattern: &str, before: u32, after: u32, case_insensitive: bool) -> SearchSpec {
    SearchSpec {
        pattern: pattern.to_string(),
        context_before: before,
        context_after: after,
        case_insensitive,
    }
}

fn matcher(pattern: &str, before: u32, after: u32, case_insensitive: bool) -> Matcher {
    match spec(pattern, before, after, case_insensitive).compile() {
        Ok(m) => m,
        Err(e) => panic!("expression {} refused: {}", e.expression, e.message),
    }
}

fn rendered(results: &[MatchResult]) -> Vec<String> {
    results.iter().map(|r| r.render()).collect()
}

#[test]
fn expression_without_context() {
    assert_eq!(spec("beta", 0, 0, false).expression(), "(?:.*\\n){0,0}.*beta.*(?:\\n.*){0,0}");
}

#[test]
fn expression_with_context_and_case_flag() {
    assert_eq!(spec("Foo", 12, 3, true).expression(), "(?i)(?:.*\\n){0,12}.*Foo.*(?:\\n.*){0,3}");
}

#[test]
fn expression_kept_by_matcher() {
    let m = matcher("x+", 1, 2, false);
    assert_eq!(m.as_str(), "(?:.*\\n){0,1}.*x+.*(?:\\n.*){0,2}");
}

#[test]
fn unbalanced_pattern_is_refused() {
    let r = spec("a(b", 1, 1, false).compile();
    match r {
        Ok(_) => panic!("an unbalanced group must be refused"),
        Err(e) => {
            assert_eq!(e.expression, "(?:.*\\n){0,1}.*a(b.*(?:\\n.*){0,1}");
            assert!(!e.message.is_empty());
        }
    }
}

#[test]
fn zero_context_single_line_is_a_line_test() {
    let m = matcher("beta", 0, 0, false);
    let hit = match_in_file("/t/one.txt", "xx beta yy", &m, true);
    assert_eq!(rendered(&hit), vec!["/t/one.txt:1 - xx beta yy".to_string()]);
    let miss = match_in_file("/t/one.txt", "alpha", &m, true);
    assert!(miss.is_empty());
}

#[test]
fn pattern_is_read_as_a_regex() {
    let m = matcher("b.t", 0, 0, false);
    let r = match_in_file("/t/r.txt", "bat\nbit\nbt\n", &m, true);
    assert_eq!(rendered(&r), vec!["/t/r.txt:1 - bat".to_string(), "/t/r.txt:2 - bit".to_string()]);
}

#[test]
fn case_insensitive_matches_every_casing() {
    let m = matcher("Foo", 0, 0, true);
    let r = match_in_file("/t/c.txt", "foo\nFOO\nFoO\nbar\n", &m, true);
    let lines: Vec<Option<usize>> = r.iter().map(|x| x.line_number).collect();
    assert_eq!(lines, vec![Some(1), Some(2), Some(3)]);
    let texts: Vec<String> = r.iter().map(|x| x.matched_text.clone()).collect();
    assert_eq!(texts, vec!["foo".to_string(), "FOO".to_string(), "FoO".to_string()]);
}

#[test]
fn case_sensitive_by_default() {
    let m = matcher("Foo", 0, 0, false);
    let r = match_in_file("/t/c.txt", "foo\nFOO\nFoO\nFoo\n", &m, false);
    assert_eq!(rendered(&r), vec!["/t/c.txt - Foo".to_string()]);
}

#[test]
fn context_window_is_exact() {
    let m = matcher("L5", 2, 1, false);
    let text = "L1\nL2\nL3\nL4\nL5\nL6\nL7\nL8\nL9\nL10";
    assert_eq!(m.find(text), Some("L3\nL4\nL5\nL6".to_string()));
}

#[test]
fn context_window_shrinks_at_text_start() {
    let m = matcher("L2", 3, 0, false);
    assert_eq!(m.find("L1\nL2\nL3"), Some("L1\nL2".to_string()));
}

#[test]
fn notes_scenario_with_line_numbers() {
    let m = matcher("beta", 1, 1, false);
    let r = match_in_file("/root/notes.txt", "alpha\nbeta\ngamma\n", &m, true);
    assert_eq!(rendered(&r), vec!["/root/notes.txt:2 - beta".to_string()]);
}

#[test]
fn searching_twice_gives_the_same_reports() {
    let m = matcher("a", 0, 0, false);
    let text = "abc\nxyz\ncab\n";
    let first = rendered(&match_in_file("/t/i.txt", text, &m, true));
    let second = rendered(&match_in_file("/t/i.txt", text, &m, true));
    assert_eq!(first, second);
    assert_eq!(first, vec!["/t/i.txt:1 - abc".to_string(), "/t/i.txt:3 - cab".to_string()]);
}

#[test]
fn empty_text_has_no_reports() {
    let m = matcher("", 0, 0, false);
    assert!(match_in_file("/t/e.txt", "", &m, true).is_empty());
}

#[test]
fn empty_lines_are_numbered() {
    let m = matcher("", 0, 0, false);
    let r = match_in_file("/t/e.txt", "\n\nx", &m, true);
    let lines: Vec<Option<usize>> = r.iter().map(|x| x.line_number).collect();
    assert_eq!(lines, vec![Some(1), Some(2), Some(3)]);
}

#[test]
fn carriage_returns_end_lines() {
    let m = matcher("two", 0, 0, false);
    let r = match_in_file("/t/w.txt", "one\r\ntwo\r\nthree\r\n", &m, true);
    assert_eq!(rendered(&r), vec!["/t/w.txt:2 - two".to_string()]);
}

#[test]
fn last_line_without_break_is_scanned() {
    let m = matcher("end", 0, 0, false);
    let r = match_in_file("/t/l.txt", "start\nthe end", &m, true);
    assert_eq!(rendered(&r), vec!["/t/l.txt:2 - the end".to_string()]);
}

#[test]
fn line_numbers_with_several_digits() {
    let m = matcher("hit", 0, 0, false);
    let mut text = String::new();
    for _ in 0..11 {
        text.push_str("miss\n");
    }
    text.push_str("hit\n");
    let r = match_in_file("/t/n.txt", &text, &m, true);
    assert_eq!(rendered(&r), vec!["/t/n.txt:12 - hit".to_string()]);
}

#[test]
fn render_without_line_number() {
    let r = MatchResult {
        file: "/a/b.txt".to_string(),
        line_number: None,
        matched_text: "text".to_string(),
    };
    assert_eq!(r.render(), "/a/b.txt - text");
}

#[test]
fn render_with_line_number() {
    let r = MatchResult {
        file: "/a/b.txt".to_string(),
        line_number: Some(305),
        matched_text: "t".to_string(),
    };
    assert_eq!(r.render(), "/a/b.txt:305 - t");
}
