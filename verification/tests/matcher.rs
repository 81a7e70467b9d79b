use rgrep::matcher::file_matcher::{evaluate_line, gather, match_one, TextFileLineMatcher};
use rgrep::matcher::order::restore_order;
use rgrep::matcher::pattern::Pattern;
use rgrep::matcher::span::{char_offset, char_span};
use rgrep::matcher::{LineMatcher, MatchError, MatchedLine};

const TEXT_CONTENT: &str = r#"Hello World
Numbers: 1, 2, 3.456
File Line Matcher
多语言
Match Brackets: [in_the_bracket1233456]
Text End"#;

fn lines_of(text: &str) -> Vec<String> {
    text.lines().map(|l| l.to_string()).collect()
}

fn line(content: &str, line_no: usize, start: usize, end: usize) -> MatchedLine {
    MatchedLine {
        content: content.to_string(),
        line_no,
        first_word_start: start,
        first_word_end: end,
    }
}

fn numbers(found: &[MatchedLine]) -> Vec<usize> {
    found.iter().map(|m| m.line_no).collect()
}

#[test]
fn should_open_file() {
    let path = "should_open_file";

    let matcher = TextFileLineMatcher::new(path, lines_of(TEXT_CONTENT));

    assert_eq!(matcher.text_file_path(), path);
    assert_eq!(matcher.line_count(), 6);
}

#[test]
fn should_match_line_with_given_phrase() {
    let path = "should_match_line_with_given_phrase";

    let matcher = TextFileLineMatcher::new(path, lines_of(TEXT_CONTENT));
    let vec = matcher.match_line("Matcher".into()).unwrap();

    assert_eq!(vec.len(), 1);
    assert_eq!(vec[0].content, "File Line Matcher");
    assert_eq!(vec[0].line_no, 3);
    assert_eq!(vec[0].first_word_start, 10);
    assert_eq!(vec[0].first_word_end, 17);
}

#[test]
fn should_match_line_with_regex() {
    let path = "should_match_line_with_regex";

    let matcher = TextFileLineMatcher::new(path, lines_of(TEXT_CONTENT));
    let pattern = r"([\d]+)|([\[].+[\]])|([\u4e00-\u9fa5])";
    let vec = matcher.match_line(pattern.into()).unwrap();

    assert_eq!(vec.len(), 3);
    assert_eq!(vec[0].content, "Numbers: 1, 2, 3.456");
    assert_eq!(vec[0].line_no, 2);
    assert_eq!(vec[0].first_word_start, 9);
    assert_eq!(vec[0].first_word_end, 10);
    assert_eq!(vec[1].content, "多语言");
    assert_eq!(vec[1].line_no, 4);
    assert_eq!(vec[1].first_word_start, 0);
    // the class matches one character, which takes three bytes
    assert_eq!(vec[1].first_word_end, 1);
    let compiled = Pattern::compile(pattern).ok().unwrap();
    assert_eq!(compiled.find_first_bytes("多语言"), Some((0, 3)));
    assert_eq!(vec[2].content, "Match Brackets: [in_the_bracket1233456]");
    assert_eq!(vec[2].line_no, 5);
    assert_eq!(vec[2].first_word_start, 16);
    assert_eq!(vec[2].first_word_end, 39);
}

#[test]
fn lines_are_numbered_from_one() {
    let matcher = TextFileLineMatcher::new("n", lines_of("a\n\nc"));
    assert_eq!(
        matcher.numbered_lines(),
        vec![(1, "a".to_string()), (2, "".to_string()), (3, "c".to_string())]
    );
    assert!(TextFileLineMatcher::new("n", Vec::new()).numbered_lines().is_empty());
}

#[test]
fn outcomes_in_any_order_give_the_report_of_the_scan() {
    let lines = lines_of(TEXT_CONTENT);
    let matcher = TextFileLineMatcher::new("any", lines);
    let pattern = Pattern::compile("e").ok().unwrap();
    let mut tasks = matcher.numbered_lines();
    tasks.swap(0, 4);
    tasks.swap(1, 5);
    tasks.swap(2, 3);
    let outcomes = tasks
        .into_iter()
        .map(|(line_no, line)| Ok(match_one(&pattern, line, line_no)))
        .collect();
    let gathered = gather(outcomes).unwrap();
    let scanned = matcher.match_line("e".to_string()).unwrap();
    assert_eq!(numbers(&gathered), vec![1, 2, 3, 5, 6]);
    assert_eq!(numbers(&gathered), numbers(&scanned));
    for (a, b) in gathered.iter().zip(scanned.iter()) {
        assert_eq!(a.content, b.content);
        assert_eq!(a.first_word_start, b.first_word_start);
        assert_eq!(a.first_word_end, b.first_word_end);
    }
}

#[test]
fn span_counts_characters_after_wide_text() {
    let matcher = TextFileLineMatcher::new("wide", vec!["多语言 rust 语言".to_string()]);
    let found = matcher.match_line("rust".to_string()).unwrap();
    assert_eq!(found.len(), 1);
    assert_eq!(found[0].first_word_start, 4);
    assert_eq!(found[0].first_word_end, 8);
    let chars: Vec<char> = found[0].content.chars().collect();
    let cut: String = chars[found[0].first_word_start..found[0].first_word_end].iter().collect();
    assert_eq!(cut, "rust");
}

#[test]
fn whole_wide_line_matches() {
    let compiled = Pattern::compile(r"[\u4e00-\u9fa5]+").ok().unwrap();
    assert_eq!(compiled.find_first("多语言"), Some((0, 3)));
    assert_eq!(compiled.find_first_bytes("多语言"), Some((0, 9)));
    assert_eq!(compiled.as_str(), r"[\u4e00-\u9fa5]+");
}

#[test]
fn line_numbers_rise_and_name_positions() {
    let lines = lines_of("a1\nb\na2\n\na3\nc\na4");
    let matcher = TextFileLineMatcher::new("p", lines.clone());
    let found = matcher.match_line("a".to_string()).unwrap();
    assert_eq!(numbers(&found), vec![1, 3, 5, 7]);
    for m in &found {
        assert_eq!(m.content, lines[m.line_no - 1]);
        assert!(m.first_word_start <= m.first_word_end);
        assert!(m.first_word_end <= m.content.chars().count());
    }
}

#[test]
fn scanning_twice_gives_one_report() {
    let matcher = TextFileLineMatcher::new("twice", lines_of(TEXT_CONTENT));
    let first = matcher.match_line(r"\w+".to_string()).unwrap();
    let second = matcher.match_line(r"\w+".to_string()).unwrap();
    assert_eq!(first.len(), second.len());
    for (a, b) in first.iter().zip(second.iter()) {
        assert_eq!(a.content, b.content);
        assert_eq!(a.line_no, b.line_no);
        assert_eq!(a.first_word_start, b.first_word_start);
        assert_eq!(a.first_word_end, b.first_word_end);
    }
}

#[test]
fn no_matching_line_is_an_empty_report() {
    let matcher = TextFileLineMatcher::new("none", lines_of(TEXT_CONTENT));
    let found = matcher.match_line("absent".to_string());
    assert!(matches!(found, Ok(ref v) if v.is_empty()));
}

#[test]
fn no_line_is_an_empty_report() {
    let matcher = TextFileLineMatcher::new("empty", Vec::new());
    assert_eq!(matcher.line_count(), 0);
    let found = matcher.match_line("a".to_string());
    assert!(matches!(found, Ok(ref v) if v.is_empty()));
}

#[test]
fn bad_pattern_is_a_pattern_error() {
    let matcher = TextFileLineMatcher::new("bad", lines_of(TEXT_CONTENT));
    let found = matcher.match_line("foo(bar".to_string());
    assert!(matches!(found, Err(MatchError::Pattern(_))));
    if let Err(e) = found {
        assert!(!e.message().is_empty());
    }
}

#[test]
fn bad_pattern_fails_without_lines_too() {
    let matcher = TextFileLineMatcher::new("bad", Vec::new());
    let found = matcher.match_line("[".to_string());
    assert!(matches!(found, Err(MatchError::Pattern(_))));
}

#[test]
fn empty_match_has_an_empty_span() {
    let compiled = Pattern::compile("x*").ok().unwrap();
    assert_eq!(compiled.find_first("多abc"), Some((0, 0)));
    let found = match_one(&compiled, "".to_string(), 1).unwrap();
    assert_eq!(found.first_word_start, 0);
    assert_eq!(found.first_word_end, 0);
    assert_eq!(found.content, "");
}

#[test]
fn match_one_reports_the_given_number() {
    let compiled = Pattern::compile("b+").ok().unwrap();
    let found = match_one(&compiled, "aabbbcc".to_string(), 42).unwrap();
    assert_eq!(found.line_no, 42);
    assert_eq!(found.content, "aabbbcc");
    assert_eq!(found.first_word_start, 2);
    assert_eq!(found.first_word_end, 5);
    assert!(match_one(&compiled, "aacc".to_string(), 43).is_none());
}

#[test]
fn evaluate_line_compiles_and_matches() {
    let hit = evaluate_line("Text End".to_string(), "End", 6);
    assert!(matches!(hit, Ok(Some(ref m)) if m.line_no == 6 && m.first_word_start == 5 && m.first_word_end == 8));
    let miss = evaluate_line("Text End".to_string(), "Start", 6);
    assert!(matches!(miss, Ok(None)));
    let bad = evaluate_line("Text End".to_string(), "(", 6);
    assert!(matches!(bad, Err(MatchError::Pattern(_))));
}

#[test]
fn char_offset_counts_characters() {
    let text = "aé多😀z";
    assert_eq!(char_offset(text, 0), Some(0));
    assert_eq!(char_offset(text, 1), Some(1));
    assert_eq!(char_offset(text, 2), None);
    assert_eq!(char_offset(text, 3), Some(2));
    assert_eq!(char_offset(text, 4), None);
    assert_eq!(char_offset(text, 6), Some(3));
    assert_eq!(char_offset(text, 10), Some(4));
    assert_eq!(char_offset(text, 11), Some(5));
    assert_eq!(char_offset(text, 12), None);
    assert_eq!(char_offset("", 0), Some(0));
    assert_eq!(char_offset("", 1), None);
}

#[test]
fn char_span_wants_ordered_boundaries() {
    let text = "aé多😀z";
    assert_eq!(char_span(text, 1, 6), Some((1, 3)));
    assert_eq!(char_span(text, 6, 6), Some((3, 3)));
    assert_eq!(char_span(text, 6, 1), None);
    assert_eq!(char_span(text, 2, 6), None);
    assert_eq!(char_span(text, 1, 7), None);
    assert_eq!(char_span(text, 0, 11), Some((0, 5)));
    assert_eq!(char_span(text, 0, 12), None);
}

#[test]
fn restore_order_sorts_by_line_number() {
    let found = vec![
        line("e", 5, 0, 1),
        line("b", 2, 0, 1),
        line("g", 7, 0, 1),
        line("a", 1, 0, 1),
        line("d", 4, 0, 1),
    ];
    let sorted = restore_order(found);
    assert_eq!(numbers(&sorted), vec![1, 2, 4, 5, 7]);
    let contents: Vec<&str> = sorted.iter().map(|m| m.content.as_str()).collect();
    assert_eq!(contents, vec!["a", "b", "d", "e", "g"]);
}

#[test]
fn restore_order_keeps_what_it_was_given() {
    assert!(restore_order(Vec::new()).is_empty());
    let one = restore_order(vec![line("x", 9, 0, 1)]);
    assert_eq!(numbers(&one), vec![9]);
    let twice = restore_order(vec![line("x", 3, 0, 1), line("y", 1, 0, 1), line("z", 3, 0, 1)]);
    assert_eq!(numbers(&twice), vec![1, 3, 3]);
    let down: Vec<MatchedLine> = (1..=100).rev().map(|n| line("l", n, 0, 0)).collect();
    assert_eq!(numbers(&restore_order(down)), (1..=100).collect::<Vec<usize>>());
}

#[test]
fn gather_orders_outcomes_that_arrive_in_any_order() {
    let outcomes = vec![
        Ok(Some(line("c", 5, 0, 1))),
        Ok(None),
        Ok(Some(line("a", 2, 0, 1))),
        Ok(None),
        Ok(Some(line("b", 4, 0, 1))),
    ];
    let found = gather(outcomes).unwrap();
    assert_eq!(numbers(&found), vec![2, 4, 5]);
}

#[test]
fn gather_hands_on_the_first_failure() {
    let outcomes = vec![
        Ok(Some(line("c", 5, 0, 1))),
        Err(MatchError::TaskFailure("first".to_string())),
        Ok(None),
        Err(MatchError::Pattern("second".to_string())),
    ];
    let r = gather(outcomes);
    assert!(matches!(r, Err(MatchError::TaskFailure(ref m)) if m == "first"));
    assert!(matches!(gather(Vec::new()), Ok(ref v) if v.is_empty()));
}

#[test]
fn error_carries_its_message() {
    assert_eq!(MatchError::Io("gone".to_string()).message(), "gone");
    assert_eq!(MatchError::Pattern("bad".to_string()).message(), "bad");
    assert_eq!(MatchError::TaskFailure("lost".to_string()).message(), "lost");
}
