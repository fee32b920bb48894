use fastoj::strutil::{compare_lines_ignoring_line_endings, parse_u32, parse_u64, split_lines};
use fastoj::suite::{parse_easy_test_suite, update_by_advanced, TestCase, TestLimit, TestSuite};

fn case(input: &str) -> TestSuite {
    parse_easy_test_suite(input)
}

#[test]
fn test_parse_valid_config() {
    let input = r#"
limit 2
time 1000
memory 512
input 1
1 2 3
answer 1
6
"#;
    let config = case(input.trim());

    assert_eq!(config.limit.as_ref().unwrap().time, Some(1000));
    assert_eq!(config.limit.as_ref().unwrap().memory, Some(512));
    assert_eq!(config.cases.len(), 1);
    assert_eq!(config.cases[0].input, "1 2 3");
    assert_eq!(config.cases[0].answer, "6");
}

#[test]
fn test_parse_missing_lines() {
    let input = r#"
input 2
1 2
"#;
    let config = case(input.trim());
    assert!(config.cases.is_empty());
}

#[test]
fn test_parse_invalid_limit() {
    let input = r#"
limit 2
time abc
memory 256
input 1
1 2
answer 1
3
"#;
    let config = case(input.trim());
    assert_eq!(config.limit.as_ref().unwrap().memory, Some(256));
    assert_eq!(config.limit.as_ref().unwrap().time, None);
}

#[test]
fn test_parse_invalid_limit_odd_tokens() {
    let input = r#"
    limit 2
    time 6
    memory
    "#;
    let config = case(input.trim());

    assert!(config.limit.is_none());
}

#[test]
fn test_parse_extra_header_parts() {
    let input = r#"
input 1 extra
1 2
answer 1
3
"#;
    let config = case(input.trim());
    assert!(config.cases.is_empty());
}

#[test]
fn test_parse_unknown_key() {
    let input = r#"
banana 1
oops
input 1
hi
answer 1
yo
"#;
    let config = case(input.trim());
    assert_eq!(config.cases.len(), 1);
}

#[test]
fn test_limit_collapses_when_empty() {
    let limit = TestLimit::new();
    assert!(limit.into_option().is_none());
    let set = TestLimit {
        memory: Some(64),
        time: None,
    };
    assert_eq!(set.into_option().unwrap().memory, Some(64));
}

#[test]
fn test_update_by_advanced_folds_in() {
    let mut cases = vec![TestCase {
        input: "1".into(),
        answer: "2".into(),
        id: 1,
    }];
    let mut limit = TestLimit {
        memory: Some(128),
        time: Some(100),
    };
    let suite = TestSuite {
        limit: Some(TestLimit {
            memory: None,
            time: Some(900),
        }),
        cases: vec![TestCase {
            input: "3".into(),
            answer: "4".into(),
            id: 0,
        }],
    };
    update_by_advanced(Some(suite), &mut cases, &mut limit);
    assert_eq!(cases.len(), 2);
    assert_eq!(cases[1].input, "3");
    assert_eq!(limit.time, Some(900));
    assert_eq!(limit.memory, Some(128));
    update_by_advanced(None, &mut cases, &mut limit);
    assert_eq!(cases.len(), 2);
}

#[test]
fn test_compare_lines_ignores_trailing_space() {
    assert!(compare_lines_ignoring_line_endings("a b \nc\n", "a b\nc"));
    assert!(compare_lines_ignoring_line_endings("a\r\nb", "a\nb"));
    assert!(!compare_lines_ignoring_line_endings("a b\nc", "a b\nd"));
    assert!(!compare_lines_ignoring_line_endings("a\nb", "a"));
    // a trailing empty line is a real difference, unlike the final break
    assert!(!compare_lines_ignoring_line_endings("a\n\n", "a"));
    assert!(compare_lines_ignoring_line_endings("a\n", "a"));
}

#[test]
fn test_number_parsing() {
    assert_eq!(parse_u64("1000"), Some(1000));
    assert_eq!(parse_u64("+7"), Some(7));
    assert_eq!(parse_u64("abc"), None);
    assert_eq!(parse_u64(""), None);
    assert_eq!(parse_u64("18446744073709551615"), Some(u64::MAX));
    assert_eq!(parse_u64("18446744073709551616"), None);
    assert_eq!(parse_u32("4294967296"), None);
    assert_eq!(parse_u32("512"), Some(512));
}

#[test]
fn test_line_splitting() {
    assert_eq!(split_lines("a\r\nb\nc"), vec!["a", "b", "c"]);
    assert_eq!(split_lines("a\n"), vec!["a"]);
    assert_eq!(split_lines(""), Vec::<String>::new());
}
