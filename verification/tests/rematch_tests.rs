use diff2html::rematch::{levenshtein, match_lines, match_lines_with_config, string_distance,
    MatchConfig};

#[test]
fn test_levenshtein_empty_strings() {
    assert_eq!(levenshtein("", ""), 0);
    assert_eq!(levenshtein("", "abc"), 3);
    assert_eq!(levenshtein("abc", ""), 3);
}

#[test]
fn test_levenshtein_identical() {
    assert_eq!(levenshtein("abc", "abc"), 0);
    assert_eq!(levenshtein("hello world", "hello world"), 0);
}

#[test]
fn test_levenshtein_single_edit() {
    assert_eq!(levenshtein("cat", "hat"), 1);
    assert_eq!(levenshtein("cat", "cats"), 1);
    assert_eq!(levenshtein("cats", "cat"), 1);
}

#[test]
fn test_levenshtein_multiple_edits() {
    assert_eq!(levenshtein("kitten", "sitting"), 3);
    assert_eq!(levenshtein("saturday", "sunday"), 3);
}

#[test]
fn test_levenshtein_unicode() {
    assert_eq!(levenshtein("日本", "日本語"), 1);
    assert_eq!(levenshtein("hello", "héllo"), 1);
}

#[test]
fn test_match_config_default() {
    let config = MatchConfig::default();
    assert_eq!(config.max_comparisons, 2500);
    assert_eq!(config.max_line_size, 200);
}

#[test]
fn test_string_distance_identical() {
    let (num, _den) = string_distance("hello", "hello");
    assert_eq!(num, 0);
}

#[test]
fn test_string_distance_completely_different() {
    let (num, den) = string_distance("abc", "xyz");
    assert_eq!(num as f64 / den as f64, 0.5);
}

#[test]
fn test_string_distance_partial_match() {
    let (num, den) = string_distance("hello", "hallo");
    assert_eq!(num as f64 / den as f64, 0.1);
}

#[test]
fn test_string_distance_with_whitespace() {
    let (num, _den) = string_distance("  hello  ", "hello");
    assert_eq!(num, 0);
}

#[test]
fn test_match_lines_empty() {
    let a: Vec<String> = vec![];
    let b: Vec<String> = vec![];
    let groups = match_lines(&a, &b);
    assert_eq!(groups.len(), 1);
    assert!(groups[0].0.is_empty());
    assert!(groups[0].1.is_empty());
}

#[test]
fn test_match_lines_single_pair() {
    let a = vec!["hello world".to_string()];
    let b = vec!["hello universe".to_string()];
    let groups = match_lines(&a, &b);
    assert_eq!(groups.len(), 1);
    assert_eq!(groups[0].0, vec!["hello world".to_string()]);
    assert_eq!(groups[0].1, vec!["hello universe".to_string()]);
}

#[test]
fn test_match_lines_unequal_lengths() {
    let a = vec!["line1".to_string(), "line2".to_string(), "line3".to_string()];
    let b = vec!["line1 modified".to_string()];
    let groups = match_lines(&a, &b);
    let total_a: usize = groups.iter().map(|(ga, _)| ga.len()).sum();
    let total_b: usize = groups.iter().map(|(_, gb)| gb.len()).sum();
    assert_eq!(total_a, 3);
    assert_eq!(total_b, 1);
}

#[test]
fn test_match_lines_preserves_order() {
    let a = vec!["first".to_string(), "second".to_string(), "third".to_string()];
    let b = vec!["1st".to_string(), "2nd".to_string(), "3rd".to_string()];
    let groups = match_lines(&a, &b);
    let flat_a: Vec<String> = groups.iter().flat_map(|(ga, _)| ga.clone()).collect();
    let flat_b: Vec<String> = groups.iter().flat_map(|(_, gb)| gb.clone()).collect();
    assert_eq!(flat_a, a);
    assert_eq!(flat_b, b);
}

#[test]
fn test_match_lines_with_config_exceeds_comparisons() {
    let config = MatchConfig { max_comparisons: 1, max_line_size: 200 };
    let a = vec!["line1".to_string(), "line2".to_string()];
    let b = vec!["line3".to_string(), "line4".to_string()];
    let groups = match_lines_with_config(&a, &b, &config);
    assert_eq!(groups.len(), 1);
    assert_eq!(groups[0].0.len(), 2);
    assert_eq!(groups[0].1.len(), 2);
}

#[test]
fn test_match_lines_with_config_line_too_long() {
    let config = MatchConfig { max_comparisons: 2500, max_line_size: 5 };
    let a = vec!["short".to_string(), "this is a longer line".to_string()];
    let b = vec!["short".to_string(), "another long line here".to_string()];
    let groups = match_lines_with_config(&a, &b, &config);
    assert_eq!(groups.len(), 1);
}
