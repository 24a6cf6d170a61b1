use git_open::extract::{find_second_field, urls_from_output, UrlSet};
use std::collections::HashSet;

fn as_hash_set(urls: &UrlSet) -> HashSet<String> {
    let mut out = HashSet::new();
    for i in 0..urls.len() {
        assert!(out.insert(urls.get(i).unwrap().to_string()));
    }
    out
}

fn as_list(urls: &UrlSet) -> Vec<String> {
    (0..urls.len()).map(|i| urls.get(i).unwrap().to_string()).collect()
}

#[test]
fn test_urls_from_output() {
    let input = "n8henrie        git@gitlab.com:n8henrie/git-repo.git (fetch)
n8henrie        git@gitlab.com:n8henrie/git-repo.git (push)
origin  git@github.com:n8henrie/git-repo.git (fetch)
origin  git@github.com:n8henrie/git-repo.git (push)";
    let output: HashSet<String> = [
        "git@gitlab.com:n8henrie/git-repo.git",
        "git@github.com:n8henrie/git-repo.git",
    ]
    .iter()
    .cloned()
    .map(String::from)
    .collect();
    assert_eq!(as_hash_set(&urls_from_output(input)), output)
}

#[test]
fn urls_come_once_each_in_order_of_first_occurrence() {
    let input = "a git@one:x/y (fetch)\na git@one:x/y (push)\nb git@two:x/y (fetch)\nb git@two:x/y (push)\n";
    let urls = urls_from_output(input);
    assert_eq!(urls.len(), 2);
    assert_eq!(as_list(&urls), vec!["git@one:x/y", "git@two:x/y"]);
}

#[test]
fn lines_with_fewer_than_two_fields_are_skipped() {
    let input = "\nlonely\n   \n\tname\turl-one\t(fetch)\n  spaced   url-two  \nlast";
    assert_eq!(as_list(&urls_from_output(input)), vec!["url-one", "url-two"]);
}

#[test]
fn empty_output_names_no_url() {
    assert_eq!(urls_from_output("").len(), 0);
    assert_eq!(urls_from_output("\n\n").len(), 0);
}

#[test]
fn carriage_returns_and_wide_spaces_separate_fields() {
    let input = "origin url-a\r\norigin\u{3000}url-b\u{a0}(push)\r\nx\u{2003}url-a";
    assert_eq!(as_list(&urls_from_output(input)), vec!["url-a", "url-b"]);
}

#[test]
fn extraction_agrees_with_splitting_by_the_standard_library() {
    let inputs = [
        "a b c\nd e\nf\n\n g  h\n",
        "one\ttwo\nthree four five\rsix\n",
        "é ü ö\nü é\n\u{85}x\u{85}y",
        "x y",
    ];
    for input in inputs {
        let mut expected: Vec<String> = Vec::new();
        for line in input.lines() {
            if let Some(field) = line.split_whitespace().nth(1) {
                if !expected.iter().any(|e| e == field) {
                    expected.push(field.to_string());
                }
            }
        }
        assert_eq!(as_list(&urls_from_output(input)), expected);
    }
}

#[test]
fn find_second_field_gives_its_bounds() {
    let line: Vec<char> = "  ab  cde f".chars().collect();
    assert_eq!(find_second_field(&line), Some((6, 9)));
    let short: Vec<char> = "  ab  ".chars().collect();
    assert_eq!(find_second_field(&short), None);
    assert_eq!(find_second_field(&[]), None);
}

#[test]
fn url_set_keeps_each_url_once() {
    let mut set = UrlSet::new();
    assert_eq!(set.len(), 0);
    assert!(!set.contains("a"));
    assert!(set.insert("a".to_string()));
    assert!(set.insert("b".to_string()));
    assert!(!set.insert("a".to_string()));
    assert_eq!(set.len(), 2);
    assert!(set.contains("a"));
    assert!(set.contains("b"));
    assert!(!set.contains("c"));
    assert_eq!(set.get(0), Some("a"));
    assert_eq!(set.get(1), Some("b"));
    assert_eq!(set.get(2), None);
}
