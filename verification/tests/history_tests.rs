use turbo_search::history::{SearchHistory, SearchHistoryEntry};

#[test]
fn test_search_history_new() {
    let history = SearchHistory::new(10);
    assert!(history.entries().is_empty());
}

#[test]
fn test_search_history_add() {
    let mut history = SearchHistory::new(10);
    history.add_search("test".to_string(), false, false, false);

    let entries = history.entries();
    assert_eq!(entries.len(), 1);
    assert_eq!(entries[0].pattern, "test");
}

#[test]
fn test_search_history_deduplicate() {
    let mut history = SearchHistory::new(10);
    history.add_search("test".to_string(), false, false, false);
    history.add_search("other".to_string(), false, false, false);
    history.add_search("test".to_string(), false, false, false);

    let entries = history.entries();
    assert_eq!(entries.len(), 2);
    assert_eq!(entries[0].pattern, "test");
}

#[test]
fn test_search_history_max_entries() {
    let mut history = SearchHistory::new(3);
    history.add_search("1".to_string(), false, false, false);
    history.add_search("2".to_string(), false, false, false);
    history.add_search("3".to_string(), false, false, false);
    history.add_search("4".to_string(), false, false, false);

    let entries = history.entries();
    assert_eq!(entries.len(), 3);
    assert_eq!(entries[0].pattern, "4");
}

#[test]
fn test_search_history_recent() {
    let mut history = SearchHistory::new(10);
    history.add_search("1".to_string(), false, false, false);
    history.add_search("2".to_string(), false, false, false);
    history.add_search("3".to_string(), false, false, false);

    let recent = history.recent(2);
    assert_eq!(recent.len(), 2);
    assert_eq!(recent[0].pattern, "3");
    assert_eq!(recent[1].pattern, "2");
}

#[test]
fn test_search_history_entries() {
    let mut history = SearchHistory::new(10);
    history.add_search("test1".to_string(), false, false, false);
    history.add_search("test2".to_string(), true, true, true);

    let entries = history.entries();
    assert_eq!(entries.len(), 2);
    assert_eq!(entries[0].pattern, "test2");
    assert_eq!(entries[1].pattern, "test1");
}

#[test]
fn test_search_history_clear() {
    let mut history = SearchHistory::new(10);
    history.add_search("test1".to_string(), false, false, false);
    history.add_search("test2".to_string(), false, false, false);

    history.clear();

    assert!(history.entries().is_empty());
}

#[test]
fn test_search_history_is_empty() {
    let history = SearchHistory::new(10);
    assert!(history.entries().is_empty());

    let mut history = SearchHistory::new(10);
    history.add_search("test".to_string(), false, false, false);
    assert!(!history.entries().is_empty());
}

#[test]
fn test_search_history_with_options() {
    let mut history = SearchHistory::new(10);
    history.add_search("pattern2".to_string(), false, false, false);
    history.add_search("pattern1".to_string(), true, true, true);

    let entries = history.entries();
    assert_eq!(entries[0].pattern, "pattern1");
    assert_eq!(entries[0].is_content_search, true);
    assert_eq!(entries[0].use_regex, true);
    assert_eq!(entries[0].case_sensitive, true);
}

#[test]
fn history_add_keeps_patterns_distinct_and_limited() {
    let mut history = SearchHistory::new(4);
    for p in ["a", "b", "a", "c", "d", "e", "c"] {
        history.add_search(p.to_string(), false, false, false);
    }
    let patterns: Vec<&str> = history.entries().iter().map(|e| e.pattern.as_str()).collect();
    assert_eq!(patterns, vec!["c", "e", "d", "a"]);
    assert_eq!(history.max_entries(), 4);
}

#[test]
fn history_recent_more_than_stored() {
    let mut history = SearchHistory::new(10);
    history.add_search("x".to_string(), false, false, false);
    assert_eq!(history.recent(5).len(), 1);
    assert_eq!(history.recent(0).len(), 0);
}

#[test]
fn history_zero_limit_keeps_nothing() {
    let mut history = SearchHistory::new(0);
    history.add_search("x".to_string(), false, false, false);
    assert!(history.entries().is_empty());
}

#[test]
fn history_default_limit_is_one_hundred() {
    let history = SearchHistory::default();
    assert_eq!(history.max_entries(), 100);
    assert!(history.entries().is_empty());
}

#[test]
fn history_sanitize_drops_empty_and_oversized_patterns() {
    let now = std::time::SystemTime::now();
    let make = |p: String| SearchHistoryEntry {
        pattern: p,
        is_content_search: false,
        use_regex: false,
        case_sensitive: false,
        timestamp: now,
    };
    let entries = vec![
        make("ok".to_string()),
        make(String::new()),
        make("x".repeat(10001)),
        make("y".repeat(10000)),
    ];
    let mut history = SearchHistory::from_stored(entries, 10);
    history.sanitize_loaded();
    let kept: Vec<usize> = history.entries().iter().map(|e| e.pattern.len()).collect();
    assert_eq!(kept, vec![2, 10000]);
}

#[test]
fn history_add_at_records_timestamp() {
    let t = std::time::UNIX_EPOCH;
    let mut history = SearchHistory::new(2);
    history.add_search_at("p".to_string(), true, false, true, t);
    let e = &history.entries()[0];
    assert_eq!(e.timestamp, t);
    assert!(e.is_content_search);
    assert!(!e.use_regex);
    assert!(e.case_sensitive);
}
