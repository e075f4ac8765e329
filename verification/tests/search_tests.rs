use fuzzy_matcher::skim::SkimMatcherV2;
use fuzzy_matcher::FuzzyMatcher;
use turbo_search::index::{FileEntry, FileIndex};
use std::cmp::Ordering;
use turbo_search::search::{invalidate_search_cache, score_order_desc, ContentSearchQuery, ContentSearcher, FileContents, SearchQuery, Searcher, SizeFilter};

fn create_test_entry(name: &str) -> FileEntry {
    FileEntry {
        path: format!("/test/{}", name),
        name: name.to_string(),
        name_lower: name.to_lowercase(),
        size: 100,
        modified: std::time::SystemTime::now(),
    }
}

#[test]
fn test_search_query_new() {
    let query = SearchQuery::new("test".to_string());
    assert_eq!(query.pattern, "test");
    assert!(!query.case_sensitive);
    assert!(!query.regex);
}

#[test]
fn test_fuzzy_search_case_insensitive() {
    let mut index = FileIndex::new();
    index.add_entry(create_test_entry("test.txt"));
    index.add_entry(create_test_entry("TEST.txt"));
    index.add_entry(create_test_entry("another.txt"));

    let query = SearchQuery::new("test".to_string());
    let results = Searcher::search(&query, &index);

    assert_eq!(results.len(), 2);
}

#[test]
fn test_fuzzy_search_case_sensitive() {
    let mut index = FileIndex::new();
    index.add_entry(create_test_entry("test.txt"));
    index.add_entry(create_test_entry("TEST.txt"));

    let query = SearchQuery::new("test".to_string()).with_case_sensitive(true);
    let results = Searcher::search(&query, &index);

    assert_eq!(results.len(), 1);
}

#[test]
fn test_regex_search() {
    let mut index = FileIndex::new();
    index.add_entry(create_test_entry("test123.txt"));
    index.add_entry(create_test_entry("test456.txt"));
    index.add_entry(create_test_entry("other.txt"));

    let query = SearchQuery::new(r"test\d+\.txt".to_string()).with_regex(true);
    let results = Searcher::search(&query, &index);

    assert_eq!(results.len(), 2);
}

#[test]
fn test_glob_search_basic() {
    let mut index = FileIndex::new();
    index.add_entry(create_test_entry("document.pdf"));
    index.add_entry(create_test_entry("image.png"));
    index.add_entry(create_test_entry("photo.jpg"));
    index.add_entry(create_test_entry("data.txt"));

    let query = SearchQuery::new("*.txt".to_string()).with_glob(true);
    let results = Searcher::search(&query, &index);

    assert_eq!(results.len(), 1);
    assert_eq!(results[0].name, "data.txt");
}

#[test]
fn test_glob_search_multiple_extensions() {
    let mut index = FileIndex::new();
    index.add_entry(create_test_entry("file1.txt"));
    index.add_entry(create_test_entry("file2.pdf"));
    index.add_entry(create_test_entry("file3.txt"));
    index.add_entry(create_test_entry("file4.md"));

    let query = SearchQuery::new("*.txt".to_string()).with_glob(true);
    let results = Searcher::search(&query, &index);

    assert_eq!(results.len(), 2);
}

#[test]
fn test_glob_search_case_insensitive() {
    let mut index = FileIndex::new();
    index.add_entry(create_test_entry("Document.TXT"));
    index.add_entry(create_test_entry("FILE.txt"));
    index.add_entry(create_test_entry("file.pdf"));

    let query = SearchQuery::new("*.txt".to_string()).with_glob(true);
    let results = Searcher::search(&query, &index);

    assert_eq!(results.len(), 2);
}

#[test]
fn test_glob_search_case_sensitive() {
    let mut index = FileIndex::new();
    index.add_entry(create_test_entry("Document.TXT"));
    index.add_entry(create_test_entry("FILE.txt"));
    index.add_entry(create_test_entry("file.txt"));

    let query = SearchQuery::new("*.TXT".to_string())
        .with_glob(true)
        .with_case_sensitive(true);
    let results = Searcher::search(&query, &index);

    assert_eq!(results.len(), 1);
    assert_eq!(results[0].name, "Document.TXT");
}

#[test]
fn test_glob_search_question_mark() {
    let mut index = FileIndex::new();
    index.add_entry(create_test_entry("file1.txt"));
    index.add_entry(create_test_entry("file2.txt"));
    index.add_entry(create_test_entry("file10.txt"));

    let query = SearchQuery::new("file?.txt".to_string()).with_glob(true);
    let results = Searcher::search(&query, &index);

    assert_eq!(results.len(), 2);
}

#[test]
fn test_glob_search_invalid_pattern() {
    let mut index = FileIndex::new();
    index.add_entry(create_test_entry("test.txt"));

    let query = SearchQuery::new("[invalid".to_string()).with_glob(true);
    let results = Searcher::search(&query, &index);

    assert!(results.is_empty());
}

#[test]
fn test_empty_pattern() {
    let index = FileIndex::new();
    let query = SearchQuery::new("".to_string());
    let results = Searcher::search(&query, &index);

    assert!(results.is_empty());
}

#[test]
fn test_content_search_query_new() {
    let query = ContentSearchQuery::new("test".to_string());
    assert_eq!(query.pattern, "test");
    assert!(!query.case_sensitive);
    assert!(!query.regex);
    assert_eq!(query.max_context, 0);
}

#[test]
fn test_content_search_query_builder() {
    let query = ContentSearchQuery::new("test".to_string())
        .with_case_sensitive(true)
        .with_regex(true)
        .with_max_context(3);

    assert!(query.case_sensitive);
    assert!(query.regex);
    assert_eq!(query.max_context, 3);
}

fn file(path: &str, bytes: &[u8]) -> FileContents {
    FileContents { path: path.to_string(), bytes: Some(bytes.to_vec()) }
}

#[test]
fn test_content_search_empty_pattern() {
    let query = ContentSearchQuery::new("".to_string());
    let results = ContentSearcher::search_files(&query, &vec![file("ripgrep_test_content.txt", b"test content here")]);
    assert!(results.is_empty());
}

#[test]
fn test_content_search_case_insensitive() {
    let query = ContentSearchQuery::new("test".to_string());
    let files = vec![file("ripgrep_test_case.txt", b"Test CONTENT here\nAnother LINE\ntest content again")];
    let results = ContentSearcher::search_files(&query, &files);

    assert_eq!(results.len(), 2);
    assert_eq!(results[0].line_number, 1);
    assert_eq!(results[1].line_number, 3);
}

#[test]
fn test_content_search_case_sensitive() {
    let query = ContentSearchQuery::new("Test".to_string()).with_case_sensitive(true);
    let files = vec![file("ripgrep_test_sensitive.txt", b"Test CONTENT\ntest content")];
    let results = ContentSearcher::search_files(&query, &files);

    assert_eq!(results.len(), 1);
    assert_eq!(results[0].line_number, 1);
}

#[test]
fn test_content_search_regex() {
    let query = ContentSearchQuery::new(r"test\d+".to_string()).with_regex(true);
    let files = vec![file("ripgrep_test_regex.txt", b"test123 abc\ntest456 def\nother content")];
    let results = ContentSearcher::search_files(&query, &files);

    assert_eq!(results.len(), 2);
    assert_eq!(results[0].line_number, 1);
    assert_eq!(results[1].line_number, 2);
}

#[test]
fn test_content_search_line_number_tracking() {
    let query = ContentSearchQuery::new("match".to_string());
    let files = vec![file("ripgrep_test_lines.txt", b"line 1\nline 2\nline 3 with match\nline 4")];
    let results = ContentSearcher::search_files(&query, &files);

    assert_eq!(results.len(), 1);
    assert_eq!(results[0].line_number, 3);
    assert!(results[0].line_content.contains("line 3 with match"));
}

#[test]
fn test_content_search_binary_detection() {
    let query = ContentSearchQuery::new("test".to_string());
    let binary_content: Vec<u8> = vec![0x00, 0x01, 0x02, b't', b'e', b's', b't'];
    let results = ContentSearcher::search_files(&query, &vec![file("ripgrep_test_binary.bin", &binary_content)]);

    assert!(results.is_empty());
}

#[test]
fn test_content_search_text_file() {
    let query = ContentSearchQuery::new("text".to_string());
    let files = vec![file("ripgrep_test_text.txt", b"This is a text file\nWith some content")];
    let results = ContentSearcher::search_files(&query, &files);

    assert_eq!(results.len(), 1);
}

#[test]
fn content_matches_carry_line_and_matched_text() {
    let query = ContentSearchQuery::new("WORLD".to_string());
    let results = ContentSearcher::search_file(&query, "f.txt", b"hello World\r\nno\nworld!\n");
    assert_eq!(results.len(), 2);
    assert_eq!(results[0].file_path, "f.txt");
    assert_eq!(results[0].line_content, "hello World");
    assert_eq!(results[0].matched_text, "World");
    assert_eq!(results[1].line_number, 3);
    assert_eq!(results[1].matched_text, "world");
}

#[test]
fn content_search_caps_matches_per_file() {
    let text = "hit\n".repeat(150);
    let query = ContentSearchQuery::new("hit".to_string());
    let results = ContentSearcher::search_file(&query, "many.txt", text.as_bytes());
    assert_eq!(results.len(), 100);
    assert_eq!(results[99].line_number, 100);
}

#[test]
fn content_search_skips_unread_files_and_keeps_file_order() {
    let query = ContentSearchQuery::new("x".to_string());
    let files = vec![
        file("b.txt", b"x\n"),
        FileContents { path: "gone.txt".to_string(), bytes: None },
        file("a.txt", b"y\nx"),
    ];
    let results = ContentSearcher::search_files(&query, &files);
    let where_: Vec<(String, usize)> = results.iter().map(|m| (m.file_path.clone(), m.line_number)).collect();
    assert_eq!(where_, vec![("b.txt".to_string(), 1), ("a.txt".to_string(), 2)]);
}

#[test]
fn content_search_invalid_regex_finds_nothing() {
    let query = ContentSearchQuery::new("(".to_string()).with_regex(true);
    let results = ContentSearcher::search_file(&query, "f", b"((((\n");
    assert!(results.is_empty());
}

#[test]
fn content_search_checked_accepts_plain_files() {
    let query = ContentSearchQuery::new("a".to_string());
    let files = vec![file("f", b"abc\n")];
    let r = ContentSearcher::search_files_checked(&query, &files).unwrap();
    assert_eq!(r.len(), 1);
}

#[test]
fn fuzzy_results_are_ranked_by_score() {
    let names = ["x_t_e_s_t.txt", "test.txt", "the_best.txt", "attest.md", "nothing.rs"];
    let mut index = FileIndex::new();
    for n in names {
        index.add_entry(create_test_entry(n));
    }
    let results = Searcher::search(&SearchQuery::new("test".to_string()), &index);
    let matcher = SkimMatcherV2::default().ignore_case();
    let scores: Vec<i64> = results.iter().map(|e| matcher.fuzzy_match(&e.name_lower, "test").unwrap()).collect();
    assert!(!scores.is_empty());
    for w in scores.windows(2) {
        assert!(w[0] >= w[1], "scores not descending: {:?}", scores);
    }
    assert!(results.iter().all(|e| e.name != "nothing.rs"));
}

#[test]
fn glob_search_pages_with_offset_and_limit() {
    let mut index = FileIndex::new();
    for i in 0..6 {
        index.add_entry(create_test_entry(&format!("f{}.txt", i)));
    }
    index.add_entry(create_test_entry("skip.md"));
    let q = SearchQuery::new("*.txt".to_string()).with_glob(true).with_offset(2).with_limit(3);
    let names: Vec<String> = Searcher::search(&q, &index).into_iter().map(|e| e.name).collect();
    assert_eq!(names, vec!["f2.txt", "f3.txt", "f4.txt"]);
}

#[test]
fn regex_search_ignores_the_limit() {
    let mut index = FileIndex::new();
    for i in 0..5 {
        index.add_entry(create_test_entry(&format!("log{}.txt", i)));
    }
    let q = SearchQuery::new("log".to_string()).with_regex(true).with_limit(2);
    assert_eq!(Searcher::search(&q, &index).len(), 5);
}

#[test]
fn size_filter_parsing() {
    let f = SizeFilter::from_string("<10k").unwrap();
    assert_eq!((f.min_size, f.max_size), (0, 10240));
    let f = SizeFilter::from_string(" >2MB ").unwrap();
    assert_eq!((f.min_size, f.max_size), (2097152, u64::MAX));
    let f = SizeFilter::from_string("5").unwrap();
    assert_eq!((f.min_size, f.max_size), (5, u64::MAX));
    assert!(SizeFilter::from_string("").is_none());
    assert!(SizeFilter::from_string("10q").is_none());
    assert!(SizeFilter::from_string("kb").is_none());
    assert!(SizeFilter::from_string_checked("99999999999999g").is_none());
    assert_eq!(SizeFilter::from_string_checked("1g").unwrap().unwrap().min_size, 1073741824);
}

#[test]
fn size_filter_ranges_and_matching() {
    let f = SizeFilter::from_range("<1k-<2k").unwrap();
    assert_eq!((f.min_size, f.max_size), (1024, 2048));
    let f = SizeFilter::from_range("1k-2k").unwrap();
    assert_eq!((f.min_size, f.max_size), (1024, 2048));
    let f = SizeFilter::from_range("1m-10m").unwrap();
    assert_eq!((f.min_size, f.max_size), (1048576, 10485760));
    let f = SizeFilter::from_string("1m-10m").unwrap();
    assert_eq!((f.min_size, f.max_size), (1048576, 10485760));
    assert!(f.matches(2 * 1048576));
    assert!(!f.matches(11 * 1048576));
    let f = SizeFilter::from_range("-<5").unwrap();
    assert_eq!((f.min_size, f.max_size), (0, 5));
    let f = SizeFilter::from_range("<3-").unwrap();
    assert_eq!((f.min_size, f.max_size), (3, u64::MAX));
    assert!(SizeFilter::from_range("  ").is_none());
    assert!(f.matches(3));
    assert!(!f.matches(2));
    let d = SizeFilter::default();
    assert_eq!((d.min_size, d.max_size), (0, 0));
    assert!(d.matches(0));
    assert!(!d.matches(1));
    let n = SizeFilter::new(0, u64::MAX);
    assert!(n.matches(u64::MAX));
    assert!(SizeFilter::from_range_checked("<99999999999999g-1").is_none());
}

fn sized_entry(name: &str, size: u64) -> FileEntry {
    FileEntry {
        path: format!("/t/{}", name),
        name: name.to_string(),
        name_lower: name.to_lowercase(),
        size,
        modified: std::time::UNIX_EPOCH,
    }
}

#[test]
fn every_search_mode_applies_the_size_filter() {
    let mut index = FileIndex::new();
    index.add_entry(sized_entry("small.txt", 10));
    index.add_entry(sized_entry("large.txt", 1000));
    let filter = SizeFilter::new(0, 100);
    for query in [
        SearchQuery::new("txt".to_string()),
        SearchQuery::new("*.txt".to_string()).with_glob(true),
        SearchQuery::new("txt".to_string()).with_regex(true),
    ] {
        let results = Searcher::search(&query.with_size_filter(filter), &index);
        assert_eq!(results.len(), 1);
        assert_eq!(results[0].name, "small.txt");
    }
    // Without a filter of its own a query admits every size.
    let results = Searcher::search(&SearchQuery::new("txt".to_string()), &index);
    assert_eq!(results.len(), 2);
}

#[test]
fn fuzzy_search_keeps_the_best_matches_up_to_the_limit() {
    let mut index = FileIndex::new();
    index.add_entry(sized_entry("a1.txt", 1));
    index.add_entry(sized_entry("a2.txt", 1));
    index.add_entry(sized_entry("a3.txt", 1));
    let results = Searcher::search(&SearchQuery::new("a".to_string()).with_limit(2), &index);
    assert_eq!(results.len(), 2);
    assert_ne!(results[0].name, results[1].name);
    // The best limit + offset matches are kept, then the page is taken from them.
    let results = Searcher::search(&SearchQuery::new("a".to_string()).with_limit(2).with_offset(2), &index);
    assert_eq!(results.len(), 1);
    let results = Searcher::search(&SearchQuery::new("a".to_string()).with_limit(2).with_offset(3), &index);
    assert_eq!(results.len(), 0);
    let results = Searcher::search(&SearchQuery::new("a".to_string()).with_limit(5), &index);
    assert_eq!(results.len(), 3);
    let mut ranked = FileIndex::new();
    ranked.add_entry(sized_entry("axxbxxc.txt", 1));
    ranked.add_entry(sized_entry("abc.txt", 1));
    ranked.add_entry(sized_entry("axbxc.txt", 1));
    let best = Searcher::search(&SearchQuery::new("abc".to_string()).with_limit(1), &ranked);
    assert_eq!(best.len(), 1);
    assert_eq!(best[0].name, "abc.txt");
}

#[test]
fn content_search_skips_files_over_ten_mebibytes() {
    let query = ContentSearchQuery::new("x".to_string());
    let mut big = vec![b'x'; 10 * 1024 * 1024];
    assert_eq!(ContentSearcher::search_file(&query, "/f", &big).len(), 1);
    big.push(b'\n');
    assert!(ContentSearcher::search_file(&query, "/f", &big).is_empty());
}

#[test]
fn scores_order_higher_first() {
    assert_eq!(score_order_desc(&(5, 0), &(3, 1)), Ordering::Less);
    assert_eq!(score_order_desc(&(3, 0), &(5, 1)), Ordering::Greater);
    assert_eq!(score_order_desc(&(4, 0), &(4, 9)), Ordering::Equal);
}

#[test]
fn searches_after_invalidating_the_cache_answer_the_same() {
    let mut index = FileIndex::new();
    index.add_entry(sized_entry("one.txt", 1));
    let query = SearchQuery::new("one".to_string());
    let before = Searcher::search(&query, &index).len();
    invalidate_search_cache();
    index.add_entry(sized_entry("one.rs", 1));
    assert_eq!(before, 1);
    assert_eq!(Searcher::search(&query, &index).len(), 2);
}

#[test]
fn single_file_search_checked_answers_as_the_plain_search() {
    let query = ContentSearchQuery::new("needle".to_string());
    let bytes = b"hay\nNeedle here\nmore hay\n";
    let checked = ContentSearcher::search_file_checked(&query, "/f.txt", bytes).unwrap();
    let plain = ContentSearcher::search_file(&query, "/f.txt", bytes);
    assert_eq!(checked.len(), 1);
    assert_eq!(plain.len(), 1);
    assert_eq!(checked[0].line_number, 2);
    assert_eq!(checked[0].matched_text, "Needle");
}

#[test]
fn checked_search_refuses_only_overflowing_queries() {
    let mut index = FileIndex::new();
    index.add_entry(sized_entry("one.txt", 1));
    let ok = Searcher::search_checked(&SearchQuery::new("one".to_string()), &index).unwrap();
    assert_eq!(ok.len(), 1);
    let huge = SearchQuery::new("one".to_string()).with_limit(usize::MAX);
    assert!(Searcher::search_checked(&huge.with_offset(1), &index).is_none());
    let regex = SearchQuery::new("one".to_string()).with_regex(true).with_limit(usize::MAX).with_offset(1);
    assert_eq!(Searcher::search_checked(&regex, &index).unwrap().len(), 1);
}
