use std::time::SystemTime;
use turbo_search::gui::state::{AppTheme, SearchMode};
use turbo_search::gui::{
    content_contains, filename_query, filename_query_checked, filename_results, loaded_status, preview_notice, preview_of, result_cap,
    result_label, saved_index_name, search_needed, search_status, theme_from_setting,
};
use turbo_search::utils::path_to_safe_filename;
use turbo_search::index::{FileEntry, FileIndex};

#[test]
fn stored_theme_names() {
    assert_eq!(theme_from_setting("Dark"), AppTheme::Dark);
    assert_eq!(theme_from_setting("Blue"), AppTheme::Blue);
    assert_eq!(theme_from_setting("Green"), AppTheme::Green);
    assert_eq!(theme_from_setting("Purple"), AppTheme::Purple);
    assert_eq!(theme_from_setting("Light"), AppTheme::Light);
    assert_eq!(theme_from_setting("dark"), AppTheme::Light);
}

#[test]
fn when_a_search_starts() {
    assert!(search_needed("abc", "/home", "", false));
    assert!(!search_needed("", "/home", "", false));
    assert!(!search_needed("abc", "", "", false));
    assert!(!search_needed("abc", "/home", "abc", true));
    assert!(search_needed("abc", "/home", "abc", false));
    assert_eq!(result_cap(SearchMode::Filename, 500, 5000), 500);
    assert_eq!(result_cap(SearchMode::Content, 500, 5000), 5000);
}

#[test]
fn search_bar_queries() {
    let q = filename_query("x".to_string(), true, true, true, "<2k", 500);
    assert!(q.regex && !q.glob && q.case_sensitive);
    assert_eq!(q.limit, 500);
    assert_eq!(q.offset, 0);
    assert_eq!((q.size_filter.min_size, q.size_filter.max_size), (0, 2048));
    let q = filename_query("*.rs".to_string(), false, true, false, "", 10);
    assert!(!q.regex && q.glob && !q.case_sensitive);
    assert_eq!((q.size_filter.min_size, q.size_filter.max_size), (0, u64::MAX));
    let q = filename_query("y".to_string(), false, false, false, "huge", 10);
    assert_eq!((q.size_filter.min_size, q.size_filter.max_size), (0, u64::MAX));
    let q = filename_query("z".to_string(), false, false, false, "1m-10m", 10);
    assert_eq!((q.size_filter.min_size, q.size_filter.max_size), (1048576, 10485760));
}

#[test]
fn result_view_helpers() {
    let mut index = FileIndex::new();
    for i in 0..5 {
        let name = format!("n{}.txt", i);
        index.add_entry(FileEntry {
            path: format!("/d/{}", name),
            name: name.clone(),
            name_lower: name,
            size: 1,
            modified: SystemTime::now(),
        });
    }
    let q = filename_query("n".to_string(), true, false, false, "", 100);
    assert_eq!(filename_results(&q, &index, 3).len(), 3);
    assert_eq!(filename_results(&q, &index, 30).len(), 5);
    assert!(content_contains("Hello WORLD", "world"));
    assert!(!content_contains("Hello", "bye"));
    assert_eq!(result_label("/a/b/c.txt"), "c.txt | /a/b/c.txt");
    assert_eq!(result_label("/"), " | /");
    assert_eq!(search_status(12, 7), "Found 12 results (7 ms)");
}

#[test]
fn previews() {
    assert_eq!(preview_notice("/x/movie.MP4"), Some("[Preview not available for mp4 files]".to_string()));
    assert_eq!(preview_notice("/x/notes.txt"), None);
    assert_eq!(preview_notice("/x/Makefile"), None);
    assert_eq!(preview_of("short"), "short");
    let long = "a".repeat(100_005);
    let p = preview_of(&long);
    assert!(p.starts_with(&"a".repeat(100_000)));
    assert!(p.ends_with("\n\n[... truncated ...]"));
    assert_eq!(p.len(), 100_000 + "\n\n[... truncated ...]".len());
}

#[test]
fn saved_index_names_and_status() {
    let name = saved_index_name("/data/photos");
    assert_eq!(name, format!("index_{}.gz", path_to_safe_filename("/data/photos")));
    assert!(name.starts_with("index_") && name.ends_with(".gz"));
    assert_eq!(loaded_status(42), "Loaded 42 files - click Search");
}

#[test]
fn search_bar_query_checked() {
    assert!(filename_query_checked("x".to_string(), false, false, false, "99999999999999g", 5).is_none());
    let q = filename_query_checked("x".to_string(), false, false, false, ">1k", 5).unwrap();
    assert_eq!((q.size_filter.min_size, q.size_filter.max_size), (1024, u64::MAX));
}
