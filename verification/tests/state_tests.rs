use turbo_search::gui::state::{
    parse_size_filter, parse_size_filter_checked, AppTheme, BackgroundTasks, FavoriteSearch, Favorites, FileCategory,
    PaginationState, SearchMode, SearchOptions, UiState,
};
use turbo_search::gui::ui_components;
use turbo_search::utils::{is_audio_file, is_video_file};

fn fav(id_ms: u128, name: &str) -> FavoriteSearch {
    FavoriteSearch::new_at(
        name.to_string(),
        "*.rs".to_string(),
        "/src".to_string(),
        SearchMode::Filename,
        false,
        true,
        false,
        String::new(),
        id_ms,
        7,
    )
}

#[test]
fn themes_and_modes_have_names_and_defaults() {
    assert_eq!(AppTheme::default(), AppTheme::Blue);
    assert_eq!(AppTheme::Light.display_name(), "Light");
    assert_eq!(AppTheme::Dark.display_name(), "Dark");
    assert_eq!(AppTheme::Blue.display_name(), "Blue");
    assert_eq!(AppTheme::Green.display_name(), "Green");
    assert_eq!(AppTheme::Purple.display_name(), "Purple");
    assert_eq!(SearchMode::default(), SearchMode::Filename);
    assert_eq!(SearchMode::Filename.display_name(), "Filename");
    assert_eq!(SearchMode::Content.display_name(), "Content");
}

#[test]
fn favorite_ids_come_from_the_clock() {
    let f = fav(1700000000123, "mine");
    assert_eq!(f.id, "fav_1700000000123");
    assert_eq!(f.created_at, 7);
    assert_eq!(f.name, "mine");
    assert!(f.use_glob);
    let now = FavoriteSearch::new(
        "n".to_string(),
        "p".to_string(),
        "/".to_string(),
        SearchMode::Content,
        true,
        false,
        true,
        "<1m".to_string(),
    );
    assert!(now.id.starts_with("fav_"));
    assert!(now.id[4..].chars().all(|c| c.is_ascii_digit()));
    assert_eq!(now.search_mode, SearchMode::Content);
    assert_eq!(now.size_filter, "<1m");
}

#[test]
fn favorites_add_get_remove() {
    let mut favs = Favorites::new();
    favs.add(fav(1, "a"));
    favs.add(fav(2, "b"));
    favs.add(fav(1, "a-again"));
    assert_eq!(favs.get("fav_2").unwrap().name, "b");
    assert_eq!(favs.get("fav_1").unwrap().name, "a");
    assert!(favs.get("fav_3").is_none());
    favs.remove("fav_1");
    assert!(favs.get("fav_1").is_none());
    assert_eq!(favs.favorites.len(), 1);
    assert_eq!(favs.favorites[0].name, "b");
    favs.remove("missing");
    assert_eq!(favs.favorites.len(), 1);
    assert!(Favorites::default().favorites.is_empty());
    let c = favs.favorites[0].clone();
    assert_eq!(c.id, "fav_2");
}

#[test]
fn defaults_of_the_view_state() {
    let o = SearchOptions::default();
    assert!(!o.use_regex && !o.use_glob && !o.case_sensitive && o.size_filter.is_empty());
    let u = UiState::default();
    assert!(u.selected_index.is_none() && u.preview_path.is_none() && !u.show_welcome && !u.show_settings);
    let b = BackgroundTasks::default();
    assert!(!b.is_indexing && !b.is_searching && b.search_start_time.is_none() && b.last_search_duration.is_none());
}

#[test]
fn file_categories_by_extension() {
    assert_eq!(FileCategory::from_extension("rs"), FileCategory::Code);
    assert_eq!(FileCategory::from_extension("SVELTE"), FileCategory::Code);
    assert_eq!(FileCategory::from_extension("Pdf"), FileCategory::Document);
    assert_eq!(FileCategory::from_extension("mp4"), FileCategory::Video);
    assert_eq!(FileCategory::from_extension("FLAC"), FileCategory::Audio);
    assert_eq!(FileCategory::from_extension("tif"), FileCategory::Image);
    assert_eq!(FileCategory::from_extension("7z"), FileCategory::Archive);
    assert_eq!(FileCategory::from_extension("ps1"), FileCategory::Executable);
    assert_eq!(FileCategory::from_extension("conf"), FileCategory::Config);
    assert_eq!(FileCategory::from_extension("xyz"), FileCategory::Other);
    assert_eq!(FileCategory::from_extension(""), FileCategory::Other);
    assert_eq!(FileCategory::Code.icon(), "\u{1F4BB}");
    assert_eq!(FileCategory::Document.icon(), "\u{1F4C4}");
    assert_eq!(FileCategory::Video.icon(), "\u{1F3AC}");
    assert_eq!(FileCategory::Audio.icon(), "\u{1F3B5}");
    assert_eq!(FileCategory::Image.icon(), "\u{1F5BC}");
    assert_eq!(FileCategory::Archive.icon(), "\u{1F4E6}");
    assert_eq!(FileCategory::Executable.icon(), "\u{2699}");
    assert_eq!(FileCategory::Config.icon(), "\u{1F4C1}");
    assert_eq!(FileCategory::Other.icon(), "\u{1F4C4}");
}

#[test]
fn pagination_counts_pages_and_offsets() {
    let mut p = PaginationState::new(50);
    assert_eq!(p.total_pages(), 1);
    assert_eq!(p.offset(), 0);
    assert_eq!(p.limit(), 50);
    p.update_total(120);
    assert_eq!(p.total_pages(), 3);
    assert!(p.needs_pagination());
    p.go_to_page(3);
    assert_eq!(p.current_page, 3);
    assert_eq!(p.offset(), 100);
    p.update_total(100);
    assert_eq!(p.current_page, 2);
    p.update_total(0);
    assert_eq!(p.current_page, 1);
    assert!(!p.needs_pagination());
}

#[test]
fn pagination_steps_and_jumps_stay_in_range() {
    let mut p = PaginationState::new(10);
    p.update_total(35);
    p.prev_page();
    assert_eq!(p.current_page, 1);
    p.next_page();
    p.next_page();
    assert_eq!(p.current_page, 3);
    p.prev_page();
    p.next_page();
    assert_eq!(p.current_page, 3);
    p.next_page();
    p.next_page();
    assert_eq!(p.current_page, 4);
    p.go_to_page(0);
    assert_eq!(p.current_page, 1);
    p.go_to_page(99);
    assert_eq!(p.current_page, 4);
    p.first_page();
    assert_eq!(p.current_page, 1);
    p.last_page();
    assert_eq!(p.current_page, 4);
    let d = PaginationState::default();
    assert_eq!((d.current_page, d.items_per_page, d.total_items), (0, 0, 0));
}

#[test]
fn pagination_visible_pages() {
    let mut p = PaginationState::new(10);
    p.update_total(30);
    assert_eq!(p.get_visible_pages(5), vec![1, 2, 3]);
    p.update_total(200);
    p.go_to_page(10);
    assert_eq!(p.get_visible_pages(5), vec![1, 8, 9, 10, 11, 12, 20]);
    p.go_to_page(20);
    assert_eq!(p.get_visible_pages(5), vec![1, 16, 17, 18, 19, 20]);
    p.go_to_page(1);
    assert_eq!(p.get_visible_pages(5), vec![1, 2, 3, 4, 5, 20]);
    assert_eq!(p.get_visible_pages(0), vec![1, 20]);
    p.go_to_page(2);
    assert_eq!(p.get_visible_pages(4), vec![1, 2, 3, 4, 20]);
    p.go_to_page(19);
    assert_eq!(p.get_visible_pages(4), vec![1, 17, 18, 19, 20]);
}

#[test]
fn size_filter_text_of_the_search_bar() {
    assert_eq!(parse_size_filter("10k-20m"), Some((10240, 20971520)));
    assert_eq!(parse_size_filter(" 5 "), Some((0, 5)));
    assert_eq!(parse_size_filter("2G"), Some((0, 2147483648)));
    // the unit is the last character, so a trailing `b` means bytes
    assert_eq!(parse_size_filter("10kb"), Some((0, 10)));
    assert_eq!(parse_size_filter("+7"), Some((0, 7)));
    assert_eq!(parse_size_filter(""), None);
    assert_eq!(parse_size_filter("   "), None);
    assert_eq!(parse_size_filter("abc"), None);
    assert_eq!(parse_size_filter("1-2-3"), None);
    assert_eq!(parse_size_filter("-5"), None);
    assert_eq!(parse_size_filter("1k-x"), None);
    assert_eq!(parse_size_filter_checked("99999999999g"), None);
    assert_eq!(parse_size_filter_checked("99999999999g-1-2"), Some(None));
    assert_eq!(parse_size_filter_checked("1m"), Some(Some((0, 1048576))));
}

#[test]
fn result_row_helpers() {
    assert_eq!(ui_components::format_size(2048), "2.00 KB");
    assert_eq!(ui_components::format_size(3), "3 B");
    assert_eq!(ui_components::truncate_path("abcdefghij", 6), "...hij");
}

#[test]
fn file_category_agrees_with_the_media_checks_in_any_case() {
    for ext in ["mp4", "MKV", "Flac", "m4a", "rs", "PDF", "zip", "xyz"] {
        let cat = FileCategory::from_extension(ext);
        assert_eq!(cat, FileCategory::from_extension(&ext.to_ascii_uppercase()));
        let path = format!("f.{}", ext);
        assert_eq!(cat == FileCategory::Video, is_video_file(&path));
        assert_eq!(cat == FileCategory::Audio, is_audio_file(&path));
    }
}
