use std::collections::hash_map::DefaultHasher;
use std::hash::{Hash, Hasher};
use turbo_search::utils::{
    detect_media_players, format_size, is_audio_file, is_video_file, path_to_safe_filename, pick_folder_native,
    players_from_found, truncate_path,
};

#[test]
fn test_format_size() {
    assert_eq!(format_size(0), "0 B");
    assert_eq!(format_size(512), "512 B");
    assert_eq!(format_size(1024), "1.00 KB");
    assert_eq!(format_size(1536), "1.50 KB");
    assert_eq!(format_size(1048576), "1.00 MB");
    assert_eq!(format_size(1073741824), "1.00 GB");
}

#[test]
fn test_truncate_path() {
    assert_eq!(truncate_path("short", 10), "short");
    assert_eq!(truncate_path("very_long_path", 10), "...ng_path");
    assert_eq!(truncate_path("exact", 5), "exact");
}

#[test]
fn test_is_video_file() {
    assert!(is_video_file("test.mp4"));
    assert!(is_video_file("test.avi"));
    assert!(is_video_file("test.mkv"));
    assert!(!is_video_file("test.txt"));
    assert!(!is_video_file("test.mp3"));
}

#[test]
fn test_is_audio_file() {
    assert!(is_audio_file("test.mp3"));
    assert!(is_audio_file("test.wav"));
    assert!(is_audio_file("test.flac"));
    assert!(!is_audio_file("test.txt"));
    assert!(!is_audio_file("test.mp4"));
}

#[test]
fn test_path_to_safe_filename() {
    let result = path_to_safe_filename("test/path");
    assert!(!result.is_empty());
    assert_eq!(result.len(), 16);
}

/// What the formatting of a double with two decimals prints for the same size.
fn reference_size(bytes: u64) -> String {
    const KB: u64 = 1024;
    const MB: u64 = KB * 1024;
    const GB: u64 = MB * 1024;
    if bytes >= GB {
        format!("{:.2} GB", bytes as f64 / GB as f64)
    } else if bytes >= MB {
        format!("{:.2} MB", bytes as f64 / MB as f64)
    } else if bytes >= KB {
        format!("{:.2} KB", bytes as f64 / KB as f64)
    } else {
        format!("{bytes} B")
    }
}

#[test]
fn format_size_agrees_with_double_formatting() {
    let mut samples: Vec<u64> = vec![
        1023, 1024, 1025, 1034, 1035, 1152, 1126, 1127, 1029, 1030, 10 * 1024 + 5, 999_999, 1_048_575,
        1_048_576, 1_053_818, 1_053_819, 5_000_000_000, 1_099_511_627_776, (1u64 << 53) - 1, 1u64 << 53,
        (1u64 << 53) + 1, (1u64 << 53) + 3, (1u64 << 60) + 12345, u64::MAX - 1, u64::MAX,
    ];
    let mut x: u64 = 0x9E37_79B9_7F4A_7C15;
    for _ in 0..2000 {
        x ^= x << 13;
        x ^= x >> 7;
        x ^= x << 17;
        samples.push(x >> (x % 64));
    }
    for k in 0..1024u64 {
        samples.push(1024 + k);
        samples.push(1_048_576 + k * 1024 + 512);
    }
    for b in samples {
        assert_eq!(format_size(b), reference_size(b), "size {}", b);
    }
}

#[test]
fn truncate_path_keeps_the_end_within_the_byte_budget() {
    let t = truncate_path("/home/user/documents/report.txt", 12);
    assert_eq!(t, "...eport.txt");
    assert!(t.len() <= 12);
    // a multi-byte tail that starts on a character boundary
    let t = truncate_path("abcdéfgh", 8);
    assert_eq!(t, "...éfgh");
    assert!(t.len() <= 8);
    assert_eq!(truncate_path("abc", 3), "abc");
}

#[test]
fn media_kinds_ignore_case_and_need_an_extension() {
    assert!(is_video_file("/videos/Movie.MKV"));
    assert!(is_audio_file("song.FlAc"));
    assert!(!is_video_file("mp4"));
    assert!(!is_video_file(".mp4"));
    assert!(is_video_file("clip.3gp"));
    assert!(is_audio_file("voice.m4a"));
}

#[test]
fn safe_filename_is_the_hex_of_the_default_hash() {
    for p in ["test/path", "", "C:/Users/x", "/a/b/c.txt"] {
        let mut h = DefaultHasher::new();
        p.hash(&mut h);
        assert_eq!(path_to_safe_filename(p), format!("{:x}", h.finish()));
    }
    assert_eq!(path_to_safe_filename("same"), path_to_safe_filename("same"));
    assert_ne!(path_to_safe_filename("one"), path_to_safe_filename("two"));
}

#[test]
fn platform_helpers() {
    let players = detect_media_players();
    assert_eq!(players, vec![("System Default".to_string(), "xdg-open".to_string())]);
    assert!(pick_folder_native().is_none());
}

fn pair(a: &str, b: &str) -> (String, String) {
    (a.to_string(), b.to_string())
}

#[test]
fn found_players_are_listed_once_each_after_the_default() {
    assert!(players_from_found(Vec::new()).is_empty());
    let found = vec![
        pair("VLC", "C:\\VideoLAN\\vlc.exe"),
        pair("MPV", "C:\\mpv\\mpv.exe"),
        pair("VLC", "C:\\VideoLAN\\vlc.exe"),
    ];
    assert_eq!(
        players_from_found(found),
        vec![
            pair("System Default", "default"),
            pair("VLC", "C:\\VideoLAN\\vlc.exe"),
            pair("MPV", "C:\\mpv\\mpv.exe"),
        ]
    );
}
