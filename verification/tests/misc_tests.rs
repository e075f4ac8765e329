use std::time::SystemTime;
use turbo_search::cli::{Cli, Commands};
use turbo_search::cli_search::{content_size_allowed, index_file_name, search_target};
use turbo_search::config::ConfigError;
use turbo_search::error::AppError;
use turbo_search::file_watcher::FileChange;
use turbo_search::incremental_index::{apply_change, IncrementalIndexState};
use turbo_search::index::{FileEntry, FileIndex};
use turbo_search::mft_reader::{combined_size, ListedItem, MftError, MftReader};

#[test]
fn test_file_change_path() {
    let path = "C:/test/file.txt".to_string();
    assert_eq!(FileChange::Created(path.clone()).path(), "C:/test/file.txt");
    assert_eq!(FileChange::Modified(path.clone()).path(), "C:/test/file.txt");
    assert_eq!(FileChange::Removed(path.clone()).path(), "C:/test/file.txt");
}

#[test]
fn test_file_change_eq() {
    let path1 = "C:/test/file.txt".to_string();
    let path2 = "C:/test/file.txt".to_string();
    let path3 = "C:/test/other.txt".to_string();

    assert_eq!(FileChange::Created(path1.clone()), FileChange::Created(path2.clone()));
    assert_ne!(FileChange::Created(path1.clone()), FileChange::Created(path3.clone()));
    assert_ne!(FileChange::Created(path1.clone()), FileChange::Modified(path1.clone()));
}

#[test]
fn test_mft_reader_new() {
    let reader = MftReader::new("C");
    assert!(reader.is_ok());

    let reader = MftReader::new("C:");
    assert!(reader.is_ok());
}

#[test]
fn test_read_entries_fast() {
    let reader = MftReader::new("C").unwrap();
    let entries = reader.read_entries(Ok(vec![listed("Windows", true, 0), listed("io.sys", false, 9)]));
    if let Ok(entries) = entries {
        println!("Found {} entries in C:\\ (fast mode)", entries.len());
        for entry in entries.iter().take(5) {
            println!("  {:?} - {} bytes", entry.name, entry.size);
        }
    }
}

#[test]
fn mft_reader_volume_names() {
    assert_eq!(MftReader::new("C").unwrap().volume(), "C");
    assert_eq!(MftReader::new("C:").unwrap().volume(), "C");
    assert_eq!(MftReader::new("D:\\").unwrap().volume(), "D");
    assert_eq!(MftReader::new(":").unwrap().volume(), "");
    assert_eq!(MftReader::new("").unwrap().volume(), "");
    let r = MftReader::new("E").unwrap().with_fast_mode(false);
    assert_eq!(r.volume(), "E");
    assert!(r.read_entries(Ok(vec![listed("e.txt", false, 1)])).unwrap()[0].path == "E:\\e.txt");
    assert_eq!(MftError::NotNtfs.message(), "Volume is not NTFS");
    assert_eq!(MftError::OpenVolume("x".to_string()).message(), "Failed to open volume: x");
    assert_eq!(MftError::ReadMft("y".to_string()).message(), "Failed to read MFT: y");
    assert_eq!(MftError::InvalidRecord("z".to_string()).message(), "Invalid MFT record: z");
    assert_eq!(MftError::WindowsApi("w".to_string()).message(), "Windows API error: w");
    let io = MftError::from(std::io::Error::new(std::io::ErrorKind::Other, "disk"));
    assert_eq!(io.message(), "IO error: disk");
}

#[test]
fn cli_log_level_and_gui_choice() {
    let mut cli = Cli { gui: false, verbose: false, quiet: false, command: None };
    assert_eq!(cli.log_level(), "info");
    assert!(cli.should_launch_gui());
    cli.verbose = true;
    assert_eq!(cli.log_level(), "debug");
    cli.quiet = true;
    assert_eq!(cli.log_level(), "warn");
    cli.command = Some(Commands::Index { path: None, rebuild: false });
    assert!(!cli.should_launch_gui());
    cli.gui = true;
    assert!(cli.should_launch_gui());
}

#[test]
fn app_error_messages() {
    assert_eq!(AppError::parse("bad").message(), "Parse error: bad");
    assert_eq!(AppError::index("i").message(), "Index error: i");
    assert_eq!(AppError::search("s").message(), "Search error: s");
    assert_eq!(AppError::config("c").message(), "Configuration error: c");
    assert_eq!(AppError::ui("u").message(), "UI error: u");
    assert_eq!(AppError::serialization("j").message(), "Serialization error: j");
    assert_eq!(AppError::path("p").message(), "Path error: p");
    assert_eq!(AppError::regex("r").message(), "Regex error: r");
    assert_eq!(AppError::glob("g").message(), "Glob pattern error: g");
    let io: AppError = std::io::Error::new(std::io::ErrorKind::NotFound, "gone").into();
    assert!(matches!(io, AppError::Io(_)));
    assert_eq!(io.message(), "IO error: gone");
}

#[test]
fn config_error_messages() {
    assert_eq!(ConfigError::NoConfigDir.message(), "No configuration directory found");
    assert_eq!(ConfigError::Io("denied".to_string()).message(), "IO error: denied");
    assert_eq!(ConfigError::Serialize("eof".to_string()).message(), "Serialization error: eof");
}

fn entry(path: &str, size: u64) -> FileEntry {
    FileEntry::from_metadata(path.to_string(), size, SystemTime::UNIX_EPOCH).unwrap()
}

#[test]
fn changes_update_the_index() {
    let mut index = FileIndex::with_root("/w");
    let created = FileChange::Created("/w/a.txt".to_string());
    assert_eq!(apply_change(&mut index, &created, true, Some(entry("/w/a.txt", 1))), 1);
    assert_eq!(index.len(), 1);
    // a modified file replaces its entry
    let modified = FileChange::Modified("/w/a.txt".to_string());
    assert_eq!(apply_change(&mut index, &modified, true, Some(entry("/w/a.txt", 9))), 1);
    assert_eq!(index.len(), 1);
    assert_eq!(index.find_by_name("a.txt")[0].size, 9);
    // a directory changes nothing
    let dir = FileChange::Created("/w/sub".to_string());
    assert_eq!(apply_change(&mut index, &dir, false, None), 0);
    assert_eq!(index.len(), 1);
    // a file whose metadata could not be read loses its entry but is not counted
    assert_eq!(apply_change(&mut index, &modified, true, None), 0);
    assert_eq!(index.len(), 0);
    // removing a path the index does not hold counts nothing
    let removed = FileChange::Removed("/w/a.txt".to_string());
    assert_eq!(apply_change(&mut index, &removed, false, None), 0);
    assert_eq!(apply_change(&mut index, &created, true, Some(entry("/w/a.txt", 1))), 1);
    assert_eq!(apply_change(&mut index, &removed, false, None), 1);
    assert!(index.is_empty());
}

#[test]
fn index_states_carry_their_index() {
    let s = IncrementalIndexState::Initial(FileIndex::with_root("/q"), 3);
    match s {
        IncrementalIndexState::Initial(i, n) => {
            assert_eq!(i.root_path(), "/q");
            assert_eq!(n, 3);
        },
        _ => panic!("wrong state"),
    }
    let c = FileChange::Removed("/z".to_string());
    assert_eq!(c.clone(), c);
}

#[test]
fn index_file_names_and_content_size_limit() {
    assert_eq!(index_file_name("C:\\Users\\me"), "index_C__Users_me.json");
    assert_eq!(index_file_name("/home/me/docs"), "index__home_me_docs.json");
    assert_eq!(index_file_name(""), "index_.json");
    assert!(content_size_allowed(10 * 1024 * 1024));
    assert!(!content_size_allowed(10 * 1024 * 1024 + 1));
    assert!(content_size_allowed(0));
}

#[test]
fn search_target_prefers_the_file_name_pattern() {
    assert_eq!(search_target(Some("a".to_string()), Some("b".to_string())), ("a".to_string(), true));
    assert_eq!(search_target(None, Some("b".to_string())), ("b".to_string(), true));
    assert_eq!(search_target(Some("a".to_string()), None), ("a".to_string(), false));
    assert_eq!(search_target(None, None), (String::new(), false));
}

fn listed(name: &str, is_directory: bool, size: u64) -> ListedItem {
    ListedItem { name: name.to_string(), is_directory, is_file: !is_directory, size, modified: None }
}

#[test]
fn volume_listing_becomes_entries() {
    let items = || vec![listed(".", true, 0), listed("..", true, 0), listed("Windows", true, 0), listed("pagefile.sys", false, 42)];
    let fast = MftReader::new("C:").unwrap();
    assert_eq!(fast.listing_pattern(), "C:\\*");
    let entries = fast.entries_from_listing(items());
    let got: Vec<(String, String, u64, u64, bool)> = entries
        .iter()
        .map(|e| (e.path.clone(), e.name.clone(), e.size, e.parent_seq, e.is_directory))
        .collect();
    assert_eq!(
        got,
        vec![
            ("C:\\Windows".to_string(), "Windows".to_string(), 0, 0, true),
            ("C:\\pagefile.sys".to_string(), "pagefile.sys".to_string(), 42, 0, false),
        ]
    );
    let compatible = MftReader::new("D").unwrap().with_fast_mode(false);
    assert_eq!(compatible.listing_pattern(), "D:\\");
    let entries = compatible.entries_from_listing(items());
    assert_eq!(entries.len(), 1);
    assert_eq!(entries[0].path, "D:\\pagefile.sys");
    assert!(!entries[0].is_directory);
}

#[test]
fn file_size_from_its_halves() {
    assert_eq!(combined_size(0, 7), 7);
    assert_eq!(combined_size(1, 0), 4294967296);
    assert_eq!(combined_size(u32::MAX, u32::MAX), u64::MAX);
}

#[test]
fn volume_reading_from_a_listing_or_its_failure() {
    let fast = MftReader::new("C").unwrap();
    let entries = fast.read_entries(Ok(vec![listed(".", true, 0), listed("a.txt", false, 3)])).unwrap();
    assert_eq!(entries.len(), 1);
    assert_eq!(entries[0].path, "C:\\a.txt");
    match fast.read_entries(Err("Access is denied".to_string())) {
        Err(MftError::OpenVolume(m)) => assert_eq!(m, "Failed to open C:\\*: Access is denied"),
        other => panic!("unexpected {:?}", other),
    }
    let compatible = MftReader::new("C").unwrap().with_fast_mode(false);
    assert!(compatible.read_entries(Err("gone".to_string())).unwrap().is_empty());
}

#[test]
fn directory_listing_joins_names_to_the_directory() {
    let reader = MftReader::new("C").unwrap();
    let entries = reader
        .read_entries_from_path("/data", Some(vec![listed("..", true, 0), listed("sub", true, 0), listed("f.bin", false, 5)]))
        .unwrap();
    let got: Vec<(String, bool, u64)> = entries.iter().map(|e| (e.path.clone(), e.is_directory, e.size)).collect();
    assert_eq!(got, vec![("/data/sub".to_string(), true, 0), ("/data/f.bin".to_string(), false, 5)]);
    assert!(reader.read_entries_from_path("/data", None).unwrap().is_empty());
}
