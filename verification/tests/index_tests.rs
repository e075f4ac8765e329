use std::time::SystemTime;
use turbo_search::index::{create_walker, FileEntry, FileIndex, IndexOptions, JwalkWalker, WalkdirWalker};
use turbo_search::stored_index::{decode_stored_index, encode_stored_index, is_gzip_format, stored_format_after, StoredFormat};

fn entry(path: &str, name: &str, name_lower: &str, size: u64) -> FileEntry {
    FileEntry {
        path: path.to_string(),
        name: name.to_string(),
        name_lower: name_lower.to_string(),
        size,
        modified: SystemTime::now(),
    }
}

#[test]
fn test_file_index_new() {
    let index = FileIndex::new();
    assert!(index.is_empty());
    assert_eq!(index.len(), 0);
}

#[test]
fn test_file_index_add_entry() {
    let mut index = FileIndex::new();
    let entry = FileEntry {
        path: "/test/file.txt".to_string(),
        name: "file.txt".to_string(),
        name_lower: "file.txt".to_string(),
        size: 100,
        modified: SystemTime::now(),
    };

    index.add_entry(entry);

    assert_eq!(index.len(), 1);
    assert!(!index.is_empty());
}

#[test]
fn test_file_index_entries() {
    let mut index = FileIndex::new();
    let entry1 = FileEntry {
        path: "/test/file1.txt".to_string(),
        name: "file1.txt".to_string(),
        name_lower: "file1.txt".to_string(),
        size: 100,
        modified: SystemTime::now(),
    };
    let entry2 = FileEntry {
        path: "/test/file2.txt".to_string(),
        name: "file2.txt".to_string(),
        name_lower: "file2.txt".to_string(),
        size: 200,
        modified: SystemTime::now(),
    };

    index.add_entry(entry1);
    index.add_entry(entry2);

    let entries = index.entries();
    assert_eq!(entries.len(), 2);
}

#[test]
fn test_file_index_with_root() {
    let index = FileIndex::with_root("/test");

    assert_eq!(index.root_path(), "/test");
}

#[test]
fn test_file_index_len() {
    let mut index = FileIndex::new();
    assert_eq!(index.len(), 0);

    let entry = FileEntry {
        path: "/test/file.txt".to_string(),
        name: "file.txt".to_string(),
        name_lower: "file.txt".to_string(),
        size: 100,
        modified: SystemTime::now(),
    };
    index.add_entry(entry);

    assert_eq!(index.len(), 1);
}

#[test]
fn test_file_entry_name_lower() {
    let entry = FileEntry {
        path: "/test/FILE.txt".to_string(),
        name: "FILE.txt".to_string(),
        name_lower: "file.txt".to_string(),
        size: 100,
        modified: SystemTime::now(),
    };

    assert_eq!(entry.name, "FILE.txt");
    assert_eq!(entry.name_lower, "file.txt");
}

#[test]
fn find_by_name_is_case_insensitive_and_exact() {
    let mut index = FileIndex::new();
    index.add_entry(entry("/a/Readme.md", "Readme.md", "readme.md", 1));
    index.add_entry(entry("/b/readme.md", "readme.md", "readme.md", 2));
    index.add_entry(entry("/c/readme.md.bak", "readme.md.bak", "readme.md.bak", 3));
    let found = index.find_by_name("README.MD");
    let sizes: Vec<u64> = found.iter().map(|e| e.size).collect();
    assert_eq!(sizes, vec![1, 2]);
    assert!(index.find_by_name("missing").is_empty());
}

#[test]
fn find_by_name_prefix_lists_matching_names() {
    let mut index = FileIndex::new();
    index.add_entry(entry("/a/report1.txt", "Report1.txt", "report1.txt", 1));
    index.add_entry(entry("/a/notes.txt", "notes.txt", "notes.txt", 2));
    index.add_entry(entry("/a/report2.txt", "report2.txt", "report2.txt", 3));
    let mut sizes: Vec<u64> = index.find_by_name_prefix("REPORT").iter().map(|e| e.size).collect();
    sizes.sort();
    assert_eq!(sizes, vec![1, 3]);
}

#[test]
fn remove_entry_moves_last_into_place_and_lookups_stay_right() {
    let mut index = FileIndex::new();
    index.add_entry(entry("/x/a.txt", "a.txt", "a.txt", 1));
    index.add_entry(entry("/x/b.txt", "b.txt", "b.txt", 2));
    index.add_entry(entry("/x/c.txt", "c.txt", "c.txt", 3));
    assert!(index.remove_entry("/x/a.txt"));
    assert!(!index.remove_entry("/x/a.txt"));
    let sizes: Vec<u64> = index.entries().iter().map(|e| e.size).collect();
    assert_eq!(sizes, vec![3, 2]);
    let c = index.find_by_name("c.txt");
    assert_eq!(c.len(), 1);
    assert_eq!(c[0].size, 3);
    assert!(index.find_by_name("a.txt").is_empty());
}

#[test]
fn batch_add_then_lookup() {
    let mut index = FileIndex::with_root("/r");
    index.add_entries_batch(vec![
        entry("/r/x.rs", "x.rs", "x.rs", 1),
        entry("/r/y.rs", "y.rs", "y.rs", 2),
        entry("/r/sub/x.rs", "x.rs", "x.rs", 3),
    ]);
    assert_eq!(index.len(), 3);
    let sizes: Vec<u64> = index.find_by_name("X.RS").iter().map(|e| e.size).collect();
    assert_eq!(sizes, vec![1, 3]);
}

#[test]
fn walked_entries_are_limited() {
    let mut index = FileIndex::new();
    let found: Vec<FileEntry> = (0..15).map(|i| {
        let name = format!("file{}.txt", i);
        entry(&format!("/t/{}", name), &name, &name, i)
    }).collect();
    let count = index.add_walked_limited(found, 10);
    assert_eq!(count, 10);
    assert_eq!(index.len(), 10);
}

#[test]
fn entry_from_metadata_names_the_final_component() {
    let t = SystemTime::UNIX_EPOCH;
    let e = FileEntry::from_metadata("/home/u/Docs/Report.PDF".to_string(), 42, t).unwrap();
    assert_eq!(e.name, "Report.PDF");
    assert_eq!(e.name_lower, "report.pdf");
    assert_eq!(e.path, "/home/u/Docs/Report.PDF");
    assert_eq!(e.size, 42);
    assert_eq!(e.modified, t);
    assert!(FileEntry::from_metadata("/".to_string(), 0, t).is_none());
    assert!(FileEntry::from_metadata("/a/..".to_string(), 0, t).is_none());
}

#[test]
fn cloned_index_answers_the_same() {
    let mut index = FileIndex::with_root("/r");
    index.add_entry(entry("/r/q.txt", "Q.txt", "q.txt", 7));
    let mut copy = index.clone();
    assert_eq!(copy.len(), 1);
    assert_eq!(copy.root_path(), "/r");
    assert_eq!(copy.find_by_name("q.txt")[0].size, 7);
}

#[test]
fn stored_index_rebuilds_its_table_on_lookup() {
    let t = SystemTime::UNIX_EPOCH;
    let mut index = FileIndex::from_stored(
        "/s".to_string(),
        t,
        vec![entry("/s/a", "A", "a", 1), entry("/s/b", "B", "b", 2)],
    );
    assert_eq!(index.len(), 2);
    assert_eq!(index.find_by_name("b")[0].size, 2);
}

#[test]
fn walkers_carry_their_options() {
    let w = WalkdirWalker::new(IndexOptions { skip_hidden: false, skip_system: true, max_depth: Some(3) });
    assert!(!w.skip_hidden());
    assert!(JwalkWalker::new(true).skip_hidden());
    assert!(create_walker(true).skip_hidden());
    let d = IndexOptions::default();
    assert!(d.skip_hidden);
    assert!(d.skip_system);
    assert!(d.max_depth.is_none());
}

#[test]
fn loaded_entries_are_moved_under_the_root_when_outside_it() {
    let t = SystemTime::UNIX_EPOCH;
    let mut index = FileIndex::from_stored(
        "/data".to_string(),
        t,
        vec![entry("/data/In.txt", "In.txt", "", 1), entry("/elsewhere/Out.txt", "Out.txt", "", 2), entry("/x/Unk.txt", "Unk.txt", "", 3)],
    );
    let canonical = vec![Some("/DATA/In.txt".to_string()), Some("/elsewhere/Out.txt".to_string()), None];
    index.fix_loaded_entries("/data", &canonical);
    let e = index.entries();
    assert_eq!(e[0].path, "/data/In.txt");
    assert_eq!(e[0].name_lower, "in.txt");
    assert_eq!(e[1].path, "/data/Out.txt");
    assert_eq!(e[2].path, "/x/Unk.txt");
    assert_eq!(e[2].name_lower, "unk.txt");
}

#[test]
fn stored_index_finds_older_entries_after_an_addition() {
    let stored = vec![entry("/s/old.txt", "Old.txt", "old.txt", 1)];
    let mut index = FileIndex::from_stored("/s".to_string(), SystemTime::now(), stored);
    index.add_entry(entry("/s/new.txt", "new.txt", "new.txt", 2));
    let old: Vec<u64> = index.find_by_name("OLD.TXT").iter().map(|e| e.size).collect();
    assert_eq!(old, vec![1]);
    let new: Vec<u64> = index.find_by_name("new.txt").iter().map(|e| e.size).collect();
    assert_eq!(new, vec![2]);
}

#[test]
fn walked_and_edited_entries_are_found_by_name() {
    let mut index = FileIndex::new();
    index.add_entry(entry("/w/a.txt", "a.txt", "a.txt", 1));
    index.append_walked(vec![entry("/w/b.txt", "b.txt", "b.txt", 2)]);
    assert_eq!(index.find_by_name("b.txt").len(), 1);
    index.entries_mut()[0].name_lower = "z.txt".to_string();
    assert!(index.find_by_name("a.txt").is_empty());
    assert_eq!(index.find_by_name("z.txt").len(), 1);
}

#[test]
fn stored_index_bytes_round_trip_through_gzip() {
    let encoded = b"serialized index bytes, repeated, repeated, repeated".to_vec();
    for fast in [true, false] {
        let raw = encode_stored_index(&encoded, fast).unwrap();
        assert_eq!(&raw[..2], &[0x1f, 0x8b]);
        assert_ne!(raw, encoded);
        assert_eq!(decode_stored_index(&raw).unwrap(), encoded);
    }
    assert!(decode_stored_index(b"{\"plain\": \"json\"}").is_none());
}

#[test]
fn stored_formats_are_tried_in_order() {
    assert_eq!(stored_format_after(None), Some(StoredFormat::GzipBincode));
    assert_eq!(stored_format_after(Some(StoredFormat::GzipBincode)), Some(StoredFormat::GzipJson));
    assert_eq!(stored_format_after(Some(StoredFormat::GzipJson)), Some(StoredFormat::PlainJson));
    assert_eq!(stored_format_after(Some(StoredFormat::PlainJson)), None);
    assert!(is_gzip_format(StoredFormat::GzipBincode));
    assert!(is_gzip_format(StoredFormat::GzipJson));
    assert!(!is_gzip_format(StoredFormat::PlainJson));
}
