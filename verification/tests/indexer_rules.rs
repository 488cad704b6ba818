use oxi_search::indexer::build_dir_record;
use oxi_search::indexer::build_file_record;
use oxi_search::indexer::collect_default_paths;
use oxi_search::indexer::flush_batch;
use oxi_search::indexer::get_default_exclude_patterns;
use oxi_search::indexer::is_windows_drive;
use oxi_search::indexer::mft_extension_of;
use oxi_search::indexer::mount_point_included;
use oxi_search::indexer::progress_event;
use oxi_search::indexer::should_exclude;
use oxi_search::indexer::walker_extension_of;
use oxi_search::store::Database;
use oxi_search::strings::str_contains;
use oxi_search::strings::str_lex_leq;
use oxi_search::strings::str_starts_with;
use oxi_search::types::FileRecord;

#[test]
fn walker_extension_rules() {
    assert_eq!(walker_extension_of("archive.tar.gz").as_deref(), Some(".gz"));
    assert_eq!(walker_extension_of("notes.txt").as_deref(), Some(".txt"));
    assert_eq!(walker_extension_of("README").as_deref(), None);
    assert_eq!(walker_extension_of(".bashrc").as_deref(), None);
    assert_eq!(walker_extension_of("trailing.").as_deref(), Some("."));
}

#[test]
fn mft_extension_rules() {
    assert_eq!(mft_extension_of("archive.tar.gz").as_deref(), Some(".gz"));
    assert_eq!(mft_extension_of("notes.txt").as_deref(), Some(".txt"));
    assert_eq!(mft_extension_of("README").as_deref(), None);
    assert_eq!(mft_extension_of(".bashrc").as_deref(), Some(".bashrc"));
}

#[test]
fn built_records_have_the_promised_shape() {
    let d = build_dir_record("/x/sub", "sub");
    assert!(d.is_dir);
    assert!(d.extension.is_none());
    assert!(d.file_size.is_none());
    assert_eq!(d.path, "/x/sub");
    assert_eq!(d.name, "sub");
    assert!(!d.modified_time.is_empty());
    assert!(!d.last_indexed.is_empty());

    let f = build_file_record("/x/a.rs", "a.rs", 42, "2024-03-03T00:00:00+00:00".to_string());
    assert!(!f.is_dir);
    assert_eq!(f.extension.as_deref(), Some(".rs"));
    assert_eq!(f.file_size, Some(42));
    assert_eq!(f.modified_time, "2024-03-03T00:00:00+00:00");
    assert!(!f.last_indexed.is_empty());
}

#[test]
fn exclusion_is_substring_based() {
    let patterns: Vec<String> = vec!["node_modules".to_string(), ".git".to_string()];
    assert!(should_exclude("/root/node_modules/pkg/x.js", &patterns));
    assert!(should_exclude("/root/.git/config", &patterns));
    assert!(!should_exclude("/root/src/main.rs", &patterns));
    assert!(!should_exclude("/root/src/main.rs", &Vec::new()));
}

#[test]
fn excluded_entries_never_reach_the_store() {
    // a simulated walk over a tree with an excluded directory
    let patterns: Vec<String> = vec!["node_modules".to_string()];
    let entries = [
        ("/root/src/lib.rs", "lib.rs", false),
        ("/root/node_modules/pkg/x.js", "x.js", false),
        ("/root/node_modules/pkg", "pkg", true),
        ("/root/readme.md", "readme.md", false),
    ];
    let mut store = Database::new(":memory:").unwrap();
    let mut batch: Vec<FileRecord> = Vec::new();
    for (path, name, dir) in entries {
        if should_exclude(path, &patterns) {
            continue;
        }
        if dir {
            batch.push(build_dir_record(path, name));
        } else {
            batch.push(build_file_record(path, name, 1, "2024-01-01T00:00:00+00:00".to_string()));
        }
    }
    let landed = flush_batch(&mut store, &mut batch);
    assert_eq!(landed, 2);
    assert!(batch.is_empty());
    assert_eq!(store.get_file_count().unwrap(), 2);
    assert!(store.search_files("x.js", None, None, None, 10).unwrap().is_empty());
    assert!(store.search_files("pkg", None, None, None, 10).unwrap().is_empty());
    let rows = store.search_files("lib", None, None, None, 10).unwrap();
    assert_eq!(rows.len(), 1);
    assert!(!rows[0].path.contains("node_modules"));
}

#[test]
fn drive_root_shape() {
    assert!(is_windows_drive("C:\\"));
    assert!(is_windows_drive("c:\\"));
    assert!(!is_windows_drive("C:/"));
    assert!(!is_windows_drive("C:"));
    assert!(!is_windows_drive("CD:\\"));
    assert!(!is_windows_drive("/home"));
    assert!(!is_windows_drive("1:\\"));
}

#[test]
fn default_exclude_patterns_are_the_seven() {
    let p = get_default_exclude_patterns();
    let expected = [".git", "node_modules", "target", ".DS_Store", "__pycache__", ".venv", "venv"];
    assert_eq!(p.len(), expected.len());
    for (got, want) in p.iter().zip(expected.iter()) {
        assert_eq!(got, want);
    }
}

#[test]
fn mount_point_rules() {
    assert!(!mount_point_included("/"));
    assert!(!mount_point_included("/boot"));
    assert!(!mount_point_included("/boot/efi"));
    assert!(!mount_point_included("/dev/shm"));
    assert!(!mount_point_included("/proc"));
    assert!(!mount_point_included("/sys/kernel"));
    assert!(!mount_point_included("/run/user/1000"));
    assert!(!mount_point_included("/tmp"));
    assert!(!mount_point_included("/var/lib/docker"));
    assert!(!mount_point_included("/home/u/snap/firefox"));
    assert!(mount_point_included("/mnt/data"));
    assert!(mount_point_included("/home"));
    assert!(mount_point_included("/var/log"));
}

#[test]
fn default_paths_are_home_then_deduplicated_mounts() {
    let mounts: Vec<String> = vec![
        "/".to_string(),
        "/mnt/data".to_string(),
        "/boot/efi".to_string(),
        "/mnt/data".to_string(),
        "/srv".to_string(),
    ];
    let paths = collect_default_paths(Some("/home/user".to_string()), &mounts);
    assert_eq!(paths, vec!["/home/user", "/mnt/data", "/srv"]);

    let paths = collect_default_paths(None, &mounts);
    assert_eq!(paths, vec!["/mnt/data", "/srv"]);
}

#[test]
fn progress_event_shape() {
    let p = progress_event("/some/path", 7);
    assert_eq!(p.current_path, "/some/path");
    assert_eq!(p.files_processed, 7);
    assert!(p.total_files.is_none());
    assert_eq!(p.status, "indexing");
}

#[test]
fn string_helpers() {
    assert!(str_contains("hello world", "lo wo"));
    assert!(str_contains("hello", ""));
    assert!(!str_contains("hello", "worlds"));
    assert!(!str_contains("ab", "abc"));
    assert!(str_starts_with("/var/lib/x", "/var/lib"));
    assert!(!str_starts_with("/var", "/var/lib"));
    assert!(str_lex_leq("alpha", "beta"));
    assert!(str_lex_leq("abc", "abcd"));
    assert!(!str_lex_leq("abd", "abc"));
    assert!(str_lex_leq("same", "same"));
    assert!(str_lex_leq("", "anything"));
}
