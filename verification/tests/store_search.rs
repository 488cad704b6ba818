use oxi_search::search::search_files;
use oxi_search::store::Database;
use oxi_search::store::get_indexing_status;
use oxi_search::types::FileRecord;
use oxi_search::types::SearchFilters;

fn file_record(path: &str, name: &str, ext: Option<&str>, size: i64) -> FileRecord {
    FileRecord {
        path: path.to_string(),
        name: name.to_string(),
        extension: ext.map(|e| e.to_string()),
        file_size: Some(size),
        is_dir: false,
        modified_time: "2024-01-02T03:04:05+00:00".to_string(),
        last_indexed: "2024-01-02T03:04:06+00:00".to_string(),
    }
}

fn dir_record(path: &str, name: &str) -> FileRecord {
    FileRecord {
        path: path.to_string(),
        name: name.to_string(),
        extension: None,
        file_size: None,
        is_dir: true,
        modified_time: "2024-01-02T03:04:05+00:00".to_string(),
        last_indexed: "2024-01-02T03:04:06+00:00".to_string(),
    }
}

fn no_filters() -> SearchFilters {
    SearchFilters {
        extensions: None,
        min_size: None,
        max_size: None,
        min_date: None,
        max_date: None,
    }
}

#[test]
fn fixture_root_search_by_name() {
    let mut store = Database::new(":memory:").unwrap();
    store
        .upsert_file(&file_record("/tmp/fixture/a/foo.txt", "foo.txt", Some(".txt"), 10))
        .unwrap();
    store
        .upsert_file(&file_record("/tmp/fixture/a/bar.md", "bar.md", Some(".md"), 20))
        .unwrap();
    store.upsert_file(&dir_record("/tmp/fixture/a/sub", "sub")).unwrap();

    let res = search_files(&store, "foo".to_string(), no_filters(), 1, 50).unwrap();
    assert_eq!(res.total, 1);
    assert_eq!(res.results.len(), 1);
    let hit = &res.results[0];
    assert_eq!(hit.name, "foo.txt");
    assert_eq!(hit.extension.as_deref(), Some(".txt"));
    assert_eq!(hit.file_size, Some(10));
    assert!(!hit.is_dir);
    assert_eq!(hit.path, "/tmp/fixture/a/foo.txt");
    assert_eq!(hit.modified_time, "2024-01-02T03:04:05+00:00");

    // the directory row carries neither an extension nor a size
    let res = search_files(&store, "sub".to_string(), no_filters(), 1, 50).unwrap();
    assert_eq!(res.total, 1);
    assert!(res.results[0].is_dir);
    assert!(res.results[0].extension.is_none());
    assert!(res.results[0].file_size.is_none());
}

#[test]
fn empty_query_returns_empty_without_store() {
    let store = Database::new(":memory:").unwrap();
    let res = search_files(&store, String::new(), no_filters(), 3, 25).unwrap();
    assert_eq!(res.total, 0);
    assert!(res.results.is_empty());
    assert_eq!(res.page, 3);
    assert_eq!(res.limit, 25);
    assert_eq!(res.query, "");
}

#[test]
fn ordering_directories_first_names_ascending() {
    let mut store = Database::new(":memory:").unwrap();
    store.upsert_file(&file_record("/p/zeta.txt", "zeta.txt", Some(".txt"), 1)).unwrap();
    store.upsert_file(&dir_record("/p/beta", "beta")).unwrap();
    store.upsert_file(&file_record("/p/alpha.txt", "alpha.txt", Some(".txt"), 2)).unwrap();
    store.upsert_file(&dir_record("/p/alpha", "alpha")).unwrap();

    let rows = store.search_files("a", None, None, None, 100).unwrap();
    // every name here contains "a"; directories come first
    assert_eq!(rows.len(), 4);
    assert!(rows[0].is_dir && rows[1].is_dir);
    assert_eq!(rows[0].name, "alpha");
    assert_eq!(rows[1].name, "beta");
    assert_eq!(rows[2].name, "alpha.txt");
    assert_eq!(rows[3].name, "zeta.txt");
}

#[test]
fn limit_caps_results() {
    let mut store = Database::new(":memory:").unwrap();
    for i in 0..10 {
        let path = format!("/p/file{}.txt", i);
        let name = format!("file{}.txt", i);
        store.upsert_file(&file_record(&path, &name, Some(".txt"), i)).unwrap();
    }
    let rows = store.search_files("file", None, None, None, 4).unwrap();
    assert_eq!(rows.len(), 4);
    let res = search_files(&store, "file".to_string(), no_filters(), 1, 4).unwrap();
    assert_eq!(res.total, 4);
}

#[test]
fn completeness_under_large_limit() {
    let mut store = Database::new(":memory:").unwrap();
    for i in 0..30 {
        let path = format!("/p/doc{}.txt", i);
        let name = format!("doc{}.txt", i);
        store.upsert_file(&file_record(&path, &name, Some(".txt"), i)).unwrap();
    }
    store.upsert_file(&file_record("/p/other.md", "other.md", Some(".md"), 5)).unwrap();
    let rows = store.search_files("doc", None, None, None, 10_000).unwrap();
    assert_eq!(rows.len(), 30);
    for i in 0..30 {
        let name = format!("doc{}.txt", i);
        assert!(rows.iter().any(|r| r.name == name));
    }
}

#[test]
fn roundtrip_inserted_record_comes_back_identical() {
    let mut store = Database::new(":memory:").unwrap();
    let rec = file_record("/data/report-final.pdf", "report-final.pdf", Some(".pdf"), 123456);
    store.upsert_file(&rec).unwrap();
    let rows = store.search_files("t-fin", None, None, None, 10).unwrap();
    assert_eq!(rows.len(), 1);
    assert_eq!(rows[0].path, rec.path);
    assert_eq!(rows[0].name, rec.name);
    assert_eq!(rows[0].extension, rec.extension);
    assert_eq!(rows[0].file_size, rec.file_size);
    assert_eq!(rows[0].is_dir, rec.is_dir);
    assert_eq!(rows[0].modified_time, rec.modified_time);
    assert_eq!(rows[0].last_indexed, rec.last_indexed);
}

#[test]
fn upsert_twice_keeps_one_row_with_new_size() {
    let mut store = Database::new(":memory:").unwrap();
    store.upsert_file(&file_record("/data/a.bin", "a.bin", Some(".bin"), 100)).unwrap();
    store.upsert_file(&file_record("/data/a.bin", "a.bin", Some(".bin"), 999)).unwrap();
    assert_eq!(store.get_file_count().unwrap(), 1);
    let rows = store.search_files("a.bin", None, None, None, 10).unwrap();
    assert_eq!(rows.len(), 1);
    assert_eq!(rows[0].file_size, Some(999));
}

#[test]
fn reindex_same_paths_is_idempotent() {
    let mut store = Database::new(":memory:").unwrap();
    let batch: Vec<FileRecord> = (0..50)
        .map(|i| {
            let path = format!("/tree/f{}.rs", i);
            let name = format!("f{}.rs", i);
            file_record(&path, &name, Some(".rs"), i)
        })
        .collect();
    store.upsert_batch(&batch).unwrap();
    let count_first = store.get_file_count().unwrap();
    let mut first_paths: Vec<String> = store
        .search_files("f", None, None, None, 1000)
        .unwrap()
        .into_iter()
        .map(|r| r.path)
        .collect();
    store.upsert_batch(&batch).unwrap();
    let count_second = store.get_file_count().unwrap();
    let mut second_paths: Vec<String> = store
        .search_files("f", None, None, None, 1000)
        .unwrap()
        .into_iter()
        .map(|r| r.path)
        .collect();
    assert_eq!(count_first, count_second);
    first_paths.sort();
    second_paths.sort();
    assert_eq!(first_paths, second_paths);
}

#[test]
fn extension_and_size_filters() {
    let mut store = Database::new(":memory:").unwrap();
    store.upsert_file(&file_record("/p/app.log", "app.log", Some(".log"), 50)).unwrap();
    store.upsert_file(&file_record("/p/app.txt", "app.txt", Some(".txt"), 50)).unwrap();
    store.upsert_file(&file_record("/p/apple.log", "apple.log", Some(".log"), 500)).unwrap();
    store.upsert_file(&dir_record("/p/appdir", "appdir")).unwrap();

    let rows = store
        .search_files("app", Some(vec![".log".to_string()]), None, None, 100)
        .unwrap();
    assert_eq!(rows.len(), 2);
    assert!(rows.iter().all(|r| r.extension.as_deref() == Some(".log")));

    let rows = store.search_files("app", None, Some(100), None, 100).unwrap();
    // the directory has no size and fails the size filter
    assert_eq!(rows.len(), 1);
    assert_eq!(rows[0].name, "apple.log");

    let rows = store.search_files("app", None, None, Some(100), 100).unwrap();
    assert_eq!(rows.len(), 2);
    assert!(rows.iter().all(|r| !r.is_dir));

    // an empty extension list admits everything
    let rows = store.search_files("app", Some(vec![]), None, None, 100).unwrap();
    assert_eq!(rows.len(), 4);
}

#[test]
fn batch_upsert_lands_every_row() {
    let mut store = Database::new(":memory:").unwrap();
    let empty: Vec<FileRecord> = Vec::new();
    store.upsert_batch(&empty).unwrap();
    assert_eq!(store.get_file_count().unwrap(), 0);

    let batch: Vec<FileRecord> = (0..1000)
        .map(|i| {
            let path = format!("/bulk/n{}.c", i);
            let name = format!("n{}.c", i);
            file_record(&path, &name, Some(".c"), i)
        })
        .collect();
    store.upsert_batch(&batch).unwrap();
    assert_eq!(store.get_file_count().unwrap(), 1000);
}

#[test]
fn ten_thousand_files_count_and_filtered_search() {
    let mut store = Database::new(":memory:").unwrap();
    let mut batch: Vec<FileRecord> = Vec::new();
    for i in 0..9900 {
        let path = format!("/big/f{}.dat", i);
        let name = format!("f{}.dat", i);
        batch.push(file_record(&path, &name, Some(".dat"), i));
    }
    for i in 0..100 {
        let path = format!("/big/a{}.log", i);
        let name = format!("a{}.log", i);
        batch.push(file_record(&path, &name, Some(".log"), i));
    }
    store.upsert_batch(&batch).unwrap();
    assert_eq!(store.get_file_count().unwrap(), 10_000);

    let res = search_files(&store, String::new(), no_filters(), 1, 100).unwrap();
    assert_eq!(res.total, 0);

    let rows = store
        .search_files("a", Some(vec![".log".to_string()]), None, None, 1000)
        .unwrap();
    assert_eq!(rows.len(), 100);
    assert!(rows.iter().all(|r| r.extension.as_deref() == Some(".log")));
}

#[test]
fn delete_file_removes_exactly_one_path() {
    let mut store = Database::new(":memory:").unwrap();
    store.upsert_file(&file_record("/p/x.txt", "x.txt", Some(".txt"), 1)).unwrap();
    store.upsert_file(&file_record("/p/y.txt", "y.txt", Some(".txt"), 2)).unwrap();
    store.delete_file("/p/x.txt").unwrap();
    assert_eq!(store.get_file_count().unwrap(), 1);
    let rows = store.search_files("x.txt", None, None, None, 10).unwrap();
    assert!(rows.is_empty());
}

#[test]
fn stale_entries_removed_by_cutoff() {
    let mut store = Database::new(":memory:").unwrap();
    let mut old_rec = file_record("/p/old.txt", "old.txt", Some(".txt"), 1);
    old_rec.last_indexed = "2000-01-01T00:00:00+00:00".to_string();
    let mut new_rec = file_record("/p/new.txt", "new.txt", Some(".txt"), 2);
    new_rec.last_indexed = "2100-01-01T00:00:00+00:00".to_string();
    store.upsert_file(&old_rec).unwrap();
    store.upsert_file(&new_rec).unwrap();
    let removed = store.delete_entries_older_than("2050-01-01T00:00:00+00:00").unwrap();
    assert_eq!(removed, 1);
    assert_eq!(store.get_file_count().unwrap(), 1);
    let rows = store.search_files("new", None, None, None, 10).unwrap();
    assert_eq!(rows.len(), 1);

    // recent entries survive a stale sweep against the clock
    let removed = store.delete_stale_entries(24).unwrap();
    assert_eq!(removed, 0);
    assert_eq!(store.get_file_count().unwrap(), 1);
}

#[test]
fn status_reports_count_and_last_indexed() {
    let mut store = Database::new(":memory:").unwrap();
    let st = get_indexing_status(&store).unwrap();
    assert!(!st.is_indexing);
    assert_eq!(st.total_files, 0);
    assert!(st.last_indexed.is_none());

    let mut a = file_record("/p/a.txt", "a.txt", Some(".txt"), 1);
    a.last_indexed = "2024-05-05T00:00:00+00:00".to_string();
    let mut b = file_record("/p/b.txt", "b.txt", Some(".txt"), 2);
    b.last_indexed = "2024-06-06T00:00:00+00:00".to_string();
    store.upsert_file(&a).unwrap();
    store.upsert_file(&b).unwrap();
    let st = get_indexing_status(&store).unwrap();
    assert_eq!(st.total_files, 2);
    assert_eq!(st.last_indexed.as_deref(), Some("2024-06-06T00:00:00+00:00"));
    assert!(st.database_size > 0);
}

#[test]
fn vacuum_keeps_rows() {
    let mut store = Database::new(":memory:").unwrap();
    store.upsert_file(&file_record("/p/k.txt", "k.txt", Some(".txt"), 7)).unwrap();
    store.vacuum().unwrap();
    assert_eq!(store.get_file_count().unwrap(), 1);
}

#[test]
fn open_fails_on_impossible_path() {
    let r = Database::new("/nonexistent-dir-for-sure/zz/x.db");
    assert!(r.is_err());
    if let Err(e) = r {
        assert!(!e.message().is_empty());
    }
}

#[test]
fn huge_size_wraps_like_signed_storage() {
    let mut store = Database::new(":memory:").unwrap();
    let rec = oxi_search::indexer::build_file_record(
        "/p/huge.bin",
        "huge.bin",
        u64::MAX,
        "2024-01-01T00:00:00+00:00".to_string(),
    );
    assert_eq!(rec.file_size, Some(-1));
    store.upsert_file(&rec).unwrap();
    let res = search_files(&store, "huge".to_string(), no_filters(), 1, 10).unwrap();
    // the facade reinterprets the stored signed count as unsigned
    assert_eq!(res.results[0].file_size, Some(u64::MAX));
}

#[test]
fn search_between_batches_sees_whole_batches_only() {
    // a query between two flushes observes exactly the committed rows
    let mut store = Database::new(":memory:").unwrap();
    let first: Vec<FileRecord> = (0..20)
        .map(|i| {
            let path = format!("/w/one{}.txt", i);
            let name = format!("one{}.txt", i);
            file_record(&path, &name, Some(".txt"), i)
        })
        .collect();
    store.upsert_batch(&first).unwrap();
    let rows = store.search_files("txt", None, None, None, 1000).unwrap();
    assert_eq!(rows.len(), 20);
    assert!(rows.iter().all(|r| r.name.starts_with("one")));

    let second: Vec<FileRecord> = (0..20)
        .map(|i| {
            let path = format!("/w/two{}.txt", i);
            let name = format!("two{}.txt", i);
            file_record(&path, &name, Some(".txt"), i)
        })
        .collect();
    store.upsert_batch(&second).unwrap();
    let rows = store.search_files("txt", None, None, None, 1000).unwrap();
    assert_eq!(rows.len(), 40);
}
