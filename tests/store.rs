use omniosearch::db::{Database, StoreError};
use omniosearch::indexer::{
    create_file_entry, handle_file_event, process_file_batch, record_id_for, FileEvent, FileFacts,
};
use omniosearch::policy::IndexingPolicy;
use omniosearch::record::FileRecord;

fn facts(path: &str, size: u64, modified: i64) -> FileFacts {
    FileFacts {
        path: path.to_string(),
        size,
        modified,
        created: modified,
        is_directory: false,
        mode: 0o644,
        checksum: Some("abc".to_string()),
    }
}

fn record(id: &str, path: &str) -> FileRecord {
    create_file_entry(&facts(path, 10, 100), id.to_string(), 200)
}

fn open_policy() -> IndexingPolicy {
    IndexingPolicy {
        excluded_paths: vec![],
        excluded_extensions: vec![],
        included_extensions: vec![],
        max_file_size_mb: 100,
        include_hidden: false,
    }
}

#[test]
fn record_fields_from_facts() {
    let r = create_file_entry(&facts("/data/report.pdf", 2048, 100), "id-1".to_string(), 200);
    assert_eq!(r.id, "id-1");
    assert_eq!(r.name, "report.pdf");
    assert_eq!(r.file_type, "pdf");
    assert_eq!(r.mime_type, "application/pdf");
    assert_eq!(r.permissions, "644");
    assert_eq!(r.indexed_at, 200);
    assert!(!r.content_extracted);
    let u = create_file_entry(&facts("/data/Makefile", 1, 1), "id-2".to_string(), 1);
    assert_eq!(u.file_type, "unknown");
    assert_eq!(u.mime_type, "application/octet-stream");
}

#[test]
fn fresh_ids_are_hyphenated_uuids() {
    let db = Database::new();
    let a = record_id_for(&db, "/x");
    let b = record_id_for(&db, "/x");
    assert_eq!(a.len(), 36);
    assert_ne!(a, b);
}

#[test]
fn known_path_keeps_its_id() {
    let mut db = Database::new();
    db.insert_file(&record("id-7", "/a/b.txt"));
    assert_eq!(record_id_for(&db, "/a/b.txt"), "id-7");
}

#[test]
fn upsert_round_trip() {
    let mut db = Database::new();
    let r = record("id-1", "/a/one.txt");
    db.insert_file(&r);
    let by_path = db.get_file_by_path("/a/one.txt").unwrap();
    let by_id = db.get_file_by_id(&by_path.id).unwrap();
    assert_eq!(by_path.path, r.path);
    assert_eq!(by_id.path, r.path);
    assert_eq!(by_id.name, r.name);
    assert_eq!(by_id.size, r.size);
    assert_eq!(by_id.checksum, r.checksum);
    assert_eq!(by_id.permissions, r.permissions);
}

#[test]
fn upsert_twice_is_unchanged() {
    let mut db = Database::new();
    db.insert_file(&record("id-1", "/a/one.txt"));
    db.insert_file(&record("id-2", "/a/two.txt"));
    db.commit();
    let before = db.fts_search("", 10);
    let before_ids = db.search_ids("", 10);
    db.insert_file(&record("id-1", "/a/one.txt"));
    db.commit();
    let after = db.fts_search("", 10);
    assert_eq!(before.len(), after.len());
    for (x, y) in before.iter().zip(after.iter()) {
        assert_eq!(x.id, y.id);
        assert_eq!(x.path, y.path);
    }
    assert_eq!(before_ids, db.search_ids("", 10));
    assert_eq!(db.get_indexing_status(0, 0).total_files, 2);
}

#[test]
fn upsert_replaces_by_path() {
    let mut db = Database::new();
    db.insert_file(&record("id-1", "/a/one.txt"));
    let mut changed = record("id-1", "/a/one.txt");
    changed.size = 99;
    db.insert_file(&changed);
    assert_eq!(db.get_file_by_path("/a/one.txt").unwrap().size, 99);
    assert_eq!(db.get_indexing_status(0, 0).total_files, 1);
}

#[test]
fn upsert_drops_other_record_with_same_id() {
    let mut db = Database::new();
    db.insert_file(&record("id-1", "/a/one.txt"));
    db.insert_file(&record("id-1", "/a/two.txt"));
    assert!(db.get_file_by_path("/a/one.txt").is_none());
    assert_eq!(db.get_file_by_id("id-1").unwrap().path, "/a/two.txt");
}

#[test]
fn missing_id_is_not_found() {
    let db = Database::new();
    assert_eq!(db.get_file_by_id("nope").unwrap_err(), StoreError::NotFound);
    assert!(db.get_file_by_path("/nope").is_none());
}

#[test]
fn delete_forgets_path_and_document() {
    let mut db = Database::new();
    db.insert_file(&record("id-1", "/a/report.pdf"));
    db.commit();
    assert_eq!(db.search_ids("report", 10), vec!["id-1".to_string()]);
    db.delete_file("/a/report.pdf");
    db.commit();
    assert!(db.get_file_by_path("/a/report.pdf").is_none());
    assert!(db.search_ids("report", 10).is_empty());
    assert!(db.tantivy_search("report", 10).is_empty());
    db.delete_file("/a/absent");
}

#[test]
fn writes_visible_after_commit() {
    let mut db = Database::new();
    db.insert_file(&record("id-1", "/a/report.pdf"));
    assert!(db.search_ids("report", 10).is_empty());
    db.commit();
    assert_eq!(db.search_ids("REPORT", 10).len(), 1);
}

#[test]
fn content_is_searchable_and_flagged() {
    let mut db = Database::new();
    db.insert_file(&record("id-1", "/a/notes.txt"));
    db.add_file_content("id-1", "quarterly budget figures");
    db.commit();
    let hits = db.tantivy_search("budget", 5);
    assert_eq!(hits.len(), 1);
    assert!(hits[0].content_extracted);
    let status = db.get_indexing_status(0, 4096);
    assert_eq!(status.indexed_files, 1);
    assert_eq!(status.pending_files, 0);
    assert_eq!(status.index_size_bytes, 4096);
    db.add_file_content("unknown-id", "x");
    assert_eq!(db.get_indexing_status(0, 0).total_files, 1);
}

#[test]
fn shadow_search_ignores_case_and_limits() {
    let mut db = Database::new();
    db.insert_file(&record("id-1", "/a/Report-1.pdf"));
    db.insert_file(&record("id-2", "/a/report-2.pdf"));
    db.insert_file(&record("id-3", "/a/notes.txt"));
    let all = db.fts_search("REPORT", 10);
    assert_eq!(all.len(), 2);
    assert_eq!(all[0].id, "id-1");
    assert_eq!(db.fts_search("report", 1).len(), 1);
    assert_eq!(db.fts_search("report", 0).len(), 0);
}

#[test]
fn status_counts_failed_and_pending() {
    let mut db = Database::new();
    let mut a = record("id-1", "/a/one.txt");
    a.checksum = None;
    a.indexed_at = 50;
    db.insert_file(&a);
    let mut b = record("id-2", "/a/two.txt");
    b.indexed_at = 70;
    db.insert_file(&b);
    let s = db.get_indexing_status(0, 0);
    assert_eq!(s.total_files, 2);
    assert_eq!(s.failed_files, 1);
    assert_eq!(s.pending_files, 1);
    assert_eq!(s.indexed_files, 0);
    assert_eq!(s.last_update, 70);
}

#[test]
fn batch_writes_every_candidate() {
    let mut db = Database::new();
    let batch = vec![facts("/d/a.txt", 1, 1), facts("/d/b.txt", 2, 2)];
    let written = process_file_batch(&mut db, &batch, 9);
    assert_eq!(written.len(), 2);
    assert!(db.get_file_by_path("/d/a.txt").is_some());
    assert_eq!(db.get_file_by_path("/d/b.txt").unwrap().size, 2);
}

#[test]
fn watcher_remove_event_deletes() {
    let mut db = Database::new();
    let batch = vec![facts("/d/report.pdf", 2 * 1024 * 1024, 1), facts("/d/notes.txt", 1024, 1)];
    process_file_batch(&mut db, &batch, 1);
    handle_file_event(&mut db, &open_policy(), FileEvent::Removed(vec!["/d/report.pdf".to_string()]), 2);
    assert!(db.get_file_by_path("/d/report.pdf").is_none());
    assert!(db.get_file_by_path("/d/notes.txt").is_some());
}

#[test]
fn watcher_change_event_upserts_admitted_files() {
    let mut db = Database::new();
    let mut policy = open_policy();
    policy.excluded_extensions = vec!["LOG".to_string()];
    let written = handle_file_event(
        &mut db,
        &policy,
        FileEvent::Changed(vec![facts("/d/new.txt", 5, 1), facts("/d/app.log", 5, 1)]),
        3,
    );
    assert_eq!(written.len(), 1);
    assert!(db.get_file_by_path("/d/new.txt").is_some());
    assert!(db.get_file_by_path("/d/app.log").is_none());
    let none = handle_file_event(&mut db, &policy, FileEvent::Other, 4);
    assert!(none.is_empty());
}

#[test]
fn name_hits_rank_before_path_hits() {
    let mut db = Database::new();
    db.insert_file(&record("id-1", "/report/a.txt"));
    db.insert_file(&record("id-2", "/x/report.pdf"));
    let hits = db.fts_search("report", 10);
    assert_eq!(hits.len(), 2);
    assert_eq!(hits[0].id, "id-2");
    assert_eq!(hits[1].id, "id-1");
    assert_eq!(db.fts_search("report", 1)[0].id, "id-2");
}

#[test]
fn new_paths_get_distinct_ids() {
    let mut db = Database::new();
    let batch = vec![facts("/d/a.txt", 1, 1), facts("/d/b.txt", 2, 2), facts("/d/c.txt", 3, 3)];
    let written = process_file_batch(&mut db, &batch, 9);
    assert_eq!(db.get_indexing_status(0, 0).total_files, 3);
    let again = process_file_batch(&mut db, &batch, 10);
    for (a, b) in written.iter().zip(again.iter()) {
        assert_eq!(a.id, b.id);
    }
    assert_eq!(db.get_indexing_status(0, 0).total_files, 3);
}

#[test]
fn taken_seed_id_is_replaced() {
    let mut db = Database::new();
    db.insert_file(&record("id-1", "/a/one.txt"));
    assert_eq!(db.unused_id("id-9".to_string()), "id-9");
    let fresh = db.unused_id("id-1".to_string());
    assert_ne!(fresh, "id-1");
    assert!(db.get_file_by_id(&fresh).is_err());
}

#[test]
fn remove_event_keeps_other_records_and_drops_documents() {
    let mut db = Database::new();
    let batch = vec![facts("/d/report.pdf", 5, 1), facts("/d/notes.txt", 5, 1)];
    process_file_batch(&mut db, &batch, 1);
    db.commit();
    handle_file_event(&mut db, &open_policy(), FileEvent::Removed(vec!["/d/report.pdf".to_string()]), 2);
    db.commit();
    assert!(db.search_ids("report", 10).is_empty());
    assert_eq!(db.search_ids("notes", 10).len(), 1);
    assert_eq!(db.get_indexing_status(0, 0).total_files, 1);
}

#[test]
fn full_text_ranks_name_then_path_then_text() {
    let mut db = Database::new();
    db.insert_file(&record("id-1", "/a/notes.txt"));
    db.add_file_content("id-1", "budget for next year");
    db.insert_file(&record("id-2", "/budget/plan.txt"));
    db.insert_file(&record("id-3", "/a/budget.xls"));
    db.commit();
    assert_eq!(db.search_ids("budget", 10), vec!["id-3".to_string(), "id-2".to_string(), "id-1".to_string()]);
    assert_eq!(db.search_ids("budget", 2), vec!["id-3".to_string(), "id-2".to_string()]);
}
