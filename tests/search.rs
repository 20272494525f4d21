use omniosearch::db::Database;
use omniosearch::fuse::deduplicate_and_rank;
use omniosearch::indexer::{process_file_batch, FileFacts};
use omniosearch::search::{
    calculate_content_relevance, calculate_relevance, content_score_from, matches_filters,
    relevance_from, SearchQuery, SearchResult,
};
use omniosearch::sources::{
    content_result, filesystem_result, fuse_sources, get_file_type, search_database,
    should_grep_content, should_scan_filesystem, HitFacts,
};

const NOW: i64 = 1_700_000_000;
const DAY: i64 = 86_400;

fn facts(path: &str, size: u64, modified: i64) -> FileFacts {
    FileFacts {
        path: path.to_string(),
        size,
        modified,
        created: modified,
        is_directory: false,
        mode: 0o644,
        checksum: Some("c".to_string()),
    }
}

fn two_files() -> Database {
    let mut db = Database::new();
    let batch = vec![
        facts("/docs/report.pdf", 2 * 1024 * 1024, NOW - 40 * DAY),
        facts("/docs/notes.txt", 1024, NOW - 40 * DAY),
    ];
    process_file_batch(&mut db, &batch, NOW);
    db.commit();
    db
}

fn result(path: &str, score: u64) -> SearchResult {
    SearchResult {
        path: path.to_string(),
        name: path.to_string(),
        size: 0,
        modified: 0,
        file_type: String::new(),
        mime_type: String::new(),
        relevance_score: score,
        content_matches: vec![],
        is_directory: false,
        permissions: String::new(),
        icon: None,
    }
}

fn hit(path: &str) -> HitFacts {
    HitFacts {
        path: path.to_string(),
        size: 10,
        modified: NOW,
        is_directory: false,
        permissions: "644".to_string(),
    }
}

#[test]
fn text_query_finds_report_only() {
    let db = two_files();
    let q = SearchQuery::from_text("report");
    let rs = search_database(&db, &q, NOW);
    assert_eq!(rs.len(), 1);
    assert_eq!(rs[0].path, "/docs/report.pdf");
    assert_eq!(rs[0].name, "report.pdf");
    assert!(rs[0].relevance_score > 0);
    let fused = fuse_sources(rs, vec![], vec![], vec![], &q);
    assert_eq!(fused.len(), 1);
    assert!(fused.iter().all(|r| r.path != "/docs/notes.txt"));
}

#[test]
fn size_bound_keeps_large_file_only() {
    let db = two_files();
    let mut q = SearchQuery::from_text("");
    q.size_min = Some(1_048_576);
    let rs = search_database(&db, &q, NOW);
    assert_eq!(rs.len(), 1);
    assert_eq!(rs[0].path, "/docs/report.pdf");
}

#[test]
fn every_bound_is_applied() {
    let db = two_files();
    let mut q = SearchQuery::from_text("");
    q.size_max = Some(2048);
    assert_eq!(search_database(&db, &q, NOW).len(), 1);
    let mut q = SearchQuery::from_text("");
    q.modified_after = Some(NOW);
    assert!(search_database(&db, &q, NOW).is_empty());
    let mut q = SearchQuery::from_text("");
    q.modified_before = Some(NOW - 50 * DAY);
    assert!(search_database(&db, &q, NOW).is_empty());
    let mut q = SearchQuery::from_text("");
    q.file_types = vec!["txt".to_string()];
    let rs = search_database(&db, &q, NOW);
    assert_eq!(rs.len(), 1);
    assert_eq!(rs[0].path, "/docs/notes.txt");
    for r in search_database(&db, &SearchQuery::from_text(""), NOW) {
        assert!(r.size > 0);
    }
}

#[test]
fn filters_are_conjunctive() {
    let mut db = Database::new();
    process_file_batch(&mut db, &vec![facts("/x/a.txt", 500, 10)], NOW);
    let entry = db.get_file_by_path("/x/a.txt").unwrap();
    let mut q = SearchQuery::from_text("a");
    q.size_min = Some(100);
    q.size_max = Some(1000);
    assert!(matches_filters(&entry, &q));
    q.modified_after = Some(11);
    assert!(!matches_filters(&entry, &q));
    q.modified_after = None;
    q.file_types = vec!["pdf".to_string(), "txt".to_string()];
    assert!(matches_filters(&entry, &q));
    q.file_types = vec!["pdf".to_string()];
    assert!(!matches_filters(&entry, &q));
}

#[test]
fn relevance_formula_values() {
    assert_eq!(relevance_from(None, false, NOW - 40 * DAY, NOW), 0);
    assert_eq!(relevance_from(Some(50), true, NOW, NOW), 500 + 500 + 200);
    assert_eq!(relevance_from(Some(500), false, NOW - 15 * DAY, NOW), 1000 + 100);
    assert_eq!(relevance_from(Some(-4), false, NOW + DAY, NOW), 200);
}

#[test]
fn relevance_uses_name_ignoring_case() {
    let upper = calculate_relevance("/docs/REPORT.PDF", "report", NOW - 40 * DAY, NOW);
    assert!(upper >= 500);
    let miss = calculate_relevance("/docs/notes.txt", "report", NOW - 40 * DAY, NOW);
    assert!(miss < 500);
    let fuzzy = calculate_relevance("/docs/report.pdf", "rpt", NOW - 40 * DAY, NOW);
    assert!(fuzzy > 0 && fuzzy <= 1000);
}

#[test]
fn content_relevance_values() {
    assert_eq!(calculate_content_relevance("foo bar foo", "foo"), 545 + 300);
    assert_eq!(calculate_content_relevance("nothing here", "foo"), 0);
    assert_eq!(calculate_content_relevance("é x", "x"), 250 + 300);
    assert_eq!(calculate_content_relevance("FOO", "foo"), 1000 + 300);
    assert_eq!(calculate_content_relevance("a b", "a b"), 1000);
    assert_eq!(content_score_from("abab", "ab", 2, 4), 1000 + 300);
    assert_eq!(content_score_from("   ", "", 0, 3), 0);
}

#[test]
fn fuser_dedups_sorts_and_truncates() {
    let rs = vec![result("/a", 10), result("/b", 30), result("/a", 90), result("/c", 20)];
    let out = deduplicate_and_rank(rs, 10);
    assert_eq!(out.len(), 3);
    assert_eq!(out[0].path, "/b");
    assert_eq!(out[0].relevance_score, 30);
    assert_eq!(out[1].relevance_score, 20);
    assert_eq!(out[2].relevance_score, 10);
    let rs = vec![result("/a", 10), result("/b", 30), result("/c", 20)];
    let out = deduplicate_and_rank(rs, 2);
    assert_eq!(out.len(), 2);
    assert_eq!(out[0].path, "/b");
    assert_eq!(out[1].path, "/c");
    assert!(deduplicate_and_rank(vec![], 5).is_empty());
    assert!(deduplicate_and_rank(vec![result("/a", 1)], 0).is_empty());
}

#[test]
fn identical_content_in_two_files() {
    let q = SearchQuery::natural_language("budget");
    let spans = vec![(4, 10)];
    let a = content_result(hit("/p/one.txt"), 3, "the budget".to_string(), &spans, "budget");
    let b = content_result(hit("/q/two.txt"), 3, "the budget".to_string(), &spans, "budget");
    let out = fuse_sources(vec![], vec![], vec![a, b], vec![], &q);
    assert_eq!(out.len(), 2);
    for r in &out {
        assert_eq!(r.content_matches.len(), 1);
        assert_eq!(r.content_matches[0].line_number, 3);
        assert_eq!(r.content_matches[0].line_content, "the budget");
        assert_eq!(r.content_matches[0].match_start, 4);
        assert_eq!(r.content_matches[0].match_end, 10);
    }
    assert_ne!(out[0].path, out[1].path);
}

#[test]
fn spans_outside_the_line_are_dropped() {
    let spans = vec![(4, 10), (8, 40), (6, 5)];
    let r = content_result(hit("/p/one.txt"), 1, "the budget".to_string(), &spans, "budget");
    assert_eq!(r.content_matches.len(), 1);
    assert_eq!(r.content_matches[0].match_start, 4);
    assert_eq!(r.content_matches[0].match_end, 10);
}

#[test]
fn scan_hit_becomes_result() {
    let r = filesystem_result(hit("/p/photo.PNG"), "photo", NOW);
    assert_eq!(r.name, "photo.PNG");
    assert_eq!(r.file_type, "PNG");
    assert_eq!(r.mime_type, "image/png");
    assert!(r.relevance_score >= 700);
    assert_eq!(get_file_type("/p/README"), "unknown");
    assert_eq!(get_file_type("/p/.bashrc"), "unknown");
}

#[test]
fn sources_short_circuit() {
    let mut q = SearchQuery::from_text("x");
    q.max_results = 2;
    assert!(should_scan_filesystem(1, &q));
    assert!(!should_scan_filesystem(2, &q));
    assert!(!should_grep_content(0, &q));
    q.search_content = true;
    assert!(should_grep_content(1, &q));
    assert!(!should_grep_content(2, &q));
}

#[test]
fn query_defaults() {
    let q = SearchQuery::from_text("abc");
    assert_eq!(q.max_results, 1000);
    assert_eq!(q.fuzzy_threshold, 600);
    assert!(!q.search_content);
    let n = SearchQuery::natural_language("abc");
    assert!(n.search_content && n.include_hidden);
    assert_eq!(n.fuzzy_threshold, 400);
    assert_eq!(n.text, "abc");
}
