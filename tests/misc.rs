use omniosearch::config::{
    AISettings, CloudProvider, CloudSettings, Config, ConfigError, IndexingSettings, PathSettings,
    SearchSettings, Theme, UISettings,
};
use omniosearch::db::Database;
use omniosearch::grep_line::{hit_span, parse_grep_line};
use omniosearch::format::{decimal, format_file_size, truncate_string, OutputFormat};
use omniosearch::indexer::FileFacts;
use omniosearch::intent::{Intent, IntentClassifier};
use omniosearch::pathname::{extension, file_name};
use omniosearch::policy::{IndexingPolicy, WalkEntry};
use omniosearch::run::{
    estimated_remaining, processing_speed, run_indexing, IndexingPhase, IndexingRun, RunRegistry,
};

fn config() -> Config {
    Config {
        search_settings: SearchSettings {
            max_results: 1000,
            fuzzy_threshold: 600,
            include_hidden_files: false,
            search_content_by_default: true,
            enable_real_time_search: true,
            search_timeout_ms: 5000,
            result_cache_size: 10000,
        },
        ui_settings: UISettings {
            theme: Theme::Auto,
            window_width: 1200,
            window_height: 800,
            show_file_preview: true,
            show_thumbnails: true,
            font_size: 14,
            compact_mode: false,
            show_hidden_results: false,
        },
        indexing_settings: IndexingSettings {
            auto_index_on_startup: true,
            watch_file_changes: false,
            index_file_content: true,
            max_file_size_mb: 1,
            excluded_extensions: vec!["TMP".to_string()],
            included_extensions: vec![],
            indexing_threads: 4,
            index_update_interval_ms: 1000,
        },
        ai_settings: AISettings {
            enable_ai_processing: false,
            enable_smart_suggestions: false,
            model_cache_path: "/m".to_string(),
            max_suggestions: 5,
            suggestion_threshold: 700,
            enable_content_understanding: false,
            use_local_models_only: true,
        },
        cloud_settings: CloudSettings {
            enabled_providers: vec![],
            sync_interval_minutes: 30,
            cache_cloud_metadata: true,
            max_cloud_cache_size_mb: 100,
        },
        paths: PathSettings {
            search_paths: vec!["/home".to_string()],
            excluded_paths: vec!["/home/User/Cache".to_string()],
            database_path: "/d/db.sqlite".to_string(),
            cache_path: "/c".to_string(),
            logs_path: "/l".to_string(),
            models_path: "/m".to_string(),
        },
    }
}

#[test]
fn sizes_as_text() {
    assert_eq!(format_file_size(0), "0 B");
    assert_eq!(format_file_size(1023), "1023 B");
    assert_eq!(format_file_size(1024), "1.0 KB");
    assert_eq!(format_file_size(1536), "1.5 KB");
    assert_eq!(format_file_size(2 * 1024 * 1024), "2.0 MB");
    assert_eq!(format_file_size(1024 * 1024 - 1), "1024.0 KB");
    assert_eq!(format_file_size(5 * 1024 * 1024 * 1024 * 1024 * 1024), "5120.0 TB");
    assert_eq!(format_file_size(1024 + 51), "1.0 KB");
    assert_eq!(decimal(907), "907");
}

#[test]
fn strings_truncate() {
    assert_eq!(truncate_string("short", 10), "short");
    assert_eq!(truncate_string("a long file name", 8), "a lon...");
    assert_eq!(truncate_string("abc", 3), "abc");
    assert_eq!(truncate_string("aéé", 4), "a...");
    assert_eq!(truncate_string("aéé", 5), "aéé");
    assert_eq!(truncate_string("éabcd", 5), "é...");
}

#[test]
fn output_format_names() {
    assert_eq!(OutputFormat::parse("JSON"), Ok(OutputFormat::Json));
    assert_eq!("table".parse::<OutputFormat>(), Ok(OutputFormat::Table));
    assert_eq!(OutputFormat::parse("human"), Ok(OutputFormat::Human));
    assert_eq!(OutputFormat::parse("Csv"), Ok(OutputFormat::Csv));
    assert_eq!(OutputFormat::parse("xml"), Err("Invalid output format: xml".to_string()));
}

#[test]
fn intents_by_keyword() {
    let c = IntentClassifier::new();
    assert_eq!(c.classify("Show me a PDF"), Intent::FindByType);
    assert_eq!(c.classify("files from YESTERDAY"), Intent::FindByDate);
    assert_eq!(c.classify("find big files"), Intent::FindFiles);
    assert_eq!(c.classify("xyz"), Intent::FindFiles);
    assert_eq!(c.classify("open it"), Intent::OpenFile);
}

#[test]
fn path_parts() {
    assert_eq!(file_name("/a/b/c.tar.gz"), "c.tar.gz");
    assert_eq!(extension("/a/b/c.tar.gz"), Some("gz".to_string()));
    assert_eq!(extension("/a/.hidden"), None);
    assert_eq!(extension("noext"), None);
    assert_eq!(file_name("plain"), "plain");
    assert_eq!(file_name("a/b/"), "b");
    assert_eq!(file_name("a/b//"), "b");
    assert_eq!(file_name("a/.."), "");
    assert_eq!(file_name("/"), "");
    assert_eq!(extension("a/.."), None);
    assert_eq!(extension("a/b.txt/"), Some("txt".to_string()));
}

#[test]
fn config_rules() {
    let c = config();
    assert!(c.is_path_excluded("/home/user/cache/x"));
    assert!(!c.is_path_excluded("/home/user/docs"));
    assert!(c.is_extension_excluded("tmp"));
    assert!(!c.should_index_file("/home/a.tmp", 1));
    assert!(!c.should_index_file("/home/big.bin", 2 * 1024 * 1024));
    assert!(c.should_index_file("/home/ok.bin", 1024 * 1024));
    assert_eq!(c.database_path(), "/d/db.sqlite");
    assert_eq!(c.search_paths(), &vec!["/home".to_string()]);
    assert_eq!(c.validate(), Ok(()));
    let mut bad = config();
    bad.search_settings.max_results = 0;
    assert_eq!(bad.validate(), Err(ConfigError::MaxResultsZero));
    let mut bad = config();
    bad.search_settings.fuzzy_threshold = 1001;
    assert_eq!(bad.validate(), Err(ConfigError::FuzzyThresholdOutOfRange));
    let mut bad = config();
    bad.indexing_settings.max_file_size_mb = 0;
    assert_eq!(bad.validate(), Err(ConfigError::MaxFileSizeZero));
    let mut bad = config();
    bad.ai_settings.max_suggestions = 0;
    assert_eq!(bad.validate(), Err(ConfigError::MaxSuggestionsZero));
    let mut bad = config();
    bad.ai_settings.suggestion_threshold = 2000;
    assert_eq!(bad.validate(), Err(ConfigError::SuggestionThresholdOutOfRange));
}

#[test]
fn config_list_edits() {
    let mut c = config();
    c.add_search_path("/srv".to_string());
    c.add_search_path("/srv".to_string());
    assert_eq!(c.paths.search_paths.len(), 2);
    c.remove_search_path("/home");
    assert_eq!(c.paths.search_paths, vec!["/srv".to_string()]);
    c.add_excluded_path("/tmp".to_string());
    assert_eq!(c.paths.excluded_paths.len(), 2);
    c.remove_excluded_path("/tmp");
    assert_eq!(c.paths.excluded_paths.len(), 1);
    c.toggle_cloud_provider(CloudProvider::Dropbox);
    assert_eq!(c.cloud_settings.enabled_providers, vec![CloudProvider::Dropbox]);
    c.toggle_cloud_provider(CloudProvider::Dropbox);
    assert!(c.cloud_settings.enabled_providers.is_empty());
}

#[test]
fn policy_selects_candidates() {
    let p = IndexingPolicy {
        excluded_paths: vec!["/r/skip".to_string()],
        excluded_extensions: vec![],
        included_extensions: vec!["txt".to_string(), "PDF".to_string()],
        max_file_size_mb: 1,
        include_hidden: false,
    };
    let entries = vec![
        WalkEntry { path: "/r/a.txt".to_string(), size: 1, is_file: true },
        WalkEntry { path: "/r/dir".to_string(), size: 0, is_file: false },
        WalkEntry { path: "/r/b.pdf".to_string(), size: 1, is_file: true },
        WalkEntry { path: "/r/c.rs".to_string(), size: 1, is_file: true },
        WalkEntry { path: "/r/skip/d.txt".to_string(), size: 1, is_file: true },
        WalkEntry { path: "/r/e.txt".to_string(), size: 2 * 1024 * 1024, is_file: true },
        WalkEntry { path: "/r/Makefile".to_string(), size: 1, is_file: true },
    ];
    assert_eq!(
        p.select_candidates(&entries),
        vec!["/r/a.txt".to_string(), "/r/b.pdf".to_string(), "/r/Makefile".to_string()]
    );
    assert!(p.is_hidden_or_excluded("/r/.git"));
    assert!(p.is_hidden_or_excluded("/r/skip"));
    assert!(!p.is_hidden_or_excluded("/r/src"));
}

#[test]
fn run_reports_phases_in_order() {
    let mut db = Database::new();
    let mut run = IndexingRun::start(0);
    let candidates: Vec<FileFacts> = (0..5)
        .map(|i| FileFacts {
            path: format!("/r/f{}.txt", i),
            size: 1,
            modified: 1,
            created: 1,
            is_directory: false,
            mode: 0o600,
            checksum: None,
        })
        .collect();
    let written = run_indexing(&mut db, &mut run, &candidates, 2, 10);
    assert_eq!(written.len(), 5);
    assert_eq!(db.get_indexing_status(0, 0).total_files, 5);
    assert_eq!(db.search_ids("f3", 10).len(), 1);
    let phases: Vec<IndexingPhase> = (0..run.report_count()).map(|i| run.report(i).phase.clone()).collect();
    let rank = |p: &IndexingPhase| match p {
        IndexingPhase::Scanning => 0,
        IndexingPhase::Indexing => 1,
        IndexingPhase::ContentExtraction => 2,
        IndexingPhase::Finalizing => 3,
        IndexingPhase::Complete => 4,
        IndexingPhase::Error(_) => 5,
    };
    assert!(phases.windows(2).all(|w| rank(&w[0]) <= rank(&w[1])));
    assert!(matches!(phases[0], IndexingPhase::Scanning));
    assert!(matches!(phases[phases.len() - 2], IndexingPhase::Finalizing));
    assert!(matches!(phases[phases.len() - 1], IndexingPhase::Complete));
    assert!(run.is_finished());
    let last = run.report(run.report_count() - 1);
    assert!(!last.is_running);
    assert_eq!(last.processed_files, 5);
    assert_eq!(last.total_files, 5);
    assert!((0..run.report_count() - 1).all(|i| run.report(i).is_running));
}

#[test]
fn failed_run_ends_in_error() {
    let mut run = IndexingRun::start(0);
    run.scanned(3);
    run.batch_done(1, 2000);
    let p = run.report(2);
    assert_eq!(p.processing_speed, 0);
    assert_eq!(p.total_files, 3);
    assert_eq!(p.processed_files, 1);
    assert!(p.is_running);
    run.fail("disk gone".to_string());
    assert!(run.is_finished());
    assert!(matches!(run.report(3).phase, IndexingPhase::Error(_)));
}

#[test]
fn speed_and_eta() {
    assert_eq!(processing_speed(500, 2000), 250);
    assert_eq!(processing_speed(5, 0), 0);
    assert_eq!(processing_speed(u64::MAX, 1), u64::MAX);
    assert_eq!(estimated_remaining(1000, 250), 4);
    assert_eq!(estimated_remaining(10, 0), 0);
}

#[test]
fn registry_refuses_overlap() {
    let mut reg = RunRegistry::new();
    let a = vec!["/home/u".to_string()];
    let b = vec!["/home/u/docs".to_string()];
    let c = vec!["/srv".to_string()];
    assert!(reg.try_begin(&a));
    assert!(!reg.try_begin(&b));
    assert!(reg.try_begin(&c));
    reg.finish(&a);
    assert!(reg.is_path_indexed("/home/u"));
    assert!(!reg.is_path_indexed("/srv"));
    assert!(reg.try_begin(&b));
}

#[test]
fn grep_lines_parse() {
    let h = parse_grep_line("/p/a:b.txt\u{0}12:5:let x = 1: y").unwrap();
    assert_eq!(h.path, "/p/a:b.txt");
    assert_eq!(h.line_number, 12);
    assert_eq!(h.column, 5);
    assert_eq!(h.text, "let x = 1: y");
    assert!(parse_grep_line("/p/a.txt\u{0}x:5:text").is_none());
    assert!(parse_grep_line("/p/a.txt\u{0}12:text").is_none());
    assert!(parse_grep_line("/p/a.txt:12:5:text").is_none());
    assert!(parse_grep_line("/p\u{0}1::t").is_none());
}

#[test]
fn grep_spans_within_line() {
    assert_eq!(hit_span("the budget", 5, 6), Some((4, 10)));
    assert_eq!(hit_span("the budget", 6, 6), None);
    assert_eq!(hit_span("the budget", 0, 1), None);
    assert_eq!(hit_span("été budget", 7, 6), Some((4, 10)));
    assert_eq!(hit_span("été", 2, 1), None);
}

#[test]
fn octal_and_whitespace() {
    use_octal_and_white();
}

fn use_octal_and_white() {
    assert_eq!(omniosearch::indexer::octal(0), "0");
    assert_eq!(omniosearch::indexer::octal(0o755), "755");
    assert_eq!(omniosearch::indexer::octal(0o100644), "100644");
    assert!(omniosearch::text::is_white(' '));
    assert!(omniosearch::text::is_white('\u{3000}'));
    assert!(omniosearch::text::is_white('\n'));
    assert!(!omniosearch::text::is_white('x'));
    assert!(!omniosearch::text::is_white('\u{200B}'));
    for c in ['\t', ' ', '\u{85}', '\u{a0}', '\u{1680}', '\u{2005}', '\u{2028}', '\u{202f}', 'a', '\u{180e}'] {
        assert_eq!(omniosearch::text::is_white(c), c.is_whitespace());
    }
}

#[test]
fn default_settings() {
    let c = Config::default_for("/home/u", "/home/u/.local/share/omniosearch", "/home/u/.cache/omniosearch", 1);
    assert_eq!(c.paths.search_paths, vec!["/home/u".to_string(), "/usr/share/applications".to_string(), "/opt".to_string()]);
    assert_eq!(c.paths.excluded_paths[0], "/home/u/.cache");
    assert_eq!(c.paths.excluded_paths[1], "/home/u/.local/share/Trash");
    assert_eq!(c.paths.excluded_paths.len(), 6);
    assert_eq!(c.paths.database_path, "/home/u/.local/share/omniosearch/omniosearch.db");
    assert_eq!(c.indexing_settings.excluded_extensions.len(), 5);
    assert_eq!(c.indexing_settings.indexing_threads, 2);
    assert_eq!(c.validate(), Ok(()));
    assert!(c.is_extension_excluded("SWP"));
}
