//! Settings consumed by the core, with the exclusion rules, validation and
//! the list edits. Thresholds are in thousandths.
use vstd::prelude::*;
use crate::policy::{admits_with, excluded_by, ext_listed, listed, path_excluded_by, IndexingPolicy};

verus! {

#[derive(Clone, Debug)]
pub struct Config {
    pub search_settings: SearchSettings,
    pub ui_settings: UISettings,
    pub indexing_settings: IndexingSettings,
    pub ai_settings: AISettings,
    pub cloud_settings: CloudSettings,
    pub paths: PathSettings,
}

#[derive(Clone, Debug)]
pub struct SearchSettings {
    pub max_results: usize,
    pub fuzzy_threshold: u32,
    pub include_hidden_files: bool,
    pub search_content_by_default: bool,
    pub enable_real_time_search: bool,
    pub search_timeout_ms: u64,
    pub result_cache_size: usize,
}

#[derive(Clone, Debug)]
pub struct UISettings {
    pub theme: Theme,
    pub window_width: u32,
    pub window_height: u32,
    pub show_file_preview: bool,
    pub show_thumbnails: bool,
    pub font_size: u16,
    pub compact_mode: bool,
    pub show_hidden_results: bool,
}

#[derive(Clone, Copy, Debug, PartialEq, Eq, Structural)]
pub enum Theme {
    Auto,
    Light,
    Dark,
}

#[derive(Clone, Debug)]
pub struct IndexingSettings {
    pub auto_index_on_startup: bool,
    pub watch_file_changes: bool,
    pub index_file_content: bool,
    pub max_file_size_mb: u64,
    pub excluded_extensions: Vec<String>,
    pub included_extensions: Vec<String>,
    pub indexing_threads: usize,
    pub index_update_interval_ms: u64,
}

#[derive(Clone, Debug)]
pub struct AISettings {
    pub enable_ai_processing: bool,
    pub enable_smart_suggestions: bool,
    pub model_cache_path: String,
    pub max_suggestions: usize,
    pub suggestion_threshold: u32,
    pub enable_content_understanding: bool,
    pub use_local_models_only: bool,
}

#[derive(Clone, Debug)]
pub struct CloudSettings {
    pub enabled_providers: Vec<CloudProvider>,
    pub sync_interval_minutes: u64,
    pub cache_cloud_metadata: bool,
    pub max_cloud_cache_size_mb: u64,
}

#[derive(Clone, Copy, Debug, PartialEq, Eq, Structural)]
pub enum CloudProvider {
    GoogleDrive,
    Dropbox,
    OneDrive,
    NextCloud,
    TeraBox,
}

#[derive(Clone, Debug)]
pub struct PathSettings {
    pub search_paths: Vec<String>,
    pub excluded_paths: Vec<String>,
    pub database_path: String,
    pub cache_path: String,
    pub logs_path: String,
    pub models_path: String,
}

/// The first setting out of range, in the order that `validate` checks.
#[derive(Clone, Copy, Debug, PartialEq, Eq, Structural)]
pub enum ConfigError {
    FuzzyThresholdOutOfRange,
    MaxResultsZero,
    MaxFileSizeZero,
    MaxSuggestionsZero,
    SuggestionThresholdOutOfRange,
}

pub open spec fn views(v: Seq<String>) -> Seq<Seq<char>> {
    v.map_values(|s: String| s@)
}

/// `v` with `x` appended unless it is already there.
pub open spec fn with_entry(v: Seq<Seq<char>>, x: Seq<char>) -> Seq<Seq<char>> {
    if v.contains(x) {
        v
    } else {
        v.push(x)
    }
}

/// `v` without the entries equal to `x`.
pub open spec fn without_entry(v: Seq<Seq<char>>, x: Seq<char>) -> Seq<Seq<char>> {
    v.filter(|e: Seq<char>| e != x)
}

fn add_entry(v: &mut Vec<String>, x: String)
    ensures
        views(final(v)@) == with_entry(views(old(v)@), x@),
{
    let mut i: usize = 0;
    while i < v.len()
        invariant
            i <= v@.len(),
            forall|k: int| 0 <= k < i ==> (#[trigger] v@[k])@ != x@,
        decreases v@.len() - i,
    {
        if v[i] == x {
            assert(views(v@)[i as int] == x@);
            return;
        }
        i = i + 1;
    }
    proof {
        if views(v@).contains(x@) {
            let k = choose|k: int| 0 <= k < views(v@).len() && views(v@)[k] == x@;
            assert(v@[k]@ == x@);
        }
    }
    let ghost before = v@;
    v.push(x);
    assert(views(v@) =~= views(before).push(x@));
}

fn remove_entry(v: &mut Vec<String>, x: &str)
    ensures
        views(final(v)@) == without_entry(views(old(v)@), x@),
{
    let ghost s = views(v@);
    let ghost pred = |e: Seq<char>| e != x@;
    let xs = x.to_owned();
    let mut out: Vec<String> = Vec::new();
    let mut i: usize = 0;
    assert(s.take(0) =~= Seq::<Seq<char>>::empty());
    proof {
        reveal(Seq::filter);
    }
    while i < v.len()
        invariant
            i <= v@.len() == s.len(),
            s == views(v@),
            xs@ == x@,
            pred == (|e: Seq<char>| e != x@),
            views(out@) == s.take(i as int).filter(pred),
        decreases v@.len() - i,
    {
        assert(s.take(i + 1).drop_last() =~= s.take(i as int));
        assert(s.take(i + 1).last() == v@[i as int]@);
        proof {
            reveal(Seq::filter);
        }
        if v[i] != xs {
            let ghost before = out@;
            out.push(v[i].clone());
            assert(views(out@) =~= views(before).push(v@[i as int]@));
        }
        i = i + 1;
    }
    assert(s.take(s.len() as int) =~= s);
    *v = out;
}

impl Config {
    pub fn database_path(&self) -> (r: &str)
        ensures
            r@ == self.paths.database_path@,
    {
        self.paths.database_path.as_str()
    }

    pub fn cache_path(&self) -> (r: &str)
        ensures
            r@ == self.paths.cache_path@,
    {
        self.paths.cache_path.as_str()
    }

    pub fn logs_path(&self) -> (r: &str)
        ensures
            r@ == self.paths.logs_path@,
    {
        self.paths.logs_path.as_str()
    }

    pub fn ai_models_path(&self) -> (r: &str)
        ensures
            r@ == self.paths.models_path@,
    {
        self.paths.models_path.as_str()
    }

    pub fn search_paths(&self) -> (r: &Vec<String>)
        ensures
            r@ == self.paths.search_paths@,
    {
        &self.paths.search_paths
    }

    pub fn excluded_paths(&self) -> (r: &Vec<String>)
        ensures
            r@ == self.paths.excluded_paths@,
    {
        &self.paths.excluded_paths
    }

    /// Whether `path` starts with an excluded path, ignoring case.
    pub fn is_path_excluded(&self, path: &str) -> (r: bool)
        ensures
            r == path_excluded_by(self.paths.excluded_paths@, path@),
    {
        excluded_by(&self.paths.excluded_paths, path)
    }

    /// Whether `extension` is on the deny list, ignoring case.
    pub fn is_extension_excluded(&self, extension: &str) -> (r: bool)
        ensures
            r == ext_listed(self.indexing_settings.excluded_extensions@, extension@),
    {
        listed(&self.indexing_settings.excluded_extensions, extension)
    }

    /// Whether a file at `path` of `size` bytes is to be indexed.
    pub fn should_index_file(&self, path: &str, size: u64) -> (r: bool)
        ensures
            r == admits_with(
                self.paths.excluded_paths@,
                self.indexing_settings.excluded_extensions@,
                self.indexing_settings.included_extensions@,
                self.indexing_settings.max_file_size_mb,
                path@,
                size,
            ),
    {
        crate::policy::admits_file(
            &self.paths.excluded_paths,
            &self.indexing_settings.excluded_extensions,
            &self.indexing_settings.included_extensions,
            self.indexing_settings.max_file_size_mb,
            path,
            size,
        )
    }

    /// The discovery policy of these settings. Hidden entries are walked
    /// while file watching is on.
    pub fn indexing_policy(&self) -> (r: IndexingPolicy)
        ensures
            r.excluded_paths@ == self.paths.excluded_paths@,
            r.excluded_extensions@ == self.indexing_settings.excluded_extensions@,
            r.included_extensions@ == self.indexing_settings.included_extensions@,
            r.max_file_size_mb == self.indexing_settings.max_file_size_mb,
            r.include_hidden == self.indexing_settings.watch_file_changes,
    {
        IndexingPolicy {
            excluded_paths: copy_strings(&self.paths.excluded_paths),
            excluded_extensions: copy_strings(&self.indexing_settings.excluded_extensions),
            included_extensions: copy_strings(&self.indexing_settings.included_extensions),
            max_file_size_mb: self.indexing_settings.max_file_size_mb,
            include_hidden: self.indexing_settings.watch_file_changes,
        }
    }

    /// Checks the ranges of the settings: thresholds at most 1000, and
    /// non-zero result, size and suggestion limits.
    pub fn validate(&self) -> (r: Result<(), ConfigError>)
        ensures
            r == if self.search_settings.fuzzy_threshold > 1000 {
                Err(ConfigError::FuzzyThresholdOutOfRange)
            } else if self.search_settings.max_results == 0 {
                Err(ConfigError::MaxResultsZero)
            } else if self.indexing_settings.max_file_size_mb == 0 {
                Err(ConfigError::MaxFileSizeZero)
            } else if self.ai_settings.max_suggestions == 0 {
                Err(ConfigError::MaxSuggestionsZero)
            } else if self.ai_settings.suggestion_threshold > 1000 {
                Err(ConfigError::SuggestionThresholdOutOfRange)
            } else {
                Ok(())
            },
    {
        if self.search_settings.fuzzy_threshold > 1000 {
            return Err(ConfigError::FuzzyThresholdOutOfRange);
        }
        if self.search_settings.max_results == 0 {
            return Err(ConfigError::MaxResultsZero);
        }
        if self.indexing_settings.max_file_size_mb == 0 {
            return Err(ConfigError::MaxFileSizeZero);
        }
        if self.ai_settings.max_suggestions == 0 {
            return Err(ConfigError::MaxSuggestionsZero);
        }
        if self.ai_settings.suggestion_threshold > 1000 {
            return Err(ConfigError::SuggestionThresholdOutOfRange);
        }
        Ok(())
    }

    pub fn add_search_path(&mut self, path: String)
        ensures
            views(final(self).paths.search_paths@) == with_entry(views(old(self).paths.search_paths@), path@),
    {
        add_entry(&mut self.paths.search_paths, path);
    }

    pub fn remove_search_path(&mut self, path: &str)
        ensures
            views(final(self).paths.search_paths@) == without_entry(views(old(self).paths.search_paths@), path@),
    {
        remove_entry(&mut self.paths.search_paths, path);
    }

    pub fn add_excluded_path(&mut self, path: String)
        ensures
            views(final(self).paths.excluded_paths@) == with_entry(views(old(self).paths.excluded_paths@), path@),
    {
        add_entry(&mut self.paths.excluded_paths, path);
    }

    pub fn remove_excluded_path(&mut self, path: &str)
        ensures
            views(final(self).paths.excluded_paths@) == without_entry(views(old(self).paths.excluded_paths@), path@),
    {
        remove_entry(&mut self.paths.excluded_paths, path);
    }

    /// Turns `provider` off when it is enabled (removing its first entry),
    /// on otherwise.
    pub fn toggle_cloud_provider(&mut self, provider: CloudProvider)
        ensures
            ({
                let v = old(self).cloud_settings.enabled_providers@;
                let w = final(self).cloud_settings.enabled_providers@;
                if v.contains(provider) {
                    exists|i: int|
                        0 <= i < v.len() && v[i] == provider && (forall|k: int| 0 <= k < i ==> v[k] != provider)
                            && w == v.remove(i)
                } else {
                    w == v.push(provider)
                }
            }),
    {
        let mut i: usize = 0;
        let n = self.cloud_settings.enabled_providers.len();
        while i < n
            invariant
                n == self.cloud_settings.enabled_providers@.len(),
                self.cloud_settings.enabled_providers@ == old(self).cloud_settings.enabled_providers@,
                i <= n,
                forall|k: int| 0 <= k < i ==> self.cloud_settings.enabled_providers@[k] != provider,
            decreases n - i,
        {
            if self.cloud_settings.enabled_providers[i] == provider {
                self.cloud_settings.enabled_providers.remove(i);
                return;
            }
            i = i + 1;
        }
        self.cloud_settings.enabled_providers.push(provider);
    }
}

fn copy_strings(v: &Vec<String>) -> (r: Vec<String>)
    ensures
        r@ == v@,
{
    let mut out: Vec<String> = Vec::new();
    let mut i: usize = 0;
    while i < v.len()
        invariant
            i <= v@.len(),
            out@ == v@.take(i as int),
        decreases v@.len() - i,
    {
        out.push(v[i].clone());
        i = i + 1;
        assert(out@ =~= v@.take(i as int));
    }
    assert(v@.take(v@.len() as int) =~= v@);
    out
}

fn joined(a: &str, b: &str) -> (r: String)
    ensures
        r@ == a@ + b@,
{
    let mut r = a.to_owned();
    r.append(b);
    r
}

impl Config {
    /// The default settings for a user whose home, data and cache
    /// directories are `home`, `data_dir` and `cache_dir`, on a machine with
    /// `cpus` processors: search the home directory, applications and
    /// `/opt`; skip caches, the trash and system directories; index files
    /// up to 100 MB, leaving out temporary, log, cache, backup and swap
    /// files.
    pub fn default_for(home: &str, data_dir: &str, cache_dir: &str, cpus: usize) -> (r: Config)
        ensures
            r.search_settings.max_results == 1000,
            r.search_settings.fuzzy_threshold == 600,
            !r.search_settings.include_hidden_files,
            r.search_settings.search_content_by_default,
            r.search_settings.enable_real_time_search,
            r.search_settings.search_timeout_ms == 5000,
            r.search_settings.result_cache_size == 10000,
            r.ui_settings.theme == Theme::Auto,
            r.ui_settings.window_width == 1200 && r.ui_settings.window_height == 800,
            r.ui_settings.show_file_preview && r.ui_settings.show_thumbnails,
            r.ui_settings.font_size == 14,
            !r.ui_settings.compact_mode && !r.ui_settings.show_hidden_results,
            r.indexing_settings.auto_index_on_startup,
            r.indexing_settings.watch_file_changes,
            r.indexing_settings.index_file_content,
            r.indexing_settings.max_file_size_mb == 100,
            views(r.indexing_settings.excluded_extensions@) == seq![seq!['t', 'm', 'p'], seq!['l', 'o', 'g'], seq!['c', 'a', 'c', 'h', 'e'], seq!['b', 'a', 'k'], seq!['s', 'w', 'p']],
            r.indexing_settings.included_extensions@.len() == 0,
            r.indexing_settings.indexing_threads == if cpus < 2 { 2 } else { cpus },
            r.indexing_settings.index_update_interval_ms == 1000,
            r.ai_settings.enable_ai_processing && r.ai_settings.enable_smart_suggestions,
            r.ai_settings.model_cache_path@ == data_dir@ + seq!['/', 'm', 'o', 'd', 'e', 'l', 's'],
            r.ai_settings.max_suggestions == 5,
            r.ai_settings.suggestion_threshold == 700,
            r.ai_settings.enable_content_understanding && r.ai_settings.use_local_models_only,
            r.cloud_settings.enabled_providers@.len() == 0,
            r.cloud_settings.sync_interval_minutes == 15,
            r.cloud_settings.cache_cloud_metadata,
            r.cloud_settings.max_cloud_cache_size_mb == 500,
            views(r.paths.search_paths@) == seq![home@, seq!['/', 'u', 's', 'r', '/', 's', 'h', 'a', 'r', 'e', '/', 'a', 'p', 'p', 'l', 'i', 'c', 'a', 't', 'i', 'o', 'n', 's'], seq!['/', 'o', 'p', 't']],
            views(r.paths.excluded_paths@) == seq![home@ + seq!['/', '.', 'c', 'a', 'c', 'h', 'e'], home@ + seq!['/', '.', 'l', 'o', 'c', 'a', 'l', '/', 's', 'h', 'a', 'r', 'e', '/', 'T', 'r', 'a', 's', 'h'], seq!['/', 'p', 'r', 'o', 'c'], seq!['/', 's', 'y', 's'], seq!['/', 'd', 'e', 'v'], seq!['/', 't', 'm', 'p']],
            r.paths.database_path@ == data_dir@ + seq!['/', 'o', 'm', 'n', 'i', 'o', 's', 'e', 'a', 'r', 'c', 'h', '.', 'd', 'b'],
            r.paths.cache_path@ == cache_dir@,
            r.paths.logs_path@ == data_dir@ + seq!['/', 'l', 'o', 'g', 's'],
            r.paths.models_path@ == data_dir@ + seq!['/', 'm', 'o', 'd', 'e', 'l', 's'],
    {
        proof {
            reveal_strlit("tmp");
            reveal_strlit("log");
            reveal_strlit("cache");
            reveal_strlit("bak");
            reveal_strlit("swp");
            reveal_strlit("/usr/share/applications");
            reveal_strlit("/opt");
            reveal_strlit("/.cache");
            reveal_strlit("/.local/share/Trash");
            reveal_strlit("/proc");
            reveal_strlit("/sys");
            reveal_strlit("/dev");
            reveal_strlit("/tmp");
            reveal_strlit("/omniosearch.db");
            reveal_strlit("/logs");
            reveal_strlit("/models");
        }
        let j_cache: &str = "/.cache";
        assert(j_cache@ =~= seq!['/', '.', 'c', 'a', 'c', 'h', 'e']);
        let j_trash: &str = "/.local/share/Trash";
        assert(j_trash@ =~= seq!['/', '.', 'l', 'o', 'c', 'a', 'l', '/', 's', 'h', 'a', 'r', 'e', '/', 'T', 'r', 'a', 's', 'h']);
        let j_models: &str = "/models";
        assert(j_models@ =~= seq!['/', 'm', 'o', 'd', 'e', 'l', 's']);
        let j_db: &str = "/omniosearch.db";
        assert(j_db@ =~= seq!['/', 'o', 'm', 'n', 'i', 'o', 's', 'e', 'a', 'r', 'c', 'h', '.', 'd', 'b']);
        let j_logs: &str = "/logs";
        assert(j_logs@ =~= seq!['/', 'l', 'o', 'g', 's']);
        let e_tmp = "tmp".to_owned();
        assert(e_tmp@ =~= seq!['t', 'm', 'p']);
        let e_log = "log".to_owned();
        assert(e_log@ =~= seq!['l', 'o', 'g']);
        let e_cache = "cache".to_owned();
        assert(e_cache@ =~= seq!['c', 'a', 'c', 'h', 'e']);
        let e_bak = "bak".to_owned();
        assert(e_bak@ =~= seq!['b', 'a', 'k']);
        let e_swp = "swp".to_owned();
        assert(e_swp@ =~= seq!['s', 'w', 'p']);
        let p_apps = "/usr/share/applications".to_owned();
        assert(p_apps@ =~= seq!['/', 'u', 's', 'r', '/', 's', 'h', 'a', 'r', 'e', '/', 'a', 'p', 'p', 'l', 'i', 'c', 'a', 't', 'i', 'o', 'n', 's']);
        let p_opt = "/opt".to_owned();
        assert(p_opt@ =~= seq!['/', 'o', 'p', 't']);
        let x_proc = "/proc".to_owned();
        assert(x_proc@ =~= seq!['/', 'p', 'r', 'o', 'c']);
        let x_sys = "/sys".to_owned();
        assert(x_sys@ =~= seq!['/', 's', 'y', 's']);
        let x_dev = "/dev".to_owned();
        assert(x_dev@ =~= seq!['/', 'd', 'e', 'v']);
        let x_tmp = "/tmp".to_owned();
        assert(x_tmp@ =~= seq!['/', 't', 'm', 'p']);
        let r = Config {
            search_settings: SearchSettings {
                max_results: 1000,
                fuzzy_threshold: 600,
                include_hidden_files: false,
                search_content_by_default: true,
                enable_real_time_search: true,
                search_timeout_ms: 5000,
                result_cache_size: 10000,
            },
            ui_settings: UISettings {
                theme: Theme::Auto,
                window_width: 1200,
                window_height: 800,
                show_file_preview: true,
                show_thumbnails: true,
                font_size: 14,
                compact_mode: false,
                show_hidden_results: false,
            },
            indexing_settings: IndexingSettings {
                auto_index_on_startup: true,
                watch_file_changes: true,
                index_file_content: true,
                max_file_size_mb: 100,
                excluded_extensions: vec![
                    e_tmp,
                    e_log,
                    e_cache,
                    e_bak,
                    e_swp,
                ],
                included_extensions: Vec::new(),
                indexing_threads: if cpus < 2 { 2 } else { cpus },
                index_update_interval_ms: 1000,
            },
            ai_settings: AISettings {
                enable_ai_processing: true,
                enable_smart_suggestions: true,
                model_cache_path: joined(data_dir, j_models),
                max_suggestions: 5,
                suggestion_threshold: 700,
                enable_content_understanding: true,
                use_local_models_only: true,
            },
            cloud_settings: CloudSettings {
                enabled_providers: Vec::new(),
                sync_interval_minutes: 15,
                cache_cloud_metadata: true,
                max_cloud_cache_size_mb: 500,
            },
            paths: PathSettings {
                search_paths: vec![home.to_owned(), p_apps, p_opt],
                excluded_paths: vec![
                    joined(home, j_cache),
                    joined(home, j_trash),
                    x_proc,
                    x_sys,
                    x_dev,
                    x_tmp,
                ],
                database_path: joined(data_dir, j_db),
                cache_path: cache_dir.to_owned(),
                logs_path: joined(data_dir, j_logs),
                models_path: joined(data_dir, j_models),
            },
        };
        assert(views(r.indexing_settings.excluded_extensions@) =~= seq![seq!['t', 'm', 'p'], seq!['l', 'o', 'g'], seq!['c', 'a', 'c', 'h', 'e'], seq!['b', 'a', 'k'], seq!['s', 'w', 'p']]);
        assert(views(r.paths.search_paths@) =~= seq![home@, seq!['/', 'u', 's', 'r', '/', 's', 'h', 'a', 'r', 'e', '/', 'a', 'p', 'p', 'l', 'i', 'c', 'a', 't', 'i', 'o', 'n', 's'], seq!['/', 'o', 'p', 't']]);
        assert(views(r.paths.excluded_paths@) =~= seq![home@ + seq!['/', '.', 'c', 'a', 'c', 'h', 'e'], home@ + seq!['/', '.', 'l', 'o', 'c', 'a', 'l', '/', 's', 'h', 'a', 'r', 'e', '/', 'T', 'r', 'a', 's', 'h'], seq!['/', 'p', 'r', 'o', 'c'], seq!['/', 's', 'y', 's'], seq!['/', 'd', 'e', 'v'], seq!['/', 't', 'm', 'p']]);
        r
    }
}

} // verus!
