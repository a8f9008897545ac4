//! What a run is configured with.

use vstd::prelude::*;

verus! {

/// One confidence, or a threshold on confidences, counted in millionths:
/// `CONFIDENCE_ONE` stands for 1.0.
pub const CONFIDENCE_ONE: u32 = 1_000_000;

/// What the extraction engine is configured with.
#[derive(Debug, Clone)]
pub struct ExtractionConfig {
    /// Keep the HTML of a page.
    pub store_raw_html: bool,
    /// Keep the readable text of a page.
    pub store_plain_text: bool,
    /// Read definitions and relations from the language sections.
    pub parse_language_sections: bool,
    /// Read relations from the relation sub-sections.
    pub parse_relations: bool,
    /// The languages that are read; all where the list is empty.
    pub language_allowlist: Vec<String>,
    /// The least number of characters of a definition.
    pub min_definition_chars: usize,
    /// The most definitions of one language on a page.
    pub max_definitions_per_language: usize,
    /// The kinds of relations that are read.
    pub relation_types: Vec<String>,
    /// The most relations of one kind in one language on a page.
    pub max_relations_per_type: usize,
    /// The name of the normalizer of a language that has none of its own.
    pub default_normalizer: String,
    /// Pairs of a language and the name of its normalizer; the first pair
    /// that names a language decides.
    pub language_normalizers: Vec<(String, String)>,
    /// How many lists may be open around a list item that is read.
    pub nested_list_depth_limit: usize,
    /// The least confidence of what is kept, in millionths.
    pub confidence_threshold: u32,
    /// Offer the title of a page as its alias.
    pub include_title_as_alias: bool,
    /// The least number of characters of an alias.
    pub alias_min_length: usize,
}

impl ExtractionConfig {
    /// Whether every field has its default value.
    pub open spec fn holds_defaults(&self) -> bool {
        &&& !self.store_raw_html
        &&& self.store_plain_text
        &&& self.parse_language_sections
        &&& self.parse_relations
        &&& self.language_allowlist@.len() == 0
        &&& self.min_definition_chars == 20
        &&& self.max_definitions_per_language == 32
        &&& self.relation_types.deep_view() == seq!["synonyms"@, "antonyms"@, "translations"@]
        &&& self.max_relations_per_type == 48
        &&& self.default_normalizer@ == "identity"@
        &&& self.language_normalizers@.len() == 0
        &&& self.nested_list_depth_limit == 4
        &&& self.confidence_threshold == 150_000
        &&& self.include_title_as_alias
        &&& self.alias_min_length == 2
    }
}

impl Default for ExtractionConfig {
    fn default() -> (r: Self)
        ensures
            r.holds_defaults(),
    {
        let relation_types = vec![
            "synonyms".to_owned(),
            "antonyms".to_owned(),
            "translations".to_owned(),
        ];
        assert(relation_types.deep_view() =~= seq!["synonyms"@, "antonyms"@, "translations"@]);
        ExtractionConfig {
            store_raw_html: false,
            store_plain_text: true,
            parse_language_sections: true,
            parse_relations: true,
            language_allowlist: Vec::new(),
            min_definition_chars: 20,
            max_definitions_per_language: 32,
            relation_types,
            max_relations_per_type: 48,
            default_normalizer: "identity".to_owned(),
            language_normalizers: Vec::new(),
            nested_list_depth_limit: 4,
            confidence_threshold: 150_000,
            include_title_as_alias: true,
            alias_min_length: 2,
        }
    }
}

/// Where the archive is read from and the store is kept.
#[derive(Debug, Clone)]
pub struct InputConfig {
    pub zim_path: String,
    pub sqlite_path: String,
}

impl InputConfig {
    /// Whether every field has its default value.
    pub open spec fn holds_defaults(&self) -> bool {
        &&& self.zim_path@ == "tmp/wiktionary_en_all_nopic_2026-02.zim"@
        &&& self.sqlite_path@ == "out/wiktionary.sqlite"@
    }
}

impl Default for InputConfig {
    fn default() -> (r: Self)
        ensures
            r.holds_defaults(),
    {
        InputConfig {
            zim_path: "tmp/wiktionary_en_all_nopic_2026-02.zim".to_owned(),
            sqlite_path: "out/wiktionary.sqlite".to_owned(),
        }
    }
}

/// Which entries of the archive a run takes.
#[derive(Debug, Clone)]
pub struct SelectionConfig {
    pub start_index: u32,
    pub max_entries: Option<u32>,
    pub include_namespaces: Vec<String>,
    pub include_mime_prefixes: Vec<String>,
    pub exclude_url_prefixes: Vec<String>,
    pub exclude_title_prefixes: Vec<String>,
    pub skip_redirects: bool,
    pub require_title: bool,
}

impl SelectionConfig {
    /// Whether every field has its default value.
    pub open spec fn holds_defaults(&self) -> bool {
        &&& self.start_index == 0
        &&& self.max_entries is None
        &&& self.include_namespaces.deep_view() == seq!["A"@]
        &&& self.include_mime_prefixes.deep_view() == seq!["text/html"@]
        &&& self.exclude_url_prefixes.deep_view() == seq!["Special:"@, "Wiktionary:"@]
        &&& self.exclude_title_prefixes.deep_view() == seq!["Appendix:"@, "Reconstruction:"@]
        &&& self.skip_redirects
        &&& self.require_title
    }
}

impl Default for SelectionConfig {
    fn default() -> (r: Self)
        ensures
            r.holds_defaults(),
    {
        let include_namespaces = vec!["A".to_owned()];
        let include_mime_prefixes = vec!["text/html".to_owned()];
        let exclude_url_prefixes = vec!["Special:".to_owned(), "Wiktionary:".to_owned()];
        let exclude_title_prefixes = vec!["Appendix:".to_owned(), "Reconstruction:".to_owned()];
        assert(include_namespaces.deep_view() =~= seq!["A"@]);
        assert(include_mime_prefixes.deep_view() =~= seq!["text/html"@]);
        assert(exclude_url_prefixes.deep_view() =~= seq!["Special:"@, "Wiktionary:"@]);
        assert(exclude_title_prefixes.deep_view() =~= seq!["Appendix:"@, "Reconstruction:"@]);
        SelectionConfig {
            start_index: 0,
            max_entries: None,
            include_namespaces,
            include_mime_prefixes,
            exclude_url_prefixes,
            exclude_title_prefixes,
            skip_redirects: true,
            require_title: true,
        }
    }
}

/// How the store is opened and written.
#[derive(Debug, Clone)]
pub struct SqliteConfig {
    pub batch_size: usize,
    pub overwrite: bool,
    pub enable_fts: bool,
    pub journal_mode: String,
    pub synchronous: String,
    pub cache_size_kib: i64,
    pub busy_timeout_ms: u64,
}

impl SqliteConfig {
    /// Whether every field has its default value.
    pub open spec fn holds_defaults(&self) -> bool {
        &&& self.batch_size == 250
        &&& !self.overwrite
        &&& self.enable_fts
        &&& self.journal_mode@ == "WAL"@
        &&& self.synchronous@ == "NORMAL"@
        &&& self.cache_size_kib == 65_536
        &&& self.busy_timeout_ms == 5_000
    }
}

impl Default for SqliteConfig {
    fn default() -> (r: Self)
        ensures
            r.holds_defaults(),
    {
        SqliteConfig {
            batch_size: 250,
            overwrite: false,
            enable_fts: true,
            journal_mode: "WAL".to_owned(),
            synchronous: "NORMAL".to_owned(),
            cache_size_kib: 65_536,
            busy_timeout_ms: 5_000,
        }
    }
}

/// What a run reports while it goes.
#[derive(Debug, Clone)]
pub struct LoggingConfig {
    pub level: String,
    pub json: bool,
    pub progress_interval: u64,
}

impl LoggingConfig {
    /// Whether every field has its default value.
    pub open spec fn holds_defaults(&self) -> bool {
        &&& self.level@ == "info"@
        &&& !self.json
        &&& self.progress_interval == 1_000
    }
}

impl Default for LoggingConfig {
    fn default() -> (r: Self)
        ensures
            r.holds_defaults(),
    {
        LoggingConfig { level: "info".to_owned(), json: false, progress_interval: 1_000 }
    }
}

/// Whether and how often a run saves its position.
#[derive(Debug, Clone)]
pub struct CheckpointConfig {
    pub enabled: bool,
    pub resume: bool,
    pub name: String,
    pub every_n_entries: u64,
}

impl CheckpointConfig {
    /// Whether every field has its default value.
    pub open spec fn holds_defaults(&self) -> bool {
        &&& self.enabled
        &&& self.resume
        &&& self.name@ == "default"@
        &&& self.every_n_entries == 10_000
    }
}

impl Default for CheckpointConfig {
    fn default() -> (r: Self)
        ensures
            r.holds_defaults(),
    {
        CheckpointConfig { enabled: true, resume: true, name: "default".to_owned(), every_n_entries: 10_000 }
    }
}

/// How many threads extract, and how many jobs may wait for them.
#[derive(Debug, Clone)]
pub struct WorkerConfig {
    pub extraction_threads: usize,
    pub queue_capacity: usize,
}

/// `num_cpus::get`: the number of logical processors, which depends on the
/// machine; nothing is claimed of it.
pub assume_specification[ num_cpus::get ]() -> (n: usize)
;

impl WorkerConfig {
    /// The configuration for a machine with `logical` processors: one
    /// thread for each, at least one and at most eight.
    pub fn for_processors(logical: usize) -> (r: Self)
        ensures
            r.extraction_threads == if logical < 1 {
                1usize
            } else if logical > 8 {
                8usize
            } else {
                logical
            },
            r.queue_capacity == 2_048,
    {
        let threads: usize = if logical < 1 {
            1
        } else if logical > 8 {
            8
        } else {
            logical
        };
        WorkerConfig { extraction_threads: threads, queue_capacity: 2_048 }
    }
}

impl WorkerConfig {
    /// Whether every field has its default value.
    pub open spec fn holds_defaults(&self) -> bool {
        &&& 1 <= self.extraction_threads <= 8
        &&& self.queue_capacity == 2_048
    }
}

impl Default for WorkerConfig {
    fn default() -> (r: Self)
        ensures
            r.holds_defaults(),
    {
        WorkerConfig::for_processors(num_cpus::get())
    }
}

/// Whether and how the search index is brought up to date after a run.
#[derive(Debug, Clone)]
pub struct ReindexConfig {
    pub auto_incremental: bool,
    pub watermark_name: String,
    pub chunk_size: usize,
}

impl ReindexConfig {
    /// Whether every field has its default value.
    pub open spec fn holds_defaults(&self) -> bool {
        &&& self.auto_incremental
        &&& self.watermark_name@ == "default"@
        &&& self.chunk_size == 5_000
    }
}

impl Default for ReindexConfig {
    fn default() -> (r: Self)
        ensures
            r.holds_defaults(),
    {
        ReindexConfig { auto_incremental: true, watermark_name: "default".to_owned(), chunk_size: 5_000 }
    }
}

/// How pages are written out as JSON.
#[derive(Debug, Clone)]
pub struct ExportConfig {
    pub pretty: bool,
    pub include_raw_html: bool,
    pub json_lines: bool,
    pub batch_size: usize,
}

impl ExportConfig {
    /// Whether every field has its default value.
    pub open spec fn holds_defaults(&self) -> bool {
        &&& !self.pretty
        &&& !self.include_raw_html
        &&& self.json_lines
        &&& self.batch_size == 2_000
    }
}

impl Default for ExportConfig {
    fn default() -> (r: Self)
        ensures
            r.holds_defaults(),
    {
        ExportConfig { pretty: false, include_raw_html: false, json_lines: true, batch_size: 2_000 }
    }
}

/// Where release artifacts go.
#[derive(Debug, Clone)]
pub struct ReleaseConfig {
    pub artifact_dir: String,
    pub sample_db_name: String,
}

impl ReleaseConfig {
    /// Whether every field has its default value.
    pub open spec fn holds_defaults(&self) -> bool {
        &&& self.artifact_dir@ == "dist"@
        &&& self.sample_db_name@ == "wiktionary_sample.sqlite"@
    }
}

impl Default for ReleaseConfig {
    fn default() -> (r: Self)
        ensures
            r.holds_defaults(),
    {
        ReleaseConfig {
            artifact_dir: "dist".to_owned(),
            sample_db_name: "wiktionary_sample.sqlite".to_owned(),
        }
    }
}

/// Everything a run is configured with.
#[derive(Debug, Clone)]
pub struct Config {
    pub input: InputConfig,
    pub selection: SelectionConfig,
    pub extraction: ExtractionConfig,
    pub sqlite: SqliteConfig,
    pub logging: LoggingConfig,
    pub checkpoint: CheckpointConfig,
    pub workers: WorkerConfig,
    pub reindex: ReindexConfig,
    pub export: ExportConfig,
    pub release: ReleaseConfig,
}

impl Default for Config {
    fn default() -> (r: Self)
        ensures
            r.input.holds_defaults(),
            r.selection.holds_defaults(),
            r.extraction.holds_defaults(),
            r.sqlite.holds_defaults(),
            r.logging.holds_defaults(),
            r.checkpoint.holds_defaults(),
            r.workers.holds_defaults(),
            r.reindex.holds_defaults(),
            r.export.holds_defaults(),
            r.release.holds_defaults(),
    {
        Config {
            input: InputConfig::default(),
            selection: SelectionConfig::default(),
            extraction: ExtractionConfig::default(),
            sqlite: SqliteConfig::default(),
            logging: LoggingConfig::default(),
            checkpoint: CheckpointConfig::default(),
            workers: WorkerConfig::default(),
            reindex: ReindexConfig::default(),
            export: ExportConfig::default(),
            release: ReleaseConfig::default(),
        }
    }
}

/// What the command line sets for a conversion, over what the
/// configuration file says.
#[derive(Debug, Clone)]
pub struct ConvertOverrides {
    pub max_entries: Option<u32>,
    pub start_index: Option<u32>,
    pub overwrite: bool,
    pub no_resume: bool,
    pub checkpoint_name: Option<String>,
    pub extraction_threads: Option<usize>,
}

/// What the command line sets for a pass of the reindexer.
#[derive(Debug, Clone)]
pub struct ReindexOverrides {
    pub watermark_name: Option<String>,
    pub chunk_size: Option<usize>,
}

/// `given` where there is one, else `configured`.
pub open spec fn overridden<T>(configured: T, given: Option<T>) -> T {
    match given {
        Some(value) => value,
        None => configured,
    }
}

/// `n`, one at least.
pub open spec fn at_least_one(n: usize) -> usize {
    if n < 1 {
        1
    } else {
        n
    }
}

impl Config {
    /// Applies what the command line sets for a conversion: each value
    /// that is given replaces the configured one; the flags can switch
    /// overwriting on and resuming off, never the other way; a given
    /// number of threads is one at least.
    pub fn apply_convert_overrides(&mut self, overrides: ConvertOverrides)
        ensures
            final(self).selection.max_entries == match overrides.max_entries {
                Some(count) => Some(count),
                None => old(self).selection.max_entries,
            },
            final(self).selection.start_index == overridden(
                old(self).selection.start_index,
                overrides.start_index,
            ),
            final(self).sqlite.overwrite == (old(self).sqlite.overwrite || overrides.overwrite),
            final(self).checkpoint.resume == (old(self).checkpoint.resume && !overrides.no_resume),
            final(self).checkpoint.name@ == match overrides.checkpoint_name {
                Some(name) => name@,
                None => old(self).checkpoint.name@,
            },
            final(self).workers.extraction_threads == match overrides.extraction_threads {
                Some(threads) => at_least_one(threads),
                None => old(self).workers.extraction_threads,
            },
            final(self).workers.queue_capacity == old(self).workers.queue_capacity,
            final(self).checkpoint.enabled == old(self).checkpoint.enabled,
            final(self).checkpoint.every_n_entries == old(self).checkpoint.every_n_entries,
            final(self).selection.include_namespaces == old(self).selection.include_namespaces,
            final(self).selection.include_mime_prefixes == old(
                self,
            ).selection.include_mime_prefixes,
            final(self).selection.exclude_url_prefixes == old(self).selection.exclude_url_prefixes,
            final(self).selection.exclude_title_prefixes == old(
                self,
            ).selection.exclude_title_prefixes,
            final(self).selection.skip_redirects == old(self).selection.skip_redirects,
            final(self).selection.require_title == old(self).selection.require_title,
            final(self).sqlite.batch_size == old(self).sqlite.batch_size,
            final(self).sqlite.enable_fts == old(self).sqlite.enable_fts,
            final(self).sqlite.journal_mode == old(self).sqlite.journal_mode,
            final(self).sqlite.synchronous == old(self).sqlite.synchronous,
            final(self).sqlite.cache_size_kib == old(self).sqlite.cache_size_kib,
            final(self).sqlite.busy_timeout_ms == old(self).sqlite.busy_timeout_ms,
            final(self).input == old(self).input,
            final(self).extraction == old(self).extraction,
            final(self).logging == old(self).logging,
            final(self).reindex == old(self).reindex,
            final(self).export == old(self).export,
            final(self).release == old(self).release,
    {
        match overrides.max_entries {
            Some(count) => {
                self.selection.max_entries = Some(count);
            },
            None => {},
        }
        match overrides.start_index {
            Some(index) => {
                self.selection.start_index = index;
            },
            None => {},
        }
        if overrides.overwrite {
            self.sqlite.overwrite = true;
        }
        if overrides.no_resume {
            self.checkpoint.resume = false;
        }
        match overrides.checkpoint_name {
            Some(name) => {
                self.checkpoint.name = name;
            },
            None => {},
        }
        match overrides.extraction_threads {
            Some(threads) => {
                self.workers.extraction_threads = if threads < 1 {
                    1
                } else {
                    threads
                };
            },
            None => {},
        }
    }

    /// Applies what the command line sets for a pass of the reindexer: a
    /// store that is reindexed is never overwritten; a given chunk size is
    /// one at least.
    pub fn apply_reindex_overrides(&mut self, overrides: ReindexOverrides)
        ensures
            !final(self).sqlite.overwrite,
            final(self).reindex.watermark_name@ == match overrides.watermark_name {
                Some(name) => name@,
                None => old(self).reindex.watermark_name@,
            },
            final(self).reindex.chunk_size == match overrides.chunk_size {
                Some(size) => at_least_one(size),
                None => old(self).reindex.chunk_size,
            },
            final(self).reindex.auto_incremental == old(self).reindex.auto_incremental,
            final(self).sqlite.batch_size == old(self).sqlite.batch_size,
            final(self).sqlite.enable_fts == old(self).sqlite.enable_fts,
            final(self).sqlite.journal_mode == old(self).sqlite.journal_mode,
            final(self).sqlite.synchronous == old(self).sqlite.synchronous,
            final(self).sqlite.cache_size_kib == old(self).sqlite.cache_size_kib,
            final(self).sqlite.busy_timeout_ms == old(self).sqlite.busy_timeout_ms,
            final(self).input == old(self).input,
            final(self).selection == old(self).selection,
            final(self).extraction == old(self).extraction,
            final(self).logging == old(self).logging,
            final(self).checkpoint == old(self).checkpoint,
            final(self).workers == old(self).workers,
            final(self).export == old(self).export,
            final(self).release == old(self).release,
    {
        self.sqlite.overwrite = false;
        match overrides.watermark_name {
            Some(name) => {
                self.reindex.watermark_name = name;
            },
            None => {},
        }
        match overrides.chunk_size {
            Some(size) => {
                self.reindex.chunk_size = if size < 1 {
                    1
                } else {
                    size
                };
            },
            None => {},
        }
    }
}

} // verus!
