use zimrs::config::{
    CheckpointConfig, Config, ConvertOverrides, ExportConfig, ExtractionConfig, InputConfig,
    LoggingConfig, ReindexConfig, ReindexOverrides, ReleaseConfig, SelectionConfig, SqliteConfig,
    WorkerConfig, CONFIDENCE_ONE,
};
use zimrs::db::{CheckpointState, ReindexMetrics};
use zimrs::export::{
    after_page, before_page, closing, export_options, opening, ExportMetrics, ExportRequest,
};

#[test]
fn extraction_defaults() {
    let config = ExtractionConfig::default();
    assert!(!config.store_raw_html);
    assert!(config.store_plain_text);
    assert!(config.parse_language_sections);
    assert!(config.parse_relations);
    assert!(config.language_allowlist.is_empty());
    assert_eq!(config.min_definition_chars, 20);
    assert_eq!(config.max_definitions_per_language, 32);
    assert_eq!(config.relation_types, vec!["synonyms", "antonyms", "translations"]);
    assert_eq!(config.max_relations_per_type, 48);
    assert_eq!(config.default_normalizer, "identity");
    assert!(config.language_normalizers.is_empty());
    assert_eq!(config.nested_list_depth_limit, 4);
    assert_eq!(config.confidence_threshold, 150_000);
    assert_eq!(CONFIDENCE_ONE, 1_000_000);
    assert!(config.include_title_as_alias);
    assert_eq!(config.alias_min_length, 2);
}

#[test]
fn selection_and_input_defaults() {
    let selection = SelectionConfig::default();
    assert_eq!(selection.start_index, 0);
    assert_eq!(selection.max_entries, None);
    assert_eq!(selection.include_namespaces, vec!["A"]);
    assert_eq!(selection.include_mime_prefixes, vec!["text/html"]);
    assert_eq!(selection.exclude_url_prefixes, vec!["Special:", "Wiktionary:"]);
    assert_eq!(selection.exclude_title_prefixes, vec!["Appendix:", "Reconstruction:"]);
    assert!(selection.skip_redirects);
    assert!(selection.require_title);
    let input = InputConfig::default();
    assert_eq!(input.zim_path, "tmp/wiktionary_en_all_nopic_2026-02.zim");
    assert_eq!(input.sqlite_path, "out/wiktionary.sqlite");
}

#[test]
fn store_and_run_defaults() {
    let sqlite = SqliteConfig::default();
    assert_eq!(sqlite.batch_size, 250);
    assert!(!sqlite.overwrite);
    assert!(sqlite.enable_fts);
    assert_eq!(sqlite.journal_mode, "WAL");
    assert_eq!(sqlite.synchronous, "NORMAL");
    assert_eq!(sqlite.cache_size_kib, 65_536);
    assert_eq!(sqlite.busy_timeout_ms, 5_000);
    let logging = LoggingConfig::default();
    assert_eq!(logging.level, "info");
    assert!(!logging.json);
    assert_eq!(logging.progress_interval, 1_000);
    let checkpoint = CheckpointConfig::default();
    assert!(checkpoint.enabled && checkpoint.resume);
    assert_eq!(checkpoint.name, "default");
    assert_eq!(checkpoint.every_n_entries, 10_000);
    let reindex = ReindexConfig::default();
    assert!(reindex.auto_incremental);
    assert_eq!(reindex.watermark_name, "default");
    assert_eq!(reindex.chunk_size, 5_000);
    let export = ExportConfig::default();
    assert!(!export.pretty && !export.include_raw_html && export.json_lines);
    assert_eq!(export.batch_size, 2_000);
    let release = ReleaseConfig::default();
    assert_eq!(release.artifact_dir, "dist");
    assert_eq!(release.sample_db_name, "wiktionary_sample.sqlite");
}

#[test]
fn worker_defaults_follow_the_machine() {
    let workers = WorkerConfig::default();
    assert!(1 <= workers.extraction_threads && workers.extraction_threads <= 8);
    assert_eq!(workers.queue_capacity, 2_048);
    assert_eq!(WorkerConfig::for_processors(0).extraction_threads, 1);
    assert_eq!(WorkerConfig::for_processors(1).extraction_threads, 1);
    assert_eq!(WorkerConfig::for_processors(6).extraction_threads, 6);
    assert_eq!(WorkerConfig::for_processors(8).extraction_threads, 8);
    assert_eq!(WorkerConfig::for_processors(64).extraction_threads, 8);
}

#[test]
fn whole_config_defaults() {
    let config = Config::default();
    assert_eq!(config.selection.start_index, 0);
    assert_eq!(config.extraction.confidence_threshold, 150_000);
    assert_eq!(config.sqlite.batch_size, 250);
    assert_eq!(config.checkpoint.every_n_entries, 10_000);
    assert_eq!(config.workers.queue_capacity, 2_048);
}

#[test]
fn counts_start_at_zero() {
    let state = CheckpointState::default();
    assert_eq!(
        (state.last_processed_index, state.ingested_pages, state.extracted_definitions, state.extracted_relations),
        (0, 0, 0, 0)
    );
    let metrics = ReindexMetrics::default();
    assert_eq!(metrics.updated_pages, 0);
    assert_eq!(metrics.watermark, None);
    let export = ExportMetrics::default();
    assert_eq!(
        (export.exported_pages, export.exported_definitions, export.exported_relations, export.exported_aliases),
        (0, 0, 0, 0)
    );
}

#[test]
fn command_line_overrides_for_a_conversion() {
    let mut config = Config::default();
    config.apply_convert_overrides(ConvertOverrides {
        max_entries: Some(50),
        start_index: Some(7),
        overwrite: true,
        no_resume: true,
        checkpoint_name: Some("nightly".to_owned()),
        extraction_threads: Some(0),
    });
    assert_eq!(config.selection.max_entries, Some(50));
    assert_eq!(config.selection.start_index, 7);
    assert!(config.sqlite.overwrite);
    assert!(!config.checkpoint.resume);
    assert_eq!(config.checkpoint.name, "nightly");
    assert_eq!(config.workers.extraction_threads, 1);

    let mut config = Config::default();
    config.selection.max_entries = Some(9);
    config.workers.extraction_threads = 3;
    config.apply_convert_overrides(ConvertOverrides {
        max_entries: None,
        start_index: None,
        overwrite: false,
        no_resume: false,
        checkpoint_name: None,
        extraction_threads: None,
    });
    assert_eq!(config.selection.max_entries, Some(9));
    assert_eq!(config.selection.start_index, 0);
    assert!(!config.sqlite.overwrite);
    assert!(config.checkpoint.resume);
    assert_eq!(config.checkpoint.name, "default");
    assert_eq!(config.workers.extraction_threads, 3);
}

#[test]
fn command_line_overrides_for_a_reindex() {
    let mut config = Config::default();
    config.sqlite.overwrite = true;
    config.apply_reindex_overrides(ReindexOverrides {
        watermark_name: Some("w".to_owned()),
        chunk_size: Some(0),
    });
    assert!(!config.sqlite.overwrite);
    assert_eq!(config.reindex.watermark_name, "w");
    assert_eq!(config.reindex.chunk_size, 1);
    config.apply_reindex_overrides(ReindexOverrides { watermark_name: None, chunk_size: None });
    assert_eq!(config.reindex.watermark_name, "w");
    assert_eq!(config.reindex.chunk_size, 1);
}

#[test]
fn export_options_and_framing() {
    let mut config = Config::default();
    let request = |array: bool, pretty: bool, batch_size: Option<usize>| ExportRequest {
        output_path: "out.json".to_owned(),
        limit: Some(10),
        pretty,
        include_raw_html: false,
        array,
        batch_size,
    };
    let lines = export_options(&config, request(false, false, None));
    assert_eq!(lines.sqlite_path, "out/wiktionary.sqlite");
    assert_eq!(lines.output_path, "out.json");
    assert!(lines.json_lines && !lines.pretty && !lines.include_raw_html);
    assert_eq!(lines.limit, Some(10));
    assert_eq!(lines.batch_size, 2_000);
    assert_eq!(export_options(&config, request(false, false, Some(0))).batch_size, 1);
    assert_eq!(export_options(&config, request(false, false, Some(5))).batch_size, 5);
    assert_eq!(
        (opening(&lines), before_page(&lines, true), after_page(&lines), closing(&lines, true)),
        ("", "", "\n", "")
    );
    let array = export_options(&config, request(true, false, None));
    assert!(!array.json_lines);
    assert_eq!(
        (opening(&array), before_page(&array, false), before_page(&array, true), after_page(&array)),
        ("[", "", ",", "")
    );
    assert_eq!((closing(&array, false), closing(&array, true)), ("]", "]"));
    config.export.pretty = true;
    config.export.include_raw_html = true;
    let pretty = export_options(&config, request(true, false, None));
    assert!(pretty.pretty && pretty.include_raw_html);
    assert_eq!(before_page(&pretty, true), ",\n");
    assert_eq!((closing(&pretty, false), closing(&pretty, true)), ("]", "\n]"));
}
