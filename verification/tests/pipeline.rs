use zimrs::config::Config;
use zimrs::extractor::{mime_type_label, namespace_code, MimeType, Namespace};
use zimrs::patterns::Matchers;
use zimrs::pipeline::{
    build_page_from_html, classify_entry, job_meta, redirect_page, run_job, should_select_entry,
    DirectoryEntry, EntryAction, HtmlJob, HtmlJobMeta, RunMetrics, Target, WorkerJob,
};

fn matchers() -> Matchers {
    Matchers::new().expect("the engine's patterns compile")
}

fn article(url: &str, title: &str) -> DirectoryEntry {
    DirectoryEntry {
        url: url.to_owned(),
        title: title.to_owned(),
        namespace: Namespace::Articles,
        mime_type: MimeType::Type("text/html; charset=utf-8".to_owned()),
        target: Some(Target::Cluster(3, 7)),
    }
}

#[test]
fn namespace_codes() {
    let all = [
        (Namespace::Layout, "-"),
        (Namespace::Articles, "A"),
        (Namespace::ArticleMetaData, "B"),
        (Namespace::UserContent, "C"),
        (Namespace::ImagesFile, "I"),
        (Namespace::ImagesText, "J"),
        (Namespace::Metadata, "M"),
        (Namespace::CategoriesText, "U"),
        (Namespace::CategoriesArticleList, "V"),
        (Namespace::CategoriesArticle, "W"),
        (Namespace::FulltextIndex, "X"),
    ];
    for (namespace, code) in all {
        assert_eq!(namespace_code(namespace), code);
    }
}

#[test]
fn mime_labels() {
    assert_eq!(mime_type_label(&MimeType::Type("text/css".to_owned())), "text/css");
    assert_eq!(mime_type_label(&MimeType::Redirect), "redirect");
    assert_eq!(mime_type_label(&MimeType::LinkTarget), "link-target");
    assert_eq!(mime_type_label(&MimeType::DeletedEntry), "deleted");
}

#[test]
fn default_selection_takes_html_articles() {
    let config = Config::default();
    assert!(should_select_entry(&article("word", "word"), &config));
}

#[test]
fn selection_filters_by_namespace_title_prefixes_and_mime() {
    let config = Config::default();
    let mut entry = article("word", "word");
    entry.namespace = Namespace::Metadata;
    assert!(!should_select_entry(&entry, &config));
    assert!(!should_select_entry(&article("word", ""), &config));
    assert!(!should_select_entry(&article("word", " \t "), &config));
    assert!(!should_select_entry(&article("Special:Search", "Search"), &config));
    assert!(!should_select_entry(&article("Wiktionary:About", "About"), &config));
    assert!(!should_select_entry(&article("x", "Appendix:Glossary"), &config));
    assert!(!should_select_entry(&article("x", "Reconstruction:Proto"), &config));
    assert!(should_select_entry(&article("xSpecial:", "An Appendix:"), &config));
    let mut entry = article("word", "word");
    entry.mime_type = MimeType::Type("image/png".to_owned());
    assert!(!should_select_entry(&entry, &config));
    entry.mime_type = MimeType::Redirect;
    assert!(!should_select_entry(&entry, &config));
}

#[test]
fn empty_lists_switch_filters_off() {
    let mut config = Config::default();
    config.selection.include_namespaces.clear();
    config.selection.include_mime_prefixes.clear();
    config.selection.exclude_url_prefixes.clear();
    config.selection.exclude_title_prefixes.clear();
    config.selection.require_title = false;
    let entry = DirectoryEntry {
        url: "Special:x".to_owned(),
        title: "".to_owned(),
        namespace: Namespace::ImagesFile,
        mime_type: MimeType::DeletedEntry,
        target: None,
    };
    assert!(should_select_entry(&entry, &config));
}

#[test]
fn entries_are_classified_by_target() {
    let mut config = Config::default();
    config.selection.include_mime_prefixes.clear();
    assert_eq!(classify_entry(&article("w", "w"), &config), EntryAction::Extract(3, 7));
    let mut redirect = article("w", "w");
    redirect.mime_type = MimeType::Redirect;
    redirect.target = Some(Target::Redirect(12));
    assert_eq!(classify_entry(&redirect, &config), EntryAction::Filter);
    config.selection.skip_redirects = false;
    assert_eq!(classify_entry(&redirect, &config), EntryAction::StoreRedirect(12));
    let mut bare = article("w", "w");
    bare.target = None;
    assert_eq!(classify_entry(&bare, &config), EntryAction::ReportMissingTarget);
    bare.mime_type = MimeType::DeletedEntry;
    assert_eq!(classify_entry(&bare, &config), EntryAction::Filter);
    bare.mime_type = MimeType::LinkTarget;
    assert_eq!(classify_entry(&bare, &config), EntryAction::Filter);
    bare.mime_type = MimeType::Redirect;
    assert_eq!(classify_entry(&bare, &config), EntryAction::ReportMissingTarget);
    assert_eq!(classify_entry(&article("Special:x", "w"), &config), EntryAction::Filter);
}

#[test]
fn redirect_without_title_takes_the_title_of_its_target() {
    let mut entry = article("colour", "");
    entry.mime_type = MimeType::Redirect;
    entry.target = Some(Target::Redirect(5));
    let page = redirect_page(entry.clone(), Some(("color".to_owned(), "Color".to_owned())));
    assert_eq!(page.url, "colour");
    assert_eq!(page.title, "Color");
    assert_eq!(page.redirect_url.as_deref(), Some("color"));
    assert_eq!(page.namespace, "A");
    assert_eq!(page.mime_type, "redirect");
    assert!(page.definitions.is_empty() && page.relations.is_empty() && page.aliases.is_empty());
    assert_eq!(page.cluster_idx, None);
    assert_eq!(page.blob_idx, None);
    assert_eq!(page.content_sha256, None);
    assert_eq!(page.raw_html, None);
    assert_eq!(page.plain_text, None);
    assert_eq!(page.extraction_confidence, 0);

    let page = redirect_page(entry.clone(), None);
    assert_eq!(page.title, "colour");
    assert_eq!(page.redirect_url, None);

    entry.title = "Colour".to_owned();
    let page = redirect_page(entry, Some(("color".to_owned(), "Color".to_owned())));
    assert_eq!(page.title, "Colour");
}

#[test]
fn job_meta_falls_back_to_the_url() {
    let meta = job_meta(article("word", ""), 3, 7);
    assert_eq!(meta.title, "word");
    assert_eq!(meta.url, "word");
    assert_eq!((meta.cluster_idx, meta.blob_idx), (3, 7));
    assert_eq!(meta.namespace, "A");
    assert_eq!(meta.mime_type, "text/html; charset=utf-8");
    assert_eq!(job_meta(article("word", "Word"), 1, 2).title, "Word");
}

fn meta() -> HtmlJobMeta {
    HtmlJobMeta {
        url: "word".to_owned(),
        title: "Word".to_owned(),
        namespace: "A".to_owned(),
        mime_type: "text/html".to_owned(),
        cluster_idx: 3,
        blob_idx: 7,
    }
}

#[test]
fn page_is_built_from_html() {
    let m = matchers();
    let mut config = Config::default();
    config.extraction.min_definition_chars = 5;
    let html = "<h2>English</h2><ol><li>A first item of the list</li></ol>".to_owned();
    let page = build_page_from_html(&m, meta(), html.clone(), &config);
    assert_eq!(page.url, "word");
    assert_eq!(page.title, "Word");
    assert_eq!((page.cluster_idx, page.blob_idx), (Some(3), Some(7)));
    assert_eq!(page.redirect_url, None);
    assert_eq!(page.raw_html, None);
    assert_eq!(page.plain_text.as_deref(), Some("English A first item of the list"));
    assert_eq!(page.definitions.len(), 1);
    assert_eq!(page.extraction_confidence, 900_000);
    assert_eq!(page.content_sha256.as_deref().map(str::len), Some(64));
    assert_eq!(page.aliases.len(), 2);
    assert!(page.aliases.iter().all(|a| a.language.as_deref() == Some("English")));

    config.extraction.store_raw_html = true;
    let page = build_page_from_html(&m, meta(), html.clone(), &config);
    assert_eq!(page.raw_html, Some(html));
}

#[test]
fn worker_extracts_or_stops() {
    let m = matchers();
    let config = Config::default();
    assert!(run_job(&m, WorkerJob::Shutdown, &config).is_none());
    let job = WorkerJob::Html(HtmlJob { entry_index: 41, meta: meta(), html: "<p>x</p>".to_owned() });
    let result = run_job(&m, job, &config).expect("a result");
    assert_eq!(result.entry_index, 41);
    assert!(result.error.is_none());
    assert_eq!(result.page.expect("a page").plain_text.as_deref(), Some("x"));
}

#[test]
fn elapsed_time_never_goes_below_zero() {
    let mut metrics = RunMetrics::default();
    assert_eq!(metrics.elapsed_ms(), 0);
    metrics.started_unix_ms = 1_000;
    metrics.finished_unix_ms = 4_500;
    assert_eq!(metrics.elapsed_ms(), 3_500);
    metrics.finished_unix_ms = 999;
    assert_eq!(metrics.elapsed_ms(), 0);
}
