//! The decisions of an ingestion run: which entries it scans and takes,
//! what becomes of each, and what it counts.

use crate::config::{Config, ExtractionConfig, SelectionConfig};
use crate::extractor::{
    extract_from_html, extraction_of, mime_label_of, mime_type_label, namespace_code,
    namespace_code_of, sha256_hex, sha256_hex_of, ExtractedAlias,
    ExtractedDefinition, ExtractedPage, ExtractedRelation, MimeType, Namespace, PageView,
};
use crate::patterns::Matchers;
use crate::text::{char_len, same_text, starts_with, trim, trimmed};
use vstd::prelude::*;

verus! {

/// What a run counted.
#[derive(Debug, Clone)]
pub struct RunMetrics {
    pub started_unix_ms: u128,
    pub finished_unix_ms: u128,
    pub scanned_entries: u64,
    pub filtered_entries: u64,
    pub ingested_pages: u64,
    pub extracted_definitions: u64,
    pub extracted_relations: u64,
    pub extraction_errors: u64,
    pub checkpoint_updates: u64,
    pub resumed_from_checkpoint: bool,
    pub checkpoint_start_index: Option<u32>,
}

impl Default for RunMetrics {
    fn default() -> (r: Self)
        ensures
            r == RunMetrics::default_value(),
    {
        RunMetrics {
            started_unix_ms: 0,
            finished_unix_ms: 0,
            scanned_entries: 0,
            filtered_entries: 0,
            ingested_pages: 0,
            extracted_definitions: 0,
            extracted_relations: 0,
            extraction_errors: 0,
            checkpoint_updates: 0,
            resumed_from_checkpoint: false,
            checkpoint_start_index: None,
        }
    }
}

impl RunMetrics {
    /// The metrics of a run that has counted nothing yet.
    pub open spec fn default_value() -> RunMetrics {
        RunMetrics {
            started_unix_ms: 0,
            finished_unix_ms: 0,
            scanned_entries: 0,
            filtered_entries: 0,
            ingested_pages: 0,
            extracted_definitions: 0,
            extracted_relations: 0,
            extraction_errors: 0,
            checkpoint_updates: 0,
            resumed_from_checkpoint: false,
            checkpoint_start_index: None,
        }
    }

    /// The time the run took in milliseconds; 0 where the end is not
    /// after the start.
    pub open spec fn elapsed(self) -> nat {
        if self.finished_unix_ms >= self.started_unix_ms {
            (self.finished_unix_ms - self.started_unix_ms) as nat
        } else {
            0
        }
    }

    /// The time the run took in milliseconds; 0 where the end is not
    /// after the start.
    pub fn elapsed_ms(&self) -> (r: u128)
        ensures
            r == self.elapsed(),
    {
        if self.finished_unix_ms >= self.started_unix_ms {
            self.finished_unix_ms - self.started_unix_ms
        } else {
            0
        }
    }
}

/// Where the content of an entry is found.
#[derive(Debug, Clone, Copy, PartialEq, Eq, Structural)]
pub enum Target {
    /// The entry at this index stands for it.
    Redirect(u32),
    /// The blob at the second index of the cluster at the first.
    Cluster(u32, u32),
}

/// One entry of the directory of an archive.
#[derive(Debug, Clone)]
pub struct DirectoryEntry {
    pub url: String,
    pub title: String,
    pub namespace: Namespace,
    pub mime_type: MimeType,
    pub target: Option<Target>,
}

/// Whether `text` is one of `items`.
pub open spec fn is_listed(items: Seq<Seq<char>>, text: Seq<char>) -> bool {
    exists|i: int| 0 <= i < items.len() && #[trigger] items[i] == text
}

/// Whether `text` starts with one of `prefixes`.
pub open spec fn has_listed_prefix(prefixes: Seq<Seq<char>>, text: Seq<char>) -> bool {
    exists|i: int| 0 <= i < prefixes.len() && (#[trigger] prefixes[i]).is_prefix_of(text)
}

/// Whether `text` is one of `items`.
pub fn contains_text(items: &Vec<String>, text: &str) -> (r: bool)
    ensures
        r == is_listed(items.deep_view(), text@),
{
    let ghost all = items.deep_view();
    let mut i: usize = 0;
    while i < items.len()
        invariant
            i <= items.len(),
            all == items.deep_view(),
            forall|k: int| 0 <= k < i ==> #[trigger] all[k] != text@,
        decreases items.len() - i,
    {
        assert(all[i as int] == items@[i as int]@);
        if same_text(items[i].as_str(), text) {
            return true;
        }
        i += 1;
    }
    false
}

/// Whether `text` starts with one of `prefixes`.
pub fn starts_with_any(prefixes: &Vec<String>, text: &str) -> (r: bool)
    ensures
        r == has_listed_prefix(prefixes.deep_view(), text@),
{
    let ghost all = prefixes.deep_view();
    let mut i: usize = 0;
    while i < prefixes.len()
        invariant
            i <= prefixes.len(),
            all == prefixes.deep_view(),
            forall|k: int| 0 <= k < i ==> !(#[trigger] all[k]).is_prefix_of(text@),
        decreases prefixes.len() - i,
    {
        assert(all[i as int] == prefixes@[i as int]@);
        if starts_with(text, prefixes[i].as_str()) {
            return true;
        }
        i += 1;
    }
    false
}

/// Whether the selection takes an entry: its namespace is among those
/// included, if any are named; it has a title besides whitespace, if one
/// is required; neither its URL nor its title starts with an excluded
/// prefix; and its content's label starts with an included prefix, if any
/// are named.
pub open spec fn entry_selected(entry: &DirectoryEntry, selection: &SelectionConfig) -> bool {
    &&& selection.include_namespaces@.len() == 0 || is_listed(
        selection.include_namespaces.deep_view(),
        namespace_code_of(entry.namespace),
    )
    &&& !(selection.require_title && trimmed(entry.title@).len() == 0)
    &&& !has_listed_prefix(selection.exclude_url_prefixes.deep_view(), entry.url@)
    &&& !has_listed_prefix(selection.exclude_title_prefixes.deep_view(), entry.title@)
    &&& selection.include_mime_prefixes@.len() == 0 || has_listed_prefix(
        selection.include_mime_prefixes.deep_view(),
        mime_label_of(entry.mime_type),
    )
}

/// Whether the selection of `config` takes an entry.
pub fn should_select_entry(entry: &DirectoryEntry, config: &Config) -> (r: bool)
    ensures
        r == entry_selected(entry, &config.selection),
{
    let selection = &config.selection;
    if selection.include_namespaces.len() != 0 && !contains_text(
        &selection.include_namespaces,
        namespace_code(entry.namespace),
    ) {
        return false;
    }
    if selection.require_title && char_len(trim(entry.title.as_str())) == 0 {
        return false;
    }
    if starts_with_any(&selection.exclude_url_prefixes, entry.url.as_str()) {
        return false;
    }
    if starts_with_any(&selection.exclude_title_prefixes, entry.title.as_str()) {
        return false;
    }
    let mime = mime_type_label(&entry.mime_type);
    if selection.include_mime_prefixes.len() != 0 && !starts_with_any(
        &selection.include_mime_prefixes,
        mime.as_str(),
    ) {
        return false;
    }
    true
}

/// What a run does with an entry.
#[derive(Debug, Clone, Copy, PartialEq, Eq, Structural)]
pub enum EntryAction {
    /// Leave it out; this is no error.
    Filter,
    /// Store it as a page without content that stands for the entry at
    /// this index.
    StoreRedirect(u32),
    /// Read its content and extract from it.
    Extract(u32, u32),
    /// Count it as an error: it has no content and is no marker.
    ReportMissingTarget,
}

/// What a run does with an entry: it filters what the selection does not
/// take, redirects where they are to be skipped, and markers of deleted
/// entries and link targets without content.
pub open spec fn entry_action(entry: &DirectoryEntry, config: &Config) -> EntryAction {
    if !entry_selected(entry, &config.selection) {
        EntryAction::Filter
    } else {
        match entry.target {
            Some(Target::Redirect(index)) => if config.selection.skip_redirects {
                EntryAction::Filter
            } else {
                EntryAction::StoreRedirect(index)
            },
            Some(Target::Cluster(cluster, blob)) => EntryAction::Extract(cluster, blob),
            None => match entry.mime_type {
                MimeType::DeletedEntry => EntryAction::Filter,
                MimeType::LinkTarget => EntryAction::Filter,
                _ => EntryAction::ReportMissingTarget,
            },
        }
    }
}

/// What a run does with an entry.
pub fn classify_entry(entry: &DirectoryEntry, config: &Config) -> (r: EntryAction)
    ensures
        r == entry_action(entry, config),
{
    if !should_select_entry(entry, config) {
        return EntryAction::Filter;
    }
    match entry.target {
        Some(Target::Redirect(index)) => {
            if config.selection.skip_redirects {
                EntryAction::Filter
            } else {
                EntryAction::StoreRedirect(index)
            }
        },
        Some(Target::Cluster(cluster, blob)) => EntryAction::Extract(cluster, blob),
        None => match entry.mime_type {
            MimeType::DeletedEntry => EntryAction::Filter,
            MimeType::LinkTarget => EntryAction::Filter,
            _ => EntryAction::ReportMissingTarget,
        },
    }
}

/// The page of a redirect: no content, nothing extracted. Where the entry
/// has no title, the page takes that of the entry it stands for, or the
/// entry's own URL where that entry could not be read. `target` is the URL
/// and the title of the entry it stands for.
pub open spec fn redirect_page_of(entry: &DirectoryEntry, target: Option<(String, String)>) -> PageView {
    PageView {
        url: entry.url@,
        title: if entry.title@.len() > 0 {
            entry.title@
        } else {
            match target {
                Some(found) => found.1@,
                None => entry.url@,
            }
        },
        namespace: namespace_code_of(entry.namespace),
        mime_type: mime_label_of(entry.mime_type),
        cluster_idx: None,
        blob_idx: None,
        redirect_url: match target {
            Some(found) => Some(found.0@),
            None => None,
        },
        content_sha256: None,
        raw_html: None,
        plain_text: None,
        extraction_confidence: 0,
        definitions: Seq::empty(),
        relations: Seq::empty(),
        aliases: Seq::empty(),
    }
}

/// The page of a redirect entry.
pub fn redirect_page(entry: DirectoryEntry, target: Option<(String, String)>) -> (page: ExtractedPage)
    ensures
        page@ == redirect_page_of(&entry, target),
{
    let namespace = namespace_code(entry.namespace).to_owned();
    let mime_type = mime_type_label(&entry.mime_type);
    let (redirect_url, target_title) = match target {
        Some((url, title)) => (Some(url), Some(title)),
        None => (None, None),
    };
    let title = if char_len(entry.title.as_str()) > 0 {
        entry.title
    } else {
        match target_title {
            Some(title) => title,
            None => entry.url.clone(),
        }
    };
    let definitions: Vec<ExtractedDefinition> = Vec::new();
    let relations: Vec<ExtractedRelation> = Vec::new();
    let aliases: Vec<ExtractedAlias> = Vec::new();
    assert(definitions.deep_view() =~= Seq::empty());
    assert(relations.deep_view() =~= Seq::empty());
    assert(aliases.deep_view() =~= Seq::empty());
    ExtractedPage {
        url: entry.url,
        title,
        namespace,
        mime_type,
        cluster_idx: None,
        blob_idx: None,
        redirect_url,
        content_sha256: None,
        raw_html: None,
        plain_text: None,
        extraction_confidence: 0,
        definitions,
        relations,
        aliases,
    }
}

/// What is known of a page before its HTML is read.
#[derive(Debug, Clone)]
pub struct HtmlJobMeta {
    pub url: String,
    pub title: String,
    pub namespace: String,
    pub mime_type: String,
    pub cluster_idx: u32,
    pub blob_idx: u32,
}

/// What is known of the page of an entry with content; an entry without
/// a title takes its URL as its title.
pub fn job_meta(entry: DirectoryEntry, cluster_idx: u32, blob_idx: u32) -> (meta: HtmlJobMeta)
    ensures
        meta.url@ == entry.url@,
        meta.title@ == if entry.title@.len() > 0 {
            entry.title@
        } else {
            entry.url@
        },
        meta.namespace@ == namespace_code_of(entry.namespace),
        meta.mime_type@ == mime_label_of(entry.mime_type),
        meta.cluster_idx == cluster_idx,
        meta.blob_idx == blob_idx,
{
    let namespace = namespace_code(entry.namespace).to_owned();
    let mime_type = mime_type_label(&entry.mime_type);
    let title = if char_len(entry.title.as_str()) > 0 {
        entry.title
    } else {
        entry.url.clone()
    };
    HtmlJobMeta { url: entry.url, title, namespace, mime_type, cluster_idx, blob_idx }
}

/// The page that the HTML of an entry gives.
pub open spec fn html_page_of(meta: &HtmlJobMeta, html: Seq<char>, config: &ExtractionConfig) -> PageView {
    let extraction = extraction_of(meta.title@, html, config);
    PageView {
        url: meta.url@,
        title: meta.title@,
        namespace: meta.namespace@,
        mime_type: meta.mime_type@,
        cluster_idx: Some(meta.cluster_idx),
        blob_idx: Some(meta.blob_idx),
        redirect_url: None,
        content_sha256: Some(sha256_hex_of(html)),
        raw_html: if config.store_raw_html {
            Some(html)
        } else {
            None
        },
        plain_text: extraction.plain_text,
        extraction_confidence: extraction.extraction_confidence,
        definitions: extraction.definitions,
        relations: extraction.relations,
        aliases: extraction.aliases,
    }
}

/// Builds the page of an entry from its HTML: the digest of the HTML, what
/// the engine extracts from it, and the HTML itself where it is to be
/// stored.
pub fn build_page_from_html(m: &Matchers, meta: HtmlJobMeta, html: String, config: &Config) -> (page:
    ExtractedPage)
    ensures
        page@ == html_page_of(&meta, html@, &config.extraction),
{
    let content_sha256 = Some(sha256_hex(html.as_str()));
    let extraction = extract_from_html(m, meta.title.as_str(), html.as_str(), &config.extraction);
    let raw_html = if config.extraction.store_raw_html {
        Some(html)
    } else {
        None
    };
    ExtractedPage {
        url: meta.url,
        title: meta.title,
        namespace: meta.namespace,
        mime_type: meta.mime_type,
        cluster_idx: Some(meta.cluster_idx),
        blob_idx: Some(meta.blob_idx),
        redirect_url: None,
        content_sha256,
        raw_html,
        plain_text: extraction.plain_text,
        extraction_confidence: extraction.extraction_confidence,
        definitions: extraction.definitions,
        relations: extraction.relations,
        aliases: extraction.aliases,
    }
}

/// The HTML of one entry, to be extracted from.
#[derive(Debug)]
pub struct HtmlJob {
    pub entry_index: u32,
    pub meta: HtmlJobMeta,
    pub html: String,
}

/// What a worker is handed: a page to extract from, or the word to stop.
#[derive(Debug)]
pub enum WorkerJob {
    Html(HtmlJob),
    Shutdown,
}

/// What a worker hands back for one job.
#[derive(Debug)]
pub struct WorkerResult {
    pub entry_index: u32,
    pub page: Option<ExtractedPage>,
    pub error: Option<String>,
}

/// What a worker does with one job: on the word to stop it hands back
/// nothing and ends; else it hands back the page of the entry.
pub fn run_job(m: &Matchers, job: WorkerJob, config: &Config) -> (r: Option<WorkerResult>)
    ensures
        match job {
            WorkerJob::Shutdown => r is None,
            WorkerJob::Html(html_job) => match r {
                Some(result) => result.entry_index == html_job.entry_index && result.error is None
                    && match result.page {
                    Some(page) => page@ == html_page_of(
                        &html_job.meta,
                        html_job.html@,
                        &config.extraction,
                    ),
                    None => false,
                },
                None => false,
            },
        },
{
    match job {
        WorkerJob::Shutdown => None,
        WorkerJob::Html(html_job) => {
            let page = build_page_from_html(m, html_job.meta, html_job.html, config);
            Some(WorkerResult { entry_index: html_job.entry_index, page: Some(page), error: None })
        },
    }
}

} // verus!
