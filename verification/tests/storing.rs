use zimrs::db::{
    migration_steps, page_write_plan, MigrationStep, ReindexMetrics, ReindexPass, WriteOp,
    TARGET_SCHEMA_VERSION,
};
use zimrs::export::next_batch_limit;
use zimrs::extractor::{ExtractedAlias, ExtractedDefinition, ExtractedPage, ExtractedRelation};
use zimrs::verify::{
    assess_archive, count_zero_bytes, magic_ok, read_le_u32, tail_all_zero, tail_read_length,
    ArchiveState, VerifyOptions, ZIM_MAGIC_NUMBER,
};

/// The pages of a store as the reindexer sees them: their update times.
struct Pages {
    updated_at: Vec<String>,
    watermark: Option<String>,
    indexed: Vec<String>,
}

impl Pages {
    fn fetch(&self, after: &Option<String>, limit: usize) -> Vec<String> {
        let mut rows: Vec<String> = self
            .updated_at
            .iter()
            .filter(|at| after.as_ref().map_or(true, |mark| *at > mark))
            .cloned()
            .collect();
        rows.sort();
        rows.truncate(limit);
        rows
    }

    fn reindex(&mut self, chunk_size: usize) -> ReindexMetrics {
        let mut pass = ReindexPass::begin(self.watermark.clone());
        loop {
            let chunk = self.fetch(&pass.watermark, chunk_size);
            self.indexed.extend(chunk.iter().cloned());
            if !pass.absorb(&chunk) {
                break;
            }
        }
        let (metrics, to_store) = pass.finish();
        if let Some(mark) = to_store {
            self.watermark = Some(mark);
        }
        metrics
    }
}

fn pages(times: &[&str]) -> Pages {
    Pages {
        updated_at: times.iter().map(|t| (*t).to_owned()).collect(),
        watermark: None,
        indexed: Vec::new(),
    }
}

#[test]
fn reindex_walks_all_pages_in_chunks() {
    let mut store = pages(&["t3", "t1", "t5", "t2", "t4"]);
    let metrics = store.reindex(2);
    assert_eq!(metrics.updated_pages, 5);
    assert_eq!(metrics.watermark.as_deref(), Some("t5"));
    assert_eq!(store.watermark.as_deref(), Some("t5"));
    assert_eq!(store.indexed, vec!["t1", "t2", "t3", "t4", "t5"]);
}

#[test]
fn second_reindex_updates_nothing_and_keeps_the_watermark() {
    let mut store = pages(&["t3", "t1", "t2"]);
    let first = store.reindex(2);
    assert_eq!(first.updated_pages, 3);
    assert_eq!(store.watermark.as_deref(), Some("t3"));
    let second = store.reindex(2);
    assert_eq!(second.updated_pages, 0);
    assert_eq!(second.watermark.as_deref(), Some("t3"));
    assert_eq!(store.watermark.as_deref(), Some("t3"));
    assert_eq!(store.indexed.len(), 3);
}

#[test]
fn reindex_takes_up_after_the_watermark() {
    let mut store = pages(&["t1", "t2"]);
    store.reindex(10);
    store.updated_at.push("t9".to_owned());
    store.indexed.clear();
    let metrics = store.reindex(10);
    assert_eq!(metrics.updated_pages, 1);
    assert_eq!(store.indexed, vec!["t9"]);
    assert_eq!(store.watermark.as_deref(), Some("t9"));
}

#[test]
fn empty_stored_watermark_means_from_the_beginning() {
    let pass = ReindexPass::begin(Some(String::new()));
    assert_eq!(pass.watermark, None);
    assert_eq!(pass.updated_pages, 0);
    let pass = ReindexPass::begin(None);
    assert_eq!(pass.watermark, None);
    let pass = ReindexPass::begin(Some("t1".to_owned()));
    assert_eq!(pass.watermark.as_deref(), Some("t1"));
}

#[test]
fn pass_without_pages_stores_nothing() {
    let mut pass = ReindexPass::begin(Some("t1".to_owned()));
    assert!(!pass.absorb(&Vec::new()));
    let (metrics, to_store) = pass.finish();
    assert_eq!(metrics.updated_pages, 0);
    assert_eq!(metrics.watermark.as_deref(), Some("t1"));
    assert_eq!(to_store, None);

    let mut pass = ReindexPass::begin(None);
    assert!(pass.absorb(&vec!["t2".to_owned(), "t4".to_owned()]));
    assert_eq!(pass.watermark.as_deref(), Some("t4"));
    assert_eq!(pass.updated_pages, 2);
    let (metrics, to_store) = pass.finish();
    assert_eq!(metrics.updated_pages, 2);
    assert_eq!(to_store.as_deref(), Some("t4"));
}

#[test]
fn migration_from_a_fresh_store() {
    assert_eq!(TARGET_SCHEMA_VERSION, 3);
    assert_eq!(
        migration_steps(0, true),
        vec![
            MigrationStep::EnableForeignKeys,
            MigrationStep::CreateBaseTables,
            MigrationStep::SetVersion(1),
            MigrationStep::AddRelationTables,
            MigrationStep::SetVersion(2),
            MigrationStep::CreateIndexes,
            MigrationStep::SetVersion(3),
            MigrationStep::CreateSearchIndex,
        ]
    );
}

#[test]
fn migrates_from_legacy_schema() {
    let steps = migration_steps(1, true);
    let version = steps.iter().rev().find_map(|step| match step {
        MigrationStep::SetVersion(version) => Some(*version),
        _ => None,
    });
    assert_eq!(version, Some(TARGET_SCHEMA_VERSION));
    assert_eq!(
        steps,
        vec![
            MigrationStep::EnableForeignKeys,
            MigrationStep::AddRelationTables,
            MigrationStep::SetVersion(2),
            MigrationStep::CreateIndexes,
            MigrationStep::SetVersion(3),
            MigrationStep::CreateSearchIndex,
        ]
    );
    assert!(steps.contains(&MigrationStep::AddRelationTables));
    assert_eq!(
        migration_steps(2, false),
        vec![MigrationStep::EnableForeignKeys, MigrationStep::CreateIndexes, MigrationStep::SetVersion(3)]
    );
}

#[test]
fn migration_of_a_current_or_newer_store() {
    assert_eq!(migration_steps(3, false), vec![MigrationStep::EnableForeignKeys]);
    assert_eq!(
        migration_steps(3, true),
        vec![MigrationStep::EnableForeignKeys, MigrationStep::CreateSearchIndex]
    );
    // a store past the current schema is given no version: migration
    // goes forward only
    assert_eq!(migration_steps(7, false), vec![MigrationStep::EnableForeignKeys]);
    assert_eq!(
        migration_steps(4, true),
        vec![MigrationStep::EnableForeignKeys, MigrationStep::CreateSearchIndex]
    );
    assert_eq!(migration_steps(-1, false).len(), 7);
}

fn page(definitions: usize, relations: usize, aliases: usize) -> ExtractedPage {
    ExtractedPage {
        url: "u".to_owned(),
        title: "t".to_owned(),
        namespace: "A".to_owned(),
        mime_type: "text/html".to_owned(),
        cluster_idx: None,
        blob_idx: None,
        redirect_url: None,
        content_sha256: None,
        raw_html: None,
        plain_text: None,
        extraction_confidence: 0,
        definitions: (0..definitions)
            .map(|i| ExtractedDefinition {
                language: "English".to_owned(),
                order_in_language: i,
                text: "x".to_owned(),
                normalized_text: "x".to_owned(),
                confidence: 1,
            })
            .collect(),
        relations: (0..relations)
            .map(|i| ExtractedRelation {
                language: "English".to_owned(),
                relation_type: "synonyms".to_owned(),
                order_in_type: i,
                source_text: "x".to_owned(),
                target_term: "x".to_owned(),
                normalized_target: "x".to_owned(),
                confidence: 1,
            })
            .collect(),
        aliases: (0..aliases)
            .map(|_| ExtractedAlias {
                language: None,
                alias: "x".to_owned(),
                normalized_alias: "x".to_owned(),
                source: "title".to_owned(),
            })
            .collect(),
    }
}

#[test]
fn write_plan_deletes_before_it_inserts() {
    assert_eq!(
        page_write_plan(&page(2, 1, 1), true),
        vec![
            WriteOp::Savepoint,
            WriteOp::UpsertPage,
            WriteOp::DeleteDefinitions,
            WriteOp::DeleteRelations,
            WriteOp::DeleteAliases,
            WriteOp::InsertDefinition(0),
            WriteOp::InsertDefinition(1),
            WriteOp::InsertRelation(0),
            WriteOp::InsertAlias(0),
            WriteOp::DeleteSearchRow,
            WriteOp::InsertSearchRow,
            WriteOp::Release,
        ]
    );
    assert_eq!(
        page_write_plan(&page(0, 0, 0), false),
        vec![
            WriteOp::Savepoint,
            WriteOp::UpsertPage,
            WriteOp::DeleteDefinitions,
            WriteOp::DeleteRelations,
            WriteOp::DeleteAliases,
            WriteOp::Release,
        ]
    );
}

#[test]
fn export_batches_shrink_at_the_limit() {
    assert_eq!(next_batch_limit(None, 0, 100), 100);
    assert_eq!(next_batch_limit(None, 1_000, 0), 1);
    assert_eq!(next_batch_limit(Some(250), 0, 100), 100);
    assert_eq!(next_batch_limit(Some(250), 200, 100), 50);
    assert_eq!(next_batch_limit(Some(250), 250, 100), 0);
    assert_eq!(next_batch_limit(Some(250), 300, 100), 0);
    assert_eq!(next_batch_limit(Some(0), 0, 100), 0);
}

#[test]
fn archive_magic_is_checked_low_byte_first() {
    assert!(magic_ok(&ZIM_MAGIC_NUMBER.to_le_bytes()));
    assert!(magic_ok(&[0x5A, 0x49, 0x4D, 0x04]));
    assert!(!magic_ok(&ZIM_MAGIC_NUMBER.to_be_bytes()));
    assert!(!magic_ok(&[0, 0, 0, 0]));
}

#[test]
fn tail_window_is_held_between_64_and_the_file_size() {
    let options = |tail_window_bytes| VerifyOptions { checksum: false, tail_window_bytes };
    assert_eq!(tail_read_length(&options(0), 1_000), 64);
    assert_eq!(tail_read_length(&options(4_096), 100_000), 4_096);
    assert_eq!(tail_read_length(&options(4_096), 80), 80);
    assert_eq!(tail_read_length(&options(10), 20), 20);
}

#[test]
fn zeroed_tails_are_told() {
    assert_eq!(count_zero_bytes(&vec![0, 1, 0, 2, 0]), 3);
    assert!(tail_all_zero(&vec![0; 64]));
    assert!(!tail_all_zero(&vec![0, 0, 1]));
    assert!(tail_all_zero(&Vec::new()));
}

/// What a store holds for one URL, and the writes made to it.
#[derive(Debug, Clone, PartialEq, Default)]
struct Row {
    title: String,
    definitions: Vec<String>,
    relations: Vec<String>,
    aliases: Vec<String>,
    search_row: Option<String>,
}

/// Makes the first `until` writes of the plan of `page`; where that is not
/// all of them, a write has failed and the store goes back to the mark.
fn write_some(
    store: &mut std::collections::BTreeMap<String, Row>,
    page: &ExtractedPage,
    enable_fts: bool,
    until: usize,
) {
    let plan = page_write_plan(page, enable_fts);
    let mut marked: Option<std::collections::BTreeMap<String, Row>> = None;
    for op in plan.iter().take(until) {
        match op {
            WriteOp::Savepoint => marked = Some(store.clone()),
            WriteOp::Release => marked = None,
            WriteOp::UpsertPage => {
                store.entry(page.url.clone()).or_default().title = page.title.clone()
            }
            other => {
                let row = store.get_mut(&page.url).expect("the page is written first");
                match other {
                    WriteOp::DeleteDefinitions => row.definitions.clear(),
                    WriteOp::DeleteRelations => row.relations.clear(),
                    WriteOp::DeleteAliases => row.aliases.clear(),
                    WriteOp::InsertDefinition(at) => {
                        row.definitions.push(page.definitions[*at].text.clone())
                    }
                    WriteOp::InsertRelation(at) => {
                        row.relations.push(page.relations[*at].target_term.clone())
                    }
                    WriteOp::InsertAlias(at) => row.aliases.push(page.aliases[*at].alias.clone()),
                    WriteOp::DeleteSearchRow => row.search_row = None,
                    WriteOp::InsertSearchRow => row.search_row = Some(page.title.clone()),
                    _ => {}
                }
            }
        }
    }
    if until < plan.len() {
        if let Some(before) = marked {
            *store = before;
        }
    }
}

fn write(store: &mut std::collections::BTreeMap<String, Row>, page: &ExtractedPage, enable_fts: bool) {
    write_some(store, page, enable_fts, usize::MAX);
}

#[test]
fn a_failed_write_leaves_the_rows_as_they_were() {
    let mut store = std::collections::BTreeMap::new();
    write(&mut store, &page(3, 2, 1), true);
    let before = store.clone();
    let mut later = page(2, 1, 0);
    later.title = "later".to_owned();
    let steps = page_write_plan(&later, true).len();
    for until in 0..steps {
        write_some(&mut store, &later, true, until);
        assert_eq!(store, before, "after {until} writes");
    }
    write_some(&mut store, &later, true, steps);
    assert_eq!(store["u"].title, "later");
    assert_eq!(store["u"].definitions.len(), 2);
    let mut fresh = std::collections::BTreeMap::new();
    write_some(&mut fresh, &later, false, 3);
    assert!(fresh.is_empty());
}

#[test]
fn writing_a_page_again_changes_nothing() {
    let mut store = std::collections::BTreeMap::new();
    let mut first = page(3, 2, 1);
    first.title = "first".to_owned();
    write(&mut store, &first, true);
    let once = store.clone();
    write(&mut store, &first, true);
    assert_eq!(store, once);
    assert_eq!(store["u"].definitions.len(), 3);
    assert_eq!(store["u"].search_row.as_deref(), Some("first"));
}

#[test]
fn writing_a_page_replaces_what_hung_on_its_url() {
    let mut store = std::collections::BTreeMap::new();
    write(&mut store, &page(3, 2, 1), true);
    let mut later = page(1, 0, 0);
    later.title = "later".to_owned();
    write(&mut store, &later, false);
    assert_eq!(
        store["u"],
        Row {
            title: "later".to_owned(),
            definitions: vec!["x".to_owned()],
            relations: Vec::new(),
            aliases: Vec::new(),
            search_row: Some("t".to_owned()),
        }
    );
    let mut other = page(0, 0, 2);
    other.url = "v".to_owned();
    let mut one = store.clone();
    write(&mut one, &other, true);
    write(&mut one, &later, true);
    let mut two = store.clone();
    write(&mut two, &later, true);
    write(&mut two, &other, true);
    assert_eq!(one, two);
}

#[test]
fn archives_are_assessed_by_size_then_magic_then_tail() {
    let options = VerifyOptions { checksum: true, tail_window_bytes: 64 };
    let magic = ZIM_MAGIC_NUMBER.to_le_bytes();
    let tail = vec![0, 0, 7];
    assert_eq!(assess_archive(79, &magic, &tail, &options), ArchiveState::TooSmall);
    assert_eq!(assess_archive(79, &[1, 0, 0, 0], &vec![0], &options), ArchiveState::TooSmall);
    assert_eq!(
        assess_archive(80, &[1, 2, 0, 0], &vec![0], &options),
        ArchiveState::WrongMagic(513)
    );
    assert_eq!(assess_archive(80, &magic, &vec![0; 64], &options), ArchiveState::ZeroedTail);
    assert_eq!(
        assess_archive(80, &magic, &tail, &options),
        ArchiveState::Readable { verify_checksum: true }
    );
    let lax = VerifyOptions { checksum: false, tail_window_bytes: 64 };
    assert_eq!(
        assess_archive(1_000, &magic, &tail, &lax),
        ArchiveState::Readable { verify_checksum: false }
    );
    assert_eq!(read_le_u32(&magic), ZIM_MAGIC_NUMBER);
    assert_eq!(read_le_u32(&[0xFF, 0xFF, 0xFF, 0xFF]), u32::MAX);
}
