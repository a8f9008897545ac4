//! What the run keeps in the store besides pages: its checkpoint and the
//! watermark of the search index.

use crate::extractor::{optional_string, ExtractedPage};
use crate::run::{count_up, counted};
use crate::text::char_len;
use vstd::prelude::*;

verus! {

/// The position a run has scanned up to, and what it had counted by then.
#[derive(Debug, Clone, Copy, PartialEq, Eq, Structural)]
pub struct CheckpointState {
    pub last_processed_index: u32,
    pub ingested_pages: u64,
    pub extracted_definitions: u64,
    pub extracted_relations: u64,
}

impl Default for CheckpointState {
    fn default() -> (r: Self)
        ensures
            r.last_processed_index == 0,
            r.ingested_pages == 0,
            r.extracted_definitions == 0,
            r.extracted_relations == 0,
    {
        CheckpointState {
            last_processed_index: 0,
            ingested_pages: 0,
            extracted_definitions: 0,
            extracted_relations: 0,
        }
    }
}

/// What a pass of the reindexer did: how many pages it indexed anew, and
/// the watermark it ended at.
#[derive(Debug, Clone)]
pub struct ReindexMetrics {
    pub updated_pages: u64,
    pub watermark: Option<String>,
}

impl Default for ReindexMetrics {
    fn default() -> (r: Self)
        ensures
            r.updated_pages == 0,
            r.watermark is None,
    {
        ReindexMetrics { updated_pages: 0, watermark: None }
    }
}

/// The version of the schema that a migrated store has.
pub const TARGET_SCHEMA_VERSION: i64 = 3;

/// One step of bringing a store to the current schema. Each step can be
/// taken again without harm.
#[derive(Debug, Clone, Copy, PartialEq, Eq, Structural)]
pub enum MigrationStep {
    /// Turn on the checking of foreign keys.
    EnableForeignKeys,
    /// Create the tables of pages, definitions and runs if they are not
    /// there.
    CreateBaseTables,
    /// Create the table of runs if it is not there; add the confidence of
    /// pages, the normalized text and confidence of definitions, and the
    /// relation count of runs, where a column is not there; create the
    /// tables of relations, aliases, checkpoints and watermarks if they
    /// are not there.
    AddRelationTables,
    /// Create the indexes if they are not there.
    CreateIndexes,
    /// Create the search index if it is not there.
    CreateSearchIndex,
    /// Record that the store has this version of the schema.
    SetVersion(i64),
}

/// The steps that bring a store from the given version to the current
/// one, in the order in which they are taken. A store at or past the
/// current version is given no version.
pub open spec fn migration_plan(version: i64, enable_fts: bool) -> Seq<MigrationStep> {
    seq![MigrationStep::EnableForeignKeys] + (if version < 1 {
        seq![MigrationStep::CreateBaseTables, MigrationStep::SetVersion(1)]
    } else {
        seq![]
    }) + (if version < 2 {
        seq![MigrationStep::AddRelationTables, MigrationStep::SetVersion(2)]
    } else {
        seq![]
    }) + (if version < 3 {
        seq![MigrationStep::CreateIndexes, MigrationStep::SetVersion(3)]
    } else {
        seq![]
    }) + (if enable_fts {
        seq![MigrationStep::CreateSearchIndex]
    } else {
        seq![]
    })
}

/// The steps that bring a store from the given version to the current
/// one.
pub fn migration_steps(version: i64, enable_fts: bool) -> (steps: Vec<MigrationStep>)
    ensures
        steps@ == migration_plan(version, enable_fts),
{
    let mut steps: Vec<MigrationStep> = Vec::new();
    steps.push(MigrationStep::EnableForeignKeys);
    if version < 1 {
        steps.push(MigrationStep::CreateBaseTables);
        steps.push(MigrationStep::SetVersion(1));
    }
    if version < 2 {
        steps.push(MigrationStep::AddRelationTables);
        steps.push(MigrationStep::SetVersion(2));
    }
    if version < 3 {
        steps.push(MigrationStep::CreateIndexes);
        steps.push(MigrationStep::SetVersion(3));
    }
    if enable_fts {
        steps.push(MigrationStep::CreateSearchIndex);
    }
    assert(steps@ =~= migration_plan(version, enable_fts));
    steps
}

/// The version that a store has after the given steps.
pub open spec fn version_after(version: i64, steps: Seq<MigrationStep>) -> i64
    decreases steps.len(),
{
    if steps.len() == 0 {
        version
    } else {
        match steps.last() {
            MigrationStep::SetVersion(to) => to,
            _ => version_after(version, steps.drop_last()),
        }
    }
}

/// Migration goes forward only: a store older than the current schema
/// ends at the current version, and a store at or past it keeps its
/// version and is given none.
pub proof fn lemma_migration_goes_forward(version: i64, enable_fts: bool)
    ensures
        version_after(version, migration_plan(version, enable_fts)) == if version
            < TARGET_SCHEMA_VERSION {
            TARGET_SCHEMA_VERSION
        } else {
            version
        },
        version >= TARGET_SCHEMA_VERSION ==> migration_plan(version, enable_fts) == if enable_fts {
            seq![MigrationStep::EnableForeignKeys, MigrationStep::CreateSearchIndex]
        } else {
            seq![MigrationStep::EnableForeignKeys]
        },
{
    let plan = migration_plan(version, enable_fts);
    reveal_with_fuel(version_after, 4);
    if version >= 3 {
        assert(plan =~= if enable_fts {
            seq![MigrationStep::EnableForeignKeys, MigrationStep::CreateSearchIndex]
        } else {
            seq![MigrationStep::EnableForeignKeys]
        });
    } else {
        if enable_fts {
            assert(plan.last() == MigrationStep::CreateSearchIndex);
            assert(plan.drop_last().last() == MigrationStep::SetVersion(3));
        } else {
            assert(plan.last() == MigrationStep::SetVersion(3));
        }
    }
}

/// A pass of the reindexer: the watermark it has come to, and the pages
/// it has indexed anew.
#[derive(Debug, Clone)]
pub struct ReindexPass {
    pub watermark: Option<String>,
    pub updated_pages: u64,
}

/// The watermark that a pass starts from: the stored one, or none where
/// nothing or an empty one is stored.
pub open spec fn starting_watermark(stored: Option<Seq<char>>) -> Option<Seq<char>> {
    match stored {
        Some(text) => if text.len() == 0 {
            None
        } else {
            Some(text)
        },
        None => None,
    }
}

/// The watermark after a chunk of pages with the given update times, in
/// ascending order: the last of them, or the old watermark where the chunk
/// is empty.
pub open spec fn watermark_after(watermark: Option<Seq<char>>, chunk: Seq<Seq<char>>) -> Option<
    Seq<char>,
> {
    if chunk.len() == 0 {
        watermark
    } else {
        Some(chunk.last())
    }
}

impl ReindexPass {
    /// Begins a pass from the stored watermark. The first chunk to fetch
    /// holds the pages updated after `self.watermark`, or the first pages
    /// of all where there is none.
    pub fn begin(stored: Option<String>) -> (pass: ReindexPass)
        ensures
            optional_string(pass.watermark) == starting_watermark(optional_string(stored)),
            pass.updated_pages == 0,
    {
        let watermark = match stored {
            Some(text) => if char_len(text.as_str()) == 0 {
                None
            } else {
                Some(text)
            },
            None => None,
        };
        ReindexPass { watermark, updated_pages: 0 }
    }

    /// Takes in one chunk: the update times, in ascending order, of the
    /// pages that were fetched and indexed anew. Says whether another
    /// chunk is to be fetched: an empty chunk ends the pass and changes
    /// nothing.
    pub fn absorb(&mut self, chunk: &Vec<String>) -> (more: bool)
        ensures
            more == (chunk@.len() > 0),
            optional_string(final(self).watermark) == watermark_after(
                optional_string(old(self).watermark),
                chunk.deep_view(),
            ),
            final(self).updated_pages == counted(old(self).updated_pages, chunk@.len() as u64),
    {
        let n = chunk.len();
        if n == 0 {
            return false;
        }
        assert(chunk.deep_view().last() == chunk@[n - 1]@);
        self.watermark = Some(chunk[n - 1].clone());
        self.updated_pages = count_up(self.updated_pages, n as u64);
        true
    }

    /// Ends the pass: what it did, and the watermark to store, which there
    /// is only where a page was indexed anew.
    pub fn finish(self) -> (r: (ReindexMetrics, Option<String>))
        ensures
            r.0.updated_pages == self.updated_pages,
            optional_string(r.0.watermark) == optional_string(self.watermark),
            optional_string(r.1) == if self.updated_pages > 0 {
                optional_string(self.watermark)
            } else {
                None
            },
    {
        let to_store = if self.updated_pages > 0 {
            match &self.watermark {
                Some(text) => Some(text.clone()),
                None => None,
            }
        } else {
            None
        };
        (ReindexMetrics { updated_pages: self.updated_pages, watermark: self.watermark }, to_store)
    }
}

/// One logical write to the store for a page.
#[derive(Debug, Clone, Copy, PartialEq, Eq, Structural)]
pub enum WriteOp {
    /// Mark the state of the store, so that the writes that follow can be
    /// undone together.
    Savepoint,
    /// Insert the page, or overwrite the one with its URL.
    UpsertPage,
    DeleteDefinitions,
    DeleteRelations,
    DeleteAliases,
    /// Insert the definition at this place of the page's definitions.
    InsertDefinition(usize),
    /// Insert the relation at this place of the page's relations.
    InsertRelation(usize),
    /// Insert the alias at this place of the page's aliases.
    InsertAlias(usize),
    DeleteSearchRow,
    InsertSearchRow,
    /// Let go of the mark: the writes since then stand.
    Release,
}

/// The writes that store a page with the given numbers of definitions,
/// relations and aliases, in the order in which they are made: a mark to
/// which the store goes back if a write fails; the page itself; what hung
/// on its URL before deleted; each definition, relation and alias
/// inserted; the row of the search index deleted and inserted where there
/// is such an index; and the mark let go of.
pub open spec fn write_plan(
    definitions: nat,
    relations: nat,
    aliases: nat,
    enable_fts: bool,
) -> Seq<WriteOp> {
    seq![
        WriteOp::Savepoint,
        WriteOp::UpsertPage,
        WriteOp::DeleteDefinitions,
        WriteOp::DeleteRelations,
        WriteOp::DeleteAliases,
    ] + Seq::new(definitions, |i: int| WriteOp::InsertDefinition(i as usize)) + Seq::new(
        relations,
        |i: int| WriteOp::InsertRelation(i as usize),
    ) + Seq::new(aliases, |i: int| WriteOp::InsertAlias(i as usize)) + (if enable_fts {
        seq![WriteOp::DeleteSearchRow, WriteOp::InsertSearchRow, WriteOp::Release]
    } else {
        seq![WriteOp::Release]
    })
}

/// The writes that store `page`, all to be made in one transaction. Where
/// one of them fails, the driver goes back to the mark that the first of
/// them set, and the store holds for the page's URL what it held before.
pub fn page_write_plan(page: &ExtractedPage, enable_fts: bool) -> (plan: Vec<WriteOp>)
    ensures
        plan@ == write_plan(
            page.definitions@.len(),
            page.relations@.len(),
            page.aliases@.len(),
            enable_fts,
        ),
{
    let mut plan: Vec<WriteOp> = Vec::new();
    plan.push(WriteOp::Savepoint);
    plan.push(WriteOp::UpsertPage);
    plan.push(WriteOp::DeleteDefinitions);
    plan.push(WriteOp::DeleteRelations);
    plan.push(WriteOp::DeleteAliases);
    let ghost head = plan@;
    let mut i: usize = 0;
    while i < page.definitions.len()
        invariant
            i <= page.definitions.len(),
            plan@ == head + Seq::new(i as nat, |k: int| WriteOp::InsertDefinition(k as usize)),
        decreases page.definitions.len() - i,
    {
        plan.push(WriteOp::InsertDefinition(i));
        i += 1;
        assert(plan@ =~= head + Seq::new(i as nat, |k: int| WriteOp::InsertDefinition(k as usize)));
    }
    let ghost with_definitions = plan@;
    let mut j: usize = 0;
    while j < page.relations.len()
        invariant
            j <= page.relations.len(),
            plan@ == with_definitions + Seq::new(
                j as nat,
                |k: int| WriteOp::InsertRelation(k as usize),
            ),
        decreases page.relations.len() - j,
    {
        plan.push(WriteOp::InsertRelation(j));
        j += 1;
        assert(plan@ =~= with_definitions + Seq::new(
            j as nat,
            |k: int| WriteOp::InsertRelation(k as usize),
        ));
    }
    let ghost with_relations = plan@;
    let mut k: usize = 0;
    while k < page.aliases.len()
        invariant
            k <= page.aliases.len(),
            plan@ == with_relations + Seq::new(k as nat, |n: int| WriteOp::InsertAlias(n as usize)),
        decreases page.aliases.len() - k,
    {
        plan.push(WriteOp::InsertAlias(k));
        k += 1;
        assert(plan@ =~= with_relations + Seq::new(
            k as nat,
            |n: int| WriteOp::InsertAlias(n as usize),
        ));
    }
    if enable_fts {
        plan.push(WriteOp::DeleteSearchRow);
        plan.push(WriteOp::InsertSearchRow);
    }
    plan.push(WriteOp::Release);
    assert(plan@ =~= write_plan(
        page.definitions@.len(),
        page.relations@.len(),
        page.aliases@.len(),
        enable_fts,
    ));
    plan
}

} // verus!
