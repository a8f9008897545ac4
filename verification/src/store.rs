//! What the writes for a page do to the store, as a model: a map from the
//! URL of a page to what is stored for it. The model says nothing of row
//! ids and update times, which differ from one write to the next.

use crate::db::{write_plan, WriteOp};
use crate::extractor::{AliasView, DefinitionView, PageView, RelationView};
use vstd::prelude::*;

verus! {

/// What the store holds for one URL.
pub struct StoredPage {
    /// The page itself; its definitions, relations and aliases are held
    /// beside it.
    pub page: PageView,
    pub definitions: Seq<DefinitionView>,
    pub relations: Seq<RelationView>,
    pub aliases: Seq<AliasView>,
    /// The row of the search index: title, URL and plain text.
    pub search_row: Option<(Seq<char>, Seq<char>, Seq<char>)>,
}

/// The store: what it holds for each URL.
pub type Store = Map<Seq<char>, StoredPage>;

/// A page with nothing hanging on it.
pub open spec fn bare(page: PageView) -> PageView {
    PageView { definitions: Seq::empty(), relations: Seq::empty(), aliases: Seq::empty(), ..page }
}

/// The row of the search index of a page; a page without plain text has
/// the empty text there.
pub open spec fn search_row_of(page: PageView) -> (Seq<char>, Seq<char>, Seq<char>) {
    (
        page.title,
        page.url,
        match page.plain_text {
            Some(text) => text,
            None => Seq::empty(),
        },
    )
}

/// What one write for `page` makes of what is stored for its URL.
pub open spec fn apply_op(stored: Option<StoredPage>, page: PageView, op: WriteOp) -> Option<
    StoredPage,
> {
    match (stored, op) {
        (Some(row), WriteOp::UpsertPage) => Some(StoredPage { page: bare(page), ..row }),
        (None, WriteOp::UpsertPage) => Some(
            StoredPage {
                page: bare(page),
                definitions: Seq::empty(),
                relations: Seq::empty(),
                aliases: Seq::empty(),
                search_row: None,
            },
        ),
        (Some(row), WriteOp::DeleteDefinitions) => Some(
            StoredPage { definitions: Seq::empty(), ..row },
        ),
        (Some(row), WriteOp::DeleteRelations) => Some(StoredPage { relations: Seq::empty(), ..row }),
        (Some(row), WriteOp::DeleteAliases) => Some(StoredPage { aliases: Seq::empty(), ..row }),
        (Some(row), WriteOp::InsertDefinition(i)) => Some(
            StoredPage { definitions: row.definitions.push(page.definitions[i as int]), ..row },
        ),
        (Some(row), WriteOp::InsertRelation(i)) => Some(
            StoredPage { relations: row.relations.push(page.relations[i as int]), ..row },
        ),
        (Some(row), WriteOp::InsertAlias(i)) => Some(
            StoredPage { aliases: row.aliases.push(page.aliases[i as int]), ..row },
        ),
        (Some(row), WriteOp::DeleteSearchRow) => Some(StoredPage { search_row: None, ..row }),
        (Some(row), WriteOp::InsertSearchRow) => Some(
            StoredPage { search_row: Some(search_row_of(page)), ..row },
        ),
        (Some(row), WriteOp::Savepoint) => Some(row),
        (Some(row), WriteOp::Release) => Some(row),
        (None, _) => None,
    }
}

/// What the writes `ops` for `page`, made in their order, make of what is
/// stored for its URL.
pub open spec fn apply_ops(stored: Option<StoredPage>, page: PageView, ops: Seq<WriteOp>) -> Option<
    StoredPage,
>
    decreases ops.len(),
{
    if ops.len() == 0 {
        stored
    } else {
        apply_op(apply_ops(stored, page, ops.drop_last()), page, ops.last())
    }
}

/// The search row that was stored for a URL, if any.
pub open spec fn old_search_row(stored: Option<StoredPage>) -> Option<
    (Seq<char>, Seq<char>, Seq<char>),
> {
    match stored {
        Some(row) => row.search_row,
        None => None,
    }
}

/// What is stored for the URL of a page once the page is written: the
/// page with exactly its own definitions, relations and aliases; its row
/// of the search index where there is such an index, else whatever row
/// there was.
pub open spec fn written(stored: Option<StoredPage>, page: PageView, enable_fts: bool) -> StoredPage {
    StoredPage {
        page: bare(page),
        definitions: page.definitions,
        relations: page.relations,
        aliases: page.aliases,
        search_row: if enable_fts {
            Some(search_row_of(page))
        } else {
            old_search_row(stored)
        },
    }
}

/// The store after `page` is written.
pub open spec fn store_after(store: Store, page: PageView, enable_fts: bool) -> Store {
    store.insert(page.url, written(
        if store.dom().contains(page.url) {
            Some(store[page.url])
        } else {
            None
        },
        page,
        enable_fts,
    ))
}

/// The store after the pages are written in their order.
pub open spec fn store_after_all(store: Store, pages: Seq<PageView>, enable_fts: bool) -> Store
    decreases pages.len(),
{
    if pages.len() == 0 {
        store
    } else {
        store_after(store_after_all(store, pages.drop_last(), enable_fts), pages.last(), enable_fts)
    }
}

proof fn lemma_apply_ops_concat(
    stored: Option<StoredPage>,
    page: PageView,
    first: Seq<WriteOp>,
    second: Seq<WriteOp>,
)
    ensures
        apply_ops(stored, page, first + second) == apply_ops(
            apply_ops(stored, page, first),
            page,
            second,
        ),
    decreases second.len(),
{
    if second.len() == 0 {
        assert(first + second =~= first);
    } else {
        assert((first + second).drop_last() =~= first + second.drop_last());
        assert((first + second).last() == second.last());
        lemma_apply_ops_concat(stored, page, first, second.drop_last());
    }
}

proof fn lemma_insert_definitions(row: StoredPage, page: PageView, n: nat)
    requires
        n <= page.definitions.len(),
        n <= usize::MAX,
        row.definitions.len() == 0,
    ensures
        apply_ops(
            Some(row),
            page,
            Seq::new(n, |i: int| WriteOp::InsertDefinition(i as usize)),
        ) == Some(StoredPage { definitions: page.definitions.take(n as int), ..row }),
    decreases n,
{
    let ops = Seq::new(n, |i: int| WriteOp::InsertDefinition(i as usize));
    if n == 0 {
        assert(page.definitions.take(0) =~= row.definitions);
    } else {
        let fewer = Seq::new((n - 1) as nat, |i: int| WriteOp::InsertDefinition(i as usize));
        assert(ops.drop_last() =~= fewer);
        lemma_insert_definitions(row, page, (n - 1) as nat);
        assert(page.definitions.take(n - 1).push(page.definitions[n - 1])
            =~= page.definitions.take(n as int));
    }
}

proof fn lemma_insert_relations(row: StoredPage, page: PageView, n: nat)
    requires
        n <= page.relations.len(),
        n <= usize::MAX,
        row.relations.len() == 0,
    ensures
        apply_ops(Some(row), page, Seq::new(n, |i: int| WriteOp::InsertRelation(i as usize)))
            == Some(StoredPage { relations: page.relations.take(n as int), ..row }),
    decreases n,
{
    let ops = Seq::new(n, |i: int| WriteOp::InsertRelation(i as usize));
    if n == 0 {
        assert(page.relations.take(0) =~= row.relations);
    } else {
        let fewer = Seq::new((n - 1) as nat, |i: int| WriteOp::InsertRelation(i as usize));
        assert(ops.drop_last() =~= fewer);
        lemma_insert_relations(row, page, (n - 1) as nat);
        assert(page.relations.take(n - 1).push(page.relations[n - 1]) =~= page.relations.take(
            n as int,
        ));
    }
}

proof fn lemma_insert_aliases(row: StoredPage, page: PageView, n: nat)
    requires
        n <= page.aliases.len(),
        n <= usize::MAX,
        row.aliases.len() == 0,
    ensures
        apply_ops(Some(row), page, Seq::new(n, |i: int| WriteOp::InsertAlias(i as usize)))
            == Some(StoredPage { aliases: page.aliases.take(n as int), ..row }),
    decreases n,
{
    let ops = Seq::new(n, |i: int| WriteOp::InsertAlias(i as usize));
    if n == 0 {
        assert(page.aliases.take(0) =~= row.aliases);
    } else {
        let fewer = Seq::new((n - 1) as nat, |i: int| WriteOp::InsertAlias(i as usize));
        assert(ops.drop_last() =~= fewer);
        lemma_insert_aliases(row, page, (n - 1) as nat);
        assert(page.aliases.take(n - 1).push(page.aliases[n - 1]) =~= page.aliases.take(n as int));
    }
}

/// What is stored for the URL of a page after the first five writes of
/// its plan: the page, with nothing hanging on it.
pub open spec fn cleared(stored: Option<StoredPage>, page: PageView) -> StoredPage {
    StoredPage {
        page: bare(page),
        definitions: Seq::empty(),
        relations: Seq::empty(),
        aliases: Seq::empty(),
        search_row: old_search_row(stored),
    }
}

proof fn lemma_clearing_writes(stored: Option<StoredPage>, page: PageView)
    ensures
        apply_ops(
            stored,
            page,
            seq![
                WriteOp::Savepoint,
                WriteOp::UpsertPage,
                WriteOp::DeleteDefinitions,
                WriteOp::DeleteRelations,
                WriteOp::DeleteAliases,
            ],
        ) == Some(cleared(stored, page)),
{
    let five = seq![
        WriteOp::Savepoint,
        WriteOp::UpsertPage,
        WriteOp::DeleteDefinitions,
        WriteOp::DeleteRelations,
        WriteOp::DeleteAliases,
    ];
    let four = seq![
        WriteOp::Savepoint,
        WriteOp::UpsertPage,
        WriteOp::DeleteDefinitions,
        WriteOp::DeleteRelations,
    ];
    let three = seq![WriteOp::Savepoint, WriteOp::UpsertPage, WriteOp::DeleteDefinitions];
    let two = seq![WriteOp::Savepoint, WriteOp::UpsertPage];
    let one = seq![WriteOp::Savepoint];
    assert(five.drop_last() =~= four);
    assert(four.drop_last() =~= three);
    assert(three.drop_last() =~= two);
    assert(two.drop_last() =~= one);
    assert(one.drop_last() =~= Seq::<WriteOp>::empty());
    let after_one = apply_ops(stored, page, one);
    assert(apply_ops(stored, page, one.drop_last()) == stored);
    assert(after_one == apply_op(stored, page, WriteOp::Savepoint));
    assert(after_one == stored);
    let after_two = apply_ops(stored, page, two);
    assert(after_two == apply_op(after_one, page, WriteOp::UpsertPage));
    let after_three = apply_ops(stored, page, three);
    assert(after_three == apply_op(after_two, page, WriteOp::DeleteDefinitions));
    let after_four = apply_ops(stored, page, four);
    assert(after_four == apply_op(after_three, page, WriteOp::DeleteRelations));
    assert(apply_ops(stored, page, five) == apply_op(after_four, page, WriteOp::DeleteAliases));
}

proof fn lemma_closing_writes(row: StoredPage, page: PageView, enable_fts: bool)
    ensures
        apply_ops(
            Some(row),
            page,
            if enable_fts {
                seq![WriteOp::DeleteSearchRow, WriteOp::InsertSearchRow, WriteOp::Release]
            } else {
                seq![WriteOp::Release]
            },
        ) == Some(
            StoredPage {
                search_row: if enable_fts {
                    Some(search_row_of(page))
                } else {
                    row.search_row
                },
                ..row
            },
        ),
{
    if enable_fts {
        let three = seq![WriteOp::DeleteSearchRow, WriteOp::InsertSearchRow, WriteOp::Release];
        let two = seq![WriteOp::DeleteSearchRow, WriteOp::InsertSearchRow];
        let one = seq![WriteOp::DeleteSearchRow];
        assert(three.drop_last() =~= two);
        assert(two.drop_last() =~= one);
        assert(one.drop_last() =~= Seq::<WriteOp>::empty());
        let after_one = apply_ops(Some(row), page, one);
        assert(apply_ops(Some(row), page, one.drop_last()) == Some(row));
        assert(after_one == apply_op(Some(row), page, WriteOp::DeleteSearchRow));
        let after_two = apply_ops(Some(row), page, two);
        assert(after_two == apply_op(after_one, page, WriteOp::InsertSearchRow));
        assert(apply_ops(Some(row), page, three) == apply_op(after_two, page, WriteOp::Release));
    } else {
        let one = seq![WriteOp::Release];
        assert(one.drop_last() =~= Seq::<WriteOp>::empty());
        assert(apply_ops(Some(row), page, one.drop_last()) == Some(row));
        assert(apply_ops(Some(row), page, one) == apply_op(Some(row), page, WriteOp::Release));
    }
}

/// Replacement as a set: whatever was stored for the URL of a page, the
/// writes of its plan leave there the page with exactly its own
/// definitions, relations and aliases, nothing of what hung on the URL
/// before.
pub proof fn lemma_plan_replaces_page(stored: Option<StoredPage>, page: PageView, enable_fts: bool)
    requires
        page.definitions.len() <= usize::MAX,
        page.relations.len() <= usize::MAX,
        page.aliases.len() <= usize::MAX,
    ensures
        apply_ops(
            stored,
            page,
            write_plan(
                page.definitions.len(),
                page.relations.len(),
                page.aliases.len(),
                enable_fts,
            ),
        ) == Some(written(stored, page, enable_fts)),
{
    let head = seq![
        WriteOp::Savepoint,
        WriteOp::UpsertPage,
        WriteOp::DeleteDefinitions,
        WriteOp::DeleteRelations,
        WriteOp::DeleteAliases,
    ];
    let definitions = Seq::new(
        page.definitions.len(),
        |i: int| WriteOp::InsertDefinition(i as usize),
    );
    let relations = Seq::new(page.relations.len(), |i: int| WriteOp::InsertRelation(i as usize));
    let aliases = Seq::new(page.aliases.len(), |i: int| WriteOp::InsertAlias(i as usize));
    let tail = if enable_fts {
        seq![WriteOp::DeleteSearchRow, WriteOp::InsertSearchRow, WriteOp::Release]
    } else {
        seq![WriteOp::Release]
    };
    let empty = cleared(stored, page);
    let with_definitions = StoredPage { definitions: page.definitions, ..empty };
    let with_relations = StoredPage { relations: page.relations, ..with_definitions };
    let with_aliases = StoredPage { aliases: page.aliases, ..with_relations };
    let after_head = apply_ops(stored, page, head);
    assert(after_head == Some(empty)) by {
        lemma_clearing_writes(stored, page);
    }
    let after_definitions = apply_ops(stored, page, head + definitions);
    assert(after_definitions == Some(with_definitions)) by {
        lemma_apply_ops_concat(stored, page, head, definitions);
        lemma_insert_definitions(empty, page, page.definitions.len());
        assert(page.definitions.take(page.definitions.len() as int) =~= page.definitions);
    }
    let after_relations = apply_ops(stored, page, head + definitions + relations);
    assert(after_relations == Some(with_relations)) by {
        lemma_apply_ops_concat(stored, page, head + definitions, relations);
        lemma_insert_relations(with_definitions, page, page.relations.len());
        assert(page.relations.take(page.relations.len() as int) =~= page.relations);
    }
    let after_aliases = apply_ops(stored, page, head + definitions + relations + aliases);
    assert(after_aliases == Some(with_aliases)) by {
        lemma_apply_ops_concat(stored, page, head + definitions + relations, aliases);
        lemma_insert_aliases(with_relations, page, page.aliases.len());
        assert(page.aliases.take(page.aliases.len() as int) =~= page.aliases);
    }
    assert(apply_ops(stored, page, head + definitions + relations + aliases + tail) == Some(
        written(stored, page, enable_fts),
    )) by {
        lemma_apply_ops_concat(stored, page, head + definitions + relations + aliases, tail);
        lemma_closing_writes(with_aliases, page, enable_fts);
    }
}

/// What a store holds for a URL, if anything.
pub open spec fn row_of(store: Store, url: Seq<char>) -> Option<StoredPage> {
    if store.dom().contains(url) {
        Some(store[url])
    } else {
        None
    }
}

/// Whether one of the pages has the URL.
pub open spec fn writes_url(pages: Seq<PageView>, url: Seq<char>) -> bool
    decreases pages.len(),
{
    pages.len() > 0 && (pages.last().url == url || writes_url(pages.drop_last(), url))
}

/// What is stored for a URL once the pages are written in their order:
/// what the last page with that URL leaves there, or what was there
/// before where no page has it.
pub open spec fn row_after_all(
    store: Store,
    pages: Seq<PageView>,
    url: Seq<char>,
    enable_fts: bool,
) -> Option<StoredPage>
    decreases pages.len(),
{
    if pages.len() == 0 {
        row_of(store, url)
    } else if pages.last().url == url {
        Some(written(row_after_all(store, pages.drop_last(), url, enable_fts), pages.last(), enable_fts))
    } else {
        row_after_all(store, pages.drop_last(), url, enable_fts)
    }
}

/// Two stores that hold the same for every URL are the same store.
proof fn lemma_same_rows_same_store(first: Store, second: Store)
    requires
        forall|url: Seq<char>| #[trigger] row_of(first, url) == row_of(second, url),
    ensures
        first == second,
{
    assert forall|url: Seq<char>| first.dom().contains(url) == second.dom().contains(url) by {
        let _ = row_of(first, url);
    }
    assert forall|url: Seq<char>| first.dom().contains(url) implies first[url] == second[url] by {
        let _ = row_of(first, url);
    }
    assert(first =~= second);
}

/// The store after the pages are written holds for each URL what
/// `row_after_all` says.
pub proof fn lemma_rows_after_all(store: Store, pages: Seq<PageView>, url: Seq<char>, enable_fts: bool)
    ensures
        row_of(store_after_all(store, pages, enable_fts), url) == row_after_all(
            store,
            pages,
            url,
            enable_fts,
        ),
    decreases pages.len(),
{
    if pages.len() > 0 {
        lemma_rows_after_all(store, pages.drop_last(), url, enable_fts);
        lemma_rows_after_all(store, pages.drop_last(), pages.last().url, enable_fts);
    }
}

/// Writing pages leaves alone what is stored for every URL that none of
/// them has; without a search index it leaves every search row alone.
pub proof fn lemma_rest_is_kept(store: Store, pages: Seq<PageView>, url: Seq<char>, enable_fts: bool)
    ensures
        !writes_url(pages, url) ==> row_after_all(store, pages, url, enable_fts) == row_of(
            store,
            url,
        ),
        !enable_fts ==> old_search_row(row_after_all(store, pages, url, enable_fts))
            == old_search_row(row_of(store, url)),
    decreases pages.len(),
{
    if pages.len() > 0 {
        lemma_rest_is_kept(store, pages.drop_last(), url, enable_fts);
    }
}

/// What the pages leave for a URL that one of them has depends on what
/// was there before only by the search row, and only without a search
/// index.
proof fn lemma_writes_decide(
    first: Store,
    second: Store,
    pages: Seq<PageView>,
    url: Seq<char>,
    enable_fts: bool,
)
    requires
        !enable_fts ==> old_search_row(row_of(first, url)) == old_search_row(row_of(second, url)),
        !writes_url(pages, url) ==> row_of(first, url) == row_of(second, url),
    ensures
        row_after_all(first, pages, url, enable_fts) == row_after_all(
            second,
            pages,
            url,
            enable_fts,
        ),
    decreases pages.len(),
{
    if pages.len() > 0 {
        if pages.last().url == url {
            lemma_rest_is_kept(first, pages.drop_last(), url, enable_fts);
            lemma_rest_is_kept(second, pages.drop_last(), url, enable_fts);
        } else {
            lemma_writes_decide(first, second, pages.drop_last(), url, enable_fts);
        }
    }
}

/// Idempotence: writing the same pages once more, in the same order,
/// leaves the store as it is. What an ingestion leaves in the store does
/// not depend on how often it was run.
pub proof fn lemma_writing_again_changes_nothing(store: Store, pages: Seq<PageView>, enable_fts: bool)
    ensures
        store_after_all(store_after_all(store, pages, enable_fts), pages, enable_fts)
            == store_after_all(store, pages, enable_fts),
{
    let once = store_after_all(store, pages, enable_fts);
    let twice = store_after_all(once, pages, enable_fts);
    assert forall|url: Seq<char>| #[trigger] row_of(twice, url) == row_of(once, url) by {
        lemma_rows_after_all(once, pages, url, enable_fts);
        lemma_rows_after_all(store, pages, url, enable_fts);
        lemma_rest_is_kept(store, pages, url, enable_fts);
        lemma_writes_decide(once, store, pages, url, enable_fts);
    }
    lemma_same_rows_same_store(twice, once);
}

/// Order independence: two pages with different URLs leave the same
/// store whichever is written first.
pub proof fn lemma_order_of_pages_is_free(
    store: Store,
    first: PageView,
    second: PageView,
    enable_fts: bool,
)
    requires
        first.url != second.url,
    ensures
        store_after(store_after(store, first, enable_fts), second, enable_fts) == store_after(
            store_after(store, second, enable_fts),
            first,
            enable_fts,
        ),
{
    assert(store_after(store_after(store, first, enable_fts), second, enable_fts) =~= store_after(
        store_after(store, second, enable_fts),
        first,
        enable_fts,
    ));
}


/// What is stored for a URL while the writes of a plan are made: the row,
/// and the row as it was when the mark was set, if a mark is set.
pub struct WriteState {
    pub row: Option<StoredPage>,
    pub marked: Option<Option<StoredPage>>,
}

/// What one write for `page` makes of the state: setting the mark keeps
/// the row as it is for later, letting go of it forgets that, and any
/// other write changes the row alone.
pub open spec fn apply_marked(state: WriteState, page: PageView, op: WriteOp) -> WriteState {
    match op {
        WriteOp::Savepoint => WriteState { row: state.row, marked: Some(state.row) },
        WriteOp::Release => WriteState { row: state.row, marked: None },
        _ => WriteState { row: apply_op(state.row, page, op), marked: state.marked },
    }
}

/// What the writes `ops` for `page`, made in their order, make of the
/// state.
pub open spec fn apply_all_marked(state: WriteState, page: PageView, ops: Seq<WriteOp>) -> WriteState
    decreases ops.len(),
{
    if ops.len() == 0 {
        state
    } else {
        apply_marked(apply_all_marked(state, page, ops.drop_last()), page, ops.last())
    }
}

/// The state after the store went back to the mark: the row is as it was
/// when the mark was set. Without a mark nothing happens.
pub open spec fn rolled_back(state: WriteState) -> WriteState {
    match state.marked {
        Some(row) => WriteState { row, marked: None },
        None => state,
    }
}

/// Whether a write changes rows and neither sets nor lets go of a mark.
pub open spec fn is_content_write(op: WriteOp) -> bool {
    op != WriteOp::Savepoint && op != WriteOp::Release
}

/// The writes change the row as `apply_ops` says, mark or no mark.
pub proof fn lemma_marks_leave_rows(state: WriteState, page: PageView, ops: Seq<WriteOp>)
    ensures
        apply_all_marked(state, page, ops).row == apply_ops(state.row, page, ops),
    decreases ops.len(),
{
    if ops.len() > 0 {
        lemma_marks_leave_rows(state, page, ops.drop_last());
    }
}

/// A plan sets its mark first and lets go of it last; the writes between
/// change rows only.
pub proof fn lemma_plan_is_marked(definitions: nat, relations: nat, aliases: nat, enable_fts: bool)
    ensures
        write_plan(definitions, relations, aliases, enable_fts).len() >= 6,
        write_plan(definitions, relations, aliases, enable_fts)[0] == WriteOp::Savepoint,
        write_plan(definitions, relations, aliases, enable_fts).last() == WriteOp::Release,
        forall|i: int|
            0 < i < write_plan(definitions, relations, aliases, enable_fts).len() - 1
                ==> is_content_write(
                #[trigger] write_plan(definitions, relations, aliases, enable_fts)[i],
            ),
{
}

/// Writes that change rows only leave the mark as it is.
proof fn lemma_content_writes_keep_mark(state: WriteState, page: PageView, ops: Seq<WriteOp>)
    requires
        forall|i: int| 0 <= i < ops.len() ==> is_content_write(#[trigger] ops[i]),
    ensures
        apply_all_marked(state, page, ops).marked == state.marked,
    decreases ops.len(),
{
    if ops.len() > 0 {
        let init = ops.drop_last();
        assert forall|i: int| 0 <= i < init.len() implies is_content_write(#[trigger] init[i]) by {
            assert(init[i] == ops[i]);
        }
        lemma_content_writes_keep_mark(state, page, init);
        assert(is_content_write(ops[ops.len() - 1]));
    }
}

proof fn lemma_apply_all_marked_concat(
    state: WriteState,
    page: PageView,
    first: Seq<WriteOp>,
    second: Seq<WriteOp>,
)
    ensures
        apply_all_marked(state, page, first + second) == apply_all_marked(
            apply_all_marked(state, page, first),
            page,
            second,
        ),
    decreases second.len(),
{
    if second.len() == 0 {
        assert(first + second =~= first);
    } else {
        assert((first + second).drop_last() =~= first + second.drop_last());
        assert((first + second).last() == second.last());
        lemma_apply_all_marked_concat(state, page, first, second.drop_last());
    }
}

/// A page's rows are never partly stale: where a write of the plan
/// fails, after any number of its writes were made, and the store goes
/// back to the mark, it holds for the page's URL what it held before the
/// plan was begun. Where all writes are made, it holds the page as
/// written, and no mark is left.
pub proof fn lemma_failed_plan_changes_nothing(
    stored: Option<StoredPage>,
    page: PageView,
    enable_fts: bool,
    made: int,
)
    requires
        page.definitions.len() <= usize::MAX,
        page.relations.len() <= usize::MAX,
        page.aliases.len() <= usize::MAX,
        0 <= made <= write_plan(
            page.definitions.len(),
            page.relations.len(),
            page.aliases.len(),
            enable_fts,
        ).len(),
    ensures
        ({
            let plan = write_plan(
                page.definitions.len(),
                page.relations.len(),
                page.aliases.len(),
                enable_fts,
            );
            let begun = WriteState { row: stored, marked: None };
            &&& made < plan.len() ==> rolled_back(apply_all_marked(begun, page, plan.take(made))).row
                == stored
            &&& apply_all_marked(begun, page, plan) == WriteState {
                row: Some(written(stored, page, enable_fts)),
                marked: None,
            }
        }),
{
    let plan = write_plan(
        page.definitions.len(),
        page.relations.len(),
        page.aliases.len(),
        enable_fts,
    );
    let begun = WriteState { row: stored, marked: None };
    lemma_plan_is_marked(
        page.definitions.len(),
        page.relations.len(),
        page.aliases.len(),
        enable_fts,
    );
    lemma_plan_replaces_page(stored, page, enable_fts);
    lemma_marks_leave_rows(begun, page, plan);
    assert(apply_all_marked(begun, page, plan).marked is None);
    if 0 < made < plan.len() {
        let first = plan.take(1);
        let rest = plan.subrange(1, made);
        assert(plan.take(made) =~= first + rest);
        assert(first.drop_last() =~= Seq::<WriteOp>::empty());
        assert(first.last() == WriteOp::Savepoint);
        let marked = apply_all_marked(begun, page, first);
        assert(apply_all_marked(begun, page, first.drop_last()) == begun);
        assert(marked == WriteState { row: stored, marked: Some(stored) });
        assert forall|i: int| 0 <= i < rest.len() implies is_content_write(#[trigger] rest[i]) by {
            assert(rest[i] == plan[i + 1]);
        }
        lemma_content_writes_keep_mark(marked, page, rest);
        lemma_apply_all_marked_concat(begun, page, first, rest);
    } else if made == 0 {
        assert(plan.take(0) =~= Seq::<WriteOp>::empty());
    }
}

} // verus!
