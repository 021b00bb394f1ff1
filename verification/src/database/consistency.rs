//! The two stores of a project as mathematical values, what the calls of the
//! knowledge base do to them, and what holds of them after any sequence of
//! calls.

use vstd::prelude::*;

use crate::database::sql_database::id_base;
use crate::database::sql_database::lemma_max_id_of;
use crate::database::sql_database::max_id_of;
use crate::documents::document::Document;
use crate::documents::document_util::batch_entries;
use crate::documents::document_util::document_entries;
use crate::documents::document_util::entry_views;
use crate::documents::document_util::EntryView;
use crate::documents::document_util::IndexedEntry;
use crate::knowledge_base::distinct_names;
use crate::knowledge_base::lemma_distinct_names;
use crate::models::model::EmbeddingRecord;

verus! {

/// A row of the relational store, as a mathematical value.
pub struct RowView {
    pub id: nat,
    pub document_name: Seq<char>,
    pub chunk_text: Seq<char>,
    pub page_number: nat,
}

/// The two stores of a project, as mathematical values: the rows of the
/// relational store and the identifiers of the vectors of the index, each in
/// the order in which they were written.
pub struct Stores {
    pub rows: Seq<RowView>,
    pub vector_ids: Seq<nat>,
}

/// What became of the two writes for one entry. Either may fail, and the
/// writer goes on to the next entry whatever happened.
#[derive(Debug, Clone, Copy, PartialEq, Eq, Structural)]
pub struct WriteOutcome {
    pub vector_added: bool,
    pub row_inserted: bool,
}

/// How the writes for the `k`-th entry ended. A run that broke off before the
/// `k`-th entry has no outcome for it, and made neither write.
pub open spec fn outcome_at(outcomes: Seq<WriteOutcome>, k: int) -> WriteOutcome {
    if 0 <= k < outcomes.len() {
        outcomes[k]
    } else {
        WriteOutcome { vector_added: false, row_inserted: false }
    }
}

/// The stores of a project that was just created or reset.
pub open spec fn empty_stores() -> Stores {
    Stores { rows: Seq::empty(), vector_ids: Seq::empty() }
}

/// The identifiers of a sequence of rows, in order.
pub open spec fn row_ids(rows: Seq<RowView>) -> Seq<nat> {
    Seq::new(rows.len(), |i: int| rows[i].id)
}

/// The document names of a sequence of rows, in order.
pub open spec fn row_names(rows: Seq<RowView>) -> Seq<Seq<char>> {
    Seq::new(rows.len(), |i: int| rows[i].document_name)
}

/// The largest identifier of a sequence of rows, and 0 where there is no row.
pub open spec fn largest_row_id(rows: Seq<RowView>) -> nat
    decreases rows.len(),
{
    if rows.len() == 0 {
        0
    } else {
        let before = largest_row_id(rows.drop_last());
        if before >= rows.last().id {
            before
        } else {
            rows.last().id
        }
    }
}

/// The row that is inserted for an entry.
pub open spec fn row_of<V>(entry: EntryView<V>) -> RowView {
    RowView {
        id: entry.id,
        document_name: entry.document_name,
        chunk_text: entry.chunk_text,
        page_number: entry.page_number,
    }
}

/// The stores after the writer has gone through `entries` in order, where the
/// writes for the `k`-th entry ended as `outcome_at(outcomes, k)` says.
pub open spec fn write_entries<V>(
    stores: Stores,
    entries: Seq<EntryView<V>>,
    outcomes: Seq<WriteOutcome>,
) -> Stores
    decreases entries.len(),
{
    if entries.len() == 0 {
        stores
    } else {
        let k = entries.len() - 1;
        let before = write_entries(stores, entries.drop_last(), outcomes);
        Stores {
            rows: if outcome_at(outcomes, k).row_inserted {
                before.rows.push(row_of(entries[k]))
            } else {
                before.rows
            },
            vector_ids: if outcome_at(outcomes, k).vector_added {
                before.vector_ids.push(entries[k].id)
            } else {
                before.vector_ids
            },
        }
    }
}

/// Whether each identifier of the sequence is larger than all before it.
pub open spec fn increasing(ids: Seq<nat>) -> bool {
    forall|i: int, j: int| 0 <= i < j < ids.len() ==> ids[i] < ids[j]
}

/// Whether the entries carry the identifiers `base + 1`, `base + 2`, and so
/// on, in order.
pub open spec fn numbered_from<V>(entries: Seq<EntryView<V>>, base: nat) -> bool {
    forall|k: int| 0 <= k < entries.len() ==> (#[trigger] entries[k]).id == base + 1 + k
}

/// Whether `id` is the identifier of one of the first `count` entries numbered
/// from `base`, and the row of that entry was inserted.
pub open spec fn row_written(outcomes: Seq<WriteOutcome>, count: nat, base: nat, id: nat) -> bool {
    exists|k: int|
        0 <= k < count && (#[trigger] outcome_at(outcomes, k)).row_inserted && id == base + 1 + k
}

/// Whether `id` is the identifier of one of the first `count` entries numbered
/// from `base`, and the vector of that entry was added.
pub open spec fn vector_written(
    outcomes: Seq<WriteOutcome>,
    count: nat,
    base: nat,
    id: nat,
) -> bool {
    exists|k: int|
        0 <= k < count && (#[trigger] outcome_at(outcomes, k)).vector_added && id == base + 1 + k
}

/// Whether, for each of the first `count` entries, the row was inserted where
/// the vector was added.
pub open spec fn rows_follow_vectors(outcomes: Seq<WriteOutcome>, count: nat) -> bool {
    forall|k: int|
        0 <= k < count ==> (#[trigger] outcome_at(outcomes, k)).vector_added ==> outcome_at(
            outcomes,
            k,
        ).row_inserted
}

/// Whether the two stores agree: the identifiers of the rows increase, those
/// of the vectors increase, and every vector has a row with its identifier.
pub open spec fn consistent(stores: Stores) -> bool {
    &&& increasing(row_ids(stores.rows))
    &&& increasing(stores.vector_ids)
    &&& forall|i: int|
        0 <= i < stores.vector_ids.len() ==> row_ids(stores.rows).contains(
            #[trigger] stores.vector_ids[i],
        )
}

/// The identifiers, among those of `entries`, whose vector went into the index
/// while their row did not go into the relational store, in order.
pub open spec fn lost_rows<V>(entries: Seq<EntryView<V>>, outcomes: Seq<WriteOutcome>) -> Seq<nat>
    decreases entries.len(),
{
    if entries.len() == 0 {
        Seq::empty()
    } else {
        let k = entries.len() - 1;
        let before = lost_rows(entries.drop_last(), outcomes);
        if outcome_at(outcomes, k).vector_added && !outcome_at(outcomes, k).row_inserted {
            before.push(entries[k].id)
        } else {
            before
        }
    }
}

/// The identifiers as natural numbers.
pub open spec fn id_values(ids: Seq<usize>) -> Seq<nat> {
    Seq::new(ids.len(), |i: int| ids[i] as nat)
}

/// Lists what a run of the writer has left without a row: the identifiers of
/// the entries whose vector was added and whose row was not inserted.
/// `outcomes` holds how the writes for each entry ended, in the order of the
/// entries; an entry without an outcome was not written at all.
pub fn vectors_without_rows<V>(
    entries: &Vec<IndexedEntry<V>>,
    outcomes: &Vec<WriteOutcome>,
) -> (lost: Vec<usize>)
    ensures
        id_values(lost@) == lost_rows(entry_views(entries@), outcomes@),
{
    let mut lost: Vec<usize> = Vec::new();
    let ghost views = entry_views(entries@);
    let mut k: usize = 0;
    while k < entries.len()
        invariant
            k <= entries.len(),
            views == entry_views(entries@),
            id_values(lost@) == lost_rows(views.take(k as int), outcomes@),
        decreases entries.len() - k,
    {
        proof {
            assert(views.take(k as int + 1).drop_last() == views.take(k as int));
        }
        if k < outcomes.len() && outcomes[k].vector_added && !outcomes[k].row_inserted {
            let ghost before = id_values(lost@);
            lost.push(entries[k].id);
            assert(id_values(lost@) == before.push(entries[k as int].id as nat));
        }
        k = k + 1;
    }
    proof {
        assert(views.take(entries.len() as int) == views);
    }
    lost
}

/// Nothing is listed as lost exactly where every entry whose vector was added
/// also had its row inserted.
pub proof fn lemma_nothing_lost<V>(entries: Seq<EntryView<V>>, outcomes: Seq<WriteOutcome>)
    ensures
        lost_rows(entries, outcomes).len() == 0 <==> rows_follow_vectors(outcomes, entries.len()),
    decreases entries.len(),
{
    if entries.len() > 0 {
        let k = entries.len() - 1;
        lemma_nothing_lost(entries.drop_last(), outcomes);
        if rows_follow_vectors(outcomes, entries.len()) {
            assert(outcome_at(outcomes, k).vector_added ==> outcome_at(outcomes, k).row_inserted);
        }
    }
}

/// The count of an ingestion starts at the largest identifier of the rows:
/// where `ids` are the identifiers of the rows, what `get_max_id` finds among
/// them is the base from which the next entries are numbered.
pub proof fn lemma_id_base_is_largest_row_id(ids: Seq<usize>, rows: Seq<RowView>)
    requires
        ids.len() == rows.len(),
        forall|i: int| 0 <= i < ids.len() ==> ids[i] == (#[trigger] rows[i]).id,
    ensures
        id_base(max_id_of(ids)) == largest_row_id(rows),
    decreases ids.len(),
{
    if ids.len() > 0 {
        let front_ids = ids.drop_last();
        let front_rows = rows.drop_last();
        assert forall|i: int| 0 <= i < front_ids.len() implies front_ids[i] == (
        #[trigger] front_rows[i]).id by {
            assert(front_rows[i] == rows[i]);
        }
        lemma_id_base_is_largest_row_id(front_ids, front_rows);
        lemma_max_id_of(front_ids);
        assert(ids.last() == rows[rows.len() - 1].id);
    }
}

/// No row has an identifier above `largest_row_id`.
pub proof fn lemma_largest_row_id(rows: Seq<RowView>)
    ensures
        forall|i: int| 0 <= i < rows.len() ==> (#[trigger] rows[i]).id <= largest_row_id(rows),
    decreases rows.len(),
{
    if rows.len() > 0 {
        let front = rows.drop_last();
        lemma_largest_row_id(front);
        assert forall|i: int| 0 <= i < rows.len() implies (#[trigger] rows[i]).id
            <= largest_row_id(rows) by {
            if i < front.len() {
                assert(front[i] == rows[i]);
            }
        }
    }
}

/// The entries planned for one document are numbered from the base: each
/// entry's identifier is one more than that of the entry before it.
pub proof fn lemma_document_entries_numbered<V>(
    doc: Document,
    embedded: Option<Vec<EmbeddingRecord<V>>>,
    base: nat,
)
    ensures
        numbered_from(document_entries(doc, embedded, base), base),
{
}

/// The entries planned for a list of documents are numbered from the base,
/// without a gap between one document and the next.
pub proof fn lemma_batch_entries_numbered<V>(
    docs: Seq<Document>,
    embedded: Seq<Option<Vec<EmbeddingRecord<V>>>>,
    base: nat,
)
    ensures
        numbered_from(batch_entries(docs, embedded, base), base),
    decreases docs.len(),
{
    let n = if docs.len() <= embedded.len() {
        docs.len() as int
    } else {
        embedded.len() as int
    };
    if n > 0 {
        let earlier = batch_entries(docs.take(n - 1), embedded.take(n - 1), base);
        lemma_batch_entries_numbered(docs.take(n - 1), embedded.take(n - 1), base);
        lemma_document_entries_numbered(docs[n - 1], embedded[n - 1], base + earlier.len());
    }
}

/// A sequence with one more element holds what it held before, and that
/// element.
proof fn lemma_push_contains(ids: Seq<nat>, last: nat, id: nat)
    ensures
        ids.push(last).contains(id) <==> (ids.contains(id) || id == last),
{
    let more = ids.push(last);
    if more.contains(id) {
        let i = choose|i: int| 0 <= i < more.len() && more[i] == id;
        if i < ids.len() {
            assert(ids[i] == id);
        }
    }
    if ids.contains(id) {
        let i = choose|i: int| 0 <= i < ids.len() && ids[i] == id;
        assert(more[i] == id);
    }
    if id == last {
        assert(more[ids.len() as int] == id);
    }
}

/// The writer removes nothing: what the stores held stays in front.
pub proof fn lemma_writes_keep_what_was_there<V>(
    stores: Stores,
    entries: Seq<EntryView<V>>,
    outcomes: Seq<WriteOutcome>,
)
    ensures
        stores.rows.is_prefix_of(write_entries(stores, entries, outcomes).rows),
        stores.vector_ids.is_prefix_of(write_entries(stores, entries, outcomes).vector_ids),
    decreases entries.len(),
{
    if entries.len() > 0 {
        lemma_writes_keep_what_was_there(stores, entries.drop_last(), outcomes);
    }
}

/// Taking one more entry into account adds at most that entry's identifier to
/// those whose row was inserted, and likewise to those whose vector was added.
proof fn lemma_one_more_entry(outcomes: Seq<WriteOutcome>, count: nat, base: nat, id: nat)
    ensures
        row_written(outcomes, count + 1, base, id) <==> (row_written(outcomes, count, base, id) || (
        outcome_at(outcomes, count as int).row_inserted && id == base + 1 + count)),
        vector_written(outcomes, count + 1, base, id) <==> (vector_written(
            outcomes,
            count,
            base,
            id,
        ) || (outcome_at(outcomes, count as int).vector_added && id == base + 1 + count)),
{
    if row_written(outcomes, count + 1, base, id) {
        let k = choose|k: int|
            0 <= k < count + 1 && (#[trigger] outcome_at(outcomes, k)).row_inserted && id == base
                + 1 + k;
        if k < count {
            assert(row_written(outcomes, count, base, id));
        }
    }
    if row_written(outcomes, count, base, id) {
        let k = choose|k: int|
            0 <= k < count && (#[trigger] outcome_at(outcomes, k)).row_inserted && id == base + 1
                + k;
        assert(0 <= k < count + 1 && outcome_at(outcomes, k).row_inserted);
    }
    if outcome_at(outcomes, count as int).row_inserted && id == base + 1 + count {
        assert(0 <= count < count + 1 && outcome_at(outcomes, count as int).row_inserted);
    }
    if vector_written(outcomes, count + 1, base, id) {
        let k = choose|k: int|
            0 <= k < count + 1 && (#[trigger] outcome_at(outcomes, k)).vector_added && id == base
                + 1 + k;
        if k < count {
            assert(vector_written(outcomes, count, base, id));
        }
    }
    if vector_written(outcomes, count, base, id) {
        let k = choose|k: int|
            0 <= k < count && (#[trigger] outcome_at(outcomes, k)).vector_added && id == base + 1
                + k;
        assert(0 <= k < count + 1 && outcome_at(outcomes, k).vector_added);
    }
    if outcome_at(outcomes, count as int).vector_added && id == base + 1 + count {
        assert(0 <= count < count + 1 && outcome_at(outcomes, count as int).vector_added);
    }
}

/// Which identifiers the writer leaves in the stores: those that were there,
/// and of the planned ones exactly those whose write succeeded.
pub proof fn lemma_written_identifiers<V>(
    stores: Stores,
    entries: Seq<EntryView<V>>,
    outcomes: Seq<WriteOutcome>,
    base: nat,
)
    requires
        numbered_from(entries, base),
    ensures
        forall|id: nat|
            #![trigger row_ids(write_entries(stores, entries, outcomes).rows).contains(id)]
            row_ids(write_entries(stores, entries, outcomes).rows).contains(id) <==> (row_ids(
                stores.rows,
            ).contains(id) || row_written(outcomes, entries.len(), base, id)),
        forall|id: nat|
            #![trigger write_entries(stores, entries, outcomes).vector_ids.contains(id)]
            write_entries(stores, entries, outcomes).vector_ids.contains(id) <==> (
            stores.vector_ids.contains(id) || vector_written(outcomes, entries.len(), base, id)),
    decreases entries.len(),
{
    let after = write_entries(stores, entries, outcomes);
    if entries.len() == 0 {
        assert forall|id: nat| !row_written(outcomes, 0, base, id) && !vector_written(
            outcomes,
            0,
            base,
            id,
        ) by {}
    } else {
        let k = entries.len() - 1;
        let front = entries.drop_last();
        let before = write_entries(stores, front, outcomes);
        let new_id = entries[k].id;
        assert(numbered_from(front, base)) by {
            assert forall|j: int| 0 <= j < front.len() implies (#[trigger] front[j]).id == base
                + 1 + j by {
                assert(front[j] == entries[j]);
            }
        }
        lemma_written_identifiers(stores, front, outcomes, base);
        assert(new_id == base + 1 + front.len());
        assert forall|id: nat|
            row_ids(after.rows).contains(id) <==> (row_ids(stores.rows).contains(id)
                || row_written(outcomes, entries.len(), base, id)) by {
            lemma_one_more_entry(outcomes, front.len(), base, id);
            assert(row_written(outcomes, entries.len(), base, id) <==> (row_written(
                outcomes,
                front.len(),
                base,
                id,
            ) || (outcome_at(outcomes, k).row_inserted && id == new_id)));
            assert(row_ids(before.rows).contains(id) <==> (row_ids(stores.rows).contains(id)
                || row_written(outcomes, front.len(), base, id)));
            if outcome_at(outcomes, k).row_inserted {
                assert(row_ids(after.rows) == row_ids(before.rows).push(new_id));
                lemma_push_contains(row_ids(before.rows), new_id, id);
            } else {
                assert(after.rows == before.rows);
            }
        }
        assert forall|id: nat|
            after.vector_ids.contains(id) <==> (stores.vector_ids.contains(id) || vector_written(
                outcomes,
                entries.len(),
                base,
                id,
            )) by {
            lemma_one_more_entry(outcomes, front.len(), base, id);
            assert(vector_written(outcomes, entries.len(), base, id) <==> (vector_written(
                outcomes,
                front.len(),
                base,
                id,
            ) || (outcome_at(outcomes, k).vector_added && id == new_id)));
            assert(before.vector_ids.contains(id) <==> (stores.vector_ids.contains(id)
                || vector_written(outcomes, front.len(), base, id)));
            if outcome_at(outcomes, k).vector_added {
                lemma_push_contains(before.vector_ids, new_id, id);
            } else {
                assert(after.vector_ids == before.vector_ids);
            }
        }
    }
}

/// The writer keeps identifiers increasing. Where the identifiers of the rows
/// increased and none was above `base`, and the entries are numbered from
/// `base`, the identifiers of the rows still increase, whatever the outcomes;
/// and the same holds of the vectors.
pub proof fn lemma_writes_keep_ids_increasing<V>(
    stores: Stores,
    entries: Seq<EntryView<V>>,
    outcomes: Seq<WriteOutcome>,
    base: nat,
)
    requires
        numbered_from(entries, base),
        forall|i: int| 0 <= i < stores.rows.len() ==> (#[trigger] stores.rows[i]).id <= base,
        forall|i: int| 0 <= i < stores.vector_ids.len() ==> stores.vector_ids[i] <= base,
    ensures
        ({
            let after = write_entries(stores, entries, outcomes);
            &&& forall|i: int|
                0 <= i < after.rows.len() ==> (#[trigger] after.rows[i]).id <= base + entries.len()
            &&& forall|i: int|
                0 <= i < after.vector_ids.len() ==> after.vector_ids[i] <= base + entries.len()
            &&& increasing(row_ids(stores.rows)) ==> increasing(row_ids(after.rows))
            &&& increasing(stores.vector_ids) ==> increasing(after.vector_ids)
        }),
    decreases entries.len(),
{
    let after = write_entries(stores, entries, outcomes);
    if entries.len() > 0 {
        let k = entries.len() - 1;
        let front = entries.drop_last();
        let before = write_entries(stores, front, outcomes);
        assert(numbered_from(front, base)) by {
            assert forall|j: int| 0 <= j < front.len() implies (#[trigger] front[j]).id == base
                + 1 + j by {
                assert(front[j] == entries[j]);
            }
        }
        lemma_writes_keep_ids_increasing(stores, front, outcomes, base);
        assert(entries[k].id == base + 1 + k);
        assert forall|i: int| 0 <= i < after.rows.len() implies (#[trigger] after.rows[i]).id
            <= base + entries.len() by {
            if i < before.rows.len() {
                assert(before.rows[i].id <= base + front.len());
            }
        }
        if increasing(row_ids(stores.rows)) {
            let ids_before = row_ids(before.rows);
            let ids_after = row_ids(after.rows);
            assert forall|i: int, j: int| 0 <= i < j < ids_after.len() implies ids_after[i]
                < ids_after[j] by {
                assert(before.rows[i].id <= base + front.len());
                if j < ids_before.len() {
                    assert(ids_before[i] < ids_before[j]);
                }
            }
        }
        if increasing(stores.vector_ids) {
            assert forall|i: int, j: int|
                0 <= i < j < after.vector_ids.len() implies after.vector_ids[i]
                < after.vector_ids[j] by {
                assert(before.vector_ids[i] <= base + front.len());
            }
        }
    }
}

/// One call that changes a project's stores.
pub enum Call<V> {
    /// The project is created over what is there: the index is made anew and
    /// empty, and the rows stay.
    Create,
    /// One document is added. `embedded` is what the embedding backend gave
    /// for it, and `outcomes` says how each write ended.
    Add { doc: Document, embedded: Option<Vec<EmbeddingRecord<V>>>, outcomes: Seq<WriteOutcome> },
    /// The index is built anew from a list of documents.
    Build {
        docs: Seq<Document>,
        embedded: Seq<Option<Vec<EmbeddingRecord<V>>>>,
        outcomes: Seq<WriteOutcome>,
    },
    /// Everything is deleted and the project is created again.
    DeleteAll,
}

/// The entries that a call plans on the given stores. Their identifiers count
/// up from the largest identifier among the rows, read when the call starts.
pub open spec fn planned<V>(stores: Stores, call: Call<V>) -> Seq<EntryView<V>> {
    match call {
        Call::Add { doc, embedded, outcomes } => document_entries(
            doc,
            embedded,
            largest_row_id(stores.rows),
        ),
        Call::Build { docs, embedded, outcomes } => batch_entries(
            docs,
            embedded,
            largest_row_id(stores.rows),
        ),
        _ => Seq::empty(),
    }
}

/// How the writes of a call ended.
pub open spec fn outcomes_of<V>(call: Call<V>) -> Seq<WriteOutcome> {
    match call {
        Call::Add { doc, embedded, outcomes } => outcomes,
        Call::Build { docs, embedded, outcomes } => outcomes,
        _ => Seq::empty(),
    }
}

/// The stores on which the writer of a call starts: a call that makes the
/// index anew starts on an empty index.
pub open spec fn opened<V>(stores: Stores, call: Call<V>) -> Stores {
    match call {
        Call::Add { doc, embedded, outcomes } => stores,
        _ => Stores { rows: stores.rows, vector_ids: Seq::empty() },
    }
}

/// The stores after a call.
pub open spec fn step<V>(stores: Stores, call: Call<V>) -> Stores {
    match call {
        Call::DeleteAll => empty_stores(),
        _ => write_entries(opened(stores, call), planned(stores, call), outcomes_of(call)),
    }
}

/// The stores of a project after a sequence of calls, the first of which
/// found nothing on disk.
pub open spec fn replay<V>(calls: Seq<Call<V>>) -> Stores
    decreases calls.len(),
{
    if calls.len() == 0 {
        empty_stores()
    } else {
        step(replay(calls.drop_last()), calls.last())
    }
}

/// Whether, in every call of the sequence, each entry whose vector was added
/// also had its row inserted.
pub open spec fn no_row_was_lost<V>(calls: Seq<Call<V>>) -> bool {
    forall|c: int|
        0 <= c < calls.len() ==> rows_follow_vectors(
            outcomes_of(#[trigger] calls[c]),
            planned(replay(calls.take(c)), calls[c]).len(),
        )
}

/// The documents that the project lists: the names that its rows hold, each
/// once.
pub open spec fn listed_documents(stores: Stores) -> Seq<Seq<char>> {
    distinct_names(row_names(stores.rows))
}

/// Whether the index may return these identifiers for a search: it returns
/// none but those of vectors that it holds.
pub open spec fn may_be_found(stores: Stores, found: Seq<nat>) -> bool {
    forall|k: int| 0 <= k < found.len() ==> stores.vector_ids.contains(#[trigger] found[k])
}

/// The entries that a call plans are numbered from the largest identifier of
/// the rows.
pub proof fn lemma_planned_numbered<V>(stores: Stores, call: Call<V>)
    ensures
        numbered_from(planned(stores, call), largest_row_id(stores.rows)),
{
    match call {
        Call::Add { doc, embedded, outcomes } => {
            lemma_document_entries_numbered(doc, embedded, largest_row_id(stores.rows));
        },
        Call::Build { docs, embedded, outcomes } => {
            lemma_batch_entries_numbered(docs, embedded, largest_row_id(stores.rows));
        },
        _ => {},
    }
}

/// The rows that the writer leaves do not depend on the vectors that were
/// there before.
proof fn lemma_rows_ignore_vectors<V>(
    stores: Stores,
    entries: Seq<EntryView<V>>,
    outcomes: Seq<WriteOutcome>,
)
    ensures
        write_entries(stores, entries, outcomes).rows == write_entries(
            Stores { rows: stores.rows, vector_ids: Seq::empty() },
            entries,
            outcomes,
        ).rows,
    decreases entries.len(),
{
    if entries.len() > 0 {
        lemma_rows_ignore_vectors(stores, entries.drop_last(), outcomes);
    }
}

/// Where every vector has a row, no vector has an identifier above the largest
/// of the rows.
proof fn lemma_vectors_below_largest_row(stores: Stores)
    requires
        forall|i: int|
            0 <= i < stores.vector_ids.len() ==> row_ids(stores.rows).contains(
                #[trigger] stores.vector_ids[i],
            ),
    ensures
        forall|i: int|
            0 <= i < stores.vector_ids.len() ==> stores.vector_ids[i] <= largest_row_id(
                stores.rows,
            ),
{
    lemma_largest_row_id(stores.rows);
    assert forall|i: int| 0 <= i < stores.vector_ids.len() implies stores.vector_ids[i]
        <= largest_row_id(stores.rows) by {
        let id = stores.vector_ids[i];
        assert(row_ids(stores.rows).contains(id));
        let r = choose|r: int| 0 <= r < stores.rows.len() && row_ids(stores.rows)[r] == id;
        assert(stores.rows[r].id == id);
    }
}

/// A call keeps the row identifiers increasing, however its writes ended.
pub proof fn lemma_step_keeps_row_ids_increasing<V>(stores: Stores, call: Call<V>)
    requires
        increasing(row_ids(stores.rows)),
    ensures
        increasing(row_ids(step(stores, call).rows)),
{
    let bare = Stores { rows: stores.rows, vector_ids: Seq::empty() };
    lemma_largest_row_id(stores.rows);
    lemma_planned_numbered(stores, call);
    lemma_writes_keep_ids_increasing(
        bare,
        planned(stores, call),
        outcomes_of(call),
        largest_row_id(stores.rows),
    );
    lemma_rows_ignore_vectors(stores, planned(stores, call), outcomes_of(call));
}

/// A call keeps the two stores in agreement, where each of its entries whose
/// vector was added also had its row inserted.
pub proof fn lemma_step_keeps_stores_consistent<V>(stores: Stores, call: Call<V>)
    requires
        consistent(stores),
        rows_follow_vectors(outcomes_of(call), planned(stores, call).len()),
    ensures
        consistent(step(stores, call)),
{
    let base = largest_row_id(stores.rows);
    let entries = planned(stores, call);
    let outcomes = outcomes_of(call);
    let start = opened(stores, call);
    let after = step(stores, call);
    lemma_largest_row_id(stores.rows);
    lemma_vectors_below_largest_row(stores);
    lemma_planned_numbered(stores, call);
    lemma_writes_keep_ids_increasing(start, entries, outcomes, base);
    lemma_written_identifiers(start, entries, outcomes, base);
    if !(call is DeleteAll) {
        assert forall|i: int| 0 <= i < after.vector_ids.len() implies row_ids(
            after.rows,
        ).contains(#[trigger] after.vector_ids[i]) by {
            let id = after.vector_ids[i];
            assert(after.vector_ids.contains(id));
            if start.vector_ids.contains(id) {
                let j = choose|j: int| 0 <= j < start.vector_ids.len() && start.vector_ids[j] == id;
                assert(row_ids(stores.rows).contains(stores.vector_ids[j]));
            } else {
                assert(vector_written(outcomes, entries.len(), base, id));
                let k = choose|k: int|
                    0 <= k < entries.len() && (#[trigger] outcome_at(outcomes, k)).vector_added
                        && id == base + 1 + k;
                assert(outcome_at(outcomes, k).row_inserted);
                assert(row_written(outcomes, entries.len(), base, id));
            }
        }
    }
}

/// Identifiers are never used twice: after any sequence of calls on one
/// project, however the single writes ended, the identifiers of the rows
/// increase from each row to the next. The stores alone carry the count, so
/// this holds across restarts of the program.
pub proof fn theorem_row_ids_increase<V>(calls: Seq<Call<V>>)
    ensures
        increasing(row_ids(replay(calls).rows)),
    decreases calls.len(),
{
    if calls.len() > 0 {
        theorem_row_ids_increase(calls.drop_last());
        lemma_step_keeps_row_ids_increasing(replay(calls.drop_last()), calls.last());
    }
}

/// The two stores agree after any sequence of calls in which no row was lost:
/// the identifiers of the vectors increase as those of the rows do, and every
/// vector of the index has a row with its identifier.
pub proof fn theorem_stores_stay_consistent<V>(calls: Seq<Call<V>>)
    requires
        no_row_was_lost(calls),
    ensures
        consistent(replay(calls)),
    decreases calls.len(),
{
    if calls.len() > 0 {
        let front = calls.drop_last();
        assert(no_row_was_lost(front)) by {
            assert forall|c: int| 0 <= c < front.len() implies rows_follow_vectors(
                outcomes_of(#[trigger] front[c]),
                planned(replay(front.take(c)), front[c]).len(),
            ) by {
                assert(front[c] == calls[c]);
                assert(front.take(c) == calls.take(c));
            }
        }
        theorem_stores_stay_consistent(front);
        assert(calls.take(calls.len() - 1) == front);
        assert(calls[calls.len() - 1] == calls.last());
        lemma_step_keeps_stores_consistent(replay(front), calls.last());
    }
}

/// Every identifier that a search returns has a row, where the stores agree.
pub proof fn theorem_found_ids_have_rows(stores: Stores, found: Seq<nat>)
    requires
        consistent(stores),
        may_be_found(stores, found),
    ensures
        forall|k: int| 0 <= k < found.len() ==> row_ids(stores.rows).contains(#[trigger] found[k]),
{
    assert forall|k: int| 0 <= k < found.len() implies row_ids(stores.rows).contains(
        #[trigger] found[k],
    ) by {
        let id = found[k];
        assert(stores.vector_ids.contains(id));
        let i = choose|i: int| 0 <= i < stores.vector_ids.len() && stores.vector_ids[i] == id;
        assert(row_ids(stores.rows).contains(stores.vector_ids[i]));
    }
}

/// A lost row shows: where the vector of an entry was added and its row was
/// not inserted, the index holds an identifier that no row has, so the stores
/// no longer agree, and a search may return an identifier without a row.
pub proof fn theorem_lost_row_breaks_agreement<V>(
    stores: Stores,
    doc: Document,
    embedded: Option<Vec<EmbeddingRecord<V>>>,
    outcomes: Seq<WriteOutcome>,
    k: int,
)
    requires
        consistent(stores),
        0 <= k < document_entries(doc, embedded, largest_row_id(stores.rows)).len(),
        outcome_at(outcomes, k).vector_added,
        !outcome_at(outcomes, k).row_inserted,
    ensures
        ({
            let call = Call::Add { doc, embedded, outcomes };
            let after = step(stores, call);
            let lost = planned(stores, call)[k].id;
            &&& after.vector_ids.contains(lost)
            &&& !row_ids(after.rows).contains(lost)
            &&& !consistent(after)
        }),
{
    let call = Call::Add { doc, embedded, outcomes };
    let after = step(stores, call);
    let base = largest_row_id(stores.rows);
    let entries = planned(stores, call);
    let lost = entries[k].id;
    lemma_largest_row_id(stores.rows);
    lemma_planned_numbered(stores, call);
    lemma_written_identifiers(stores, entries, outcomes, base);
    assert(0 <= k < entries.len() && outcome_at(outcomes, k).vector_added && lost == base + 1 + k);
    assert(vector_written(outcomes, entries.len(), base, lost));
    assert(after.vector_ids.contains(lost));
    if row_ids(after.rows).contains(lost) {
        if row_ids(stores.rows).contains(lost) {
            let r = choose|r: int| 0 <= r < stores.rows.len() && row_ids(stores.rows)[r] == lost;
            assert(stores.rows[r].id == lost);
        } else {
            assert(row_written(outcomes, entries.len(), base, lost));
            let j = choose|j: int|
                0 <= j < entries.len() && (#[trigger] outcome_at(outcomes, j)).row_inserted && lost
                    == base + 1 + j;
            assert(j == k);
        }
    }
    let i = choose|i: int| 0 <= i < after.vector_ids.len() && after.vector_ids[i] == lost;
    assert(!row_ids(after.rows).contains(after.vector_ids[i]));
}

/// The names of rows that all carry one name which was listed already add
/// nothing to the list.
proof fn lemma_known_name_adds_nothing(names: Seq<Seq<char>>, more: Seq<Seq<char>>, name: Seq<char>)
    requires
        names.contains(name),
        forall|i: int| 0 <= i < more.len() ==> more[i] == name,
    ensures
        distinct_names(names + more) == distinct_names(names),
    decreases more.len(),
{
    if more.len() == 0 {
        assert(names + more == names);
    } else {
        let front = more.drop_last();
        lemma_known_name_adds_nothing(names, front, name);
        assert((names + more).drop_last() == names + front);
        assert((names + more).last() == name);
        lemma_distinct_names(names);
    }
}

/// The rows that the writer adds for entries of one document all carry that
/// document's name.
proof fn lemma_written_rows_carry_the_name<V>(
    stores: Stores,
    entries: Seq<EntryView<V>>,
    outcomes: Seq<WriteOutcome>,
    name: Seq<char>,
)
    requires
        forall|k: int| 0 <= k < entries.len() ==> (#[trigger] entries[k]).document_name == name,
    ensures
        ({
            let after = write_entries(stores, entries, outcomes);
            &&& stores.rows.is_prefix_of(after.rows)
            &&& forall|i: int|
                stores.rows.len() <= i < after.rows.len() ==> (
                #[trigger] after.rows[i]).document_name == name
        }),
    decreases entries.len(),
{
    if entries.len() > 0 {
        let front = entries.drop_last();
        assert forall|k: int| 0 <= k < front.len() implies (#[trigger] front[k]).document_name
            == name by {
            assert(front[k] == entries[k]);
        }
        lemma_written_rows_carry_the_name(stores, front, outcomes, name);
    }
}

/// An inserted row makes the store longer.
proof fn lemma_a_row_was_written<V>(
    stores: Stores,
    entries: Seq<EntryView<V>>,
    outcomes: Seq<WriteOutcome>,
    k: int,
)
    requires
        0 <= k < entries.len(),
        outcome_at(outcomes, k).row_inserted,
    ensures
        write_entries(stores, entries, outcomes).rows.len() > stores.rows.len(),
    decreases entries.len(),
{
    let front = entries.drop_last();
    lemma_writes_keep_what_was_there(stores, front, outcomes);
    if k < front.len() {
        lemma_a_row_was_written(stores, front, outcomes, k);
    }
}

/// The list of documents is idempotent: it holds no name twice, and adding a
/// document under a name that is listed leaves the list as it was, whatever
/// the document holds and however the writes end. The rows of the earlier
/// additions stay in the store beside the new ones.
pub proof fn theorem_listing_is_idempotent<V>(
    stores: Stores,
    doc: Document,
    embedded: Option<Vec<EmbeddingRecord<V>>>,
    outcomes: Seq<WriteOutcome>,
)
    requires
        listed_documents(stores).contains(doc.path@),
    ensures
        ({
            let after = step(stores, Call::Add { doc, embedded, outcomes });
            &&& listed_documents(after) == listed_documents(stores)
            &&& listed_documents(after).no_duplicates()
            &&& stores.rows.is_prefix_of(after.rows)
        }),
{
    let call = Call::Add { doc, embedded, outcomes };
    let after = step(stores, call);
    let entries = planned(stores, call);
    let names = row_names(stores.rows);
    lemma_distinct_names(names);
    lemma_written_rows_carry_the_name(stores, entries, outcomes, doc.path@);
    let more = row_names(after.rows).skip(stores.rows.len() as int);
    assert(row_names(after.rows) == names + more);
    lemma_known_name_adds_nothing(names, more, doc.path@);
    lemma_distinct_names(row_names(after.rows));
}

/// A document is listed once one of its rows is in the store.
pub proof fn theorem_added_document_is_listed<V>(
    stores: Stores,
    doc: Document,
    embedded: Option<Vec<EmbeddingRecord<V>>>,
    outcomes: Seq<WriteOutcome>,
    k: int,
)
    requires
        0 <= k < document_entries(doc, embedded, largest_row_id(stores.rows)).len(),
        outcome_at(outcomes, k).row_inserted,
    ensures
        listed_documents(step(stores, Call::Add { doc, embedded, outcomes })).contains(doc.path@),
{
    let call = Call::Add { doc, embedded, outcomes };
    let after = step(stores, call);
    let entries = planned(stores, call);
    lemma_written_rows_carry_the_name(stores, entries, outcomes, doc.path@);
    lemma_a_row_was_written(stores, entries, outcomes, k);
    let names = row_names(after.rows);
    assert(names[after.rows.len() - 1] == doc.path@);
    assert(names.contains(doc.path@));
    lemma_distinct_names(names);
}

/// A reset leaves a fresh project: no document is listed, no search can find
/// anything, the stores agree, and the next document that is added gets the
/// identifiers 1, 2, and so on, as in a project that was just created.
pub proof fn theorem_reset_leaves_a_fresh_project<V>(stores: Stores, found: Seq<nat>, next: Call<V>)
    requires
        may_be_found(step(stores, Call::<V>::DeleteAll), found),
    ensures
        step(stores, Call::<V>::DeleteAll) == empty_stores(),
        listed_documents(step(stores, Call::<V>::DeleteAll)) == Seq::<Seq<char>>::empty(),
        found.len() == 0,
        consistent(step(stores, Call::<V>::DeleteAll)),
        numbered_from(planned(step(stores, Call::<V>::DeleteAll), next), 0),
{
    let fresh = step(stores, Call::<V>::DeleteAll);
    assert(row_names(fresh.rows) == Seq::<Seq<char>>::empty());
    if found.len() > 0 {
        assert(fresh.vector_ids.contains(found[0]));
    }
    lemma_planned_numbered(fresh, next);
}

} // verus!
