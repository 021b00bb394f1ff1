use vstd::prelude::*;

use crate::database::sql_database::id_base;
use crate::database::sql_database::next_id_base;
use crate::documents::document::Document;
use crate::models::model::EmbeddingRecord;

verus! {

/// The unit that is persisted for one chunk: a row of the relational store and
/// a vector of the nearest-neighbour index, joined by `id`.
#[derive(Debug, Clone)]
pub struct IndexedEntry<V> {
    pub id: usize,
    pub document_name: String,
    pub chunk_text: String,
    pub page_number: u32,
    pub embedding_vector: V,
}

/// Mathematical value of an `IndexedEntry`.
pub struct EntryView<V> {
    pub id: nat,
    pub document_name: Seq<char>,
    pub chunk_text: Seq<char>,
    pub page_number: nat,
    pub embedding_vector: V,
}

impl<V> View for IndexedEntry<V> {
    type V = EntryView<V>;

    open spec fn view(&self) -> EntryView<V> {
        EntryView {
            id: self.id as nat,
            document_name: self.document_name@,
            chunk_text: self.chunk_text@,
            page_number: self.page_number as nat,
            embedding_vector: self.embedding_vector,
        }
    }
}

/// The views of a sequence of entries, in order.
pub open spec fn entry_views<V>(entries: Seq<IndexedEntry<V>>) -> Seq<EntryView<V>> {
    Seq::new(entries.len(), |i: int| entries[i]@)
}

/// How many entries a list of records and a list of page numbers give: one for
/// each position that both lists have.
pub open spec fn paired_len(records: int, page_numbers: int) -> int {
    if records <= page_numbers {
        records
    } else {
        page_numbers
    }
}

/// The entries written for one document's records: the `i`-th record is paired
/// with the `i`-th page number and gets the identifier `base + 1 + i`.
pub open spec fn planned_entries<V>(
    document_name: Seq<char>,
    records: Seq<EmbeddingRecord<V>>,
    page_numbers: Seq<u32>,
    base: nat,
) -> Seq<EntryView<V>> {
    Seq::new(
        paired_len(records.len() as int, page_numbers.len() as int) as nat,
        |i: int|
            EntryView {
                id: (base + 1 + i) as nat,
                document_name: document_name,
                chunk_text: records[i].text@,
                page_number: page_numbers[i] as nat,
                embedding_vector: records[i].vector,
            },
    )
}

/// The entries written for one document. A document whose embedding failed,
/// or that has no chunks or no page numbers, is skipped and gives none.
pub open spec fn document_entries<V>(
    doc: Document,
    embedded: Option<Vec<EmbeddingRecord<V>>>,
    base: nat,
) -> Seq<EntryView<V>> {
    match (embedded, doc.data, doc.page_numbers) {
        (Some(records), Some(_), Some(page_numbers)) => planned_entries(
            doc.path@,
            records@,
            page_numbers@,
            base,
        ),
        _ => Seq::empty(),
    }
}

/// The entries written for a list of documents, each with the outcome of its
/// embedding: the documents are taken in order and the identifiers run on from
/// one document to the next. A document without an outcome gives none.
pub open spec fn batch_entries<V>(
    docs: Seq<Document>,
    embedded: Seq<Option<Vec<EmbeddingRecord<V>>>>,
    base: nat,
) -> Seq<EntryView<V>>
    decreases paired_len(docs.len() as int, embedded.len() as int),
{
    let n = paired_len(docs.len() as int, embedded.len() as int);
    if n <= 0 {
        Seq::empty()
    } else {
        let earlier = batch_entries(docs.take(n - 1), embedded.take(n - 1), base);
        earlier + document_entries(docs[n - 1], embedded[n - 1], base + earlier.len())
    }
}

/// The entries of the first `m` documents open the entries of the whole list.
proof fn lemma_batch_entries_prefix<V>(
    docs: Seq<Document>,
    embedded: Seq<Option<Vec<EmbeddingRecord<V>>>>,
    base: nat,
    m: int,
)
    requires
        0 <= m <= paired_len(docs.len() as int, embedded.len() as int),
    ensures
        batch_entries(docs.take(m), embedded.take(m), base).is_prefix_of(
            batch_entries(docs, embedded, base),
        ),
    decreases paired_len(docs.len() as int, embedded.len() as int),
{
    let n = paired_len(docs.len() as int, embedded.len() as int);
    let whole = batch_entries(docs, embedded, base);
    if m == n {
        let d = docs.take(n);
        let e = embedded.take(n);
        if n > 0 {
            assert(d.take(n - 1) == docs.take(n - 1));
            assert(e.take(n - 1) == embedded.take(n - 1));
        }
        assert(batch_entries(d, e, base) == whole);
    } else {
        let d = docs.take(n - 1);
        let e = embedded.take(n - 1);
        lemma_batch_entries_prefix(d, e, base, m);
        assert(d.take(m) == docs.take(m));
        assert(e.take(m) == embedded.take(m));
    }
}

/// How many entries are planned does not depend on where the identifiers
/// start.
pub proof fn lemma_entry_count_ignores_base<V>(
    docs: Seq<Document>,
    embedded: Seq<Option<Vec<EmbeddingRecord<V>>>>,
    base: nat,
    other: nat,
)
    ensures
        batch_entries(docs, embedded, base).len() == batch_entries(docs, embedded, other).len(),
    decreases paired_len(docs.len() as int, embedded.len() as int),
{
    let n = paired_len(docs.len() as int, embedded.len() as int);
    if n > 0 {
        lemma_entry_count_ignores_base(docs.take(n - 1), embedded.take(n - 1), base, other);
    }
}

/// Appends the entries of one document to `entries`.
fn push_document_entries<V>(
    entries: &mut Vec<IndexedEntry<V>>,
    doc: &Document,
    embedded: Option<Vec<EmbeddingRecord<V>>>,
    base: usize,
)
    requires
        base + document_entries(*doc, embedded, base as nat).len() <= usize::MAX,
    ensures
        entry_views(final(entries)@) == entry_views(old(entries)@) + document_entries(
            *doc,
            embedded,
            base as nat,
        ),
{
    let ghost before = entry_views(entries@);
    let ghost planned = document_entries(*doc, embedded, base as nat);
    match embedded {
        Some(records) => {
            if doc.data.is_none() {
                assert(entry_views(entries@) == before + planned);
                return ;
            }
            match &doc.page_numbers {
                Some(page_numbers) => {
                    let count: usize = records.len();
                    let mut i: usize = 0;
                    for record in it: records
                        invariant
                            i == it.index(),
                            it.seq() == records@,
                            records@.len() == count,
                            planned == planned_entries(
                                doc.path@,
                                records@,
                                page_numbers@,
                                base as nat,
                            ),
                            base + planned.len() <= usize::MAX,
                            entry_views(entries@) == before + planned.take(
                                paired_len(i as int, page_numbers.len() as int),
                            ),
                    {
                        if i < page_numbers.len() {
                            let ghost done = entry_views(entries@);
                            let entry = IndexedEntry {
                                id: base + 1 + i,
                                document_name: doc.path.clone(),
                                chunk_text: record.text,
                                page_number: page_numbers[i],
                                embedding_vector: record.vector,
                            };
                            assert(entry@ == planned[i as int]);
                            entries.push(entry);
                            assert(entry_views(entries@) == done.push(planned[i as int]));
                            assert(planned.take(i as int + 1) == planned.take(i as int).push(
                                planned[i as int],
                            ));
                        }
                        i = i + 1;
                    }
                    assert(planned.take(planned.len() as int) == planned);
                },
                None => {
                    assert(entry_views(entries@) == before + planned);
                },
            }
        },
        None => {
            assert(entry_views(entries@) == before + planned);
        },
    }
}

impl Document {
    /// How many entries a document gives with this outcome of its embedding,
    /// whatever the identifiers start from.
    pub fn entry_count<V>(doc: &Document, embedded: &Option<Vec<EmbeddingRecord<V>>>) -> (count:
        usize)
        ensures
            forall|base: nat| count == (#[trigger] document_entries(*doc, *embedded, base)).len(),
    {
        match (embedded, &doc.data, &doc.page_numbers) {
            (Some(records), Some(_), Some(page_numbers)) => {
                if records.len() <= page_numbers.len() {
                    records.len()
                } else {
                    page_numbers.len()
                }
            },
            _ => 0,
        }
    }

    /// How many entries a list of documents gives with these outcomes of
    /// their embedding, whatever the identifiers start from; `None` where the
    /// number is too large to count.
    pub fn batch_entry_count<V>(
        doc_list: &Vec<Document>,
        embedded: &Vec<Option<Vec<EmbeddingRecord<V>>>>,
    ) -> (count: Option<usize>)
        ensures
            match count {
                Some(n) => forall|base: nat|
                    n == (#[trigger] batch_entries(doc_list@, embedded@, base)).len(),
                None => forall|base: nat|
                    (#[trigger] batch_entries(doc_list@, embedded@, base)).len() > usize::MAX,
            },
    {
        let paired: usize = if doc_list.len() <= embedded.len() {
            doc_list.len()
        } else {
            embedded.len()
        };
        let ghost whole = batch_entries(doc_list@, embedded@, 0);
        let mut count: usize = 0;
        let mut k: usize = 0;
        while k < paired
            invariant
                k <= paired,
                paired == paired_len(doc_list.len() as int, embedded.len() as int),
                whole == batch_entries(doc_list@, embedded@, 0),
                count == batch_entries(doc_list@.take(k as int), embedded@.take(k as int), 0).len(),
            decreases paired - k,
        {
            let ghost d = doc_list@.take(k as int + 1);
            let ghost e = embedded@.take(k as int + 1);
            proof {
                assert(d.take(k as int) == doc_list@.take(k as int));
                assert(e.take(k as int) == embedded@.take(k as int));
                lemma_batch_entries_prefix(doc_list@, embedded@, 0, k as int + 1);
            }
            match count.checked_add(Document::entry_count(&doc_list[k], &embedded[k])) {
                Some(more) => {
                    count = more;
                },
                None => {
                    proof {
                        assert forall|base: nat|
                            (#[trigger] batch_entries(doc_list@, embedded@, base)).len()
                                > usize::MAX by {
                            lemma_entry_count_ignores_base(doc_list@, embedded@, base, 0);
                        }
                    }
                    return None;
                },
            }
            k = k + 1;
        }
        proof {
            let n = paired as int;
            lemma_batch_entries_prefix(doc_list@, embedded@, 0, n);
            if n > 0 {
                assert(doc_list@.take(n).take(n - 1) == doc_list@.take(n - 1));
                assert(embedded@.take(n).take(n - 1) == embedded@.take(n - 1));
            }
            assert(batch_entries(doc_list@.take(n), embedded@.take(n), 0) == whole);
            assert forall|base: nat|
                count == (#[trigger] batch_entries(doc_list@, embedded@, base)).len() by {
                lemma_entry_count_ignores_base(doc_list@, embedded@, base, 0);
            }
        }
        Some(count)
    }

    /// Plans the writes for one document that has been chunked and embedded.
    ///
    /// `max_id` is the largest identifier in the relational store, read just
    /// before the call, or `None` for a store without rows. `embedded` is what
    /// the embedding backend returned for the document's chunks, or `None`
    /// where it failed. The result lists, in order, the entries to add to the
    /// index and to insert into the relational store; their identifiers count
    /// up from `max_id`. It is empty where the document is skipped.
    pub fn add_document_to_index<V>(
        doc: &Document,
        embedded: Option<Vec<EmbeddingRecord<V>>>,
        max_id: Option<usize>,
    ) -> (entries: Vec<IndexedEntry<V>>)
        requires
            id_base(max_id) + document_entries(*doc, embedded, id_base(max_id)).len()
                <= usize::MAX,
        ensures
            entry_views(entries@) == document_entries(*doc, embedded, id_base(max_id)),
    {
        let base = next_id_base(max_id);
        let mut entries: Vec<IndexedEntry<V>> = Vec::new();
        push_document_entries(&mut entries, doc, embedded, base);
        assert(entry_views(Seq::<IndexedEntry<V>>::empty()) == Seq::<EntryView<V>>::empty());
        entries
    }

    /// Plans the writes for a list of documents, the `k`-th with the `k`-th
    /// outcome of `embedded`. Documents are taken in order, a skipped document
    /// uses up no identifier, and the identifiers count up from `max_id`
    /// without a gap from the first entry to the last.
    pub fn build_semantic_search<V>(
        doc_list: &Vec<Document>,
        embedded: Vec<Option<Vec<EmbeddingRecord<V>>>>,
        max_id: Option<usize>,
    ) -> (entries: Vec<IndexedEntry<V>>)
        requires
            id_base(max_id) + batch_entries(doc_list@, embedded@, id_base(max_id)).len()
                <= usize::MAX,
        ensures
            entry_views(entries@) == batch_entries(doc_list@, embedded@, id_base(max_id)),
    {
        let base = next_id_base(max_id);
        let mut entries: Vec<IndexedEntry<V>> = Vec::new();
        let ghost whole = batch_entries(doc_list@, embedded@, base as nat);
        let count: usize = embedded.len();
        let mut k: usize = 0;
        assert(entry_views(entries@) == batch_entries(
            doc_list@.take(0),
            embedded@.take(0),
            base as nat,
        ));
        for outcome in it: embedded
            invariant
                k == it.index(),
                it.seq() == embedded@,
                embedded@.len() == count,
                whole == batch_entries(doc_list@, embedded@, base as nat),
                base + whole.len() <= usize::MAX,
                entry_views(entries@) == batch_entries(
                    doc_list@.take(paired_len(k as int, doc_list.len() as int)),
                    embedded@.take(paired_len(k as int, doc_list.len() as int)),
                    base as nat,
                ),
        {
            if k < doc_list.len() {
                let ghost d = doc_list@.take(k as int + 1);
                let ghost e = embedded@.take(k as int + 1);
                proof {
                    assert(paired_len(doc_list.len() as int, embedded.len() as int) >= k + 1);
                    lemma_batch_entries_prefix(doc_list@, embedded@, base as nat, k as int + 1);
                    assert(d.take(k as int) == doc_list@.take(k as int));
                    assert(e.take(k as int) == embedded@.take(k as int));
                    assert(d[k as int] == doc_list[k as int]);
                    assert(e[k as int] == outcome);
                }
                let next: usize = base + entries.len();
                push_document_entries(&mut entries, &doc_list[k], outcome, next);
            }
            k = k + 1;
        }
        proof {
            let n = paired_len(doc_list.len() as int, embedded.len() as int);
            assert(paired_len(k as int, doc_list.len() as int) == n);
            lemma_batch_entries_prefix(doc_list@, embedded@, base as nat, n);
            let part = batch_entries(doc_list@.take(n), embedded@.take(n), base as nat);
            if n > 0 {
                assert(doc_list@.take(n).take(n - 1) == doc_list@.take(n - 1));
                assert(embedded@.take(n).take(n - 1) == embedded@.take(n - 1));
            }
            assert(part == whole);
        }
        entries
    }
}

} // verus!
