use ragdb::database::consistency::vectors_without_rows;
use ragdb::database::consistency::WriteOutcome;
use ragdb::database::sql_database::get_max_id;
use ragdb::database::sql_database::next_id_base;
use ragdb::database::sql_database::sql_search_by_id;
use ragdb::database::sql_database::SQLError;
use ragdb::documents::document::Document;
use ragdb::documents::document_util::IndexedEntry;
use ragdb::errors::KnowledgeBaseError;
use ragdb::models::model::EmbeddingRecord;

fn strings(items: &[&str]) -> Vec<String> {
    items.iter().map(|item| item.to_string()).collect()
}

fn chunked(path: &str, chunks: &[&str], pages: &[u32]) -> Document {
    Document {
        name: path.to_string(),
        path: path.to_string(),
        data: Some(strings(chunks)),
        page_numbers: Some(pages.to_vec()),
    }
}

fn embedded(chunks: &[&str]) -> Vec<EmbeddingRecord<Vec<f32>>> {
    chunks
        .iter()
        .enumerate()
        .map(|(i, chunk)| EmbeddingRecord { text: chunk.to_string(), vector: vec![i as f32; 4] })
        .collect()
}

fn ids(entries: &[IndexedEntry<Vec<f32>>]) -> Vec<usize> {
    entries.iter().map(|entry| entry.id).collect()
}

#[test]
fn largest_id_of_the_rows() {
    assert_eq!(get_max_id(&Vec::new()), None);
    assert_eq!(get_max_id(&vec![5]), Some(5));
    assert_eq!(get_max_id(&vec![3, 9, 4]), Some(9));
    assert_eq!(get_max_id(&vec![1, 2, 3]), Some(3));
    assert_eq!(get_max_id(&vec![0]), Some(0));
}

#[test]
fn counting_starts_at_the_largest_id() {
    assert_eq!(next_id_base(None), 0);
    assert_eq!(next_id_base(Some(0)), 0);
    assert_eq!(next_id_base(Some(41)), 41);
}

#[test]
fn first_document_gets_ids_from_one() {
    let doc = chunked("a.txt", &["x", "y", "z"], &[1, 1, 2]);
    let entries = Document::add_document_to_index(&doc, Some(embedded(&["x", "y", "z"])), None);
    assert_eq!(ids(&entries), vec![1, 2, 3]);
    assert_eq!(entries[0].document_name, "a.txt");
    assert_eq!(entries[0].chunk_text, "x");
    assert_eq!(entries[2].chunk_text, "z");
    assert_eq!(entries[1].page_number, 1);
    assert_eq!(entries[2].page_number, 2);
    assert_eq!(entries[0].embedding_vector, vec![0.0; 4]);
    assert_eq!(entries[2].embedding_vector, vec![2.0; 4]);
}

#[test]
fn later_document_counts_on_from_the_store() {
    let doc = chunked("dir/b.pdf", &["x", "y"], &[4, 5]);
    let entries = Document::add_document_to_index(&doc, Some(embedded(&["x", "y"])), Some(7));
    assert_eq!(ids(&entries), vec![8, 9]);
    assert_eq!(entries[1].document_name, "dir/b.pdf");
    assert_eq!(entries[1].page_number, 5);
}

#[test]
fn entry_name_is_the_path_of_the_document() {
    let doc = Document {
        name: "b.pdf".to_string(),
        path: "/data/b.pdf".to_string(),
        data: Some(strings(&["x"])),
        page_numbers: Some(vec![1]),
    };
    let entries = Document::add_document_to_index(&doc, Some(embedded(&["x"])), None);
    assert_eq!(entries[0].document_name, "/data/b.pdf");
}

#[test]
fn records_and_pages_are_paired_as_far_as_both_go() {
    let doc = chunked("a.txt", &["x", "y", "z"], &[1, 2]);
    let entries = Document::add_document_to_index(&doc, Some(embedded(&["x", "y", "z"])), None);
    assert_eq!(ids(&entries), vec![1, 2]);

    let doc = chunked("a.txt", &["x", "y", "z"], &[1, 2, 3]);
    let entries = Document::add_document_to_index(&doc, Some(embedded(&["x"])), Some(2));
    assert_eq!(ids(&entries), vec![3]);
}

#[test]
fn skipped_documents_give_no_entry() {
    let doc = chunked("a.txt", &["x"], &[1]);
    let failed: Option<Vec<EmbeddingRecord<Vec<f32>>>> = None;
    assert!(Document::add_document_to_index(&doc, failed, Some(3)).is_empty());

    let mut no_pages = chunked("a.txt", &["x"], &[1]);
    no_pages.page_numbers = None;
    assert!(Document::add_document_to_index(&no_pages, Some(embedded(&["x"])), Some(3)).is_empty());

    let mut no_data = chunked("a.txt", &["x"], &[1]);
    no_data.data = None;
    assert!(Document::add_document_to_index(&no_data, Some(embedded(&["x"])), Some(3)).is_empty());
}

#[test]
fn two_additions_never_share_an_id() {
    let mut table: Vec<usize> = Vec::new();
    let doc = chunked("a.txt", &["x", "y"], &[1, 1]);
    for _ in 0..3 {
        let entries =
            Document::add_document_to_index(&doc, Some(embedded(&["x", "y"])), get_max_id(&table));
        table.extend(ids(&entries));
    }
    assert_eq!(table, vec![1, 2, 3, 4, 5, 6]);
}

#[test]
fn ids_stay_increasing_when_rows_are_lost() {
    let mut table: Vec<usize> = Vec::new();
    let doc = chunked("a.txt", &["x", "y", "z"], &[1, 1, 1]);
    let first = Document::add_document_to_index(&doc, Some(embedded(&["x", "y", "z"])), None);
    table.push(first[0].id);
    table.push(first[1].id);
    let second =
        Document::add_document_to_index(&doc, Some(embedded(&["x", "y", "z"])), get_max_id(&table));
    table.extend(ids(&second));
    assert_eq!(table, vec![1, 2, 3, 4, 5]);
    assert!(table.windows(2).all(|pair| pair[0] < pair[1]));
}

#[test]
fn build_numbers_all_documents_in_order() {
    let docs = vec![
        chunked("a.txt", &["a1", "a2"], &[1, 2]),
        chunked("b.txt", &["b1"], &[1]),
        chunked("c.txt", &["c1", "c2", "c3"], &[1, 1, 2]),
    ];
    let outcomes = vec![Some(embedded(&["a1", "a2"])), None, Some(embedded(&["c1", "c2", "c3"]))];
    let entries = Document::build_semantic_search(&docs, outcomes, None);
    assert_eq!(ids(&entries), vec![1, 2, 3, 4, 5]);
    let names: Vec<&str> = entries.iter().map(|entry| entry.document_name.as_str()).collect();
    assert_eq!(names, vec!["a.txt", "a.txt", "c.txt", "c.txt", "c.txt"]);
    let texts: Vec<&str> = entries.iter().map(|entry| entry.chunk_text.as_str()).collect();
    assert_eq!(texts, vec!["a1", "a2", "c1", "c2", "c3"]);
    let pages: Vec<u32> = entries.iter().map(|entry| entry.page_number).collect();
    assert_eq!(pages, vec![1, 2, 1, 1, 2]);
}

#[test]
fn build_counts_on_from_the_store_and_pairs_documents_with_outcomes() {
    let docs = vec![chunked("a.txt", &["a1"], &[1]), chunked("b.txt", &["b1"], &[1])];
    let entries = Document::build_semantic_search(&docs, vec![Some(embedded(&["a1"]))], Some(10));
    assert_eq!(ids(&entries), vec![11]);

    let none: Vec<Option<Vec<EmbeddingRecord<Vec<f32>>>>> = Vec::new();
    assert!(Document::build_semantic_search(&docs, none, Some(10)).is_empty());
    let no_docs: Vec<Document> = Vec::new();
    assert!(
        Document::build_semantic_search(&no_docs, vec![Some(embedded(&["a1"]))], None).is_empty()
    );
}

#[test]
fn found_rows_are_gathered_in_the_order_of_the_ids() {
    let row = |name: &str, line: &str, page: u32| (name.to_string(), line.to_string(), page);
    let found = vec![
        vec![row("b.txt", "second", 2)],
        Vec::new(),
        vec![row("a.txt", "first", 1), row("a.txt", "again", 1)],
    ];
    let rows = sql_search_by_id(found).unwrap();
    assert_eq!(
        rows,
        vec![row("b.txt", "second", 2), row("a.txt", "first", 1), row("a.txt", "again", 1)]
    );
    assert_eq!(sql_search_by_id(Vec::new()), Some(Vec::new()));
}

#[test]
fn errors_have_their_message() {
    assert_eq!(SQLError.message(), "invalid sql transaction or connection");
    assert_eq!(KnowledgeBaseError.message(), "invalid sql transaction or connection");
}

#[test]
fn vectors_without_rows_are_told() {
    let doc = chunked("a.txt", &["w", "x", "y", "z"], &[1, 1, 2, 2]);
    let entries =
        Document::add_document_to_index(&doc, Some(embedded(&["w", "x", "y", "z"])), Some(10));
    let outcome =
        |vector_added: bool, row_inserted: bool| WriteOutcome { vector_added, row_inserted };
    let outcomes = vec![
        outcome(true, true),
        outcome(true, false),
        outcome(false, false),
        outcome(true, false),
    ];
    assert_eq!(vectors_without_rows(&entries, &outcomes), vec![12, 14]);

    let all_written = vec![outcome(true, true); 4];
    assert!(vectors_without_rows(&entries, &all_written).is_empty());
    let rows_only = vec![outcome(false, true); 4];
    assert!(vectors_without_rows(&entries, &rows_only).is_empty());
}

#[test]
fn entries_without_an_outcome_were_not_written() {
    let doc = chunked("a.txt", &["x", "y"], &[1, 1]);
    let entries = Document::add_document_to_index(&doc, Some(embedded(&["x", "y"])), None);
    let broke_off = vec![WriteOutcome { vector_added: true, row_inserted: false }];
    assert_eq!(vectors_without_rows(&entries, &broke_off), vec![1]);
    assert!(vectors_without_rows(&entries, &Vec::new()).is_empty());
}

#[test]
fn entries_are_counted_before_they_are_planned() {
    let doc = chunked("a.txt", &["x", "y", "z"], &[1, 2]);
    assert_eq!(Document::entry_count(&doc, &Some(embedded(&["x", "y", "z"]))), 2);
    assert_eq!(Document::entry_count(&doc, &Some(embedded(&["x"]))), 1);
    let failed: Option<Vec<EmbeddingRecord<Vec<f32>>>> = None;
    assert_eq!(Document::entry_count(&doc, &failed), 0);
    let mut no_pages = chunked("a.txt", &["x"], &[1]);
    no_pages.page_numbers = None;
    assert_eq!(Document::entry_count(&no_pages, &Some(embedded(&["x"]))), 0);
}

#[test]
fn entries_of_a_build_are_counted_before_they_are_planned() {
    let docs = vec![
        chunked("a.txt", &["a1", "a2"], &[1, 2]),
        chunked("b.txt", &["b1"], &[1]),
        chunked("c.txt", &["c1", "c2", "c3"], &[1, 1]),
    ];
    let outcomes = vec![Some(embedded(&["a1", "a2"])), None, Some(embedded(&["c1", "c2", "c3"]))];
    assert_eq!(Document::batch_entry_count(&docs, &outcomes), Some(4));
    assert_eq!(Document::build_semantic_search(&docs, outcomes, None).len(), 4);

    let short = vec![Some(embedded(&["a1", "a2"]))];
    assert_eq!(Document::batch_entry_count(&docs, &short), Some(2));
    let none: Vec<Option<Vec<EmbeddingRecord<Vec<f32>>>>> = Vec::new();
    assert_eq!(Document::batch_entry_count(&docs, &none), Some(0));
}
