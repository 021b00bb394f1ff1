use ragdb::database::hora::HoraSearch;
use ragdb::database::sql_database::get_max_id;
use ragdb::database::sql_database::sql_search_by_id;
use ragdb::database::vectordb::Utils;
use ragdb::documents::document::get_file_from_name;
use ragdb::documents::document::Document;
use ragdb::knowledge_base::RagDb;
use ragdb::knowledge_base::DATABASE_FILE;
use ragdb::knowledge_base::DESCRIPTOR_FILE;
use ragdb::knowledge_base::INDEX_FILE;
use ragdb::knowledge_base::PROJECT_DIRECTORY;
use ragdb::models::model::embedding_dimension;
use ragdb::models::model::pair_embeddings;
use ragdb::models::model::Backend;
use ragdb::models::model::EmbeddingModel;
use ragdb::npu_backend::EmbeddingNpuModel;

fn strings(items: &[&str]) -> Vec<String> {
    items.iter().map(|item| item.to_string()).collect()
}

fn software_project(chunk_size: usize) -> RagDb {
    RagDb::new(
        "./tmp/test1".to_string(),
        Some("BGESmallENV15".to_string()),
        None,
        Some("cpu".to_string()),
        None,
        chunk_size,
    )
}

fn hardware_model() -> EmbeddingNpuModel {
    EmbeddingNpuModel::new("BGELargeENV15NPU_Int8".to_string(), "npu.json".to_string())
}

#[test]
fn project_files_have_their_names() {
    assert_eq!(PROJECT_DIRECTORY, ".ragdb");
    assert_eq!(DESCRIPTOR_FILE, "ragdb.toml");
    assert_eq!(DATABASE_FILE, "ragdb.db3");
    assert_eq!(INDEX_FILE, "ragdb.index");
}

#[test]
fn new_project_keeps_its_settings() {
    let project = software_project(256);
    assert_eq!(project.path, "./tmp/test1");
    assert_eq!(project.model_name, "BGESmallENV15");
    assert_eq!(project.config, None);
    assert_eq!(project.device, "cpu");
    assert!(project.embedding_npu_model.is_none());
    assert_eq!(project.chunk_size, 256);
    assert!(project.is_well_formed());
}

#[test]
fn device_defaults_to_the_accelerator() {
    assert!(RagDb::uses_npu(&None));
    assert!(RagDb::uses_npu(&Some("npu".to_string())));
    assert!(!RagDb::uses_npu(&Some("cpu".to_string())));
    assert!(!RagDb::uses_npu(&Some("NPU".to_string())));

    let project = RagDb::new(
        "/kb".to_string(),
        Some("BGELargeENV15NPU_Int8".to_string()),
        Some("npu.json".to_string()),
        None,
        Some(hardware_model()),
        1000,
    );
    assert_eq!(project.device, "npu");
    assert_eq!(project.config, Some("npu.json".to_string()));
    assert!(project.is_well_formed());
    assert!(matches!(
        project.backend(),
        Backend::Hardware(model) if model.config_path == "npu.json"
    ));
    assert_eq!(embedding_dimension(&project.backend()), 1024);
}

#[test]
fn software_project_embeds_with_its_model() {
    let project = software_project(256);
    assert!(matches!(project.backend(), Backend::Software(EmbeddingModel::BGESmallENV15)));
    assert_eq!(embedding_dimension(&project.backend()), 384);
}

#[test]
fn settings_that_do_not_fit_are_told_apart() {
    let mut project = software_project(256);
    project.device = "npu".to_string();
    assert!(!project.is_well_formed());

    let mut project = software_project(256);
    project.embedding_npu_model = Some(hardware_model());
    assert!(!project.is_well_formed());

    let mut project = software_project(256);
    project.device = "npu".to_string();
    project.embedding_npu_model = Some(hardware_model());
    assert!(!project.is_well_formed());
    project.model_name = "BGELargeENV15NPU_Int8".to_string();
    assert!(project.is_well_formed());
}

#[test]
fn content_is_chunked_onto_page_one() {
    let project = software_project(10);
    let doc = project
        .add_document_content("memo.txt".to_string(), "Some text\n\nfrom a\ndocument".to_string());
    assert_eq!(doc.name, "memo.txt");
    assert_eq!(doc.path, "memo.txt");
    assert_eq!(doc.data, Some(strings(&["Some text", "from a", "document"])));
    assert_eq!(doc.page_numbers, Some(vec![1, 1, 1]));
}

#[test]
fn empty_content_has_no_chunk() {
    let project = software_project(10);
    let doc = project.add_document_content("empty".to_string(), String::new());
    assert_eq!(doc.data, Some(Vec::new()));
    assert_eq!(doc.page_numbers, Some(Vec::new()));
}

#[test]
fn documents_are_chunked_with_the_project_chunk_size() {
    let project = software_project(10);
    let mut doc = get_file_from_name("notes.txt".to_string()).unwrap();
    project.get_text_from_doc_with_pages(
        &mut doc,
        Some(strings(&["Some text\n\nfrom a\ndocument", "tail"])),
    );
    assert_eq!(doc.data, Some(strings(&["Some text", "from a", "document", "tail"])));
    assert_eq!(doc.page_numbers, Some(vec![1, 1, 1, 2]));

    let mut doc = get_file_from_name("notes.txt".to_string()).unwrap();
    project.get_text_from_doc(&mut doc, Some(strings(&["Some text\n\nfrom a\ndocument"])));
    assert_eq!(doc.data, Some(strings(&["Some text", "from a", "document"])));
    assert_eq!(doc.page_numbers, None);
}

#[test]
fn documents_without_chunks_stay_as_they_are() {
    let project = software_project(10);
    let mut doc = get_file_from_name("notes.bin".to_string()).unwrap();
    project.get_text_from_doc_with_pages(&mut doc, Some(strings(&["AAAA"])));
    assert_eq!(doc.data, None);
    assert_eq!(doc.page_numbers, None);

    let mut doc = get_file_from_name("notes.txt".to_string()).unwrap();
    project.get_text_from_doc(&mut doc, None);
    assert_eq!(doc.data, None);

    let mut doc = get_file_from_name("notes.txt".to_string()).unwrap();
    project.get_text_from_doc_with_pages(&mut doc, None);
    assert_eq!(doc.data, Some(strings(&["   "])));
    assert_eq!(doc.page_numbers, Some(vec![1]));
}

#[test]
fn each_document_is_listed_once() {
    let project = software_project(256);
    let names = strings(&["a.txt", "b.pdf", "a.txt", "a.txt", "c.docx", "b.pdf"]);
    assert_eq!(project.get_added_doc_paths(Some(names)), strings(&["a.txt", "b.pdf", "c.docx"]));
    assert!(project.get_added_doc_paths(Some(Vec::new())).is_empty());
    assert!(project.get_added_doc_paths(None).is_empty());
}

#[test]
fn adding_a_name_twice_lists_it_once() {
    let project = software_project(256);
    let mut rows: Vec<(usize, String)> = Vec::new();
    for _ in 0..2 {
        let doc = project.add_document_content("memo.txt".to_string(), "A short memo.".to_string());
        let texts = doc.data.clone().unwrap();
        let records = pair_embeddings(&texts, vec![vec![0.0f32; 384]; texts.len()]);
        let table: Vec<usize> = rows.iter().map(|row| row.0).collect();
        for entry in Document::add_document_to_index(&doc, Some(records), get_max_id(&table)) {
            rows.push((entry.id, entry.document_name));
        }
    }
    let ids: Vec<usize> = rows.iter().map(|row| row.0).collect();
    assert_eq!(ids, vec![1, 2]);
    let names: Vec<String> = rows.iter().map(|row| row.1.clone()).collect();
    assert_eq!(project.get_added_doc_paths(Some(names)), strings(&["memo.txt"]));
}

#[test]
fn results_keep_the_order_of_the_rows() {
    let project = software_project(256);
    let row = |name: &str, line: &str, page: u32| (name.to_string(), line.to_string(), page);
    let results =
        project.search(Some(vec![row("b.txt", "near", 3), row("a.txt", "far", 1)])).unwrap();
    assert_eq!(results.len(), 2);
    assert_eq!(results[0].document_name, "b.txt");
    assert_eq!(results[0].line, "near");
    assert_eq!(results[0].page_number, 3);
    assert_eq!(results[1].document_name, "a.txt");
    assert_eq!(results[1].line, "far");
    assert_eq!(results[1].page_number, 1);
}

#[test]
fn search_without_rows() {
    let project = software_project(256);
    assert!(project.search(None).is_none());
    assert!(project.search(Some(Vec::new())).unwrap().is_empty());
}

#[test]
fn a_sentence_comes_back_from_a_search() {
    let project = software_project(256);
    let sentence = "The capital of Iceland is Reykjavik.";
    let doc = project.add_document_content("iceland.txt".to_string(), sentence.to_string());
    let texts = doc.data.clone().unwrap();
    assert_eq!(texts, strings(&[sentence]));
    let records = pair_embeddings(&texts, vec![vec![0.25f32; 384]]);
    let entries = Document::add_document_to_index(&doc, Some(records), None);
    assert_eq!(entries.len(), 1);

    let nearest: Vec<usize> = vec![entries[0].id];
    let found: Vec<Vec<(String, String, u32)>> = nearest
        .iter()
        .map(|id| {
            entries
                .iter()
                .filter(|entry| entry.id == *id)
                .map(|entry| {
                    (entry.document_name.clone(), entry.chunk_text.clone(), entry.page_number)
                })
                .collect()
        })
        .collect();
    let results = project.search(sql_search_by_id(found)).unwrap();
    assert_eq!(results.len(), 1);
    assert_eq!(results[0].line, sentence);
    assert_eq!(results[0].document_name, "iceland.txt");
    assert_eq!(results[0].page_number, 1);
}

#[test]
fn reset_keeps_the_settings_and_starts_over() {
    let mut project = RagDb::new(
        "/kb".to_string(),
        Some("BGELargeENV15NPU_Fp16".to_string()),
        Some("npu.json".to_string()),
        Some("npu".to_string()),
        Some(EmbeddingNpuModel::new("BGELargeENV15NPU_Fp16".to_string(), "npu.json".to_string())),
        512,
    );
    project.delete_all(Some(EmbeddingNpuModel::new(
        "BGELargeENV15NPU_Fp16".to_string(),
        "npu.json".to_string(),
    )));
    assert_eq!(project.path, "/kb");
    assert_eq!(project.model_name, "BGELargeENV15NPU_Fp16");
    assert_eq!(project.config, Some("npu.json".to_string()));
    assert_eq!(project.device, "npu");
    assert_eq!(project.chunk_size, 512);
    assert!(project.is_well_formed());

    let mut project = software_project(128);
    project.delete_all(None);
    assert_eq!(project.device, "cpu");
    assert_eq!(project.chunk_size, 128);
    assert!(project.embedding_npu_model.is_none());

    assert!(project.get_added_doc_paths(Some(Vec::new())).is_empty());
    assert!(project.search(sql_search_by_id(Vec::new())).unwrap().is_empty());
    let doc = project.add_document_content("again.txt".to_string(), "Back again.".to_string());
    let records = pair_embeddings(&doc.data.clone().unwrap(), vec![vec![0.0f32; 384]]);
    let entries = Document::add_document_to_index(&doc, Some(records), get_max_id(&Vec::new()));
    assert_eq!(entries[0].id, 1);
}

#[test]
fn index_handle_keeps_its_location() {
    assert_eq!(HoraSearch::create("/kb/.ragdb".to_string()).get_index_path(), "/kb/.ragdb");
    assert_eq!(HoraSearch::create("/kb/.ragdb".to_string()).get_index_name(), "");
    assert_eq!(HoraSearch::create("/kb/.ragdb".to_string()).get_index_id(), "");
    assert_eq!(HoraSearch::load("other".to_string()).get_index_path(), "other");
    assert_eq!(HoraSearch::load("other".to_string()).get_index_name(), "");
    HoraSearch::save(HoraSearch::load("other".to_string()));
}
