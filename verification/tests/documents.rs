use ragdb::documents::document::get_file_from_name;
use ragdb::documents::document::get_file_text;
use ragdb::documents::document::get_file_text_with_pages;
use ragdb::documents::document::is_supported;
use ragdb::documents::document::split_text_into_chunks;
use ragdb::documents::document::DocType;
use ragdb::documents::document::Document;

fn named(name: &str) -> Document {
    get_file_from_name(name.to_string()).unwrap()
}

fn strings(items: &[&str]) -> Vec<String> {
    items.iter().map(|item| item.to_string()).collect()
}

#[test]
fn test_get_file_list() {
    let path: String = String::from("./iceland.pdf");
    assert!(is_supported(&path));

    let path: String = String::from("./test_file.pdf");
    assert!(is_supported(&path));
}

#[test]
fn supported_names_end_in_a_known_extension() {
    assert!(is_supported("notes.txt"));
    assert!(is_supported("report.docx"));
    assert!(is_supported("paper.pdf"));
    assert!(!is_supported("archive.zip"));
    assert!(!is_supported("README"));
    assert!(!is_supported("paper.PDF"));
    assert!(!is_supported("trailing."));
    assert!(!is_supported(""));
}

#[test]
fn doc_type_follows_the_last_dot() {
    assert_eq!(named("paper.pdf").get_doc_type(), DocType::Pdf);
    assert_eq!(named("report.docx").get_doc_type(), DocType::Docx);
    assert_eq!(named("notes.txt").get_doc_type(), DocType::Txt);
    assert_eq!(named("archive.tar.txt").get_doc_type(), DocType::Txt);
    assert_eq!(named("notes.txt.bak").get_doc_type(), DocType::Unsupported);
    assert_eq!(named(".pdf").get_doc_type(), DocType::Pdf);
    assert_eq!(named("pdf").get_doc_type(), DocType::Unsupported);
    assert_eq!(named("caf\u{e9}.txt").get_doc_type(), DocType::Txt);
    assert!(named("paper.pdf").is_supported());
    assert!(!named("paper").is_supported());
}

#[test]
fn extension_is_what_follows_the_last_dot() {
    assert_eq!(named("paper.pdf").get_extension().unwrap(), "pdf");
    assert_eq!(named("archive.tar.gz").get_extension().unwrap(), "gz");
    assert_eq!(named("trailing.").get_extension().unwrap(), "");
    assert_eq!(named("\u{e9}t\u{e9}.docx").get_extension().unwrap(), "docx");
}

#[test]
fn document_from_name_has_no_chunks() {
    let doc = named("memo.txt");
    assert_eq!(doc.name, "memo.txt");
    assert_eq!(doc.path, "memo.txt");
    assert_eq!(doc.get_document_name_as_string().unwrap(), "memo.txt");
    assert_eq!(doc.get_document_path_as_string().unwrap(), "memo.txt");
    assert!(doc.get_document_data().is_none());
    assert!(doc.get_page_numbers().is_none());
}

#[test]
fn setters_replace_chunks_and_pages() {
    let mut doc = named("memo.txt");
    doc.set_document_data(strings(&["one", "two"]));
    doc.set_page_numbers(vec![1, 2]);
    assert_eq!(doc.get_document_data(), &Some(strings(&["one", "two"])));
    assert_eq!(doc.get_page_numbers(), &Some(vec![1, 2]));
    assert_eq!(doc.name, "memo.txt");
}

#[test]
fn whole_text_needs_a_supported_type_and_an_extraction() {
    assert_eq!(
        named("memo.txt").get_document_data_as_string(Some("body".to_string())).unwrap(),
        "body"
    );
    assert!(named("memo.txt").get_document_data_as_string(None).is_err());
    assert!(named("memo.bin").get_document_data_as_string(Some("body".to_string())).is_err());
}

#[test]
fn each_page_keeps_its_number() {
    let doc = named("two_pages.txt");
    let chunks = get_file_text_with_pages(&doc, Some(strings(&["AAAA", "BBBB"])), 1000).unwrap();
    assert_eq!(chunks.0, strings(&["AAAA", "BBBB"]));
    assert_eq!(chunks.1, vec![1, 2]);
}

#[test]
fn an_empty_page_contributes_nothing() {
    let doc = named("gap.pdf");
    let chunks =
        get_file_text_with_pages(&doc, Some(strings(&["AAAA", "", "CCCC"])), 1000).unwrap();
    assert_eq!(chunks.0, strings(&["AAAA", "CCCC"]));
    assert_eq!(chunks.1, vec![1, 3]);
}

#[test]
fn a_long_page_gives_several_chunks_on_one_page() {
    let doc = named("long.txt");
    let pages = strings(&["Some text\n\nfrom a\ndocument", "tail"]);
    let chunks = get_file_text_with_pages(&doc, Some(pages), 10).unwrap();
    assert_eq!(chunks.0, strings(&["Some text", "from a", "document", "tail"]));
    assert_eq!(chunks.1, vec![1, 1, 1, 2]);
}

#[test]
fn no_pages_give_a_placeholder_on_page_one() {
    let doc = named("scan.pdf");
    let failed = get_file_text_with_pages(&doc, None, 256).unwrap();
    assert_eq!(failed.0, strings(&["   "]));
    assert_eq!(failed.1, vec![1]);

    let empty = get_file_text_with_pages(&doc, Some(Vec::new()), 256).unwrap();
    assert_eq!(empty.0, strings(&["   "]));
    assert_eq!(empty.1, vec![1]);
}

#[test]
fn unsupported_documents_are_not_chunked() {
    let doc = named("picture.png");
    assert!(get_file_text_with_pages(&doc, Some(strings(&["AAAA"])), 256).is_none());
    assert!(get_file_text_with_pages(&doc, None, 256).is_none());
    assert!(get_file_text(&doc, Some(strings(&["AAAA"])), 256).is_none());
}

#[test]
fn chunks_without_pages_need_an_extraction() {
    let doc = named("memo.txt");
    assert!(get_file_text(&doc, None, 256).is_none());
    assert_eq!(
        get_file_text(&doc, Some(strings(&["Some text\n\nfrom a\ndocument", "tail"])), 10),
        Some(strings(&["Some text", "from a", "document", "tail"]))
    );
    assert_eq!(get_file_text(&doc, Some(Vec::new()), 10), Some(Vec::new()));
}

#[test]
fn split_cuts_every_chunk_size_bytes() {
    let my_string: String = String::from("Split this string!");
    let split_string: Vec<String> = split_text_into_chunks(my_string, 5).unwrap();
    assert_eq!(split_string, vec!["Split", " this", " stri", "ng!"]);
}

#[test]
fn split_of_short_and_empty_text() {
    assert_eq!(split_text_into_chunks(String::from("abc"), 3).unwrap(), vec!["abc"]);
    assert_eq!(split_text_into_chunks(String::from("abc"), 100).unwrap(), vec!["abc"]);
    assert_eq!(split_text_into_chunks(String::from("abcd"), 1).unwrap(), vec!["a", "b", "c", "d"]);
    assert!(split_text_into_chunks(String::new(), 4).unwrap().is_empty());
}

#[test]
fn split_inside_a_character_loses_it_on_both_sides() {
    let pieces = split_text_into_chunks(String::from("h\u{e9}llo"), 2).unwrap();
    assert_eq!(pieces, vec!["h\u{fffd}", "\u{fffd}l", "lo"]);
}

#[test]
fn split_on_character_boundaries_keeps_the_text() {
    let pieces = split_text_into_chunks(String::from("\u{e9}\u{e8}\u{ea}"), 2).unwrap();
    assert_eq!(pieces, vec!["\u{e9}", "\u{e8}", "\u{ea}"]);
    assert_eq!(pieces.concat(), "\u{e9}\u{e8}\u{ea}");
}
