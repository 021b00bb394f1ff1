use ragdb::documents::pages::get_text_from_docx_with_pages;
use ragdb::documents::pages::get_text_from_txt_with_pages;
use ragdb::documents::pages::XmlEvent;

fn strings(items: &[&str]) -> Vec<String> {
    items.iter().map(|item| item.to_string()).collect()
}

fn text(content: &str) -> XmlEvent {
    XmlEvent::Text(content.to_string())
}

fn end(name: &str) -> XmlEvent {
    XmlEvent::End(name.to_string())
}

fn element(name: &str, attributes: &[(&str, &str)]) -> XmlEvent {
    XmlEvent::Element(
        name.to_string(),
        attributes.iter().map(|(key, value)| (key.to_string(), value.to_string())).collect(),
    )
}

fn page_break() -> XmlEvent {
    element("w:br", &[("w:type", "page")])
}

#[test]
fn lines_stand_on_one_page() {
    assert_eq!(
        get_text_from_txt_with_pages(&strings(&["first", "", "third"])),
        Some(strings(&["first\n\nthird\n"]))
    );
    assert_eq!(get_text_from_txt_with_pages(&strings(&["only"])), Some(strings(&["only\n"])));
    assert_eq!(get_text_from_txt_with_pages(&Vec::new()), Some(strings(&[""])));
}

#[test]
fn paragraphs_without_a_break_are_one_page() {
    let events = vec![
        element("w:p", &[]),
        text("Hello "),
        text("world"),
        end("w:r"),
        end("w:p"),
        element("w:p", &[]),
        text("Again"),
        end("w:p"),
        end("w:body"),
    ];
    assert_eq!(get_text_from_docx_with_pages(&events), Some(strings(&["Hello world\nAgain\n"])));
}

#[test]
fn no_event_gives_one_empty_page() {
    assert_eq!(get_text_from_docx_with_pages(&Vec::new()), Some(strings(&[""])));
    assert_eq!(get_text_from_docx_with_pages(&vec![XmlEvent::Other]), Some(strings(&[""])));
}

#[test]
fn a_page_break_opens_a_new_page() {
    let events = vec![
        text("one"),
        end("w:p"),
        page_break(),
        text("two"),
        end("w:p"),
        text("three"),
        end("w:p"),
    ];
    assert_eq!(get_text_from_docx_with_pages(&events), Some(strings(&["one\n", "two\nthree\n"])));
}

#[test]
fn text_goes_to_the_page_on_which_its_paragraph_ends() {
    let events = vec![text("before"), page_break(), text(" after"), end("w:p")];
    assert_eq!(get_text_from_docx_with_pages(&events), Some(strings(&["before after\n"])));
}

#[test]
fn text_behind_the_last_paragraph_is_left_out() {
    let events = vec![text("kept"), end("w:p"), text("lost")];
    assert_eq!(get_text_from_docx_with_pages(&events), Some(strings(&["kept\n"])));
}

#[test]
fn blank_pages_are_left_out_once_there_is_a_break() {
    let events = vec![
        page_break(),
        text("one"),
        end("w:p"),
        page_break(),
        text(" \t\u{a0}\u{3000}"),
        end("w:p"),
        page_break(),
        page_break(),
        text("two"),
        end("w:p"),
        page_break(),
    ];
    assert_eq!(get_text_from_docx_with_pages(&events), Some(strings(&["one\n", "two\n"])));

    let only_breaks = vec![page_break(), end("w:p"), page_break()];
    assert_eq!(get_text_from_docx_with_pages(&only_breaks), Some(Vec::new()));
}

#[test]
fn a_blank_text_without_a_break_stays() {
    let events = vec![text("  "), end("w:p")];
    assert_eq!(get_text_from_docx_with_pages(&events), Some(strings(&["  \n"])));
}

#[test]
fn other_breaks_and_other_elements_open_no_page() {
    let events = vec![
        text("one"),
        end("w:p"),
        element("w:br", &[]),
        element("w:br", &[("w:type", "column")]),
        element("w:br", &[("w:clear", "page")]),
        element("w:cr", &[("w:type", "page")]),
        element("w:br", &[("w:type", "Page")]),
        end("w:br"),
        text("two"),
        end("w:P"),
        end("w:p"),
    ];
    assert_eq!(get_text_from_docx_with_pages(&events), Some(strings(&["one\ntwo\n"])));
}

#[test]
fn the_page_mark_may_stand_among_other_attributes() {
    let events = vec![
        text("one"),
        end("w:p"),
        element("w:br", &[("w:clear", "all"), ("w:type", "page")]),
        text("two"),
        end("w:p"),
    ];
    assert_eq!(get_text_from_docx_with_pages(&events), Some(strings(&["one\n", "two\n"])));
}

#[test]
fn white_space_is_what_trimming_removes() {
    for code in 0..=0x10ffffu32 {
        let Some(c) = char::from_u32(code) else {
            continue;
        };
        let events = vec![text(&c.to_string()), end("w:p"), page_break()];
        let pages = get_text_from_docx_with_pages(&events).unwrap();
        assert_eq!(pages.is_empty(), c.to_string().trim().is_empty(), "U+{:04X}", code);
    }
}
