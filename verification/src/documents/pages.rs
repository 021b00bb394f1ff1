//! Putting the pages of a document together from what its reader reports.

use vstd::prelude::*;
use vstd::string::StringExecFns;

use crate::documents::document::string_views;

verus! {

/// What a reader of XML reports of a document, as far as the pages depend on
/// it.
#[derive(Debug, Clone)]
pub enum XmlEvent {
    /// Character data, unescaped.
    Text(String),
    /// The end tag of the element of this name.
    End(String),
    /// A start tag or an empty-element tag: the element's name, and its
    /// attributes as names with values.
    Element(String, Vec<(String, String)>),
    /// Anything else.
    Other,
}

/// How far the pages of a word-processing document are put together: the
/// pages begun so far, of which the last is still open; the text read since
/// the last end of a paragraph; and whether a page break was seen.
pub struct PageState {
    pub pages: Seq<Seq<char>>,
    pub text: Seq<char>,
    pub broken: bool,
}

/// Whether the attributes say that a break is a page break: one of them is
/// `w:type` with the value `page`.
pub open spec fn marks_page(attributes: Seq<(String, String)>) -> bool {
    exists|i: int|
        0 <= i < attributes.len() && (#[trigger] attributes[i]).0@ == "w:type"@ && attributes[i].1@
            == "page"@
}

/// Whether an event is the end of a paragraph.
pub open spec fn ends_paragraph(event: XmlEvent) -> bool {
    event matches XmlEvent::End(name) && name@ == "w:p"@
}

/// Whether an event is a page break.
pub open spec fn breaks_page(event: XmlEvent) -> bool {
    event matches XmlEvent::Element(name, attributes) && name@ == "w:br"@ && marks_page(
        attributes@,
    )
}

/// The state before any event: one open page without text.
pub open spec fn first_page() -> PageState {
    PageState { pages: seq![Seq::empty()], text: Seq::empty(), broken: false }
}

/// The state after one more event. Character data is kept until its
/// paragraph ends, and then goes to the open page with a newline behind it; a
/// page break opens a new page.
pub open spec fn after_event(state: PageState, event: XmlEvent) -> PageState {
    if event is Text {
        PageState { text: state.text + event->Text_0@, ..state }
    } else if ends_paragraph(event) {
        PageState {
            pages: state.pages.drop_last().push(state.pages.last() + state.text + seq!['\n']),
            text: Seq::empty(),
            ..state
        }
    } else if breaks_page(event) {
        PageState { pages: state.pages.push(Seq::empty()), broken: true, ..state }
    } else {
        state
    }
}

/// The state after a sequence of events.
pub open spec fn after_events(events: Seq<XmlEvent>) -> PageState
    decreases events.len(),
{
    if events.len() == 0 {
        first_page()
    } else {
        after_event(after_events(events.drop_last()), events.last())
    }
}

/// Whether a character is white space, as Unicode defines it.
pub open spec fn is_white_space(c: char) -> bool {
    let code = c as u32;
    ||| 0x09 <= code <= 0x0d
    ||| code == 0x20
    ||| code == 0x85
    ||| code == 0xa0
    ||| code == 0x1680
    ||| 0x2000 <= code <= 0x200a
    ||| code == 0x2028
    ||| code == 0x2029
    ||| code == 0x202f
    ||| code == 0x205f
    ||| code == 0x3000
}

/// Whether a text holds nothing but white space.
pub open spec fn is_blank(text: Seq<char>) -> bool {
    forall|i: int| 0 <= i < text.len() ==> is_white_space(#[trigger] text[i])
}

/// The pages that are not blank, in order.
pub open spec fn written_pages(pages: Seq<Seq<char>>) -> Seq<Seq<char>>
    decreases pages.len(),
{
    if pages.len() == 0 {
        Seq::empty()
    } else if is_blank(pages.last()) {
        written_pages(pages.drop_last())
    } else {
        written_pages(pages.drop_last()).push(pages.last())
    }
}

/// The pages of a word-processing document whose reader reported `events`. A
/// document without a page break is one page. In a document with page breaks,
/// blank pages are left out. Text behind the last end of a paragraph belongs
/// to no page.
pub open spec fn docx_pages(events: Seq<XmlEvent>) -> Seq<Seq<char>> {
    let state = after_events(events);
    if state.broken {
        written_pages(state.pages)
    } else {
        seq![state.pages.last()]
    }
}

/// Until a page break is seen the whole text is one page, and there is always
/// an open page.
pub proof fn lemma_one_page_until_a_break(events: Seq<XmlEvent>)
    ensures
        after_events(events).pages.len() >= 1,
        !after_events(events).broken ==> after_events(events).pages.len() == 1,
    decreases events.len(),
{
    if events.len() > 0 {
        lemma_one_page_until_a_break(events.drop_last());
    }
}

/// Whether a character is white space.
fn white_space(c: char) -> (white: bool)
    ensures
        white == is_white_space(c),
{
    let code: u32 = c as u32;
    (0x09 <= code && code <= 0x0d) || code == 0x20 || code == 0x85 || code == 0xa0 || code
        == 0x1680 || (0x2000 <= code && code <= 0x200a) || code == 0x2028 || code == 0x2029 || code
        == 0x202f || code == 0x205f || code == 0x3000
}

/// Whether a text holds nothing but white space.
fn blank(text: &str) -> (all_white: bool)
    ensures
        all_white == is_blank(text@),
{
    let mut i: usize = 0;
    let length: usize = text.unicode_len();
    for c in it: text.chars()
        invariant
            i == it.index(),
            it.seq() == text@,
            length == text@.len(),
            is_blank(text@.take(i as int)),
    {
        if !white_space(c) {
            assert(!is_white_space(text@[i as int]));
            return false;
        }
        proof {
            let upto = text@.take(i as int + 1);
            assert forall|k: int| 0 <= k < upto.len() implies is_white_space(
                #[trigger] upto[k],
            ) by {
                if k < i {
                    assert(text@.take(i as int)[k] == upto[k]);
                }
            }
        }
        i = i + 1;
    }
    proof {
        assert(text@.take(length as int) == text@);
    }
    true
}

/// Whether two strings hold the same text.
fn is_text(text: &String, literal: &str) -> (same: bool)
    ensures
        same == (text@ == literal@),
{
    let other = String::from_str(literal);
    *text == other
}

/// Whether the attributes say that a break is a page break.
fn page_marked(attributes: &Vec<(String, String)>) -> (marked: bool)
    ensures
        marked == marks_page(attributes@),
{
    let mut i: usize = 0;
    while i < attributes.len()
        invariant
            i <= attributes.len(),
            !marks_page(attributes@.take(i as int)),
        decreases attributes.len() - i,
    {
        if is_text(&attributes[i].0, "w:type") && is_text(&attributes[i].1, "page") {
            return true;
        }
        proof {
            let upto = attributes@.take(i as int + 1);
            if marks_page(upto) {
                let k = choose|k: int|
                    0 <= k < upto.len() && (#[trigger] upto[k]).0@ == "w:type"@ && upto[k].1@
                        == "page"@;
                if k < i {
                    assert(attributes@.take(i as int)[k] == upto[k]);
                }
            }
        }
        i = i + 1;
    }
    proof {
        assert(attributes@.take(attributes.len() as int) == attributes@);
    }
    false
}

/// Puts the text of a plain text file on one page: each line, ended by a
/// newline.
pub open spec fn lines_page(lines: Seq<Seq<char>>) -> Seq<char>
    decreases lines.len(),
{
    if lines.len() == 0 {
        Seq::empty()
    } else {
        lines_page(lines.drop_last()) + lines.last() + seq!['\n']
    }
}

/// The pages of a plain text file, given its lines without their line ends:
/// one page that holds every line with a newline behind it.
pub fn get_text_from_txt_with_pages(lines: &Vec<String>) -> (pages: Option<Vec<String>>)
    ensures
        pages is Some,
        string_views(pages->Some_0@) == seq![lines_page(string_views(lines@))],
{
    let mut current_page: String = String::new();
    let mut i: usize = 0;
    proof {
        reveal_strlit("\n");
        assert("\n"@ == seq!['\n']);
    }
    while i < lines.len()
        invariant
            i <= lines.len(),
            "\n"@ == seq!['\n'],
            current_page@ == lines_page(string_views(lines@).take(i as int)),
        decreases lines.len() - i,
    {
        proof {
            let upto = string_views(lines@).take(i as int + 1);
            assert(upto.drop_last() == string_views(lines@).take(i as int));
            assert(upto.last() == lines[i as int]@);
        }
        current_page.append(lines[i].as_str());
        current_page.append("\n");
        i = i + 1;
    }
    proof {
        assert(string_views(lines@).take(lines.len() as int) == string_views(lines@));
    }
    let mut pages: Vec<String> = Vec::new();
    pages.push(current_page);
    assert(string_views(pages@) == seq![current_page@]);
    Some(pages)
}

/// The pages of a word-processing document, given what the reader of its
/// main part reported, in order.
pub fn get_text_from_docx_with_pages(events: &Vec<XmlEvent>) -> (pages: Option<Vec<String>>)
    ensures
        pages is Some,
        string_views(pages->Some_0@) == docx_pages(events@),
{
    let mut closed: Vec<String> = Vec::new();
    let mut open: String = String::new();
    let mut current_text: String = String::new();
    let mut page_breaks_found = false;
    let mut i: usize = 0;
    proof {
        reveal_strlit("\n");
        assert("\n"@ == seq!['\n']);
        assert(string_views(closed@).push(open@) == first_page().pages);
    }
    while i < events.len()
        invariant
            i <= events.len(),
            "\n"@ == seq!['\n'],
            after_events(events@.take(i as int)).pages == string_views(closed@).push(open@),
            after_events(events@.take(i as int)).text == current_text@,
            after_events(events@.take(i as int)).broken == page_breaks_found,
        decreases events.len() - i,
    {
        let ghost before = after_events(events@.take(i as int));
        proof {
            assert(events@.take(i as int + 1).drop_last() == events@.take(i as int));
            assert(events@.take(i as int + 1).last() == events[i as int]);
            assert(before.pages.last() == open@);
            assert(before.pages.drop_last() == string_views(closed@));
        }
        match &events[i] {
            XmlEvent::Text(text) => {
                current_text.append(text.as_str());
            },
            XmlEvent::End(name) => {
                if is_text(name, "w:p") {
                    open.append(current_text.as_str());
                    open.append("\n");
                    current_text = String::new();
                }
            },
            XmlEvent::Element(name, attributes) => {
                if is_text(name, "w:br") && page_marked(attributes) {
                    let ghost done = string_views(closed@);
                    closed.push(open);
                    assert(string_views(closed@) == done.push(before.pages.last()));
                    open = String::new();
                    page_breaks_found = true;
                }
            },
            XmlEvent::Other => {},
        }
        i = i + 1;
    }
    proof {
        assert(events@.take(events.len() as int) == events@);
    }
    let ghost state = after_events(events@);
    let mut pages: Vec<String> = Vec::new();
    if !page_breaks_found {
        pages.push(open);
        assert(string_views(pages@) == seq![state.pages.last()]);
        return Some(pages);
    }
    let ghost all = string_views(closed@).push(open@);
    let mut p: usize = 0;
    while p < closed.len()
        invariant
            p <= closed.len(),
            all == string_views(closed@).push(open@),
            string_views(pages@) == written_pages(all.take(p as int)),
        decreases closed.len() - p,
    {
        proof {
            assert(all.take(p as int + 1).drop_last() == all.take(p as int));
            assert(all.take(p as int + 1).last() == closed[p as int]@);
        }
        if !blank(closed[p].as_str()) {
            let ghost kept = string_views(pages@);
            pages.push(closed[p].clone());
            assert(string_views(pages@) == kept.push(closed[p as int]@));
        }
        p = p + 1;
    }
    proof {
        assert(all.drop_last() == all.take(closed.len() as int));
        assert(all.last() == open@);
    }
    if !blank(open.as_str()) {
        let ghost kept = string_views(pages@);
        pages.push(open);
        assert(string_views(pages@) == kept.push(all.last()));
    }
    Some(pages)
}

} // verus!
