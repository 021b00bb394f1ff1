use text_splitter::TextSplitter;
use vstd::prelude::*;
use vstd::slice::slice_subrange;
use vstd::string::StrSliceExecFns;
use vstd::string::StringExecFns;
use vstd::utf8::decode_utf8;
use vstd::utf8::encode_utf8;
use vstd::utf8::is_ascii_chars;
use vstd::utf8::is_char_boundary;
use vstd::utf8::valid_utf8;

verus! {

/// A document whose type the knowledge base cannot ingest.
#[derive(Debug, Clone, Copy)]
pub struct UnsupportedDocumentError;

/// The kinds of document the knowledge base knows.
#[derive(Debug, Clone, Copy, PartialEq, Eq, Structural)]
pub enum DocType {
    Pdf,
    Docx,
    Txt,
    Unsupported,
}

/// A source file or a named blob of text, with the chunks cut from it.
///
/// `data` holds the chunk texts and `page_numbers` the page each chunk came
/// from; both are absent until the document has been chunked.
#[derive(Debug, Clone)]
pub struct Document {
    pub name: String,
    pub path: String,
    pub data: Option<Vec<String>>,
    pub page_numbers: Option<Vec<u32>>,
}

/// Position of the last `.` in `name`, or -1 where it holds none.
pub open spec fn last_dot(name: Seq<char>) -> int
    decreases name.len(),
{
    if name.len() == 0 {
        -1
    } else if name.last() == '.' {
        name.len() - 1
    } else {
        last_dot(name.drop_last())
    }
}

/// What follows the last `.` of `name`; `None` where `name` holds no `.`.
pub open spec fn extension_of(name: Seq<char>) -> Option<Seq<char>> {
    if last_dot(name) < 0 {
        None
    } else {
        Some(name.subrange(last_dot(name) + 1, name.len() as int))
    }
}

/// The document type that an extension stands for.
pub open spec fn doc_type_of_extension(ext: Seq<char>) -> DocType {
    if ext == seq!['p', 'd', 'f'] {
        DocType::Pdf
    } else if ext == seq!['d', 'o', 'c', 'x'] {
        DocType::Docx
    } else if ext == seq!['t', 'x', 't'] {
        DocType::Txt
    } else {
        DocType::Unsupported
    }
}

/// The document type of a file name: decided by what follows its last `.`.
pub open spec fn doc_type_of(name: Seq<char>) -> DocType {
    match extension_of(name) {
        Some(ext) => doc_type_of_extension(ext),
        None => DocType::Unsupported,
    }
}

/// `last_dot` is the one position that holds a `.` with none behind it.
pub proof fn lemma_last_dot(name: Seq<char>)
    ensures
        -1 <= last_dot(name) < name.len(),
        last_dot(name) >= 0 ==> name[last_dot(name)] == '.',
        forall|j: int| last_dot(name) < j < name.len() ==> name[j] != '.',
    decreases name.len(),
{
    if name.len() > 0 && name.last() != '.' {
        let front = name.drop_last();
        lemma_last_dot(front);
        assert forall|j: int| last_dot(name) < j < name.len() implies name[j] != '.' by {
            if j < front.len() {
                assert(front[j] == name[j]);
            }
        }
    }
}

/// The position of the last `.` of `name`, if it holds one.
fn find_last_dot(name: &str) -> (found: Option<usize>)
    ensures
        match found {
            Some(i) => i as int == last_dot(name@),
            None => last_dot(name@) == -1,
        },
{
    let mut found: Option<usize> = None;
    let mut i: usize = 0;
    let n: usize = name.unicode_len();
    for c in it: name.chars()
        invariant
            i == it.index(),
            it.seq() == name@,
            n == name@.len(),
            match found {
                Some(k) => k as int == last_dot(name@.take(i as int)),
                None => last_dot(name@.take(i as int)) == -1,
            },
    {
        proof {
            let prefix = name@.take(i as int + 1);
            assert(prefix.drop_last() == name@.take(i as int));
            assert(prefix.last() == c);
        }
        if c == '.' {
            found = Some(i);
        }
        i = i + 1;
    }
    proof {
        assert(name@.take(n as int) == name@);
    }
    found
}

/// Whether two string slices hold the same text.
fn same_text(a: &str, b: &str) -> (same: bool)
    ensures
        same == (a@ == b@),
{
    let left = String::from_str(a);
    let right = String::from_str(b);
    left == right
}

/// The document type of a file name.
fn doc_type_of_name(name: &str) -> (doc_type: DocType)
    ensures
        doc_type == doc_type_of(name@),
{
    match find_last_dot(name) {
        None => DocType::Unsupported,
        Some(dot) => {
            proof {
                lemma_last_dot(name@);
                reveal_strlit("pdf");
                reveal_strlit("docx");
                reveal_strlit("txt");
                assert("pdf"@ == seq!['p', 'd', 'f']);
                assert("docx"@ == seq!['d', 'o', 'c', 'x']);
                assert("txt"@ == seq!['t', 'x', 't']);
            }
            let length = name.unicode_len();
            let extension = name.substring_char(dot + 1, length);
            if same_text(extension, "pdf") {
                DocType::Pdf
            } else if same_text(extension, "docx") {
                DocType::Docx
            } else if same_text(extension, "txt") {
                DocType::Txt
            } else {
                DocType::Unsupported
            }
        },
    }
}

/// Whether a file of this name can be ingested: its name ends in `.pdf`,
/// `.docx` or `.txt`.
pub fn is_supported(file_name: &str) -> (supported: bool)
    ensures
        supported == (doc_type_of(file_name@) != DocType::Unsupported),
{
    match doc_type_of_name(file_name) {
        DocType::Unsupported => false,
        _ => true,
    }
}

/// A document for a named blob of text that lies in no file: its path is its
/// name, and it has no chunks yet.
pub fn get_file_from_name(file_name: String) -> (doc: Option<Document>)
    ensures
        doc is Some,
        doc->Some_0.name@ == file_name@,
        doc->Some_0.path@ == file_name@,
        doc->Some_0.data is None,
        doc->Some_0.page_numbers is None,
{
    Some(Document { name: file_name.clone(), path: file_name, data: None, page_numbers: None })
}

/// `std::io::Error`, which the accessors below name in their results and never
/// produce.
#[verifier::external_type_specification]
#[verifier::external_body]
pub struct ExIoError(std::io::Error);

impl Document {
    /// Whether each chunk has its page number: `data` and `page_numbers`, where
    /// both are present, have the same length.
    pub open spec fn attributed(&self) -> bool {
        (self.data is Some && self.page_numbers is Some) ==> self.data->Some_0.len()
            == self.page_numbers->Some_0.len()
    }

    /// Whether the document is of a type that can be ingested.
    pub fn is_supported(&self) -> (supported: bool)
        ensures
            supported == (doc_type_of(self.name@) != DocType::Unsupported),
    {
        is_supported(self.name.as_str())
    }

    /// What follows the last `.` of the document's name.
    pub fn get_extension(&self) -> (extension: Result<String, std::io::Error>)
        requires
            extension_of(self.name@) is Some,
        ensures
            extension is Ok,
            Some(extension->Ok_0@) == extension_of(self.name@),
    {
        let name = self.name.as_str();
        let dot = find_last_dot(name).unwrap();
        proof {
            lemma_last_dot(name@);
        }
        let length = name.unicode_len();
        Ok(String::from_str(name.substring_char(dot + 1, length)))
    }

    /// The document's type, decided by the extension of its name. A name
    /// without an extension, or with another one, is `Unsupported`.
    pub fn get_doc_type(&self) -> (doc_type: DocType)
        ensures
            doc_type == doc_type_of(self.name@),
    {
        doc_type_of_name(self.name.as_str())
    }

    /// The document's path.
    pub fn get_document_path_as_string(&self) -> (path: Result<String, std::io::Error>)
        ensures
            path is Ok,
            path->Ok_0@ == self.path@,
    {
        Ok(self.path.clone())
    }

    /// The document's name.
    pub fn get_document_name_as_string(&self) -> (name: Result<String, std::io::Error>)
        ensures
            name is Ok,
            name->Ok_0@ == self.name@,
    {
        Ok(self.name.clone())
    }

    /// Replaces the document's chunks.
    pub fn set_document_data(&mut self, data: Vec<String>)
        ensures
            final(self).data == Some(data),
            final(self).name == old(self).name,
            final(self).path == old(self).path,
            final(self).page_numbers == old(self).page_numbers,
    {
        self.data = Some(data);
    }

    /// Replaces the page numbers of the document's chunks.
    pub fn set_page_numbers(&mut self, page_numbers: Vec<u32>)
        ensures
            final(self).page_numbers == Some(page_numbers),
            final(self).name == old(self).name,
            final(self).path == old(self).path,
            final(self).data == old(self).data,
    {
        self.page_numbers = Some(page_numbers);
    }

    /// The document's chunks, if it has been chunked.
    pub fn get_document_data(&self) -> (data: &Option<Vec<String>>)
        ensures
            *data == self.data,
    {
        &self.data
    }

    /// The page numbers of the document's chunks, if it has been chunked.
    pub fn get_page_numbers(&self) -> (page_numbers: &Option<Vec<u32>>)
        ensures
            *page_numbers == self.page_numbers,
    {
        &self.page_numbers
    }

    /// The whole text of the document, given what its extractor read: the text
    /// itself for a supported type whose extraction succeeded, and an error
    /// for an unsupported type or a failed extraction.
    pub fn get_document_data_as_string(&self, extracted: Option<String>) -> (text: Result<
        String,
        UnsupportedDocumentError,
    >)
        ensures
            text is Ok <==> (doc_type_of(self.name@) != DocType::Unsupported && extracted is Some),
            text is Ok ==> Some(text->Ok_0) == extracted,
    {
        match self.get_doc_type() {
            DocType::Unsupported => Err(UnsupportedDocumentError),
            _ => match extracted {
                Some(found) => Ok(found),
                None => Err(UnsupportedDocumentError),
            },
        }
    }
}

/// The texts of a sequence of strings, in order.
pub open spec fn string_views(strings: Seq<String>) -> Seq<Seq<char>> {
    Seq::new(strings.len(), |i: int| strings[i]@)
}

/// The chunks into which the semantic splitter cuts `text` when each chunk may
/// hold up to `chunk_size` characters, in the order of the text.
pub uninterp spec fn semantic_chunks(text: Seq<char>, chunk_size: usize) -> Seq<Seq<char>>;

/// Cuts `text` with `text_splitter::TextSplitter::new(chunk_size).chunks(text)`:
/// a character-counting splitter that trims each chunk and does not overlap
/// them. The chunks depend on the text and the chunk size alone; the contract
/// names them and says no more. A chunk size of 0 is left out, as the
/// splitter's arithmetic on its capacity is not total there.
#[verifier::external_body]
pub(crate) fn split_semantic(text: &str, chunk_size: usize) -> (chunks: Vec<String>)
    requires
        chunk_size > 0,
    ensures
        string_views(chunks@) == semantic_chunks(text@, chunk_size),
{
    let splitter = TextSplitter::new(chunk_size);
    splitter.chunks(text).map(String::from).collect()
}

/// The chunks of a paginated text: those of the first page, then those of the
/// second, and so on. A page that yields no chunk adds nothing.
pub open spec fn page_chunks(pages: Seq<Seq<char>>, chunk_size: usize) -> Seq<Seq<char>>
    decreases pages.len(),
{
    if pages.len() == 0 {
        Seq::empty()
    } else {
        page_chunks(pages.drop_last(), chunk_size) + semantic_chunks(pages.last(), chunk_size)
    }
}

/// For each chunk of `page_chunks`, the number of the page it was cut from.
/// Pages count from 1.
pub open spec fn page_chunk_numbers(pages: Seq<Seq<char>>, chunk_size: usize) -> Seq<u32>
    decreases pages.len(),
{
    if pages.len() == 0 {
        Seq::empty()
    } else {
        page_chunk_numbers(pages.drop_last(), chunk_size) + Seq::new(
            semantic_chunks(pages.last(), chunk_size).len(),
            |i: int| pages.len() as u32,
        )
    }
}

/// The text of the chunk that stands for a document without pages.
pub open spec fn placeholder_chunk() -> Seq<char> {
    seq![' ', ' ', ' ']
}

/// Chunks the pages of a text and records the page of each chunk.
fn chunk_pages(pages: &Vec<String>, chunk_size: usize) -> (out: (Vec<String>, Vec<u32>))
    requires
        chunk_size > 0,
        pages.len() <= u32::MAX,
    ensures
        string_views(out.0@) == page_chunks(string_views(pages@), chunk_size),
        out.1@ == page_chunk_numbers(string_views(pages@), chunk_size),
{
    let mut texts: Vec<String> = Vec::new();
    let mut numbers: Vec<u32> = Vec::new();
    let ghost views = string_views(pages@);
    let mut p: usize = 0;
    while p < pages.len()
        invariant
            p <= pages.len(),
            pages.len() <= u32::MAX,
            chunk_size > 0,
            views == string_views(pages@),
            string_views(texts@) == page_chunks(views.take(p as int), chunk_size),
            numbers@ == page_chunk_numbers(views.take(p as int), chunk_size),
        decreases pages.len() - p,
    {
        let mut chunks = split_semantic(pages[p].as_str(), chunk_size);
        let page_number: u32 = (p + 1) as u32;
        let ghost before = views.take(p as int);
        let ghost upto = views.take(p as int + 1);
        let ghost cut = semantic_chunks(views[p as int], chunk_size);
        let ghost old_texts = string_views(texts@);
        let ghost old_numbers = numbers@;
        proof {
            assert(upto.drop_last() == before);
            assert(upto.last() == views[p as int]);
            assert(string_views(chunks@) == cut);
        }
        let produced: usize = chunks.len();
        let mut c: usize = 0;
        while c < produced
            invariant
                c <= produced,
                produced == cut.len(),
                numbers@ == old_numbers + Seq::new(c as nat, |i: int| page_number),
            decreases produced - c,
        {
            numbers.push(page_number);
            c = c + 1;
            assert(numbers@ == old_numbers + Seq::new(c as nat, |i: int| page_number));
        }
        let ghost added = chunks@;
        texts.append(&mut chunks);
        proof {
            assert(string_views(texts@) == old_texts + string_views(added));
            assert(upto.len() as u32 == page_number);
        }
        p = p + 1;
    }
    proof {
        assert(views.take(pages.len() as int) == views);
    }
    (texts, numbers)
}

/// Chunks the pages of a text.
fn chunk_page_texts(pages: &Vec<String>, chunk_size: usize) -> (texts: Vec<String>)
    requires
        chunk_size > 0,
    ensures
        string_views(texts@) == page_chunks(string_views(pages@), chunk_size),
{
    let mut texts: Vec<String> = Vec::new();
    let ghost views = string_views(pages@);
    let mut p: usize = 0;
    while p < pages.len()
        invariant
            p <= pages.len(),
            chunk_size > 0,
            views == string_views(pages@),
            string_views(texts@) == page_chunks(views.take(p as int), chunk_size),
        decreases pages.len() - p,
    {
        let mut chunks = split_semantic(pages[p].as_str(), chunk_size);
        let ghost old_texts = string_views(texts@);
        let ghost added = chunks@;
        proof {
            assert(views.take(p as int + 1).drop_last() == views.take(p as int));
        }
        texts.append(&mut chunks);
        proof {
            assert(string_views(texts@) == old_texts + string_views(added));
        }
        p = p + 1;
    }
    proof {
        assert(views.take(pages.len() as int) == views);
    }
    texts
}

/// The chunk texts of a document, given the pages that its extractor read:
/// the chunks of the pages, or one placeholder where there is no page.
pub open spec fn document_chunks(pages: Option<Vec<String>>, chunk_size: usize) -> Seq<Seq<char>> {
    match pages {
        Some(found) if found.len() > 0 => page_chunks(string_views(found@), chunk_size),
        _ => seq![placeholder_chunk()],
    }
}

/// The page number of each chunk of `document_chunks`; the placeholder stands
/// on page 1.
pub open spec fn document_chunk_numbers(pages: Option<Vec<String>>, chunk_size: usize) -> Seq<
    u32,
> {
    match pages {
        Some(found) if found.len() > 0 => page_chunk_numbers(string_views(found@), chunk_size),
        _ => seq![1u32],
    }
}

/// Every chunk of a document has a page number, and a document always has a
/// chunk where it has no page.
pub proof fn lemma_document_chunks_attributed(pages: Option<Vec<String>>, chunk_size: usize)
    ensures
        document_chunks(pages, chunk_size).len() == document_chunk_numbers(
            pages,
            chunk_size,
        ).len(),
        (pages is None || pages->Some_0.len() == 0) ==> document_chunks(pages, chunk_size).len()
            == 1,
{
    match pages {
        Some(found) => {
            lemma_page_chunks_same_length(string_views(found@), chunk_size);
        },
        None => {},
    }
}

/// Chunks a document's text without keeping the page of each chunk.
///
/// `pages` is what the extractor for the document's type read, one string per
/// page, or `None` where it failed. The result is `None` for a document of
/// unsupported type and for a failed extraction, and else the chunks of all
/// pages in order.
pub fn get_file_text(doc: &Document, pages: Option<Vec<String>>, chunk_size: usize) -> (chunks:
    Option<Vec<String>>)
    requires
        chunk_size > 0,
    ensures
        chunks is Some <==> (doc_type_of(doc.name@) != DocType::Unsupported && pages is Some),
        chunks is Some ==> string_views(chunks->Some_0@) == page_chunks(
            string_views(pages->Some_0@),
            chunk_size,
        ),
{
    match doc.get_doc_type() {
        DocType::Unsupported => None,
        _ => match pages {
            Some(found) => Some(chunk_page_texts(&found, chunk_size)),
            None => None,
        },
    }
}

/// Chunks a document's text and records the page of each chunk.
///
/// `pages` is what the extractor for the document's type read, one string per
/// page, or `None` where it failed. The result is `None` for a document of
/// unsupported type only. A failed extraction, like an extraction without a
/// page, gives one placeholder chunk on page 1, so that the document is not
/// lost.
pub fn get_file_text_with_pages(
    doc: &Document,
    pages: Option<Vec<String>>,
    chunk_size: usize,
) -> (chunks: Option<(Vec<String>, Vec<u32>)>)
    requires
        chunk_size > 0,
        pages is Some ==> pages->Some_0.len() <= u32::MAX,
    ensures
        chunks is Some <==> doc_type_of(doc.name@) != DocType::Unsupported,
        chunks is Some ==> string_views(chunks->Some_0.0@) == document_chunks(pages, chunk_size),
        chunks is Some ==> chunks->Some_0.1@ == document_chunk_numbers(pages, chunk_size),
{
    match doc.get_doc_type() {
        DocType::Unsupported => None,
        _ => {
            match pages {
                Some(found) => {
                    if found.len() > 0 {
                        return Some(chunk_pages(&found, chunk_size));
                    }
                },
                None => {},
            }
            let mut texts: Vec<String> = Vec::new();
            let mut numbers: Vec<u32> = Vec::new();
            proof {
                reveal_strlit("   ");
                assert("   "@ == placeholder_chunk());
            }
            texts.push(String::from_str("   "));
            numbers.push(1);
            assert(string_views(texts@) == seq![placeholder_chunk()]);
            assert(numbers@ == seq![1u32]);
            Some((texts, numbers))
        },
    }
}

/// The chunks of the first `m` pages open the chunks of all pages, and so do
/// their page numbers.
proof fn lemma_page_chunks_prefix(pages: Seq<Seq<char>>, chunk_size: usize, m: int)
    requires
        0 <= m <= pages.len(),
    ensures
        page_chunks(pages.take(m), chunk_size).is_prefix_of(page_chunks(pages, chunk_size)),
        page_chunk_numbers(pages.take(m), chunk_size).is_prefix_of(
            page_chunk_numbers(pages, chunk_size),
        ),
        page_chunks(pages.take(m), chunk_size).len() == page_chunk_numbers(
            pages.take(m),
            chunk_size,
        ).len(),
    decreases pages.len() - m,
{
    if m == pages.len() {
        assert(pages.take(m) == pages);
        lemma_page_chunks_same_length(pages, chunk_size);
    } else {
        lemma_page_chunks_prefix(pages, chunk_size, m + 1);
        let next = pages.take(m + 1);
        assert(next.drop_last() == pages.take(m));
        lemma_page_chunks_same_length(pages.take(m), chunk_size);
    }
}

/// Every chunk has a page number.
pub proof fn lemma_page_chunks_same_length(pages: Seq<Seq<char>>, chunk_size: usize)
    ensures
        page_chunks(pages, chunk_size).len() == page_chunk_numbers(pages, chunk_size).len(),
    decreases pages.len(),
{
    if pages.len() > 0 {
        lemma_page_chunks_same_length(pages.drop_last(), chunk_size);
    }
}

/// Each chunk keeps the page it was cut from: in the chunks of a paginated
/// text, the chunks of page `p + 1` stand together, behind those of all
/// earlier pages and in the order in which the splitter gave them, and each
/// carries the page number `p + 1`.
pub proof fn lemma_chunks_keep_their_page(pages: Seq<Seq<char>>, chunk_size: usize, p: int)
    requires
        0 <= p < pages.len() <= u32::MAX,
    ensures
        ({
            let chunks = page_chunks(pages, chunk_size);
            let numbers = page_chunk_numbers(pages, chunk_size);
            let start = page_chunks(pages.take(p), chunk_size).len() as int;
            let cut = semantic_chunks(pages[p], chunk_size);
            &&& chunks.len() == numbers.len()
            &&& start + cut.len() <= chunks.len()
            &&& chunks.subrange(start, start + cut.len()) == cut
            &&& forall|k: int| start <= k < start + cut.len() ==> numbers[k] == p + 1
        }),
{
    let chunks = page_chunks(pages, chunk_size);
    let numbers = page_chunk_numbers(pages, chunk_size);
    let upto = pages.take(p + 1);
    let cut = semantic_chunks(pages[p], chunk_size);
    let start = page_chunks(pages.take(p), chunk_size).len() as int;
    lemma_page_chunks_prefix(pages, chunk_size, p + 1);
    lemma_page_chunks_same_length(pages, chunk_size);
    lemma_page_chunks_same_length(pages.take(p), chunk_size);
    assert(upto.drop_last() == pages.take(p));
    assert(upto.last() == pages[p]);
    let part = page_chunks(upto, chunk_size);
    let part_numbers = page_chunk_numbers(upto, chunk_size);
    assert(part.len() == start + cut.len());
    assert(chunks.subrange(start, start + cut.len()) == cut) by {
        assert forall|k: int| 0 <= k < cut.len() implies chunks[start + k] == cut[k] by {
            assert(chunks[start + k] == part[start + k]);
        }
    }
    assert forall|k: int| start <= k < start + cut.len() implies numbers[k] == p + 1 by {
        assert(numbers[k] == part_numbers[k]);
    }
}

/// The text that lossy decoding gives for bytes that are not valid UTF-8, with
/// each invalid sequence replaced by U+FFFD.
pub uninterp spec fn lossy_utf8(bytes: Seq<u8>) -> Seq<char>;

/// The text that lossy decoding gives for any bytes: the text they encode
/// where they are valid UTF-8, and else the text with replacements.
pub open spec fn decode_lossy(bytes: Seq<u8>) -> Seq<char> {
    if valid_utf8(bytes) {
        decode_utf8(bytes)
    } else {
        lossy_utf8(bytes)
    }
}

/// Decodes bytes with `String::from_utf8_lossy`. Valid UTF-8 comes back as the
/// text it encodes; of other bytes the contract only names the result.
#[verifier::external_body]
fn utf8_lossy(bytes: &[u8]) -> (text: String)
    ensures
        valid_utf8(bytes@) ==> text@ == decode_utf8(bytes@),
        !valid_utf8(bytes@) ==> text@ == lossy_utf8(bytes@),
{
    String::from_utf8_lossy(bytes).to_string()
}

/// The texts of the pieces of `bytes` when it is cut every `chunk_size`
/// bytes: each piece but the last holds `chunk_size` bytes, and each is
/// decoded on its own, so a character that lies across a cut is lost to
/// replacements on both sides.
pub open spec fn byte_chunks(bytes: Seq<u8>, chunk_size: usize) -> Seq<Seq<char>>
    decreases bytes.len(),
{
    if bytes.len() == 0 || chunk_size == 0 {
        Seq::empty()
    } else if bytes.len() <= chunk_size {
        seq![decode_lossy(bytes)]
    } else {
        seq![decode_lossy(bytes.take(chunk_size as int))] + byte_chunks(
            bytes.skip(chunk_size as int),
            chunk_size,
        )
    }
}

/// Splits a text into pieces of `chunk_size` bytes of its UTF-8 encoding, the
/// last piece holding what is left.
pub fn split_text_into_chunks(text: String, chunk_size: usize) -> (chunks: Result<
    Vec<String>,
    std::io::Error,
>)
    requires
        chunk_size > 0,
    ensures
        chunks is Ok,
        string_views(chunks->Ok_0@) == byte_chunks(encode_utf8(text@), chunk_size),
{
    let bytes = text.as_str().as_bytes();
    let length: usize = bytes.len();
    let mut pieces: Vec<String> = Vec::new();
    let mut start: usize = 0;
    proof {
        assert(bytes@.skip(0) == bytes@);
        assert(string_views(pieces@) + byte_chunks(bytes@, chunk_size) == byte_chunks(
            bytes@,
            chunk_size,
        ));
    }
    while start < length
        invariant
            start <= length,
            length == bytes@.len(),
            bytes@ == encode_utf8(text@),
            chunk_size > 0,
            string_views(pieces@) + byte_chunks(bytes@.skip(start as int), chunk_size)
                == byte_chunks(bytes@, chunk_size),
        decreases length - start,
    {
        let end: usize = if length - start <= chunk_size {
            length
        } else {
            start + chunk_size
        };
        let piece = utf8_lossy(slice_subrange(bytes, start, end));
        let ghost rest = bytes@.skip(start as int);
        let ghost done = string_views(pieces@);
        proof {
            assert(bytes@.subrange(start as int, end as int) == rest.take(end - start));
            assert(piece@ == decode_lossy(rest.take(end - start)));
            if length - start <= chunk_size {
                assert(rest.take(end - start) == rest);
                assert(bytes@.skip(end as int).len() == 0);
            } else {
                assert(rest.skip(chunk_size as int) == bytes@.skip(end as int));
            }
            assert(byte_chunks(rest, chunk_size) == seq![piece@] + byte_chunks(
                bytes@.skip(end as int),
                chunk_size,
            ));
        }
        pieces.push(piece);
        proof {
            assert(string_views(pieces@) == done + seq![piece@]);
        }
        start = end;
    }
    Ok(pieces)
}

/// Whether every cut that `byte_chunks` makes in `bytes` falls between two
/// characters.
pub open spec fn cuts_between_characters(bytes: Seq<u8>, chunk_size: usize) -> bool
    decreases bytes.len(),
{
    if chunk_size == 0 || bytes.len() <= chunk_size {
        true
    } else {
        is_char_boundary(bytes, chunk_size as int) && cuts_between_characters(
            bytes.skip(chunk_size as int),
            chunk_size,
        )
    }
}

/// Pieces that are cut between characters put the text together again.
proof fn lemma_whole_characters_keep_the_text(bytes: Seq<u8>, chunk_size: usize)
    requires
        valid_utf8(bytes),
        chunk_size > 0,
        cuts_between_characters(bytes, chunk_size),
    ensures
        byte_chunks(bytes, chunk_size).flatten() == decode_utf8(bytes),
    decreases bytes.len(),
{
    let pieces = byte_chunks(bytes, chunk_size);
    if bytes.len() == 0 {
    } else if bytes.len() <= chunk_size {
        pieces.lemma_flatten_one_element();
    } else {
        let size = chunk_size as int;
        let head = bytes.take(size);
        let rest = bytes.skip(size);
        assert(head == bytes.subrange(0, size));
        assert(rest == bytes.subrange(size, bytes.len() as int));
        vstd::utf8::valid_utf8_split(bytes, size);
        vstd::utf8::decode_utf8_split(bytes, size);
        lemma_whole_characters_keep_the_text(rest, chunk_size);
        assert(pieces.first() == decode_utf8(head));
        assert(pieces.drop_first() == byte_chunks(rest, chunk_size));
    }
}

/// Splitting loses nothing where no character is cut in two: the pieces, put
/// together, are the text.
pub proof fn theorem_split_between_characters_keeps_the_text(text: Seq<char>, chunk_size: usize)
    requires
        chunk_size > 0,
        cuts_between_characters(encode_utf8(text), chunk_size),
    ensures
        byte_chunks(encode_utf8(text), chunk_size).flatten() == text,
{
    vstd::utf8::encode_utf8_valid_utf8(text);
    vstd::utf8::encode_utf8_decode_utf8(text);
    lemma_whole_characters_keep_the_text(encode_utf8(text), chunk_size);
}

/// In bytes that are all below 128, every cut falls between two characters.
proof fn lemma_ascii_bytes_are_cut_between_characters(bytes: Seq<u8>, chunk_size: usize)
    requires
        valid_utf8(bytes),
        forall|i: int| 0 <= i < bytes.len() ==> bytes[i] < 128,
    ensures
        cuts_between_characters(bytes, chunk_size),
    decreases bytes.len(),
{
    if chunk_size > 0 && bytes.len() > chunk_size {
        let size = chunk_size as int;
        let rest = bytes.skip(size);
        vstd::utf8::is_char_boundary_iff_not_is_continuation_byte(bytes, size);
        assert(rest == bytes.subrange(size, bytes.len() as int));
        vstd::utf8::valid_utf8_split(bytes, size);
        assert forall|i: int| 0 <= i < rest.len() implies rest[i] < 128 by {
            assert(rest[i] == bytes[i + size]);
        }
        lemma_ascii_bytes_are_cut_between_characters(rest, chunk_size);
    }
}

/// Splitting an ASCII text loses nothing, whatever the chunk size.
pub proof fn theorem_split_keeps_ascii_text(text: Seq<char>, chunk_size: usize)
    requires
        chunk_size > 0,
        is_ascii_chars(text),
    ensures
        byte_chunks(encode_utf8(text), chunk_size).flatten() == text,
{
    let bytes = encode_utf8(text);
    vstd::utf8::encode_utf8_valid_utf8(text);
    vstd::utf8::is_ascii_chars_encode_utf8(text);
    assert forall|i: int| 0 <= i < bytes.len() implies bytes[i] < 128 by {
        let c = text[i];
        assert(c as u8 == bytes[i]);
        assert('\0' <= c <= '\u{7f}');
    }
    lemma_ascii_bytes_are_cut_between_characters(bytes, chunk_size);
    theorem_split_between_characters_keeps_the_text(text, chunk_size);
}

} // verus!
