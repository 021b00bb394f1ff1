use vstd::prelude::*;
use vstd::string::StringExecFns;

use crate::database::sql_database::row_views;
use crate::documents::document::doc_type_of;
use crate::documents::document::document_chunk_numbers;
use crate::documents::document::document_chunks;
use crate::documents::document::get_file_text;
use crate::documents::document::get_file_text_with_pages;
use crate::documents::document::lemma_document_chunks_attributed;
use crate::documents::document::page_chunks;
use crate::documents::document::semantic_chunks;
use crate::documents::document::split_semantic;
use crate::documents::document::string_views;
use crate::documents::document::DocType;
use crate::documents::document::Document;
use crate::models::model::model_for_name;
use crate::models::model::select_backend;
use crate::models::model::Backend;
use crate::npu_backend::supported_npu_model;
use crate::npu_backend::EmbeddingNpuModel;

verus! {

/// The directory, below a project's root, that holds the project's files.
pub const PROJECT_DIRECTORY: &'static str = ".ragdb";

/// The file of the project directory that describes the project.
pub const DESCRIPTOR_FILE: &'static str = "ragdb.toml";

/// The file of the project directory that holds the relational store.
pub const DATABASE_FILE: &'static str = "ragdb.db3";

/// The file of the project directory that holds the index's snapshot.
pub const INDEX_FILE: &'static str = "ragdb.index";

/// One result of a search: a chunk with the document and page it came from.
#[derive(Debug)]
pub struct Matches {
    pub document_name: String,
    pub line: String,
    pub page_number: u32,
}

/// The settings of a project. They are fixed when the project is created; a
/// reset keeps them.
#[derive(Debug, Clone)]
pub struct RagDb {
    pub path: String,
    pub model_name: String,
    pub config: Option<String>,
    pub device: String,
    pub embedding_npu_model: Option<EmbeddingNpuModel>,
    pub chunk_size: usize,
}

/// The device of a project: the one asked for, and the hardware accelerator
/// where none is.
pub open spec fn device_or_default(device: Option<String>) -> Seq<char> {
    match device {
        Some(name) => name@,
        None => "npu"@,
    }
}

/// The document, line and page of each of a list of results.
pub open spec fn match_views(matches: Seq<Matches>) -> Seq<(Seq<char>, Seq<char>, u32)> {
    Seq::new(
        matches.len(),
        |i: int| (matches[i].document_name@, matches[i].line@, matches[i].page_number),
    )
}

/// The names of `names` without repetition, each at its first place.
pub open spec fn distinct_names(names: Seq<Seq<char>>) -> Seq<Seq<char>>
    decreases names.len(),
{
    if names.len() == 0 {
        Seq::empty()
    } else {
        let front = distinct_names(names.drop_last());
        if front.contains(names.last()) {
            front
        } else {
            front.push(names.last())
        }
    }
}

/// `distinct_names` holds each name of `names` once and no other.
pub proof fn lemma_distinct_names(names: Seq<Seq<char>>)
    ensures
        distinct_names(names).no_duplicates(),
        forall|name: Seq<char>| distinct_names(names).contains(name) <==> names.contains(name),
    decreases names.len(),
{
    if names.len() > 0 {
        let front_names = names.drop_last();
        let front = distinct_names(front_names);
        let all = distinct_names(names);
        lemma_distinct_names(front_names);
        assert forall|name: Seq<char>| all.contains(name) <==> names.contains(name) by {
            if all.contains(name) {
                let k = choose|k: int| 0 <= k < all.len() && all[k] == name;
                if k < front.len() {
                    assert(front[k] == name);
                    assert(front.contains(name));
                    assert(front_names.contains(name));
                    let j = choose|j: int| 0 <= j < front_names.len() && front_names[j] == name;
                    assert(names[j] == name);
                } else {
                    assert(names[names.len() - 1] == name);
                }
            }
            if names.contains(name) {
                let j = choose|j: int| 0 <= j < names.len() && names[j] == name;
                if j < front_names.len() {
                    assert(front_names[j] == name);
                    assert(front_names.contains(name));
                    assert(front.contains(name));
                    let k = choose|k: int| 0 <= k < front.len() && front[k] == name;
                    assert(all[k] == name);
                } else if front.contains(name) {
                    let k = choose|k: int| 0 <= k < front.len() && front[k] == name;
                    assert(all[k] == name);
                } else {
                    assert(all[all.len() - 1] == name);
                }
            }
        }
    }
}

/// Whether `names` holds a string of the text of `name`.
fn holds_name(names: &Vec<String>, name: &String) -> (found: bool)
    ensures
        found == string_views(names@).contains(name@),
{
    let mut i: usize = 0;
    while i < names.len()
        invariant
            i <= names.len(),
            !string_views(names@).take(i as int).contains(name@),
        decreases names.len() - i,
    {
        if names[i] == *name {
            assert(string_views(names@)[i as int] == name@);
            return true;
        }
        proof {
            let upto = string_views(names@).take(i as int + 1);
            assert(upto.drop_last() == string_views(names@).take(i as int));
            if upto.contains(name@) {
                let k = choose|k: int| 0 <= k < upto.len() && upto[k] == name@;
                if k < i {
                    assert(string_views(names@).take(i as int)[k] == name@);
                }
            }
        }
        i = i + 1;
    }
    proof {
        assert(string_views(names@).take(names.len() as int) == string_views(names@));
    }
    false
}

impl RagDb {
    /// Whether the settings fit together: the project holds a hardware model
    /// exactly where its device is the hardware accelerator, and that model is
    /// the project's model and one that the hardware can run.
    pub open spec fn wf(&self) -> bool {
        &&& self.embedding_npu_model is Some <==> self.device@ == "npu"@
        &&& self.embedding_npu_model is Some ==> {
            &&& self.embedding_npu_model->Some_0.model_name@ == self.model_name@
            &&& supported_npu_model(self.model_name@)
        }
    }

    /// Whether a project for this device embeds on the hardware accelerator:
    /// it does where the device is `npu` or is not given.
    pub fn uses_npu(device: &Option<String>) -> (npu: bool)
        ensures
            npu == (device_or_default(*device) == "npu"@),
    {
        match device {
            Some(name) => {
                let npu = String::from_str("npu");
                *name == npu
            },
            None => true,
        }
    }

    /// The settings of a new project.
    ///
    /// `embedding_npu_model` holds the hardware model that was loaded for the
    /// project, which there must be exactly where `uses_npu(device)` holds.
    /// A project cannot be made without a model name.
    pub fn new(
        path: String,
        model_name: Option<String>,
        config: Option<String>,
        device: Option<String>,
        embedding_npu_model: Option<EmbeddingNpuModel>,
        chunk_size: usize,
    ) -> (project: RagDb)
        requires
            model_name is Some,
            embedding_npu_model is Some <==> device_or_default(device) == "npu"@,
            embedding_npu_model is Some ==> {
                &&& embedding_npu_model->Some_0.model_name@ == model_name->Some_0@
                &&& supported_npu_model(model_name->Some_0@)
            },
        ensures
            project.wf(),
            project.path == path,
            Some(project.model_name) == model_name,
            project.config == config,
            project.device@ == device_or_default(device),
            project.embedding_npu_model == embedding_npu_model,
            project.chunk_size == chunk_size,
    {
        let device = match device {
            Some(name) => name,
            None => String::from_str("npu"),
        };
        RagDb {
            path,
            model_name: model_name.unwrap(),
            config,
            device,
            embedding_npu_model,
            chunk_size,
        }
    }

    /// Whether the settings fit together, as `wf` says. Settings read from a
    /// descriptor are to be tested with this before they are used.
    pub fn is_well_formed(&self) -> (ok: bool)
        ensures
            ok == self.wf(),
    {
        let npu = String::from_str("npu");
        let on_npu = self.device == npu;
        match &self.embedding_npu_model {
            Some(model) => on_npu && model.model_name == self.model_name
                && EmbeddingNpuModel::is_supported_model(&self.model_name),
            None => !on_npu,
        }
    }

    /// Resets the settings after the project's files were deleted: they are
    /// made anew from themselves, with the hardware model that was loaded
    /// again, so the project is as it was when it was created.
    pub fn delete_all(&mut self, embedding_npu_model: Option<EmbeddingNpuModel>)
        requires
            old(self).wf(),
            embedding_npu_model is Some <==> old(self).embedding_npu_model is Some,
            embedding_npu_model is Some ==> embedding_npu_model->Some_0.model_name@ == old(
                self,
            ).model_name@,
        ensures
            final(self).wf(),
            final(self).path@ == old(self).path@,
            final(self).model_name@ == old(self).model_name@,
            final(self).config is Some <==> old(self).config is Some,
            final(self).config is Some ==> final(self).config->Some_0@ == old(
                self,
            ).config->Some_0@,
            final(self).device@ == old(self).device@,
            final(self).embedding_npu_model == embedding_npu_model,
            final(self).chunk_size == old(self).chunk_size,
    {
        let config = match &self.config {
            Some(text) => Some(text.clone()),
            None => None,
        };
        let project = RagDb::new(
            self.path.clone(),
            Some(self.model_name.clone()),
            config,
            Some(self.device.clone()),
            embedding_npu_model,
            self.chunk_size,
        );
        *self = project;
    }

    /// The backend that embeds for this project.
    pub fn backend(&self) -> (backend: Backend)
        ensures
            match self.embedding_npu_model {
                Some(npu) => backend matches Backend::Hardware(model) && model.model_name@
                    == npu.model_name@ && model.config_path@ == npu.config_path@,
                None => backend == Backend::Software(model_for_name(self.model_name@)),
            },
    {
        let npu = match &self.embedding_npu_model {
            Some(model) => Some(
                EmbeddingNpuModel {
                    model_name: model.model_name.clone(),
                    config_path: model.config_path.clone(),
                },
            ),
            None => None,
        };
        select_backend(self.model_name.clone(), npu)
    }

    /// Chunks a document without page numbers and stores the chunks in it.
    /// The document stays as it was where it has no chunks to give: where its
    /// type is unsupported or its extraction failed.
    pub fn get_text_from_doc(&self, doc: &mut Document, pages: Option<Vec<String>>)
        requires
            self.chunk_size > 0,
        ensures
            final(doc).name == old(doc).name,
            final(doc).path == old(doc).path,
            final(doc).page_numbers == old(doc).page_numbers,
            if doc_type_of(old(doc).name@) != DocType::Unsupported && pages is Some {
                final(doc).data is Some && string_views(final(doc).data->Some_0@) == page_chunks(
                    string_views(pages->Some_0@),
                    self.chunk_size,
                )
            } else {
                final(doc).data == old(doc).data
            },
    {
        match get_file_text(doc, pages, self.chunk_size) {
            Some(chunks) => doc.set_document_data(chunks),
            None => {},
        }
    }

    /// Chunks a document and stores the chunks and their page numbers in it.
    /// A document of unsupported type stays as it was.
    pub fn get_text_from_doc_with_pages(&self, doc: &mut Document, pages: Option<Vec<String>>)
        requires
            self.chunk_size > 0,
            pages is Some ==> pages->Some_0.len() <= u32::MAX,
        ensures
            final(doc).name == old(doc).name,
            final(doc).path == old(doc).path,
            if doc_type_of(old(doc).name@) != DocType::Unsupported {
                &&& final(doc).data is Some
                &&& final(doc).page_numbers is Some
                &&& string_views(final(doc).data->Some_0@) == document_chunks(
                    pages,
                    self.chunk_size,
                )
                &&& final(doc).page_numbers->Some_0@ == document_chunk_numbers(
                    pages,
                    self.chunk_size,
                )
            } else {
                final(doc).data == old(doc).data && final(doc).page_numbers == old(
                    doc,
                ).page_numbers
            },
            old(doc).attributed() ==> final(doc).attributed(),
    {
        proof {
            lemma_document_chunks_attributed(pages, self.chunk_size);
        }
        match get_file_text_with_pages(doc, pages, self.chunk_size) {
            Some(chunks) => {
                assert(string_views(chunks.0@).len() == chunks.0@.len());
                doc.set_document_data(chunks.0);
                doc.set_page_numbers(chunks.1);
            },
            None => {},
        }
    }

    /// Makes the document for a named blob of text: the text is chunked, and
    /// every chunk stands on page 1.
    pub fn add_document_content(&self, file_name: String, content: String) -> (doc: Document)
        requires
            self.chunk_size > 0,
        ensures
            doc.name@ == file_name@,
            doc.path@ == file_name@,
            doc.data is Some,
            doc.page_numbers is Some,
            string_views(doc.data->Some_0@) == semantic_chunks(content@, self.chunk_size),
            doc.page_numbers->Some_0@ == Seq::new(doc.data->Some_0.len() as nat, |i: int| 1u32),
            doc.attributed(),
    {
        let chunks = split_semantic(content.as_str(), self.chunk_size);
        let mut page_numbers: Vec<u32> = Vec::new();
        let mut i: usize = 0;
        while i < chunks.len()
            invariant
                i <= chunks.len(),
                page_numbers@ == Seq::new(i as nat, |k: int| 1u32),
            decreases chunks.len() - i,
        {
            page_numbers.push(1);
            i = i + 1;
            assert(page_numbers@ == Seq::new(i as nat, |k: int| 1u32));
        }
        Document {
            name: file_name.clone(),
            path: file_name,
            data: Some(chunks),
            page_numbers: Some(page_numbers),
        }
    }

    /// The documents of the project: the names that the rows of the relational
    /// store hold, each once, however many rows hold it. Where the names could
    /// not be read there is none.
    pub fn get_added_doc_paths(&self, doc_names: Option<Vec<String>>) -> (added: Vec<String>)
        ensures
            string_views(added@) == match doc_names {
                Some(names) => distinct_names(string_views(names@)),
                None => Seq::empty(),
            },
    {
        let mut added: Vec<String> = Vec::new();
        match doc_names {
            Some(names) => {
                let mut i: usize = 0;
                while i < names.len()
                    invariant
                        i <= names.len(),
                        string_views(added@) == distinct_names(
                            string_views(names@).take(i as int),
                        ),
                    decreases names.len() - i,
                {
                    proof {
                        let upto = string_views(names@).take(i as int + 1);
                        assert(upto.drop_last() == string_views(names@).take(i as int));
                        assert(upto.last() == names[i as int]@);
                    }
                    if !holds_name(&added, &names[i]) {
                        let ghost before = string_views(added@);
                        added.push(names[i].clone());
                        assert(string_views(added@) == before.push(names[i as int]@));
                    }
                    i = i + 1;
                }
                proof {
                    assert(string_views(names@).take(names.len() as int) == string_views(names@));
                }
            },
            None => {
                assert(string_views(added@) == Seq::<Seq<char>>::empty());
            },
        }
        added
    }

    /// The results of a search, given the rows found for the identifiers that
    /// the index returned: one result for each row, in the order of the rows,
    /// which is nearest first. Where the rows could not be read there is no
    /// result list.
    pub fn search(&self, rows: Option<Vec<(String, String, u32)>>) -> (results: Option<
        Vec<Matches>,
    >)
        ensures
            results is Some <==> rows is Some,
            results is Some ==> match_views(results->Some_0@) == row_views(rows->Some_0@),
    {
        match rows {
            Some(found) => {
                let mut results: Vec<Matches> = Vec::new();
                let count: usize = found.len();
                let mut i: usize = 0;
                for row in it: found
                    invariant
                        i == it.index(),
                        it.seq() == found@,
                        found@.len() == count,
                        match_views(results@) == row_views(found@.take(i as int)),
                {
                    let ghost before = match_views(results@);
                    results.push(Matches { document_name: row.0, line: row.1, page_number: row.2 });
                    assert(match_views(results@) == before.push(
                        (found[i as int].0@, found[i as int].1@, found[i as int].2),
                    ));
                    i = i + 1;
                }
                proof {
                    assert(found@.take(count as int) == found@);
                }
                Some(results)
            },
            None => None,
        }
    }
}

} // verus!
