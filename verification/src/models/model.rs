use vstd::prelude::*;
use vstd::string::StringExecFns;

use crate::documents::document::string_views;
use crate::npu_backend::EmbeddingNpuModel;

verus! {

/// A chunk of text with the embedding vector computed for it. The library
/// carries the vector and never looks inside it.
#[derive(Debug, Clone)]
pub struct EmbeddingRecord<V> {
    pub text: String,
    pub vector: V,
}

/// The embedding models that the software backend can run.
#[derive(Debug, Clone, Copy, PartialEq, Eq, Structural)]
pub enum EmbeddingModel {
    AllMiniLML6V2,
    BGESmallENV15,
    NomicEmbedTextV15,
    ParaphraseMLMpnetBaseV2,
    BGESmallZHV15,
    MultilingualE5Small,
    MultilingualE5Base,
    MultilingualE5Large,
    MxbaiEmbedLargeV1,
    MxbaiEmbedLargeV1Q,
}

/// The backend that computes a project's embeddings. It is chosen when the
/// project is created and stays the same for the project's life.
#[derive(Debug, Clone)]
pub enum Backend {
    /// The hardware-accelerated backend, one text per call.
    Hardware(EmbeddingNpuModel),
    /// The software backend, running the given model on batches of texts.
    Software(EmbeddingModel),
}

/// The number of texts that the software backend embeds in one call.
pub const EMBEDDING_BATCH_SIZE: usize = 256;

/// The length of the vectors of the hardware-accelerated backend.
pub const HARDWARE_DIMENSION: usize = 1024;

/// The length of the vectors of the software backend.
pub const SOFTWARE_DIMENSION: usize = 384;

/// The model that a name stands for. A name that is not known stands for
/// `AllMiniLML6V2`.
pub open spec fn model_for_name(name: Seq<char>) -> EmbeddingModel {
    if name == "AllMiniLML6V2"@ {
        EmbeddingModel::AllMiniLML6V2
    } else if name == "BGESmallENV15"@ {
        EmbeddingModel::BGESmallENV15
    } else if name == "NomicEmbedTextV15"@ {
        EmbeddingModel::NomicEmbedTextV15
    } else if name == "ParaphraseMLMpnetBaseV2"@ {
        EmbeddingModel::ParaphraseMLMpnetBaseV2
    } else if name == "BGESmallZHV15"@ {
        EmbeddingModel::BGESmallZHV15
    } else if name == "MultilingualE5Small"@ {
        EmbeddingModel::MultilingualE5Small
    } else if name == "MultilingualE5Base"@ {
        EmbeddingModel::MultilingualE5Base
    } else if name == "MultilingualE5Large"@ {
        EmbeddingModel::MultilingualE5Large
    } else if name == "MxbaiEmbedLargeV1"@ {
        EmbeddingModel::MxbaiEmbedLargeV1
    } else if name == "MxbaiEmbedLargeV1Q"@ {
        EmbeddingModel::MxbaiEmbedLargeV1Q
    } else {
        EmbeddingModel::AllMiniLML6V2
    }
}

/// Whether `name` is the text of `literal`.
fn is_name(name: &String, literal: &str) -> (same: bool)
    ensures
        same == (name@ == literal@),
{
    let other = String::from_str(literal);
    *name == other
}

/// The software model that a name stands for.
pub fn convert_from_string(model_name: String) -> (model: EmbeddingModel)
    ensures
        model == model_for_name(model_name@),
{
    if is_name(&model_name, "AllMiniLML6V2") {
        EmbeddingModel::AllMiniLML6V2
    } else if is_name(&model_name, "BGESmallENV15") {
        EmbeddingModel::BGESmallENV15
    } else if is_name(&model_name, "NomicEmbedTextV15") {
        EmbeddingModel::NomicEmbedTextV15
    } else if is_name(&model_name, "ParaphraseMLMpnetBaseV2") {
        EmbeddingModel::ParaphraseMLMpnetBaseV2
    } else if is_name(&model_name, "BGESmallZHV15") {
        EmbeddingModel::BGESmallZHV15
    } else if is_name(&model_name, "MultilingualE5Small") {
        EmbeddingModel::MultilingualE5Small
    } else if is_name(&model_name, "MultilingualE5Base") {
        EmbeddingModel::MultilingualE5Base
    } else if is_name(&model_name, "MultilingualE5Large") {
        EmbeddingModel::MultilingualE5Large
    } else if is_name(&model_name, "MxbaiEmbedLargeV1") {
        EmbeddingModel::MxbaiEmbedLargeV1
    } else if is_name(&model_name, "MxbaiEmbedLargeV1Q") {
        EmbeddingModel::MxbaiEmbedLargeV1Q
    } else {
        EmbeddingModel::AllMiniLML6V2
    }
}

/// The backend that embeds for a project: the hardware backend where the
/// project holds a hardware model, and else the software backend with the
/// model that the project's model name stands for.
pub fn select_backend(
    model_name: String,
    embedding_npu_model: Option<EmbeddingNpuModel>,
) -> (backend: Backend)
    ensures
        match embedding_npu_model {
            Some(npu) => backend == Backend::Hardware(npu),
            None => backend == Backend::Software(model_for_name(model_name@)),
        },
{
    match embedding_npu_model {
        Some(npu) => Backend::Hardware(npu),
        None => Backend::Software(convert_from_string(model_name)),
    }
}

/// The length of the vectors that a backend gives, which is the dimension of
/// the project's index.
pub fn embedding_dimension(backend: &Backend) -> (dimension: usize)
    ensures
        dimension == match backend {
            Backend::Hardware(_) => HARDWARE_DIMENSION,
            Backend::Software(_) => SOFTWARE_DIMENSION,
        },
{
    match backend {
        Backend::Hardware(_) => HARDWARE_DIMENSION,
        Backend::Software(_) => SOFTWARE_DIMENSION,
    }
}

/// The groups into which `items` is cut when each group takes up to
/// `batch_size` items: each group but the last holds `batch_size`, and the
/// last holds what is left.
pub open spec fn batches_of(items: Seq<Seq<char>>, batch_size: usize) -> Seq<Seq<Seq<char>>>
    decreases items.len(),
{
    if items.len() == 0 || batch_size == 0 {
        Seq::empty()
    } else if items.len() <= batch_size {
        seq![items]
    } else {
        seq![items.take(batch_size as int)] + batches_of(items.skip(batch_size as int), batch_size)
    }
}

/// The groups hold all the texts, in order and each once, and no group is
/// empty or holds more than `batch_size` texts.
pub proof fn lemma_batches_hold_the_texts(items: Seq<Seq<char>>, batch_size: usize)
    requires
        batch_size > 0,
    ensures
        batches_of(items, batch_size).flatten() == items,
        forall|k: int|
            0 <= k < batches_of(items, batch_size).len() ==> 0 < (#[trigger] batches_of(
                items,
                batch_size,
            )[k]).len() <= batch_size,
    decreases items.len(),
{
    let batches = batches_of(items, batch_size);
    if items.len() == 0 {
    } else if items.len() <= batch_size {
        batches.lemma_flatten_one_element();
    } else {
        let size = batch_size as int;
        let rest = batches_of(items.skip(size), batch_size);
        lemma_batches_hold_the_texts(items.skip(size), batch_size);
        assert(batches.first() == items.take(size));
        assert(batches.drop_first() == rest);
        assert(items.take(size) + items.skip(size) == items);
        assert forall|k: int| 0 <= k < batches.len() implies 0 < (#[trigger] batches[k]).len()
            <= batch_size by {
            if k > 0 {
                assert(batches[k] == rest[k - 1]);
            }
        }
    }
}

/// The texts of each of a sequence of groups.
pub open spec fn batch_views(batches: Seq<Vec<String>>) -> Seq<Seq<Seq<char>>> {
    Seq::new(batches.len(), |i: int| string_views(batches[i]@))
}

/// A copy of `items[start..end]`.
fn copy_range(items: &Vec<String>, start: usize, end: usize) -> (copy: Vec<String>)
    requires
        start <= end <= items.len(),
    ensures
        string_views(copy@) == string_views(items@).subrange(start as int, end as int),
{
    let mut copy: Vec<String> = Vec::new();
    let mut i: usize = start;
    while i < end
        invariant
            start <= i <= end <= items.len(),
            string_views(copy@) == string_views(items@).subrange(start as int, i as int),
        decreases end - i,
    {
        let ghost done = string_views(copy@);
        copy.push(items[i].clone());
        assert(string_views(copy@) == done.push(items[i as int]@));
        i = i + 1;
    }
    copy
}

/// Cuts the texts to embed into the groups that the software backend takes,
/// one call each, so that no call holds more than `batch_size` texts.
pub fn split_into_batches(text: &Vec<String>, batch_size: usize) -> (batches: Vec<Vec<String>>)
    requires
        batch_size > 0,
    ensures
        batch_views(batches@) == batches_of(string_views(text@), batch_size),
{
    let ghost items = string_views(text@);
    let length: usize = text.len();
    let mut batches: Vec<Vec<String>> = Vec::new();
    let mut start: usize = 0;
    proof {
        assert(items.skip(0) == items);
        assert(batch_views(batches@) + batches_of(items, batch_size) == batches_of(
            items,
            batch_size,
        ));
    }
    while start < length
        invariant
            start <= length,
            length == text.len(),
            items == string_views(text@),
            batch_size > 0,
            batch_views(batches@) + batches_of(items.skip(start as int), batch_size)
                == batches_of(items, batch_size),
        decreases length - start,
    {
        let end: usize = if length - start <= batch_size {
            length
        } else {
            start + batch_size
        };
        let batch = copy_range(text, start, end);
        let ghost rest = items.skip(start as int);
        let ghost done = batch_views(batches@);
        proof {
            assert(items.subrange(start as int, end as int) == rest.take(end - start));
            if length - start <= batch_size {
                assert(rest.take(end - start) == rest);
                assert(items.skip(end as int).len() == 0);
            } else {
                assert(rest.skip(batch_size as int) == items.skip(end as int));
            }
            assert(batches_of(rest, batch_size) == seq![string_views(batch@)] + batches_of(
                items.skip(end as int),
                batch_size,
            ));
        }
        batches.push(batch);
        proof {
            assert(batch_views(batches@) == done + seq![string_views(batch@)]);
        }
        start = end;
    }
    batches
}

/// The records that a list of texts and a list of vectors give: the `i`-th
/// text with the `i`-th vector, for each position that both lists have.
pub open spec fn paired_records<V>(texts: Seq<Seq<char>>, vectors: Seq<V>) -> Seq<(Seq<char>, V)> {
    Seq::new(
        if texts.len() <= vectors.len() {
            texts.len()
        } else {
            vectors.len()
        },
        |i: int| (texts[i], vectors[i]),
    )
}

/// The text and the vector of each of a sequence of records.
pub open spec fn record_views<V>(records: Seq<EmbeddingRecord<V>>) -> Seq<(Seq<char>, V)> {
    Seq::new(records.len(), |i: int| (records[i].text@, records[i].vector))
}

/// Joins the texts that were embedded with the vectors that came back, in
/// order. Where one list is longer, what has no partner is dropped.
pub fn pair_embeddings<V>(text: &Vec<String>, vectors: Vec<V>) -> (records: Vec<EmbeddingRecord<V>>)
    ensures
        record_views(records@) == paired_records(string_views(text@), vectors@),
{
    let mut records: Vec<EmbeddingRecord<V>> = Vec::new();
    let count: usize = vectors.len();
    let mut i: usize = 0;
    for vector in it: vectors
        invariant
            i == it.index(),
            it.seq() == vectors@,
            vectors@.len() == count,
            record_views(records@) == paired_records(
                string_views(text@),
                vectors@.take(i as int),
            ),
    {
        if i < text.len() {
            let ghost done = record_views(records@);
            records.push(EmbeddingRecord { text: text[i].clone(), vector });
            assert(record_views(records@) == done.push((text[i as int]@, vectors[i as int])));
        }
        i = i + 1;
    }
    proof {
        assert(vectors@.take(count as int) == vectors@);
    }
    records
}

} // verus!
