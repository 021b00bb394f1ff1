use vstd::prelude::*;
use vstd::string::StringExecFns;

verus! {

/// Failure of a statement on the relational store, or of its connection.
#[derive(Debug, Clone, Copy)]
pub struct SQLError;

impl SQLError {
    /// The text shown to a user for this error.
    pub fn message(&self) -> (text: String)
        ensures
            text@ == "invalid sql transaction or connection"@,
    {
        String::from_str("invalid sql transaction or connection")
    }
}

/// The largest of `ids`, or `None` where there is none.
pub open spec fn max_id_of(ids: Seq<usize>) -> Option<usize>
    decreases ids.len(),
{
    if ids.len() == 0 {
        None
    } else {
        match max_id_of(ids.drop_last()) {
            Some(m) if m >= ids.last() => Some(m),
            _ => Some(ids.last()),
        }
    }
}

/// `max_id_of` is one of the identifiers and none is larger.
pub proof fn lemma_max_id_of(ids: Seq<usize>)
    ensures
        max_id_of(ids) is None <==> ids.len() == 0,
        max_id_of(ids) is Some ==> ids.contains(max_id_of(ids)->Some_0),
        forall|i: int| 0 <= i < ids.len() ==> ids[i] <= max_id_of(ids)->Some_0,
    decreases ids.len(),
{
    if ids.len() > 0 {
        let front = ids.drop_last();
        lemma_max_id_of(front);
        let m = max_id_of(ids)->Some_0;
        if m == ids.last() {
            assert(ids[ids.len() - 1] == m);
        } else {
            let k = choose|k: int| 0 <= k < front.len() && front[k] == m;
            assert(ids[k] == m);
        }
        assert forall|i: int| 0 <= i < ids.len() implies ids[i] <= m by {
            if i < front.len() {
                assert(front[i] == ids[i]);
            }
        }
    }
}

/// The largest identifier among those of the relational store's rows, `None`
/// for a store without rows.
pub fn get_max_id(ids: &Vec<usize>) -> (max_id: Option<usize>)
    ensures
        max_id == max_id_of(ids@),
{
    let mut max_id: Option<usize> = None;
    let mut i: usize = 0;
    while i < ids.len()
        invariant
            i <= ids.len(),
            max_id == max_id_of(ids@.take(i as int)),
        decreases ids.len() - i,
    {
        proof {
            assert(ids@.take(i as int + 1).drop_last() == ids@.take(i as int));
        }
        max_id =
        match max_id {
            Some(m) if m >= ids[i] => Some(m),
            _ => Some(ids[i]),
        };
        i = i + 1;
    }
    proof {
        assert(ids@.take(ids.len() as int) == ids@);
    }
    max_id
}

/// The identifier from which an ingestion starts counting: the largest one in
/// the relational store, or 0 for a store without rows.
pub open spec fn id_base(max_id: Option<usize>) -> nat {
    match max_id {
        Some(m) => m as nat,
        None => 0,
    }
}

/// The identifier from which an ingestion counts up: the largest one that the
/// relational store holds, or 0 where it has no rows yet.
pub fn next_id_base(max_id: Option<usize>) -> (base: usize)
    ensures
        base as nat == id_base(max_id),
{
    match max_id {
        Some(m) => m,
        None => 0,
    }
}

/// The rows as results: the document, line and page of each, in order.
pub open spec fn row_views(rows: Seq<(String, String, u32)>) -> Seq<(Seq<char>, Seq<char>, u32)> {
    Seq::new(rows.len(), |i: int| (rows[i].0@, rows[i].1@, rows[i].2))
}

/// The rows of all the lists of `found`, list after list.
pub open spec fn found_rows(found: Seq<Vec<(String, String, u32)>>) -> Seq<
    (Seq<char>, Seq<char>, u32),
>
    decreases found.len(),
{
    if found.len() == 0 {
        Seq::empty()
    } else {
        found_rows(found.drop_last()) + row_views(found.last()@)
    }
}

/// Gathers the rows found for a list of identifiers. `found` holds, for each
/// identifier in the order in which the index returned them, the rows of the
/// relational store with that identifier; the result holds all of them in
/// that order, so that the nearest comes first.
pub fn sql_search_by_id(found: Vec<Vec<(String, String, u32)>>) -> (rows: Option<
    Vec<(String, String, u32)>,
>)
    ensures
        rows is Some,
        row_views(rows->Some_0@) == found_rows(found@),
{
    let mut rows: Vec<(String, String, u32)> = Vec::new();
    let count: usize = found.len();
    let mut i: usize = 0;
    for rows_of_id in it: found
        invariant
            i == it.index(),
            it.seq() == found@,
            found@.len() == count,
            row_views(rows@) == found_rows(found@.take(i as int)),
    {
        let ghost before = row_views(rows@);
        let mut more = rows_of_id;
        proof {
            assert(found@.take(i as int + 1).drop_last() == found@.take(i as int));
        }
        rows.append(&mut more);
        assert(row_views(rows@) == before + row_views(rows_of_id@));
        i = i + 1;
    }
    proof {
        assert(found@.take(count as int) == found@);
    }
    Some(rows)
}

} // verus!
