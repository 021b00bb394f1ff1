use vstd::prelude::*;

use crate::database::vectordb::Utils;

verus! {

/// A handle on a nearest-neighbour index: where it is stored, its name and
/// its identifier.
#[derive(Debug)]
pub struct HoraSearch {
    index_path: String,
    index_name: String,
    index_id: String,
}

impl HoraSearch {
    /// The location where the index is stored.
    pub closed spec fn path(&self) -> Seq<char> {
        self.index_path@
    }

    /// The name of the index.
    pub closed spec fn name(&self) -> Seq<char> {
        self.index_name@
    }

    /// The identifier of the index.
    pub closed spec fn id(&self) -> Seq<char> {
        self.index_id@
    }

    /// The location where the index is stored.
    pub fn get_index_path(self) -> (path: String)
        ensures
            path@ == self.path(),
    {
        self.index_path
    }

    /// The name of the index.
    pub fn get_index_name(self) -> (name: String)
        ensures
            name@ == self.name(),
    {
        self.index_name
    }

    /// The identifier of the index.
    pub fn get_index_id(self) -> (id: String)
        ensures
            id@ == self.id(),
    {
        self.index_id
    }
}

impl Utils for HoraSearch {
    /// A handle on a new index at `path`, without a name or an identifier.
    fn create(path: String) -> (handle: HoraSearch)
        ensures
            handle.path() == path@,
            handle.name() == Seq::<char>::empty(),
            handle.id() == Seq::<char>::empty(),
    {
        HoraSearch { index_path: path, index_name: String::new(), index_id: String::new() }
    }

    /// A handle on the index stored at `path`, without a name or an
    /// identifier.
    fn load(path: String) -> (handle: HoraSearch)
        ensures
            handle.path() == path@,
            handle.name() == Seq::<char>::empty(),
            handle.id() == Seq::<char>::empty(),
    {
        HoraSearch { index_path: path, index_name: String::new(), index_id: String::new() }
    }

    /// Saving a handle writes nothing: the handle holds no index data.
    fn save(s: HoraSearch) {
    }
}

} // verus!
