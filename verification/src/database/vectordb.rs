use vstd::prelude::*;

verus! {

/// What a handle on a stored index offers: to be made for a location, to be
/// loaded from one, and to be saved.
pub trait Utils: Sized {
    /// A handle on a new index at `path`.
    fn create(path: String) -> Self;

    /// A handle on the index stored at `path`.
    fn load(path: String) -> Self;

    /// Saves the index behind the handle.
    fn save(s: Self);
}

} // verus!
