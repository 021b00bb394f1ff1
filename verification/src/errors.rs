use vstd::prelude::*;
use vstd::string::StringExecFns;

verus! {

/// Failure of an operation on the knowledge base as a whole.
#[derive(Debug, Clone, Copy)]
pub struct KnowledgeBaseError;

impl KnowledgeBaseError {
    /// The text shown to a user for this error.
    pub fn message(&self) -> (text: String)
        ensures
            text@ == "invalid sql transaction or connection"@,
    {
        String::from_str("invalid sql transaction or connection")
    }
}

} // verus!
