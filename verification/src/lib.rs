//! Verified core of a local, file-backed knowledge base: chunking of paginated
//! text, identifier allocation for the two stores, write planning, and the
//! resolution of search results.

pub mod database;
pub mod documents;
pub mod errors;
pub mod knowledge_base;
pub mod models;
pub mod npu_backend;
