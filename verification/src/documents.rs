pub mod document;
pub mod document_util;
pub mod pages;
