//! Documentation generation for Stratum source code.
//!
//! Extraction of doc comments, cross-linking, a search index, and HTML and
//! Markdown output.

pub mod ast;
pub mod extractor;
pub mod types;
pub mod project;
pub mod crosslink;
pub mod html;
pub mod index_laws;
pub mod doc_laws;
pub mod markdown;
pub mod search;
