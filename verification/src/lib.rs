//! A search engine for the documents on a desk: it keeps an index of the
//! files in the watched folders, reads what changed, and answers queries in
//! a small boolean language from the index store and from the documents
//! themselves.
//!
//! Everything here computes on plain values, and what it computes is stated
//! and proved. A few things are taken on trust and marked as such: the
//! Unicode tables of the standard library, the readers of archives and of
//! XML, and the code pages. Walking folders, reading files, the database and
//! the clock belong to whoever uses the crate; they hand in what they found.

pub mod actions;
pub mod archive;
pub mod bytes;
pub mod content;
pub mod context;
pub mod coordinator;
pub mod direct;
pub mod doc;
pub mod doc_text;
pub mod docx;
pub mod encodings;
pub mod extensions;
pub mod extract;
pub mod filters;
pub mod folders;
pub mod headings;
pub mod history;
pub mod index_store;
pub mod migrations;
pub mod models;
pub mod office;
pub mod order;
pub mod pdf;
pub mod query;
pub mod query_laws;
pub mod queue;
pub mod reading_laws;
pub mod scanner;
pub mod script;
pub mod search_laws;
pub mod state;
pub mod state_laws;
pub mod structured;
pub mod text;
pub mod tree;
pub mod xml;
