//! A local full-text search engine: a tokenizer, an index of documents with
//! per-field term statistics kept in memory or in SQLite, the inputs of a BM25F
//! ranking, and the decisions of the crawler and the query server.
use vstd::prelude::*;

pub mod lexer;
pub mod table;
pub mod model;
pub mod ranking;
pub mod statements;
pub mod sqlite_model;
pub mod engine;
pub mod extract;
pub mod crawl;
pub mod cli;
pub mod routes;

verus! {

} // verus!
