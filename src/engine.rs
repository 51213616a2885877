//! The operations that every index backend offers.
use vstd::prelude::*;
use crate::lexer::lex;
use crate::model::{after_add, after_remove, doc_of, InMemoryModel, ModelView, SearchInput};
use crate::sqlite_model::{is_db_error, ModelError, SqliteModel};

verus! {

/// An index of documents that can be updated and searched.
pub trait Model {
    /// What the backend keeps true between operations.
    spec fn inv(&self) -> bool;

    /// Whether the backend is held in memory, where every operation succeeds and
    /// its effect on `model` is exact.
    spec fn in_memory(&self) -> bool;

    /// The documents and document frequencies of an in-memory backend.
    spec fn model(&self) -> ModelView;

    /// Whether `input` answers `query`.
    spec fn answers_query(&self, query: Seq<char>, input: SearchInput) -> bool;

    /// Indexes the document at `path` with the fields made of `fields`'
    /// `(name, text)` pairs, in place of any document stored there before.
    fn add_document(&mut self, path: String, last_modified: u64, fields: Vec<(String, Vec<char>)>) -> (r: Result<(), ModelError>)
        requires
            old(self).inv(),
        ensures
            final(self).inv(),
            final(self).in_memory() == old(self).in_memory(),
            old(self).in_memory() ==> r is Ok && final(self).model() == after_add(
                old(self).model(),
                path@,
                doc_of(fields@, last_modified),
            ),
            !old(self).in_memory() ==> (r == Err::<(), ModelError>(ModelError::TimeOutOfRange)) == (
            last_modified > i64::MAX),
            !old(self).in_memory() && last_modified <= i64::MAX ==> (r matches Err(e) ==> is_db_error(e));

    /// Takes the document at `path` out of the index.
    fn remove_document(&mut self, path: &String) -> (r: Result<(), ModelError>)
        requires
            old(self).inv(),
        ensures
            final(self).inv(),
            final(self).in_memory() == old(self).in_memory(),
            old(self).in_memory() ==> r is Ok && final(self).model() == after_remove(old(self).model(), path@),
            r is Err ==> r matches Err(ModelError::Storage);

    /// Everything a ranking of the documents against `query` needs.
    fn search_query(&self, query: &[char]) -> (r: Result<SearchInput, ModelError>)
        requires
            self.inv(),
        ensures
            lex(query@).len() == 0 ==> (r matches Ok(input) && input.docs@.len() == 0),
            self.in_memory() ==> r is Ok,
            r matches Ok(input) ==> self.answers_query(query@, input),
            r matches Err(e) ==> is_db_error(e);

    /// Whether the document at `path` is missing or older than `last_modified`.
    fn requires_reindexing(&mut self, path: &String, last_modified: u64) -> (r: Result<bool, ModelError>)
        requires
            old(self).inv(),
        ensures
            final(self).inv(),
            final(self).in_memory() == old(self).in_memory(),
            old(self).in_memory() ==> final(self).model() == old(self).model() && r == Ok::<bool, ModelError>(
                !old(self).model().0.contains_key(path@) || old(self).model().0[path@].1 < last_modified,
            ),
            !old(self).in_memory() ==> (r == Err::<bool, ModelError>(ModelError::TimeOutOfRange)) == (
            last_modified > i64::MAX),
            !old(self).in_memory() && last_modified <= i64::MAX ==> (r is Err ==> r matches Err(ModelError::Storage));

    /// The number of documents, and the number of terms with a stored document frequency.
    fn stats(&self) -> (r: Result<(usize, usize), ModelError>)
        requires
            self.inv(),
        ensures
            self.in_memory() ==> (r matches Ok((docs, terms)) && docs == self.model().0.len() && terms
                == self.model().1.len()),
            r matches Err(e) ==> is_db_error(e);
}

impl Model for InMemoryModel {
    open spec fn inv(&self) -> bool {
        self.wf()
    }

    open spec fn in_memory(&self) -> bool {
        true
    }

    open spec fn model(&self) -> ModelView {
        self@
    }

    open spec fn answers_query(&self, query: Seq<char>, input: SearchInput) -> bool {
        self.answers(query, input)
    }

    fn add_document(&mut self, path: String, last_modified: u64, fields: Vec<(String, Vec<char>)>) -> (r: Result<(), ModelError>) {
        InMemoryModel::add_document(self, path, last_modified, fields);
        Ok(())
    }

    fn remove_document(&mut self, path: &String) -> (r: Result<(), ModelError>) {
        InMemoryModel::remove_document(self, path);
        Ok(())
    }

    fn search_query(&self, query: &[char]) -> (r: Result<SearchInput, ModelError>) {
        Ok(self.search_input(query))
    }

    fn requires_reindexing(&mut self, path: &String, last_modified: u64) -> (r: Result<bool, ModelError>) {
        Ok(InMemoryModel::requires_reindexing(self, path, last_modified))
    }

    fn stats(&self) -> (r: Result<(usize, usize), ModelError>) {
        Ok(InMemoryModel::stats(self))
    }
}

impl Model for SqliteModel {
    open spec fn inv(&self) -> bool {
        true
    }

    open spec fn in_memory(&self) -> bool {
        false
    }

    open spec fn model(&self) -> ModelView {
        (Map::empty(), Map::empty())
    }

    open spec fn answers_query(&self, query: Seq<char>, input: SearchInput) -> bool {
        self.answers(query, input)
    }

    fn add_document(&mut self, path: String, last_modified: u64, fields: Vec<(String, Vec<char>)>) -> (r: Result<(), ModelError>) {
        SqliteModel::add_document(self, path, last_modified, fields)
    }

    fn remove_document(&mut self, path: &String) -> (r: Result<(), ModelError>) {
        SqliteModel::remove_document(self, path)
    }

    fn search_query(&self, query: &[char]) -> (r: Result<SearchInput, ModelError>) {
        self.search_input(query)
    }

    fn requires_reindexing(&mut self, path: &String, last_modified: u64) -> (r: Result<bool, ModelError>) {
        SqliteModel::requires_reindexing(self, path, last_modified)
    }

    fn stats(&self) -> (r: Result<(usize, usize), ModelError>) {
        SqliteModel::stats(self)
    }
}

} // verus!
