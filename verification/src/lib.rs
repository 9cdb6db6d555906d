//! A very small, Lucene-like full-text search library.
//!
//! Raw documents pass through an analysis pipeline (character filtering,
//! tokenization, token filtering) and become analysed documents; an
//! inverted index stores them and answers boolean queries with `must` and
//! `must_not` clauses. Every operation carries a contract that pins down
//! its result over a mathematical model of the index.

pub mod analyser;
pub mod character_filters;
pub mod document;
pub mod index_document;
pub mod inverted_index;
pub mod query;
pub mod token;
pub mod token_filters;
pub mod tokenizers;
pub mod utils;

use vstd::prelude::*;

use crate::document::{AnalysedDocument, DocumentResult};
use crate::inverted_index::{
    index_tokens, retrieve_ids, IndexView, InvertedIndex, RuceneError,
};
use crate::query::Query;
use crate::token::tokens_view;

verus! {

/// The search engine: an inverted index behind a small facade. Indexing
/// and retrieval mutate and read one long-lived structure; the facade
/// adds no behaviour of its own.
pub struct Rucene {
    inverted_index: InvertedIndex,
}

impl View for Rucene {
    type V = IndexView;

    closed spec fn view(&self) -> IndexView {
        self.inverted_index@
    }
}

impl Rucene {
    pub fn new() -> (engine: Rucene)
        ensures
            engine@ == IndexView::empty(),
    {
        Rucene { inverted_index: InvertedIndex::new() }
    }

    /// Indexes the analysed document, as `index_tokens` describes.
    pub fn index(&mut self, document: AnalysedDocument) -> (outcome: Result<(), RuceneError>)
        ensures
            final(self)@ == index_tokens(old(self)@, tokens_view(document.tokens@), document.id),
            outcome is Ok,
    {
        self.inverted_index.index(document)
    }

    /// Answers the query: the ids the `must` tokens reach, minus those
    /// the `must_not` tokens reach, in accumulation order.
    pub fn search(self, query: Query) -> (outcome: Result<Vec<DocumentResult>, RuceneError>)
        ensures
            outcome matches Ok(results) && results@.map_values(|d: DocumentResult| d.id)
                == retrieve_ids(self@, tokens_view(query.must@), tokens_view(query.must_not@)),
    {
        self.inverted_index.retrieve(query)
    }
}

} // verus!
