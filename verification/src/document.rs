//! Analysed documents and retrieval results.

use vstd::prelude::*;

use crate::token::Token;

verus! {

/// A document identifier paired with the token sequence that the analysis
/// pipeline produced for it. Created once, then consumed by the index.
#[derive(Debug)]
pub struct AnalysedDocument {
    pub id: u32,
    pub tokens: Vec<Token>,
}

impl AnalysedDocument {
    pub fn new(id: u32, tokens: Vec<Token>) -> (doc: AnalysedDocument)
        ensures
            doc.id == id,
            doc.tokens == tokens,
    {
        AnalysedDocument { id, tokens }
    }
}

impl PartialEq for AnalysedDocument {
    fn eq(&self, other: &Self) -> bool {
        self.id == other.id && self.tokens == other.tokens
    }
}

impl Eq for AnalysedDocument {}

impl vstd::std_specs::cmp::PartialEqSpecImpl for AnalysedDocument {
    open spec fn obeys_eq_spec() -> bool {
        true
    }

    open spec fn eq_spec(&self, other: &AnalysedDocument) -> bool {
        &&& self.id == other.id
        &&& self.tokens@.len() == other.tokens@.len()
        &&& forall|i: int|
            #![auto]
            0 <= i < self.tokens@.len() ==> self.tokens@[i]@ == other.tokens@[i]@
    }
}

/// A retrieval result: the identifier of one matched document.
#[derive(Debug)]
pub struct DocumentResult {
    pub id: u32,
}

impl DocumentResult {
    pub fn from_id(id: u32) -> (result: DocumentResult)
        ensures
            result.id == id,
    {
        DocumentResult { id }
    }

    /// Wraps each identifier into a result record, keeping the order.
    pub fn from_ids(ids: Vec<u32>) -> (results: Vec<DocumentResult>)
        ensures
            results@.map_values(|d: DocumentResult| d.id) == ids@,
    {
        let mut results: Vec<DocumentResult> = Vec::new();
        let mut i: usize = 0;
        while i < ids.len()
            invariant
                i <= ids@.len(),
                results@.len() == i,
                forall|j: int| #![auto] 0 <= j < i ==> results@[j].id == ids@[j],
            decreases ids@.len() - i,
        {
            results.push(DocumentResult::from_id(ids[i]));
            i += 1;
        }
        proof {
            assert(results@.map_values(|d: DocumentResult| d.id) =~= ids@);
        }
        results
    }
}

impl PartialEq for DocumentResult {
    fn eq(&self, other: &Self) -> bool {
        self.id == other.id
    }
}

impl Eq for DocumentResult {}

impl vstd::std_specs::cmp::PartialEqSpecImpl for DocumentResult {
    open spec fn obeys_eq_spec() -> bool {
        true
    }

    open spec fn eq_spec(&self, other: &DocumentResult) -> bool {
        self.id == other.id
    }
}

} // verus!
