//! Raw documents, as the surrounding service hands them in.

use vstd::prelude::*;

verus! {

/// A raw document: a caller-supplied identifier and the raw text body,
/// not yet analysed.
#[derive(Debug)]
pub struct IndexDocument {
    pub id: u32,
    pub body: String,
}

impl IndexDocument {
    pub fn new(id: u32, body: String) -> (document: IndexDocument)
        ensures
            document.id == id,
            document.body == body,
    {
        IndexDocument { id, body }
    }
}

} // verus!
