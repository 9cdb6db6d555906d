//! Boolean queries over tokens.

use vstd::prelude::*;

use crate::token::Tokens;

verus! {

/// A boolean query with `must`, `must_not` and `should` clauses.
///
/// Retrieval accumulates the documents of the `must` tokens, then removes
/// every document that a `must_not` token reaches. The `should` clause is
/// accepted as input but takes no part in membership or ordering: ranking
/// is out of scope.
pub struct Query {
    pub must: Tokens,
    pub must_not: Tokens,
    pub should: Tokens,
}

impl Query {
    pub fn new(must_tokens: Tokens, must_not_tokens: Tokens, should_tokens: Tokens) -> (query:
        Query)
        ensures
            query.must == must_tokens,
            query.must_not == must_not_tokens,
            query.should == should_tokens,
    {
        Query { must: must_tokens, must_not: must_not_tokens, should: should_tokens }
    }
}

} // verus!
