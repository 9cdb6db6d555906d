//! Token filters: post-tokenization transforms on the token stream.

use vstd::prelude::*;
use vstd::seq_lib::*;

use crate::token::{tokens_view, Token};

verus! {

/// The lowercase form of a character sequence, as Unicode lowercasing
/// produces it. The mapping depends on the characters alone; it is named
/// rather than spelled out, and nothing here fixes its value on any
/// particular input.
pub uninterp spec fn lower_of(s: Seq<char>) -> Seq<char>;

/// Relies on str::to_lowercase: the returned string is the Unicode
/// lowercase form of the input, a function of the characters alone,
/// named `lower_of`; an empty string stays empty.
#[verifier::external_body]
fn to_lowercase_string(s: &str) -> (lowered: String)
    ensures
        lowered@ == lower_of(s@),
        s@.len() == 0 ==> lowered@.len() == 0,
{
    s.to_lowercase()
}

/// The pluggable post-tokenization transforms. An analyser runs the
/// configured filters over the token stream, in chain order, after the
/// tokenizer.
#[derive(Clone, Copy, Debug)]
pub enum TokenFilter {
    /// Maps every token value to its lowercase form: a one-to-one
    /// mapping that keeps length and order, with no drops and no merges.
    Lowercase,
}

impl TokenFilter {
    /// The transform this filter denotes, on the token values.
    pub open spec fn spec_filter(self, tokens: Seq<Seq<char>>) -> Seq<Seq<char>> {
        match self {
            TokenFilter::Lowercase => tokens.map_values(|t: Seq<char>| lower_of(t)),
        }
    }

    /// Applies the filter to the token stream in place.
    pub fn filter(&self, tokens: &mut Vec<Token>)
        ensures
            tokens_view(final(tokens)@) == self.spec_filter(tokens_view(old(tokens)@)),
    {
        match self {
            TokenFilter::Lowercase => {
                let mut lowered: Vec<Token> = Vec::new();
                let mut i: usize = 0;
                while i < tokens.len()
                    invariant
                        i <= tokens@.len(),
                        tokens@ == old(tokens)@,
                        lowered@.len() == i,
                        forall|j: int|
                            #![auto]
                            0 <= j < i ==> lowered@[j]@ == lower_of(tokens@[j]@),
                    decreases tokens@.len() - i,
                {
                    let value = to_lowercase_string(tokens[i].value.as_str());
                    lowered.push(Token::new(value));
                    i += 1;
                }
                proof {
                    assert(tokens_view(lowered@) =~= tokens_view(old(tokens)@).map_values(
                        |t: Seq<char>| lower_of(t),
                    ));
                }
                *tokens = lowered;
            },
        }
    }
}

} // verus!
