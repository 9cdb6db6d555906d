//! Tokens: the atomic units of analysed text.

use vstd::prelude::*;

verus! {

/// An atomic unit of analysed text: a single string value.
///
/// Tokens are immutable values; two tokens are equal exactly when their
/// values are equal.
#[derive(Debug)]
pub struct Token {
    pub value: String,
}

impl View for Token {
    type V = Seq<char>;

    open spec fn view(&self) -> Seq<char> {
        self.value@
    }
}

impl Token {
    pub fn new(value: String) -> (token: Token)
        ensures
            token@ == value@,
    {
        Token { value }
    }
}

impl PartialEq for Token {
    fn eq(&self, other: &Self) -> bool {
        self.value == other.value
    }
}

impl Eq for Token {}

impl vstd::std_specs::cmp::PartialEqSpecImpl for Token {
    open spec fn obeys_eq_spec() -> bool {
        true
    }

    open spec fn eq_spec(&self, other: &Token) -> bool {
        self@ == other@
    }
}

/// A sequence of tokens, in the order they appear in the analysed text.
pub type Tokens = Vec<Token>;

/// The values of a token sequence, each as its sequence of characters.
pub open spec fn tokens_view(tokens: Seq<Token>) -> Seq<Seq<char>> {
    tokens.map_values(|t: Token| t@)
}

} // verus!
