//! The analyser: character filtering, tokenization and token filtering
//! composed into one pipeline.

use vstd::prelude::*;
use vstd::seq_lib::*;

use crate::character_filters::CharacterFilter;
use crate::document::AnalysedDocument;
use crate::index_document::IndexDocument;
use crate::token::{tokens_view, Token};
use crate::token_filters::TokenFilter;
use crate::tokenizers::Tokenizer;

verus! {

/// The character filters applied to the text, left to right, each one
/// consuming the previous one's output.
pub open spec fn apply_character_filters(filters: Seq<CharacterFilter>, text: Seq<char>) -> Seq<
    char,
>
    decreases filters.len(),
{
    if filters.len() == 0 {
        text
    } else {
        apply_character_filters(filters.drop_first(), filters[0].spec_filter(text))
    }
}

/// The token filters applied to the token values, left to right, each one
/// consuming the previous one's output.
pub open spec fn apply_token_filters(filters: Seq<TokenFilter>, tokens: Seq<Seq<char>>) -> Seq<
    Seq<char>,
>
    decreases filters.len(),
{
    if filters.len() == 0 {
        tokens
    } else {
        apply_token_filters(filters.drop_first(), filters[0].spec_filter(tokens))
    }
}

/// The token values an analyser produces for a raw body: the character
/// filters run first, then the single tokenizer, then the token filters,
/// strictly in this order and with no stage skipped.
pub open spec fn analysis(
    character_filters: Seq<CharacterFilter>,
    tokenizer: Tokenizer,
    token_filters: Seq<TokenFilter>,
    body: Seq<char>,
) -> Seq<Seq<char>> {
    apply_token_filters(
        token_filters,
        tokenizer.spec_tokenize(apply_character_filters(character_filters, body)),
    )
}

/// A stateless analysis pipeline: an ordered chain of character filters,
/// exactly one tokenizer, and an ordered chain of token filters, all
/// chosen at construction and never skipped. Analysing a well-formed text
/// cannot fail.
pub struct Analyser {
    pub character_filters: Vec<CharacterFilter>,
    pub tokenizer: Tokenizer,
    pub token_filters: Vec<TokenFilter>,
}

impl Analyser {
    pub fn new(
        character_filters: Vec<CharacterFilter>,
        tokenizer: Tokenizer,
        token_filters: Vec<TokenFilter>,
    ) -> (analyser: Analyser)
        ensures
            analyser.character_filters == character_filters,
            analyser.tokenizer == tokenizer,
            analyser.token_filters == token_filters,
    {
        Analyser { character_filters, tokenizer, token_filters }
    }

    /// The standard pipeline: strip markup, tokenize on white space and
    /// punctuation, lowercase every token.
    pub fn standard() -> (analyser: Analyser)
        ensures
            analyser.character_filters@ == seq![CharacterFilter::Html],
            analyser.tokenizer == Tokenizer::Standard,
            analyser.token_filters@ == seq![TokenFilter::Lowercase],
    {
        let analyser = Analyser::new(
            vec![CharacterFilter::Html],
            Tokenizer::Standard,
            vec![TokenFilter::Lowercase],
        );
        proof {
            assert(analyser.character_filters@ =~= seq![CharacterFilter::Html]);
            assert(analyser.token_filters@ =~= seq![TokenFilter::Lowercase]);
        }
        analyser
    }

    /// Analyses the raw document: character filtering, tokenization and
    /// token filtering, strictly in that order, producing the analysed
    /// document with the same identifier. No observable effect besides
    /// the returned value.
    pub fn analyse(&self, document: &IndexDocument) -> (analysed: AnalysedDocument)
        ensures
            analysed.id == document.id,
            tokens_view(analysed.tokens@) == analysis(
                self.character_filters@,
                self.tokenizer,
                self.token_filters@,
                document.body@,
            ),
    {
        let mut body = document.body.clone();
        self.run_character_filters(&mut body);
        let mut tokens = self.run_tokenizer(&body);
        self.run_token_filters(&mut tokens);
        AnalysedDocument::new(document.id, tokens)
    }

    fn run_character_filters(&self, input: &mut String)
        ensures
            final(input)@ == apply_character_filters(self.character_filters@, old(input)@),
    {
        let ghost original = input@;
        let n = self.character_filters.len();
        let mut i: usize = 0;
        proof {
            assert(self.character_filters@.skip(0) =~= self.character_filters@);
        }
        while i < n
            invariant
                i <= n == self.character_filters@.len(),
                apply_character_filters(self.character_filters@.skip(i as int), input@)
                    == apply_character_filters(self.character_filters@, original),
            decreases n - i,
        {
            let ghost chain = self.character_filters@.skip(i as int);
            proof {
                assert(chain[0] == self.character_filters@[i as int]);
                assert(chain.drop_first() =~= self.character_filters@.skip(i as int + 1));
            }
            let filtered = self.character_filters[i].filter(input);
            *input = filtered;
            i += 1;
        }
        proof {
            assert(self.character_filters@.skip(n as int) =~= Seq::<CharacterFilter>::empty());
        }
    }

    fn run_tokenizer(&self, input: &String) -> (tokens: Vec<Token>)
        ensures
            tokens_view(tokens@) == self.tokenizer.spec_tokenize(input@),
    {
        self.tokenizer.tokenize(input)
    }

    fn run_token_filters(&self, input: &mut Vec<Token>)
        ensures
            tokens_view(final(input)@) == apply_token_filters(
                self.token_filters@,
                tokens_view(old(input)@),
            ),
    {
        let ghost original = tokens_view(input@);
        let n = self.token_filters.len();
        let mut i: usize = 0;
        proof {
            assert(self.token_filters@.skip(0) =~= self.token_filters@);
        }
        while i < n
            invariant
                i <= n == self.token_filters@.len(),
                apply_token_filters(self.token_filters@.skip(i as int), tokens_view(input@))
                    == apply_token_filters(self.token_filters@, original),
            decreases n - i,
        {
            let ghost chain = self.token_filters@.skip(i as int);
            proof {
                assert(chain[0] == self.token_filters@[i as int]);
                assert(chain.drop_first() =~= self.token_filters@.skip(i as int + 1));
            }
            self.token_filters[i].filter(input);
            i += 1;
        }
        proof {
            assert(self.token_filters@.skip(n as int) =~= Seq::<TokenFilter>::empty());
        }
    }
}

} // verus!
