//! Tokenizers: splitting filtered text into a stream of tokens.

use vstd::prelude::*;
use vstd::seq_lib::*;
use vstd::string::StrSliceExecFns;
use vstd::string::StringExecFns;

use crate::token::{tokens_view, Token};

verus! {

/// The Unicode white-space characters.
pub open spec fn is_whitespace_char(c: char) -> bool {
    ||| c == '\u{0009}'
    ||| c == '\u{000A}'
    ||| c == '\u{000B}'
    ||| c == '\u{000C}'
    ||| c == '\u{000D}'
    ||| c == ' '
    ||| c == '\u{0085}'
    ||| c == '\u{00A0}'
    ||| c == '\u{1680}'
    ||| c == '\u{2000}'
    ||| c == '\u{2001}'
    ||| c == '\u{2002}'
    ||| c == '\u{2003}'
    ||| c == '\u{2004}'
    ||| c == '\u{2005}'
    ||| c == '\u{2006}'
    ||| c == '\u{2007}'
    ||| c == '\u{2008}'
    ||| c == '\u{2009}'
    ||| c == '\u{200A}'
    ||| c == '\u{2028}'
    ||| c == '\u{2029}'
    ||| c == '\u{202F}'
    ||| c == '\u{205F}'
    ||| c == '\u{3000}'
}

/// The delimiters of the standard tokenizer: white space, comma, period
/// and hyphen. Delimiters are dropped, never kept as tokens.
pub open spec fn is_delimiter(c: char) -> bool {
    ||| is_whitespace_char(c)
    ||| c == ','
    ||| c == '.'
    ||| c == '-'
}

/// Splits `s` at every delimiter, dropping the delimiters and every empty
/// piece between consecutive delimiters: `current` is the piece being
/// read, `acc` the finished tokens.
pub open spec fn split_chars(s: Seq<char>, current: Seq<char>, acc: Seq<Seq<char>>) -> Seq<
    Seq<char>,
>
    decreases s.len(),
{
    if s.len() == 0 {
        if current.len() > 0 {
            acc.push(current)
        } else {
            acc
        }
    } else if is_delimiter(s[0]) {
        split_chars(
            s.drop_first(),
            Seq::empty(),
            if current.len() > 0 {
                acc.push(current)
            } else {
                acc
            },
        )
    } else {
        split_chars(s.drop_first(), current.push(s[0]), acc)
    }
}

/// The token values the standard tokenizer yields for `s`: the maximal
/// delimiter-free pieces, none empty, in order of appearance.
pub open spec fn standard_tokens(s: Seq<char>) -> Seq<Seq<char>> {
    split_chars(s, Seq::empty(), Seq::empty())
}

/// The pluggable tokenizers. An analysis chain has exactly one: a design
/// invariant, unlike the filter stages, which chain freely.
#[derive(Clone, Copy, Debug, PartialEq, Eq, Structural)]
pub enum Tokenizer {
    /// Splits on white space, comma, period and hyphen, as
    /// `standard_tokens` describes.
    Standard,
}

impl Tokenizer {
    /// The token values this tokenizer yields.
    pub open spec fn spec_tokenize(self, text: Seq<char>) -> Seq<Seq<char>> {
        match self {
            Tokenizer::Standard => standard_tokens(text),
        }
    }

    /// Produces the ordered token stream of the input text.
    pub fn tokenize(&self, input: &String) -> (tokens: Vec<Token>)
        ensures
            tokens_view(tokens@) == self.spec_tokenize(input@),
    {
        match self {
            Tokenizer::Standard => standard_tokenize(input),
        }
    }
}

/// Whether `c` is a delimiter of the standard tokenizer.
fn is_delimiter_char(c: char) -> (delimiter: bool)
    ensures
        delimiter == is_delimiter(c),
{
    match c {
        '\u{0009}' | '\u{000A}' | '\u{000B}' | '\u{000C}' | '\u{000D}' | ' ' | '\u{0085}'
            | '\u{00A0}' | '\u{1680}' | '\u{2000}' | '\u{2001}' | '\u{2002}' | '\u{2003}'
            | '\u{2004}' | '\u{2005}' | '\u{2006}' | '\u{2007}' | '\u{2008}' | '\u{2009}'
            | '\u{200A}' | '\u{2028}' | '\u{2029}' | '\u{202F}' | '\u{205F}' | '\u{3000}' | ','
            | '.' | '-' => true,
        _ => false,
    }
}

/// Splits the input at delimiters, dropping delimiters and empty pieces,
/// as `standard_tokens` describes.
fn standard_tokenize(input: &String) -> (tokens: Vec<Token>)
    ensures
        tokens_view(tokens@) == standard_tokens(input@),
{
    let s = input.as_str();
    let n = s.unicode_len();
    let mut tokens: Vec<Token> = Vec::new();
    let mut start: usize = 0;
    let mut i: usize = 0;
    proof {
        assert(s@.skip(0) =~= s@);
        assert(s@.subrange(0, 0) =~= Seq::<char>::empty());
        assert(tokens_view(tokens@) =~= Seq::<Seq<char>>::empty());
    }
    while i < n
        invariant
            start <= i <= n,
            n == s@.len(),
            s@ == input@,
            split_chars(s@.skip(i as int), s@.subrange(start as int, i as int), tokens_view(
                tokens@,
            )) == standard_tokens(input@),
        decreases n - i,
    {
        let ghost tail = s@.skip(i as int);
        let ghost current = s@.subrange(start as int, i as int);
        let ghost acc0 = tokens_view(tokens@);
        proof {
            assert(tail[0] == s@[i as int]);
            assert(tail.drop_first() =~= s@.skip(i as int + 1));
        }
        let c = s.get_char(i);
        if is_delimiter_char(c) {
            if start < i {
                let piece = s.substring_char(start, i);
                tokens.push(Token::new(String::from_str(piece)));
                proof {
                    assert(tokens_view(tokens@) =~= acc0.push(current));
                }
            }
            proof {
                let acc1 = if current.len() > 0 {
                    acc0.push(current)
                } else {
                    acc0
                };
                assert(current.len() == i - start);
                assert(tokens_view(tokens@) == acc1);
                assert(split_chars(tail, current, acc0) == split_chars(
                    tail.drop_first(),
                    Seq::empty(),
                    acc1,
                ));
                assert(s@.subrange(i as int + 1, i as int + 1) =~= Seq::<char>::empty());
            }
            i += 1;
            start = i;
        } else {
            proof {
                assert(split_chars(tail, current, acc0) == split_chars(
                    tail.drop_first(),
                    current.push(s@[i as int]),
                    acc0,
                ));
                assert(s@.subrange(start as int, i as int + 1) =~= current.push(s@[i as int]));
            }
            i += 1;
        }
    }
    let ghost current = s@.subrange(start as int, n as int);
    let ghost acc0 = tokens_view(tokens@);
    proof {
        assert(s@.skip(n as int) =~= Seq::<char>::empty());
        assert(current.len() == n - start);
        if current.len() > 0 {
            assert(split_chars(Seq::empty(), current, acc0) == acc0.push(current));
        } else {
            assert(split_chars(Seq::empty(), current, acc0) == acc0);
        }
    }
    if start < n {
        let piece = s.substring_char(start, n);
        tokens.push(Token::new(String::from_str(piece)));
        proof {
            assert(tokens_view(tokens@) =~= acc0.push(current));
        }
    }
    tokens
}

} // verus!
