//! Character filters: pre-tokenization text transforms.

use vstd::prelude::*;
use vstd::seq_lib::*;
use vstd::string::StrSliceExecFns;
use vstd::string::StringExecFns;

use crate::utils::{lemma_index_of_first_is, lemma_index_of_first_none};

verus! {

/// What the markup filter removes: every span from a `<` up to and
/// including the first `>` after it. A `<` with no later `>` starts no
/// span, so it stays, together with everything after it. This is
/// deliberately not a markup parser: nested or malformed markup may leave
/// stray characters behind, an accepted limitation.
pub open spec fn strip_tags(s: Seq<char>) -> Seq<char>
    decreases s.len(),
    via strip_tags_decreases
{
    if s.len() == 0 {
        Seq::empty()
    } else if s[0] == '<' {
        match s.index_of_first('>') {
            Some(p) => strip_tags(s.skip(p + 1)),
            None => s,
        }
    } else {
        seq![s[0]] + strip_tags(s.skip(1))
    }
}

#[via_fn]
proof fn strip_tags_decreases(s: Seq<char>) {
    if s.len() > 0 && s[0] == '<' {
        s.index_of_first_ensures('>');
    }
}

/// The pluggable pre-tokenization transforms. An analyser runs the
/// configured filters over the raw text, in chain order, before the
/// tokenizer. Each is a total function of its input: no text makes one
/// fail.
#[derive(Clone, Copy, Debug)]
pub enum CharacterFilter {
    /// Removes markup spans, as `strip_tags` describes.
    Html,
}

impl CharacterFilter {
    /// The transform this filter denotes.
    pub open spec fn spec_filter(self, text: Seq<char>) -> Seq<char> {
        match self {
            CharacterFilter::Html => strip_tags(text),
        }
    }

    /// Applies the filter to the text.
    pub fn filter(&self, input: &String) -> (filtered: String)
        ensures
            filtered@ == self.spec_filter(input@),
    {
        match self {
            CharacterFilter::Html => strip_html(input),
        }
    }
}

/// The position of the first `>` at or after `start`.
fn find_close(s: &str, start: usize) -> (position: Option<usize>)
    requires
        start <= s@.len(),
    ensures
        match position {
            Some(j) => start <= j < s@.len() && s@[j as int] == '>' && forall|q: int|
                start <= q < j ==> s@[q] != '>',
            None => forall|q: int| start <= q < s@.len() ==> s@[q] != '>',
        },
{
    let n = s.unicode_len();
    let mut j: usize = start;
    while j < n
        invariant
            start <= j <= n,
            n == s@.len(),
            forall|q: int| start <= q < j ==> s@[q] != '>',
        decreases n - j,
    {
        if s.get_char(j) == '>' {
            return Some(j);
        }
        j += 1;
    }
    None
}

/// Removes every markup span of the input, as `strip_tags` describes.
fn strip_html(input: &String) -> (out: String)
    ensures
        out@ == strip_tags(input@),
{
    let s = input.as_str();
    let n = s.unicode_len();
    let mut out = String::new();
    let mut i: usize = 0;
    proof {
        assert(s@.skip(0) =~= s@);
        assert(out@ + strip_tags(s@) =~= strip_tags(s@));
    }
    while i < n
        invariant
            i <= n,
            n == s@.len(),
            s@ == input@,
            strip_tags(input@) == out@ + strip_tags(s@.skip(i as int)),
        decreases n - i,
    {
        let ghost tail = s@.skip(i as int);
        let c = s.get_char(i);
        proof {
            assert(tail[0] == c);
        }
        if c == '<' {
            match find_close(s, i + 1) {
                Some(j) => {
                    proof {
                        assert forall|q: int| 0 <= q < j - i implies tail[q] != '>' by {
                            assert(tail[q] == s@[i + q]);
                        }
                        assert(tail[j - i] == s@[j as int]);
                        lemma_index_of_first_is(tail, '>', j - i);
                        assert(tail.skip(j - i + 1) =~= s@.skip(j as int + 1));
                        assert(strip_tags(tail) == strip_tags(s@.skip(j as int + 1)));
                    }
                    i = j + 1;
                },
                None => {
                    proof {
                        assert forall|q: int| 0 <= q < tail.len() implies tail[q] != '>' by {
                            assert(tail[q] == s@[i + q]);
                        }
                        lemma_index_of_first_none(tail, '>');
                        assert(strip_tags(tail) == tail);
                    }
                    let rest = s.substring_char(i, n);
                    out.append(rest);
                    proof {
                        assert(rest@ =~= tail);
                        assert(s@.skip(n as int) =~= Seq::<char>::empty());
                        assert(strip_tags(s@.skip(n as int)) == Seq::<char>::empty());
                        assert(out@ + strip_tags(s@.skip(n as int)) =~= out@);
                    }
                    i = n;
                },
            }
        } else {
            let ghost out0 = out@;
            let piece = s.substring_char(i, i + 1);
            out.append(piece);
            proof {
                assert(piece@ =~= seq![c]);
                assert(tail.skip(1) =~= s@.skip(i as int + 1));
                assert(strip_tags(tail) == seq![c] + strip_tags(s@.skip(i as int + 1)));
                assert(out@ + strip_tags(s@.skip(i as int + 1)) =~= out0 + strip_tags(tail));
            }
            i += 1;
        }
    }
    proof {
        assert(s@.skip(n as int) =~= Seq::<char>::empty());
        assert(strip_tags(Seq::<char>::empty()) == Seq::<char>::empty());
        assert(out@ + Seq::<char>::empty() =~= out@);
    }
    out
}

} // verus!
