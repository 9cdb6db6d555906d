//! Small helpers on vectors of document identifiers, and facts about
//! first occurrences in sequences.

use vstd::prelude::*;
use vstd::seq_lib::*;

verus! {

/// The elements of `source` that do not occur in `to_filter`, in order.
pub open spec fn exclude(source: Seq<u32>, to_filter: Seq<u32>) -> Seq<u32>
    decreases source.len(),
{
    if source.len() == 0 {
        Seq::empty()
    } else {
        let rest = exclude(source.drop_first(), to_filter);
        if to_filter.contains(source[0]) {
            rest
        } else {
            seq![source[0]] + rest
        }
    }
}

/// Excluding nothing keeps the sequence as it is.
pub proof fn lemma_exclude_nothing(source: Seq<u32>)
    ensures
        exclude(source, Seq::<u32>::empty()) == source,
    decreases source.len(),
{
    if source.len() == 0 {
        assert(exclude(source, Seq::<u32>::empty()) =~= source);
    } else {
        lemma_exclude_nothing(source.drop_first());
        assert(!Seq::<u32>::empty().contains(source[0]));
        assert(seq![source[0]] + source.drop_first() =~= source);
    }
}

/// Whether `x` occurs in `v`.
pub fn contains_id(v: &Vec<u32>, x: u32) -> (present: bool)
    ensures
        present == v@.contains(x),
{
    let mut i: usize = 0;
    while i < v.len()
        invariant
            i <= v@.len(),
            forall|j: int| 0 <= j < i ==> v@[j] != x,
        decreases v@.len() - i,
    {
        if v[i] == x {
            return true;
        }
        i += 1;
    }
    false
}

/// Removes the values of the `to_filter` vector from the `source` vector,
/// keeping the order of `source`.
pub fn filter_vector(source: Vec<u32>, to_filter: Vec<u32>) -> (filtered: Vec<u32>)
    ensures
        filtered@ == exclude(source@, to_filter@),
{
    let mut filtered: Vec<u32> = Vec::new();
    let mut i: usize = 0;
    proof {
        assert(source@.skip(0) =~= source@);
        assert(filtered@ + exclude(source@, to_filter@) =~= exclude(source@, to_filter@));
    }
    while i < source.len()
        invariant
            i <= source@.len(),
            exclude(source@, to_filter@) == filtered@ + exclude(
                source@.skip(i as int),
                to_filter@,
            ),
        decreases source@.len() - i,
    {
        let ghost tail = source@.skip(i as int);
        proof {
            assert(tail[0] == source@[i as int]);
            assert(tail.drop_first() =~= source@.skip(i as int + 1));
        }
        if !contains_id(&to_filter, source[i]) {
            filtered.push(source[i]);
            proof {
                assert(filtered@ + exclude(source@.skip(i as int + 1), to_filter@)
                    =~= filtered@.drop_last() + exclude(tail, to_filter@));
            }
        }
        i += 1;
    }
    proof {
        assert(source@.skip(source@.len() as int) =~= Seq::<u32>::empty());
        assert(filtered@ + exclude(Seq::empty(), to_filter@) =~= filtered@);
    }
    filtered
}

/// The first occurrence of `x` in `s` is at `p`, so `index_of_first`
/// returns exactly `p`.
pub proof fn lemma_index_of_first_is<A>(s: Seq<A>, x: A, p: int)
    requires
        0 <= p < s.len(),
        s[p] == x,
        forall|q: int| 0 <= q < p ==> s[q] != x,
    ensures
        s.index_of_first(x) == Some(p),
{
    s.index_of_first_ensures(x);
    assert(s.contains(x));
    match s.index_of_first(x) {
        Some(idx) => {
            if idx < p {
                assert(s[idx] != x);
            }
        },
        None => {
            assert(false);
        },
    }
}

/// `x` occurs nowhere in `s`, so `index_of_first` returns nothing.
pub proof fn lemma_index_of_first_none<A>(s: Seq<A>, x: A)
    requires
        forall|q: int| 0 <= q < s.len() ==> s[q] != x,
    ensures
        s.index_of_first(x) is None,
{
    s.index_of_first_ensures(x);
    match s.index_of_first(x) {
        Some(idx) => {
            assert(s[idx] != x);
            assert(false);
        },
        None => {},
    }
}

} // verus!
