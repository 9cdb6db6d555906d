//! The inverted index: term dictionary, postings lists, indexing and
//! boolean retrieval.

use vstd::prelude::*;
use vstd::seq_lib::*;

use crate::document::{AnalysedDocument, DocumentResult};
use crate::query::Query;
use crate::token::{tokens_view, Tokens};
use crate::utils::{
    contains_id, exclude, filter_vector, lemma_exclude_nothing, lemma_index_of_first_is,
    lemma_index_of_first_none,
};

verus! {

/// The one internal failure mode of the index: a term identifier that is
/// present in the term dictionary but has no postings entry. The paired
/// representation used here makes the condition provably unreachable, yet
/// it is still checked and reported rather than silently recovered.
#[derive(Debug, PartialEq, Eq, Structural)]
pub enum RuceneError {
    MissingPostings { term_id: usize },
}

/// The mathematical content of an inverted index.
///
/// `terms[i]` is the term whose identifier is `i`: identifiers are assigned
/// sequentially from zero and never reused. `postings[i]` lists the ids of
/// the documents containing `terms[i]`, in the order the documents were
/// indexed, with one entry per occurrence.
#[verifier::ext_equal]
pub ghost struct IndexView {
    pub terms: Seq<Seq<char>>,
    pub postings: Seq<Seq<u32>>,
}

impl IndexView {
    /// Every term has exactly one identifier, and every identifier has
    /// exactly one postings entry.
    pub open spec fn wf(self) -> bool {
        &&& self.terms.len() == self.postings.len()
        &&& forall|i: int, j: int| 0 <= i < j < self.terms.len() ==> self.terms[i] != self.terms[j]
    }

    /// The identifier of term `t`: the position of its first (under `wf`,
    /// its only) dictionary entry.
    pub open spec fn term_id(self, t: Seq<char>) -> Option<int> {
        self.terms.index_of_first(t)
    }

    pub open spec fn empty() -> IndexView {
        IndexView { terms: Seq::empty(), postings: Seq::empty() }
    }
}

/// One token of a document with id `doc_id` entering the index: a known
/// term gets `doc_id` appended to its postings list; an unseen term gets
/// the next sequential identifier together with a fresh one-entry postings
/// list, as one atomic step.
pub open spec fn index_token(v: IndexView, t: Seq<char>, doc_id: u32) -> IndexView {
    match v.term_id(t) {
        Some(i) => IndexView {
            terms: v.terms,
            postings: v.postings.update(i, v.postings[i].push(doc_id)),
        },
        None => IndexView { terms: v.terms.push(t), postings: v.postings.push(seq![doc_id]) },
    }
}

/// A whole document entering the index: its tokens are indexed in order.
pub open spec fn index_tokens(v: IndexView, toks: Seq<Seq<char>>, doc_id: u32) -> IndexView
    decreases toks.len(),
{
    if toks.len() == 0 {
        v
    } else {
        index_tokens(index_token(v, toks[0], doc_id), toks.drop_first(), doc_id)
    }
}

/// Appends to `acc` every id of `ids`, in order, that `acc` does not
/// already hold.
pub open spec fn add_unique(acc: Seq<u32>, ids: Seq<u32>) -> Seq<u32>
    decreases ids.len(),
{
    if ids.len() == 0 {
        acc
    } else {
        let acc1 = if acc.contains(ids[0]) {
            acc
        } else {
            acc.push(ids[0])
        };
        add_unique(acc1, ids.drop_first())
    }
}

/// Resolves tokens to document ids, starting from the accumulator `acc`:
/// each token in turn contributes the ids of its postings list, first
/// appearance first, without duplicates. A token absent from the term
/// dictionary stops the resolution of all remaining tokens (it does not
/// empty the accumulator): a deliberate, documented surprise of the
/// retrieval algorithm.
pub open spec fn resolve_from(v: IndexView, toks: Seq<Seq<char>>, acc: Seq<u32>) -> Seq<u32>
    decreases toks.len(),
{
    if toks.len() == 0 {
        acc
    } else {
        match v.term_id(toks[0]) {
            Some(i) => resolve_from(v, toks.drop_first(), add_unique(acc, v.postings[i])),
            None => acc,
        }
    }
}

/// The document ids that a token list reaches, deduplicated, in order of
/// first appearance.
pub open spec fn resolve(v: IndexView, toks: Seq<Seq<char>>) -> Seq<u32> {
    resolve_from(v, toks, Seq::empty())
}

/// The ids a query retrieves: every id the `must` tokens reach that no
/// `must_not` token reaches, in `must` accumulation order. Note that the
/// `must` ids are accumulated as a union, not an intersection.
pub open spec fn retrieve_ids(v: IndexView, must: Seq<Seq<char>>, must_not: Seq<Seq<char>>) -> Seq<
    u32,
> {
    exclude(resolve(v, must), resolve(v, must_not))
}

/// The term strings of the dictionary, in identifier order.
spec fn terms_seq(terms: Seq<String>) -> Seq<Seq<char>> {
    terms.map_values(|s: String| s@)
}

/// The postings lists, in identifier order.
spec fn postings_seq(postings: Seq<Vec<u32>>) -> Seq<Seq<u32>> {
    postings.map_values(|p: Vec<u32>| p@)
}

spec fn fields_view(terms: Seq<String>, postings: Seq<Vec<u32>>) -> IndexView {
    IndexView { terms: terms_seq(terms), postings: postings_seq(postings) }
}

/// An inverted index over analysed documents.
///
/// The term dictionary and the postings lists are stored as one pair of
/// vectors sharing their indices, so that the pairing invariant — one
/// postings entry for every term identifier — holds structurally.
pub struct InvertedIndex {
    terms: Vec<String>,
    postings: Vec<Vec<u32>>,
}

impl View for InvertedIndex {
    type V = IndexView;

    closed spec fn view(&self) -> IndexView {
        fields_view(self.terms@, self.postings@)
    }
}

/// The position of the first entry for `value` in the term dictionary.
fn find_term(terms: &Vec<String>, value: &String) -> (position: Option<usize>)
    ensures
        match position {
            Some(i) => terms_seq(terms@).index_of_first(value@) == Some(i as int) && i
                < terms@.len(),
            None => terms_seq(terms@).index_of_first(value@) is None,
        },
{
    let mut j: usize = 0;
    while j < terms.len()
        invariant
            j <= terms@.len(),
            forall|k: int| #![auto] 0 <= k < j ==> terms@[k]@ != value@,
        decreases terms@.len() - j,
    {
        if terms[j] == *value {
            proof {
                lemma_index_of_first_is(terms_seq(terms@), value@, j as int);
            }
            return Some(j);
        }
        j += 1;
    }
    proof {
        lemma_index_of_first_none(terms_seq(terms@), value@);
    }
    None
}

impl InvertedIndex {
    #[verifier::type_invariant]
    pub open spec fn inv(self) -> bool {
        self@.wf()
    }

    pub fn new() -> (index: InvertedIndex)
        ensures
            index@ == IndexView::empty(),
    {
        let index = InvertedIndex { terms: Vec::new(), postings: Vec::new() };
        proof {
            assert(index@ =~= IndexView::empty());
        }
        index
    }

    /// Indexes the document: every token, in order, reaches the term
    /// dictionary and the postings lists as `index_tokens` describes.
    /// Document ids need not be unique and term occurrences are not
    /// deduplicated. The operation never fails on document content; the
    /// sole error case, a term identifier without a postings entry, cannot
    /// arise from the paired representation.
    pub fn index(&mut self, document: AnalysedDocument) -> (outcome: Result<(), RuceneError>)
        ensures
            final(self)@ == index_tokens(old(self)@, tokens_view(document.tokens@), document.id),
            outcome is Ok,
    {
        proof {
            use_type_invariant(&*self);
        }
        let ghost v0 = self@;
        let ghost toks = tokens_view(document.tokens@);
        let mut work = InvertedIndex { terms: Vec::new(), postings: Vec::new() };
        core::mem::swap(self, &mut work);
        let InvertedIndex { mut terms, mut postings } = work;
        let AnalysedDocument { id: doc_id, tokens } = document;

        let n = tokens.len();
        let mut k: usize = 0;
        proof {
            assert(toks.skip(0) =~= toks);
            assert(fields_view(terms@, postings@) == v0);
        }
        while k < n
            invariant
                k <= n == tokens@.len(),
                toks == tokens_view(tokens@),
                fields_view(terms@, postings@).wf(),
                index_tokens(fields_view(terms@, postings@), toks.skip(k as int), doc_id)
                    == index_tokens(v0, toks, doc_id),
            decreases n - k,
        {
            let ghost pre = fields_view(terms@, postings@);
            let ghost t = toks[k as int];
            proof {
                assert(toks.skip(k as int)[0] == t);
                assert(toks.skip(k as int).drop_first() =~= toks.skip(k as int + 1));
            }
            match find_term(&terms, &tokens[k].value) {
                Some(i) => {
                    proof {
                        pre.terms.index_of_first_ensures(t);
                    }
                    if i < postings.len() {
                        let entry = &mut postings[i];
                        entry.push(doc_id);
                        proof {
                            assert(fields_view(terms@, postings@) =~= index_token(
                                pre,
                                t,
                                doc_id,
                            ));
                        }
                    } else {
                        // A term identifier without a postings entry: the
                        // invariant violation that must be reported, shown
                        // unreachable by `wf`.
                        return Err(RuceneError::MissingPostings { term_id: i });
                    }
                },
                None => {
                    proof {
                        pre.terms.index_of_first_ensures(t);
                    }
                    terms.push(tokens[k].value.clone());
                    let mut first_posting: Vec<u32> = Vec::new();
                    first_posting.push(doc_id);
                    postings.push(first_posting);
                    proof {
                        assert(fields_view(terms@, postings@) =~= index_token(pre, t, doc_id));
                        assert forall|q: int| 0 <= q < pre.terms.len() implies pre.terms[q]
                            != t by {
                            if pre.terms[q] == t {
                                assert(pre.terms.contains(t));
                            }
                        }
                    }
                },
            }
            proof {
                assert(index_tokens(pre, toks.skip(k as int), doc_id) == index_tokens(
                    index_token(pre, t, doc_id),
                    toks.skip(k as int + 1),
                    doc_id,
                ));
            }
            k += 1;
        }
        proof {
            assert(toks.skip(n as int) =~= Seq::<Seq<char>>::empty());
        }
        *self = InvertedIndex { terms, postings };
        Ok(())
    }

    /// Resolves the tokens to a deduplicated list of document ids, in
    /// order of first appearance; a token with no dictionary entry stops
    /// the resolution of the remaining tokens and yields what was
    /// accumulated so far.
    pub fn get_ids_from_tokens(&self, tokens: Tokens) -> (outcome: Result<Vec<u32>, RuceneError>)
        ensures
            outcome matches Ok(ids) && ids@ == resolve(self@, tokens_view(tokens@)),
    {
        proof {
            use_type_invariant(&*self);
        }
        let ghost v = self@;
        let ghost toks = tokens_view(tokens@);
        let mut doc_ids: Vec<u32> = Vec::new();
        let n = tokens.len();
        let mut m: usize = 0;
        proof {
            assert(toks.skip(0) =~= toks);
        }
        while m < n
            invariant
                m <= n == tokens@.len(),
                toks == tokens_view(tokens@),
                v == self@,
                v.wf(),
                resolve_from(v, toks.skip(m as int), doc_ids@) == resolve(v, toks),
            decreases n - m,
        {
            let ghost t = toks[m as int];
            proof {
                assert(toks.skip(m as int)[0] == t);
                assert(toks.skip(m as int).drop_first() =~= toks.skip(m as int + 1));
            }
            match find_term(&self.terms, &tokens[m].value) {
                Some(i) => {
                    proof {
                        v.terms.index_of_first_ensures(t);
                    }
                    if i < self.postings.len() {
                        let ghost acc0 = doc_ids@;
                        let ghost ids_i = v.postings[i as int];
                        let entry = &self.postings[i];
                        let mut j: usize = 0;
                        proof {
                            assert(ids_i.skip(0) =~= ids_i);
                        }
                        while j < entry.len()
                            invariant
                                j <= entry@.len(),
                                entry@ == ids_i,
                                add_unique(doc_ids@, ids_i.skip(j as int)) == add_unique(
                                    acc0,
                                    ids_i,
                                ),
                            decreases entry@.len() - j,
                        {
                            proof {
                                assert(ids_i.skip(j as int)[0] == ids_i[j as int]);
                                assert(ids_i.skip(j as int).drop_first() =~= ids_i.skip(
                                    j as int + 1,
                                ));
                            }
                            let id = entry[j];
                            if !contains_id(&doc_ids, id) {
                                doc_ids.push(id);
                            }
                            j += 1;
                        }
                        proof {
                            assert(ids_i.skip(entry@.len() as int) =~= Seq::<u32>::empty());
                            assert(resolve_from(v, toks.skip(m as int), acc0) == resolve_from(
                                v,
                                toks.skip(m as int + 1),
                                add_unique(acc0, ids_i),
                            ));
                        }
                    } else {
                        // The reported invariant violation, unreachable
                        // under `wf`.
                        return Err(RuceneError::MissingPostings { term_id: i });
                    }
                },
                None => {
                    // No document containing this term was ever indexed:
                    // resolution stops here, keeping what is accumulated.
                    return Ok(doc_ids);
                },
            }
            m += 1;
        }
        proof {
            assert(toks.skip(n as int) =~= Seq::<Seq<char>>::empty());
        }
        Ok(doc_ids)
    }

    /// Resolves the tokens as `get_ids_from_tokens` does and wraps each id
    /// into a result record.
    pub fn get_documents_from_tokens(&self, tokens: Tokens) -> (outcome: Result<
        Vec<DocumentResult>,
        RuceneError,
    >)
        ensures
            outcome matches Ok(results) && results@.map_values(|d: DocumentResult| d.id)
                == resolve(self@, tokens_view(tokens@)),
    {
        let doc_ids = match self.get_ids_from_tokens(tokens) {
            Ok(ids) => ids,
            Err(e) => {
                return Err(e);
            },
        };
        Ok(DocumentResult::from_ids(doc_ids))
    }

    /// Retrieves the documents matching the query: the ids the `must`
    /// tokens reach, minus the ids the `must_not` tokens reach, in `must`
    /// accumulation order; `should` tokens have no effect.
    pub fn retrieve(self, query: Query) -> (outcome: Result<Vec<DocumentResult>, RuceneError>)
        ensures
            outcome matches Ok(results) && results@.map_values(|d: DocumentResult| d.id)
                == retrieve_ids(
                self@,
                tokens_view(query.must@),
                tokens_view(query.must_not@),
            ),
    {
        let Query { must, must_not, should: _ } = query;
        let must_results = match self.get_ids_from_tokens(must) {
            Ok(ids) => ids,
            Err(e) => {
                return Err(e);
            },
        };
        let must_not_results = match self.get_ids_from_tokens(must_not) {
            Ok(ids) => ids,
            Err(e) => {
                return Err(e);
            },
        };
        let filtered_results = filter_vector(must_results, must_not_results);
        Ok(DocumentResult::from_ids(filtered_results))
    }

    /// The term dictionary as pairs of term and identifier, in identifier
    /// order.
    pub fn term_dictionary(&self) -> (pairs: Vec<(String, usize)>)
        ensures
            pairs@.len() == self@.terms.len(),
            forall|i: int|
                #![auto]
                0 <= i < pairs@.len() ==> pairs@[i].0@ == self@.terms[i] && pairs@[i].1 == i,
    {
        let mut pairs: Vec<(String, usize)> = Vec::new();
        let mut i: usize = 0;
        while i < self.terms.len()
            invariant
                i <= self.terms@.len(),
                pairs@.len() == i,
                forall|j: int|
                    #![auto]
                    0 <= j < i ==> pairs@[j].0@ == self@.terms[j] && pairs@[j].1 == j,
            decreases self.terms@.len() - i,
        {
            pairs.push((self.terms[i].clone(), i));
            i += 1;
        }
        pairs
    }

    /// The postings lists as pairs of term identifier and document ids, in
    /// identifier order.
    pub fn postings_list(&self) -> (pairs: Vec<(usize, Vec<u32>)>)
        ensures
            pairs@.len() == self@.postings.len(),
            forall|i: int|
                #![trigger pairs@[i]]
                0 <= i < pairs@.len() ==> pairs@[i].0 == i && pairs@[i].1@ == self@.postings[i],
    {
        let mut pairs: Vec<(usize, Vec<u32>)> = Vec::new();
        let mut i: usize = 0;
        while i < self.postings.len()
            invariant
                i <= self.postings@.len(),
                pairs@.len() == i,
                forall|j: int|
                    #![trigger pairs@[j]]
                    0 <= j < i ==> pairs@[j].0 == j && pairs@[j].1@ == self@.postings[j],
            decreases self.postings@.len() - i,
        {
            let entry = self.postings[i].clone();
            proof {
                let ghost stored = self@.postings[i as int];
                assert forall|k: int| 0 <= k < entry@.len() implies entry@[k] == stored[k] by {
                    assert(vstd::pervasive::cloned::<u32>(self.postings@[i as int]@[k], entry@[k]));
                }
                assert(entry@ =~= self@.postings[i as int]);
            }
            pairs.push((i, entry));
            proof {
                assert(pairs@[i as int].1@ == self@.postings[i as int]);
            }
            i += 1;
        }
        pairs
    }
}


// ------------------------------------------------------------------
// Laws of the index: stated over the mathematical model and proved.
// ------------------------------------------------------------------

/// `t` has a dictionary entry whose postings list holds `doc_id`.
pub open spec fn term_lists_doc(v: IndexView, t: Seq<char>, doc_id: u32) -> bool {
    match v.term_id(t) {
        Some(i) => v.postings[i].contains(doc_id),
        None => false,
    }
}

/// `v2` extends `v1`: every dictionary entry of `v1` is still in place,
/// and every postings membership of `v1` still holds.
pub open spec fn extends(v2: IndexView, v1: IndexView) -> bool {
    &&& v1.terms.len() <= v2.terms.len()
    &&& forall|k: int| 0 <= k < v1.terms.len() ==> v2.terms[k] == v1.terms[k]
    &&& v1.postings.len() <= v2.postings.len()
    &&& forall|k: int, x: u32|
        0 <= k < v1.postings.len() && #[trigger] v1.postings[k].contains(x)
            ==> #[trigger] v2.postings[k].contains(x)
}

/// What `add_unique` holds: exactly the ids of the accumulator and of the
/// appended list.
pub proof fn lemma_add_unique_contains(acc: Seq<u32>, ids: Seq<u32>, x: u32)
    ensures
        add_unique(acc, ids).contains(x) <==> (acc.contains(x) || ids.contains(x)),
    decreases ids.len(),
{
    if ids.len() == 0 {
        assert(!ids.contains(x));
    } else {
        let acc1 = if acc.contains(ids[0]) {
            acc
        } else {
            acc.push(ids[0])
        };
        lemma_add_unique_contains(acc1, ids.drop_first(), x);
        if !acc.contains(ids[0]) {
            if acc.contains(x) {
                let i = choose|i: int| 0 <= i < acc.len() && acc[i] == x;
                assert(acc1[i] == x);
            }
            if acc1.contains(x) {
                let i = choose|i: int| 0 <= i < acc1.len() && acc1[i] == x;
                if i < acc.len() {
                    assert(acc.contains(x));
                } else {
                    assert(x == ids[0]);
                }
            }
            if x == ids[0] {
                assert(acc1[acc.len() as int] == x);
            }
        }
        if ids.contains(x) {
            let i = choose|i: int| 0 <= i < ids.len() && ids[i] == x;
            if i > 0 {
                assert(ids.drop_first()[i - 1] == x);
            }
        }
        if ids.drop_first().contains(x) {
            let i = choose|i: int| 0 <= i < ids.drop_first().len() && ids.drop_first()[i] == x;
            assert(ids[i + 1] == x);
        }
        if x == ids[0] {
            assert(ids.contains(x));
        }
    }
}

/// Resolution never loses an id that the accumulator already holds.
pub proof fn lemma_resolve_from_keeps(v: IndexView, toks: Seq<Seq<char>>, acc: Seq<u32>, x: u32)
    requires
        acc.contains(x),
    ensures
        resolve_from(v, toks, acc).contains(x),
    decreases toks.len(),
{
    if toks.len() > 0 {
        match v.term_id(toks[0]) {
            Some(i) => {
                lemma_add_unique_contains(acc, v.postings[i], x);
                lemma_resolve_from_keeps(v, toks.drop_first(), add_unique(acc, v.postings[i]), x);
            },
            None => {},
        }
    }
}

/// One indexing step extends the index and keeps it well formed.
pub proof fn lemma_index_token_extends(v: IndexView, t: Seq<char>, doc_id: u32)
    requires
        v.wf(),
    ensures
        extends(index_token(v, t, doc_id), v),
        index_token(v, t, doc_id).wf(),
{
    let v1 = index_token(v, t, doc_id);
    v.terms.index_of_first_ensures(t);
    match v.term_id(t) {
        Some(i) => {
            assert forall|k: int, x: u32|
                0 <= k < v.postings.len() && #[trigger] v.postings[k].contains(x)
                    implies #[trigger] v1.postings[k].contains(x) by {
                let w = choose|w: int| 0 <= w < v.postings[k].len() && v.postings[k][w] == x;
                assert(v1.postings[k][w] == x);
            }
        },
        None => {
            assert forall|q: int| 0 <= q < v.terms.len() implies v.terms[q] != t by {
                if v.terms[q] == t {
                    assert(v.terms.contains(t));
                }
            }
            assert forall|k: int, x: u32|
                0 <= k < v.postings.len() && #[trigger] v.postings[k].contains(x)
                    implies #[trigger] v1.postings[k].contains(x) by {
                assert(v1.postings[k] == v.postings[k]);
            }
        },
    }
}

/// Extension is transitive.
pub proof fn lemma_extends_trans(v3: IndexView, v2: IndexView, v1: IndexView)
    requires
        extends(v3, v2),
        extends(v2, v1),
    ensures
        extends(v3, v1),
{
    assert forall|k: int, x: u32|
        0 <= k < v1.postings.len() && #[trigger] v1.postings[k].contains(x)
            implies #[trigger] v3.postings[k].contains(x) by {
        assert(v2.postings[k].contains(x));
    }
}

/// Indexing a whole document extends the index and keeps it well formed.
pub proof fn lemma_index_tokens_extends(v: IndexView, toks: Seq<Seq<char>>, doc_id: u32)
    requires
        v.wf(),
    ensures
        extends(index_tokens(v, toks, doc_id), v),
        index_tokens(v, toks, doc_id).wf(),
    decreases toks.len(),
{
    if toks.len() == 0 {
    } else {
        let v1 = index_token(v, toks[0], doc_id);
        lemma_index_token_extends(v, toks[0], doc_id);
        lemma_index_tokens_extends(v1, toks.drop_first(), doc_id);
        lemma_extends_trans(index_tokens(v, toks, doc_id), v1, v);
    }
}

/// A dictionary entry keeps its identifier in any extension.
pub proof fn lemma_term_id_stable(v2: IndexView, v1: IndexView, t: Seq<char>, i: int)
    requires
        extends(v2, v1),
        v1.term_id(t) == Some(i),
    ensures
        v2.term_id(t) == Some(i),
{
    v1.terms.index_of_first_ensures(t);
    lemma_index_of_first_is(v2.terms, t, i);
}

/// A document listed for a term stays listed in any extension.
pub proof fn lemma_term_lists_doc_stable(v2: IndexView, v1: IndexView, t: Seq<char>, doc_id: u32)
    requires
        extends(v2, v1),
        v1.wf(),
        term_lists_doc(v1, t, doc_id),
    ensures
        term_lists_doc(v2, t, doc_id),
{
    match v1.term_id(t) {
        Some(i) => {
            v1.terms.index_of_first_ensures(t);
            lemma_term_id_stable(v2, v1, t, i);
        },
        None => {
            assert(false);
        },
    }
}

/// After one indexing step for `t`, the dictionary lists `doc_id` under
/// the entry of `t`.
pub proof fn lemma_index_token_present(v: IndexView, t: Seq<char>, doc_id: u32)
    requires
        v.wf(),
    ensures
        term_lists_doc(index_token(v, t, doc_id), t, doc_id),
{
    let v1 = index_token(v, t, doc_id);
    v.terms.index_of_first_ensures(t);
    match v.term_id(t) {
        Some(i) => {
            assert(v1.term_id(t) == Some(i));
            assert(v1.postings[i][v.postings[i].len() as int] == doc_id);
            assert(v1.postings[i].contains(doc_id));
        },
        None => {
            assert forall|q: int| 0 <= q < v.terms.len() implies v.terms[q] != t by {
                if v.terms[q] == t {
                    assert(v.terms.contains(t));
                }
            }
            lemma_index_of_first_is(v1.terms, t, v.terms.len() as int);
            assert(v1.postings[v.terms.len() as int] == seq![doc_id]);
            assert(seq![doc_id][0] == doc_id);
            assert(v1.postings[v.terms.len() as int].contains(doc_id));
        },
    }
}

/// After a document is indexed, every one of its tokens has a dictionary
/// entry that lists the document.
pub proof fn lemma_index_tokens_present(v: IndexView, toks: Seq<Seq<char>>, doc_id: u32)
    requires
        v.wf(),
    ensures
        index_tokens(v, toks, doc_id).wf(),
        forall|k: int|
            0 <= k < toks.len() ==> #[trigger] term_lists_doc(
                index_tokens(v, toks, doc_id),
                toks[k],
                doc_id,
            ),
    decreases toks.len(),
{
    let v2 = index_tokens(v, toks, doc_id);
    lemma_index_tokens_extends(v, toks, doc_id);
    if toks.len() > 0 {
        let v1 = index_token(v, toks[0], doc_id);
        lemma_index_token_extends(v, toks[0], doc_id);
        lemma_index_token_present(v, toks[0], doc_id);
        lemma_index_tokens_extends(v1, toks.drop_first(), doc_id);
        lemma_term_lists_doc_stable(v2, v1, toks[0], doc_id);
        lemma_index_tokens_present(v1, toks.drop_first(), doc_id);
        assert forall|k: int| 0 <= k < toks.len() implies #[trigger] term_lists_doc(
            v2,
            toks[k],
            doc_id,
        ) by {
            if k > 0 {
                assert(toks.drop_first()[k - 1] == toks[k]);
                assert(term_lists_doc(v2, toks.drop_first()[k - 1], doc_id));
            }
        }
    }
}

/// Indexing a document and then retrieving with `must` exactly the
/// document's token list (and nothing forbidden) includes the document's
/// id in the result. Stated for documents with at least one token and no
/// repeated token, as a document with no tokens contributes to no
/// postings list.
pub proof fn lemma_index_then_retrieve_includes_doc(
    v: IndexView,
    toks: Seq<Seq<char>>,
    doc_id: u32,
)
    requires
        v.wf(),
        toks.len() > 0,
        forall|i: int, j: int| 0 <= i < j < toks.len() ==> toks[i] != toks[j],
    ensures
        retrieve_ids(index_tokens(v, toks, doc_id), toks, Seq::empty()).contains(doc_id),
{
    let v2 = index_tokens(v, toks, doc_id);
    lemma_index_tokens_present(v, toks, doc_id);
    assert(term_lists_doc(v2, toks[0], doc_id));
    match v2.term_id(toks[0]) {
        Some(i) => {
            let start = add_unique(Seq::empty(), v2.postings[i]);
            assert(resolve_from(v2, toks, Seq::empty()) == resolve_from(
                v2,
                toks.drop_first(),
                start,
            ));
            lemma_add_unique_contains(Seq::empty(), v2.postings[i], doc_id);
            lemma_resolve_from_keeps(v2, toks.drop_first(), start, doc_id);
            assert(resolve(v2, Seq::<Seq<char>>::empty()) == Seq::<u32>::empty());
            lemma_exclude_nothing(resolve(v2, toks));
        },
        None => {
            assert(false);
        },
    }
}

/// A term that was never indexed resolves to nothing: a query whose
/// `must` clause is exactly that term yields the empty result, whatever
/// the `must_not` clause says, and without an error.
pub proof fn lemma_unindexed_term_empty_result(
    v: IndexView,
    t: Seq<char>,
    must_not: Seq<Seq<char>>,
)
    requires
        v.term_id(t) is None,
    ensures
        retrieve_ids(v, seq![t], must_not) == Seq::<u32>::empty(),
{
    assert(seq![t][0] == t);
    assert(resolve(v, seq![t]) == Seq::<u32>::empty());
    assert(exclude(Seq::<u32>::empty(), resolve(v, must_not)) == Seq::<u32>::empty());
}

/// Indexing only ever adds the terms a document contains: a term outside
/// the dictionary and outside the document is still outside the
/// dictionary afterwards.
pub proof fn lemma_unseen_term_stays_unindexed(
    v: IndexView,
    toks: Seq<Seq<char>>,
    doc_id: u32,
    t: Seq<char>,
)
    requires
        !v.terms.contains(t),
        !toks.contains(t),
    ensures
        !index_tokens(v, toks, doc_id).terms.contains(t),
        index_tokens(v, toks, doc_id).term_id(t) is None,
    decreases toks.len(),
{
    let v2 = index_tokens(v, toks, doc_id);
    if toks.len() == 0 {
    } else {
        let v1 = index_token(v, toks[0], doc_id);
        assert(toks.contains(toks[0]));
        assert(t != toks[0]);
        if v1.terms.contains(t) {
            let i = choose|i: int| 0 <= i < v1.terms.len() && v1.terms[i] == t;
            match v.term_id(toks[0]) {
                Some(_) => {
                    assert(v.terms.contains(t));
                },
                None => {
                    if i < v.terms.len() {
                        assert(v.terms.contains(t));
                    } else {
                        assert(v1.terms[i] == toks[0]);
                    }
                },
            }
            assert(false);
        }
        if toks.drop_first().contains(t) {
            let i = choose|i: int|
                0 <= i < toks.drop_first().len() && toks.drop_first()[i] == t;
            assert(toks[i + 1] == t);
            assert(false);
        }
        lemma_unseen_term_stays_unindexed(v1, toks.drop_first(), doc_id, t);
    }
    v2.terms.index_of_first_ensures(t);
    match v2.term_id(t) {
        Some(i) => {
            assert(false);
        },
        None => {},
    }
}

/// Dictionary identifiers are idempotent: indexing a term a second time,
/// for the same or for another document, allocates no new identifier; the
/// second occurrence reuses the one assigned first.
pub proof fn lemma_term_id_idempotent(v: IndexView, t: Seq<char>, first_doc: u32, second_doc: u32)
    requires
        v.wf(),
    ensures
        ({
            let v1 = index_token(v, t, first_doc);
            let v2 = index_token(v1, t, second_doc);
            &&& v1.term_id(t) is Some
            &&& v2.term_id(t) == v1.term_id(t)
            &&& v2.terms == v1.terms
        }),
{
    let v1 = index_token(v, t, first_doc);
    v.terms.index_of_first_ensures(t);
    match v.term_id(t) {
        Some(i) => {
            assert(v1.term_id(t) == Some(i));
        },
        None => {
            assert forall|q: int| 0 <= q < v.terms.len() implies v.terms[q] != t by {
                if v.terms[q] == t {
                    assert(v.terms.contains(t));
                }
            }
            lemma_index_of_first_is(v1.terms, t, v.terms.len() as int);
        },
    }
}

/// A term already in the dictionary keeps its identifier across any later
/// indexing, whatever the documents hold.
pub proof fn lemma_term_id_preserved(
    v: IndexView,
    toks: Seq<Seq<char>>,
    doc_id: u32,
    t: Seq<char>,
    i: int,
)
    requires
        v.wf(),
        v.term_id(t) == Some(i),
    ensures
        index_tokens(v, toks, doc_id).term_id(t) == Some(i),
{
    lemma_index_tokens_extends(v, toks, doc_id);
    lemma_term_id_stable(index_tokens(v, toks, doc_id), v, t, i);
}

} // verus!

