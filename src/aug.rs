//! Selection shared by every augmentor: which tokens and which characters
//! take part, and how many of them.
use crate::count::AugCountParams;
use crate::doc::{eligible_indexes, kinds_of, Doc};
use crate::mapping::contains_str;
use crate::model::BaseModel;
use crate::random::sample_indices;
use crate::token::{Token, TokenHandler};
use rand::rngs::StdRng;
use vstd::prelude::*;

verus! {

/// What an augmentation does to the selected elements.
#[derive(Clone, Copy, Debug, PartialEq, Eq, Structural)]
pub enum Action {
    Insert,
    Substitute,
    Delete,
    Swap,
}

/// The elements of `idxs` that satisfy `p`, in order.
pub open spec fn select(idxs: Seq<usize>, p: spec_fn(usize) -> bool) -> Seq<usize>
    decreases idxs.len(),
{
    if idxs.len() == 0 {
        Seq::empty()
    } else {
        let prev = select(idxs.drop_last(), p);
        if p(idxs.last()) {
            prev.push(idxs.last())
        } else {
            prev
        }
    }
}

/// `0, 1, ..., n - 1`.
pub open spec fn upto(n: nat) -> Seq<usize> {
    Seq::new(n, |i: int| i as usize)
}

/// Whether `r` is a sample of `pool` of the size that `aug_cnt` asks for:
/// nothing from an empty pool, the whole pool if the count reaches its
/// size, else exactly `aug_cnt` distinct elements of it.
pub open spec fn is_sample(pool: Seq<usize>, aug_cnt: nat, r: Seq<usize>) -> bool {
    if pool.len() == 0 {
        r.len() == 0
    } else if aug_cnt >= pool.len() {
        r == pool
    } else {
        &&& r.len() == aug_cnt
        &&& r.no_duplicates()
        &&& forall|j: int| 0 <= j < r.len() ==> pool.contains(#[trigger] r[j])
    }
}

/// The items at the given positions, in the order of the positions.
pub fn take_positions<T: Copy>(items: &Vec<T>, positions: &Vec<usize>) -> (r: Vec<T>)
    requires
        forall|j: int| 0 <= j < positions@.len() ==> #[trigger] positions@[j] < items@.len(),
    ensures
        r@.len() == positions@.len(),
        forall|j: int| 0 <= j < r@.len() ==> #[trigger] r@[j] == items@[positions@[j] as int],
{
    let mut r: Vec<T> = Vec::new();
    for j in 0..positions.len()
        invariant
            forall|j: int| 0 <= j < positions@.len() ==> #[trigger] positions@[j] < items@.len(),
            r@.len() == j,
            forall|q: int| 0 <= q < j ==> #[trigger] r@[q] == items@[positions@[q] as int],
    {
        r.push(items[positions[j]]);
    }
    r
}

/// Draw from `pool` as many elements as `aug_cnt` asks for.
pub fn sample_pool<T: Copy>(pool: Vec<T>, aug_cnt: usize, rng: &mut StdRng) -> (r: Vec<T>)
    ensures
        pool@.len() == 0 ==> r@.len() == 0,
        aug_cnt >= pool@.len() ==> r@ == pool@,
        aug_cnt < pool@.len() ==> r@.len() == aug_cnt,
        exists|pos: Seq<usize>|
            pos.len() == r@.len() && pos.no_duplicates() && forall|j: int|
                0 <= j < pos.len() ==> #[trigger] pos[j] < pool@.len() && r@[j] == pool@[pos[j] as int],
{
    if pool.len() == 0 {
        let r: Vec<T> = Vec::new();
        assert(Seq::<usize>::empty().len() == 0);
        return r;
    } else if aug_cnt >= pool.len() {
        assert(upto(pool@.len()).no_duplicates());
        assert forall|j: int| 0 <= j < pool@.len() implies #[trigger] upto(pool@.len())[j] < pool@.len()
            && pool@[j] == pool@[upto(pool@.len())[j] as int] by {}
        return pool;
    }
    let positions = sample_indices(rng, pool.len(), aug_cnt);
    let r = take_positions(&pool, &positions);
    assert(positions@.len() == r@.len());
    r
}

/// Word-level selection settings.
pub struct WordSampling {
    /// Fixes how many word tokens to augment.
    pub aug_params_word: AugCountParams,
    /// Tokens shorter than this, in characters, are not augmented.
    pub min_chars: Option<usize>,
    /// Tokens equal to one of these are not augmented.
    pub stopwords: Option<Vec<String>>,
    /// Only tokens that the model has candidates for are augmented.
    pub use_model: bool,
    /// Symbol tokens take part too.
    pub use_special_chars: bool,
}

impl WordSampling {
    pub open spec fn stopword_texts(&self) -> Option<Seq<Seq<char>>> {
        match self.stopwords {
            Some(v) => Some(v.deep_view()),
            None => None,
        }
    }

    /// Whether a token passes the model, length and stop-word filters.
    pub open spec fn passes<M: BaseModel>(&self, model: &M, t: Token) -> bool {
        &&& self.use_model ==> model.has_key(t.text())
        &&& self.min_chars matches Some(m) ==> t.text().len() >= m
        &&& self.stopword_texts() matches Some(sw) ==> !sw.contains(t.text())
    }

    /// The filters, as a predicate on positions in a document.
    pub open spec fn pred<M: BaseModel>(&self, model: &M, handlers: Seq<TokenHandler>) -> spec_fn(usize) -> bool {
        |i: usize| self.passes(model, handlers[i as int].original())
    }

    /// Positions of the eligible tokens of a document that pass the filters.
    pub open spec fn filtered<M: BaseModel>(&self, model: &M, handlers: Seq<TokenHandler>) -> Seq<usize> {
        select(eligible_indexes(kinds_of(handlers), self.use_special_chars), self.pred(model, handlers))
    }

    /// Whether a token passes the filters.
    pub fn check_filters<M: BaseModel>(&self, model: &M, t: &Token) -> (r: bool)
        requires
            model.model_wf(),
            t.wf(),
        ensures
            r == self.passes(model, *t),
    {
        let orig_token = t.token();
        if self.use_model {
            if !model.key_exists(orig_token.as_str()) {
                return false;
            }
        }
        if let Some(min_char_len) = self.min_chars {
            if t.utf8_len() < min_char_len {
                return false;
            }
        }
        if let Some(stopw) = &self.stopwords {
            if contains_str(stopw, orig_token.as_str()) {
                return false;
            }
        }
        true
    }

    /// The eligible tokens that pass the stop-word, length and model filters,
    /// with their positions.
    pub fn get_filtered_word_tokens<'a, M: BaseModel>(&self, doc: &'a Doc, model: &M) -> (r: Vec<
        (usize, &'a TokenHandler),
    >)
        requires
            doc.wf(),
            model.model_wf(),
        ensures
            r@.len() == self.filtered(model, doc.handlers()).len(),
            forall|j: int|
                0 <= j < r@.len() ==> (#[trigger] r@[j]).0 == self.filtered(model, doc.handlers())[j]
                    && r@[j].0 < doc.handlers().len() && *r@[j].1 == doc.handlers()[r@[j].0 as int],
    {
        let word_tokens = doc.get_word_tokens_with_indexes(self.use_special_chars);
        let _n = doc.len();
        let ghost el = eligible_indexes(kinds_of(doc.handlers()), self.use_special_chars);
        let ghost p = self.pred(model, doc.handlers());
        proof {
            lemma_eligible_in_range(kinds_of(doc.handlers()), self.use_special_chars);
        }
        let mut filtered: Vec<(usize, &TokenHandler)> = Vec::new();
        for k in 0..word_tokens.len()
            invariant
                p == self.pred(model, doc.handlers()),
                el == eligible_indexes(kinds_of(doc.handlers()), self.use_special_chars),
                word_tokens@.len() == el.len(),
                forall|j: int|
                    0 <= j < word_tokens@.len() ==> (#[trigger] word_tokens@[j]).0 == el[j]
                        && *word_tokens@[j].1 == doc.handlers()[word_tokens@[j].0 as int],
                forall|j: int| 0 <= j < el.len() ==> #[trigger] el[j] < doc.handlers().len(),
                doc.wf(),
                model.model_wf(),
                filtered@.len() == select(el.take(k as int), p).len(),
                forall|j: int|
                    0 <= j < filtered@.len() ==> (#[trigger] filtered@[j]).0 == select(el.take(k as int), p)[j]
                        && filtered@[j].0 < doc.handlers().len() && *filtered@[j].1
                        == doc.handlers()[filtered@[j].0 as int],
        {
            let (idx, handler) = word_tokens[k];
            assert(el.take(k + 1).drop_last() =~= el.take(k as int));
            assert(el.take(k + 1).last() == idx);
            assert(handler.wf());
            let keep = self.check_filters(model, handler.get_original());
            assert(*handler == doc.handlers()[idx as int]);
            assert(p(idx) == self.passes(model, doc.handlers()[idx as int].original()));
            assert(p(idx) == keep);
            let ghost before = filtered@;
            if keep {
                filtered.push((idx, handler));
                assert(filtered@[before.len() as int] == (idx, handler));
            }
        }
        assert(el.take(word_tokens.len() as int) =~= el);
        filtered
    }

    /// Sample the tokens to augment among the filtered ones; how many is
    /// counted from all eligible tokens, filtered or not.
    pub fn sample_word_tokens_to_aug<'a, M: BaseModel>(
        &self,
        doc: &'a Doc,
        model: &M,
        rng: &mut StdRng,
    ) -> (r: Vec<(usize, &'a TokenHandler)>)
        requires
            doc.wf(),
            model.model_wf(),
            self.aug_params_word.wf(),
        ensures
            is_sample(
                self.filtered(model, doc.handlers()),
                self.aug_params_word.count_spec(
                    eligible_indexes(kinds_of(doc.handlers()), self.use_special_chars).len(),
                ),
                r@.map_values(|p: (usize, &TokenHandler)| p.0),
            ),
            forall|j: int|
                0 <= j < r@.len() ==> (#[trigger] r@[j]).0 < doc.handlers().len() && *r@[j].1
                    == doc.handlers()[r@[j].0 as int],
    {
        let origin_word_count = doc.get_word_tokens_count(self.use_special_chars);
        let _n = doc.len();
        let filtered_word_tokens = self.get_filtered_word_tokens(doc, model);
        let aug_cnt = self.aug_params_word.calculate_aug_cnt(origin_word_count);
        let ghost fv = filtered_word_tokens@;
        let ghost f = |p: (usize, &TokenHandler)| p.0;
        let ghost pool = self.filtered(model, doc.handlers());
        proof {
            lemma_eligible_no_duplicates(kinds_of(doc.handlers()), self.use_special_chars);
            lemma_select_no_duplicates(
                eligible_indexes(kinds_of(doc.handlers()), self.use_special_chars),
                self.pred(model, doc.handlers()),
            );
            assert(fv.map_values(f) =~= pool);
        }
        let r = sample_pool(filtered_word_tokens, aug_cnt, rng);
        proof {
            let rv = r@.map_values(f);
            if pool.len() > 0 && (aug_cnt as nat) < pool.len() {
                let pos = choose|pos: Seq<usize>|
                    pos.len() == r@.len() && pos.no_duplicates() && forall|j: int|
                        0 <= j < pos.len() ==> #[trigger] pos[j] < fv.len() && r@[j] == fv[pos[j] as int];
                assert forall|j: int| 0 <= j < rv.len() implies pool.contains(#[trigger] rv[j]) by {
                    assert(pos[j] < fv.len() && r@[j] == fv[pos[j] as int]);
                    assert(pool[pos[j] as int] == rv[j]);
                }
                assert forall|a: int, b: int| 0 <= a < rv.len() && 0 <= b < rv.len() && a != b implies rv[a]
                    != rv[b] by {
                    assert(pos[a] < fv.len() && r@[a] == fv[pos[a] as int]);
                    assert(pos[b] < fv.len() && r@[b] == fv[pos[b] as int]);
                    assert(pool[pos[a] as int] == rv[a]);
                    assert(pool[pos[b] as int] == rv[b]);
                }
            }
            assert forall|j: int| 0 <= j < r@.len() implies (#[trigger] r@[j]).0 < doc.handlers().len() && *r@[j].1
                == doc.handlers()[r@[j].0 as int] by {
                let pos = choose|pos: Seq<usize>|
                    pos.len() == r@.len() && pos.no_duplicates() && forall|j: int|
                        0 <= j < pos.len() ==> #[trigger] pos[j] < fv.len() && r@[j] == fv[pos[j] as int];
                assert(pos[j] < fv.len() && r@[j] == fv[pos[j] as int]);
            }
            if aug_cnt as nat >= pool.len() {
                assert(rv =~= pool);
            }
        }
        r
    }
}

/// Every eligible position lies inside the sequence.
pub proof fn lemma_eligible_in_range(kinds: Seq<crate::token::TokenType>, inc: bool)
    requires
        kinds.len() <= usize::MAX,
    ensures
        forall|j: int|
            0 <= j < eligible_indexes(kinds, inc).len() ==> #[trigger] eligible_indexes(kinds, inc)[j]
                < kinds.len(),
    decreases kinds.len(),
{
    if kinds.len() > 0 {
        lemma_eligible_in_range(kinds.drop_last(), inc);
        let prev = eligible_indexes(kinds.drop_last(), inc);
        let cur = eligible_indexes(kinds, inc);
        assert forall|j: int| 0 <= j < cur.len() implies #[trigger] cur[j] < kinds.len() by {
            if j < prev.len() {
                assert(cur[j] == prev[j]);
            }
        }
    }
}

/// Eligible positions are strictly increasing.
pub proof fn lemma_eligible_no_duplicates(kinds: Seq<crate::token::TokenType>, inc: bool)
    requires
        kinds.len() <= usize::MAX,
    ensures
        forall|a: int, b: int|
            0 <= a < b < eligible_indexes(kinds, inc).len() ==> eligible_indexes(kinds, inc)[a]
                < eligible_indexes(kinds, inc)[b],
    decreases kinds.len(),
{
    if kinds.len() > 0 {
        lemma_eligible_no_duplicates(kinds.drop_last(), inc);
        lemma_eligible_in_range(kinds.drop_last(), inc);
        let prev = eligible_indexes(kinds.drop_last(), inc);
        let cur = eligible_indexes(kinds, inc);
        assert forall|a: int, b: int| 0 <= a < b < cur.len() implies cur[a] < cur[b] by {
            if b == prev.len() {
                assert(prev[a] < kinds.drop_last().len());
            }
        }
    }
}

/// A selection from a strictly increasing sequence is strictly increasing.
pub proof fn lemma_select_no_duplicates(idxs: Seq<usize>, p: spec_fn(usize) -> bool)
    requires
        forall|a: int, b: int| 0 <= a < b < idxs.len() ==> idxs[a] < idxs[b],
    ensures
        forall|a: int, b: int| 0 <= a < b < select(idxs, p).len() ==> select(idxs, p)[a] < select(idxs, p)[b],
        forall|j: int| 0 <= j < select(idxs, p).len() ==> idxs.contains(#[trigger] select(idxs, p)[j]),
        select(idxs, p).no_duplicates(),
    decreases idxs.len(),
{
    if idxs.len() > 0 {
        let d = idxs.drop_last();
        lemma_select_no_duplicates(d, p);
        let prev = select(d, p);
        assert forall|j: int| 0 <= j < select(idxs, p).len() implies idxs.contains(#[trigger] select(idxs, p)[j]) by {
            if j < prev.len() {
                let q = choose|q: int| 0 <= q < d.len() && d[q] == prev[j];
                assert(idxs[q] == prev[j]);
            } else {
                assert(idxs[idxs.len() - 1] == idxs.last());
            }
        }
        assert forall|a: int, b: int| 0 <= a < b < select(idxs, p).len() implies select(idxs, p)[a] < select(
            idxs,
            p,
        )[b] by {
            if b == prev.len() {
                let q = choose|q: int| 0 <= q < d.len() && d[q] == prev[a];
                assert(idxs[q] < idxs[idxs.len() - 1]);
            }
        }
    }
}

/// Every selected element satisfies the predicate and comes from the input.
pub proof fn lemma_select_satisfies(idxs: Seq<usize>, p: spec_fn(usize) -> bool)
    ensures
        forall|j: int| 0 <= j < select(idxs, p).len() ==> p(#[trigger] select(idxs, p)[j]) && idxs.contains(
            select(idxs, p)[j],
        ),
    decreases idxs.len(),
{
    if idxs.len() > 0 {
        let d = idxs.drop_last();
        lemma_select_satisfies(d, p);
        let prev = select(d, p);
        assert forall|j: int| 0 <= j < select(idxs, p).len() implies p(#[trigger] select(idxs, p)[j]) && idxs.contains(
            select(idxs, p)[j],
        ) by {
            if j < prev.len() {
                let q = choose|q: int| 0 <= q < d.len() && d[q] == prev[j];
                assert(idxs[q] == prev[j]);
            } else {
                assert(idxs[idxs.len() - 1] == idxs.last());
            }
        }
    }
}

/// Every element of a sample satisfies what every element of the pool satisfies.
pub proof fn lemma_sample_from_pool(pool: Seq<usize>, aug_cnt: nat, r: Seq<usize>)
    requires
        is_sample(pool, aug_cnt, r),
    ensures
        forall|j: int| 0 <= j < r.len() ==> pool.contains(#[trigger] r[j]),
{
    if pool.len() > 0 && aug_cnt >= pool.len() {
        assert forall|j: int| 0 <= j < r.len() implies pool.contains(#[trigger] r[j]) by {
            assert(pool[j] == r[j]);
        }
    }
}

} // verus!
