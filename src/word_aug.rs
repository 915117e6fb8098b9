//! Word-level augmentations: substitute, delete and swap whole tokens.
use crate::aug::{is_sample, Action, WordSampling};
use crate::count::AugCountParams;
use crate::doc::{eligible_indexes, kinds_of, Doc};
use crate::model::{BaseModel, RandomWordModel};
use crate::random::choose_index;
use crate::token::{TokenHandler, TokenType};
use rand::rngs::StdRng;
use std::sync::Arc;
use vstd::prelude::*;
use vstd::string::*;

verus! {

/// The handlers after exchanging the given pairs of positions in turn.
pub open spec fn swapped_seq(hs: Seq<TokenHandler>, pairs: Seq<(usize, usize)>) -> Seq<TokenHandler>
    decreases pairs.len(),
{
    if pairs.len() == 0 {
        hs
    } else {
        let prev = swapped_seq(hs, pairs.drop_last());
        let (a, b) = pairs.last();
        if a < prev.len() && b < prev.len() {
            prev.update(a as int, prev[b as int]).update(b as int, prev[a as int])
        } else {
            prev
        }
    }
}

/// Whether `r` is the partner of `pos` in the sorted list `idxs`: the next
/// one for the first, the previous one for the last, either neighbour in
/// between; none when there are fewer than two or `pos` is not listed.
pub open spec fn valid_word_partner(idxs: Seq<usize>, pos: usize, r: Option<usize>) -> bool {
    if idxs.len() < 2 || !idxs.contains(pos) {
        r is None
    } else {
        let i = idxs.index_of(pos);
        r matches Some(p) && if i == 0 {
            p == idxs[1]
        } else if i == idxs.len() - 1 {
            p == idxs[i - 1]
        } else {
            p == idxs[i + 1] || p == idxs[i - 1]
        }
    }
}

/// Position of a value in a list, if present.
fn find_index(v: &Vec<usize>, x: usize) -> (r: Option<usize>)
    ensures
        r matches Some(i) ==> i < v@.len() && v@[i as int] == x && forall|j: int| 0 <= j < i ==> v@[j] != x,
        r is None ==> !v@.contains(x),
{
    let mut i: usize = 0;
    while i < v.len()
        invariant
            i <= v@.len(),
            forall|j: int| 0 <= j < i ==> v@[j] != x,
        decreases v@.len() - i,
    {
        if v[i] == x {
            return Some(i);
        }
        i += 1;
    }
    None
}

/// The token that `pos` swaps with among the eligible positions.
pub fn get_word_swap_position(pos: usize, possible_indexes: &Vec<usize>, rng: &mut StdRng) -> (r: Option<usize>)
    requires
        possible_indexes@.no_duplicates(),
    ensures
        valid_word_partner(possible_indexes@, pos, r),
{
    if possible_indexes.len() < 2 {
        return None;
    }
    match find_index(possible_indexes, pos) {
        Some(pos_idx) => {
            proof {
                let idxs = possible_indexes@;
                assert(idxs.contains(pos));
                let k = idxs.index_of(pos);
                assert(idxs[k] == pos);
                assert(k == pos_idx);
            }
            if pos_idx == 0 {
                Some(possible_indexes[pos_idx + 1])
            } else if pos_idx == possible_indexes.len() - 1 {
                Some(possible_indexes[pos_idx - 1])
            } else {
                match choose_index(rng, 2) {
                    Some(0) => Some(possible_indexes[pos_idx + 1]),
                    _ => Some(possible_indexes[pos_idx - 1]),
                }
            }
        },
        None => None,
    }
}

/// Augmentor that substitutes, deletes or swaps whole words.
pub struct RandomWordAugmentor {
    action: Action,
    /// Which words, and how many.
    sampling: WordSampling,
    model: Arc<RandomWordModel>,
}

/// The sample size the word parameters ask for in a document.
pub open spec fn word_count<M: BaseModel>(sampling: &WordSampling, hs: Seq<TokenHandler>) -> nat {
    sampling.aug_params_word.count_spec(eligible_indexes(kinds_of(hs), sampling.use_special_chars).len())
}

/// Whether `new` is what word substitution may leave of `old`: each changed
/// token lies in a sample and becomes one of the model's candidates for its
/// original text, as a word token; one count per changed token.
pub open spec fn words_substituted<M: BaseModel>(model: &M, sampling: &WordSampling, old: &Doc, new: &Doc) -> bool {
    &&& new.wf()
    &&& new.handlers().len() == old.handlers().len()
    &&& exists|sample: Seq<usize>|
        is_sample(sampling.filtered(model, old.handlers()), word_count::<M>(sampling, old.handlers()), sample)
            && new.changed_count_spec() <= sample.len() && forall|i: int|
            0 <= i < new.handlers().len() ==> #[trigger] new.handlers()[i] == old.handlers()[i] || (
            sample.contains(i as usize) && new.handlers()[i].original() == old.handlers()[i].original()
                && new.handlers()[i].changed() is Some && new.handlers()[i].changed()->0.wf()
                && new.handlers()[i].changed()->0.kind_spec() == TokenType::WordToken && model.candidates(
                old.handlers()[i].original().text(),
            ) is Some && model.candidates(old.handlers()[i].original().text())->0.contains(
                new.handlers()[i].changed()->0.text(),
            ))
}

/// Whether handler `nh` is `oh` given, as a word token, one of the model's
/// candidates for the original text.
pub open spec fn is_word_change<M: BaseModel>(model: &M, oh: TokenHandler, nh: TokenHandler) -> bool {
    &&& nh.original() == oh.original()
    &&& nh.changed() is Some
    &&& nh.changed()->0.wf()
    &&& nh.changed()->0.kind_spec() == TokenType::WordToken
    &&& model.candidates(oh.original().text()) is Some
    &&& model.candidates(oh.original().text())->0.contains(nh.changed()->0.text())
}

/// Whether `new` is what word substitution leaves of `old` for the sample
/// `sample`, where `hit[j]` tells whether token `sample[j]` was replaced: a
/// hit token becomes a candidate, every other token is untouched, a token
/// with at least one candidate is hit, and the count is the number of hits.
pub open spec fn words_substituted_by<M: BaseModel>(
    model: &M,
    sampling: &WordSampling,
    old: &Doc,
    new: &Doc,
    sample: Seq<usize>,
    hit: Seq<bool>,
) -> bool {
    &&& is_sample(sampling.filtered(model, old.handlers()), word_count::<M>(sampling, old.handlers()), sample)
    &&& hit.len() == sample.len()
    &&& new.changed_count_spec() == crate::char_aug::count_true(hit)
    &&& forall|j: int|
        0 <= j < sample.len() && #[trigger] hit[j] ==> is_word_change(
            model,
            old.handlers()[sample[j] as int],
            new.handlers()[sample[j] as int],
        )
    &&& forall|j: int|
        0 <= j < sample.len() && !(#[trigger] hit[j]) ==> new.handlers()[sample[j] as int]
            == old.handlers()[sample[j] as int]
    &&& forall|j: int|
        0 <= j < sample.len() && model.candidates(old.handlers()[sample[j] as int].original().text()) is Some
            && model.candidates(old.handlers()[sample[j] as int].original().text())->0.len() > 0
            ==> #[trigger] hit[j]
    &&& forall|i: int|
        0 <= i < new.handlers().len() && !sample.contains(i as usize) ==> #[trigger] new.handlers()[i]
            == old.handlers()[i]
}

/// Whether `new` is what word deletion leaves of `old`: every token of a
/// sample is replaced by an empty space token and counted; the others are
/// untouched.
pub open spec fn words_deleted<M: BaseModel>(model: &M, sampling: &WordSampling, old: &Doc, new: &Doc) -> bool {
    &&& new.wf()
    &&& new.handlers().len() == old.handlers().len()
    &&& exists|sample: Seq<usize>|
        is_sample(sampling.filtered(model, old.handlers()), word_count::<M>(sampling, old.handlers()), sample)
            && new.changed_count_spec() == sample.len() && (forall|i: int|
            0 <= i < new.handlers().len() && sample.contains(i as usize) ==> is_emptied(
                old.handlers()[i],
                #[trigger] new.handlers()[i],
            )) && (forall|i: int|
            0 <= i < new.handlers().len() && !sample.contains(i as usize) ==> #[trigger] new.handlers()[i]
                == old.handlers()[i])
}

/// Whether a handler is the old one with an empty space token as replacement.
pub open spec fn is_emptied(old: TokenHandler, new: TokenHandler) -> bool {
    &&& new.original() == old.original()
    &&& new.changed() is Some
    &&& new.changed()->0.wf()
    &&& new.changed()->0.kind_spec() == TokenType::SpaceToken
    &&& new.changed()->0.text() == Seq::<char>::empty()
}

/// Whether `new` is what word swapping leaves of `old`: each token of a
/// sample is paired with a neighbour among the eligible positions, the
/// pairs are exchanged in turn, and each pair is counted.
pub open spec fn words_swapped<M: BaseModel>(model: &M, sampling: &WordSampling, old: &Doc, new: &Doc) -> bool {
    let el = eligible_indexes(kinds_of(old.handlers()), sampling.use_special_chars);
    &&& new.wf()
    &&& new.handlers().len() == old.handlers().len()
    &&& exists|sample: Seq<usize>, pairs: Seq<(usize, usize)>|
        is_sample(sampling.filtered(model, old.handlers()), word_count::<M>(sampling, old.handlers()), sample)
            && swap_pairs_ok(el, sample, pairs) && new.handlers() == swapped_seq(old.handlers(), pairs)
            && new.changed_count_spec() == pairs.len()
}

/// Whether `pairs` pairs each sampled position, in order, with a valid partner.
pub open spec fn swap_pairs_ok(el: Seq<usize>, sample: Seq<usize>, pairs: Seq<(usize, usize)>) -> bool {
    exists|partners: Seq<Option<usize>>|
        partners.len() == sample.len() && (forall|j: int|
            0 <= j < sample.len() ==> valid_word_partner(el, sample[j], #[trigger] partners[j]))
            && pairs == paired(sample, partners)
}

/// The pairs (position, partner) for the positions that have a partner, in order.
pub open spec fn paired(sample: Seq<usize>, partners: Seq<Option<usize>>) -> Seq<(usize, usize)>
    decreases sample.len(),
{
    if sample.len() == 0 || partners.len() < sample.len() {
        Seq::empty()
    } else {
        let prev = paired(sample.drop_last(), partners.take(sample.len() - 1));
        match partners[sample.len() - 1] {
            Some(p) => prev.push((sample.last(), p)),
            None => prev,
        }
    }
}

impl RandomWordAugmentor {
    pub open spec fn wf(&self) -> bool {
        &&& self.model_spec().model_wf()
        &&& self.sampling_spec().aug_params_word.wf()
    }

    pub closed spec fn model_spec(&self) -> RandomWordModel {
        *self.model
    }

    pub closed spec fn sampling_spec(&self) -> WordSampling {
        self.sampling
    }

    pub closed spec fn action_spec(&self) -> Action {
        self.action
    }

    /// Substitution takes only words that the model has candidates for.
    pub fn new(
        action: Action,
        aug_params_word: AugCountParams,
        model: Arc<RandomWordModel>,
        stopwords: Option<Vec<String>>,
    ) -> (r: Self)
        ensures
            r.action_spec() == action,
            r.model_spec() == *model,
            r.sampling_spec().aug_params_word == aug_params_word,
            r.sampling_spec().min_chars is None,
            r.sampling_spec().stopwords == stopwords,
            r.sampling_spec().use_model == (action == Action::Substitute),
            !r.sampling_spec().use_special_chars,
    {
        let use_model_in_sampler_words = match action {
            Action::Substitute => true,
            _ => false,
        };
        Self {
            action,
            sampling: WordSampling {
                aug_params_word,
                min_chars: None,
                stopwords,
                use_model: use_model_in_sampler_words,
                use_special_chars: false,
            },
            model,
        }
    }

    /// The tokens to augment, with their positions.
    pub fn sample_word_tokens_to_aug<'a>(&self, doc: &'a Doc, rng: &mut StdRng) -> (r: Vec<(usize, &'a TokenHandler)>)
        requires
            self.wf(),
            doc.wf(),
        ensures
            is_sample(
                self.sampling_spec().filtered(&self.model_spec(), doc.handlers()),
                word_count::<RandomWordModel>(&self.sampling_spec(), doc.handlers()),
                r@.map_values(|p: (usize, &TokenHandler)| p.0),
            ),
    {
        self.sampling.sample_word_tokens_to_aug(doc, &*self.model, rng)
    }

    /// Positions of the sampled tokens.
    fn sample_positions(&self, doc: &Doc, rng: &mut StdRng) -> (r: Vec<usize>)
        requires
            self.wf(),
            doc.wf(),
        ensures
            is_sample(
                self.sampling_spec().filtered(&self.model_spec(), doc.handlers()),
                word_count::<RandomWordModel>(&self.sampling_spec(), doc.handlers()),
                r@,
            ),
            forall|j: int| 0 <= j < r@.len() ==> #[trigger] r@[j] < doc.handlers().len(),
    {
        let sampled = self.sampling.sample_word_tokens_to_aug(doc, &*self.model, rng);
        let mut idxs: Vec<usize> = Vec::new();
        for j in 0..sampled.len()
            invariant
                idxs@.len() == j,
                forall|q: int| 0 <= q < j ==> #[trigger] idxs@[q] == sampled@[q].0,
        {
            idxs.push(sampled[j].0);
        }
        assert(idxs@ =~= sampled@.map_values(|p: (usize, &TokenHandler)| p.0));
        proof {
            assert forall|j: int| 0 <= j < idxs@.len() implies #[trigger] idxs@[j] < doc.handlers().len() by {
                assert(sampled@[j].0 == idxs@[j]);
            }
        }
        idxs
    }
}

impl RandomWordAugmentor {
    /// Replace each sampled word by one of the model's candidates for it, drawn at random.
    pub fn substitute(&self, doc: &mut Doc, rng: &mut StdRng)
        requires
            self.wf(),
            old(doc).wf(),
        ensures
            words_substituted(&self.model_spec(), &self.sampling_spec(), old(doc), final(doc)),
            exists|sample: Seq<usize>, hit: Seq<bool>|
                words_substituted_by(&self.model_spec(), &self.sampling_spec(), old(doc), final(doc), sample, hit),
    {
        let ghost old_doc = *doc;
        let idxs = self.sample_positions(doc, rng);
        let _len = doc.len();
        let ghost sample = idxs@;
        proof {
            lemma_sample_distinct(&self.model_spec(), &self.sampling_spec(), &old_doc, sample);
        }
        let mut change_seq: usize = 0;
        let n = idxs.len();
        let ghost mut hit: Seq<bool> = Seq::empty();
        for t in 0..n
            invariant
                hit.len() == t,
                change_seq == crate::char_aug::count_true(hit),
                forall|j: int|
                    0 <= j < t && #[trigger] hit[j] ==> is_word_change(
                        &self.model_spec(),
                        old_doc.handlers()[sample[j] as int],
                        doc.handlers()[sample[j] as int],
                    ),
                forall|j: int|
                    0 <= j < t && !(#[trigger] hit[j]) ==> doc.handlers()[sample[j] as int]
                        == old_doc.handlers()[sample[j] as int],
                forall|j: int|
                    0 <= j < t && self.model_spec().candidates(old_doc.handlers()[sample[j] as int].original().text()) is Some
                        && self.model_spec().candidates(old_doc.handlers()[sample[j] as int].original().text())->0.len() > 0
                        ==> #[trigger] hit[j],
                n == sample.len(),
                idxs@ == sample,
                sample.no_duplicates(),
                forall|j: int| 0 <= j < sample.len() ==> #[trigger] sample[j] < old_doc.handlers().len(),
                self.wf(),
                doc.wf(),
                doc.handlers().len() == old_doc.handlers().len(),
                change_seq <= t,
                forall|i: int|
                    0 <= i < doc.handlers().len() ==> #[trigger] doc.handlers()[i] == old_doc.handlers()[i] || (
                    sample.take(t as int).contains(i as usize) && doc.handlers()[i].original()
                        == old_doc.handlers()[i].original() && doc.handlers()[i].changed() is Some
                        && doc.handlers()[i].changed()->0.wf() && doc.handlers()[i].changed()->0.kind_spec()
                        == TokenType::WordToken && self.model_spec().candidates(
                        old_doc.handlers()[i].original().text(),
                    ) is Some && self.model_spec().candidates(old_doc.handlers()[i].original().text())->0.contains(
                        doc.handlers()[i].changed()->0.text(),
                    )),
                forall|i: int|
                    0 <= i < doc.handlers().len() && !sample.take(t as int).contains(i as usize) ==> #[trigger] doc.handlers()[i]
                        == old_doc.handlers()[i],
        {
            let idx = idxs[t];
            proof {
                lemma_take_step(sample, t as int);
            }
            let original = doc.handler(idx).get_original().copy();
            assert(doc.handlers()[idx as int] == old_doc.handlers()[idx as int]);
            assert(doc.handlers()[idx as int].wf());
            let picked = match self.model.predict(original.token().as_str()) {
                Some(list) => match choose_index(rng, list.len()) {
                    Some(q) => {
                        assert(list.deep_view()[q as int] == list@[q as int]@);
                        Some(String::from_str(list[q].as_str()))
                    },
                    None => None,
                },
                None => None,
            };
            let ghost old_hit = hit;
            proof {
                assert forall|j: int| 0 <= j < t implies sample[j] != idx by {
                    assert(sample.take(t as int)[j] == sample[j]);
                }
            }
            if let Some(value) = picked {
                let ghost before = doc.handlers();
                doc.change_token(idx, TokenType::WordToken, value);
                proof {
                    crate::char_aug::lemma_count_true_le(old_hit);
                    hit = old_hit.push(true);
                    assert(hit.drop_last() =~= old_hit);
                }
                change_seq += 1;
                proof {
                    assert forall|i: int| 0 <= i < doc.handlers().len() implies #[trigger] doc.handlers()[i].wf() by {
                        if i != idx {
                            assert(doc.handlers()[i] == before[i]);
                        }
                    }
                    assert forall|j: int| 0 <= j < t + 1 && #[trigger] hit[j] implies is_word_change(
                        &self.model_spec(),
                        old_doc.handlers()[sample[j] as int],
                        doc.handlers()[sample[j] as int],
                    ) by {
                        if j < t {
                            assert(old_hit[j]);
                            assert(doc.handlers()[sample[j] as int] == before[sample[j] as int]);
                        }
                    }
                    assert forall|j: int| 0 <= j < t + 1 && !(#[trigger] hit[j]) implies doc.handlers()[sample[j] as int]
                        == old_doc.handlers()[sample[j] as int] by {
                        assert(j < t);
                        assert(!old_hit[j]);
                        assert(doc.handlers()[sample[j] as int] == before[sample[j] as int]);
                    }
                    assert forall|j: int|
                        0 <= j < t + 1 && self.model_spec().candidates(old_doc.handlers()[sample[j] as int].original().text()) is Some
                            && self.model_spec().candidates(old_doc.handlers()[sample[j] as int].original().text())->0.len() > 0
                            implies #[trigger] hit[j] by {
                        if j < t {
                            assert(old_hit[j]);
                        }
                    }
                }
            } else {
                proof {
                    hit = old_hit.push(false);
                    assert(hit.drop_last() =~= old_hit);
                    assert forall|j: int| 0 <= j < t + 1 && #[trigger] hit[j] implies is_word_change(
                        &self.model_spec(),
                        old_doc.handlers()[sample[j] as int],
                        doc.handlers()[sample[j] as int],
                    ) by {
                        assert(old_hit[j]);
                    }
                    assert forall|j: int| 0 <= j < t + 1 && !(#[trigger] hit[j]) implies doc.handlers()[sample[j] as int]
                        == old_doc.handlers()[sample[j] as int] by {
                        if j < t {
                            assert(!old_hit[j]);
                        }
                    }
                    assert forall|j: int|
                        0 <= j < t + 1 && self.model_spec().candidates(old_doc.handlers()[sample[j] as int].original().text()) is Some
                            && self.model_spec().candidates(old_doc.handlers()[sample[j] as int].original().text())->0.len() > 0
                            implies #[trigger] hit[j] by {
                        if j < t {
                            assert(old_hit[j]);
                        }
                    }
                }
            }
        }
        doc.set_change_count(change_seq);
        proof {
            assert(sample.take(n as int) =~= sample);
            assert(words_substituted_by(&self.model_spec(), &self.sampling_spec(), &old_doc, doc, sample, hit));
        }
    }

    /// Replace each sampled word by an empty space token, keeping its slot.
    pub fn delete(&self, doc: &mut Doc, rng: &mut StdRng)
        requires
            self.wf(),
            old(doc).wf(),
        ensures
            words_deleted(&self.model_spec(), &self.sampling_spec(), old(doc), final(doc)),
    {
        let ghost old_doc = *doc;
        let idxs = self.sample_positions(doc, rng);
        let _len = doc.len();
        let ghost sample = idxs@;
        proof {
            lemma_sample_distinct(&self.model_spec(), &self.sampling_spec(), &old_doc, sample);
        }
        let mut change_seq: usize = 0;
        let n = idxs.len();
        for t in 0..n
            invariant
                n == sample.len(),
                idxs@ == sample,
                sample.no_duplicates(),
                forall|j: int| 0 <= j < sample.len() ==> #[trigger] sample[j] < old_doc.handlers().len(),
                doc.wf(),
                doc.handlers().len() == old_doc.handlers().len(),
                old_doc.handlers().len() <= usize::MAX,
                change_seq == t,
                forall|i: int|
                    0 <= i < doc.handlers().len() && sample.take(t as int).contains(i as usize) ==> is_emptied(
                        old_doc.handlers()[i],
                        #[trigger] doc.handlers()[i],
                    ),
                forall|i: int|
                    0 <= i < doc.handlers().len() && !sample.take(t as int).contains(i as usize) ==> #[trigger] doc.handlers()[i]
                        == old_doc.handlers()[i],
        {
            let idx = idxs[t];
            proof {
                lemma_take_step(sample, t as int);
            }
            let ghost before = doc.handlers();
            assert(doc.handlers()[idx as int] == old_doc.handlers()[idx as int]);
            assert(doc.handlers()[idx as int].wf());
            doc.change_token(idx, TokenType::SpaceToken, String::new());
            change_seq += 1;
            proof {
                assert forall|i: int| 0 <= i < doc.handlers().len() implies #[trigger] doc.handlers()[i].wf() by {
                    if i != idx {
                        assert(doc.handlers()[i] == before[i]);
                    }
                }
                assert forall|i: int| 0 <= i < doc.handlers().len() && sample.take(t + 1).contains(i as usize) implies is_emptied(
                    old_doc.handlers()[i],
                    #[trigger] doc.handlers()[i],
                ) by {
                    if i != idx {
                        assert(doc.handlers()[i] == before[i]);
                        assert((i as usize) != idx);
                        assert(sample.take(t as int).contains(i as usize));
                    }
                }
                assert forall|i: int| 0 <= i < doc.handlers().len() && !sample.take(t + 1).contains(i as usize) implies #[trigger] doc.handlers()[i]
                    == old_doc.handlers()[i] by {
                    assert(i != idx);
                    assert(doc.handlers()[i] == before[i]);
                }
            }
        }
        doc.set_change_count(change_seq);
        proof {
            assert(sample.take(n as int) =~= sample);
        }
    }

    /// Pair each sampled word with a neighbouring eligible word and exchange
    /// the pairs in turn; each pair counts once.
    pub fn swap(&self, doc: &mut Doc, rng: &mut StdRng)
        requires
            self.wf(),
            old(doc).wf(),
        ensures
            words_swapped(&self.model_spec(), &self.sampling_spec(), old(doc), final(doc)),
    {
        let ghost old_doc = *doc;
        let word_token_indexes = doc.get_word_indexes(self.sampling.use_special_chars);
        let ghost el = word_token_indexes@;
        let _len = doc.len();
        proof {
            crate::aug::lemma_eligible_no_duplicates(kinds_of(old_doc.handlers()), self.sampling.use_special_chars);
            assert forall|a: int, b: int| 0 <= a < el.len() && 0 <= b < el.len() && a != b implies el[a] != el[b] by {
                if a < b {
                    assert(el[a] < el[b]);
                } else {
                    assert(el[b] < el[a]);
                }
            }
        }
        let idxs = self.sample_positions(doc, rng);
        let ghost sample = idxs@;
        let ghost mut partners: Seq<Option<usize>> = Seq::empty();
        let mut swap_pairs: Vec<(usize, usize)> = Vec::new();
        for j in 0..idxs.len()
            invariant
                el == word_token_indexes@,
                el.no_duplicates(),
                idxs@ == sample,
                partners.len() == j,
                forall|q: int| 0 <= q < j ==> valid_word_partner(el, sample[q], #[trigger] partners[q]),
                swap_pairs@ == paired(sample.take(j as int), partners),
        {
            let p = get_word_swap_position(idxs[j], &word_token_indexes, rng);
            let ghost old_partners = partners;
            proof {
                partners = partners.push(p);
                assert(sample.take(j + 1).drop_last() =~= sample.take(j as int));
                assert(partners.take(j as int) =~= old_partners);
                assert(sample.take(j + 1).last() == idxs@[j as int]);
            }
            if let Some(sp) = p {
                swap_pairs.push((idxs[j], sp));
            }
        }
        proof {
            assert(sample.take(sample.len() as int) =~= sample);
        }
        let ghost pairs = swap_pairs@;
        let mut change_seq: usize = 0;
        for t in 0..swap_pairs.len()
            invariant
                pairs == swap_pairs@,
                doc.handlers() == swapped_seq(old_doc.handlers(), pairs.take(t as int)),
                change_seq == t,
        {
            let (a, b) = swap_pairs[t];
            doc.perform_swap_by_idx(a, b);
            change_seq += 1;
            proof {
                assert(pairs.take(t + 1).drop_last() =~= pairs.take(t as int));
                assert(pairs.take(t + 1).last() == (a, b));
            }
        }
        doc.set_change_count(change_seq);
        proof {
            assert(pairs.take(pairs.len() as int) =~= pairs);
            assert(swap_pairs_ok(el, sample, pairs));
            assert(el == eligible_indexes(kinds_of(old_doc.handlers()), self.sampling_spec().use_special_chars));
            assert(doc.handlers() == swapped_seq(old_doc.handlers(), pairs));
            lemma_swapped_len(old_doc.handlers(), pairs);
            lemma_swapped_wf(old_doc.handlers(), pairs);
            assert(is_sample(
                self.sampling_spec().filtered(&self.model_spec(), old_doc.handlers()),
                word_count::<RandomWordModel>(&self.sampling_spec(), old_doc.handlers()),
                sample,
            ));
        }
    }

    /// Apply this augmentor's action; insertion is not defined for words and
    /// leaves the document as it is.
    pub fn augment(&self, doc: &mut Doc, rng: &mut StdRng)
        requires
            self.wf(),
            old(doc).wf(),
        ensures
            self.action_spec() == Action::Insert ==> *final(doc) == *old(doc),
            self.action_spec() == Action::Substitute ==> words_substituted(
                &self.model_spec(),
                &self.sampling_spec(),
                old(doc),
                final(doc),
            ) && exists|sample: Seq<usize>, hit: Seq<bool>|
                words_substituted_by(&self.model_spec(), &self.sampling_spec(), old(doc), final(doc), sample, hit),
            self.action_spec() == Action::Delete ==> words_deleted(
                &self.model_spec(),
                &self.sampling_spec(),
                old(doc),
                final(doc),
            ),
            self.action_spec() == Action::Swap ==> words_swapped(
                &self.model_spec(),
                &self.sampling_spec(),
                old(doc),
                final(doc),
            ),
    {
        match self.action {
            Action::Insert => {},
            Action::Substitute => self.substitute(doc, rng),
            Action::Delete => self.delete(doc, rng),
            Action::Swap => self.swap(doc, rng),
        }
    }

    pub fn get_action(&self) -> (r: Action)
        ensures
            r == self.action_spec(),
    {
        self.action
    }
}

/// Exchanging pairs keeps the number of handlers.
pub proof fn lemma_swapped_len(hs: Seq<TokenHandler>, pairs: Seq<(usize, usize)>)
    ensures
        swapped_seq(hs, pairs).len() == hs.len(),
    decreases pairs.len(),
{
    if pairs.len() > 0 {
        lemma_swapped_len(hs, pairs.drop_last());
    }
}

/// Exchanging pairs keeps every handler well formed.
pub proof fn lemma_swapped_wf(hs: Seq<TokenHandler>, pairs: Seq<(usize, usize)>)
    requires
        forall|i: int| 0 <= i < hs.len() ==> #[trigger] hs[i].wf(),
    ensures
        forall|i: int| 0 <= i < swapped_seq(hs, pairs).len() ==> #[trigger] swapped_seq(hs, pairs)[i].wf(),
    decreases pairs.len(),
{
    if pairs.len() > 0 {
        lemma_swapped_wf(hs, pairs.drop_last());
        lemma_swapped_len(hs, pairs.drop_last());
        let prev = swapped_seq(hs, pairs.drop_last());
        let (a, b) = pairs.last();
        assert forall|i: int| 0 <= i < swapped_seq(hs, pairs).len() implies #[trigger] swapped_seq(hs, pairs)[i].wf() by {
            if a < prev.len() && b < prev.len() {
                assert(prev[a as int].wf());
                assert(prev[b as int].wf());
                assert(prev[i].wf());
            }
        }
    }
}

/// Facts about the prefix of a list of distinct positions, one step on.
proof fn lemma_take_step(sample: Seq<usize>, t: int)
    requires
        0 <= t < sample.len(),
        sample.no_duplicates(),
    ensures
        !sample.take(t).contains(sample[t]),
        sample.take(t + 1).contains(sample[t]),
        forall|x: usize| x != sample[t] ==> (#[trigger] sample.take(t + 1).contains(x) == sample.take(t).contains(x)),
{
    assert(sample.take(t + 1)[t] == sample[t]);
    if sample.take(t).contains(sample[t]) {
        let q = choose|q: int| 0 <= q < t && #[trigger] sample.take(t)[q] == sample[t];
        assert(sample[q] == sample[t]);
    }
    assert forall|x: usize| x != sample[t] implies (#[trigger] sample.take(t + 1).contains(x) == sample.take(t).contains(x)) by {
        if sample.take(t).contains(x) {
            let q = choose|q: int| 0 <= q < t && #[trigger] sample.take(t)[q] == x;
            assert(sample.take(t + 1)[q] == x);
        }
        if sample.take(t + 1).contains(x) {
            let q = choose|q: int| 0 <= q < t + 1 && #[trigger] sample.take(t + 1)[q] == x;
            assert(sample.take(t)[q] == x);
        }
    }
}

/// A sample drawn from filtered positions has no repeated position.
proof fn lemma_sample_distinct<M: BaseModel>(model: &M, sampling: &WordSampling, doc: &Doc, sample: Seq<usize>)
    requires
        doc.handlers().len() <= usize::MAX,
        is_sample(sampling.filtered(model, doc.handlers()), word_count::<M>(sampling, doc.handlers()), sample),
    ensures
        sample.no_duplicates(),
{
    let pool = sampling.filtered(model, doc.handlers());
    if pool.len() > 0 && word_count::<M>(sampling, doc.handlers()) >= pool.len() {
        crate::aug::lemma_eligible_no_duplicates(kinds_of(doc.handlers()), sampling.use_special_chars);
        crate::aug::lemma_select_no_duplicates(
            eligible_indexes(kinds_of(doc.handlers()), sampling.use_special_chars),
            sampling.pred(model, doc.handlers()),
        );
    }
}

} // verus!
