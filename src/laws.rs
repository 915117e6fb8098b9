//! Properties that relate the operations of the library.
use crate::api::is_reset;
use crate::aug::{is_sample, Action, WordSampling};
use crate::aug::{select, upto};
use crate::char_aug::{
    char_augmented_by, char_augmented_exactly, char_change_ok, char_sample_ok, count_true, is_char_change,
    known_char, lemma_delete_shrinks, lemma_insert_grows, lemma_substitute_keeps_length, moved, picks_cover,
    rewritten, swap_fold, swap_fold_len, swap_of, valid_picks, valid_swap_positions, SwapMode,
};
use crate::count::AugCountParams;
use crate::doc::{eligible_indexes, join, kinds_of, latest_texts, Doc};
use crate::model::BaseModel;
use vstd::prelude::*;

verus! {

/// A count policy with a fraction that is not positive and no minimum asks
/// for nothing.
pub proof fn lemma_zero_fraction_count(params: AugCountParams, size: nat)
    requires
        params.fraction().num <= 0,
        params.min_spec() is None,
    ensures
        params.count_spec(size) == 0,
{
}

/// A sample of size zero is empty.
proof fn lemma_empty_sample(pool: Seq<usize>, sample: Seq<usize>)
    requires
        is_sample(pool, 0, sample),
    ensures
        sample.len() == 0,
{
}

/// A count of `true` entries that is zero means every entry is `false`,
/// and a positive one means some entry is `true`.
pub proof fn lemma_count_true_zero(s: Seq<bool>)
    ensures
        count_true(s) == 0 <==> forall|j: int| 0 <= j < s.len() ==> !#[trigger] s[j],
    decreases s.len(),
{
    if s.len() > 0 {
        lemma_count_true_zero(s.drop_last());
        if count_true(s) == 0 {
            assert forall|j: int| 0 <= j < s.len() implies !#[trigger] s[j] by {
                if j < s.len() - 1 {
                    assert(s.drop_last()[j] == s[j]);
                }
            }
        } else {
            assert(!(forall|j: int| 0 <= j < s.len() ==> !#[trigger] s[j])) by {
                if !s.last() {
                    let j = choose|j: int| 0 <= j < s.drop_last().len() && #[trigger] s.drop_last()[j];
                    assert(s[j]);
                } else {
                    assert(s[s.len() - 1]);
                }
            }
        }
    }
}

/// What a changed token's change rests on: a non-empty character sample.
proof fn lemma_change_needs_sample<M: BaseModel>(
    model: &M,
    params_char: AugCountParams,
    action: Action,
    mode: SwapMode,
    orig: Seq<char>,
    new: Seq<char>,
)
    requires
        char_change_ok(model, params_char, action, mode, orig, new),
    ensures
        params_char.count_spec(orig.len()) > 0,
{
    let sel = choose|sel: Seq<usize>|
        #[trigger] char_sample_ok(model, params_char, orig, sel) && sel.len() > 0 && match action {
            Action::Swap => orig.len() >= 2 && swap_of(sel, mode, orig, new),
            _ => exists|picks: Seq<Option<Seq<char>>>|
                valid_picks(model, orig, picks, action) && picks_cover(model, orig, sel, picks, action)
                    && #[trigger] rewritten(orig, picks, action) == new,
        };
    if params_char.count_spec(orig.len()) == 0 {
        lemma_empty_sample(select(upto(orig.len()), known_char(model, orig)), sel);
    }
}

/// Each token is untouched or changed as `is_char_change` allows; with no
/// hit, every token is untouched.
proof fn lemma_position_cases<M: BaseModel>(
    model: &M,
    sampling: &WordSampling,
    params_char: AugCountParams,
    action: Action,
    mode: SwapMode,
    old: &Doc,
    new: &Doc,
    sample: Seq<usize>,
    hit: Seq<bool>,
)
    requires
        char_augmented_by(model, sampling, params_char, action, mode, old, new, sample, hit),
        new.handlers().len() == old.handlers().len(),
        new.handlers().len() <= usize::MAX,
    ensures
        forall|i: int|
            0 <= i < new.handlers().len() ==> #[trigger] new.handlers()[i] == old.handlers()[i] || is_char_change(
                model,
                params_char,
                action,
                mode,
                old.handlers()[i],
                new.handlers()[i],
            ),
        (forall|j: int| 0 <= j < hit.len() ==> !#[trigger] hit[j]) ==> new.handlers() == old.handlers(),
{
    assert forall|i: int| 0 <= i < new.handlers().len() implies #[trigger] new.handlers()[i] == old.handlers()[i]
        || is_char_change(model, params_char, action, mode, old.handlers()[i], new.handlers()[i]) by {
        if sample.contains(i as usize) {
            let j = choose|j: int| 0 <= j < sample.len() && sample[j] == i as usize;
            assert(sample[j] as int == i);
            if hit[j] {
            } else {
            }
        }
    }
    if forall|j: int| 0 <= j < hit.len() ==> !#[trigger] hit[j] {
        assert forall|i: int| 0 <= i < new.handlers().len() implies #[trigger] new.handlers()[i] == old.handlers()[i] by {
            if sample.contains(i as usize) {
                let j = choose|j: int| 0 <= j < sample.len() && sample[j] == i as usize;
                assert(sample[j] as int == i);
                assert(!hit[j]);
            }
        }
        assert(new.handlers() =~= old.handlers());
    }
}

/// With a word fraction, or a character fraction, that is not positive and
/// no minimum, character-level augmentation changes no token and counts
/// nothing: the text stays as it was.
pub proof fn lemma_char_no_op<M: BaseModel>(
    model: &M,
    sampling: &WordSampling,
    params_char: AugCountParams,
    action: Action,
    mode: SwapMode,
    old: &Doc,
    new: &Doc,
)
    requires
        char_augmented_exactly(model, sampling, params_char, action, mode, old, new),
        (sampling.aug_params_word.fraction().num <= 0 && sampling.aug_params_word.min_spec() is None) || (
        params_char.fraction().num <= 0 && params_char.min_spec() is None),
    ensures
        new.handlers() == old.handlers(),
        new.changed_count_spec() == 0,
        new.augmented() == old.augmented(),
{
    let (sample, hit) = choose|sample: Seq<usize>, hit: Seq<bool>|
        char_augmented_by(model, sampling, params_char, action, mode, old, new, sample, hit);
    if sampling.aug_params_word.fraction().num <= 0 && sampling.aug_params_word.min_spec() is None {
        let e = eligible_indexes(kinds_of(old.handlers()), sampling.use_special_chars).len();
        lemma_zero_fraction_count(sampling.aug_params_word, e);
        lemma_empty_sample(sampling.filtered(model, old.handlers()), sample);
    } else {
        assert forall|j: int| 0 <= j < hit.len() implies !#[trigger] hit[j] by {
            if hit[j] {
                let oh = old.handlers()[sample[j] as int];
                let nh = new.handlers()[sample[j] as int];
                lemma_change_needs_sample(model, params_char, action, mode, oh.original().text(), nh.changed()->0.text());
                lemma_zero_fraction_count(params_char, oh.original().text().len());
            }
        }
    }
    lemma_count_true_zero(hit);
    lemma_position_cases(model, sampling, params_char, action, mode, old, new, sample, hit);
}

/// Concatenations of pieces of equal lengths have equal lengths.
pub proof fn lemma_join_len_eq(a: Seq<Seq<char>>, b: Seq<Seq<char>>)
    requires
        a.len() == b.len(),
        forall|i: int| 0 <= i < a.len() ==> (#[trigger] a[i]).len() == b[i].len(),
    ensures
        join(a).len() == join(b).len(),
    decreases a.len(),
{
    if a.len() > 0 {
        lemma_join_len_eq(a.drop_last(), b.drop_last());
    }
}

/// Concatenations of pieces that are each no longer are no longer, and
/// shorter when one piece is shorter.
pub proof fn lemma_join_len_le(a: Seq<Seq<char>>, b: Seq<Seq<char>>)
    requires
        a.len() == b.len(),
        forall|i: int| 0 <= i < a.len() ==> (#[trigger] a[i]).len() <= b[i].len(),
    ensures
        join(a).len() <= join(b).len(),
        (exists|k: int| 0 <= k < a.len() && (#[trigger] a[k]).len() < b[k].len()) ==> join(a).len() < join(b).len(),
    decreases a.len(),
{
    if a.len() > 0 {
        lemma_join_len_le(a.drop_last(), b.drop_last());
        if exists|k: int| 0 <= k < a.len() && (#[trigger] a[k]).len() < b[k].len() {
            let k = choose|k: int| 0 <= k < a.len() && (#[trigger] a[k]).len() < b[k].len();
            if k < a.len() - 1 {
                assert(a.drop_last()[k] == a[k] && b.drop_last()[k] == b[k]);
            }
        }
    }
}

/// Every candidate the model gives is a single character.
pub open spec fn unit_candidates<M: BaseModel>(model: &M) -> bool {
    forall|k: Seq<char>, j: int|
        model.candidates(k) is Some && 0 <= j < model.candidates(k)->0.len() ==> (#[trigger] model.candidates(
            k,
        )->0[j]).len() == 1
}

/// The model has candidates for every text, and none of them is empty.
pub open spec fn nonempty_candidates<M: BaseModel>(model: &M) -> bool {
    &&& forall|k: Seq<char>| #[trigger] model.candidates(k) is Some && model.candidates(k)->0.len() > 0
    &&& forall|k: Seq<char>, j: int|
        model.candidates(k) is Some && 0 <= j < model.candidates(k)->0.len() ==> (#[trigger] model.candidates(
            k,
        )->0[j]).len() > 0
}

/// Each token's latest text, before and after, in a reset document.
proof fn lemma_token_texts<M: BaseModel>(
    model: &M,
    sampling: &WordSampling,
    params_char: AugCountParams,
    action: Action,
    mode: SwapMode,
    old: &Doc,
    new: &Doc,
) -> (r: (Seq<usize>, Seq<bool>))
    requires
        char_augmented_exactly(model, sampling, params_char, action, mode, old, new),
        is_reset(*old),
    ensures
        char_augmented_by(model, sampling, params_char, action, mode, old, new, r.0, r.1),
        latest_texts(new.handlers()).len() == latest_texts(old.handlers()).len(),
        forall|i: int|
            0 <= i < new.handlers().len() ==> #[trigger] new.handlers()[i] == old.handlers()[i] || (
            new.handlers()[i].changed() is Some && char_change_ok(
                model,
                params_char,
                action,
                mode,
                latest_texts(old.handlers())[i],
                latest_texts(new.handlers())[i],
            )),
{
    let (sample, hit) = choose|sample: Seq<usize>, hit: Seq<bool>|
        char_augmented_by(model, sampling, params_char, action, mode, old, new, sample, hit);
    lemma_position_cases(model, sampling, params_char, action, mode, old, new, sample, hit);
    assert forall|i: int| 0 <= i < new.handlers().len() implies #[trigger] new.handlers()[i] == old.handlers()[i] || (
        new.handlers()[i].changed() is Some && char_change_ok(
            model,
            params_char,
            action,
            mode,
            latest_texts(old.handlers())[i],
            latest_texts(new.handlers())[i],
        )) by {
        assert(old.handlers()[i].changed() is None);
    }
    (sample, hit)
}

/// Swapping characters keeps the length of the text.
pub proof fn lemma_swap_keeps_length<M: BaseModel>(
    model: &M,
    sampling: &WordSampling,
    params_char: AugCountParams,
    mode: SwapMode,
    old: &Doc,
    new: &Doc,
)
    requires
        char_augmented_exactly(model, sampling, params_char, Action::Swap, mode, old, new),
        is_reset(*old),
    ensures
        new.augmented().len() == old.augmented().len(),
{
    lemma_token_texts(model, sampling, params_char, Action::Swap, mode, old, new);
    let a = latest_texts(new.handlers());
    let b = latest_texts(old.handlers());
    assert forall|i: int| 0 <= i < a.len() implies (#[trigger] a[i]).len() == b[i].len() by {
        if new.handlers()[i] != old.handlers()[i] {
            let sel = choose|sel: Seq<usize>|
                #[trigger] char_sample_ok(model, params_char, b[i], sel) && sel.len() > 0 && b[i].len() >= 2
                    && swap_of(sel, mode, b[i], a[i]);
            let pos = choose|pos: Seq<usize>|
                valid_swap_positions(mode, sel, (b[i].len() - 1) as usize, pos) && moved(sel, pos) && #[trigger] swap_fold(
                    b[i],
                    sel,
                    pos,
                ) == a[i];
            swap_fold_len(b[i], sel, pos);
        }
    }
    lemma_join_len_eq(a, b);
}

/// Substituting characters by single characters keeps the length of the text.
pub proof fn lemma_substitute_keeps_text_length<M: BaseModel>(
    model: &M,
    sampling: &WordSampling,
    params_char: AugCountParams,
    mode: SwapMode,
    old: &Doc,
    new: &Doc,
)
    requires
        char_augmented_exactly(model, sampling, params_char, Action::Substitute, mode, old, new),
        is_reset(*old),
        unit_candidates(model),
    ensures
        new.augmented().len() == old.augmented().len(),
{
    lemma_token_texts(model, sampling, params_char, Action::Substitute, mode, old, new);
    let a = latest_texts(new.handlers());
    let b = latest_texts(old.handlers());
    assert forall|i: int| 0 <= i < a.len() implies (#[trigger] a[i]).len() == b[i].len() by {
        if new.handlers()[i] != old.handlers()[i] {
            let sel = choose|sel: Seq<usize>|
                #[trigger] char_sample_ok(model, params_char, b[i], sel) && sel.len() > 0 && exists|
                    picks: Seq<Option<Seq<char>>>,
                |
                    valid_picks(model, b[i], picks, Action::Substitute) && picks_cover(
                        model,
                        b[i],
                        sel,
                        picks,
                        Action::Substitute,
                    ) && #[trigger] rewritten(b[i], picks, Action::Substitute) == a[i];
            let picks = choose|picks: Seq<Option<Seq<char>>>|
                valid_picks(model, b[i], picks, Action::Substitute) && picks_cover(
                    model,
                    b[i],
                    sel,
                    picks,
                    Action::Substitute,
                ) && #[trigger] rewritten(b[i], picks, Action::Substitute) == a[i];
            assert forall|j: int| 0 <= j < picks.len() && (#[trigger] picks[j]) is Some implies picks[j]->0.len() == 1 by {
                let cs = model.candidates(seq![b[i][j]])->0;
                let q = choose|q: int| 0 <= q < cs.len() && cs[q] == picks[j]->0;
                assert(model.candidates(seq![b[i][j]]) is Some && 0 <= q < cs.len());
            }
            lemma_substitute_keeps_length(b[i], picks);
        }
    }
    lemma_join_len_eq(a, b);
}

/// Inserting characters never shortens the text; when the model has
/// non-empty candidates for every character, a positive count means a
/// longer text.
pub proof fn lemma_insert_lengthens<M: BaseModel>(
    model: &M,
    sampling: &WordSampling,
    params_char: AugCountParams,
    mode: SwapMode,
    old: &Doc,
    new: &Doc,
)
    requires
        char_augmented_exactly(model, sampling, params_char, Action::Insert, mode, old, new),
        is_reset(*old),
    ensures
        new.augmented().len() >= old.augmented().len(),
        nonempty_candidates(model) && new.changed_count_spec() > 0 ==> new.augmented().len()
            > old.augmented().len(),
{
    let (sample, hit) = lemma_token_texts(model, sampling, params_char, Action::Insert, mode, old, new);
    let a = latest_texts(new.handlers());
    let b = latest_texts(old.handlers());
    assert forall|i: int| 0 <= i < a.len() implies (#[trigger] b[i]).len() <= a[i].len() && (nonempty_candidates(
        model,
    ) && new.handlers()[i] != old.handlers()[i] ==> b[i].len() < a[i].len()) by {
        if new.handlers()[i] != old.handlers()[i] {
            let sel = choose|sel: Seq<usize>|
                #[trigger] char_sample_ok(model, params_char, b[i], sel) && sel.len() > 0 && exists|
                    picks: Seq<Option<Seq<char>>>,
                |
                    valid_picks(model, b[i], picks, Action::Insert) && picks_cover(model, b[i], sel, picks, Action::Insert)
                        && #[trigger] rewritten(b[i], picks, Action::Insert) == a[i];
            let picks = choose|picks: Seq<Option<Seq<char>>>|
                valid_picks(model, b[i], picks, Action::Insert) && picks_cover(model, b[i], sel, picks, Action::Insert)
                    && #[trigger] rewritten(b[i], picks, Action::Insert) == a[i];
            lemma_insert_grows(b[i], picks);
            if nonempty_candidates(model) {
                let p = sel[0] as int;
                assert(sel.contains(p as usize));
                assert(model.candidates(seq![b[i][p]]) is Some && model.candidates(seq![b[i][p]])->0.len() > 0);
                assert(picks[p] is Some);
                let cs = model.candidates(seq![b[i][p]])->0;
                let q = choose|q: int| 0 <= q < cs.len() && cs[q] == picks[p]->0;
                assert(cs[q].len() > 0);
                assert(picks[p]->0.len() > 0);
            }
        }
    }
    lemma_join_len_le(b, a);
    if nonempty_candidates(model) && new.changed_count_spec() > 0 {
        lemma_count_true_zero(hit);
        let j = choose|j: int| 0 <= j < hit.len() && #[trigger] hit[j];
        let i = sample[j] as int;
        assert(sample[j] < old.handlers().len());
        assert(old.handlers()[i].changed() is None);
        assert(new.handlers()[i].changed() is Some);
        assert(new.handlers()[i] != old.handlers()[i]);
        assert(b[i].len() < a[i].len());
    }
}

/// Deleting characters never lengthens the text, and keeps its length only
/// when nothing is counted.
pub proof fn lemma_delete_shortens<M: BaseModel>(
    model: &M,
    sampling: &WordSampling,
    params_char: AugCountParams,
    mode: SwapMode,
    old: &Doc,
    new: &Doc,
)
    requires
        char_augmented_exactly(model, sampling, params_char, Action::Delete, mode, old, new),
        is_reset(*old),
    ensures
        new.augmented().len() <= old.augmented().len(),
        new.augmented().len() == old.augmented().len() <==> new.changed_count_spec() == 0,
{
    let (sample, hit) = lemma_token_texts(model, sampling, params_char, Action::Delete, mode, old, new);
    let a = latest_texts(new.handlers());
    let b = latest_texts(old.handlers());
    assert forall|i: int| 0 <= i < a.len() implies (#[trigger] a[i]).len() <= b[i].len() && (new.handlers()[i]
        != old.handlers()[i] ==> a[i].len() < b[i].len()) by {
        if new.handlers()[i] != old.handlers()[i] {
            let sel = choose|sel: Seq<usize>|
                #[trigger] char_sample_ok(model, params_char, b[i], sel) && sel.len() > 0 && exists|
                    picks: Seq<Option<Seq<char>>>,
                |
                    valid_picks(model, b[i], picks, Action::Delete) && picks_cover(model, b[i], sel, picks, Action::Delete)
                        && #[trigger] rewritten(b[i], picks, Action::Delete) == a[i];
            let picks = choose|picks: Seq<Option<Seq<char>>>|
                valid_picks(model, b[i], picks, Action::Delete) && picks_cover(model, b[i], sel, picks, Action::Delete)
                    && #[trigger] rewritten(b[i], picks, Action::Delete) == a[i];
            let p = sel[0] as int;
            assert(sel.contains(p as usize));
            assert(picks[p] is Some);
            lemma_delete_shrinks(b[i], picks);
        }
    }
    lemma_join_len_le(a, b);
    lemma_count_true_zero(hit);
    if new.changed_count_spec() > 0 {
        let j = choose|j: int| 0 <= j < hit.len() && #[trigger] hit[j];
        let i = sample[j] as int;
        assert(sample[j] < old.handlers().len());
        assert(old.handlers()[i].changed() is None);
        assert(new.handlers()[i].changed() is Some);
        assert(new.handlers()[i] != old.handlers()[i]);
        assert(a[i].len() < b[i].len());
    } else {
        lemma_position_cases(model, sampling, params_char, Action::Delete, mode, old, new, sample, hit);
    }
}

/// A token of one character is never touched by a character swap.
pub proof fn lemma_swap_skips_single_chars<M: BaseModel>(
    model: &M,
    sampling: &WordSampling,
    params_char: AugCountParams,
    mode: SwapMode,
    old: &Doc,
    new: &Doc,
    i: int,
)
    requires
        char_augmented_exactly(model, sampling, params_char, Action::Swap, mode, old, new),
        0 <= i < old.handlers().len(),
        old.handlers()[i].original().text().len() < 2,
    ensures
        new.handlers()[i] == old.handlers()[i],
{
    let (sample, hit) = choose|sample: Seq<usize>, hit: Seq<bool>|
        char_augmented_by(model, sampling, params_char, Action::Swap, mode, old, new, sample, hit);
    lemma_position_cases(model, sampling, params_char, Action::Swap, mode, old, new, sample, hit);
    assert(new.handlers()[i] == old.handlers()[i] || is_char_change(
        model,
        params_char,
        Action::Swap,
        mode,
        old.handlers()[i],
        new.handlers()[i],
    ));
}

/// A selection is no longer than its input, and as long only when it is all of it.
pub proof fn lemma_select_full(idxs: Seq<usize>, p: spec_fn(usize) -> bool)
    ensures
        crate::aug::select(idxs, p).len() <= idxs.len(),
        crate::aug::select(idxs, p).len() == idxs.len() ==> crate::aug::select(idxs, p) == idxs,
    decreases idxs.len(),
{
    if idxs.len() > 0 {
        lemma_select_full(idxs.drop_last(), p);
        if crate::aug::select(idxs, p).len() == idxs.len() {
            assert(idxs.drop_last().push(idxs.last()) =~= idxs);
        }
    }
}

/// Swapping words in a document with exactly two eligible words, both
/// sampled, exchanges them twice: the tokens end as they were, and two swaps
/// are counted.
pub proof fn lemma_two_word_swap_cancels<M: BaseModel>(model: &M, sampling: &WordSampling, old: &Doc, new: &Doc)
    requires
        crate::word_aug::words_swapped(model, sampling, old, new),
        old.handlers().len() <= usize::MAX,
        eligible_indexes(kinds_of(old.handlers()), sampling.use_special_chars).len() == 2,
        sampling.filtered(model, old.handlers()).len() == 2,
        sampling.aug_params_word.count_spec(2) >= 2,
    ensures
        new.handlers() == old.handlers(),
        new.changed_count_spec() == 2,
{
    let el = eligible_indexes(kinds_of(old.handlers()), sampling.use_special_chars);
    let pool = sampling.filtered(model, old.handlers());
    lemma_select_full(el, sampling.pred(model, old.handlers()));
    assert(pool == el);
    crate::aug::lemma_eligible_no_duplicates(kinds_of(old.handlers()), sampling.use_special_chars);
    assert(el[0] < el[1]);
    let (sample, pairs) = choose|sample: Seq<usize>, pairs: Seq<(usize, usize)>|
        is_sample(pool, crate::word_aug::word_count::<M>(sampling, old.handlers()), sample)
            && crate::word_aug::swap_pairs_ok(el, sample, pairs) && new.handlers()
            == crate::word_aug::swapped_seq(old.handlers(), pairs) && new.changed_count_spec() == pairs.len();
    assert(sample == el);
    let partners = choose|partners: Seq<Option<usize>>|
        partners.len() == sample.len() && (forall|j: int|
            0 <= j < sample.len() ==> crate::word_aug::valid_word_partner(el, sample[j], #[trigger] partners[j]))
            && pairs == crate::word_aug::paired(sample, partners);
    assert(el.contains(el[0]));
    assert(el.contains(el[1]));
    assert(el.index_of(el[0]) == 0) by {
        let k = el.index_of(el[0]);
        assert(el[k] == el[0]);
    }
    assert(el.index_of(el[1]) == 1) by {
        let k = el.index_of(el[1]);
        assert(el[k] == el[1]);
    }
    assert(crate::word_aug::valid_word_partner(el, sample[0], partners[0]));
    assert(crate::word_aug::valid_word_partner(el, sample[1], partners[1]));
    assert(partners[0] == Some(el[1]));
    assert(partners[1] == Some(el[0]));
    assert(sample.drop_last() =~= seq![el[0]]);
    assert(partners.take(1) =~= seq![Some(el[1])]);
    assert(seq![el[0]].drop_last() =~= Seq::<usize>::empty());
    assert(seq![Some(el[1])].take(0) =~= Seq::<Option<usize>>::empty());
    assert(crate::word_aug::paired(Seq::<usize>::empty(), Seq::<Option<usize>>::empty()) == Seq::<
        (usize, usize),
    >::empty());
    let p1 = crate::word_aug::paired(seq![el[0]], seq![Some(el[1])]);
    assert(p1 =~= Seq::<(usize, usize)>::empty().push((el[0], el[1])));
    assert(p1 =~= seq![(el[0], el[1])]);
    assert(pairs =~= seq![(el[0], el[1]), (el[1], el[0])]);
    crate::word_aug::lemma_swapped_len(old.handlers(), pairs);
    crate::aug::lemma_eligible_in_range(kinds_of(old.handlers()), sampling.use_special_chars);
    assert(pairs.drop_last() =~= seq![(el[0], el[1])]);
    assert(seq![(el[0], el[1])].drop_last() =~= Seq::<(usize, usize)>::empty());
    let hs = old.handlers();
    let (a, b) = (el[0], el[1]);
    assert(crate::word_aug::swapped_seq(hs, Seq::<(usize, usize)>::empty()) == hs);
    let h1 = crate::word_aug::swapped_seq(hs, seq![(a, b)]);
    assert(h1 == hs.update(a as int, hs[b as int]).update(b as int, hs[a as int]));
    let h2 = crate::word_aug::swapped_seq(hs, pairs);
    assert(h2 == h1.update(b as int, h1[a as int]).update(a as int, h1[b as int]));
    assert(h2 =~= hs);
    assert(new.handlers() =~= old.handlers());
}

/// Over ranges that cut a list of texts into contiguous pieces, where range
/// `k` gives one result for each of its positions, the results one after
/// another are as many as the texts, the one at each position standing for
/// the text at that position.
pub proof fn lemma_partition_results<A: crate::api::BaseAugmentor>(
    augmentor: &A,
    list: Seq<Seq<char>>,
    ranges: Seq<(usize, usize)>,
    parts: Seq<Seq<Seq<char>>>,
)
    requires
        crate::utils::is_partition(ranges, list.len()),
        parts.len() == ranges.len(),
        forall|k: int| 0 <= k < ranges.len() ==> (#[trigger] parts[k]).len() == ranges[k].1 - ranges[k].0,
        forall|k: int, q: int|
            0 <= k < ranges.len() && 0 <= q < parts[k].len() ==> crate::api::fresh_outcome(
                augmentor,
                list[ranges[k].0 + q],
                #[trigger] parts[k][q],
            ),
    ensures
        parts.flatten().len() == list.len(),
        forall|p: int| 0 <= p < list.len() ==> crate::api::fresh_outcome(augmentor, list[p], #[trigger] parts.flatten()[p]),
{
    lemma_partition_prefix(augmentor, list, ranges, parts, ranges.len());
    assert(parts.take(ranges.len() as int) =~= parts);
}

proof fn lemma_partition_prefix<A: crate::api::BaseAugmentor>(
    augmentor: &A,
    list: Seq<Seq<char>>,
    ranges: Seq<(usize, usize)>,
    parts: Seq<Seq<Seq<char>>>,
    t: nat,
)
    requires
        t <= ranges.len(),
        crate::utils::is_partition(ranges, list.len()),
        parts.len() == ranges.len(),
        forall|k: int| 0 <= k < ranges.len() ==> (#[trigger] parts[k]).len() == ranges[k].1 - ranges[k].0,
        forall|k: int, q: int|
            0 <= k < ranges.len() && 0 <= q < parts[k].len() ==> crate::api::fresh_outcome(
                augmentor,
                list[ranges[k].0 + q],
                #[trigger] parts[k][q],
            ),
    ensures
        parts.take(t as int).flatten().len() == if t == 0 {
            0
        } else {
            ranges[t - 1].1 as int
        },
        forall|p: int|
            0 <= p < parts.take(t as int).flatten().len() ==> crate::api::fresh_outcome(
                augmentor,
                list[p],
                #[trigger] parts.take(t as int).flatten()[p],
            ),
    decreases t,
{
    if t == 0 {
        assert(parts.take(0) =~= Seq::<Seq<Seq<char>>>::empty());
    } else {
        let t1 = (t - 1) as nat;
        lemma_partition_prefix(augmentor, list, ranges, parts, t1);
        let pre = parts.take(t1 as int);
        assert(parts.take(t as int) =~= pre.push(parts[t1 as int]));
        pre.lemma_flatten_push(parts[t1 as int]);
        let f = parts.take(t as int).flatten();
        let s0 = ranges[t1 as int].0 as int;
        assert(pre.flatten().len() == s0);
        assert forall|p: int| 0 <= p < f.len() implies crate::api::fresh_outcome(augmentor, list[p], #[trigger] f[p]) by {
            if p < pre.flatten().len() {
                assert(f[p] == pre.flatten()[p]);
            } else {
                let q = p - s0;
                assert(f[p] == parts[t1 as int][q]);
                assert(ranges[t1 as int].0 + q == p);
            }
        }
    }
}

/// With a fraction that is not positive and no minimum, word-level
/// augmentation changes no token and counts nothing.
pub proof fn lemma_word_no_op(aug: &crate::word_aug::RandomWordAugmentor, old: &Doc, new: &Doc)
    requires
        crate::api::BaseAugmentor::outcome(aug, *old, *new),
        aug.sampling_spec().aug_params_word.fraction().num <= 0,
        aug.sampling_spec().aug_params_word.min_spec() is None,
    ensures
        new.handlers() == old.handlers(),
        new.changed_count_spec() == 0 || aug.action_spec() == Action::Insert,
        new.augmented() == old.augmented(),
{
    let sampling = aug.sampling_spec();
    let model = aug.model_spec();
    let e = eligible_indexes(kinds_of(old.handlers()), sampling.use_special_chars).len();
    lemma_zero_fraction_count(sampling.aug_params_word, e);
    let pool = sampling.filtered(&model, old.handlers());
    match aug.action_spec() {
        Action::Insert => {},
        Action::Substitute => {
            let sample = choose|sample: Seq<usize>|
                is_sample(pool, crate::word_aug::word_count::<crate::model::RandomWordModel>(&sampling, old.handlers()), sample)
                    && new.changed_count_spec() <= sample.len() && forall|i: int|
                    0 <= i < new.handlers().len() ==> #[trigger] new.handlers()[i] == old.handlers()[i] || (
                    sample.contains(i as usize) && new.handlers()[i].original() == old.handlers()[i].original()
                        && new.handlers()[i].changed() is Some && new.handlers()[i].changed()->0.wf()
                        && new.handlers()[i].changed()->0.kind_spec() == crate::token::TokenType::WordToken
                        && model.candidates(old.handlers()[i].original().text()) is Some && model.candidates(
                        old.handlers()[i].original().text(),
                    )->0.contains(new.handlers()[i].changed()->0.text()));
            lemma_empty_sample(pool, sample);
            assert(new.handlers() =~= old.handlers());
        },
        Action::Delete => {
            let sample = choose|sample: Seq<usize>|
                is_sample(pool, crate::word_aug::word_count::<crate::model::RandomWordModel>(&sampling, old.handlers()), sample)
                    && new.changed_count_spec() == sample.len() && (forall|i: int|
                    0 <= i < new.handlers().len() && sample.contains(i as usize) ==> crate::word_aug::is_emptied(
                        old.handlers()[i],
                        #[trigger] new.handlers()[i],
                    )) && (forall|i: int|
                    0 <= i < new.handlers().len() && !sample.contains(i as usize) ==> #[trigger] new.handlers()[i]
                        == old.handlers()[i]);
            lemma_empty_sample(pool, sample);
            assert(new.handlers() =~= old.handlers());
        },
        Action::Swap => {
            let el = eligible_indexes(kinds_of(old.handlers()), sampling.use_special_chars);
            let (sample, pairs) = choose|sample: Seq<usize>, pairs: Seq<(usize, usize)>|
                is_sample(pool, crate::word_aug::word_count::<crate::model::RandomWordModel>(&sampling, old.handlers()), sample)
                    && crate::word_aug::swap_pairs_ok(el, sample, pairs) && new.handlers()
                    == crate::word_aug::swapped_seq(old.handlers(), pairs) && new.changed_count_spec() == pairs.len();
            lemma_empty_sample(pool, sample);
            let partners = choose|partners: Seq<Option<usize>>|
                partners.len() == sample.len() && (forall|j: int|
                    0 <= j < sample.len() ==> crate::word_aug::valid_word_partner(el, sample[j], #[trigger] partners[j]))
                    && pairs == crate::word_aug::paired(sample, partners);
            assert(pairs.len() == 0);
        },
    }
}

/// A fresh document of a text makes up that text.
pub proof fn lemma_fresh_text(d: Doc, s: Seq<char>)
    requires
        crate::api::is_fresh(d, s),
    ensures
        d.augmented() == s,
{
    crate::doc::lemma_round_trip(s);
    assert(latest_texts(d.handlers()) =~= crate::doc::token_texts(crate::doc::originals(d.handlers()))) by {
        assert forall|i: int| 0 <= i < d.handlers().len() implies #[trigger] latest_texts(d.handlers())[i]
            == crate::doc::token_texts(crate::doc::originals(d.handlers()))[i] by {
            assert(d.handlers()[i].changed() is None);
        }
    }
}

/// With a word or character fraction that is not positive and no minimum,
/// a character augmentor gives back its input text.
pub proof fn lemma_char_augmentor_no_op(aug: &crate::char_aug::RandomCharAugmentor, s: Seq<char>, out: Seq<char>)
    requires
        crate::api::fresh_outcome(aug, s, out),
        (aug.sampling_spec().aug_params_word.fraction().num <= 0 && aug.sampling_spec().aug_params_word.min_spec()
            is None) || (aug.params_char().fraction().num <= 0 && aug.params_char().min_spec() is None),
    ensures
        out == s,
{
    let (d0, d1) = choose|d0: Doc, d1: Doc|
        crate::api::is_fresh(d0, s) && crate::api::BaseAugmentor::outcome(aug, d0, d1) && out == d1.augmented();
    lemma_char_no_op(
        &aug.model_spec(),
        &aug.sampling_spec(),
        aug.params_char(),
        aug.action_spec(),
        aug.mode_spec(),
        &d0,
        &d1,
    );
    lemma_fresh_text(d0, s);
}

/// With a word fraction that is not positive and no minimum, a word
/// augmentor gives back its input text.
pub proof fn lemma_word_augmentor_no_op(aug: &crate::word_aug::RandomWordAugmentor, s: Seq<char>, out: Seq<char>)
    requires
        crate::api::fresh_outcome(aug, s, out),
        aug.sampling_spec().aug_params_word.fraction().num <= 0,
        aug.sampling_spec().aug_params_word.min_spec() is None,
    ensures
        out == s,
{
    let (d0, d1) = choose|d0: Doc, d1: Doc|
        crate::api::is_fresh(d0, s) && crate::api::BaseAugmentor::outcome(aug, d0, d1) && out == d1.augmented();
    lemma_word_no_op(aug, &d0, &d1);
    lemma_fresh_text(d0, s);
}

/// With a word fraction that is not positive and no minimum, results that
/// stand position by position for a list of texts are that list.
pub proof fn lemma_word_list_no_op(
    aug: &crate::word_aug::RandomWordAugmentor,
    list: Seq<Seq<char>>,
    out: Seq<Seq<char>>,
)
    requires
        out.len() == list.len(),
        forall|k: int| 0 <= k < list.len() ==> crate::api::fresh_outcome(aug, list[k], #[trigger] out[k]),
        aug.sampling_spec().aug_params_word.fraction().num <= 0,
        aug.sampling_spec().aug_params_word.min_spec() is None,
    ensures
        out == list,
{
    assert forall|k: int| 0 <= k < list.len() implies #[trigger] out[k] == list[k] by {
        lemma_word_augmentor_no_op(aug, list[k], out[k]);
    }
    assert(out =~= list);
}

/// The same for a character augmentor, with a word or character fraction
/// that is not positive and no minimum.
pub proof fn lemma_char_list_no_op(
    aug: &crate::char_aug::RandomCharAugmentor,
    list: Seq<Seq<char>>,
    out: Seq<Seq<char>>,
)
    requires
        out.len() == list.len(),
        forall|k: int| 0 <= k < list.len() ==> crate::api::fresh_outcome(aug, list[k], #[trigger] out[k]),
        (aug.sampling_spec().aug_params_word.fraction().num <= 0 && aug.sampling_spec().aug_params_word.min_spec()
            is None) || (aug.params_char().fraction().num <= 0 && aug.params_char().min_spec() is None),
    ensures
        out == list,
{
    assert forall|k: int| 0 <= k < list.len() implies #[trigger] out[k] == list[k] by {
        lemma_char_augmentor_no_op(aug, list[k], out[k]);
    }
    assert(out =~= list);
}

} // verus!
