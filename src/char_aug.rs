//! Character-level augmentations: substitute, insert, delete and swap.
use crate::aug::{is_sample, select, upto, Action, WordSampling};
use crate::count::AugCountParams;
use crate::doc::{eligible_indexes, join, kinds_of, Doc};
use crate::model::{BaseModel, KeyboardModel, OcrModel, RandomCharModel};
use crate::random::choose_index;
use crate::text::{
    alphabetic, char_string, char_to_lower, char_to_upper, chars_of, is_alphabetic, lower_char,
    push_char, upper_char,
};
use crate::token::{Token, TokenHandler, TokenType};
use rand::rngs::StdRng;
use std::sync::Arc;
use vstd::prelude::*;
use vstd::string::*;

verus! {

/// How a character finds the position it swaps with.
#[derive(Clone, Copy, Debug, PartialEq, Eq, Structural)]
pub enum SwapMode {
    /// A neighbour.
    Adjacent,
    /// Any position but the first and the last.
    Middle,
    /// Any position.
    Random,
}

/// The swap mode that a name gives; an unknown name gives `Adjacent`.
pub open spec fn swap_mode_of(name: Seq<char>) -> SwapMode {
    if name == "middle"@ {
        SwapMode::Middle
    } else if name == "random"@ {
        SwapMode::Random
    } else {
        SwapMode::Adjacent
    }
}

pub fn parse_swap_mode(name: &str) -> (r: SwapMode)
    ensures
        r == swap_mode_of(name@),
{
    if crate::text::str_eq(name, "middle") {
        SwapMode::Middle
    } else if crate::text::str_eq(name, "random") {
        SwapMode::Random
    } else {
        SwapMode::Adjacent
    }
}

/// The swap mode that a name gives, or `None` for a name that is not one of
/// `adjacent`, `middle`, `random`.
pub fn parse_swap_mode_strict(name: &str) -> (r: Option<SwapMode>)
    ensures
        r is Some <==> (name@ == "adjacent"@ || name@ == "middle"@ || name@ == "random"@),
        r matches Some(m) ==> m == swap_mode_of(name@),
{
    if crate::text::str_eq(name, "adjacent") || crate::text::str_eq(name, "middle") || crate::text::str_eq(
        name,
        "random",
    ) {
        Some(parse_swap_mode(name))
    } else {
        None
    }
}

/// What the character at `i` becomes, given the pick for it.
pub open spec fn piece(text: Seq<char>, picks: Seq<Option<Seq<char>>>, i: int, action: Action) -> Seq<char> {
    match picks[i] {
        None => seq![text[i]],
        Some(s) => match action {
            Action::Insert => s + seq![text[i]],
            Action::Delete => Seq::empty(),
            _ => s,
        },
    }
}

/// The text made of the pieces of the first `n` characters.
pub open spec fn rewritten_prefix(
    text: Seq<char>,
    picks: Seq<Option<Seq<char>>>,
    action: Action,
    n: nat,
) -> Seq<char> {
    join(Seq::new(n, |i: int| piece(text, picks, i, action)))
}

/// The text made of the pieces of every character.
pub open spec fn rewritten(text: Seq<char>, picks: Seq<Option<Seq<char>>>, action: Action) -> Seq<char> {
    rewritten_prefix(text, picks, action, text.len())
}

/// Whether picks are allowed: each pick stands at a character that the
/// model knows; for deletion it is empty, otherwise it is one of the
/// model's candidates for that character.
pub open spec fn valid_picks<M: BaseModel>(
    model: &M,
    text: Seq<char>,
    picks: Seq<Option<Seq<char>>>,
    action: Action,
) -> bool {
    &&& picks.len() == text.len()
    &&& forall|i: int|
        0 <= i < picks.len() && (#[trigger] picks[i]) is Some ==> model.has_key(seq![text[i]]) && if action
            == Action::Delete {
            picks[i]->0 == Seq::<char>::empty()
        } else {
            model.candidates(seq![text[i]]) matches Some(cs) && cs.contains(picks[i]->0)
        }
}

/// Whether the picks stand exactly at the sampled positions where a pick
/// can be made: for deletion every sampled position, otherwise every
/// sampled position whose character has at least one candidate.
pub open spec fn picks_cover<M: BaseModel>(
    model: &M,
    text: Seq<char>,
    sel: Seq<usize>,
    picks: Seq<Option<Seq<char>>>,
    action: Action,
) -> bool {
    &&& picks.len() == text.len()
    &&& forall|i: int|
        0 <= i < picks.len() ==> ((#[trigger] picks[i]) is Some <==> sel.contains(i as usize) && (action
            == Action::Delete || (model.candidates(seq![text[i]]) is Some && model.candidates(
            seq![text[i]],
        )->0.len() > 0)))
}

/// Whether `sel` is a sample of the characters of `text` that the model
/// knows, of the size that the character count asks for.
pub open spec fn char_sample_ok<M: BaseModel>(
    model: &M,
    aug_params_char: AugCountParams,
    text: Seq<char>,
    sel: Seq<usize>,
) -> bool {
    &&& is_sample(select(upto(text.len()), known_char(model, text)), aug_params_char.count_spec(text.len()), sel)
    &&& forall|j: int| 0 <= j < sel.len() ==> #[trigger] sel[j] < text.len()
}

/// The text of a token after substitution, insertion or deletion at the
/// given picks.
pub fn rewrite_token(text: &str, picks: &Vec<Option<String>>, action: Action) -> (r: String)
    requires
        picks@.len() == text@.len(),
    ensures
        r@ == rewritten(text@, picks.deep_view(), action),
{
    let chars = chars_of(text);
    let mut result = String::new();
    let ghost pv = picks.deep_view();
    for i in 0..chars.len()
        invariant
            chars@ == text@,
            picks@.len() == text@.len(),
            pv == picks.deep_view(),
            result@ == rewritten_prefix(text@, pv, action, i as nat),
    {
        let c = chars[i];
        let ghost before = result@;
        match &picks[i] {
            None => {
                push_char(&mut result, c);
            },
            Some(s) => {
                match action {
                    Action::Insert => {
                        result.append(s.as_str());
                        push_char(&mut result, c);
                    },
                    Action::Delete => {},
                    _ => {
                        result.append(s.as_str());
                    },
                }
            },
        }
        proof {
            let f = |k: int| piece(text@, pv, k, action);
            assert(Seq::new((i + 1) as nat, f) =~= Seq::new(i as nat, f).push(f(i as int)));
            crate::doc::lemma_join_push(Seq::new(i as nat, f), f(i as int));
            assert(c == text@[i as int]);
            assert(pv[i as int] == match picks@[i as int] {
                Some(s) => Some(s@),
                None => None,
            });
            assert(result@ =~= before + f(i as int));
        }
    }
    result
}

/// Length of a concatenation is the sum of the lengths; here: it is at
/// least the number of non-empty pieces, and equal to it when every piece
/// has one character.
pub proof fn lemma_join_len_units(ss: Seq<Seq<char>>)
    requires
        forall|i: int| 0 <= i < ss.len() ==> (#[trigger] ss[i]).len() == 1,
    ensures
        join(ss).len() == ss.len(),
    decreases ss.len(),
{
    if ss.len() > 0 {
        lemma_join_len_units(ss.drop_last());
    }
}

/// A concatenation of non-empty pieces is at least as long as the number of
/// pieces, and longer if one piece has more than one character.
pub proof fn lemma_join_len_at_least(ss: Seq<Seq<char>>)
    requires
        forall|i: int| 0 <= i < ss.len() ==> (#[trigger] ss[i]).len() >= 1,
    ensures
        join(ss).len() >= ss.len(),
        (exists|i: int| 0 <= i < ss.len() && (#[trigger] ss[i]).len() >= 2) ==> join(ss).len() > ss.len(),
    decreases ss.len(),
{
    if ss.len() > 0 {
        lemma_join_len_at_least(ss.drop_last());
        if exists|i: int| 0 <= i < ss.len() && (#[trigger] ss[i]).len() >= 2 {
            let i = choose|i: int| 0 <= i < ss.len() && (#[trigger] ss[i]).len() >= 2;
            if i < ss.len() - 1 {
                assert(ss.drop_last()[i].len() >= 2);
            }
        }
    }
}

/// A concatenation of pieces of at most one character is at most as long as
/// the number of pieces, and shorter if one piece is empty.
pub proof fn lemma_join_len_at_most(ss: Seq<Seq<char>>)
    requires
        forall|i: int| 0 <= i < ss.len() ==> (#[trigger] ss[i]).len() <= 1,
    ensures
        join(ss).len() <= ss.len(),
        (exists|i: int| 0 <= i < ss.len() && (#[trigger] ss[i]).len() == 0) ==> join(ss).len() < ss.len(),
    decreases ss.len(),
{
    if ss.len() > 0 {
        lemma_join_len_at_most(ss.drop_last());
        if exists|i: int| 0 <= i < ss.len() && (#[trigger] ss[i]).len() == 0 {
            let i = choose|i: int| 0 <= i < ss.len() && (#[trigger] ss[i]).len() == 0;
            if i < ss.len() - 1 {
                assert(ss.drop_last()[i].len() == 0);
            }
        }
    }
}

/// Substitution by single characters keeps the length of a token.
pub proof fn lemma_substitute_keeps_length(text: Seq<char>, picks: Seq<Option<Seq<char>>>)
    requires
        picks.len() == text.len(),
        forall|i: int| 0 <= i < picks.len() && (#[trigger] picks[i]) is Some ==> picks[i]->0.len() == 1,
    ensures
        rewritten(text, picks, Action::Substitute).len() == text.len(),
{
    let ss = Seq::new(text.len(), |i: int| piece(text, picks, i, Action::Substitute));
    assert forall|i: int| 0 <= i < ss.len() implies (#[trigger] ss[i]).len() == 1 by {}
    lemma_join_len_units(ss);
}

/// Insertion never shortens a token, and lengthens it once a non-empty
/// text is inserted.
pub proof fn lemma_insert_grows(text: Seq<char>, picks: Seq<Option<Seq<char>>>)
    requires
        picks.len() == text.len(),
    ensures
        rewritten(text, picks, Action::Insert).len() >= text.len(),
        (exists|i: int| 0 <= i < picks.len() && (#[trigger] picks[i]) is Some && picks[i]->0.len() > 0)
            ==> rewritten(text, picks, Action::Insert).len() > text.len(),
{
    let ss = Seq::new(text.len(), |i: int| piece(text, picks, i, Action::Insert));
    assert forall|i: int| 0 <= i < ss.len() implies (#[trigger] ss[i]).len() >= 1 by {}
    if exists|i: int| 0 <= i < picks.len() && (#[trigger] picks[i]) is Some && picks[i]->0.len() > 0 {
        let i = choose|i: int| 0 <= i < picks.len() && (#[trigger] picks[i]) is Some && picks[i]->0.len() > 0;
        assert(ss[i].len() >= 2);
    }
    lemma_join_len_at_least(ss);
}

/// Deletion never lengthens a token, and shortens it once a character is picked.
pub proof fn lemma_delete_shrinks(text: Seq<char>, picks: Seq<Option<Seq<char>>>)
    requires
        picks.len() == text.len(),
    ensures
        rewritten(text, picks, Action::Delete).len() <= text.len(),
        (exists|i: int| 0 <= i < picks.len() && (#[trigger] picks[i]) is Some) ==> rewritten(
            text,
            picks,
            Action::Delete,
        ).len() < text.len(),
{
    let ss = Seq::new(text.len(), |i: int| piece(text, picks, i, Action::Delete));
    assert forall|i: int| 0 <= i < ss.len() implies (#[trigger] ss[i]).len() <= 1 by {}
    if exists|i: int| 0 <= i < picks.len() && (#[trigger] picks[i]) is Some {
        let i = choose|i: int| 0 <= i < picks.len() && (#[trigger] picks[i]) is Some;
        assert(ss[i].len() == 0);
    }
    lemma_join_len_at_most(ss);
}

/// Draw from a pool of distinct positions as many as `aug_cnt` asks for.
pub fn sample_positions(pool: Vec<usize>, aug_cnt: usize, rng: &mut StdRng) -> (r: Vec<usize>)
    requires
        pool@.no_duplicates(),
    ensures
        is_sample(pool@, aug_cnt as nat, r@),
{
    if pool.len() == 0 || aug_cnt >= pool.len() {
        return crate::aug::sample_pool(pool, aug_cnt, rng);
    }
    let ghost p = pool@;
    let r = crate::aug::sample_pool(pool, aug_cnt, rng);
    proof {
        let pos = choose|pos: Seq<usize>|
            pos.len() == r@.len() && pos.no_duplicates() && forall|j: int|
                0 <= j < pos.len() ==> #[trigger] pos[j] < p.len() && r@[j] == p[pos[j] as int];
        assert forall|j: int| 0 <= j < r@.len() implies p.contains(#[trigger] r@[j]) by {
            assert(pos[j] < p.len() && r@[j] == p[pos[j] as int]);
        }
        assert forall|a: int, b: int| 0 <= a < r@.len() && 0 <= b < r@.len() && a != b implies r@[a] != r@[b] by {
            assert(pos[a] < p.len() && r@[a] == p[pos[a] as int]);
            assert(pos[b] < p.len() && r@[b] == p[pos[b] as int]);
        }
    }
    r
}

/// Predicate on the positions of a text: the model knows the character there.
pub open spec fn known_char<M: BaseModel>(model: &M, text: Seq<char>) -> spec_fn(usize) -> bool {
    |i: usize| model.has_key(seq![text[i as int]])
}

/// Sample the characters of a token to augment among those the model knows;
/// how many is counted from the token's length.
pub fn sample_chars_to_aug<M: BaseModel>(
    model: &M,
    aug_params_char: &AugCountParams,
    token: &Token,
    rng: &mut StdRng,
) -> (r: Vec<usize>)
    requires
        model.model_wf(),
        aug_params_char.wf(),
        token.wf(),
    ensures
        is_sample(
            select(upto(token.text().len()), known_char(model, token.text())),
            aug_params_char.count_spec(token.text().len()),
            r@,
        ),
        forall|j: int| 0 <= j < r@.len() ==> #[trigger] r@[j] < token.text().len(),
{
    let aug_cnt = aug_params_char.calculate_aug_cnt(token.utf8_len());
    let chars = chars_of(token.token().as_str());
    let ghost text = token.text();
    let ghost p = known_char(model, text);
    let mut char_indexes: Vec<usize> = Vec::new();
    for idx in 0..chars.len()
        invariant
            chars@ == text,
            model.model_wf(),
            p == known_char(model, text),
            char_indexes@ == select(upto(chars@.len()).take(idx as int), p),
            forall|j: int| 0 <= j < char_indexes@.len() ==> #[trigger] char_indexes@[j] < idx,
            forall|a: int, b: int| 0 <= a < b < char_indexes@.len() ==> char_indexes@[a] < char_indexes@[b],
    {
        assert(upto(chars@.len()).take(idx + 1).drop_last() =~= upto(chars@.len()).take(idx as int));
        assert(upto(chars@.len()).take(idx + 1).last() == idx);
        let key = char_string(chars[idx]);
        if model.key_exists(key.as_str()) {
            char_indexes.push(idx);
        }
    }
    assert(upto(chars@.len()).take(chars.len() as int) =~= upto(chars@.len()));
    let ghost pool = char_indexes@;
    assert(pool.no_duplicates()) by {
        assert forall|a: int, b: int| 0 <= a < pool.len() && 0 <= b < pool.len() && a != b implies pool[a]
            != pool[b] by {
            if a < b {
                assert(pool[a] < pool[b]);
            } else {
                assert(pool[b] < pool[a]);
            }
        }
    }
    let r = sample_positions(char_indexes, aug_cnt, rng);
    proof {
        assert forall|j: int| 0 <= j < r@.len() implies #[trigger] r@[j] < text.len() by {
            if pool.len() > 0 && (aug_cnt as nat) < pool.len() {
                assert(pool.contains(r@[j]));
            } else {
                assert(r@[j] == pool[j]);
            }
        }
    }
    r
}

/// For each sampled position, a candidate the model gives for the character
/// there, drawn at random; `None` elsewhere, and where the model has no candidate.
pub fn pick_candidates<M: BaseModel>(model: &M, text: &str, sel: &Vec<usize>, rng: &mut StdRng) -> (r: Vec<
    Option<String>,
>)
    requires
        model.model_wf(),
        forall|j: int| 0 <= j < sel@.len() ==> #[trigger] sel@[j] < text@.len(),
        forall|j: int| 0 <= j < sel@.len() ==> model.has_key(seq![text@[#[trigger] sel@[j] as int]]),
    ensures
        valid_picks(model, text@, r.deep_view(), Action::Substitute),
        forall|i: int| 0 <= i < r@.len() && (#[trigger] r@[i]) is Some ==> sel@.contains(i as usize),
        picks_cover(model, text@, sel@, r.deep_view(), Action::Substitute),
{
    let chars = chars_of(text);
    let mut picks: Vec<Option<String>> = Vec::new();
    for i in 0..chars.len()
        invariant
            picks@.len() == i,
            forall|k: int| 0 <= k < i ==> (#[trigger] picks@[k]) is None,
    {
        picks.push(None);
    }
    for j in 0..sel.len()
        invariant
            chars@ == text@,
            model.model_wf(),
            forall|j: int| 0 <= j < sel@.len() ==> #[trigger] sel@[j] < text@.len(),
            forall|j: int| 0 <= j < sel@.len() ==> model.has_key(seq![text@[#[trigger] sel@[j] as int]]),
            picks@.len() == text@.len(),
            valid_picks(model, text@, picks.deep_view(), Action::Substitute),
            forall|i: int| 0 <= i < picks@.len() && (#[trigger] picks@[i]) is Some ==> sel@.contains(i as usize),
            forall|k: int|
                0 <= k < j && model.candidates(seq![text@[sel@[k] as int]]) is Some && model.candidates(
                    seq![text@[sel@[k] as int]],
                )->0.len() > 0 ==> (#[trigger] picks.deep_view()[sel@[k] as int]) is Some,
    {
        let i = sel[j];
        let key = char_string(chars[i]);
        if let Some(list) = model.predict(key.as_str()) {
            if let Some(q) = choose_index(rng, list.len()) {
                let chosen = String::from_str(list[q].as_str());
                let ghost before = picks.deep_view();
                picks.set(i, Some(chosen));
                proof {
                    assert(list.deep_view()[q as int] == chosen@);
                    assert(picks.deep_view() =~= before.update(i as int, Some(chosen@)));
                    assert(sel@[j as int] == i);
                    assert forall|k: int| 0 <= k < picks@.len() && (#[trigger] picks@[k]) is Some implies sel@.contains(
                        k as usize,
                    ) by {
                        if k != i {
                            assert(before[k] is Some);
                        }
                    }
                    assert forall|k: int|
                        0 <= k < j + 1 && model.candidates(seq![text@[sel@[k] as int]]) is Some && model.candidates(
                            seq![text@[sel@[k] as int]],
                        )->0.len() > 0 implies (#[trigger] picks.deep_view()[sel@[k] as int]) is Some by {
                        if k < j && sel@[k] != i {
                            assert(before[sel@[k] as int] is Some);
                        }
                    }
                    assert forall|k: int| 0 <= k < picks.deep_view().len() && (#[trigger] picks.deep_view()[k]) is Some implies model.has_key(
                        seq![text@[k]],
                    ) && model.candidates(seq![text@[k]]) is Some && model.candidates(seq![text@[k]])->0.contains(
                        picks.deep_view()[k]->0,
                    ) by {
                        if k == i {
                            assert(list.deep_view()[q as int] == picks.deep_view()[k]->0);
                        } else {
                            assert(before[k] is Some);
                        }
                    }
                }
            } else {
                assert(list.deep_view() == model.candidates(seq![text@[i as int]])->0);
            }
        } else {
            assert(model.candidates(seq![text@[i as int]]) is None);
        }
    }
    proof {
        assert forall|i: int| 0 <= i < picks.deep_view().len() implies ((#[trigger] picks.deep_view()[i]) is Some
            <==> sel@.contains(i as usize) && (Action::Substitute == Action::Delete || (model.candidates(
            seq![text@[i]],
        ) is Some && model.candidates(seq![text@[i]])->0.len() > 0))) by {
            if picks.deep_view()[i] is Some {
                assert(picks@[i] is Some);
                let cs = model.candidates(seq![text@[i]])->0;
                assert(cs.contains(picks.deep_view()[i]->0));
            }
            if sel@.contains(i as usize) && model.candidates(seq![text@[i]]) is Some && model.candidates(
                seq![text@[i]],
            )->0.len() > 0 {
                let k = choose|k: int| 0 <= k < sel@.len() && sel@[k] == i as usize;
                assert(sel@[k] as int == i);
            }
        }
    }
    picks
}

/// Empty picks at each sampled position, for deletion.
pub fn pick_deletions(text: &str, sel: &Vec<usize>) -> (r: Vec<Option<String>>)
    requires
        forall|j: int| 0 <= j < sel@.len() ==> #[trigger] sel@[j] < text@.len(),
    ensures
        r@.len() == text@.len(),
        text@.len() <= usize::MAX,
        forall|i: int| 0 <= i < r@.len() ==> ((#[trigger] r.deep_view()[i]) is Some <==> sel@.contains(i as usize)),
        forall|i: int| 0 <= i < r@.len() && (#[trigger] r.deep_view()[i]) is Some ==> r.deep_view()[i]->0
            == Seq::<char>::empty(),
{
    let n = text.unicode_len();
    let mut picks: Vec<Option<String>> = Vec::new();
    for i in 0..n
        invariant
            n == text@.len(),
            picks@.len() == i,
            forall|k: int| 0 <= k < i ==> (#[trigger] picks@[k]) is None,
    {
        picks.push(None);
    }
    for j in 0..sel.len()
        invariant
            n == text@.len(),
            forall|j: int| 0 <= j < sel@.len() ==> #[trigger] sel@[j] < text@.len(),
            picks@.len() == n,
            forall|i: int| 0 <= i < n ==> ((#[trigger] picks.deep_view()[i]) is Some <==> sel@.take(j as int).contains(i as usize)),
            forall|i: int| 0 <= i < n && (#[trigger] picks.deep_view()[i]) is Some ==> picks.deep_view()[i]->0
                == Seq::<char>::empty(),
    {
        let i = sel[j];
        let ghost before = picks.deep_view();
        picks.set(i, Some(String::new()));
        proof {
            assert(picks.deep_view() =~= before.update(i as int, Some(Seq::<char>::empty())));
            assert forall|k: int| 0 <= k < n implies ((#[trigger] picks.deep_view()[k]) is Some <==> sel@.take(j + 1).contains(k as usize)) by {
                if sel@.take(j as int).contains(k as usize) {
                    let q = choose|q: int| 0 <= q < j && #[trigger] sel@.take(j as int)[q] == k as usize;
                    assert(sel@.take(j + 1)[q] == k as usize);
                }
                if sel@.take(j + 1).contains(k as usize) && k != i {
                    let q = choose|q: int| 0 <= q < j + 1 && #[trigger] sel@.take(j + 1)[q] == k as usize;
                    assert(sel@.take(j as int)[q] == k as usize);
                }
                if k == i {
                    assert(sel@.take(j + 1)[j as int] == k as usize);
                }
            }
        }
    }
    proof {
        assert(sel@.take(sel@.len() as int) =~= sel@);
    }
    picks
}

/// The position that the character at `pos` swaps with, in a token whose last
/// position is `last`.
pub open spec fn valid_swap_position(mode: SwapMode, pos: usize, last: usize, r: usize) -> bool {
    match mode {
        SwapMode::Adjacent => if pos == 0 {
            r == 1
        } else if pos == last {
            r == pos - 1
        } else {
            r == pos + 1 || r == pos - 1
        },
        SwapMode::Middle => if last <= 1 || (last == 2 && pos == 1) {
            r == pos
        } else {
            1 <= r < last && r != pos
        },
        SwapMode::Random => if last == 0 {
            r == pos
        } else {
            r <= last && r != pos
        },
    }
}

/// Choose where the character at `pos` goes: a neighbour (`Adjacent`), a
/// position other than the first and the last (`Middle`), or any position
/// (`Random`); itself if there is no such position.
pub fn get_swap_position(mode: SwapMode, pos: usize, token_length: usize, rng: &mut StdRng) -> (r: usize)
    requires
        pos <= token_length,
        mode == SwapMode::Adjacent ==> token_length >= 1,
    ensures
        valid_swap_position(mode, pos, token_length, r),
{
    match mode {
        SwapMode::Adjacent => {
            if pos == 0 {
                1
            } else if pos == token_length {
                pos - 1
            } else {
                match choose_index(rng, 2) {
                    Some(0) => pos + 1,
                    _ => pos - 1,
                }
            }
        },
        SwapMode::Middle => {
            let mut candidates: Vec<usize> = Vec::new();
            let mut x: usize = 1;
            while x < token_length
                invariant
                    1 <= x,
                    x <= token_length || token_length == 0,
                    forall|j: int| 0 <= j < candidates@.len() ==> 1 <= #[trigger] candidates@[j] < token_length
                        && candidates@[j] != pos,
                    (x >= 3 || (x == 2 && pos != 1)) ==> candidates@.len() >= 1,
                decreases token_length - x,
            {
                if x != pos {
                    candidates.push(x);
                }
                x += 1;
            }
            match choose_index(rng, candidates.len()) {
                Some(q) => candidates[q],
                None => pos,
            }
        },
        SwapMode::Random => {
            let mut candidates: Vec<usize> = Vec::new();
            let mut x: usize = 0;
            let mut done = false;
            while !done
                invariant
                    x <= token_length,
                    done ==> x == token_length,
                    forall|j: int| 0 <= j < candidates@.len() ==> #[trigger] candidates@[j] <= token_length
                        && candidates@[j] != pos,
                    (x + (if done {
                        1int
                    } else {
                        0int
                    }) >= 2 || (x + (if done {
                        1int
                    } else {
                        0int
                    }) == 1 && pos != 0)) ==> candidates@.len() >= 1,
                decreases token_length - x + (if done {
                    0int
                } else {
                    1int
                }),
            {
                if x != pos {
                    candidates.push(x);
                }
                if x == token_length {
                    done = true;
                } else {
                    x += 1;
                }
            }
            match choose_index(rng, candidates.len()) {
                Some(q) => candidates[q],
                None => pos,
            }
        },
    }
}

/// `s[0]` if `s` is one character, else `c`.
pub open spec fn single_or(s: Seq<char>, c: char) -> char {
    if s.len() == 1 {
        s[0]
    } else {
        c
    }
}

/// The characters that land at positions `a` and `b` when `x` (at `a`) and
/// `y` (at `b`) swap: case stays with the position when exactly one of two
/// letters is upper case. A letter whose case form is not a single
/// character moves as it is, so that a swap never changes the length.
pub open spec fn swapped_pair(x: char, y: char) -> (char, char) {
    if alphabetic(x) && alphabetic(y) {
        let xu = upper_char(x) == seq![x];
        let yu = upper_char(y) == seq![y];
        if xu && !yu {
            (single_or(upper_char(y), y), single_or(lower_char(x), x))
        } else if !xu && yu {
            (single_or(lower_char(y), y), single_or(upper_char(x), x))
        } else {
            (y, x)
        }
    } else {
        (y, x)
    }
}

/// The character itself if it is one character, else `c`.
fn single_char_of(s: String, c: char) -> (r: char)
    ensures
        r == single_or(s@, c),
{
    if s.as_str().unicode_len() == 1 {
        s.as_str().get_char(0)
    } else {
        c
    }
}

/// Swap the characters at two positions of a buffer, with the case rule.
pub fn swap_chars(buf: &mut Vec<char>, a: usize, b: usize)
    requires
        a < old(buf)@.len(),
        b < old(buf)@.len(),
        a != b,
    ensures
        final(buf)@ == old(buf)@.update(a as int, swapped_pair(old(buf)@[a as int], old(buf)@[b as int]).0).update(
            b as int,
            swapped_pair(old(buf)@[a as int], old(buf)@[b as int]).1,
        ),
{
    let x = buf[a];
    let y = buf[b];
    let (na, nb) = if is_alphabetic(x) && is_alphabetic(y) {
        let xu = crate::text::str_eq(char_to_upper(x).as_str(), char_string(x).as_str());
        let yu = crate::text::str_eq(char_to_upper(y).as_str(), char_string(y).as_str());
        if xu && !yu {
            (single_char_of(char_to_upper(y), y), single_char_of(char_to_lower(x), x))
        } else if !xu && yu {
            (single_char_of(char_to_lower(y), y), single_char_of(char_to_upper(x), x))
        } else {
            (y, x)
        }
    } else {
        (y, x)
    };
    buf.set(a, na);
    buf.set(b, nb);
}

/// The characters after swapping, in turn, the character at each `sel[j]`
/// with the one at `pos[j]` (by `swapped_pair`); a swap with itself does
/// nothing. Later swaps see earlier ones.
pub open spec fn swap_fold(buf: Seq<char>, sel: Seq<usize>, pos: Seq<usize>) -> Seq<char>
    decreases sel.len(),
{
    if sel.len() == 0 || pos.len() < sel.len() {
        buf
    } else {
        let prev = swap_fold(buf, sel.drop_last(), pos.take(sel.len() - 1));
        let a = sel.last();
        let b = pos[sel.len() - 1];
        if a != b && a < prev.len() && b < prev.len() {
            prev.update(a as int, swapped_pair(prev[a as int], prev[b as int]).0).update(
                b as int,
                swapped_pair(prev[a as int], prev[b as int]).1,
            )
        } else {
            prev
        }
    }
}

/// Whether `pos[j]` is a position the swap mode allows for `sel[j]`, for each `j`.
pub open spec fn valid_swap_positions(mode: SwapMode, sel: Seq<usize>, last: usize, pos: Seq<usize>) -> bool {
    &&& pos.len() == sel.len()
    &&& forall|j: int| 0 <= j < sel.len() ==> valid_swap_position(mode, sel[j], last, #[trigger] pos[j])
}

/// Whether at least one sampled character moves to another position.
pub open spec fn moved(sel: Seq<usize>, pos: Seq<usize>) -> bool {
    exists|j: int| 0 <= j < sel.len() && j < pos.len() && #[trigger] pos[j] != sel[j]
}

/// Whether every allowed position differs from the character's own: a
/// neighbour or any position when there are two or more, a middle position
/// when there are four or more.
pub open spec fn always_moves(mode: SwapMode, last: usize) -> bool {
    match mode {
        SwapMode::Adjacent => last >= 1,
        SwapMode::Random => last >= 1,
        SwapMode::Middle => last >= 3,
    }
}

/// What a character swap makes of a token: the swaps of a sample of its
/// known characters, at allowed positions, at least one of them with
/// another position.
pub open spec fn swap_of(sel: Seq<usize>, mode: SwapMode, orig: Seq<char>, new: Seq<char>) -> bool {
    exists|pos: Seq<usize>|
        valid_swap_positions(mode, sel, (orig.len() - 1) as usize, pos) && moved(sel, pos) && #[trigger] swap_fold(
            orig,
            sel,
            pos,
        ) == new
}

/// Swap the sampled characters of a token in turn, each with the position
/// that the swap mode gives; later swaps see earlier ones. The flag tells
/// whether any character moved.
pub fn swap_token(text: &str, sel: &Vec<usize>, mode: SwapMode, rng: &mut StdRng) -> (r: (String, bool))
    requires
        text@.len() >= 2,
        forall|j: int| 0 <= j < sel@.len() ==> #[trigger] sel@[j] < text@.len(),
    ensures
        exists|pos: Seq<usize>|
            valid_swap_positions(mode, sel@, (text@.len() - 1) as usize, pos) && (r.1 == moved(sel@, pos))
                && #[trigger] swap_fold(text@, sel@, pos) == r.0@,
        r.0@.len() == text@.len(),
        always_moves(mode, (text@.len() - 1) as usize) && sel@.len() > 0 ==> r.1,
{
    let mut buf = chars_of(text);
    let n = buf.len();
    let mut swapped = false;
    let ghost mut pos: Seq<usize> = Seq::empty();
    for j in 0..sel.len()
        invariant
            n == text@.len(),
            n >= 2,
            buf@.len() == n,
            forall|j: int| 0 <= j < sel@.len() ==> #[trigger] sel@[j] < text@.len(),
            valid_swap_positions(mode, sel@.take(j as int), (n - 1) as usize, pos),
            buf@ == swap_fold(text@, sel@.take(j as int), pos),
            swapped == moved(sel@.take(j as int), pos),
            always_moves(mode, (n - 1) as usize) && j > 0 ==> swapped,
    {
        let a = sel[j];
        let b = get_swap_position(mode, a, n - 1, rng);
        let ghost old_pos = pos;
        let ghost old_buf = buf@;
        proof {
            pos = pos.push(b);
            let st = sel@.take(j + 1);
            assert(st.drop_last() =~= sel@.take(j as int));
            assert(pos.take(j as int) =~= old_pos);
            assert(st.last() == a);
            assert(pos[j as int] == b);
            assert forall|k: int| 0 <= k < st.len() implies valid_swap_position(mode, st[k], (n - 1) as usize, #[trigger] pos[k]) by {
                if k < j {
                    assert(st[k] == sel@.take(j as int)[k]);
                    assert(pos[k] == old_pos[k]);
                }
            }
            swap_fold_len(text@, sel@.take(j as int), old_pos);
        }
        if b != a {
            swap_chars(&mut buf, a, b);
            swapped = true;
        }
        proof {
            let st = sel@.take(j + 1);
            if b != a {
                assert(st[j as int] == a && pos[j as int] == b);
                assert(moved(st, pos));
            } else {
                if moved(st, pos) {
                    let k = choose|k: int| 0 <= k < st.len() && k < pos.len() && #[trigger] pos[k] != st[k];
                    assert(k < j);
                    assert(old_pos[k] == pos[k] && sel@.take(j as int)[k] == st[k]);
                    assert(moved(sel@.take(j as int), old_pos));
                }
                if moved(sel@.take(j as int), old_pos) {
                    let k = choose|k: int| 0 <= k < j && k < old_pos.len() && #[trigger] old_pos[k] != sel@.take(j as int)[k];
                    assert(pos[k] == old_pos[k] && sel@.take(j as int)[k] == st[k]);
                }
            }
            if always_moves(mode, (n - 1) as usize) {
                assert(b != a);
            }
        }
    }
    let mut result = String::new();
    for i in 0..n
        invariant
            buf@.len() == n,
            result@ == buf@.take(i as int),
    {
        push_char(&mut result, buf[i]);
        assert(result@ =~= buf@.take(i + 1));
    }
    assert(buf@.take(n as int) =~= buf@);
    assert(sel@.take(sel@.len() as int) =~= sel@);
    (result, swapped)
}

/// Swapping keeps the number of characters.
pub proof fn swap_fold_len(buf: Seq<char>, sel: Seq<usize>, pos: Seq<usize>)
    ensures
        swap_fold(buf, sel, pos).len() == buf.len(),
    decreases sel.len(),
{
    if sel.len() > 0 && pos.len() >= sel.len() {
        swap_fold_len(buf, sel.drop_last(), pos.take(sel.len() - 1));
    }
}

/// What a character-level augmentation may make of a token's text: the
/// characters are a non-empty sample of those the model knows, of the size
/// the character count asks for; a swap exchanges them in turn at allowed
/// positions, at least one with another position; otherwise each sampled
/// character gets its pick where one can be made.
pub open spec fn char_change_ok<M: BaseModel>(
    model: &M,
    aug_params_char: AugCountParams,
    action: Action,
    mode: SwapMode,
    orig: Seq<char>,
    new: Seq<char>,
) -> bool {
    exists|sel: Seq<usize>|
        #[trigger] char_sample_ok(model, aug_params_char, orig, sel) && sel.len() > 0 && match action {
            Action::Swap => orig.len() >= 2 && swap_of(sel, mode, orig, new),
            _ => exists|picks: Seq<Option<Seq<char>>>|
                valid_picks(model, orig, picks, action) && picks_cover(model, orig, sel, picks, action)
                    && #[trigger] rewritten(orig, picks, action) == new,
        }
}

/// Number of `true` entries.
pub open spec fn count_true(s: Seq<bool>) -> nat
    decreases s.len(),
{
    if s.len() == 0 {
        0
    } else {
        count_true(s.drop_last()) + if s.last() {
            1nat
        } else {
            0nat
        }
    }
}

/// Whether a sampled token is certain to change: the model knows one of its
/// characters, the character count asks for at least one, and for a swap
/// every allowed position differs from the character's own.
pub open spec fn must_change<M: BaseModel>(
    model: &M,
    aug_params_char: AugCountParams,
    action: Action,
    mode: SwapMode,
    text: Seq<char>,
) -> bool {
    &&& select(upto(text.len()), known_char(model, text)).len() > 0
    &&& aug_params_char.count_spec(text.len()) > 0
    &&& action == Action::Swap ==> text.len() >= 2 && always_moves(mode, (text.len() - 1) as usize)
}

/// Whether handler `nh` is `oh` given a word replacement that
/// `char_change_ok` allows.
pub open spec fn is_char_change<M: BaseModel>(
    model: &M,
    aug_params_char: AugCountParams,
    action: Action,
    mode: SwapMode,
    oh: TokenHandler,
    nh: TokenHandler,
) -> bool {
    &&& nh.original() == oh.original()
    &&& nh.changed() is Some
    &&& nh.changed()->0.wf()
    &&& nh.changed()->0.kind_spec() == TokenType::WordToken
    &&& char_change_ok(model, aug_params_char, action, mode, oh.original().text(), nh.changed()->0.text())
}

/// Whether `new` is what a character-level augmentation leaves of `old` for
/// the sample `sample` of word tokens, where `hit[j]` tells whether the
/// token `sample[j]` got a replacement: a hit token is changed as
/// `is_char_change` allows, every other token is untouched, a token certain
/// to change is hit, and the count is the number of hits.
pub open spec fn char_augmented_by<M: BaseModel>(
    model: &M,
    sampling: &WordSampling,
    aug_params_char: AugCountParams,
    action: Action,
    mode: SwapMode,
    old: &Doc,
    new: &Doc,
    sample: Seq<usize>,
    hit: Seq<bool>,
) -> bool {
    &&& is_sample(
        sampling.filtered(model, old.handlers()),
        sampling.aug_params_word.count_spec(
            eligible_indexes(kinds_of(old.handlers()), sampling.use_special_chars).len(),
        ),
        sample,
    )
    &&& hit.len() == sample.len()
    &&& forall|j: int| 0 <= j < sample.len() ==> #[trigger] sample[j] < old.handlers().len()
    &&& new.changed_count_spec() == count_true(hit)
    &&& forall|j: int|
        0 <= j < sample.len() && #[trigger] hit[j] ==> is_char_change(
            model,
            aug_params_char,
            action,
            mode,
            old.handlers()[sample[j] as int],
            new.handlers()[sample[j] as int],
        )
    &&& forall|j: int|
        0 <= j < sample.len() && !(#[trigger] hit[j]) ==> new.handlers()[sample[j] as int]
            == old.handlers()[sample[j] as int]
    &&& forall|j: int|
        0 <= j < sample.len() && must_change(
            model,
            aug_params_char,
            action,
            mode,
            old.handlers()[sample[j] as int].original().text(),
        ) ==> #[trigger] hit[j]
    &&& forall|i: int|
        0 <= i < new.handlers().len() && !sample.contains(i as usize) ==> #[trigger] new.handlers()[i]
            == old.handlers()[i]
}

/// `char_augmented_by` for some sample and hits.
pub open spec fn char_augmented_exactly<M: BaseModel>(
    model: &M,
    sampling: &WordSampling,
    aug_params_char: AugCountParams,
    action: Action,
    mode: SwapMode,
    old: &Doc,
    new: &Doc,
) -> bool {
    &&& new.wf()
    &&& new.handlers().len() == old.handlers().len()
    &&& new.handlers().len() <= usize::MAX
    &&& exists|sample: Seq<usize>, hit: Seq<bool>|
        char_augmented_by(model, sampling, aug_params_char, action, mode, old, new, sample, hit)
}

/// Augment the text of one token; `None` where it stays as it is.
pub fn augment_token<M: BaseModel>(
    model: &M,
    aug_params_char: &AugCountParams,
    action: Action,
    mode: SwapMode,
    original: &Token,
    rng: &mut StdRng,
) -> (r: Option<String>)
    requires
        model.model_wf(),
        aug_params_char.wf(),
        original.wf(),
    ensures
        r matches Some(s) ==> char_change_ok(model, *aug_params_char, action, mode, original.text(), s@),
        action == Action::Swap && original.text().len() < 2 ==> r is None,
        must_change(model, *aug_params_char, action, mode, original.text()) ==> r is Some,
{
    if action == Action::Swap && original.utf8_len() < 2 {
        return None;
    }
    let sel = sample_chars_to_aug(model, aug_params_char, original, rng);
    if sel.len() == 0 {
        return None;
    }
    let text = original.token().as_str();
    assert(text@ == original.text());
    let ghost otext = original.text();
    proof {
        let cpool = select(upto(otext.len()), known_char(model, otext));
        crate::aug::lemma_select_satisfies(upto(otext.len()), known_char(model, otext));
        crate::aug::lemma_sample_from_pool(cpool, aug_params_char.count_spec(otext.len()), sel@);
        assert forall|j: int| 0 <= j < sel@.len() implies model.has_key(seq![text@[#[trigger] sel@[j] as int]]) by {
            let q = choose|q: int| 0 <= q < cpool.len() && cpool[q] == sel@[j];
            assert(known_char(model, otext)(cpool[q]));
        }
    }
    proof {
        crate::aug::lemma_sample_from_pool(
            select(upto(otext.len()), known_char(model, otext)),
            aug_params_char.count_spec(otext.len()),
            sel@,
        );
        crate::aug::lemma_select_satisfies(upto(otext.len()), known_char(model, otext));
        assert(char_sample_ok(model, *aug_params_char, otext, sel@));
    }
    match action {
        Action::Swap => {
            let (r, swapped) = swap_token(text, &sel, mode, rng);
            if swapped {
                proof {
                    let pos = choose|pos: Seq<usize>|
                        valid_swap_positions(mode, sel@, (text@.len() - 1) as usize, pos) && (swapped == moved(
                            sel@,
                            pos,
                        )) && #[trigger] swap_fold(text@, sel@, pos) == r@;
                    assert(swap_of(sel@, mode, otext, r@));
                }
                Some(r)
            } else {
                None
            }
        },
        Action::Delete => {
            let picks = pick_deletions(text, &sel);
            let result = rewrite_token(text, &picks, Action::Delete);
            proof {
                assert(valid_picks(model, otext, picks.deep_view(), Action::Delete)) by {
                    assert forall|i: int| 0 <= i < picks.deep_view().len() && (#[trigger] picks.deep_view()[i]) is Some implies model.has_key(
                        seq![otext[i]],
                    ) by {
                        assert(picks.deep_view().len() == picks@.len());
                        assert(i < text@.len() <= usize::MAX);
                        assert(sel@.contains(i as usize));
                        let q = choose|q: int| 0 <= q < sel@.len() && sel@[q] == i as usize;
                        assert(sel@[q] as int == i);
                        assert(model.has_key(seq![text@[sel@[q] as int]]));
                    }
                }
                assert(picks_cover(model, otext, sel@, picks.deep_view(), Action::Delete));
                assert(rewritten(otext, picks.deep_view(), action) == result@);
            }
            Some(result)
        },
        _ => {
            let picks = pick_candidates(model, text, &sel, rng);
            let result = rewrite_token(text, &picks, action);
            proof {
                assert(valid_picks(model, otext, picks.deep_view(), action));
                assert(picks_cover(model, otext, sel@, picks.deep_view(), action));
                assert(rewritten(otext, picks.deep_view(), action) == result@);
            }
            Some(result)
        },
    }
}

/// Augment a document at the character level: sample word tokens, sample
/// characters in each, and substitute, insert before, delete or swap them.
/// A token where no character is sampled, or where no swap happens, is left
/// as it is and not counted.
pub fn augment_chars<M: BaseModel>(
    doc: &mut Doc,
    model: &M,
    sampling: &WordSampling,
    aug_params_char: &AugCountParams,
    action: Action,
    mode: SwapMode,
    rng: &mut StdRng,
)
    requires
        old(doc).wf(),
        model.model_wf(),
        sampling.aug_params_word.wf(),
        aug_params_char.wf(),
    ensures
        char_augmented_exactly(model, sampling, *aug_params_char, action, mode, old(doc), final(doc)),
{
    let ghost old_doc = *doc;
    let sampled = sampling.sample_word_tokens_to_aug(doc, model, rng);
    let mut idxs: Vec<usize> = Vec::new();
    for j in 0..sampled.len()
        invariant
            idxs@.len() == j,
            forall|q: int| 0 <= q < j ==> #[trigger] idxs@[q] == sampled@[q].0,
    {
        idxs.push(sampled[j].0);
    }
    assert(idxs@ =~= sampled@.map_values(|p: (usize, &crate::token::TokenHandler)| p.0));
    let _len = doc.len();
    let ghost sample = idxs@;
    let ghost pool = sampling.filtered(model, old_doc.handlers());
    proof {
        crate::aug::lemma_sample_from_pool(pool, sampling.aug_params_word.count_spec(
            eligible_indexes(kinds_of(old_doc.handlers()), sampling.use_special_chars).len(),
        ), sample);
        assert forall|j: int| 0 <= j < sample.len() implies #[trigger] sample[j] < old_doc.handlers().len() by {
            assert(sampled@[j].0 == sample[j]);
        }
        if pool.len() > 0 && sampling.aug_params_word.count_spec(
            eligible_indexes(kinds_of(old_doc.handlers()), sampling.use_special_chars).len(),
        ) >= pool.len() {
            crate::aug::lemma_eligible_no_duplicates(kinds_of(old_doc.handlers()), sampling.use_special_chars);
            crate::aug::lemma_select_no_duplicates(
                eligible_indexes(kinds_of(old_doc.handlers()), sampling.use_special_chars),
                sampling.pred(model, old_doc.handlers()),
            );
        }
    }
    let mut change_seq: usize = 0;
    let n = idxs.len();
    let ghost mut hit: Seq<bool> = Seq::empty();
    for t in 0..n
        invariant
            hit.len() == t,
            change_seq == count_true(hit),
            forall|j: int|
                0 <= j < t && #[trigger] hit[j] ==> is_char_change(
                    model,
                    *aug_params_char,
                    action,
                    mode,
                    old_doc.handlers()[sample[j] as int],
                    doc.handlers()[sample[j] as int],
                ),
            forall|j: int|
                0 <= j < t && !(#[trigger] hit[j]) ==> doc.handlers()[sample[j] as int]
                    == old_doc.handlers()[sample[j] as int],
            forall|j: int|
                0 <= j < t && must_change(
                    model,
                    *aug_params_char,
                    action,
                    mode,
                    old_doc.handlers()[sample[j] as int].original().text(),
                ) ==> #[trigger] hit[j],
            n == sample.len(),
            idxs@ == sample,
            sample.no_duplicates(),
            forall|j: int| 0 <= j < sample.len() ==> #[trigger] sample[j] < old_doc.handlers().len(),
            model.model_wf(),
            aug_params_char.wf(),
            doc.wf(),
            doc.handlers().len() == old_doc.handlers().len(),
            change_seq <= t,
            forall|i: int|
                0 <= i < doc.handlers().len() && !sample.take(t as int).contains(i as usize) ==> #[trigger] doc.handlers()[i]
                    == old_doc.handlers()[i],
    {
        let idx = idxs[t];
        proof {
            assert(sample[t as int] == idx);
            assert(!sample.take(t as int).contains(idx)) by {
                if sample.take(t as int).contains(idx) {
                    let q = choose|q: int| 0 <= q < t && #[trigger] sample.take(t as int)[q] == idx;
                    assert(sample[q] == sample[t as int]);
                }
            }
            assert forall|i: int| 0 <= i < doc.handlers().len() && #[trigger] sample.take(t as int).contains(i as usize) implies sample.take(t + 1).contains(i as usize) by {
                let q = choose|q: int| 0 <= q < t && #[trigger] sample.take(t as int)[q] == i as usize;
                assert(sample.take(t + 1)[q] == i as usize);
            }
            assert(sample.take(t + 1)[t as int] == idx);
            assert forall|i: int| 0 <= i < doc.handlers().len() && !#[trigger] sample.take(t + 1).contains(i as usize) implies !sample.take(t as int).contains(i as usize) by {
                if sample.take(t as int).contains(i as usize) {
                    let q = choose|q: int| 0 <= q < t && #[trigger] sample.take(t as int)[q] == i as usize;
                    assert(sample.take(t + 1)[q] == i as usize);
                }
            }
        }
        let original = doc.handler(idx).get_original().copy();
        assert(doc.handlers()[idx as int] == old_doc.handlers()[idx as int]);
        assert(doc.handlers()[idx as int].wf());
        let ghost old_hit = hit;
        let ghost before_all = doc.handlers();
        proof {
            assert forall|j: int| 0 <= j < t implies sample[j] != idx by {
                assert(sample.take(t as int)[j] == sample[j]);
            }
        }
        if let Some(result) = augment_token(model, aug_params_char, action, mode, &original, rng) {
            let ghost before = doc.handlers();
            doc.change_token(idx, TokenType::WordToken, result);
            proof {
                assert(count_true(old_hit) <= t) by {
                    lemma_count_true_le(old_hit);
                }
                hit = old_hit.push(true);
                assert(hit.drop_last() =~= old_hit);
            }
            change_seq += 1;
            proof {
                assert forall|i: int| 0 <= i < doc.handlers().len() implies #[trigger] doc.handlers()[i].wf() by {
                    if i != idx {
                        assert(doc.handlers()[i] == before[i]);
                    }
                }
                assert(doc.handlers()[idx as int].original() == old_doc.handlers()[idx as int].original());
                assert(original.text() == old_doc.handlers()[idx as int].original().text());
                assert forall|j: int| 0 <= j < t + 1 && #[trigger] hit[j] implies is_char_change(
                    model,
                    *aug_params_char,
                    action,
                    mode,
                    old_doc.handlers()[sample[j] as int],
                    doc.handlers()[sample[j] as int],
                ) by {
                    if j < t {
                        assert(old_hit[j]);
                        assert(doc.handlers()[sample[j] as int] == before[sample[j] as int]);
                    }
                }
                assert forall|j: int| 0 <= j < t + 1 && !(#[trigger] hit[j]) implies doc.handlers()[sample[j] as int]
                    == old_doc.handlers()[sample[j] as int] by {
                    assert(j < t);
                    assert(!old_hit[j]);
                    assert(doc.handlers()[sample[j] as int] == before[sample[j] as int]);
                }
                assert forall|j: int| 0 <= j < t + 1 && must_change(
                    model,
                    *aug_params_char,
                    action,
                    mode,
                    old_doc.handlers()[sample[j] as int].original().text(),
                ) implies #[trigger] hit[j] by {
                    if j < t {
                        assert(old_hit[j]);
                    }
                }
            }
        } else {
            proof {
                hit = old_hit.push(false);
                assert(hit.drop_last() =~= old_hit);
                assert(!must_change(model, *aug_params_char, action, mode, original.text()));
                assert forall|j: int| 0 <= j < t + 1 && #[trigger] hit[j] implies is_char_change(
                    model,
                    *aug_params_char,
                    action,
                    mode,
                    old_doc.handlers()[sample[j] as int],
                    doc.handlers()[sample[j] as int],
                ) by {
                    assert(old_hit[j]);
                }
                assert forall|j: int| 0 <= j < t + 1 && !(#[trigger] hit[j]) implies doc.handlers()[sample[j] as int]
                    == old_doc.handlers()[sample[j] as int] by {
                    if j < t {
                        assert(!old_hit[j]);
                    }
                }
                assert forall|j: int| 0 <= j < t + 1 && must_change(
                    model,
                    *aug_params_char,
                    action,
                    mode,
                    old_doc.handlers()[sample[j] as int].original().text(),
                ) implies #[trigger] hit[j] by {
                    if j < t {
                        assert(old_hit[j]);
                    }
                }
            }
        }
    }
    doc.set_change_count(change_seq);
    proof {
        assert(sample.take(n as int) =~= sample);
        assert(char_augmented_by(model, sampling, *aug_params_char, action, mode, &old_doc, doc, sample, hit));
    }
}

/// The number of `true` entries is at most the length.
pub proof fn lemma_count_true_le(s: Seq<bool>)
    ensures
        count_true(s) <= s.len(),
    decreases s.len(),
{
    if s.len() > 0 {
        lemma_count_true_le(s.drop_last());
    }
}

/// Word-level selection for a character augmentor.
fn char_sampling(
    aug_params_word: AugCountParams,
    min_chars: Option<usize>,
    stopwords: Option<Vec<String>>,
    use_special_chars: bool,
) -> (r: WordSampling)
    ensures
        r.aug_params_word == aug_params_word,
        r.min_chars == min_chars,
        r.stopwords == stopwords,
        !r.use_model,
        r.use_special_chars == use_special_chars,
{
    WordSampling { aug_params_word, min_chars, stopwords, use_model: false, use_special_chars }
}

/// Augmentor that swaps characters for visually similar ones.
pub struct OcrAugmentor {
    /// Fixes how many characters of a word to augment.
    aug_params_char: AugCountParams,
    /// Which words, and how many.
    sampling: WordSampling,
    model: Arc<OcrModel>,
}

impl OcrAugmentor {
    /// Fixes how many characters of a word to augment.
    pub fn aug_params_char(&self) -> (r: &AugCountParams)
        ensures
            *r == self.params_char(),
    {
        &self.aug_params_char
    }

    pub open spec fn wf(&self) -> bool {
        &&& self.model_spec().model_wf()
        &&& self.params_char().wf()
        &&& self.sampling_spec().aug_params_word.wf()
    }

    pub closed spec fn model_spec(&self) -> OcrModel {
        *self.model
    }

    pub closed spec fn params_char(&self) -> AugCountParams {
        self.aug_params_char
    }

    pub closed spec fn sampling_spec(&self) -> WordSampling {
        self.sampling
    }

    pub fn new(
        aug_params_char: AugCountParams,
        aug_params_word: AugCountParams,
        min_chars: Option<usize>,
        model: Arc<OcrModel>,
        stopwords: Option<Vec<String>>,
    ) -> (r: Self)
        ensures
            r.model_spec() == *model,
            r.params_char() == aug_params_char,
            r.sampling_spec().aug_params_word == aug_params_word,
            r.sampling_spec().min_chars == min_chars,
            r.sampling_spec().stopwords == stopwords,
            !r.sampling_spec().use_model,
            !r.sampling_spec().use_special_chars,
    {
        OcrAugmentor { aug_params_char, sampling: char_sampling(aug_params_word, min_chars, stopwords, false), model }
    }

    /// Substitute sampled characters of sampled words.
    pub fn substitute(&self, doc: &mut Doc, rng: &mut StdRng)
        requires
            self.wf(),
            old(doc).wf(),
        ensures
            char_augmented_exactly(
                &self.model_spec(),
                &self.sampling_spec(),
                self.params_char(),
                Action::Substitute,
                SwapMode::Adjacent,
                old(doc),
                final(doc),
            ),
    {
        augment_chars(doc, &*self.model, &self.sampling, &self.aug_params_char, Action::Substitute, SwapMode::Adjacent, rng)
    }

    pub fn augment(&self, doc: &mut Doc, rng: &mut StdRng)
        requires
            self.wf(),
            old(doc).wf(),
        ensures
            char_augmented_exactly(
                &self.model_spec(),
                &self.sampling_spec(),
                self.params_char(),
                Action::Substitute,
                SwapMode::Adjacent,
                old(doc),
                final(doc),
            ),
    {
        self.substitute(doc, rng)
    }

    pub fn get_action(&self) -> (r: Action)
        ensures
            r == Action::Substitute,
    {
        Action::Substitute
    }
}

/// Augmentor that swaps characters for ones close on a keyboard.
pub struct KeyboardAugmentor {
    /// Fixes how many characters of a word to augment.
    aug_params_char: AugCountParams,
    /// Which words, and how many.
    sampling: WordSampling,
    model: Arc<KeyboardModel>,
}

impl KeyboardAugmentor {
    /// Fixes how many characters of a word to augment.
    pub fn aug_params_char(&self) -> (r: &AugCountParams)
        ensures
            *r == self.params_char(),
    {
        &self.aug_params_char
    }

    pub open spec fn wf(&self) -> bool {
        &&& self.model_spec().model_wf()
        &&& self.params_char().wf()
        &&& self.sampling_spec().aug_params_word.wf()
    }

    pub closed spec fn model_spec(&self) -> KeyboardModel {
        *self.model
    }

    pub closed spec fn params_char(&self) -> AugCountParams {
        self.aug_params_char
    }

    pub closed spec fn sampling_spec(&self) -> WordSampling {
        self.sampling
    }

    /// Symbol tokens take part when the model allows special characters.
    pub fn new(
        aug_params_char: AugCountParams,
        aug_params_word: AugCountParams,
        min_chars: Option<usize>,
        model: Arc<KeyboardModel>,
        stopwords: Option<Vec<String>>,
    ) -> (r: Self)
        ensures
            r.model_spec() == *model,
            r.params_char() == aug_params_char,
            r.sampling_spec().aug_params_word == aug_params_word,
            r.sampling_spec().min_chars == min_chars,
            r.sampling_spec().stopwords == stopwords,
            !r.sampling_spec().use_model,
            r.sampling_spec().use_special_chars == (*model).flags().0,
    {
        let use_special_chars = model.get_allow_special_char();
        KeyboardAugmentor {
            aug_params_char,
            sampling: char_sampling(aug_params_word, min_chars, stopwords, use_special_chars),
            model,
        }
    }

    /// Substitute sampled characters of sampled words.
    pub fn substitute(&self, doc: &mut Doc, rng: &mut StdRng)
        requires
            self.wf(),
            old(doc).wf(),
        ensures
            char_augmented_exactly(
                &self.model_spec(),
                &self.sampling_spec(),
                self.params_char(),
                Action::Substitute,
                SwapMode::Adjacent,
                old(doc),
                final(doc),
            ),
    {
        augment_chars(doc, &*self.model, &self.sampling, &self.aug_params_char, Action::Substitute, SwapMode::Adjacent, rng)
    }

    pub fn augment(&self, doc: &mut Doc, rng: &mut StdRng)
        requires
            self.wf(),
            old(doc).wf(),
        ensures
            char_augmented_exactly(
                &self.model_spec(),
                &self.sampling_spec(),
                self.params_char(),
                Action::Substitute,
                SwapMode::Adjacent,
                old(doc),
                final(doc),
            ),
    {
        self.substitute(doc, rng)
    }

    pub fn get_action(&self) -> (r: Action)
        ensures
            r == Action::Substitute,
    {
        Action::Substitute
    }
}

/// Augmentor that inserts, substitutes, deletes or swaps random characters.
pub struct RandomCharAugmentor {
    action: Action,
    /// Fixes how many characters of a word to augment.
    aug_params_char: AugCountParams,
    /// Which words, and how many.
    sampling: WordSampling,
    model: Arc<RandomCharModel>,
    swapmode: SwapMode,
}

impl RandomCharAugmentor {
    /// Fixes how many characters of a word to augment.
    pub fn aug_params_char(&self) -> (r: &AugCountParams)
        ensures
            *r == self.params_char(),
    {
        &self.aug_params_char
    }

    pub open spec fn wf(&self) -> bool {
        &&& self.model_spec().model_wf()
        &&& self.params_char().wf()
        &&& self.sampling_spec().aug_params_word.wf()
    }

    pub closed spec fn model_spec(&self) -> RandomCharModel {
        *self.model
    }

    pub closed spec fn params_char(&self) -> AugCountParams {
        self.aug_params_char
    }

    pub closed spec fn sampling_spec(&self) -> WordSampling {
        self.sampling
    }

    pub closed spec fn action_spec(&self) -> Action {
        self.action
    }

    pub closed spec fn mode_spec(&self) -> SwapMode {
        self.swapmode
    }

    pub fn new(
        action: Action,
        aug_params_char: AugCountParams,
        aug_params_word: AugCountParams,
        min_chars: Option<usize>,
        model: Arc<RandomCharModel>,
        stopwords: Option<Vec<String>>,
        swapmode: String,
    ) -> (r: Self)
        ensures
            r.action_spec() == action,
            r.model_spec() == *model,
            r.params_char() == aug_params_char,
            r.sampling_spec().aug_params_word == aug_params_word,
            r.sampling_spec().min_chars == min_chars,
            r.sampling_spec().stopwords == stopwords,
            !r.sampling_spec().use_model,
            !r.sampling_spec().use_special_chars,
            r.mode_spec() == swap_mode_of(swapmode@),
    {
        let swapmode = parse_swap_mode(swapmode.as_str());
        RandomCharAugmentor {
            action,
            aug_params_char,
            sampling: char_sampling(aug_params_word, min_chars, stopwords, false),
            model,
            swapmode,
        }
    }

    /// Where the character at `pos` swaps to, by this augmentor's swap mode.
    pub fn get_swap_position(&self, pos: usize, token_length: usize, rng: &mut StdRng) -> (r: usize)
        requires
            pos <= token_length,
            self.mode_spec() == SwapMode::Adjacent ==> token_length >= 1,
        ensures
            valid_swap_position(self.mode_spec(), pos, token_length, r),
    {
        get_swap_position(self.swapmode, pos, token_length, rng)
    }

    /// Apply this augmentor's action.
    pub fn augment(&self, doc: &mut Doc, rng: &mut StdRng)
        requires
            self.wf(),
            old(doc).wf(),
        ensures
            char_augmented_exactly(
                &self.model_spec(),
                &self.sampling_spec(),
                self.params_char(),
                self.action_spec(),
                self.mode_spec(),
                old(doc),
                final(doc),
            ),
    {
        augment_chars(doc, &*self.model, &self.sampling, &self.aug_params_char, self.action, self.swapmode, rng)
    }

    pub fn get_action(&self) -> (r: Action)
        ensures
            r == self.action_spec(),
    {
        self.action
    }
}

} // verus!
