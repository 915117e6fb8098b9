//! The document model: a string split into tracked tokens.
use crate::text::{alnum, chars_of, is_alnum, is_space, push_char, whitespace};
use crate::token::{Token, TokenHandler, TokenType};
use std::sync::Arc;
use vstd::prelude::*;
use vstd::string::*;

verus! {

/// Kind given to a single character that is not alphanumeric.
pub open spec fn char_kind(c: char) -> TokenType {
    if whitespace(c) {
        TokenType::SpaceToken
    } else {
        TokenType::SpecSymbolToken
    }
}

/// Tokens of a text: each maximal run of alphanumeric characters is one word
/// token, every other character is a token of its own.
pub open spec fn tokenize_spec(s: Seq<char>) -> Seq<(TokenType, Seq<char>)>
    decreases s.len(),
{
    if s.len() == 0 {
        Seq::empty()
    } else {
        let prev = tokenize_spec(s.drop_last());
        let c = s.last();
        if alnum(c) {
            if prev.len() > 0 && prev.last().0 == TokenType::WordToken {
                prev.drop_last().push((TokenType::WordToken, prev.last().1.push(c)))
            } else {
                prev.push((TokenType::WordToken, seq![c]))
            }
        } else {
            prev.push((char_kind(c), seq![c]))
        }
    }
}

/// Concatenation of pieces of text, in order.
pub open spec fn join(ss: Seq<Seq<char>>) -> Seq<char>
    decreases ss.len(),
{
    if ss.len() == 0 {
        Seq::empty()
    } else {
        join(ss.drop_last()) + ss.last()
    }
}

/// The texts of abstract tokens.
pub open spec fn token_texts(ts: Seq<(TokenType, Seq<char>)>) -> Seq<Seq<char>> {
    ts.map_values(|t: (TokenType, Seq<char>)| t.1)
}

/// Kind and text of each handler's original token.
pub open spec fn originals(hs: Seq<TokenHandler>) -> Seq<(TokenType, Seq<char>)> {
    hs.map_values(|h: TokenHandler| (h.original().kind_spec(), h.original().text()))
}

/// Text of each handler's latest token.
pub open spec fn latest_texts(hs: Seq<TokenHandler>) -> Seq<Seq<char>> {
    hs.map_values(|h: TokenHandler| h.latest().text())
}

/// Whether a token of this kind takes part in word-level sampling.
pub open spec fn eligible(kind: TokenType, include_special_char: bool) -> bool {
    kind == TokenType::WordToken || (kind == TokenType::SpecSymbolToken && include_special_char)
}

/// Whether a token of this kind takes part in word-level sampling.
pub fn eligible_kind(kind: TokenType, include_special_char: bool) -> (r: bool)
    ensures
        r == eligible(kind, include_special_char),
{
    match (kind, include_special_char) {
        (TokenType::WordToken, _) => true,
        (TokenType::SpecSymbolToken, true) => true,
        (_, _) => false,
    }
}

/// Positions of the eligible kinds, in order.
pub open spec fn eligible_indexes(kinds: Seq<TokenType>, include_special_char: bool) -> Seq<usize>
    decreases kinds.len(),
{
    if kinds.len() == 0 {
        Seq::empty()
    } else {
        let prev = eligible_indexes(kinds.drop_last(), include_special_char);
        if eligible(kinds.last(), include_special_char) {
            prev.push((kinds.len() - 1) as usize)
        } else {
            prev
        }
    }
}

/// Original kind of each handler.
pub open spec fn kinds_of(hs: Seq<TokenHandler>) -> Seq<TokenType> {
    hs.map_values(|h: TokenHandler| h.original().kind_spec())
}

/// Appending a piece appends its text.
pub proof fn lemma_join_push(ss: Seq<Seq<char>>, x: Seq<char>)
    ensures
        join(ss.push(x)) == join(ss) + x,
{
    assert(ss.push(x).drop_last() =~= ss);
}

/// Concatenating the tokens of a text gives the text back.
pub proof fn lemma_round_trip(s: Seq<char>)
    ensures
        join(token_texts(tokenize_spec(s))) == s,
    decreases s.len(),
{
    if s.len() > 0 {
        let prev = tokenize_spec(s.drop_last());
        let c = s.last();
        lemma_round_trip(s.drop_last());
        assert(s =~= s.drop_last().push(c));
        if alnum(c) && prev.len() > 0 && prev.last().0 == TokenType::WordToken {
            let w = prev.last().1;
            assert(token_texts(prev) =~= token_texts(prev.drop_last()).push(w));
            assert(token_texts(prev.drop_last().push((TokenType::WordToken, w.push(c))))
                =~= token_texts(prev.drop_last()).push(w.push(c)));
            lemma_join_push(token_texts(prev.drop_last()), w);
            lemma_join_push(token_texts(prev.drop_last()), w.push(c));
            assert(join(token_texts(prev.drop_last())) + w.push(c) =~= join(
                token_texts(prev.drop_last()),
            ) + w + seq![c]);
        } else {
            let t = if alnum(c) {
                (TokenType::WordToken, seq![c])
            } else {
                (char_kind(c), seq![c])
            };
            assert(tokenize_spec(s) == prev.push(t));
            assert(token_texts(prev.push(t)) =~= token_texts(prev).push(seq![c]));
            lemma_join_push(token_texts(prev), seq![c]);
        }
    }
}

/// The main structure: every token of a text with its replacement, if any.
pub struct Doc {
    tokens: Vec<TokenHandler>,
    changed_count: usize,
}

impl Doc {
    pub closed spec fn handlers(&self) -> Seq<TokenHandler> {
        self.tokens@
    }

    pub closed spec fn changed_count_spec(&self) -> usize {
        self.changed_count
    }

    pub open spec fn wf(&self) -> bool {
        forall|i: int| 0 <= i < self.handlers().len() ==> #[trigger] self.handlers()[i].wf()
    }

    /// The text that the latest tokens make up.
    pub open spec fn augmented(&self) -> Seq<char> {
        join(latest_texts(self.handlers()))
    }

    /// The text that the original tokens make up.
    pub open spec fn original_text(&self) -> Seq<char> {
        join(token_texts(originals(self.handlers())))
    }

    pub fn new(input: &String) -> (r: Self)
        ensures
            r.wf(),
            originals(r.handlers()) == tokenize_spec(input@),
            forall|i: int| 0 <= i < r.handlers().len() ==> (#[trigger] r.handlers()[i]).changed() is None,
            r.original_text() == input@,
            r.changed_count_spec() == 0,
    {
        let tokens = Doc::tokenize(input);
        proof {
            lemma_round_trip(input@);
        }
        Doc { tokens, changed_count: 0 }
    }

    pub fn from_arc(input: Arc<String>) -> (r: Self)
        ensures
            r.wf(),
            originals(r.handlers()) == tokenize_spec((*input)@),
            forall|i: int| 0 <= i < r.handlers().len() ==> (#[trigger] r.handlers()[i]).changed() is None,
            r.original_text() == (*input)@,
            r.changed_count_spec() == 0,
    {
        Doc::new(&*input)
    }

    /// A document made of the given handlers.
    pub fn from_handlers(handlers: Vec<TokenHandler>) -> (r: Self)
        ensures
            r.handlers() == handlers@,
            r.changed_count_spec() == 0,
    {
        Doc { tokens: handlers, changed_count: 0 }
    }

    /// Split a text into word, space and symbol tokens.
    pub fn tokenize(text: &String) -> (res: Vec<TokenHandler>)
        ensures
            originals(res@) == tokenize_spec(text@),
            forall|i: int| 0 <= i < res@.len() ==> (#[trigger] res@[i]).wf() && res@[i].changed() is None,
    {
        let chars = chars_of(text.as_str());
        let mut res: Vec<TokenHandler> = Vec::new();
        let mut word = String::new();
        let mut in_word = false;
        for i in 0..chars.len()
            invariant
                chars@ == text@,
                in_word == (word@.len() > 0),
                forall|j: int| 0 <= j < res@.len() ==> (#[trigger] res@[j]).wf() && res@[j].changed() is None,
                res@.len() > 0 ==> res@.last().original().kind_spec() != TokenType::WordToken,
                word@.len() > 0 ==> tokenize_spec(text@.take(i as int)) == originals(res@).push(
                    (TokenType::WordToken, word@),
                ),
                word@.len() == 0 ==> tokenize_spec(text@.take(i as int)) == originals(res@),
        {
            let c = chars[i];
            let ghost prefix = text@.take(i as int);
            proof {
                assert(text@.take(i + 1).drop_last() =~= prefix);
                assert(text@.take(i + 1).last() == c);
                if res@.len() > 0 {
                    assert(originals(res@).last() == (
                        res@.last().original().kind_spec(),
                        res@.last().original().text(),
                    ));
                }
            }
            if is_alnum(c) {
                let ghost old_word = word@;
                push_char(&mut word, c);
                proof {
                    let prev = tokenize_spec(prefix);
                    if old_word.len() > 0 {
                        assert(prev.last().0 == TokenType::WordToken);
                        assert(prev.drop_last() =~= originals(res@));
                    } else {
                        assert(word@ =~= seq![c]);
                    }
                }
                in_word = true;
            } else {
                if in_word {
                    let w = word;
                    word = String::new();
                    in_word = false;
                    let ghost before = res@;
                    res.push(TokenHandler::new(TokenType::WordToken, w));
                    assert(originals(res@) =~= originals(before).push(
                        (TokenType::WordToken, w@),
                    ));
                }
                let kind = if is_space(c) {
                    TokenType::SpaceToken
                } else {
                    TokenType::SpecSymbolToken
                };
                let mut one = String::new();
                push_char(&mut one, c);
                let ghost before = res@;
                res.push(TokenHandler::new(kind, one));
                assert(one@ =~= seq![c]);
                assert(originals(res@) =~= originals(before).push((kind, seq![c])));
            }
        }
        if in_word {
            let ghost before = res@;
            res.push(TokenHandler::new(TokenType::WordToken, word));
            assert(originals(res@) =~= originals(before).push((TokenType::WordToken, word@)));
        }
        assert(text@.take(chars.len() as int) =~= text@);
        res
    }

    /// Word tokens (and symbol tokens, if asked) with their positions.
    pub fn get_word_tokens_with_indexes(&self, include_special_char: bool) -> (r: Vec<
        (usize, &TokenHandler),
    >)
        ensures
            r@.len() == eligible_indexes(kinds_of(self.handlers()), include_special_char).len(),
            forall|j: int|
                0 <= j < r@.len() ==> (#[trigger] r@[j]).0 == eligible_indexes(
                    kinds_of(self.handlers()),
                    include_special_char,
                )[j] && *r@[j].1 == self.handlers()[r@[j].0 as int],
    {
        let mut word_tokens: Vec<(usize, &TokenHandler)> = Vec::new();
        for idx in 0..self.tokens.len()
            invariant
                word_tokens@.len() == eligible_indexes(
                    kinds_of(self.handlers()).take(idx as int),
                    include_special_char,
                ).len(),
                forall|j: int|
                    0 <= j < word_tokens@.len() ==> (#[trigger] word_tokens@[j]).0
                        == eligible_indexes(
                        kinds_of(self.handlers()).take(idx as int),
                        include_special_char,
                    )[j] && *word_tokens@[j].1 == self.handlers()[word_tokens@[j].0 as int],
        {
            let token = &self.tokens[idx];
            let ghost kinds = kinds_of(self.handlers());
            proof {
                assert(kinds.take(idx + 1).drop_last() =~= kinds.take(idx as int));
            }
            let kind = *token.get_original().kind();
            let keep = match (kind, include_special_char) {
                (TokenType::WordToken, _) => true,
                (TokenType::SpecSymbolToken, true) => true,
                (_, _) => false,
            };
            if keep {
                word_tokens.push((idx, token));
            }
        }
        proof {
            assert(kinds_of(self.handlers()).take(self.tokens.len() as int) =~= kinds_of(
                self.handlers(),
            ));
        }
        word_tokens
    }

    /// Positions of the word tokens (and symbol tokens, if asked).
    pub fn get_word_indexes(&self, include_special_char: bool) -> (r: Vec<usize>)
        ensures
            r@ == eligible_indexes(kinds_of(self.handlers()), include_special_char),
    {
        let mut r: Vec<usize> = Vec::new();
        for idx in 0..self.tokens.len()
            invariant
                r@ == eligible_indexes(
                    kinds_of(self.handlers()).take(idx as int),
                    include_special_char,
                ),
        {
            let ghost kinds = kinds_of(self.handlers());
            proof {
                assert(kinds.take(idx + 1).drop_last() =~= kinds.take(idx as int));
            }
            let kind = *self.tokens[idx].get_original().kind();
            if eligible_kind(kind, include_special_char) {
                r.push(idx);
            }
        }
        proof {
            assert(kinds_of(self.handlers()).take(self.tokens.len() as int) =~= kinds_of(
                self.handlers(),
            ));
        }
        r
    }

    /// Exchange the tokens at two positions; nothing happens if either is out of range.
    pub fn perform_swap_by_idx(&mut self, idx_a: usize, idx_b: usize)
        ensures
            final(self).changed_count_spec() == old(self).changed_count_spec(),
            (idx_a < old(self).handlers().len() && idx_b < old(self).handlers().len())
                ==> final(self).handlers() == old(self).handlers().update(
                idx_a as int,
                old(self).handlers()[idx_b as int],
            ).update(idx_b as int, old(self).handlers()[idx_a as int]),
            !(idx_a < old(self).handlers().len() && idx_b < old(self).handlers().len())
                ==> final(self).handlers() == old(self).handlers(),
    {
        let tokens_len = self.tokens.len();
        if idx_a < tokens_len && idx_b < tokens_len && idx_a != idx_b {
            let (lo, hi) = if idx_a < idx_b {
                (idx_a, idx_b)
            } else {
                (idx_b, idx_a)
            };
            let ghost before = self.tokens@;
            let x = self.tokens.remove(hi);
            let y = self.tokens.remove(lo);
            self.tokens.insert(lo, x);
            self.tokens.insert(hi, y);
            assert(self.tokens@ =~= before.update(idx_a as int, before[idx_b as int]).update(
                idx_b as int,
                before[idx_a as int],
            ));
        } else if idx_a < tokens_len && idx_b < tokens_len {
            assert(self.tokens@ =~= self.tokens@.update(idx_a as int, self.tokens@[idx_b as int]).update(
                idx_b as int,
                self.tokens@[idx_a as int],
            ));
        }
    }

    /// Number of word tokens (and symbol tokens, if asked).
    pub fn get_word_tokens_count(&self, include_special_char: bool) -> (r: usize)
        ensures
            r == eligible_indexes(kinds_of(self.handlers()), include_special_char).len(),
    {
        let mut count: usize = 0;
        for idx in 0..self.tokens.len()
            invariant
                count == eligible_indexes(
                    kinds_of(self.handlers()).take(idx as int),
                    include_special_char,
                ).len(),
                count <= idx,
        {
            let ghost kinds = kinds_of(self.handlers());
            proof {
                assert(kinds.take(idx + 1).drop_last() =~= kinds.take(idx as int));
            }
            let kind = *self.tokens[idx].get_original().kind();
            if eligible_kind(kind, include_special_char) {
                count += 1;
            }
        }
        proof {
            assert(kinds_of(self.handlers()).take(self.tokens.len() as int) =~= kinds_of(
                self.handlers(),
            ));
        }
        count
    }

    /// The original tokens, before any change.
    pub fn get_original_tokens(&self) -> (r: Vec<&Token>)
        ensures
            r@.len() == self.handlers().len(),
            forall|i: int| 0 <= i < r@.len() ==> *(#[trigger] r@[i]) == self.handlers()[i].original(),
    {
        let mut r: Vec<&Token> = Vec::new();
        for i in 0..self.tokens.len()
            invariant
                r@.len() == i,
                forall|j: int| 0 <= j < i ==> *(#[trigger] r@[j]) == self.handlers()[j].original(),
        {
            r.push(self.tokens[i].get_original());
        }
        r
    }

    /// The latest tokens, after any change.
    pub fn get_augmented_tokens(&self) -> (r: Vec<&Token>)
        ensures
            r@.len() == self.handlers().len(),
            forall|i: int| 0 <= i < r@.len() ==> *(#[trigger] r@[i]) == self.handlers()[i].latest(),
    {
        let mut r: Vec<&Token> = Vec::new();
        for i in 0..self.tokens.len()
            invariant
                r@.len() == i,
                forall|j: int| 0 <= j < i ==> *(#[trigger] r@[j]) == self.handlers()[j].latest(),
        {
            r.push(self.tokens[i].get_latest());
        }
        r
    }

    /// Concatenate the texts of tokens, in order.
    pub fn concatenate_tokens(vec_tokens: Vec<&Token>) -> (r: String)
        ensures
            r@ == join(vec_tokens@.map_values(|t: &Token| t.text())),
    {
        let mut concated_str = String::new();
        for i in 0..vec_tokens.len()
            invariant
                concated_str@ == join(vec_tokens@.take(i as int).map_values(|t: &Token| t.text())),
        {
            let ghost before = concated_str@;
            concated_str.append(vec_tokens[i].token().as_str());
            proof {
                let f = |t: &Token| t.text();
                assert(vec_tokens@.take(i + 1).map_values(f) =~= vec_tokens@.take(i as int).map_values(
                    f,
                ).push(vec_tokens@[i as int].text()));
                lemma_join_push(vec_tokens@.take(i as int).map_values(f), vec_tokens@[i as int].text());
            }
        }
        assert(vec_tokens@.take(vec_tokens.len() as int) =~= vec_tokens@);
        concated_str
    }

    /// The text made of the latest tokens.
    pub fn get_augmented_string(&self) -> (r: String)
        ensures
            r@ == self.augmented(),
    {
        let ts = self.get_augmented_tokens();
        let ghost f = |t: &Token| t.text();
        assert(ts@.map_values(f) =~= latest_texts(self.handlers()));
        Doc::concatenate_tokens(ts)
    }

    /// Number of tokens changed by the last augmentation.
    pub fn get_changed_count(&self) -> (r: usize)
        ensures
            r == self.changed_count_spec(),
    {
        self.changed_count
    }

    pub fn set_change_count(&mut self, value: usize)
        ensures
            final(self).handlers() == old(self).handlers(),
            final(self).changed_count_spec() == value,
    {
        self.changed_count = value
    }

    /// Drop every replacement and reset the count.
    pub fn set_to_original(&mut self)
        ensures
            final(self).handlers().len() == old(self).handlers().len(),
            forall|i: int|
                0 <= i < final(self).handlers().len() ==> (#[trigger] final(self).handlers()[i]).original()
                    == old(self).handlers()[i].original() && final(self).handlers()[i].changed() is None,
            final(self).changed_count_spec() == 0,
    {
        let n = self.tokens.len();
        for i in 0..n
            invariant
                n == self.tokens@.len(),
                self.tokens@.len() == old(self).tokens@.len(),
                forall|j: int|
                    0 <= j < n ==> (#[trigger] self.tokens@[j]).original() == old(self).tokens@[j].original(),
                forall|j: int| 0 <= j < i ==> (#[trigger] self.tokens@[j]).changed() is None,
        {
            let mut h = self.tokens.remove(i);
            h.set_to_original();
            self.tokens.insert(i, h);
        }
        self.changed_count = 0
    }

    /// Give the token at a position a replacement.
    pub fn change_token(&mut self, idx: usize, kind: TokenType, new_token_str: String)
        requires
            idx < old(self).handlers().len(),
        ensures
            final(self).changed_count_spec() == old(self).changed_count_spec(),
            final(self).handlers().len() == old(self).handlers().len(),
            final(self).handlers()[idx as int].original() == old(self).handlers()[idx as int].original(),
            final(self).handlers()[idx as int].changed() matches Some(t) && t.wf() && t.kind_spec()
                == kind && t.text() == new_token_str@,
            forall|j: int|
                0 <= j < final(self).handlers().len() && j != idx ==> #[trigger] final(self).handlers()[j]
                    == old(self).handlers()[j],
    {
        let mut h = self.tokens.remove(idx);
        h.change(kind, new_token_str);
        self.tokens.insert(idx, h);
    }

    /// Number of tokens.
    pub fn len(&self) -> (r: usize)
        ensures
            r == self.handlers().len(),
    {
        self.tokens.len()
    }

    /// The handler at a position.
    pub fn handler(&self, idx: usize) -> (r: &TokenHandler)
        requires
            idx < self.handlers().len(),
        ensures
            *r == self.handlers()[idx as int],
    {
        &self.tokens[idx]
    }

    /// A new document with the same original tokens and no replacement,
    /// made without tokenizing again.
    pub fn fresh_copy(&self) -> (r: Doc)
        requires
            self.wf(),
        ensures
            r.wf(),
            originals(r.handlers()) == originals(self.handlers()),
            forall|i: int| 0 <= i < r.handlers().len() ==> (#[trigger] r.handlers()[i]).changed() is None,
            r.changed_count_spec() == 0,
    {
        let mut tokens: Vec<TokenHandler> = Vec::new();
        for i in 0..self.tokens.len()
            invariant
                self.wf(),
                tokens@.len() == i,
                i <= self.tokens@.len(),
                forall|j: int| 0 <= j < i ==> (#[trigger] tokens@[j]).wf() && tokens@[j].changed() is None
                    && tokens@[j].original().kind_spec() == self.tokens@[j].original().kind_spec()
                    && tokens@[j].original().text() == self.tokens@[j].original().text(),
        {
            let t = self.tokens[i].get_original();
            tokens.push(TokenHandler::new(*t.kind(), t.token().clone()));
            assert(self.tokens@[i as int].original() == *t);
        }
        let r = Doc { tokens, changed_count: 0 };
        assert(originals(r.handlers()) =~= originals(self.handlers()));
        r
    }
}

} // verus!
