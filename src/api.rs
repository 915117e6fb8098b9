//! Entry points: configured augmentors run over one text several times, or
//! over a list of texts. Threads are the caller's business: each of these
//! runs on one thread, and a list can be handed out by index range.
use crate::aug::Action;
use crate::char_aug::{
    char_augmented_exactly, swap_mode_of, KeyboardAugmentor, OcrAugmentor, RandomCharAugmentor,
    SwapMode,
};
use crate::count::{AugCountParams, Fraction};
use crate::doc::{originals, tokenize_spec, Doc};
use crate::mapping::Mapping;
use crate::model::{BaseModel, OcrModel, RandomCharModel, RandomWordModel};
use crate::word_aug::{
    words_deleted, words_substituted, words_substituted_by, words_swapped, RandomWordAugmentor,
};
use rand::rngs::StdRng;
use std::sync::Arc;
use vstd::prelude::*;
use vstd::string::*;

verus! {

/// Whether a document holds no replacement and no count.
pub open spec fn is_reset(d: Doc) -> bool {
    &&& d.wf()
    &&& d.changed_count_spec() == 0
    &&& forall|i: int| 0 <= i < d.handlers().len() ==> (#[trigger] d.handlers()[i]).changed() is None
}

/// Whether a document is the fresh tokenization of a text.
pub open spec fn is_fresh(d: Doc, s: Seq<char>) -> bool {
    is_reset(d) && originals(d.handlers()) == tokenize_spec(s)
}

/// What every augmentor offers.
pub trait BaseAugmentor {
    /// The augmentor's own consistency condition.
    spec fn aug_wf(&self) -> bool;

    /// What one augmentation may make of a document.
    spec fn outcome(&self, old: Doc, new: Doc) -> bool;

    fn augment(&self, doc: &mut Doc, rng: &mut StdRng)
        requires
            self.aug_wf(),
            old(doc).wf(),
        ensures
            final(doc).wf(),
            self.outcome(*old(doc), *final(doc)),
    ;
}

/// An augmentor that works on the characters of words.
pub trait CharacterAugmentor: BaseAugmentor {
    /// Fixes how many characters of a word to augment.
    fn get_aug_params_char(&self) -> &AugCountParams;
}

/// An augmentor that works on whole words.
pub trait WordAugmentor: BaseAugmentor {
}

impl WordAugmentor for RandomWordAugmentor {
}

impl CharacterAugmentor for OcrAugmentor {
    fn get_aug_params_char(&self) -> &AugCountParams {
        self.aug_params_char()
    }
}

impl CharacterAugmentor for KeyboardAugmentor {
    fn get_aug_params_char(&self) -> &AugCountParams {
        self.aug_params_char()
    }
}

impl CharacterAugmentor for RandomCharAugmentor {
    fn get_aug_params_char(&self) -> &AugCountParams {
        self.aug_params_char()
    }
}

impl BaseAugmentor for OcrAugmentor {
    open spec fn aug_wf(&self) -> bool {
        self.wf()
    }

    open spec fn outcome(&self, old: Doc, new: Doc) -> bool {
        char_augmented_exactly(
            &self.model_spec(),
            &self.sampling_spec(),
            self.params_char(),
            Action::Substitute,
            SwapMode::Adjacent,
            &old,
            &new,
        )
    }

    fn augment(&self, doc: &mut Doc, rng: &mut StdRng) {
        OcrAugmentor::augment(self, doc, rng)
    }
}

impl BaseAugmentor for KeyboardAugmentor {
    open spec fn aug_wf(&self) -> bool {
        self.wf()
    }

    open spec fn outcome(&self, old: Doc, new: Doc) -> bool {
        char_augmented_exactly(
            &self.model_spec(),
            &self.sampling_spec(),
            self.params_char(),
            Action::Substitute,
            SwapMode::Adjacent,
            &old,
            &new,
        )
    }

    fn augment(&self, doc: &mut Doc, rng: &mut StdRng) {
        KeyboardAugmentor::augment(self, doc, rng)
    }
}

impl BaseAugmentor for RandomCharAugmentor {
    open spec fn aug_wf(&self) -> bool {
        self.wf()
    }

    open spec fn outcome(&self, old: Doc, new: Doc) -> bool {
        char_augmented_exactly(
            &self.model_spec(),
            &self.sampling_spec(),
            self.params_char(),
            self.action_spec(),
            self.mode_spec(),
            &old,
            &new,
        )
    }

    fn augment(&self, doc: &mut Doc, rng: &mut StdRng) {
        RandomCharAugmentor::augment(self, doc, rng)
    }
}

impl BaseAugmentor for RandomWordAugmentor {
    open spec fn aug_wf(&self) -> bool {
        self.wf()
    }

    open spec fn outcome(&self, old: Doc, new: Doc) -> bool {
        match self.action_spec() {
            Action::Insert => new == old,
            Action::Substitute => words_substituted(&self.model_spec(), &self.sampling_spec(), &old, &new)
                && exists|sample: Seq<usize>, hit: Seq<bool>|
                words_substituted_by(&self.model_spec(), &self.sampling_spec(), &old, &new, sample, hit),
            Action::Delete => words_deleted(&self.model_spec(), &self.sampling_spec(), &old, &new),
            Action::Swap => words_swapped(&self.model_spec(), &self.sampling_spec(), &old, &new),
        }
    }

    fn augment(&self, doc: &mut Doc, rng: &mut StdRng) {
        RandomWordAugmentor::augment(self, doc, rng)
    }
}

/// Whether `out` is a text that one augmentation of the fresh document of `s` may give.
pub open spec fn fresh_outcome<A: BaseAugmentor>(augmentor: &A, s: Seq<char>, out: Seq<char>) -> bool {
    exists|d0: Doc, d1: Doc| is_fresh(d0, s) && augmentor.outcome(d0, d1) && out == d1.augmented()
}

/// Augment one text `n` times; the text is tokenized once, and each round
/// starts from a fresh copy of its tokens.
pub fn augment_string_n_times<A: BaseAugmentor>(augmentor: &A, input_string: &String, n: usize, rng: &mut StdRng) -> (r: Vec<String>)
    requires
        augmentor.aug_wf(),
    ensures
        r@.len() == n,
        forall|k: int| 0 <= k < n ==> fresh_outcome(augmentor, input_string@, (#[trigger] r@[k])@),
{
    let mut result: Vec<String> = Vec::new();
    let template = Doc::new(input_string);
    for k in 0..n
        invariant
            augmentor.aug_wf(),
            template.wf(),
            originals(template.handlers()) == tokenize_spec(input_string@),
            result@.len() == k,
            forall|j: int| 0 <= j < k ==> fresh_outcome(augmentor, input_string@, (#[trigger] result@[j])@),
    {
        let mut doc = template.fresh_copy();
        let ghost d0 = doc;
        augmentor.augment(&mut doc, rng);
        let ghost d1 = doc;
        let ghost before = result@;
        result.push(doc.get_augmented_string());
        proof {
            assert(is_fresh(d0, input_string@) && augmentor.outcome(d0, d1) && result@[k as int]@ == d1.augmented());
            assert forall|j: int| 0 <= j < k + 1 implies fresh_outcome(augmentor, input_string@, (#[trigger] result@[j])@) by {
                if j < k {
                    assert(before[j] == result@[j]);
                }
            }
        }
    }
    result
}

/// Augment the texts of `input_list[left..right]`, each once, each in a
/// document of its own.
pub fn augment_list_range<A: BaseAugmentor>(
    augmentor: &A,
    input_list: &Vec<String>,
    left: usize,
    right: usize,
    rng: &mut StdRng,
) -> (r: Vec<String>)
    requires
        augmentor.aug_wf(),
        left <= right <= input_list@.len(),
    ensures
        r@.len() == right - left,
        forall|k: int| 0 <= k < right - left ==> fresh_outcome(augmentor, input_list@[left + k]@, (#[trigger] r@[k])@),
{
    let mut result: Vec<String> = Vec::new();
    for i in left..right
        invariant
            augmentor.aug_wf(),
            left <= right <= input_list@.len(),
            result@.len() == i - left,
            forall|k: int| 0 <= k < i - left ==> fresh_outcome(augmentor, input_list@[left + k]@, (#[trigger] result@[k])@),
    {
        let mut doc = Doc::new(&input_list[i]);
        let ghost d0 = doc;
        augmentor.augment(&mut doc, rng);
        let ghost d1 = doc;
        let ghost before = result@;
        result.push(doc.get_augmented_string());
        proof {
            assert(is_fresh(d0, input_list@[i as int]@) && augmentor.outcome(d0, d1) && result@[i - left]@ == d1.augmented());
            assert(fresh_outcome(augmentor, input_list@[left + (i - left)]@, result@[i - left]@));
            assert forall|k: int| 0 <= k < i + 1 - left implies fresh_outcome(augmentor, input_list@[left + k]@, (#[trigger] result@[k])@) by {
                if k < i - left {
                    assert(before[k] == result@[k]);
                }
            }
        }
    }
    result
}

/// Augment each text of a list once, in order.
pub fn augment_list<A: BaseAugmentor>(augmentor: &A, input_list: &Vec<String>, rng: &mut StdRng) -> (r: Vec<String>)
    requires
        augmentor.aug_wf(),
    ensures
        r@.len() == input_list@.len(),
        forall|k: int| 0 <= k < input_list@.len() ==> fresh_outcome(augmentor, input_list@[k]@, (#[trigger] r@[k])@),
{
    let r = augment_list_range(augmentor, input_list, 0, input_list.len(), rng);
    assert forall|k: int| 0 <= k < input_list@.len() implies fresh_outcome(augmentor, input_list@[k]@, (#[trigger] r@[k])@) by {
        assert(input_list@[0 + k] == input_list@[k]);
    }
    r
}

/// The action that a name gives to a word augmentor; any other name gives substitution.
pub open spec fn word_action_of(name: Seq<char>) -> Action {
    if name == "delete"@ {
        Action::Delete
    } else if name == "swap"@ {
        Action::Swap
    } else {
        Action::Substitute
    }
}

/// The action that a name gives to a character augmentor; any other name gives substitution.
pub open spec fn char_action_of(name: Seq<char>) -> Action {
    if name == "insert"@ {
        Action::Insert
    } else {
        word_action_of(name)
    }
}

pub fn parse_word_action(name: &str) -> (r: Action)
    ensures
        r == word_action_of(name@),
{
    if crate::text::str_eq(name, "delete") {
        Action::Delete
    } else if crate::text::str_eq(name, "swap") {
        Action::Swap
    } else {
        Action::Substitute
    }
}

pub fn parse_char_action(name: &str) -> (r: Action)
    ensures
        r == char_action_of(name@),
{
    if crate::text::str_eq(name, "insert") {
        Action::Insert
    } else {
        parse_word_action(name)
    }
}

/// The action that a name gives to a character augmentor, or `None` for a
/// name that is not one of `insert`, `substitute`, `delete`, `swap`.
pub fn parse_char_action_strict(name: &str) -> (r: Option<Action>)
    ensures
        r is Some <==> (name@ == "insert"@ || name@ == "substitute"@ || name@ == "delete"@ || name@
            == "swap"@),
        r matches Some(a) ==> a == char_action_of(name@),
{
    if crate::text::str_eq(name, "insert") || crate::text::str_eq(name, "substitute") || crate::text::str_eq(
        name,
        "delete",
    ) || crate::text::str_eq(name, "swap") {
        Some(parse_char_action(name))
    } else {
        None
    }
}

/// The action that a name gives to a word augmentor, or `None` for a name
/// that is not one of `substitute`, `delete`, `swap`.
pub fn parse_word_action_strict(name: &str) -> (r: Option<Action>)
    ensures
        r is Some <==> (name@ == "substitute"@ || name@ == "delete"@ || name@ == "swap"@),
        r matches Some(a) ==> a == word_action_of(name@),
{
    if crate::text::str_eq(name, "substitute") || crate::text::str_eq(name, "delete") || crate::text::str_eq(
        name,
        "swap",
    ) {
        Some(parse_word_action(name))
    } else {
        None
    }
}

/// A copy of an optional list of stop words.
fn clone_stopwords(stopwords: &Option<Vec<String>>) -> (r: Option<Vec<String>>)
    ensures
        r is Some == stopwords is Some,
        r matches Some(v) ==> v.deep_view() == stopwords->0.deep_view(),
{
    match stopwords {
        Some(v) => Some(crate::mapping::clone_strings(v)),
        None => None,
    }
}

/// Settings for random word augmentation.
pub struct RustRandomWordApiClass {
    action: Action,
    aug_word_params: AugCountParams,
    model: Arc<RandomWordModel>,
    stopwords: Option<Vec<String>>,
}

impl RustRandomWordApiClass {
    pub open spec fn wf(&self) -> bool {
        self.model_spec().model_wf() && self.params_spec().wf()
    }

    pub closed spec fn model_spec(&self) -> RandomWordModel {
        *self.model
    }

    pub closed spec fn params_spec(&self) -> AugCountParams {
        self.aug_word_params
    }

    pub closed spec fn action_spec(&self) -> Action {
        self.action
    }

    pub closed spec fn stopword_texts(&self) -> Option<Seq<Seq<char>>> {
        match self.stopwords {
            Some(v) => Some(v.deep_view()),
            None => None,
        }
    }

    /// Whether an augmentor carries exactly these settings.
    pub open spec fn configures(&self, aug: &RandomWordAugmentor) -> bool {
        &&& aug.wf()
        &&& aug.action_spec() == self.action_spec()
        &&& aug.model_spec() == self.model_spec()
        &&& aug.sampling_spec().aug_params_word == self.params_spec()
        &&& aug.sampling_spec().min_chars is None
        &&& aug.sampling_spec().stopword_texts() == self.stopword_texts()
        &&& aug.sampling_spec().use_model == (self.action_spec() == Action::Substitute)
        &&& !aug.sampling_spec().use_special_chars
    }

    /// A list of candidates wins over a table; with neither the model is empty.
    pub fn new(
        action: String,
        aug_min_word: Option<usize>,
        aug_max_word: Option<usize>,
        aug_p_word: Option<Fraction>,
        stopwords: Option<Vec<String>>,
        target_vec_words: Option<Vec<String>>,
        target_map_words: Option<Mapping>,
    ) -> (r: Self)
        requires
            aug_p_word matches Some(p) ==> p.wf(),
            target_map_words matches Some(m) ==> m.wf(),
        ensures
            r.wf(),
            r.action_spec() == word_action_of(action@),
            r.params_spec().min_spec() == aug_min_word,
            r.params_spec().max_spec() == aug_max_word,
            r.params_spec().p_spec() == aug_p_word,
            target_vec_words matches Some(v) ==> r.model_spec().list() == Some(v.deep_view()),
            target_vec_words is None && target_map_words is Some ==> r.model_spec().list() is None
                && r.model_spec().table() == target_map_words,
            target_vec_words is None && target_map_words is None ==> r.model_spec().list() is None
                && r.model_spec().table() is None,
    {
        let model = match (target_vec_words, target_map_words) {
            (Some(target), _) => RandomWordModel::from_vec(target),
            (None, Some(target)) => RandomWordModel::from_map(target),
            (None, None) => RandomWordModel::empty_model(),
        };
        model.load_model();
        let action = parse_word_action(action.as_str());
        RustRandomWordApiClass {
            action,
            aug_word_params: AugCountParams::new(aug_min_word, aug_max_word, aug_p_word),
            model: Arc::new(model),
            stopwords,
        }
    }

    pub fn create_augmentor_instance(&self) -> (r: RandomWordAugmentor)
        requires
            self.wf(),
        ensures
            self.configures(&r),
    {
        RandomWordAugmentor::new(
            self.action,
            self.aug_word_params,
            Arc::clone(&self.model),
            clone_stopwords(&self.stopwords),
        )
    }

    /// Augment one text `n` times.
    pub fn augment_string_single_thread(&self, input_string: String, n: usize, rng: &mut StdRng) -> (r: Vec<String>)
        requires
            self.wf(),
        ensures
            r@.len() == n,
            exists|aug: RandomWordAugmentor|
                self.configures(&aug) && forall|k: int|
                    0 <= k < n ==> fresh_outcome(&aug, input_string@, (#[trigger] r@[k])@),
    {
        let augmentor = self.create_augmentor_instance();
        augment_string_n_times(&augmentor, &input_string, n, rng)
    }

    /// Augment each text of a list once.
    pub fn augment_list_single_thread(&self, input_list: Vec<String>, rng: &mut StdRng) -> (r: Vec<String>)
        requires
            self.wf(),
        ensures
            r@.len() == input_list@.len(),
            exists|aug: RandomWordAugmentor|
                self.configures(&aug) && forall|k: int|
                    0 <= k < input_list@.len() ==> fresh_outcome(&aug, input_list@[k]@, (#[trigger] r@[k])@),
    {
        let augmentor = self.create_augmentor_instance();
        augment_list(&augmentor, &input_list, rng)
    }

    /// Augment each text of `input_list[left..right]` once.
    pub fn augment_list_range(&self, input_list: &Vec<String>, left: usize, right: usize, rng: &mut StdRng) -> (r: Vec<String>)
        requires
            self.wf(),
            left <= right <= input_list@.len(),
        ensures
            r@.len() == right - left,
            exists|aug: RandomWordAugmentor|
                self.configures(&aug) && forall|k: int|
                    0 <= k < right - left ==> fresh_outcome(&aug, input_list@[left + k]@, (#[trigger] r@[k])@),
    {
        let augmentor = self.create_augmentor_instance();
        augment_list_range(&augmentor, input_list, left, right, rng)
    }
}

/// Settings for random character augmentation.
pub struct RustRandomCharApiClass {
    action: Action,
    aug_char_params: AugCountParams,
    aug_word_params: AugCountParams,
    model: Arc<RandomCharModel>,
    stopwords: Option<Vec<String>>,
    min_char: Option<usize>,
    swapmode: String,
}

impl RustRandomCharApiClass {
    pub open spec fn wf(&self) -> bool {
        self.char_params_spec().wf() && self.word_params_spec().wf()
    }

    pub closed spec fn model_spec(&self) -> RandomCharModel {
        *self.model
    }

    pub closed spec fn char_params_spec(&self) -> AugCountParams {
        self.aug_char_params
    }

    pub closed spec fn word_params_spec(&self) -> AugCountParams {
        self.aug_word_params
    }

    pub closed spec fn action_spec(&self) -> Action {
        self.action
    }

    pub closed spec fn min_char_spec(&self) -> Option<usize> {
        self.min_char
    }

    pub closed spec fn swapmode_spec(&self) -> Seq<char> {
        self.swapmode@
    }

    pub closed spec fn stopword_texts(&self) -> Option<Seq<Seq<char>>> {
        match self.stopwords {
            Some(v) => Some(v.deep_view()),
            None => None,
        }
    }

    /// Whether an augmentor carries exactly these settings.
    pub open spec fn configures(&self, aug: &RandomCharAugmentor) -> bool {
        &&& aug.wf()
        &&& aug.action_spec() == self.action_spec()
        &&& aug.model_spec() == self.model_spec()
        &&& aug.params_char() == self.char_params_spec()
        &&& aug.sampling_spec().aug_params_word == self.word_params_spec()
        &&& aug.sampling_spec().min_chars == self.min_char_spec()
        &&& aug.sampling_spec().stopword_texts() == self.stopword_texts()
        &&& !aug.sampling_spec().use_model
        &&& !aug.sampling_spec().use_special_chars
        &&& aug.mode_spec() == swap_mode_of(self.swapmode_spec())
    }

    /// Given candidates win over the flags; the model is loaded at once.
    pub fn new(
        action: String,
        aug_min_char: Option<usize>,
        aug_max_char: Option<usize>,
        aug_p_char: Option<Fraction>,
        aug_min_word: Option<usize>,
        aug_max_word: Option<usize>,
        aug_p_word: Option<Fraction>,
        include_upper_case: bool,
        include_lower_case: bool,
        include_numeric: bool,
        include_special_char: bool,
        lang: String,
        stopwords: Option<Vec<String>>,
        min_char: Option<usize>,
        swap_mode: String,
        spec_char: Option<String>,
        candidates: Option<Vec<String>>,
    ) -> (r: Self)
        requires
            aug_p_char matches Some(p) ==> p.wf(),
            aug_p_word matches Some(p) ==> p.wf(),
        ensures
            r.wf(),
            r.action_spec() == char_action_of(action@),
            r.char_params_spec().min_spec() == aug_min_char,
            r.char_params_spec().max_spec() == aug_max_char,
            r.char_params_spec().p_spec() == aug_p_char,
            r.word_params_spec().min_spec() == aug_min_word,
            r.word_params_spec().max_spec() == aug_max_word,
            r.word_params_spec().p_spec() == aug_p_word,
            r.min_char_spec() == min_char,
            r.swapmode_spec() == swap_mode@,
            candidates matches Some(c) ==> r.model_spec().loaded() == Some(c.deep_view()),
            candidates is None ==> r.model_spec().loaded() is Some,
    {
        let mut model = match candidates {
            Some(values) => RandomCharModel::from_candidates(values),
            None => RandomCharModel::new(
                include_upper_case,
                include_lower_case,
                include_special_char,
                include_numeric,
                lang.as_str(),
                spec_char,
            ),
        };
        model.load_model();
        let action = parse_char_action(action.as_str());
        RustRandomCharApiClass {
            action,
            aug_char_params: AugCountParams::new(aug_min_char, aug_max_char, aug_p_char),
            aug_word_params: AugCountParams::new(aug_min_word, aug_max_word, aug_p_word),
            model: Arc::new(model),
            stopwords,
            min_char,
            swapmode: swap_mode,
        }
    }

    pub fn create_augmentor_instance(&self) -> (r: RandomCharAugmentor)
        requires
            self.wf(),
        ensures
            self.configures(&r),
    {
        RandomCharAugmentor::new(
            self.action,
            self.aug_char_params,
            self.aug_word_params,
            self.min_char,
            Arc::clone(&self.model),
            clone_stopwords(&self.stopwords),
            String::from_str(self.swapmode.as_str()),
        )
    }

    /// Augment one text `n` times.
    pub fn augment_string_single_thread(&self, input_string: String, n: usize, rng: &mut StdRng) -> (r: Vec<String>)
        requires
            self.wf(),
        ensures
            r@.len() == n,
            exists|aug: RandomCharAugmentor|
                self.configures(&aug) && forall|k: int|
                    0 <= k < n ==> fresh_outcome(&aug, input_string@, (#[trigger] r@[k])@),
    {
        let augmentor = self.create_augmentor_instance();
        augment_string_n_times(&augmentor, &input_string, n, rng)
    }

    /// Augment each text of a list once.
    pub fn augment_list_single_thread(&self, input_list: Vec<String>, rng: &mut StdRng) -> (r: Vec<String>)
        requires
            self.wf(),
        ensures
            r@.len() == input_list@.len(),
            exists|aug: RandomCharAugmentor|
                self.configures(&aug) && forall|k: int|
                    0 <= k < input_list@.len() ==> fresh_outcome(&aug, input_list@[k]@, (#[trigger] r@[k])@),
    {
        let augmentor = self.create_augmentor_instance();
        augment_list(&augmentor, &input_list, rng)
    }

    /// Augment each text of `input_list[left..right]` once.
    pub fn augment_list_range(&self, input_list: &Vec<String>, left: usize, right: usize, rng: &mut StdRng) -> (r: Vec<String>)
        requires
            self.wf(),
            left <= right <= input_list@.len(),
        ensures
            r@.len() == right - left,
            exists|aug: RandomCharAugmentor|
                self.configures(&aug) && forall|k: int|
                    0 <= k < right - left ==> fresh_outcome(&aug, input_list@[left + k]@, (#[trigger] r@[k])@),
    {
        let augmentor = self.create_augmentor_instance();
        augment_list_range(&augmentor, input_list, left, right, rng)
    }
}

/// Settings for OCR augmentation.
pub struct RustOCRAugmentor {
    aug_char_params: AugCountParams,
    aug_word_params: AugCountParams,
    model: Arc<OcrModel>,
    stopwords: Option<Vec<String>>,
    min_char: Option<usize>,
}

impl RustOCRAugmentor {
    pub open spec fn wf(&self) -> bool {
        self.model_spec().model_wf() && self.char_params_spec().wf() && self.word_params_spec().wf()
    }

    pub closed spec fn model_spec(&self) -> OcrModel {
        *self.model
    }

    pub closed spec fn char_params_spec(&self) -> AugCountParams {
        self.aug_char_params
    }

    pub closed spec fn word_params_spec(&self) -> AugCountParams {
        self.aug_word_params
    }

    pub closed spec fn min_char_spec(&self) -> Option<usize> {
        self.min_char
    }

    pub closed spec fn stopword_texts(&self) -> Option<Seq<Seq<char>>> {
        match self.stopwords {
            Some(v) => Some(v.deep_view()),
            None => None,
        }
    }

    /// Whether an augmentor carries exactly these settings.
    pub open spec fn configures(&self, aug: &OcrAugmentor) -> bool {
        &&& aug.wf()
        &&& aug.model_spec() == self.model_spec()
        &&& aug.params_char() == self.char_params_spec()
        &&& aug.sampling_spec().aug_params_word == self.word_params_spec()
        &&& aug.sampling_spec().min_chars == self.min_char_spec()
        &&& aug.sampling_spec().stopword_texts() == self.stopword_texts()
        &&& !aug.sampling_spec().use_model
        &&& !aug.sampling_spec().use_special_chars
    }

    /// The table is the one read from `dict_of_path`, made symmetric and
    /// without repetitions.
    pub fn new(
        aug_min_char: Option<usize>,
        aug_max_char: Option<usize>,
        aug_p_char: Option<Fraction>,
        aug_min_word: Option<usize>,
        aug_max_word: Option<usize>,
        aug_p_word: Option<Fraction>,
        stopwords: Option<Vec<String>>,
        min_char: Option<usize>,
        dict_of_path: String,
        mapping_from_file: Mapping,
    ) -> (r: Self)
        requires
            aug_p_char matches Some(p) ==> p.wf(),
            aug_p_word matches Some(p) ==> p.wf(),
            mapping_from_file.wf(),
        ensures
            r.wf(),
            r.model_spec().path() == dict_of_path@,
            r.model_spec().table() matches Some(m) && crate::model::ocr_table(mapping_from_file@, m@),
            r.char_params_spec().min_spec() == aug_min_char,
            r.char_params_spec().max_spec() == aug_max_char,
            r.char_params_spec().p_spec() == aug_p_char,
            r.word_params_spec().min_spec() == aug_min_word,
            r.word_params_spec().max_spec() == aug_max_word,
            r.word_params_spec().p_spec() == aug_p_word,
            r.min_char_spec() == min_char,
    {
        let mut model = OcrModel::new(dict_of_path);
        model.load_model(mapping_from_file);
        RustOCRAugmentor {
            aug_char_params: AugCountParams::new(aug_min_char, aug_max_char, aug_p_char),
            aug_word_params: AugCountParams::new(aug_min_word, aug_max_word, aug_p_word),
            model: Arc::new(model),
            stopwords,
            min_char,
        }
    }

    pub fn create_augmentor_instance(&self) -> (r: OcrAugmentor)
        requires
            self.wf(),
        ensures
            self.configures(&r),
    {
        OcrAugmentor::new(
            self.aug_char_params,
            self.aug_word_params,
            self.min_char,
            Arc::clone(&self.model),
            clone_stopwords(&self.stopwords),
        )
    }

    /// Augment one text `n` times.
    pub fn augment_string_single_thread(&self, input_string: String, n: usize, rng: &mut StdRng) -> (r: Vec<String>)
        requires
            self.wf(),
        ensures
            r@.len() == n,
            exists|aug: OcrAugmentor|
                self.configures(&aug) && forall|k: int|
                    0 <= k < n ==> fresh_outcome(&aug, input_string@, (#[trigger] r@[k])@),
    {
        let augmentor = self.create_augmentor_instance();
        augment_string_n_times(&augmentor, &input_string, n, rng)
    }

    /// Augment each text of a list once.
    pub fn augment_list_single_thread(&self, input_list: Vec<String>, rng: &mut StdRng) -> (r: Vec<String>)
        requires
            self.wf(),
        ensures
            r@.len() == input_list@.len(),
            exists|aug: OcrAugmentor|
                self.configures(&aug) && forall|k: int|
                    0 <= k < input_list@.len() ==> fresh_outcome(&aug, input_list@[k]@, (#[trigger] r@[k])@),
    {
        let augmentor = self.create_augmentor_instance();
        augment_list(&augmentor, &input_list, rng)
    }

    /// Augment each text of `input_list[left..right]` once.
    pub fn augment_list_range(&self, input_list: &Vec<String>, left: usize, right: usize, rng: &mut StdRng) -> (r: Vec<String>)
        requires
            self.wf(),
            left <= right <= input_list@.len(),
        ensures
            r@.len() == right - left,
            exists|aug: OcrAugmentor|
                self.configures(&aug) && forall|k: int|
                    0 <= k < right - left ==> fresh_outcome(&aug, input_list@[left + k]@, (#[trigger] r@[k])@),
    {
        let augmentor = self.create_augmentor_instance();
        augment_list_range(&augmentor, input_list, left, right, rng)
    }
}

} // verus!
