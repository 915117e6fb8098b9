//! Models: where the candidates for a replacement come from.
use crate::mapping::{capacity_of, Mapping};
use crate::text::{alnum, chars_of, numeric, upper_of};
use vstd::prelude::*;
use vstd::string::*;

verus! {

/// What every model offers: whether a text can be replaced, and by what.
pub trait BaseModel {
    /// Whether the model has candidates for a text.
    spec fn has_key(&self, k: Seq<char>) -> bool;

    /// The candidates the model gives for a text, if any.
    spec fn candidates(&self, k: Seq<char>) -> Option<Seq<Seq<char>>>;

    /// The model's own consistency condition.
    spec fn model_wf(&self) -> bool;

    /// The table behind the model, if it has one.
    spec fn mapping_spec(&self) -> Option<Mapping>;

    /// Number of entries, and the length of each candidate list that stats report.
    spec fn stats_spec(&self) -> (nat, Seq<nat>);

    fn get_mapping(&self) -> (r: Option<&Mapping>)
        ensures
            r is Some == self.mapping_spec() is Some,
            r matches Some(m) ==> *m == self.mapping_spec()->0,
    ;

    fn key_exists(&self, data: &str) -> (r: bool)
        requires
            self.model_wf(),
        ensures
            r == self.has_key(data@),
    ;

    fn predict(&self, data: &str) -> (r: Option<&Vec<String>>)
        requires
            self.model_wf(),
        ensures
            r is Some == self.candidates(data@) is Some,
            r matches Some(v) ==> v.deep_view() == self.candidates(data@)->0,
    ;

    /// Number of entries, room for entries, and length and room of each candidate list.
    fn get_stats(&self) -> (r: (usize, usize, Vec<(usize, usize)>))
        requires
            self.model_wf(),
        ensures
            r.0 == self.stats_spec().0,
            r.1 >= r.0,
            r.2@.len() == self.stats_spec().1.len(),
            forall|i: int| 0 <= i < r.2@.len() ==> (#[trigger] r.2@[i]).0 == self.stats_spec().1[i] && r.2@[i].1 >= r.2@[i].0,
    ;
}

/// Size of a table and the length of each of its candidate lists, in order.
pub open spec fn table_stats(m: Mapping) -> (nat, Seq<nat>) {
    (m.size(), m.vals().map_values(|v: Seq<Seq<char>>| v.len()))
}

/// Stats of a table: its size, its room, and each candidate list's length and room.
pub fn mapping_stats(model: &Mapping) -> (r: (usize, usize, Vec<(usize, usize)>))
    ensures
        r.0 == model.size(),
        r.1 >= r.0,
        r.2@.len() == model.size(),
        r.0 == table_stats(*model).0,
        r.2@.len() == table_stats(*model).1.len(),
        forall|i: int| 0 <= i < r.2@.len() ==> (#[trigger] r.2@[i]).0 == table_stats(*model).1[i],
        forall|i: int| 0 <= i < r.2@.len() ==> (#[trigger] r.2@[i]).0 == model.vals()[i].len() && r.2@[i].1
            >= r.2@[i].0,
{
    let mut arr_stats: Vec<(usize, usize)> = Vec::new();
    let n = model.len();
    proof {
        model.lemma_lens();
    }
    for i in 0..n
        invariant
            n == model.size(),
            model.vals().len() == model.size(),
            arr_stats@.len() == i,
            forall|j: int| 0 <= j < i ==> (#[trigger] arr_stats@[j]).0 == model.vals()[j].len() && arr_stats@[j].1
                >= arr_stats@[j].0,
    {
        let arr = model.values_at(i);
        arr_stats.push((arr.len(), capacity_of(arr)));
    }
    (model.len(), model.capacity(), arr_stats)
}

/// A model whose triggers are single characters.
pub trait CharacterModel: BaseModel {
}

impl CharacterModel for OcrModel {
}

impl CharacterModel for KeyboardModel {
}

impl CharacterModel for RandomCharModel {
}

/// A model whose triggers are words.
pub trait WordModel: BaseModel {
}

impl WordModel for RandomWordModel {
}

/// The table with repeated candidates of each trigger removed; the first
/// occurrence of each is kept.
pub fn deduplicate(mapping: Mapping) -> (r: Mapping)
    requires
        mapping.wf(),
    ensures
        r.wf(),
        r@.dom() == mapping@.dom(),
        forall|k: Seq<char>| #[trigger] r@.contains_key(k) ==> r@[k] == crate::mapping::dedup(mapping@[k]),
{
    mapping.deduplicated()
}

/// Random word model: either any word may become any of a list of words, or
/// each word of a table may become one of its own candidates.
pub struct RandomWordModel {
    /// Candidates for every word.
    candidates: Option<Vec<String>>,
    /// Candidates for specific words.
    candidates_map: Option<Mapping>,
}

impl RandomWordModel {
    pub closed spec fn list(&self) -> Option<Seq<Seq<char>>> {
        match self.candidates {
            Some(v) => Some(v.deep_view()),
            None => None,
        }
    }

    pub closed spec fn table(&self) -> Option<Mapping> {
        self.candidates_map
    }

    pub fn from_vec(candidates: Vec<String>) -> (r: Self)
        ensures
            r.model_wf(),
            r.list() == Some(candidates.deep_view()),
            r.table() is None,
    {
        Self { candidates: Some(candidates), candidates_map: None }
    }

    pub fn from_map(candidates_map: Mapping) -> (r: Self)
        requires
            candidates_map.wf(),
        ensures
            r.model_wf(),
            r.list() is None,
            r.table() == Some(candidates_map),
    {
        Self { candidates: None, candidates_map: Some(candidates_map) }
    }

    pub fn empty_model() -> (r: Self)
        ensures
            r.model_wf(),
            r.list() is None,
            r.table() is None,
    {
        Self { candidates: None, candidates_map: None }
    }

    /// Nothing to load: the candidates are given at construction.
    pub fn load_model(&self) {
    }
}

impl BaseModel for RandomWordModel {
    open spec fn has_key(&self, k: Seq<char>) -> bool {
        match (self.list(), self.table()) {
            (Some(_), _) => true,
            (None, Some(m)) => m@.contains_key(k),
            (None, None) => false,
        }
    }

    open spec fn candidates(&self, k: Seq<char>) -> Option<Seq<Seq<char>>> {
        match (self.list(), self.table()) {
            (Some(l), _) => Some(l),
            (None, Some(m)) => if m@.contains_key(k) {
                Some(m@[k])
            } else {
                None
            },
            (None, None) => None,
        }
    }

    open spec fn model_wf(&self) -> bool {
        self.table() matches Some(m) ==> m.wf()
    }

    open spec fn mapping_spec(&self) -> Option<Mapping> {
        None
    }

    open spec fn stats_spec(&self) -> (nat, Seq<nat>) {
        match (self.list(), self.table()) {
            (Some(l), _) => (l.len(), Seq::empty()),
            (None, Some(m)) => table_stats(m),
            (None, None) => (0, Seq::empty()),
        }
    }

    fn get_mapping(&self) -> (r: Option<&Mapping>) {
        None
    }

    fn key_exists(&self, data: &str) -> (r: bool) {
        match (&self.candidates, &self.candidates_map) {
            (Some(_), _) => true,
            (None, Some(mapping)) => mapping.contains_key(data),
            (None, None) => false,
        }
    }

    fn predict(&self, data: &str) -> (r: Option<&Vec<String>>) {
        if let Some(c) = &self.candidates {
            return Some(c);
        }
        if let Some(mapping) = &self.candidates_map {
            return mapping.get(data);
        }
        None
    }

    fn get_stats(&self) -> (r: (usize, usize, Vec<(usize, usize)>)) {
        if let Some(data) = &self.candidates {
            return (data.len(), capacity_of(data), Vec::new());
        }
        if let Some(data) = &self.candidates_map {
            return mapping_stats(data);
        }
        (0, 0, Vec::new())
    }
}

/// Alphabets that the random character model knows.
#[derive(Clone, Copy, Debug, PartialEq, Eq, Structural)]
pub enum SupportedLanguage {
    EN,
    RU,
    Unknown,
}

/// The language that a code names; any other code is unknown.
pub open spec fn language_of(lang: Seq<char>) -> SupportedLanguage {
    if lang == "en"@ {
        SupportedLanguage::EN
    } else if lang == "ru"@ {
        SupportedLanguage::RU
    } else {
        SupportedLanguage::Unknown
    }
}

/// The language that a code names; any other code is unknown.
pub fn parse_language(lang: &str) -> (r: SupportedLanguage)
    ensures
        r == language_of(lang@),
{
    if crate::text::str_eq(lang, "en") {
        SupportedLanguage::EN
    } else if crate::text::str_eq(lang, "ru") {
        SupportedLanguage::RU
    } else {
        SupportedLanguage::Unknown
    }
}

/// Upper-case letters of a language.
pub open spec fn upper_alphabet(lang: SupportedLanguage) -> Seq<char> {
    match lang {
        SupportedLanguage::EN => "ABCDEFGHIJKLMNOPQRSTUVWXYZ"@,
        SupportedLanguage::RU => "АБВГДЕЁЖЗИЙКЛМНОПРСТУФХЦЧШЩЪЫЬЭЮЯ"@,
        SupportedLanguage::Unknown => ""@,
    }
}

/// Lower-case letters of a language.
pub open spec fn lower_alphabet(lang: SupportedLanguage) -> Seq<char> {
    match lang {
        SupportedLanguage::EN => "abcdefghijklmnopqrstuvwxyz"@,
        SupportedLanguage::RU => "абвгдеёжзийклмнопрстуфхцчшщъыьэюя"@,
        SupportedLanguage::Unknown => ""@,
    }
}

/// Each character as a text of its own.
pub open spec fn singletons(s: Seq<char>) -> Seq<Seq<char>> {
    s.map_values(|c: char| seq![c])
}

/// Append each character of a text to a list, as a one-character string.
fn extend_with_chars(candidates: &mut Vec<String>, s: &str)
    ensures
        final(candidates).deep_view() == old(candidates).deep_view() + singletons(s@),
{
    let chars = chars_of(s);
    for i in 0..chars.len()
        invariant
            chars@ == s@,
            candidates.deep_view() == old(candidates).deep_view() + singletons(s@.take(i as int)),
    {
        let ghost before = candidates.deep_view();
        candidates.push(crate::text::char_string(chars[i]));
        assert(candidates.deep_view() =~= before.push(seq![chars@[i as int]]));
        assert(singletons(s@.take(i + 1)) =~= singletons(s@.take(i as int)).push(seq![chars@[i as int]]));
    }
    assert(s@.take(chars.len() as int) =~= s@);
}

/// Random character model: any character may become one of a synthesized
/// list of characters.
pub struct RandomCharModel {
    /// Allow upper-case letters among the candidates.
    include_upper_case: bool,
    /// Allow lower-case letters among the candidates.
    include_lower_case: bool,
    /// Allow special characters among the candidates.
    include_special_char: bool,
    /// Allow digits among the candidates.
    include_numeric: bool,
    /// Language of the letters.
    lang: SupportedLanguage,
    /// Special characters to use instead of the default ones.
    spec_char: Option<String>,
    /// The candidates, once loaded or given.
    candidates: Option<Vec<String>>,
}

/// Special characters used when none are given.
pub open spec fn default_special_chars() -> Seq<char> {
    "!@#$%^&*()_+"@
}

impl RandomCharModel {
    pub closed spec fn loaded(&self) -> Option<Seq<Seq<char>>> {
        match self.candidates {
            Some(v) => Some(v.deep_view()),
            None => None,
        }
    }

    /// The special characters in force.
    pub closed spec fn special_chars(&self) -> Seq<char> {
        match self.spec_char {
            Some(s) => s@,
            None => default_special_chars(),
        }
    }

    /// The candidates that the flags and the language give.
    pub closed spec fn synthesized(&self) -> Seq<Seq<char>> {
        (if self.include_upper_case {
            singletons(upper_alphabet(self.lang))
        } else {
            Seq::empty()
        }) + (if self.include_lower_case {
            singletons(lower_alphabet(self.lang))
        } else {
            Seq::empty()
        }) + (if self.include_numeric {
            singletons("0123456789"@)
        } else {
            Seq::empty()
        }) + (if self.include_special_char {
            singletons(self.special_chars())
        } else {
            Seq::empty()
        })
    }

    pub fn new(
        include_upper_case: bool,
        include_lower_case: bool,
        include_special_char: bool,
        include_numeric: bool,
        lang: &str,
        spec_char: Option<String>,
    ) -> (r: Self)
        ensures
            r.loaded() is None,
            r.synthesized() == (if include_upper_case {
                singletons(upper_alphabet(language_of(lang@)))
            } else {
                Seq::empty()
            }) + (if include_lower_case {
                singletons(lower_alphabet(language_of(lang@)))
            } else {
                Seq::empty()
            }) + (if include_numeric {
                singletons("0123456789"@)
            } else {
                Seq::empty()
            }) + (if include_special_char {
                singletons(
                    match spec_char {
                        Some(s) => s@,
                        None => default_special_chars(),
                    },
                )
            } else {
                Seq::empty()
            }),
    {
        let lang = parse_language(lang);
        Self {
            include_upper_case,
            include_lower_case,
            include_special_char,
            include_numeric,
            lang,
            spec_char,
            candidates: None,
        }
    }

    /// A model whose candidates are given directly.
    pub fn from_candidates(candidates: Vec<String>) -> (r: Self)
        ensures
            r.loaded() == Some(candidates.deep_view()),
    {
        Self {
            include_upper_case: false,
            include_lower_case: false,
            include_special_char: false,
            include_numeric: false,
            lang: SupportedLanguage::Unknown,
            spec_char: None,
            candidates: Some(candidates),
        }
    }

    fn get_special_chars(&self) -> (r: String)
        ensures
            r@ == self.special_chars(),
    {
        if let Some(data) = &self.spec_char {
            return data.clone();
        }
        String::from_str("!@#$%^&*()_+")
    }

    /// Build the candidates from the flags, unless they are already there.
    pub fn load_model(&mut self)
        ensures
            old(self).loaded() is Some ==> final(self).loaded() == old(self).loaded(),
            old(self).loaded() is None ==> final(self).loaded() == Some(old(self).synthesized()),
            final(self).synthesized() == old(self).synthesized(),
    {
        if let Some(_) = self.candidates {
            return;
        }
        let spec_val_str = self.get_special_chars();
        let mut candidates: Vec<String> = Vec::new();
        let (upper_lang, lower_lang) = match self.lang {
            SupportedLanguage::EN => ("ABCDEFGHIJKLMNOPQRSTUVWXYZ", "abcdefghijklmnopqrstuvwxyz"),
            SupportedLanguage::RU => (
                "АБВГДЕЁЖЗИЙКЛМНОПРСТУФХЦЧШЩЪЫЬЭЮЯ",
                "абвгдеёжзийклмнопрстуфхцчшщъыьэюя",
            ),
            SupportedLanguage::Unknown => ("", ""),
        };
        assert(upper_lang@ == upper_alphabet(self.lang));
        assert(lower_lang@ == lower_alphabet(self.lang));
        if self.include_upper_case {
            extend_with_chars(&mut candidates, upper_lang);
        }
        let ghost after_upper = candidates.deep_view();
        if self.include_lower_case {
            extend_with_chars(&mut candidates, lower_lang);
        }
        let ghost after_lower = candidates.deep_view();
        if self.include_numeric {
            extend_with_chars(&mut candidates, "0123456789");
        }
        if self.include_special_char {
            extend_with_chars(&mut candidates, spec_val_str.as_str());
        }
        assert(candidates.deep_view() =~= self.synthesized());
        self.candidates = Some(candidates)
    }
}

impl BaseModel for RandomCharModel {
    open spec fn has_key(&self, k: Seq<char>) -> bool {
        true
    }

    open spec fn candidates(&self, k: Seq<char>) -> Option<Seq<Seq<char>>> {
        self.loaded()
    }

    open spec fn model_wf(&self) -> bool {
        true
    }

    open spec fn mapping_spec(&self) -> Option<Mapping> {
        None
    }

    open spec fn stats_spec(&self) -> (nat, Seq<nat>) {
        match self.loaded() {
            Some(l) => (l.len(), Seq::empty()),
            None => (0, Seq::empty()),
        }
    }

    fn get_mapping(&self) -> (r: Option<&Mapping>) {
        None
    }

    /// Every text may be replaced by any of the candidates.
    fn key_exists(&self, _data: &str) -> (r: bool) {
        true
    }

    fn predict(&self, _data: &str) -> (r: Option<&Vec<String>>) {
        match &self.candidates {
            Some(c) => Some(c),
            None => None,
        }
    }

    fn get_stats(&self) -> (r: (usize, usize, Vec<(usize, usize)>)) {
        if let Some(data) = &self.candidates {
            return (data.len(), capacity_of(data), Vec::new());
        }
        (0, 0, Vec::new())
    }
}

/// Each pair (key, candidate) of a table.
pub open spec fn has_pair(m: Map<Seq<char>, Seq<Seq<char>>>, k: Seq<char>, v: Seq<char>) -> bool {
    m.contains_key(k) && m[k].contains(v)
}

/// Table that `reverse_mapping` makes of `old`: every trigger keeps its
/// candidates, in front, and each candidate `v` of a trigger `k` gets `k`
/// among its own candidates; nothing else is added.
pub open spec fn is_symmetric_closure(
    old: Map<Seq<char>, Seq<Seq<char>>>,
    new: Map<Seq<char>, Seq<Seq<char>>>,
) -> bool {
    &&& forall|k: Seq<char>| #[trigger] old.contains_key(k) ==> new.contains_key(k) && old[k].len()
        <= new[k].len() && new[k].take(old[k].len() as int) == old[k]
    &&& forall|k: Seq<char>, v: Seq<char>| #[trigger] has_pair(old, k, v) ==> has_pair(new, v, k)
    &&& forall|x: Seq<char>, y: Seq<char>| #[trigger] has_pair(new, x, y) ==> has_pair(old, x, y)
        || has_pair(old, y, x)
    &&& forall|x: Seq<char>| #[trigger] new.contains_key(x) ==> old.contains_key(x) || new[x].len() > 0
}

/// The table of an OCR model built from `src`: its symmetric closure, with
/// repeated candidates removed.
pub open spec fn ocr_table(
    src: Map<Seq<char>, Seq<Seq<char>>>,
    m: Map<Seq<char>, Seq<Seq<char>>>,
) -> bool {
    exists|sym: Map<Seq<char>, Seq<Seq<char>>>|
        is_symmetric_closure(src, sym) && m.dom() == sym.dom() && forall|k: Seq<char>|
            #[trigger] m.contains_key(k) ==> m[k] == crate::mapping::dedup(sym[k])
}

/// Model of visually similar characters (optical character recognition errors).
pub struct OcrModel {
    model_path: String,
    model: Option<Mapping>,
}

impl OcrModel {
    pub closed spec fn table(&self) -> Option<Mapping> {
        self.model
    }

    pub closed spec fn path(&self) -> Seq<char> {
        self.model_path@
    }

    /// Make a table symmetric: if 'l' looks like '1', then '1' looks like 'l'.
    pub fn reverse_mapping(mapping: &mut Mapping)
        requires
            old(mapping).wf(),
        ensures
            final(mapping).wf(),
            is_symmetric_closure(old(mapping)@, final(mapping)@),
    {
        let ghost m0 = mapping@;
        let n = mapping.len();
        let mut pairs: Vec<(String, String)> = Vec::new();
        proof {
            mapping.lemma_lens();
        }
        for i in 0..n
            invariant
                n == mapping.size(),
                mapping@ == m0,
                mapping.wf(),
                forall|t: int| 0 <= t < pairs@.len() ==> has_pair(m0, (#[trigger] pairs@[t]).1@, pairs@[t].0@),
                forall|i2: int, j2: int|
                    0 <= i2 < i && 0 <= j2 < m0[mapping.keys()[i2]].len() ==> #[trigger] has_pair(
                        m0,
                        m0[mapping.keys()[i2]][j2],
                        mapping.keys()[i2],
                    ) || pairs@.map_values(|p: (String, String)| (p.0@, p.1@)).contains(
                        (m0[mapping.keys()[i2]][j2], mapping.keys()[i2]),
                    ),
        {
            let key = mapping.key_at(i);
            let vals = mapping.values_at(i);
            proof {
                mapping.lemma_view_at(i as int);
            }
            for j in 0..vals.len()
                invariant
                    n == mapping.size(),
                    i < n,
                    mapping@ == m0,
                    mapping.wf(),
                    key@ == mapping.keys()[i as int],
                    m0.contains_key(key@),
                    vals.deep_view() == m0[key@],
                    forall|t: int| 0 <= t < pairs@.len() ==> has_pair(m0, (#[trigger] pairs@[t]).1@, pairs@[t].0@),
                    forall|i2: int, j2: int|
                        0 <= i2 < i && 0 <= j2 < m0[mapping.keys()[i2]].len() ==> #[trigger] has_pair(
                            m0,
                            m0[mapping.keys()[i2]][j2],
                            mapping.keys()[i2],
                        ) || pairs@.map_values(|p: (String, String)| (p.0@, p.1@)).contains(
                            (m0[mapping.keys()[i2]][j2], mapping.keys()[i2]),
                        ),
                    forall|j2: int|
                        0 <= j2 < j ==> #[trigger] has_pair(m0, m0[key@][j2], key@) || pairs@.map_values(
                            |p: (String, String)| (p.0@, p.1@),
                        ).contains((m0[key@][j2], key@)),
            {
                let value = &vals[j];
                assert(value@ == m0[key@][j as int]);
                let add = match mapping.get(value.as_str()) {
                    None => true,
                    Some(vnk) => !crate::mapping::contains_str(vnk, key.as_str()),
                };
                let ghost before = pairs@;
                if add {
                    pairs.push((String::from_str(value.as_str()), String::from_str(key.as_str())));
                    assert(m0[key@].contains(value@));
                }
                proof {
                    let f = |p: (String, String)| (p.0@, p.1@);
                    if add {
                        assert(pairs@.map_values(f) =~= before.map_values(f).push((value@, key@)));
                        assert(pairs@.map_values(f)[before.len() as int] == (value@, key@));
                    } else {
                        assert(pairs@ == before);
                    }
                    assert forall|x: (Seq<char>, Seq<char>)| before.map_values(f).contains(x) implies pairs@.map_values(f).contains(x) by {
                        if add {
                            let t = choose|t: int| 0 <= t < before.map_values(f).len() && before.map_values(f)[t] == x;
                            assert(pairs@.map_values(f)[t] == x);
                        }
                    }
                }
            }
        }
        let ghost pv = pairs@.map_values(|p: (String, String)| (p.0@, p.1@));
        assert forall|k: Seq<char>, v: Seq<char>| #[trigger] has_pair(m0, k, v) implies has_pair(m0, v, k) || pv.contains((v, k)) by {
            let i2 = mapping.lemma_index_of_key(k);
            mapping.lemma_view_at(i2);
            let j2 = m0[k].index_of(v);
            assert(m0[mapping.keys()[i2]][j2] == v);
        }
        let np = pairs.len();
        for t in 0..np
            invariant
                np == pairs@.len(),
                pv == pairs@.map_values(|p: (String, String)| (p.0@, p.1@)),
                mapping.wf(),
                forall|k: Seq<char>| #[trigger] m0.contains_key(k) ==> mapping@.contains_key(k) && m0[k].len()
                    <= mapping@[k].len() && mapping@[k].take(m0[k].len() as int) == m0[k],
                forall|t2: int| 0 <= t2 < t ==> #[trigger] has_pair(mapping@, pv[t2].0, pv[t2].1),
                forall|x: Seq<char>, y: Seq<char>| #[trigger] has_pair(mapping@, x, y) ==> has_pair(m0, x, y)
                    || pv.contains((x, y)),
                forall|x: Seq<char>| #[trigger] mapping@.contains_key(x) ==> m0.contains_key(x) || mapping@[x].len() > 0,
        {
            let k = String::from_str(pairs[t].0.as_str());
            let v = String::from_str(pairs[t].1.as_str());
            assert(pv[t as int] == (k@, v@));
            let ghost cur = mapping@;
            mapping.push_value(k, v);
            proof {
                assert forall|k2: Seq<char>| #[trigger] m0.contains_key(k2) implies mapping@.contains_key(k2) && m0[k2].len()
                    <= mapping@[k2].len() && mapping@[k2].take(m0[k2].len() as int) == m0[k2] by {
                    if k2 == k@ {
                        assert(cur[k2].push(v@).take(m0[k2].len() as int) =~= cur[k2].take(m0[k2].len() as int));
                    }
                }
                assert forall|t2: int| 0 <= t2 < t + 1 implies #[trigger] has_pair(mapping@, pv[t2].0, pv[t2].1) by {
                    if t2 < t && pv[t2].0 != k@ {
                        assert(has_pair(cur, pv[t2].0, pv[t2].1));
                    }
                    if t2 < t && pv[t2].0 == k@ {
                        let w = pv[t2].1;
                        assert(has_pair(cur, pv[t2].0, pv[t2].1));
                        let q = cur[k@].index_of(w);
                        assert(mapping@[k@][q] == w);
                    }
                    if t2 == t {
                        if cur.contains_key(k@) {
                            assert(mapping@[k@][cur[k@].len() as int] == v@);
                        } else {
                            assert(mapping@[k@][0] == v@);
                        }
                    }
                }
                assert forall|x: Seq<char>, y: Seq<char>| #[trigger] has_pair(mapping@, x, y) implies has_pair(m0, x, y)
                    || pv.contains((x, y)) by {
                    if x == k@ {
                        let q = mapping@[x].index_of(y);
                        if cur.contains_key(x) && q < cur[x].len() {
                            assert(cur[x][q] == y);
                            assert(has_pair(cur, x, y));
                        } else {
                            assert(y == v@);
                            assert(pv[t as int] == (x, y));
                            assert(pv.contains((x, y)));
                        }
                    } else {
                        assert(mapping@[x] == cur[x]);
                        assert(has_pair(cur, x, y));
                    }
                }
            }
        }
        proof {
            assert forall|k: Seq<char>, v: Seq<char>| #[trigger] has_pair(m0, k, v) implies has_pair(mapping@, v, k) by {
                if !has_pair(m0, v, k) {
                    let t2 = pv.index_of((v, k));
                    assert(has_pair(mapping@, pv[t2].0, pv[t2].1));
                } else {
                    let q = m0[v].index_of(k);
                    assert(mapping@[v][q] == k);
                }
            }
            assert forall|x: Seq<char>, y: Seq<char>| #[trigger] has_pair(mapping@, x, y) implies has_pair(m0, x, y)
                || has_pair(m0, y, x) by {
                if !has_pair(m0, x, y) {
                    let t2 = pv.index_of((x, y));
                    assert(has_pair(m0, pairs@[t2].1@, pairs@[t2].0@));
                }
            }
        }
    }

    /// A model whose table is read later from a file.
    pub fn new(model_path: String) -> (r: Self)
        ensures
            r.table() is None,
            r.path() == model_path@,
    {
        Self { model_path, model: None }
    }

    /// A model made from a table: made symmetric, then without repetitions.
    pub fn new_from_mapping(mapping: Mapping) -> (r: Self)
        requires
            mapping.wf(),
        ensures
            r.model_wf(),
            r.path() == "internal mapping"@,
            r.table() matches Some(m) && ocr_table(mapping@, m@),
    {
        let mut mapping = mapping;
        Self::reverse_mapping(&mut mapping);
        let ghost sym = mapping@;
        let deduplicated_mapping = mapping.deduplicated();
        OcrModel { model_path: String::from_str("internal mapping"), model: Some(deduplicated_mapping) }
    }

    /// Take the table read from the model's path, unless one is there already.
    pub fn load_model(&mut self, mapping_from_file: Mapping)
        requires
            old(self).model_wf(),
            mapping_from_file.wf(),
        ensures
            final(self).model_wf(),
            final(self).path() == old(self).path(),
            old(self).table() is Some ==> final(self).table() == old(self).table(),
            old(self).table() is None ==> (final(self).table() matches Some(m) && ocr_table(
                mapping_from_file@,
                m@,
            )),
    {
        if let Some(_) = self.model {
            return;
        }
        let mut mapping = mapping_from_file;
        Self::reverse_mapping(&mut mapping);
        self.model = Some(mapping.deduplicated());
    }

    /// Where the table is read from.
    pub fn model_path(&self) -> (r: &String)
        ensures
            r@ == self.path(),
    {
        &self.model_path
    }
}

impl BaseModel for OcrModel {
    open spec fn has_key(&self, k: Seq<char>) -> bool {
        self.table() matches Some(m) && m@.contains_key(k)
    }

    open spec fn candidates(&self, k: Seq<char>) -> Option<Seq<Seq<char>>> {
        match self.table() {
            Some(m) => if m@.contains_key(k) {
                Some(m@[k])
            } else {
                None
            },
            None => None,
        }
    }

    open spec fn model_wf(&self) -> bool {
        self.table() matches Some(m) ==> m.wf()
    }

    open spec fn mapping_spec(&self) -> Option<Mapping> {
        self.table()
    }

    open spec fn stats_spec(&self) -> (nat, Seq<nat>) {
        match self.table() {
            Some(m) => table_stats(m),
            None => (0, Seq::empty()),
        }
    }

    fn get_mapping(&self) -> (r: Option<&Mapping>) {
        match &self.model {
            Some(m) => Some(m),
            None => None,
        }
    }

    fn key_exists(&self, data: &str) -> (r: bool) {
        match &self.model {
            Some(m) => m.contains_key(data),
            None => false,
        }
    }

    fn predict(&self, data: &str) -> (r: Option<&Vec<String>>) {
        match &self.model {
            Some(m) => m.get(data),
            None => None,
        }
    }

    fn get_stats(&self) -> (r: (usize, usize, Vec<(usize, usize)>)) {
        match &self.model {
            Some(m) => mapping_stats(m),
            None => (0, 0, Vec::new()),
        }
    }
}

/// Whether every trigger and every candidate of a table is a non-empty text.
pub open spec fn nonempty_texts(m: Map<Seq<char>, Seq<Seq<char>>>) -> bool {
    forall|k: Seq<char>| #[trigger] m.contains_key(k) ==> k.len() > 0 && forall|i: int|
        0 <= i < m[k].len() ==> (#[trigger] m[k][i]).len() > 0
}

/// Whether a keyboard model with these flags keeps a text, judged by its first character.
pub open spec fn keyboard_keeps(allow_special_char: bool, allow_numeric: bool, s: Seq<char>) -> bool {
    (allow_special_char || alnum(s[0])) && (allow_numeric || !numeric(s[0]))
}

/// Candidates kept for a trigger: each kept value, preceded by its upper-case
/// form when upper case is on.
pub open spec fn keyboard_plain(
    allow_special_char: bool,
    allow_numeric: bool,
    upper_case: bool,
    arr: Seq<Seq<char>>,
) -> Seq<Seq<char>>
    decreases arr.len(),
{
    if arr.len() == 0 {
        Seq::empty()
    } else {
        let prev = keyboard_plain(allow_special_char, allow_numeric, upper_case, arr.drop_last());
        let v = arr.last();
        if keyboard_keeps(allow_special_char, allow_numeric, v) {
            if upper_case {
                prev.push(upper_of(v)).push(v)
            } else {
                prev.push(v)
            }
        } else {
            prev
        }
    }
}

/// Candidates for the upper-case form of a trigger: each kept value in
/// upper case, then as it is.
pub open spec fn keyboard_caps(allow_special_char: bool, allow_numeric: bool, arr: Seq<Seq<char>>) -> Seq<
    Seq<char>,
>
    decreases arr.len(),
{
    if arr.len() == 0 {
        Seq::empty()
    } else {
        let prev = keyboard_caps(allow_special_char, allow_numeric, arr.drop_last());
        let v = arr.last();
        if keyboard_keeps(allow_special_char, allow_numeric, v) {
            prev.push(upper_of(v)).push(v)
        } else {
            prev
        }
    }
}

/// The keyboard table built from the first `keys.len()` entries of a table, in order.
pub open spec fn keyboard_table(
    allow_special_char: bool,
    allow_numeric: bool,
    upper_case: bool,
    keys: Seq<Seq<char>>,
    vals: Seq<Seq<Seq<char>>>,
) -> Map<Seq<char>, Seq<Seq<char>>>
    decreases keys.len(),
{
    if keys.len() == 0 {
        Map::empty()
    } else {
        let prev = keyboard_table(
            allow_special_char,
            allow_numeric,
            upper_case,
            keys.drop_last(),
            vals.drop_last(),
        );
        let k = keys.last();
        let arr = vals[keys.len() - 1];
        if !keyboard_keeps(allow_special_char, allow_numeric, k) {
            prev
        } else {
            let caps = if upper_case && k != upper_of(k) {
                keyboard_caps(allow_special_char, allow_numeric, arr)
            } else {
                Seq::empty()
            };
            let plain = keyboard_plain(allow_special_char, allow_numeric, upper_case, arr);
            let m1 = if caps.len() > 0 {
                prev.insert(upper_of(k), caps)
            } else {
                prev
            };
            if plain.len() > 0 {
                m1.insert(k, plain)
            } else {
                m1
            }
        }
    }
}

/// Model of keys that lie close together on a keyboard.
pub struct KeyboardModel {
    allow_special_char: bool,
    allow_numeric: bool,
    upper_case: bool,
    model_path: String,
    model: Option<Mapping>,
}

impl KeyboardModel {
    pub closed spec fn table(&self) -> Option<Mapping> {
        self.model
    }

    pub closed spec fn flags(&self) -> (bool, bool, bool) {
        (self.allow_special_char, self.allow_numeric, self.upper_case)
    }

    pub closed spec fn path(&self) -> Seq<char> {
        self.model_path@
    }

    /// Whether a text may stand in the table: a special character only if
    /// those are allowed, a digit only if those are allowed.
    pub fn check_conditions(&self, input: &str) -> (r: bool)
        requires
            input@.len() > 0,
        ensures
            r == keyboard_keeps(self.flags().0, self.flags().1, input@),
    {
        let character = input.get_char(0);
        let spec_char_cond_met = self.allow_special_char || crate::text::is_alnum(character);
        let num_cond_met = self.allow_numeric || !crate::text::is_numeric(character);
        spec_char_cond_met && num_cond_met
    }

    pub fn get_allow_special_char(&self) -> (r: bool)
        ensures
            r == self.flags().0,
    {
        self.allow_special_char
    }

    pub fn new(allow_special_char: bool, allow_numeric: bool, upper_case: bool, model_path: String) -> (r:
        Self)
        ensures
            r.table() is None,
            r.flags() == (allow_special_char, allow_numeric, upper_case),
            r.path() == model_path@,
    {
        Self { allow_special_char, allow_numeric, upper_case, model_path, model: None }
    }

    fn plain_and_caps(&self, arr: &Vec<String>, upper_diff: bool) -> (r: (Vec<String>, Vec<String>))
        requires
            forall|i: int| 0 <= i < arr@.len() ==> (#[trigger] arr@[i])@.len() > 0,
        ensures
            r.0.deep_view() == keyboard_plain(self.flags().0, self.flags().1, self.flags().2, arr.deep_view()),
            upper_diff ==> r.1.deep_view() == keyboard_caps(self.flags().0, self.flags().1, arr.deep_view()),
            !upper_diff ==> r.1.deep_view() == Seq::<Seq<char>>::empty(),
    {
        let mut arr_to_key: Vec<String> = Vec::new();
        let mut arr_to_caps_key: Vec<String> = Vec::new();
        let ghost (a, b, c) = self.flags();
        for i in 0..arr.len()
            invariant
                forall|i: int| 0 <= i < arr@.len() ==> (#[trigger] arr@[i])@.len() > 0,
                (a, b, c) == self.flags(),
                arr_to_key.deep_view() == keyboard_plain(a, b, c, arr.deep_view().take(i as int)),
                upper_diff ==> arr_to_caps_key.deep_view() == keyboard_caps(a, b, arr.deep_view().take(i as int)),
                !upper_diff ==> arr_to_caps_key.deep_view() == Seq::<Seq<char>>::empty(),
        {
            let value = &arr[i];
            proof {
                assert(arr.deep_view().take(i + 1).drop_last() =~= arr.deep_view().take(i as int));
                assert(arr.deep_view().take(i + 1).last() == value@);
            }
            if self.check_conditions(value.as_str()) {
                if upper_diff {
                    let ghost before = arr_to_caps_key.deep_view();
                    arr_to_caps_key.push(crate::text::to_upper(value.as_str()));
                    arr_to_caps_key.push(String::from_str(value.as_str()));
                    assert(arr_to_caps_key.deep_view() =~= before.push(upper_of(value@)).push(value@));
                }
                let ghost before = arr_to_key.deep_view();
                if self.upper_case {
                    arr_to_key.push(crate::text::to_upper(value.as_str()));
                }
                arr_to_key.push(String::from_str(value.as_str()));
                proof {
                    if c {
                        assert(arr_to_key.deep_view() =~= before.push(upper_of(value@)).push(value@));
                    } else {
                        assert(arr_to_key.deep_view() =~= before.push(value@));
                    }
                }
            }
        }
        assert(arr.deep_view().take(arr.len() as int) =~= arr.deep_view());
        (arr_to_key, arr_to_caps_key)
    }

    /// Build the table from the one read from the model's path, unless one is there already.
    pub fn load_model(&mut self, mapping_from_file: Mapping)
        requires
            old(self).model_wf(),
            mapping_from_file.wf(),
            nonempty_texts(mapping_from_file@),
        ensures
            final(self).model_wf(),
            final(self).flags() == old(self).flags(),
            final(self).path() == old(self).path(),
            old(self).table() is Some ==> final(self).table() == old(self).table(),
            old(self).table() is None ==> (final(self).table() matches Some(m) && m@.dom()
                == keyboard_table(
                old(self).flags().0,
                old(self).flags().1,
                old(self).flags().2,
                mapping_from_file.keys(),
                mapping_from_file.vals(),
            ).dom() && forall|k: Seq<char>|
                #[trigger] m@.contains_key(k) ==> m@[k] == crate::mapping::dedup(
                    keyboard_table(
                        old(self).flags().0,
                        old(self).flags().1,
                        old(self).flags().2,
                        mapping_from_file.keys(),
                        mapping_from_file.vals(),
                    )[k],
                )),
    {
        if let Some(_) = self.model {
            return;
        }
        let ghost (a, b, c) = self.flags();
        let ghost keys = mapping_from_file.keys();
        let ghost vals = mapping_from_file.vals();
        let mut keyboard_mapping = Mapping::new();
        let n = mapping_from_file.len();
        proof {
            mapping_from_file.lemma_lens();
        }
        for i in 0..n
            invariant
                n == keys.len(),
                vals.len() == keys.len(),
                keys == mapping_from_file.keys(),
                vals == mapping_from_file.vals(),
                mapping_from_file.wf(),
                nonempty_texts(mapping_from_file@),
                (a, b, c) == self.flags(),
                keyboard_mapping.wf(),
                keyboard_mapping@ == keyboard_table(a, b, c, keys.take(i as int), vals.take(i as int)),
        {
            let key = mapping_from_file.key_at(i);
            let arr = mapping_from_file.values_at(i);
            proof {
                mapping_from_file.lemma_view_at(i as int);
                assert(keys.take(i + 1).drop_last() =~= keys.take(i as int));
                assert(vals.take(i + 1).drop_last() =~= vals.take(i as int));
                assert(keys.take(i + 1).last() == key@);
                assert(vals.take(i + 1)[i as int] == arr.deep_view());
                assert(mapping_from_file@[key@] == arr.deep_view());
                assert forall|j: int| 0 <= j < arr@.len() implies (#[trigger] arr@[j])@.len() > 0 by {
                    assert(arr.deep_view()[j] == arr@[j]@);
                }
            }
            if self.check_conditions(key.as_str()) {
                let upper_key = crate::text::to_upper(key.as_str());
                let upper_diff = self.upper_case && !crate::text::str_eq(key.as_str(), upper_key.as_str());
                let (arr_to_key, arr_to_caps_key) = self.plain_and_caps(arr, upper_diff);
                if arr_to_caps_key.len() > 0 {
                    keyboard_mapping.insert(upper_key, arr_to_caps_key);
                }
                if arr_to_key.len() > 0 {
                    keyboard_mapping.insert(String::from_str(key.as_str()), arr_to_key);
                }
            }
        }
        proof {
            assert(keys.take(n as int) =~= keys);
            assert(vals.take(n as int) =~= vals);
        }
        self.model = Some(keyboard_mapping.deduplicated());
    }

    /// Where the table is read from.
    pub fn model_path(&self) -> (r: &String)
        ensures
            r@ == self.path(),
    {
        &self.model_path
    }
}

impl BaseModel for KeyboardModel {
    open spec fn has_key(&self, k: Seq<char>) -> bool {
        self.table() matches Some(m) && m@.contains_key(k)
    }

    open spec fn candidates(&self, k: Seq<char>) -> Option<Seq<Seq<char>>> {
        match self.table() {
            Some(m) => if m@.contains_key(k) {
                Some(m@[k])
            } else {
                None
            },
            None => None,
        }
    }

    open spec fn model_wf(&self) -> bool {
        self.table() matches Some(m) ==> m.wf()
    }

    open spec fn mapping_spec(&self) -> Option<Mapping> {
        self.table()
    }

    open spec fn stats_spec(&self) -> (nat, Seq<nat>) {
        match self.table() {
            Some(m) => table_stats(m),
            None => (0, Seq::empty()),
        }
    }

    fn get_mapping(&self) -> (r: Option<&Mapping>) {
        match &self.model {
            Some(m) => Some(m),
            None => None,
        }
    }

    fn key_exists(&self, data: &str) -> (r: bool) {
        match &self.model {
            Some(m) => m.contains_key(data),
            None => false,
        }
    }

    fn predict(&self, data: &str) -> (r: Option<&Vec<String>>) {
        match &self.model {
            Some(m) => m.get(data),
            None => None,
        }
    }

    fn get_stats(&self) -> (r: (usize, usize, Vec<(usize, usize)>)) {
        match &self.model {
            Some(m) => mapping_stats(m),
            None => (0, 0, Vec::new()),
        }
    }
}

} // verus!
