//! Substitution tables: each trigger string maps to a list of candidates.
use crate::text::str_eq;
use vstd::prelude::*;
use vstd::string::*;

verus! {

/// Relies on Vec::capacity: never less than the length.
#[verifier::external_body]
pub(crate) fn capacity_of<T>(v: &Vec<T>) -> (r: usize)
    ensures
        r >= v@.len(),
{
    v.capacity()
}

/// Whether a list of strings holds a given text.
pub fn contains_str(v: &Vec<String>, s: &str) -> (r: bool)
    ensures
        r == v.deep_view().contains(s@),
{
    let mut i: usize = 0;
    while i < v.len()
        invariant
            i <= v@.len(),
            forall|j: int| 0 <= j < i ==> v@[j]@ != s@,
        decreases v@.len() - i,
    {
        if str_eq(v[i].as_str(), s) {
            assert(v.deep_view()[i as int] == s@);
            return true;
        }
        i += 1;
    }
    proof {
        if v.deep_view().contains(s@) {
            let k = choose|k: int| 0 <= k < v.deep_view().len() && v.deep_view()[k] == s@;
            assert(v@[k]@ == s@);
        }
    }
    false
}

/// A list of texts with each repeated element dropped after its first occurrence.
pub open spec fn dedup(s: Seq<Seq<char>>) -> Seq<Seq<char>>
    decreases s.len(),
{
    if s.len() == 0 {
        Seq::empty()
    } else {
        let p = dedup(s.drop_last());
        if p.contains(s.last()) {
            p
        } else {
            p.push(s.last())
        }
    }
}

/// A copy of a list of strings.
pub fn clone_strings(v: &Vec<String>) -> (r: Vec<String>)
    ensures
        r.deep_view() == v.deep_view(),
{
    let mut r: Vec<String> = Vec::new();
    for i in 0..v.len()
        invariant
            r.deep_view() == v.deep_view().take(i as int),
    {
        let ghost before = r.deep_view();
        r.push(String::from_str(v[i].as_str()));
        assert(r.deep_view() =~= before.push(v@[i as int]@));
        assert(v.deep_view().take(i + 1) =~= v.deep_view().take(i as int).push(v@[i as int]@));
    }
    assert(v.deep_view().take(v.len() as int) =~= v.deep_view());
    r
}

/// A copy of a list of strings without repetitions.
pub fn dedup_strings(v: &Vec<String>) -> (r: Vec<String>)
    ensures
        r.deep_view() == dedup(v.deep_view()),
{
    let mut r: Vec<String> = Vec::new();
    for i in 0..v.len()
        invariant
            r.deep_view() == dedup(v.deep_view().take(i as int)),
    {
        let ghost before = r.deep_view();
        assert(v.deep_view().take(i + 1).drop_last() =~= v.deep_view().take(i as int));
        if !contains_str(&r, v[i].as_str()) {
            r.push(String::from_str(v[i].as_str()));
            assert(r.deep_view() =~= before.push(v[i as int]@));
        }
    }
    assert(v.deep_view().take(v.len() as int) =~= v.deep_view());
    r
}

/// The table that inserting the pairs in order gives.
pub open spec fn pairs_map(ps: Seq<(Seq<char>, Seq<Seq<char>>)>) -> Map<Seq<char>, Seq<Seq<char>>>
    decreases ps.len(),
{
    if ps.len() == 0 {
        Map::empty()
    } else {
        pairs_map(ps.drop_last()).insert(ps.last().0, ps.last().1)
    }
}

/// A table from trigger strings to candidate lists, with each trigger at most once.
#[derive(Debug)]
pub struct Mapping {
    entries: Vec<(String, Vec<String>)>,
}

impl Mapping {
    pub closed spec fn keys(&self) -> Seq<Seq<char>> {
        self.entries@.map_values(|e: (String, Vec<String>)| e.0@)
    }

    pub closed spec fn vals(&self) -> Seq<Seq<Seq<char>>> {
        self.entries@.map_values(|e: (String, Vec<String>)| e.1.deep_view())
    }

    pub closed spec fn wf(&self) -> bool {
        self.keys().no_duplicates()
    }

    /// Number of triggers.
    pub open spec fn size(&self) -> nat {
        self.keys().len()
    }

    pub proof fn lemma_lens(&self)
        ensures
            self.vals().len() == self.size(),
    {
    }

    pub proof fn lemma_view_at(&self, i: int)
        requires
            self.wf(),
            0 <= i < self.size(),
        ensures
            self@.contains_key(self.keys()[i]),
            self@[self.keys()[i]] == self.vals()[i],
            self.vals().len() == self.size(),
    {
        let k = self.keys()[i];
        assert(self.keys().contains(k));
        let j = self.keys().index_of(k);
        assert(self.keys()[j] == k);
    }

    pub proof fn lemma_index_of_key(&self, k: Seq<char>) -> (i: int)
        requires
            self.wf(),
            self@.contains_key(k),
        ensures
            0 <= i < self.size(),
            self.keys()[i] == k,
    {
        self.keys().index_of(k)
    }

    pub proof fn lemma_dom_size(&self)
        requires
            self.wf(),
        ensures
            self@.dom().len() == self.size(),
            self@.dom() == self.keys().to_set(),
    {
        self.keys().unique_seq_to_set();
        assert(self@.dom() =~= self.keys().to_set());
    }
}

impl View for Mapping {
    type V = Map<Seq<char>, Seq<Seq<char>>>;

    closed spec fn view(&self) -> Map<Seq<char>, Seq<Seq<char>>> {
        Map::new(
            |k: Seq<char>| self.keys().contains(k),
            |k: Seq<char>| self.vals()[self.keys().index_of(k)],
        )
    }
}

impl Mapping {
    pub fn new() -> (r: Self)
        ensures
            r.wf(),
            r@ == Map::<Seq<char>, Seq<Seq<char>>>::empty(),
    {
        let r = Mapping { entries: Vec::new() };
        assert(r@ =~= Map::<Seq<char>, Seq<Seq<char>>>::empty());
        r
    }

    pub fn with_capacity(capacity: usize) -> (r: Self)
        ensures
            r.wf(),
            r@ == Map::<Seq<char>, Seq<Seq<char>>>::empty(),
    {
        let r = Mapping { entries: Vec::with_capacity(capacity) };
        assert(r@ =~= Map::<Seq<char>, Seq<Seq<char>>>::empty());
        r
    }

    /// Position of a trigger, if present.
    fn find(&self, key: &str) -> (r: Option<usize>)
        requires
            self.wf(),
        ensures
            r matches Some(i) ==> i < self.size() && self.keys()[i as int] == key@,
            r is None ==> !self.keys().contains(key@),
    {
        let mut i: usize = 0;
        while i < self.entries.len()
            invariant
                i <= self.entries@.len(),
                forall|j: int| 0 <= j < i ==> self.keys()[j] != key@,
            decreases self.entries@.len() - i,
        {
            if str_eq(self.entries[i].0.as_str(), key) {
                return Some(i);
            }
            i += 1;
        }
        None
    }

    /// Set the candidates of a trigger, replacing any it had.
    pub fn insert(&mut self, key: String, value: Vec<String>)
        requires
            old(self).wf(),
        ensures
            final(self).wf(),
            final(self)@ == old(self)@.insert(key@, value.deep_view()),
    {
        let ghost k = key@;
        let ghost v = value.deep_view();
        match self.find(key.as_str()) {
            Some(i) => {
                let ghost before = self.entries@;
                self.entries.set(i, (key, value));
                assert(self.keys() =~= old(self).keys());
                assert(self.vals() =~= old(self).vals().update(i as int, v));
                assert forall|kk: Seq<char>| self.keys().contains(kk) implies self.keys().index_of(kk)
                    == old(self).keys().index_of(kk) by {}
                assert(self@ =~= old(self)@.insert(k, v));
            },
            None => {
                self.entries.push((key, value));
                assert(self.keys() =~= old(self).keys().push(k));
                assert(self.vals() =~= old(self).vals().push(v));
                assert(self.keys().no_duplicates());
                assert forall|kk: Seq<char>| old(self).keys().contains(kk) implies self.keys().index_of(
                    kk,
                ) == old(self).keys().index_of(kk) by {
                    let j = old(self).keys().index_of(kk);
                    assert(self.keys()[j] == kk);
                    assert(self.keys().contains(kk));
                    let j2 = self.keys().index_of(kk);
                    assert(self.keys()[j2] == kk);
                }
                assert(self.keys().index_of(k) == old(self).keys().len()) by {
                    assert(self.keys()[old(self).keys().len() as int] == k);
                    assert(self.keys().contains(k));
                }
                assert forall|kk: Seq<char>| #[trigger] self@.contains_key(kk) == old(self)@.insert(k, v).contains_key(kk) by {
                    if old(self).keys().contains(kk) {
                        let j = old(self).keys().index_of(kk);
                        assert(self.keys()[j] == kk);
                    }
                    if self.keys().contains(kk) && kk != k {
                        let j = self.keys().index_of(kk);
                        assert(old(self).keys()[j] == kk);
                    }
                    if kk == k {
                        assert(self.keys()[old(self).keys().len() as int] == k);
                    }
                }
                assert forall|kk: Seq<char>| #[trigger] self@.contains_key(kk) implies self@[kk] == old(self)@.insert(k, v)[kk] by {
                    if kk != k {
                        let j = self.keys().index_of(kk);
                        assert(old(self).keys()[j] == kk);
                        assert(old(self).keys().contains(kk));
                    }
                }
                assert(self@ =~= old(self)@.insert(k, v));
            },
        }
    }

    /// A table built from pairs, in order; a later pair for the same trigger wins.
    pub fn from_pairs(pairs: Vec<(String, Vec<String>)>) -> (r: Self)
        ensures
            r.wf(),
            r@ == pairs_map(pairs.deep_view()),
    {
        let mut r = Mapping::new();
        let ghost dv = pairs.deep_view();
        let ghost pv = pairs@;
        for p in it: pairs
            invariant
                r.wf(),
                it.seq() == pv,
                dv.len() == pairs@.len(),
                forall|j: int| 0 <= j < dv.len() ==> #[trigger] dv[j] == (pv[j].0@, pv[j].1.deep_view()),
                r@ == pairs_map(dv.take(it.index() as int)),
        {
            let ghost i = it.index();
            proof {
                assert(dv.take(i + 1).drop_last() =~= dv.take(i as int));
                assert(dv[i as int] == (pv[i as int].0@, pv[i as int].1.deep_view()));
            }
            r.insert(p.0, p.1);
        }
        assert(dv.take(dv.len() as int) =~= dv);
        r
    }

    /// The candidates of a trigger.
    pub fn get(&self, key: &str) -> (r: Option<&Vec<String>>)
        requires
            self.wf(),
        ensures
            r is Some == self@.contains_key(key@),
            r matches Some(v) ==> v.deep_view() == self@[key@],
    {
        match self.find(key) {
            Some(i) => {
                proof {
                    self.lemma_view_at(i as int);
                }
                assert(self.entries@[i as int].1.deep_view() == self.vals()[i as int]);
                Some(&self.entries[i].1)
            },
            None => None,
        }
    }

    pub fn contains_key(&self, key: &str) -> (r: bool)
        requires
            self.wf(),
        ensures
            r == self@.contains_key(key@),
    {
        self.find(key).is_some()
    }

    /// Number of triggers.
    pub fn len(&self) -> (r: usize)
        ensures
            r == self.size(),
    {
        self.entries.len()
    }

    /// Room for triggers without reallocating.
    pub fn capacity(&self) -> (r: usize)
        ensures
            r >= self.size(),
    {
        capacity_of(&self.entries)
    }

    /// The trigger at a position.
    pub fn key_at(&self, i: usize) -> (r: &String)
        requires
            i < self.size(),
        ensures
            r@ == self.keys()[i as int],
    {
        &self.entries[i].0
    }

    /// The candidates at a position.
    pub fn values_at(&self, i: usize) -> (r: &Vec<String>)
        requires
            i < self.size(),
        ensures
            r.deep_view() == self.vals()[i as int],
    {
        &self.entries[i].1
    }

    /// Append a candidate to a trigger's list, creating the list if needed.
    pub fn push_value(&mut self, key: String, value: String)
        requires
            old(self).wf(),
        ensures
            final(self).wf(),
            final(self)@ == old(self)@.insert(
                key@,
                if old(self)@.contains_key(key@) {
                    old(self)@[key@].push(value@)
                } else {
                    seq![value@]
                },
            ),
    {
        let mut vs = match self.get(key.as_str()) {
            Some(v) => clone_strings(v),
            None => Vec::new(),
        };
        let ghost before = vs.deep_view();
        vs.push(value);
        assert(vs.deep_view() =~= before.push(value@));
        proof {
            if !old(self)@.contains_key(key@) {
                assert(vs.deep_view() =~= seq![value@]);
            }
        }
        self.insert(key, vs);
    }

    /// The same table with repeated candidates of each trigger removed; the
    /// first occurrence of each is kept.
    pub fn deduplicated(self) -> (r: Mapping)
        requires
            self.wf(),
        ensures
            r.wf(),
            r@.dom() == self@.dom(),
            forall|k: Seq<char>| #[trigger] r@.contains_key(k) ==> r@[k] == dedup(self@[k]),
    {
        let ghost keys0 = self.keys();
        let ghost vals0 = self.vals();
        let ghost ents = self.entries@;
        let mut entries: Vec<(String, Vec<String>)> = Vec::new();
        for e in it: self.entries
            invariant
                it.seq() == ents,
                keys0 == ents.map_values(|e: (String, Vec<String>)| e.0@),
                vals0 == ents.map_values(|e: (String, Vec<String>)| e.1.deep_view()),
                entries@.len() == it.index(),
                forall|j: int| 0 <= j < it.index() ==> (#[trigger] entries@[j]).0@ == keys0[j]
                    && entries@[j].1.deep_view() == dedup(vals0[j]),
        {
            let d = dedup_strings(&e.1);
            entries.push((e.0, d));
        }
        let r = Mapping { entries };
        assert(r.keys() =~= keys0);
        assert forall|k: Seq<char>| #[trigger] r@.contains_key(k) implies r@[k] == dedup(self@[k]) by {
            let j = keys0.index_of(k);
            assert(r.vals()[j] == dedup(vals0[j]));
        }
        assert(r@.dom() =~= self@.dom());
        r
    }
}

impl Mapping {
    /// An equal copy.
    pub fn duplicate(&self) -> (r: Mapping)
        requires
            self.wf(),
        ensures
            r.wf(),
            r@ == self@,
    {
        let mut entries: Vec<(String, Vec<String>)> = Vec::new();
        for i in 0..self.entries.len()
            invariant
                entries@.len() == i,
                i <= self.entries@.len(),
                forall|j: int| 0 <= j < i ==> (#[trigger] entries@[j]).0@ == self.keys()[j]
                    && entries@[j].1.deep_view() == self.vals()[j],
        {
            let k = String::from_str(self.entries[i].0.as_str());
            let v = clone_strings(&self.entries[i].1);
            entries.push((k, v));
        }
        let r = Mapping { entries };
        assert(r.keys() =~= self.keys());
        assert(r.vals() =~= self.vals());
        r
    }
}

/// Whether two lists of strings hold the same set of texts.
pub fn same_elements(a: &Vec<String>, b: &Vec<String>) -> (r: bool)
    ensures
        r == (a.deep_view().to_set() == b.deep_view().to_set()),
{
    let mut i: usize = 0;
    while i < a.len()
        invariant
            i <= a@.len(),
            forall|j: int| 0 <= j < i ==> b.deep_view().contains(#[trigger] a.deep_view()[j]),
        decreases a@.len() - i,
    {
        if !contains_str(b, a[i].as_str()) {
            assert(a.deep_view()[i as int] == a@[i as int]@);
            assert(a.deep_view().to_set().contains(a.deep_view()[i as int]));
            return false;
        }
        i += 1;
    }
    let mut k: usize = 0;
    while k < b.len()
        invariant
            k <= b@.len(),
            forall|j: int| 0 <= j < a@.len() ==> b.deep_view().contains(#[trigger] a.deep_view()[j]),
            forall|j: int| 0 <= j < k ==> a.deep_view().contains(#[trigger] b.deep_view()[j]),
        decreases b@.len() - k,
    {
        if !contains_str(a, b[k].as_str()) {
            assert(b.deep_view()[k as int] == b@[k as int]@);
            assert(b.deep_view().to_set().contains(b.deep_view()[k as int]));
            return false;
        }
        k += 1;
    }
    assert forall|x: Seq<char>| a.deep_view().to_set().contains(x) == b.deep_view().to_set().contains(x) by {
        if a.deep_view().contains(x) {
            let j = choose|j: int| 0 <= j < a.deep_view().len() && a.deep_view()[j] == x;
            assert(b.deep_view().contains(a.deep_view()[j]));
        }
        if b.deep_view().contains(x) {
            let j = choose|j: int| 0 <= j < b.deep_view().len() && b.deep_view()[j] == x;
            assert(a.deep_view().contains(b.deep_view()[j]));
        }
    }
    assert(a.deep_view().to_set() =~= b.deep_view().to_set());
    true
}

/// A table whose candidate lists are compared as sets.
#[derive(Debug)]
pub struct MappingSet {
    table: Mapping,
}

impl View for MappingSet {
    type V = Map<Seq<char>, Set<Seq<char>>>;

    closed spec fn view(&self) -> Map<Seq<char>, Set<Seq<char>>> {
        self.table@.map_values(|v: Seq<Seq<char>>| v.to_set())
    }
}

impl MappingSet {
    #[verifier::type_invariant]
    closed spec fn inv(&self) -> bool {
        self.table.wf()
    }

    /// A table built from pairs, in order; a later pair for the same trigger wins.
    pub fn from_pairs(pairs: Vec<(String, Vec<String>)>) -> (r: Self)
        ensures
            r@ == pairs_map(pairs.deep_view()).map_values(|v: Seq<Seq<char>>| v.to_set()),
    {
        MappingSet { table: Mapping::from_pairs(pairs) }
    }
}

/// The table with each candidate list seen as a set.
pub fn transform_to_set(mapping: &Mapping) -> (r: MappingSet)
    requires
        mapping.wf(),
    ensures
        r@ == mapping@.map_values(|v: Seq<Seq<char>>| v.to_set()),
{
    MappingSet { table: mapping.duplicate() }
}

impl PartialEq for MappingSet {
    fn eq(&self, other: &MappingSet) -> (r: bool) {
        proof {
            use_type_invariant(self);
            use_type_invariant(other);
            self.table.lemma_dom_size();
            other.table.lemma_dom_size();
            self.table.lemma_lens();
        }
        let n = self.table.len();
        if n != other.table.len() {
            proof {
                assert(self@.dom() =~= self.table@.dom());
                assert(other@.dom() =~= other.table@.dom());
                if self@ == other@ {
                    assert(self.table@.dom() =~= other.table@.dom());
                }
            }
            return false;
        }
        for i in 0..n
            invariant
                n == self.table.size(),
                n == other.table.size(),
                self.table.wf(),
                other.table.wf(),
                self.table.vals().len() == n,
                forall|j: int| 0 <= j < i ==> other.table@.contains_key(#[trigger] self.table.keys()[j])
                    && other.table@[self.table.keys()[j]].to_set() == self.table.vals()[j].to_set(),
        {
            let k = self.table.key_at(i);
            proof {
                self.table.lemma_view_at(i as int);
            }
            match other.table.get(k.as_str()) {
                None => {
                    proof {
                        assert(self@.contains_key(k@));
                        assert(!other@.contains_key(k@));
                    }
                    return false;
                },
                Some(v2) => {
                    if !same_elements(self.table.values_at(i), v2) {
                        proof {
                            assert(self@[k@] == self.table.vals()[i as int].to_set());
                            assert(other@[k@] == v2.deep_view().to_set());
                        }
                        return false;
                    }
                },
            }
        }
        proof {
            assert(self.table@.dom().subset_of(other.table@.dom())) by {
                assert forall|x: Seq<char>| self.table@.dom().contains(x) implies other.table@.dom().contains(x) by {
                    let j = self.table.lemma_index_of_key(x);
                }
            }
            self.table.keys().unique_seq_to_set();
            other.table.keys().unique_seq_to_set();
            vstd::set_lib::lemma_subset_equality(self.table@.dom(), other.table@.dom());
            assert forall|x: Seq<char>| #[trigger] self@.contains_key(x) implies self@[x] == other@[x] by {
                let j = self.table.lemma_index_of_key(x);
                self.table.lemma_view_at(j);
            }
            assert(self@ =~= other@);
        }
        true
    }
}

impl vstd::std_specs::cmp::PartialEqSpecImpl for MappingSet {
    open spec fn obeys_eq_spec() -> bool {
        true
    }

    open spec fn eq_spec(&self, other: &MappingSet) -> bool {
        self@ == other@
    }
}

} // verus!
