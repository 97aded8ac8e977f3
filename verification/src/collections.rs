//! Ordered string-keyed collections: `NameMap<V>` behaves as a
//! `BTreeMap<String, V>` and `IdSet` as a `BTreeSet<String>`. Both keep their
//! keys strictly increasing in code-point order, so iteration visits keys in the
//! same order as the std collections do.

use vstd::prelude::*;
use crate::text::{lex_lt, same_text, text_less, lemma_lex_irreflexive, lemma_lex_asymmetric,
    lemma_lex_total, lemma_lex_transitive};

verus! {

/// Every earlier key is strictly below every later one.
pub open spec fn strictly_sorted(ks: Seq<Seq<char>>) -> bool {
    forall|i: int, j: int| 0 <= i < j < ks.len() ==> lex_lt(#[trigger] ks[i], #[trigger] ks[j])
}

pub proof fn lemma_sorted_distinct(ks: Seq<Seq<char>>, i: int, j: int)
    requires
        strictly_sorted(ks),
        0 <= i < ks.len(),
        0 <= j < ks.len(),
        i != j,
    ensures
        ks[i] != ks[j],
{
    if i < j {
        assert(lex_lt(ks[i], ks[j]));
        lemma_lex_irreflexive(ks[i]);
    } else {
        assert(lex_lt(ks[j], ks[i]));
        lemma_lex_irreflexive(ks[j]);
    }
}

/// Inserting `k` at `p` keeps a sorted key sequence sorted when everything
/// before `p` is below `k` and the key at `p` (if any) is above it.
pub proof fn lemma_sorted_insert(ks: Seq<Seq<char>>, p: int, k: Seq<char>)
    requires
        strictly_sorted(ks),
        0 <= p <= ks.len(),
        forall|i: int| 0 <= i < p ==> lex_lt(#[trigger] ks[i], k),
        p < ks.len() ==> lex_lt(k, ks[p]),
    ensures
        strictly_sorted(ks.insert(p, k)),
{
    let n = ks.insert(p, k);
    assert forall|i: int, j: int| 0 <= i < j < n.len() implies lex_lt(#[trigger] n[i], #[trigger] n[j]) by {
        if j < p {
        } else if j == p {
        } else if i < p {
            // n[j] == ks[j - 1], with j - 1 >= p
            assert(lex_lt(ks[i], k));
            if j - 1 == p {
                lemma_lex_transitive(ks[i], k, ks[p]);
            } else {
                assert(lex_lt(ks[p], ks[j - 1]));
                lemma_lex_transitive(k, ks[p], ks[j - 1]);
                lemma_lex_transitive(ks[i], k, ks[j - 1]);
            }
        } else if i == p {
            if j - 1 > p {
                assert(lex_lt(ks[p], ks[j - 1]));
                lemma_lex_transitive(k, ks[p], ks[j - 1]);
            }
        } else {
        }
    }
}

pub proof fn lemma_sorted_remove(ks: Seq<Seq<char>>, p: int)
    requires
        strictly_sorted(ks),
        0 <= p < ks.len(),
    ensures
        strictly_sorted(ks.remove(p)),
{
    let n = ks.remove(p);
    assert forall|i: int, j: int| 0 <= i < j < n.len() implies lex_lt(#[trigger] n[i], #[trigger] n[j]) by {
        if j < p {
        } else if i < p {
            assert(n[j] == ks[j + 1]);
        } else {
            assert(n[i] == ks[i + 1]);
            assert(n[j] == ks[j + 1]);
        }
    }
}

pub proof fn lemma_sorted_push(ks: Seq<Seq<char>>, k: Seq<char>)
    requires
        strictly_sorted(ks),
        ks.len() > 0 ==> lex_lt(ks.last(), k),
    ensures
        strictly_sorted(ks.push(k)),
{
    let n = ks.push(k);
    assert forall|i: int, j: int| 0 <= i < j < n.len() implies lex_lt(#[trigger] n[i], #[trigger] n[j]) by {
        if j == ks.len() {
            if i < ks.len() - 1 {
                lemma_lex_transitive(ks[i], ks.last(), k);
            }
        }
    }
}

pub open spec fn index_in(ks: Seq<Seq<char>>, k: Seq<char>) -> int {
    choose|i: int| 0 <= i < ks.len() && ks[i] == k
}

pub proof fn lemma_index_in(ks: Seq<Seq<char>>, i: int)
    requires
        strictly_sorted(ks),
        0 <= i < ks.len(),
    ensures
        index_in(ks, ks[i]) == i,
{
    let j = index_in(ks, ks[i]);
    assert(0 <= j < ks.len() && ks[j] == ks[i]);
    if j != i {
        lemma_sorted_distinct(ks, i, j);
    }
}

// ---------------------------------------------------------------------------
// NameMap
// ---------------------------------------------------------------------------

/// A map from strings to values, kept sorted by key.
pub struct NameMap<V> {
    entries: Vec<(String, V)>,
}

impl<V> NameMap<V> {
    pub closed spec fn pairs(&self) -> Seq<(String, V)> {
        self.entries@
    }

    pub open spec fn keys(&self) -> Seq<Seq<char>> {
        self.pairs().map_values(|e: (String, V)| e.0@)
    }

    pub open spec fn has(&self, k: Seq<char>) -> bool {
        self.keys().contains(k)
    }

    pub open spec fn lookup(&self, k: Seq<char>) -> V {
        self.pairs()[index_in(self.keys(), k)].1
    }

    pub open spec fn view(&self) -> Map<Seq<char>, V> {
        Map::new(|k: Seq<char>| self.has(k), |k: Seq<char>| self.lookup(k))
    }

    #[verifier::type_invariant]
    pub open spec fn well_formed(&self) -> bool {
        strictly_sorted(self.keys())
    }

    /// The entry at position `i` is what the map holds for its key.
    pub proof fn lemma_entry(&self, i: int)
        requires
            self.well_formed(),
            0 <= i < self.pairs().len(),
        ensures
            self@.contains_key(self.pairs()[i].0@),
            self@[self.pairs()[i].0@] == self.pairs()[i].1,
            self.keys()[i] == self.pairs()[i].0@,
    {
        assert(self.keys()[i] == self.pairs()[i].0@);
        lemma_index_in(self.keys(), i);
    }

    /// Every key of the map sits at some position.
    pub proof fn lemma_key_position(&self, k: Seq<char>)
        requires
            self@.contains_key(k),
        ensures
            0 <= index_in(self.keys(), k) < self.pairs().len(),
            self.pairs()[index_in(self.keys(), k)].0@ == k,
    {
        assert(self.keys().contains(k));
        let i = choose|i: int| 0 <= i < self.keys().len() && self.keys()[i] == k;
        assert(0 <= i < self.keys().len() && self.keys()[i] == k);
    }

    pub fn new() -> (r: Self)
        ensures
            r@ == Map::<Seq<char>, V>::empty(),
            r.pairs().len() == 0,
    {
        let r = NameMap { entries: Vec::new() };
        assert(r@ =~= Map::<Seq<char>, V>::empty());
        r
    }

    pub fn len(&self) -> (r: usize)
        ensures
            r == self.pairs().len(),
    {
        self.entries.len()
    }

    /// The entries in key order.
    pub fn as_vec(&self) -> (r: &Vec<(String, V)>)
        ensures
            r@ == self.pairs(),
    {
        &self.entries
    }

    /// The key and value at position `i`, which the map holds.
    pub fn entry(&self, i: usize) -> (r: (&String, &V))
        requires
            i < self.pairs().len(),
        ensures
            *r.0 == self.pairs()[i as int].0,
            *r.1 == self.pairs()[i as int].1,
            self.keys()[i as int] == r.0@,
            self@.contains_key(r.0@),
            self@[r.0@] == *r.1,
    {
        proof {
            use_type_invariant(self);
            self.lemma_entry(i as int);
        }
        (&self.entries[i].0, &self.entries[i].1)
    }

    /// Position of the first entry whose key is not below `key`.
    fn seek(&self, key: &str) -> (r: usize)
        ensures
            r <= self.pairs().len(),
            forall|i: int| 0 <= i < r ==> lex_lt(#[trigger] self.keys()[i], key@),
            r < self.pairs().len() ==> !lex_lt(self.keys()[r as int], key@),
    {
        let mut i: usize = 0;
        while i < self.entries.len()
            invariant
                i <= self.entries@.len(),
                forall|j: int| 0 <= j < i ==> lex_lt(#[trigger] self.keys()[j], key@),
            decreases self.entries@.len() - i,
        {
            if !text_less(self.entries[i].0.as_str(), key) {
                return i;
            }
            i += 1;
        }
        i
    }

    /// The position of `key`, if present.
    pub fn find(&self, key: &str) -> (r: Option<usize>)
        ensures
            r matches Some(i) ==> i < self.pairs().len() && self.pairs()[i as int].0@ == key@,
            r is Some <==> self@.contains_key(key@),
    {
        proof {
            use_type_invariant(self);
        }
        let p = self.seek(key);
        if p < self.entries.len() && same_text(self.entries[p].0.as_str(), key) {
            proof {
                self.lemma_entry(p as int);
            }
            Some(p)
        } else {
            proof {
                if self@.contains_key(key@) {
                    self.lemma_key_position(key@);
                    let j = index_in(self.keys(), key@);
                    if j < p {
                        assert(lex_lt(self.keys()[j], key@));
                        lemma_lex_irreflexive(key@);
                    } else if j > p {
                        assert(lex_lt(self.keys()[p as int], self.keys()[j]));
                        lemma_lex_total(self.keys()[p as int], key@);
                        lemma_lex_asymmetric(self.keys()[p as int], key@);
                        assert(self.keys()[p as int] != key@);
                        assert(lex_lt(key@, self.keys()[p as int]));
                        lemma_lex_asymmetric(key@, self.keys()[p as int]);
                    }
                }
            }
            None
        }
    }

    /// Whether the map has no entries.
    pub fn is_empty(&self) -> (r: bool)
        ensures
            r == (self@ == Map::<Seq<char>, V>::empty()),
    {
        proof {
            use_type_invariant(self);
        }
        if self.entries.len() == 0 {
            proof {
                assert(self@ =~= Map::<Seq<char>, V>::empty());
            }
            true
        } else {
            proof {
                self.lemma_entry(0);
                assert(!Map::<Seq<char>, V>::empty().contains_key(self.pairs()[0].0@));
            }
            false
        }
    }

    pub fn contains_key(&self, key: &str) -> (r: bool)
        ensures
            r == self@.contains_key(key@),
    {
        self.find(key).is_some()
    }

    pub fn get(&self, key: &str) -> (r: Option<&V>)
        ensures
            r matches Some(v) ==> self@.contains_key(key@) && *v == self@[key@],
            r is None ==> !self@.contains_key(key@),
    {
        proof {
            use_type_invariant(self);
        }
        match self.find(key) {
            Some(i) => {
                proof {
                    self.lemma_entry(i as int);
                }
                Some(&self.entries[i].1)
            },
            None => None,
        }
    }

    /// Sets `key` to `value`, replacing any previous value.
    pub fn insert(&mut self, key: String, value: V)
        ensures
            final(self)@ == old(self)@.insert(key@, value),
    {
        proof {
            use_type_invariant(&*self);
        }
        let ghost old_pairs = self.pairs();
        let ghost old_keys = self.keys();
        let p = self.seek(key.as_str());
        let ghost k = key@;
        if p < self.entries.len() && same_text(self.entries[p].0.as_str(), key.as_str()) {
            let mut entries: Vec<(String, V)> = Vec::new();
            std::mem::swap(&mut entries, &mut self.entries);
            entries.set(p, (key, value));
            proof {
                assert(entries@.map_values(|e: (String, V)| e.0@) =~= old_keys);
            }
            self.entries = entries;
        } else {
            proof {
                if p < old_pairs.len() {
                    lemma_lex_total(old_keys[p as int], k);
                }
                lemma_sorted_insert(old_keys, p as int, k);
            }
            let mut entries: Vec<(String, V)> = Vec::new();
            std::mem::swap(&mut entries, &mut self.entries);
            entries.insert(p, (key, value));
            proof {
                assert(entries@.map_values(|e: (String, V)| e.0@) =~= old_keys.insert(p as int, k));
            }
            self.entries = entries;
        }
        proof {
            use_type_invariant(&*self);
            assert forall|x: Seq<char>| #[trigger] self@.contains_key(x) == old(self)@.insert(k, value).contains_key(x) by {
                if self@.contains_key(x) {
                    self.lemma_key_position(x);
                    let j = index_in(self.keys(), x);
                    if x != k {
                        let oj = if self.pairs().len() == old_pairs.len() || j < p { j } else { j - 1 };
                        assert(old_keys[oj] == x);
                    }
                } else if x != k && old(self)@.contains_key(x) {
                    old(self).lemma_key_position(x);
                    let oj = index_in(old_keys, x);
                    let j = if self.pairs().len() == old_pairs.len() || oj < p { oj } else { oj + 1 };
                    assert(self.keys()[j] == x);
                } else if x == k {
                    assert(self.keys()[p as int] == k);
                }
            }
            assert forall|x: Seq<char>| #[trigger] self@.contains_key(x) implies self@[x] == old(self)@.insert(k, value)[x] by {
                self.lemma_key_position(x);
                let j = index_in(self.keys(), x);
                self.lemma_entry(j);
                if x == k {
                    lemma_index_in(self.keys(), p as int);
                    self.lemma_entry(p as int);
                } else {
                    let oj = if self.pairs().len() == old_pairs.len() || j < p { j } else { j - 1 };
                    assert(old_keys[oj] == x);
                    old(self).lemma_entry(oj);
                }
            }
            assert(self@ =~= old(self)@.insert(k, value));
        }
    }

    /// Removes `key`, returning its value if it was present.
    pub fn remove(&mut self, key: &str) -> (r: Option<V>)
        ensures
            final(self)@ == old(self)@.remove(key@),
            r matches Some(v) ==> old(self)@.contains_key(key@) && v == old(self)@[key@],
            r is None ==> !old(self)@.contains_key(key@),
    {
        proof {
            use_type_invariant(&*self);
        }
        let ghost old_pairs = self.pairs();
        let ghost old_keys = self.keys();
        match self.find(key) {
            None => {
                proof {
                    assert(self@ =~= old(self)@.remove(key@));
                }
                None
            },
            Some(p) => {
                proof {
                    old(self).lemma_entry(p as int);
                    lemma_sorted_remove(old_keys, p as int);
                }
                let mut entries: Vec<(String, V)> = Vec::new();
            std::mem::swap(&mut entries, &mut self.entries);
                let (_, v) = entries.remove(p);
                proof {
                    assert(entries@.map_values(|e: (String, V)| e.0@) =~= old_keys.remove(p as int));
                }
                self.entries = entries;
                proof {
                    use_type_invariant(&*self);
                    assert forall|x: Seq<char>| #[trigger] self@.contains_key(x) == old(self)@.remove(key@).contains_key(x) by {
                        if self@.contains_key(x) {
                            self.lemma_key_position(x);
                            let j = index_in(self.keys(), x);
                            let oj = if j < p { j } else { j + 1 };
                            assert(old_keys[oj] == x);
                            if x == key@ {
                                lemma_sorted_distinct(old_keys, oj, p as int);
                            }
                        } else if x != key@ && old(self)@.contains_key(x) {
                            old(self).lemma_key_position(x);
                            let oj = index_in(old_keys, x);
                            let j = if oj < p { oj } else { oj - 1 };
                            assert(self.keys()[j] == x);
                        }
                    }
                    assert forall|x: Seq<char>| #[trigger] self@.contains_key(x) implies self@[x] == old(self)@.remove(key@)[x] by {
                        self.lemma_key_position(x);
                        let j = index_in(self.keys(), x);
                        self.lemma_entry(j);
                        let oj = if j < p { j } else { j + 1 };
                        assert(old_keys[oj] == x);
                        old(self).lemma_entry(oj);
                    }
                    assert(self@ =~= old(self)@.remove(key@));
                }
                Some(v)
            },
        }
    }
}

}

verus! {

// ---------------------------------------------------------------------------
// IdSet
// ---------------------------------------------------------------------------

/// A set of strings, kept sorted.
pub struct IdSet {
    map: NameMap<()>,
}

/// The strings of `v`, as a set.
pub open spec fn text_set(v: Seq<String>) -> Set<Seq<char>> {
    Set::new(|k: Seq<char>| exists|i: int| 0 <= i < v.len() && (#[trigger] v[i])@ == k)
}

/// The texts of `v`, in order.
pub open spec fn texts(v: Seq<String>) -> Seq<Seq<char>> {
    v.map_values(|s: String| s@)
}

impl IdSet {
    /// The members in increasing order.
    pub closed spec fn items(&self) -> Seq<Seq<char>> {
        self.map.keys()
    }

    pub open spec fn view(&self) -> Set<Seq<char>> {
        Set::new(|k: Seq<char>| self.items().contains(k))
    }

    #[verifier::type_invariant]
    pub open spec fn well_sorted(&self) -> bool {
        strictly_sorted(self.items())
    }

    pub fn new() -> (r: Self)
        ensures
            r@ == Set::<Seq<char>>::empty(),
            r.items().len() == 0,
    {
        let map: NameMap<()> = NameMap::new();
        proof {
            use_type_invariant(&map);
        }
        let r = IdSet { map };
        assert(r@ =~= Set::<Seq<char>>::empty());
        r
    }

    pub fn len(&self) -> (r: usize)
        ensures
            r == self.items().len(),
    {
        self.map.len()
    }

    pub fn contains(&self, id: &str) -> (r: bool)
        ensures
            r == self@.contains(id@),
    {
        self.map.contains_key(id)
    }

    /// The member at position `i` (members are visited in increasing order).
    pub fn item(&self, i: usize) -> (r: &String)
        requires
            i < self.items().len(),
        ensures
            r@ == self.items()[i as int],
            self@.contains(r@),
    {
        let (k, _) = self.map.entry(i);
        k
    }

    pub fn insert(&mut self, id: String)
        ensures
            final(self)@ == old(self)@.insert(id@),
    {
        let ghost k = id@;
        let mut map: NameMap<()> = NameMap::new();
        std::mem::swap(&mut map, &mut self.map);
        map.insert(id, ());
        proof {
            use_type_invariant(&map);
        }
        self.map = map;
        proof {
            assert forall|x: Seq<char>| #[trigger] self@.contains(x) == old(self)@.insert(k).contains(x) by {
                assert(self.map@.contains_key(x) == self.items().contains(x));
                assert(old(self).map@.contains_key(x) == old(self).items().contains(x));
            }
            assert(self@ =~= old(self)@.insert(k));
        }
    }

    pub fn remove(&mut self, id: &str)
        ensures
            final(self)@ == old(self)@.remove(id@),
    {
        let mut map: NameMap<()> = NameMap::new();
        std::mem::swap(&mut map, &mut self.map);
        map.remove(id);
        proof {
            use_type_invariant(&map);
        }
        self.map = map;
        proof {
            assert forall|x: Seq<char>| #[trigger] self@.contains(x) == old(self)@.remove(id@).contains(x) by {
                assert(self.map@.contains_key(x) == self.items().contains(x));
                assert(old(self).map@.contains_key(x) == old(self).items().contains(x));
            }
            assert(self@ =~= old(self)@.remove(id@));
        }
    }
}

}

verus! {

/// The keys among the first `i` of `ks`.
pub open spec fn first_keys(ks: Seq<Seq<char>>, i: int) -> Set<Seq<char>> {
    Set::new(|k: Seq<char>| exists|j: int| 0 <= j < i && j < ks.len() && ks[j] == k)
}

pub proof fn lemma_first_keys_step(ks: Seq<Seq<char>>, i: int)
    requires
        0 <= i < ks.len(),
    ensures
        first_keys(ks, i + 1) == first_keys(ks, i).insert(ks[i]),
{
    assert forall|k: Seq<char>| #[trigger] first_keys(ks, i + 1).contains(k) == first_keys(ks, i).insert(ks[i]).contains(k) by {
        if first_keys(ks, i + 1).contains(k) {
            let j = choose|j: int| 0 <= j < i + 1 && j < ks.len() && ks[j] == k;
            if j < i {
                assert(first_keys(ks, i).contains(k));
            }
        }
        if first_keys(ks, i).contains(k) {
            let j = choose|j: int| 0 <= j < i && j < ks.len() && ks[j] == k;
            assert(first_keys(ks, i + 1).contains(k));
        }
        if k == ks[i] {
            assert(first_keys(ks, i + 1).contains(k));
        }
    }
    assert(first_keys(ks, i + 1) =~= first_keys(ks, i).insert(ks[i]));
}

pub proof fn lemma_first_keys_empty(ks: Seq<Seq<char>>)
    ensures
        first_keys(ks, 0) == Set::<Seq<char>>::empty(),
{
    assert(first_keys(ks, 0) =~= Set::<Seq<char>>::empty());
}

impl<V> NameMap<V> {
    /// Having visited every position, every key has been seen.
    pub proof fn lemma_all_keys(&self)
        ensures
            first_keys(self.keys(), self.pairs().len() as int) == self@.dom(),
    {
        assert forall|k: Seq<char>| #[trigger] first_keys(self.keys(), self.pairs().len() as int).contains(k) == self@.dom().contains(k) by {
            if self@.dom().contains(k) {
                let j = choose|j: int| 0 <= j < self.keys().len() && self.keys()[j] == k;
                assert(first_keys(self.keys(), self.pairs().len() as int).contains(k));
            }
        }
        assert(first_keys(self.keys(), self.pairs().len() as int) =~= self@.dom());
    }
}

}

verus! {

impl NameMap<bool> {
    /// A copy of a map of flags.
    pub fn duplicate(&self) -> (r: NameMap<bool>)
        ensures
            r@ == self@,
    {
        let mut out: NameMap<bool> = NameMap::new();
        let mut i: usize = 0;
        proof {
            lemma_first_keys_empty(self.keys());
            assert(out@ =~= self@.restrict(first_keys(self.keys(), 0)));
        }
        while i < self.len()
            invariant
                i <= self.pairs().len(),
                out@ == self@.restrict(first_keys(self.keys(), i as int)),
            decreases self.pairs().len() - i,
        {
            let (k, v) = self.entry(i);
            out.insert(k.clone(), *v);
            proof {
                lemma_first_keys_step(self.keys(), i as int);
                assert(out@ =~= self@.restrict(first_keys(self.keys(), i + 1)));
            }
            i += 1;
        }
        proof {
            self.lemma_all_keys();
            assert(out@ =~= self@);
        }
        out
    }
}

/// A copy of an optional string.
pub fn copy_opt(s: &Option<String>) -> (r: Option<String>)
    ensures
        r == *s,
{
    match s {
        Some(t) => Some(t.clone()),
        None => None,
    }
}

/// A copy of a list of strings.
pub fn copy_strings(v: &Vec<String>) -> (r: Vec<String>)
    ensures
        r@ == v@,
{
    let mut out: Vec<String> = Vec::new();
    let mut i: usize = 0;
    while i < v.len()
        invariant
            i <= v.len(),
            out@ == v@.take(i as int),
        decreases v.len() - i,
    {
        out.push(v[i].clone());
        assert(out@ =~= v@.take(i + 1));
        i += 1;
    }
    assert(v@.take(v.len() as int) =~= v@);
    out
}

}

verus! {

impl IdSet {
    /// The members of `self` that are not in `other`, in increasing order.
    pub fn difference(&self, other: &IdSet) -> (r: Vec<String>)
        ensures
            text_set(r@) == self@.difference(other@),
            strictly_sorted(texts(r@)),
    {
        proof {
            use_type_invariant(self);
        }
        let mut out: Vec<String> = Vec::new();
        let mut i: usize = 0;
        while i < self.len()
            invariant
                i <= self.items().len(),
                strictly_sorted(self.items()),
                text_set(out@) == first_keys(self.items(), i as int).difference(other@),
                strictly_sorted(texts(out@)),
                forall|p: int| 0 <= p < out@.len() ==>
                    exists|j: int| 0 <= j < i && (#[trigger] out@[p])@ == self.items()[j],
            decreases self.items().len() - i,
        {
            let id = self.item(i);
            let ghost before = out@;
            if !other.contains(id.as_str()) {
                proof {
                    if out@.len() > 0 {
                        let p = out@.len() - 1;
                        let j = choose|j: int| 0 <= j < i && (#[trigger] out@[p])@ == self.items()[j];
                        assert(texts(out@).last() == out@[p]@);
                        assert(lex_lt(self.items()[j], self.items()[i as int]));
                    }
                    lemma_sorted_push(texts(out@), id@);
                }
                out.push(id.clone());
                proof {
                    assert(texts(out@) =~= texts(before).push(id@));
                    assert forall|p: int| 0 <= p < out@.len() implies
                        exists|j: int| 0 <= j < i + 1 && (#[trigger] out@[p])@ == self.items()[j] by {
                        if p < before.len() {
                            assert(out@[p] == before[p]);
                            let j = choose|j: int| 0 <= j < i && (#[trigger] before[p])@ == self.items()[j];
                        } else {
                            assert(out@[p]@ == self.items()[i as int]);
                        }
                    }
                }
            }
            proof {
                lemma_first_keys_step(self.items(), i as int);
                assert forall|k: Seq<char>| #[trigger] text_set(out@).contains(k) == first_keys(self.items(), i + 1).difference(other@).contains(k) by {
                    if text_set(out@).contains(k) {
                        let p = choose|p: int| 0 <= p < out@.len() && (#[trigger] out@[p])@ == k;
                        if p < before.len() {
                            assert(out@[p] == before[p]);
                            assert(text_set(before).contains(k));
                        }
                    }
                    if text_set(before).contains(k) {
                        let p = choose|p: int| 0 <= p < before.len() && (#[trigger] before[p])@ == k;
                        assert(out@[p] == before[p]);
                    }
                    if k == id@ && !other@.contains(k) {
                        assert(out@[out@.len() - 1]@ == k);
                    }
                }
                assert(text_set(out@) =~= first_keys(self.items(), i + 1).difference(other@));
            }
            i += 1;
        }
        proof {
            assert(first_keys(self.items(), self.items().len() as int) =~= self@);
        }
        out
    }

    /// A copy of the set.
    pub fn duplicate(&self) -> (r: IdSet)
        ensures
            r@ == self@,
    {
        let mut out = IdSet::new();
        let mut i: usize = 0;
        while i < self.len()
            invariant
                i <= self.items().len(),
                out@ == first_keys(self.items(), i as int),
            decreases self.items().len() - i,
        {
            let id = self.item(i);
            out.insert(id.clone());
            proof {
                lemma_first_keys_step(self.items(), i as int);
            }
            i += 1;
        }
        proof {
            assert(first_keys(self.items(), 0) =~= Set::<Seq<char>>::empty());
            assert(first_keys(self.items(), self.items().len() as int) =~= self@);
        }
        out
    }
}

}

verus! {

impl IdSet {
    /// Adds every member of `other`.
    pub fn add_all(&mut self, other: &IdSet)
        ensures
            final(self)@ == old(self)@.union(other@),
    {
        let mut i: usize = 0;
        proof {
            assert(first_keys(other.items(), 0) =~= Set::<Seq<char>>::empty());
            assert(self@ =~= old(self)@.union(first_keys(other.items(), 0)));
        }
        while i < other.len()
            invariant
                i <= other.items().len(),
                self@ == old(self)@.union(first_keys(other.items(), i as int)),
            decreases other.items().len() - i,
        {
            let id = other.item(i);
            self.insert(id.clone());
            proof {
                lemma_first_keys_step(other.items(), i as int);
                assert(self@ =~= old(self)@.union(first_keys(other.items(), i + 1)));
            }
            i += 1;
        }
        proof {
            assert(first_keys(other.items(), other.items().len() as int) =~= other@);
        }
    }
}

}
