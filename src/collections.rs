//! Sorted string collections: the sets and maps that rule attributes hold.
//! Keeping them sorted makes every rendering of them deterministic.
use vstd::prelude::*;
use crate::text::{compare_str, lemma_lex_irreflexive, lemma_lex_total, lemma_lex_transitive, lex_lt, str_eq};

verus! {

/// Strictly increasing in lexicographic order: sorted and free of duplicates.
pub open spec fn strictly_sorted(s: Seq<Seq<char>>) -> bool {
    forall|i: int, j: int| 0 <= i < j < s.len() ==> lex_lt(#[trigger] s[i], #[trigger] s[j])
}

pub open spec fn strings_view(v: Seq<String>) -> Seq<Seq<char>> {
    v.map_values(|s: String| s@)
}

/// The first index of a sorted sequence whose element is not below `x`.
pub open spec fn is_lower_bound(s: Seq<Seq<char>>, x: Seq<char>, k: int) -> bool {
    &&& 0 <= k <= s.len()
    &&& forall|i: int| 0 <= i < k ==> lex_lt(#[trigger] s[i], x)
    &&& k < s.len() ==> !lex_lt(s[k], x)
}

pub proof fn lemma_lower_bound_above(s: Seq<Seq<char>>, x: Seq<char>, k: int)
    requires
        strictly_sorted(s),
        is_lower_bound(s, x, k),
        k < s.len() ==> s[k] != x,
    ensures
        forall|i: int| k <= i < s.len() ==> lex_lt(x, #[trigger] s[i]),
        !s.contains(x),
{
    assert forall|i: int| k <= i < s.len() implies lex_lt(x, #[trigger] s[i]) by {
        lemma_lex_total(s[k], x);
        if i > k {
            lemma_lex_transitive(x, s[k], s[i]);
        }
    }
    if s.contains(x) {
        let j = choose|j: int| 0 <= j < s.len() && s[j] == x;
        if j < k {
            lemma_lex_irreflexive(x);
        } else {
            lemma_lex_irreflexive(x);
        }
    }
}

pub proof fn lemma_insert_sorted(s: Seq<Seq<char>>, x: Seq<char>, k: int)
    requires
        strictly_sorted(s),
        0 <= k <= s.len(),
        forall|i: int| 0 <= i < k ==> lex_lt(#[trigger] s[i], x),
        forall|i: int| k <= i < s.len() ==> lex_lt(x, #[trigger] s[i]),
    ensures
        strictly_sorted(s.insert(k, x)),
{
    let t = s.insert(k, x);
    assert forall|i: int, j: int| 0 <= i < j < t.len() implies lex_lt(
        #[trigger] t[i],
        #[trigger] t[j],
    ) by {
        if i < k && j > k {
            lemma_lex_transitive(s[i], x, s[j - 1]);
        }
    }
}

/// Index at which `x` stands in a sorted sequence of strings, or where it would go.
fn lower_bound(items: &Vec<String>, x: &str) -> (k: usize)
    requires
        strictly_sorted(strings_view(items@)),
    ensures
        is_lower_bound(strings_view(items@), x@, k as int),
{
    let ghost s = strings_view(items@);
    let mut k: usize = 0;
    while k < items.len()
        invariant
            s == strings_view(items@),
            k <= items.len(),
            forall|i: int| 0 <= i < k ==> lex_lt(#[trigger] s[i], x@),
        decreases items.len() - k,
    {
        if compare_str(items[k].as_str(), x) >= 0 {
            return k;
        }
        k = k + 1;
    }
    k
}

/// A set of strings, held in increasing order without duplicates.
pub struct LabelSet {
    pub items: Vec<String>,
}

impl View for LabelSet {
    type V = Seq<Seq<char>>;

    open spec fn view(&self) -> Seq<Seq<char>> {
        strings_view(self.items@)
    }
}

impl LabelSet {
    pub open spec fn wf(&self) -> bool {
        strictly_sorted(self@)
    }

    /// The members, as a mathematical set.
    pub open spec fn members(&self) -> Set<Seq<char>> {
        self@.to_set()
    }

    pub fn new() -> (r: LabelSet)
        ensures
            r.wf(),
            r@ == Seq::<Seq<char>>::empty(),
    {
        proof {
            assert(strings_view(Seq::<String>::empty()) =~= Seq::<Seq<char>>::empty());
        }
        LabelSet { items: Vec::new() }
    }

    /// The set holding the one label `s`.
    pub fn singleton(s: String) -> (r: LabelSet)
        ensures
            r.wf(),
            r@ == seq![s@],
    {
        let mut r = LabelSet::new();
        r.insert(s);
        proof {
            assert(r.members().contains(s@));
            assert(r@.contains(s@));
            assert(r@ =~= seq![s@]);
        }
        r
    }

    pub fn len(&self) -> (n: usize)
        ensures
            n == self@.len(),
    {
        self.items.len()
    }

    pub fn is_empty(&self) -> (b: bool)
        ensures
            b == (self@.len() == 0),
    {
        self.items.len() == 0
    }

    pub fn contains(&self, x: &str) -> (b: bool)
        requires
            self.wf(),
        ensures
            b == self@.contains(x@),
    {
        let k = lower_bound(&self.items, x);
        if k < self.items.len() && str_eq(self.items[k].as_str(), x) {
            proof {
                assert(self@[k as int] == x@);
            }
            true
        } else {
            proof {
                lemma_lower_bound_above(self@, x@, k as int);
            }
            false
        }
    }

    /// Adds `x`; returns whether it was absent before.
    pub fn insert(&mut self, x: String) -> (added: bool)
        requires
            old(self).wf(),
        ensures
            final(self).wf(),
            added == !old(self)@.contains(x@),
            final(self).members() == old(self).members().insert(x@),
            added ==> final(self)@.len() == old(self)@.len() + 1,
            !added ==> *final(self) == *old(self),
    {
        let k = lower_bound(&self.items, x.as_str());
        if k < self.items.len() && str_eq(self.items[k].as_str(), x.as_str()) {
            proof {
                assert(self@[k as int] == x@);
                assert(self@.to_set().insert(x@) =~= self@.to_set());
            }
            false
        } else {
            let ghost before = self@;
            proof {
                lemma_lower_bound_above(before, x@, k as int);
                lemma_insert_sorted(before, x@, k as int);
            }
            self.items.insert(k, x);
            proof {
                assert(self@ =~= before.insert(k as int, x@));
                assert(self@.to_set() =~= before.to_set().insert(x@)) by {
                    assert forall|y: Seq<char>| self@.contains(y) <==> before.contains(y) || y
                        == x@ by {
                        if before.contains(y) {
                            let j = choose|j: int| 0 <= j < before.len() && before[j] == y;
                            if j < k {
                                assert(self@[j] == y);
                            } else {
                                assert(self@[j + 1] == y);
                            }
                        }
                        if self@.contains(y) {
                            let j = choose|j: int| 0 <= j < self@.len() && self@[j] == y;
                            if j < k {
                                assert(before[j] == y);
                            } else if j > k {
                                assert(before[j - 1] == y);
                            }
                        }
                        if y == x@ {
                            assert(self@[k as int] == y);
                        }
                    }
                }
            }
            true
        }
    }

    /// Adds every member of `other` that is missing.
    pub fn extend_from(&mut self, other: &LabelSet)
        requires
            old(self).wf(),
        ensures
            final(self).wf(),
            final(self).members() == old(self).members().union(other.members()),
            other.members().subset_of(old(self).members()) ==> *final(self) == *old(self),
    {
        let ghost start = self.members();
        let ghost start_self = *self;
        let mut i: usize = 0;
        while i < other.items.len()
            invariant
                self.wf(),
                i <= other.items.len(),
                self.members() == start.union(other@.subrange(0, i as int).to_set()),
                other.members().subset_of(start) ==> *self == start_self,
            decreases other.items.len() - i,
        {
            let ghost prev = self.members();
            let x = other.items[i].clone();
            proof {
                assert(x@ == other@[i as int]);
            }
            self.insert(x);
            proof {
                assert(other@.subrange(0, i + 1) =~= other@.subrange(0, i as int).push(
                    other@[i as int],
                ));
                Seq::lemma_to_set_insert_commutes(other@.subrange(0, i as int), other@[i as int]);
                assert(other@.subrange(0, i as int) + seq![other@[i as int]] =~= other@.subrange(0, i + 1));
                assert(other@.subrange(0, i + 1).to_set() =~= other@.subrange(
                    0,
                    i as int,
                ).to_set().insert(other@[i as int]));
                assert(self.members() =~= start.union(other@.subrange(0, i + 1).to_set()));
                if other.members().subset_of(start) {
                    assert(other@.contains(other@[i as int]));
                    assert(start.contains(other@[i as int]));
                    assert(prev.contains(other@[i as int]));
                }
            }
            i = i + 1;
        }
        proof {
            assert(other@.subrange(0, other@.len() as int) =~= other@);
        }
    }
}

/// A map from strings to strings, held in increasing order of keys.
pub struct StrMap {
    pub entries: Vec<(String, String)>,
}

pub open spec fn keys_view(v: Seq<(String, String)>) -> Seq<Seq<char>> {
    v.map_values(|e: (String, String)| e.0@)
}

impl StrMap {
    /// The keys, in order.
    pub open spec fn keys(&self) -> Seq<Seq<char>> {
        keys_view(self.entries@)
    }

    pub open spec fn wf(&self) -> bool {
        strictly_sorted(self.keys())
    }

    /// The map as a mathematical map from keys to values.
    pub open spec fn map(&self) -> Map<Seq<char>, Seq<char>> {
        Map::new(
            |k: Seq<char>| self.keys().contains(k),
            |k: Seq<char>| self.entries@[self.keys().index_of(k)].1@,
        )
    }

    pub fn new() -> (r: StrMap)
        ensures
            r.wf(),
            r.entries@.len() == 0,
            r.map() == Map::<Seq<char>, Seq<char>>::empty(),
    {
        let r = StrMap { entries: Vec::new() };
        proof {
            assert(r.keys() =~= Seq::<Seq<char>>::empty());
            assert(r.map() =~= Map::<Seq<char>, Seq<char>>::empty());
        }
        r
    }

    pub fn is_empty(&self) -> (b: bool)
        ensures
            b == (self.entries@.len() == 0),
    {
        self.entries.len() == 0
    }

    fn lower_bound(&self, x: &str) -> (k: usize)
        requires
            self.wf(),
        ensures
            is_lower_bound(self.keys(), x@, k as int),
    {
        let ghost s = self.keys();
        let mut k: usize = 0;
        while k < self.entries.len()
            invariant
                s == self.keys(),
                k <= self.entries.len(),
                forall|i: int| 0 <= i < k ==> lex_lt(#[trigger] s[i], x@),
            decreases self.entries.len() - k,
        {
            if compare_str(self.entries[k].0.as_str(), x) >= 0 {
                return k;
            }
            k = k + 1;
        }
        k
    }

    proof fn lemma_index_of(&self, i: int)
        requires
            self.wf(),
            0 <= i < self.entries@.len(),
        ensures
            self.keys().contains(self.keys()[i]),
            self.keys().index_of(self.keys()[i]) == i,
            self.map()[self.keys()[i]] == self.entries@[i].1@,
    {
        let s = self.keys();
        assert(s.contains(s[i]));
        let j = s.index_of(s[i]);
        if j != i {
            lemma_lex_irreflexive(s[i]);
        }
    }

    /// The entry at `i` is the one that the map gives for its key.
    pub proof fn lemma_index_of_pub(&self, i: int)
        requires
            self.wf(),
            0 <= i < self.entries@.len(),
        ensures
            self.keys()[i] == self.entries@[i].0@,
            self.map().contains_key(self.keys()[i]),
            self.map()[self.keys()[i]] == self.entries@[i].1@,
    {
        self.lemma_index_of(i);
    }

    /// The value stored under `key`, if any.
    pub fn get(&self, key: &str) -> (r: Option<&String>)
        requires
            self.wf(),
        ensures
            match r {
                Some(v) => self.map().contains_key(key@) && self.map()[key@] == v@,
                None => !self.map().contains_key(key@),
            },
    {
        let k = self.lower_bound(key);
        if k < self.entries.len() && str_eq(self.entries[k].0.as_str(), key) {
            proof {
                self.lemma_index_of(k as int);
            }
            Some(&self.entries[k].1)
        } else {
            proof {
                lemma_lower_bound_above(self.keys(), key@, k as int);
            }
            None
        }
    }

    /// Stores `value` under `key`; where `key` is present already, its value
    /// is kept unless `overwrite` is set. Returns whether `key` was absent.
    pub fn put(&mut self, key: String, value: String, overwrite: bool) -> (added: bool)
        requires
            old(self).wf(),
        ensures
            final(self).wf(),
            added == !old(self).map().contains_key(key@),
            (added || overwrite) ==> final(self).map() == old(self).map().insert(key@, value@),
            !(added || overwrite) ==> *final(self) == *old(self),
    {
        let k = self.lower_bound(key.as_str());
        let ghost before = self.keys();
        let ghost old_map = self.map();
        if k < self.entries.len() && str_eq(self.entries[k].0.as_str(), key.as_str()) {
            proof {
                self.lemma_index_of(k as int);
            }
            if overwrite {
                let ghost old_entries = self.entries@;
                self.entries.set(k, (key, value));
                proof {
                    assert(self.keys() =~= before);
                    assert(self.map() =~= old_map.insert(key@, value@)) by {
                        assert forall|y: Seq<char>| #[trigger] self.map().contains_key(y) implies
                            self.map()[y] == old_map.insert(key@, value@)[y] by {
                            let j = before.index_of(y);
                            self.lemma_index_of(j);
                        }
                    }
                }
            }
            false
        } else {
            let ghost old_entries = self.entries@;
            proof {
                lemma_lower_bound_above(before, key@, k as int);
                lemma_insert_sorted(before, key@, k as int);
            }
            self.entries.insert(k, (key, value));
            proof {
                assert(self.keys() =~= before.insert(k as int, key@));
                assert(self.map() =~= old_map.insert(key@, value@)) by {
                    assert forall|y: Seq<char>|
                        self.keys().contains(y) <==> before.contains(y) || y == key@ by {
                        if before.contains(y) {
                            let j = before.index_of(y);
                            if j < k {
                                assert(self.keys()[j] == y);
                            } else {
                                assert(self.keys()[j + 1] == y);
                            }
                        }
                        if self.keys().contains(y) {
                            let j = self.keys().index_of(y);
                            if j < k {
                                assert(before[j] == y);
                            } else if j > k {
                                assert(before[j - 1] == y);
                            }
                        }
                        if y == key@ {
                            assert(self.keys()[k as int] == y);
                        }
                    }
                    assert forall|y: Seq<char>| #[trigger] self.map().contains_key(y) implies
                        self.map()[y] == old_map.insert(key@, value@)[y] by {
                        let j = self.keys().index_of(y);
                        self.lemma_index_of(j);
                        if j < k {
                            self.lemma_index_of(j);
                            assert(before[j] == y);
                            assert(old_map[y] == old_entries[j].1@) by {
                                assert(before.index_of(y) == j) by {
                                    let jj = before.index_of(y);
                                    if jj != j {
                                        lemma_lex_irreflexive(y);
                                    }
                                }
                            }
                        } else if j > k {
                            assert(before[j - 1] == y);
                            assert(before.index_of(y) == j - 1) by {
                                let jj = before.index_of(y);
                                if jj != j - 1 {
                                    lemma_lex_irreflexive(y);
                                }
                            }
                        }
                    }
                }
            }
            true
        }
    }

    /// Adds every entry of `other` whose key is missing; present keys keep
    /// their values.
    pub fn extend_missing(&mut self, other: &StrMap)
        requires
            old(self).wf(),
            other.wf(),
        ensures
            final(self).wf(),
            final(self).map() == other.map().union_prefer_right(old(self).map()),
            other.map().dom().subset_of(old(self).map().dom()) ==> *final(self) == *old(self),
    {
        let ghost start = self.map();
        let ghost start_self = *self;
        proof {
            assert(other.prefix_map(0) =~= Map::<Seq<char>, Seq<char>>::empty());
            assert(other.prefix_map(0).union_prefer_right(start) =~= start);
        }
        let mut i: usize = 0;
        while i < other.entries.len()
            invariant
                self.wf(),
                other.wf(),
                i <= other.entries.len(),
                self.map() == other.prefix_map(i as int).union_prefer_right(start),
                other.map().dom().subset_of(start.dom()) ==> *self == start_self,
            decreases other.entries.len() - i,
        {
            let ghost prev = self.map();
            let k = other.entries[i].0.clone();
            let v = other.entries[i].1.clone();
            proof {
                other.lemma_prefix_step(i as int);
                other.lemma_index_of(i as int);
                if other.keys().subrange(0, i as int).contains(k@) {
                    let j = choose|j: int|
                        0 <= j < i && other.keys().subrange(0, i as int)[j] == k@;
                    assert(other.keys()[j] == k@);
                    lemma_lex_irreflexive(k@);
                }
            }
            self.put(k, v, false);
            proof {
                assert(self.map() =~= other.prefix_map(i + 1).union_prefer_right(start));
                if other.map().dom().subset_of(start.dom()) {
                    other.lemma_index_of(i as int);
                    assert(start.contains_key(other.keys()[i as int]));
                }
            }
            i = i + 1;
        }
        proof {
            other.lemma_prefix_full();
        }
    }

    /// The map of the first `n` entries.
    pub open spec fn prefix_map(&self, n: int) -> Map<Seq<char>, Seq<char>> {
        Map::new(
            |k: Seq<char>| self.keys().subrange(0, n).contains(k),
            |k: Seq<char>| self.entries@[self.keys().index_of(k)].1@,
        )
    }

    proof fn lemma_prefix_step(&self, i: int)
        requires
            self.wf(),
            0 <= i < self.entries@.len(),
        ensures
            self.prefix_map(i + 1) == self.prefix_map(i).insert(
                self.entries@[i].0@,
                self.entries@[i].1@,
            ),
    {
        self.lemma_index_of(i);
        let s = self.keys();
        assert(s.subrange(0, i + 1) =~= s.subrange(0, i).push(s[i]));
        let t = s.subrange(0, i + 1);
        let u = s.subrange(0, i);
        assert forall|y: Seq<char>| t.contains(y) <==> u.contains(y) || y == s[i] by {
            if t.contains(y) {
                let j = choose|j: int| 0 <= j < t.len() && t[j] == y;
                if j < i {
                    assert(u[j] == y);
                }
            }
            if u.contains(y) {
                let j = choose|j: int| 0 <= j < u.len() && u[j] == y;
                assert(t[j] == y);
            }
            if y == s[i] {
                assert(t[i] == y);
            }
        }
        assert(self.prefix_map(i + 1) =~= self.prefix_map(i).insert(s[i], self.entries@[i].1@));
    }

    proof fn lemma_prefix_full(&self)
        requires
            self.wf(),
        ensures
            self.prefix_map(self.entries@.len() as int) == self.map(),
    {
        assert(self.keys().subrange(0, self.entries@.len() as int) =~= self.keys());
        assert(self.prefix_map(self.entries@.len() as int) =~= self.map());
    }
}

} // verus!
