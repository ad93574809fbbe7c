//! A map from strings to strings, kept as a list of entries with distinct keys.

use vstd::prelude::*;

verus! {

/// Map from names to values (endpoint names to addresses).
pub struct StringMap {
    entries: Vec<(String, String)>,
}

/// The entry `p` has a value that is none of `removed`.
pub open spec fn keeps(removed: Seq<String>, p: (String, String)) -> bool {
    !crate::strings::has_string(removed, p.1@)
}

/// Position `i` of `e` holds the key `k`.
pub open spec fn key_at(e: Seq<(String, String)>, i: int, k: Seq<char>) -> bool {
    0 <= i < e.len() && e[i].0@ == k
}

impl StringMap {
    /// No key occurs twice.
    pub closed spec fn wf(&self) -> bool {
        forall|i: int, j: int|
            0 <= i < self.entries@.len() && 0 <= j < self.entries@.len() && i != j ==> (
            #[trigger] self.entries@[i]).0@ != (#[trigger] self.entries@[j]).0@
    }

    /// The entries, in order.
    pub closed spec fn entries(&self) -> Seq<(String, String)> {
        self.entries@
    }

    /// The map from names to values.
    pub open spec fn view(&self) -> Map<Seq<char>, Seq<char>> {
        Map::new(
            |k: Seq<char>| exists|i: int| #[trigger] key_at(self.entries(), i, k),
            |k: Seq<char>|
                self.entries()[choose|i: int| #[trigger] key_at(self.entries(), i, k)].1@,
        )
    }

    proof fn lemma_view_at(&self, i: int)
        requires
            self.wf(),
            0 <= i < self.entries@.len(),
        ensures
            self@.contains_key(self.entries@[i].0@),
            self@[self.entries@[i].0@] == self.entries@[i].1@,
    {
        let k = self.entries@[i].0@;
        assert(key_at(self.entries(), i, k));
        let j = choose|j: int| #[trigger] key_at(self.entries(), j, k);
        assert(j == i);
    }

    /// An empty map.
    pub fn new() -> (m: StringMap)
        ensures
            m.wf(),
            m@ == Map::<Seq<char>, Seq<char>>::empty(),
    {
        let m = StringMap { entries: Vec::new() };
        assert(m@ =~= Map::<Seq<char>, Seq<char>>::empty());
        m
    }

    /// Number of entries.
    pub fn len(&self) -> (n: usize)
        requires
            self.wf(),
        ensures
            n == self@.dom().len(),
    {
        proof {
            self.lemma_dom_len();
        }
        self.entries.len()
    }

    proof fn lemma_dom_len(&self)
        requires
            self.wf(),
        ensures
            self@.dom().finite(),
            self@.dom().len() == self.entries@.len(),
    {
        let ks = self.entries@.map_values(|e: (String, String)| e.0@);
        assert forall|a: int, b: int| 0 <= a < ks.len() && 0 <= b < ks.len() && a != b implies ks[a]
            != ks[b] by {}
        assert(ks.no_duplicates());
        ks.unique_seq_to_set();
        assert forall|k: Seq<char>| #[trigger] self@.dom().contains(k) <==> ks.to_set().contains(k) by {
            if self@.dom().contains(k) {
                let i = choose|i: int| #[trigger] key_at(self.entries(), i, k);
                assert(ks[i] == k);
            }
            if ks.to_set().contains(k) {
                let i = choose|i: int| 0 <= i < ks.len() && ks[i] == k;
                assert(key_at(self.entries(), i, k));
            }
        }
        assert(self@.dom() =~= ks.to_set());
    }

    /// The value for `key`.
    pub fn get(&self, key: &String) -> (r: Option<&String>)
        requires
            self.wf(),
        ensures
            match r {
                Some(v) => self@.contains_key(key@) && v@ == self@[key@],
                None => !self@.contains_key(key@),
            },
    {
        let mut i: usize = 0;
        while i < self.entries.len()
            invariant
                self.wf(),
                i <= self.entries@.len(),
                forall|j: int| 0 <= j < i ==> self.entries@[j].0@ != key@,
            decreases self.entries.len() - i,
        {
            if self.entries[i].0 == *key {
                proof {
                    self.lemma_view_at(i as int);
                }
                return Some(&self.entries[i].1);
            }
            i = i + 1;
        }
        None
    }

    /// Set the value for `key`, replacing any earlier one.
    pub fn insert(&mut self, key: String, value: String)
        requires
            old(self).wf(),
        ensures
            final(self).wf(),
            final(self)@ == old(self)@.insert(key@, value@),
    {
        let mut i: usize = 0;
        while i < self.entries.len()
            invariant
                self.entries@ == old(self).entries@,
                old(self).wf(),
                i <= self.entries@.len(),
                forall|j: int| 0 <= j < i ==> self.entries@[j].0@ != key@,
            decreases self.entries.len() - i,
        {
            if self.entries[i].0 == key {
                let ghost old_e = self.entries@;
                self.entries.set(i, (key, value));
                proof {
                    assert forall|k: Seq<char>| #[trigger] self@.contains_key(k) <==> old(
                        self,
                    )@.insert(key@, value@).contains_key(k) by {
                        if old(self)@.contains_key(k) {
                            let j = choose|j: int| #[trigger] key_at(old_e, j, k);
                            assert(key_at(self.entries(), j, k));
                        }
                        if self@.contains_key(k) {
                            let j = choose|j: int| #[trigger] key_at(self.entries(), j, k);
                            if j != i {
                                assert(key_at(old_e, j, k));
                            }
                        }
                        if k == key@ {
                            assert(key_at(self.entries(), i as int, k));
                        }
                    }
                    assert forall|k: Seq<char>| #[trigger] self@.contains_key(k) implies self@[k]
                        == old(self)@.insert(key@, value@)[k] by {
                        let j = choose|j: int| #[trigger] key_at(self.entries(), j, k);
                        self.lemma_view_at(j);
                        if j != i {
                            old(self).lemma_view_at(j);
                        }
                    }
                    assert(self@ =~= old(self)@.insert(key@, value@));
                }
                return;
            }
            i = i + 1;
        }
        let ghost old_e = self.entries@;
        self.entries.push((key, value));
        proof {
            assert forall|k: Seq<char>| #[trigger] self@.contains_key(k) <==> old(self)@.insert(
                key@,
                value@,
            ).contains_key(k) by {
                if old(self)@.contains_key(k) {
                    let j = choose|j: int| #[trigger] key_at(old_e, j, k);
                    assert(key_at(self.entries(), j, k));
                }
                if self@.contains_key(k) {
                    let j = choose|j: int| #[trigger] key_at(self.entries(), j, k);
                    if j < old_e.len() {
                        assert(key_at(old_e, j, k));
                    }
                }
                if k == key@ {
                    assert(key_at(self.entries(), old_e.len() as int, k));
                }
            }
            assert forall|k: Seq<char>| #[trigger] self@.contains_key(k) implies self@[k] == old(
                self,
            )@.insert(key@, value@)[k] by {
                let j = choose|j: int| #[trigger] key_at(self.entries(), j, k);
                self.lemma_view_at(j);
                if j < old_e.len() {
                    old(self).lemma_view_at(j);
                }
            }
            assert(self@ =~= old(self)@.insert(key@, value@));
        }
    }

    /// Remove every entry.
    pub fn clear(&mut self)
        ensures
            final(self).wf(),
            final(self)@ == Map::<Seq<char>, Seq<char>>::empty(),
    {
        self.entries = Vec::new();
        assert(self@ =~= Map::<Seq<char>, Seq<char>>::empty());
    }

    /// Keep only the entries whose value is none of `removed`.
    pub fn retain_values_not_in(&mut self, removed: &Vec<String>)
        requires
            old(self).wf(),
        ensures
            final(self).wf(),
            final(self)@ == old(self)@.restrict(
                old(self)@.dom().filter(
                    |k: Seq<char>| !crate::strings::has_string(removed@, old(self)@[k]),
                ),
            ),
    {
        let mut kept: Vec<(String, String)> = Vec::new();
        let mut i: usize = 0;
        let ghost e = self.entries@;
        let ghost mut src: Seq<int> = Seq::empty();
        while i < self.entries.len()
            invariant
                self.entries@ == e,
                old(self).entries() == e,
                old(self).wf(),
                i <= e.len(),
                src.len() == kept@.len(),
                forall|a: int|
                    0 <= a < src.len() ==> 0 <= #[trigger] src[a] < i && kept@[a] == e[src[a]]
                        && keeps(removed@, e[src[a]]),
                forall|a: int, c: int| 0 <= a < c < src.len() ==> #[trigger] src[a] < #[trigger] src[c],
                forall|b: int|
                    0 <= b < i && keeps(removed@, e[b]) ==> exists|a: int|
                        0 <= a < src.len() && #[trigger] src[a] == b,
            decreases e.len() - i,
        {
            let dropped = crate::strings::contains_string(removed, &self.entries[i].1);
            assert(keeps(removed@, e[i as int]) == !dropped);
            if !dropped {
                let key = self.entries[i].0.clone();
                let value = self.entries[i].1.clone();
                kept.push((key, value));
                proof {
                    let s0 = src;
                    src = src.push(i as int);
                    assert(src[s0.len() as int] == i);
                    assert forall|b: int| 0 <= b < i + 1 && keeps(removed@, e[b]) implies exists|a: int|
                        0 <= a < src.len() && #[trigger] src[a] == b by {
                        if b < i {
                            let a = choose|a: int| 0 <= a < s0.len() && #[trigger] s0[a] == b;
                            assert(src[a] == b);
                        } else {
                            assert(src[s0.len() as int] == b);
                        }
                    }
                }
            }
            i = i + 1;
        }
        proof {
            assert forall|a: int, c: int| 0 <= a < kept@.len() && 0 <= c < kept@.len() && a != c implies
                (#[trigger] kept@[a]).0@ != (#[trigger] kept@[c]).0@ by {
                assert(src[a] != src[c]) by {
                    if a < c {
                        assert(src[a] < src[c]);
                    } else {
                        assert(src[c] < src[a]);
                    }
                }
                assert(e[src[a]] == old(self).entries@[src[a]]);
                assert(e[src[c]] == old(self).entries@[src[c]]);
            }
        }
        let ghost old_view = old(self)@;
        self.entries = kept;
        proof {
            let target = old_view.restrict(
                old_view.dom().filter(|k: Seq<char>| !crate::strings::has_string(removed@, old_view[k])),
            );
            assert forall|k: Seq<char>| #[trigger] self@.contains_key(k) <==> target.contains_key(k) by {
                if self@.contains_key(k) {
                    let a = choose|a: int| #[trigger] key_at(self.entries(), a, k);
                    assert(0 <= src[a] < e.len());
                    old(self).lemma_view_at(src[a]);
                    assert(old_view.contains_key(k));
                }
                if target.contains_key(k) {
                    let b = choose|b: int| #[trigger] key_at(e, b, k);
                    assert(key_at(old(self).entries(), b, k));
                    old(self).lemma_view_at(b);
                    let a = choose|a: int| 0 <= a < src.len() && #[trigger] src[a] == b;
                    assert(key_at(self.entries(), a, k));
                }
            }
            assert forall|k: Seq<char>| #[trigger] self@.contains_key(k) implies self@[k] == target[k] by {
                let a = choose|a: int| #[trigger] key_at(self.entries(), a, k);
                self.lemma_view_at(a);
                assert(0 <= src[a] < e.len());
                old(self).lemma_view_at(src[a]);
            }
            assert(self@ =~= target);
        }
    }


    /// The entry at position `i`.
    pub fn entry(&self, i: usize) -> (r: (&String, &String))
        requires
            i < self.entries().len(),
        ensures
            *r.0 == self.entries()[i as int].0,
            *r.1 == self.entries()[i as int].1,
    {
        (&self.entries[i].0, &self.entries[i].1)
    }

    /// Number of entries (the same as the number of keys).
    pub fn entry_count(&self) -> (n: usize)
        ensures
            n == self.entries().len(),
    {
        self.entries.len()
    }

    /// Insert every entry of `other`, its values replacing those under the
    /// same keys.
    pub fn insert_all(&mut self, other: &StringMap)
        requires
            old(self).wf(),
            other.wf(),
        ensures
            final(self).wf(),
            final(self)@ == old(self)@.union_prefer_right(other@),
    {
        let mut i: usize = 0;
        proof {
            other.lemma_values();
        }
        while i < other.entries.len()
            invariant
                self.wf(),
                other.wf(),
                i <= other.entries@.len(),
                forall|j: int|
                    0 <= j < other.entries@.len() ==> other@.contains_key(
                        #[trigger] other.entries@[j].0@,
                    ) && other@[other.entries@[j].0@] == other.entries@[j].1@,
                self@ == old(self)@.union_prefer_right(
                    other@.restrict(
                        Set::new(|k: Seq<char>| exists|j: int| 0 <= j < i && #[trigger] other.entries@[j].0@ == k),
                    ),
                ),
            decreases other.entries.len() - i,
        {
            let ghost before = self@;
            let k = other.entries[i].0.clone();
            let v = other.entries[i].1.clone();
            self.insert(k, v);
            proof {
                let s0 = Set::new(|k: Seq<char>| exists|j: int| 0 <= j < i && #[trigger] other.entries@[j].0@ == k);
                let s1 = Set::new(|k: Seq<char>| exists|j: int| 0 <= j < i + 1 && #[trigger] other.entries@[j].0@ == k);
                assert(s1.contains(other.entries@[i as int].0@));
                assert(s1 =~= s0.insert(other.entries@[i as int].0@)) by {
                    assert forall|k: Seq<char>| s1.contains(k) implies #[trigger] s0.insert(other.entries@[i as int].0@).contains(k) by {
                        let j = choose|j: int| 0 <= j < i + 1 && #[trigger] other.entries@[j].0@ == k;
                        if j < i {
                            assert(s0.contains(k));
                        }
                    }
                    assert forall|k: Seq<char>| s0.insert(other.entries@[i as int].0@).contains(k) implies #[trigger] s1.contains(k) by {
                        if k != other.entries@[i as int].0@ {
                            let j = choose|j: int| 0 <= j < i && #[trigger] other.entries@[j].0@ == k;
                            assert(0 <= j < i + 1);
                        }
                    }
                }
                assert(self@ =~= old(self)@.union_prefer_right(other@.restrict(s1)));
            }
            i = i + 1;
        }
        proof {
            let s = Set::new(|k: Seq<char>| exists|j: int| 0 <= j < other.entries@.len() && #[trigger] other.entries@[j].0@ == k);
            assert forall|k: Seq<char>| #[trigger] other@.contains_key(k) implies s.contains(k) by {
                let j = choose|j: int| 0 <= j < other.entries().len() && #[trigger] other.entries()[j].0@ == k;
            }
            assert(other@.restrict(s) =~= other@);
        }
    }

    /// The keys, in entry order.
    pub fn keys(&self) -> (r: Vec<String>)
        requires
            self.wf(),
        ensures
            r@.len() == self.entries().len(),
            forall|i: int| 0 <= i < r@.len() ==> #[trigger] r@[i] == self.entries()[i].0,
    {
        let mut r: Vec<String> = Vec::new();
        let mut i: usize = 0;
        while i < self.entries.len()
            invariant
                i <= self.entries@.len(),
                r@.len() == i,
                forall|j: int| 0 <= j < i ==> #[trigger] r@[j] == self.entries@[j].0,
            decreases self.entries.len() - i,
        {
            r.push(self.entries[i].0.clone());
            i = i + 1;
        }
        r
    }

    /// Copy of the map.
    pub fn clone_map(&self) -> (r: StringMap)
        requires
            self.wf(),
        ensures
            r.wf(),
            r@ == self@,
            r.entries() == self.entries(),
    {
        let mut e: Vec<(String, String)> = Vec::new();
        let mut i: usize = 0;
        while i < self.entries.len()
            invariant
                i <= self.entries@.len(),
                e@ == self.entries@.take(i as int),
            decreases self.entries.len() - i,
        {
            let key = self.entries[i].0.clone();
            let value = self.entries[i].1.clone();
            e.push((key, value));
            proof {
                assert(self.entries@.take(i as int + 1) == self.entries@.take(i as int).push(
                    self.entries@[i as int],
                ));
            }
            i = i + 1;
        }
        proof {
            assert(self.entries@.take(self.entries@.len() as int) == self.entries@);
        }
        StringMap { entries: e }
    }

    /// The values, in entry order.
    pub fn values(&self) -> (r: Vec<String>)
        requires
            self.wf(),
        ensures
            r@.len() == self.entries().len(),
            forall|i: int| 0 <= i < r@.len() ==> #[trigger] r@[i] == self.entries()[i].1,
    {
        let mut r: Vec<String> = Vec::new();
        let mut i: usize = 0;
        while i < self.entries.len()
            invariant
                i <= self.entries@.len(),
                r@.len() == i,
                forall|j: int| 0 <= j < i ==> #[trigger] r@[j] == self.entries@[j].1,
            decreases self.entries.len() - i,
        {
            r.push(self.entries[i].1.clone());
            i = i + 1;
        }
        r
    }

    /// Every value of the map is the value of some entry, and back.
    pub proof fn lemma_values(&self)
        requires
            self.wf(),
        ensures
            forall|i: int|
                0 <= i < self.entries().len() ==> self@.contains_key(
                    #[trigger] self.entries()[i].0@,
                ) && self@[self.entries()[i].0@] == self.entries()[i].1@,
            forall|k: Seq<char>|
                #[trigger] self@.contains_key(k) ==> exists|i: int|
                    0 <= i < self.entries().len() && #[trigger] self.entries()[i].0@ == k,
    {
        assert forall|i: int| 0 <= i < self.entries().len() implies self@.contains_key(
            #[trigger] self.entries()[i].0@,
        ) && self@[self.entries()[i].0@] == self.entries()[i].1@ by {
            self.lemma_view_at(i);
        }
        assert forall|k: Seq<char>| #[trigger] self@.contains_key(k) implies exists|i: int|
            0 <= i < self.entries().len() && #[trigger] self.entries()[i].0@ == k by {
            let i = choose|i: int| #[trigger] key_at(self.entries(), i, k);
            assert(self.entries()[i].0@ == k);
        }
    }
}

} // verus!
