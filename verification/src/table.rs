//! An ordered map from strings to values, kept as a vector of entries in
//! strictly increasing key order (the order in which a `BTreeMap<String, _>`
//! holds and walks its entries).
use crate::lex::{lemma_lt_irreflexive, lemma_lt_total, lemma_lt_transitive, seq_lt, str_lt};
use vstd::prelude::*;

verus! {

/// Every key comes strictly before every later one.
pub open spec fn strictly_sorted(keys: Seq<Seq<char>>) -> bool {
    forall|i: int, j: int| 0 <= i < j < keys.len() ==> seq_lt(#[trigger] keys[i], #[trigger] keys[j])
}

/// Where a search through sorted keys stopped at `pos`, every earlier key
/// before `k` and the key at `pos` (if any) after it, `k` is not among the keys.
proof fn lemma_absent_after_find(keys: Seq<Seq<char>>, k: Seq<char>, pos: int)
    requires
        strictly_sorted(keys),
        0 <= pos <= keys.len(),
        forall|i: int| 0 <= i < pos ==> seq_lt(#[trigger] keys[i], k),
        pos < keys.len() ==> seq_lt(k, keys[pos]),
    ensures
        !keys.contains(k),
{
    assert forall|j: int| 0 <= j < keys.len() implies keys[j] != k by {
        if j < pos {
            assert(seq_lt(keys[j], k));
        } else if j > pos {
            assert(seq_lt(keys[pos], keys[j]));
            lemma_lt_transitive(k, keys[pos], keys[j]);
        }
        lemma_lt_irreflexive(k);
    }
}

/// A map from strings to values, ordered by key.
pub struct StrMap<V> {
    entries: Vec<(String, V)>,
}

impl<V> StrMap<V> {
    /// The keys, in the order in which the map holds them.
    pub closed spec fn keys(self) -> Seq<Seq<char>> {
        Seq::new(self.entries@.len(), |i: int| self.entries@[i].0@)
    }

    /// The values, in the order of their keys.
    pub closed spec fn values(self) -> Seq<V> {
        Seq::new(self.entries@.len(), |i: int| self.entries@[i].1)
    }

    #[verifier::type_invariant]
    closed spec fn sorted(self) -> bool {
        strictly_sorted(self.keys())
    }

    proof fn lemma_view_at(self, i: int)
        requires
            strictly_sorted(self.keys()),
            0 <= i < self.keys().len(),
        ensures
            self@.contains_key(self.keys()[i]),
            self@[self.keys()[i]] == self.values()[i],
    {
        let ks = self.keys();
        assert(ks.contains(ks[i]));
        let j = ks.index_of(ks[i]);
        if j != i {
            if j < i {
                assert(seq_lt(ks[j], ks[i]));
            } else {
                assert(seq_lt(ks[i], ks[j]));
            }
            lemma_lt_irreflexive(ks[i]);
        }
    }

    /// The position at which `k` stands or would be inserted, and whether it stands there.
    fn find(&self, k: &str) -> (res: (usize, bool))
        ensures
            res.0 <= self.keys().len(),
            forall|i: int| 0 <= i < res.0 ==> seq_lt(#[trigger] self.keys()[i], k@),
            res.1 ==> res.0 < self.keys().len() && self.keys()[res.0 as int] == k@,
            !res.1 && res.0 < self.keys().len() ==> seq_lt(k@, self.keys()[res.0 as int]),
    {
        let n = self.entries.len();
        let mut i: usize = 0;
        while i < n && str_lt(self.entries[i].0.as_str(), k)
            invariant
                n == self.entries@.len(),
                i <= n,
                forall|j: int| 0 <= j < i ==> seq_lt(#[trigger] self.keys()[j], k@),
            decreases n - i,
        {
            assert(self.keys()[i as int] == self.entries@[i as int].0@);
            i = i + 1;
        }
        if i < n {
            let later = str_lt(k, self.entries[i].0.as_str());
            proof {
                let ki = self.keys()[i as int];
                assert(ki == self.entries@[i as int].0@);
                assert(!seq_lt(ki, k@));
                lemma_lt_total(ki, k@);
            }
            (i, !later)
        } else {
            (i, false)
        }
    }

    /// An empty map.
    pub fn new() -> (m: Self)
        ensures
            m@ == Map::<Seq<char>, V>::empty(),
    {
        let m = StrMap { entries: Vec::new() };
        assert(m@ =~= Map::<Seq<char>, V>::empty());
        m
    }

    /// The number of entries; also states how the view lists them.
    pub fn len(&self) -> (n: usize)
        ensures
            n == self.keys().len(),
            strictly_sorted(self.keys()),
            forall|q: Seq<char>| self@.contains_key(q) <==> self.keys().contains(q),
    {
        proof {
            use_type_invariant(self);
        }
        self.entries.len()
    }

    /// The key at position `i` in key order.
    pub fn key_at(&self, i: usize) -> (k: &String)
        requires
            i < self.keys().len(),
        ensures
            k@ == self.keys()[i as int],
            self@.contains_key(k@),
    {
        proof {
            use_type_invariant(self);
            self.lemma_view_at(i as int);
        }
        &self.entries[i].0
    }

    /// The value at position `i` in key order.
    pub fn value_at(&self, i: usize) -> (v: &V)
        requires
            i < self.keys().len(),
        ensures
            *v == self@[self.keys()[i as int]],
            *v == self.values()[i as int],
    {
        proof {
            use_type_invariant(self);
            self.lemma_view_at(i as int);
        }
        &self.entries[i].1
    }

    /// Whether no key is present.
    pub fn is_empty(&self) -> (r: bool)
        ensures
            r == (self@ == Map::<Seq<char>, V>::empty()),
    {
        proof {
            use_type_invariant(self);
        }
        let r = self.entries.len() == 0;
        proof {
            if r {
                assert(self@ =~= Map::<Seq<char>, V>::empty());
            } else {
                self.lemma_view_at(0);
                assert(self@.contains_key(self.keys()[0]));
            }
        }
        r
    }

    /// Whether `k` is present.
    pub fn contains_key(&self, k: &str) -> (r: bool)
        ensures
            r == self@.contains_key(k@),
    {
        proof {
            use_type_invariant(self);
        }
        let (pos, found) = self.find(k);
        proof {
            if found {
                self.lemma_view_at(pos as int);
            } else {
                lemma_absent_after_find(self.keys(), k@, pos as int);
            }
        }
        found
    }

    /// The value of `k`, if present.
    pub fn get(&self, k: &str) -> (r: Option<&V>)
        ensures
            match r {
                Some(v) => self@.contains_key(k@) && *v == self@[k@],
                None => !self@.contains_key(k@),
            },
    {
        proof {
            use_type_invariant(self);
        }
        let (pos, found) = self.find(k);
        if found {
            proof {
                self.lemma_view_at(pos as int);
            }
            Some(&self.entries[pos].1)
        } else {
            proof {
                lemma_absent_after_find(self.keys(), k@, pos as int);
            }
            None
        }
    }

    /// Sets the value of `k`, adding the key where it is missing.
    pub fn insert(&mut self, k: String, v: V)
        ensures
            final(self)@ == old(self)@.insert(k@, v),
    {
        proof {
            use_type_invariant(&*self);
        }
        let (pos, found) = self.find(k.as_str());
        let ghost old_keys = self.keys();
        let ghost old_view = self@;
        let ghost old_map = *self;
        let ghost kv = k@;
        let mut entries: Vec<(String, V)> = Vec::new();
        std::mem::swap(&mut entries, &mut self.entries);
        if found {
            entries.set(pos, (k, v));
        } else {
            entries.insert(pos, (k, v));
        }
        let ghost new_map = StrMap { entries };
        let ghost new_keys = new_map.keys();
        proof {
            if found {
                assert(new_keys =~= old_keys);
            } else {
                assert(new_keys =~= old_keys.insert(pos as int, kv));
                assert forall|i: int, j: int| 0 <= i < j < new_keys.len() implies seq_lt(
                    #[trigger] new_keys[i],
                    #[trigger] new_keys[j],
                ) by {
                    if j < pos {
                        assert(seq_lt(old_keys[i], old_keys[j]));
                    } else if j == pos {
                        assert(seq_lt(old_keys[i], kv));
                    } else if i < pos {
                        assert(seq_lt(old_keys[i], old_keys[j - 1]));
                    } else if i == pos {
                        assert(seq_lt(kv, old_keys[pos as int]));
                        if j - 1 > pos {
                            assert(seq_lt(old_keys[pos as int], old_keys[j - 1]));
                            lemma_lt_transitive(kv, old_keys[pos as int], old_keys[j - 1]);
                        }
                    } else {
                        assert(seq_lt(old_keys[i - 1], old_keys[j - 1]));
                    }
                }
            }
            assert(strictly_sorted(new_keys));
            let target = old_view.insert(kv, v);
            assert forall|q: Seq<char>| new_map@.contains_key(q) <==> target.contains_key(q) by {
                if new_keys.contains(q) {
                    let j = new_keys.index_of(q);
                    if q != kv {
                        if found || j < pos {
                            assert(old_keys[j] == q);
                        } else {
                            assert(old_keys[j - 1] == q);
                        }
                    }
                }
                if old_keys.contains(q) {
                    let j = old_keys.index_of(q);
                    if found || j < pos {
                        assert(new_keys[j] == q || (found && j == pos));
                    } else {
                        assert(new_keys[j + 1] == q);
                    }
                }
                if q == kv {
                    assert(new_keys[pos as int] == kv);
                }
            }
            assert forall|q: Seq<char>| #[trigger] new_map@.contains_key(q) implies new_map@[q]
                == target[q] by {
                let j = new_keys.index_of(q);
                new_map.lemma_view_at(j);
                if q == kv {
                    if j != pos {
                        if j < pos {
                            assert(seq_lt(new_keys[j], new_keys[pos as int]));
                        } else {
                            assert(seq_lt(new_keys[pos as int], new_keys[j]));
                        }
                        lemma_lt_irreflexive(kv);
                    }
                } else {
                    if found || j < pos {
                        old_map.lemma_view_at(j);
                    } else {
                        old_map.lemma_view_at(j - 1);
                    }
                }
            }
            assert(new_map@ =~= target);
        }
        self.entries = entries;
    }

    /// Removes `k`; says whether it was present.
    pub fn remove(&mut self, k: &str) -> (r: bool)
        ensures
            r == old(self)@.contains_key(k@),
            final(self)@ == old(self)@.remove(k@),
    {
        proof {
            use_type_invariant(&*self);
        }
        let (pos, found) = self.find(k);
        if !found {
            proof {
                lemma_absent_after_find(self.keys(), k@, pos as int);
            }
            assert(self@ =~= self@.remove(k@));
            return false;
        }
        let ghost old_keys = self.keys();
        let ghost old_view = self@;
        let ghost old_map = *self;
        proof {
            self.lemma_view_at(pos as int);
        }
        let mut entries: Vec<(String, V)> = Vec::new();
        std::mem::swap(&mut entries, &mut self.entries);
        let _removed = entries.remove(pos);
        let ghost new_map = StrMap { entries };
        let ghost new_keys = new_map.keys();
        proof {
            assert(new_keys =~= old_keys.remove(pos as int));
            assert forall|i: int, j: int| 0 <= i < j < new_keys.len() implies seq_lt(
                #[trigger] new_keys[i],
                #[trigger] new_keys[j],
            ) by {
                let oi = if i < pos { i } else { i + 1 };
                let oj = if j < pos { j } else { j + 1 };
                assert(seq_lt(old_keys[oi], old_keys[oj]));
            }
            let target = old_view.remove(k@);
            assert forall|q: Seq<char>| new_map@.contains_key(q) <==> target.contains_key(q) by {
                if new_keys.contains(q) {
                    let j = new_keys.index_of(q);
                    let oj = if j < pos { j } else { j + 1 };
                    assert(old_keys[oj] == q);
                    if q == k@ {
                        if oj < pos {
                            assert(seq_lt(old_keys[oj], old_keys[pos as int]));
                        } else {
                            assert(seq_lt(old_keys[pos as int], old_keys[oj]));
                        }
                        lemma_lt_irreflexive(q);
                    }
                }
                if old_keys.contains(q) && q != k@ {
                    let j = old_keys.index_of(q);
                    if j < pos {
                        assert(new_keys[j] == q);
                    } else {
                        assert(new_keys[j - 1] == q);
                    }
                }
            }
            assert forall|q: Seq<char>| #[trigger] new_map@.contains_key(q) implies new_map@[q]
                == target[q] by {
                let j = new_keys.index_of(q);
                new_map.lemma_view_at(j);
                let oj = if j < pos { j } else { j + 1 };
                assert(old_keys[oj] == q);
                assert(new_map.values()[j] == old_map.values()[oj]);
                old_map.lemma_view_at(oj);
                if q == k@ {
                    if oj < pos {
                        assert(seq_lt(old_keys[oj], old_keys[pos as int]));
                    } else {
                        assert(seq_lt(old_keys[pos as int], old_keys[oj]));
                    }
                    lemma_lt_irreflexive(q);
                }
            }
            assert(new_map@ =~= target);
        }
        self.entries = entries;
        true
    }

    /// Removes every entry.
    pub fn clear(&mut self)
        ensures
            final(self)@ == Map::<Seq<char>, V>::empty(),
    {
        self.entries = Vec::new();
        assert(self@ =~= Map::<Seq<char>, V>::empty());
    }
}

impl StrMap<(String, usize)> {
    /// A copy of the map, entry by entry.
    pub fn clone_table(&self) -> (r: Self)
        ensures
            r@ == self@,
            r.keys() == self.keys(),
    {
        proof {
            use_type_invariant(self);
        }
        let n = self.entries.len();
        let mut entries: Vec<(String, (String, usize))> = Vec::new();
        let mut i: usize = 0;
        while i < n
            invariant
                n == self.entries@.len(),
                i <= n,
                entries@.len() == i,
                forall|j: int| 0 <= j < i ==> (#[trigger] entries@[j]).0@ == self.entries@[j].0@,
                forall|j: int| 0 <= j < i ==> (#[trigger] entries@[j]).1 == self.entries@[j].1,
            decreases n - i,
        {
            let e = &self.entries[i];
            entries.push((e.0.clone(), (e.1.0.clone(), e.1.1)));
            i = i + 1;
        }
        proof {
            let g = StrMap { entries: entries };
            assert(g.keys() =~= self.keys());
            assert(g.values() =~= self.values());
        }
        StrMap { entries }
    }
}

impl<V> View for StrMap<V> {
    type V = Map<Seq<char>, V>;

    closed spec fn view(&self) -> Map<Seq<char>, V> {
        Map::new(
            |q: Seq<char>| self.keys().contains(q),
            |q: Seq<char>| self.values()[self.keys().index_of(q)],
        )
    }
}

} // verus!
