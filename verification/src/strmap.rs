//! A map from strings to strings, kept as a vector of distinct keys.

use vstd::prelude::*;
use crate::text::str_eq;

verus! {

/// The entries of a vector of string pairs, by their characters.
pub open spec fn entry_views(e: Seq<(String, String)>) -> Seq<(Seq<char>, Seq<char>)> {
    e.map_values(|p: (String, String)| (p.0@, p.1@))
}

/// The map that a sequence of entries denotes: a later entry for a key
/// overrides an earlier one.
pub open spec fn entries_map<V>(e: Seq<(Seq<char>, V)>) -> Map<Seq<char>, V>
    decreases e.len(),
{
    if e.len() == 0 {
        Map::empty()
    } else {
        entries_map(e.drop_last()).insert(e.last().0, e.last().1)
    }
}

/// No key occurs twice.
pub open spec fn distinct_keys<V>(e: Seq<(Seq<char>, V)>) -> bool {
    forall|i: int, j: int| 0 <= i < j < e.len() ==> e[i].0 != e[j].0
}

/// Membership and values of `entries_map`, for distinct keys.
pub proof fn lemma_entries_map<V>(e: Seq<(Seq<char>, V)>)
    requires
        distinct_keys(e),
    ensures
        forall|k: Seq<char>|
            entries_map(e).dom().contains(k) <==> exists|i: int| 0 <= i < e.len() && e[i].0 == k,
        forall|i: int| 0 <= i < e.len() ==> #[trigger] entries_map(e)[e[i].0] == e[i].1,
        entries_map(e).dom().finite(),
        entries_map(e).dom().len() == e.len(),
    decreases e.len(),
{
    if e.len() > 0 {
        let d = e.drop_last();
        assert(distinct_keys(d));
        lemma_entries_map(d);
        assert forall|k: Seq<char>|
            entries_map(e).dom().contains(k) <==> exists|i: int|
                0 <= i < e.len() && e[i].0 == k by {
            if entries_map(e).dom().contains(k) {
                if k == e.last().0 {
                    assert(e[e.len() - 1].0 == k);
                } else {
                    let i = choose|i: int| 0 <= i < d.len() && d[i].0 == k;
                    assert(e[i].0 == k);
                }
            }
            if exists|i: int| 0 <= i < e.len() && e[i].0 == k {
                let i = choose|i: int| 0 <= i < e.len() && e[i].0 == k;
                if i < e.len() - 1 {
                    assert(d[i].0 == k);
                }
            }
        }
        assert forall|i: int| 0 <= i < e.len() implies #[trigger] entries_map(e)[e[i].0]
            == e[i].1 by {
            if i < e.len() - 1 {
                assert(d[i] == e[i]);
                assert(e[i].0 != e.last().0);
            }
        }
        assert(!entries_map(d).dom().contains(e.last().0)) by {
            if entries_map(d).dom().contains(e.last().0) {
                let i = choose|i: int| 0 <= i < d.len() && d[i].0 == e.last().0;
                assert(e[i].0 == e[e.len() - 1].0);
            }
        }
    }
}

/// Replacing the value of a present key in distinct entries updates the map
/// at that key alone.
pub proof fn lemma_entries_map_update<V>(e: Seq<(Seq<char>, V)>, i: int, v: V)
    requires
        distinct_keys(e),
        0 <= i < e.len(),
    ensures
        distinct_keys(e.update(i, (e[i].0, v))),
        entries_map(e.update(i, (e[i].0, v))) == entries_map(e).insert(e[i].0, v),
{
    let k = e[i].0;
    let u = e.update(i, (k, v));
    assert forall|a: int, b: int| 0 <= a < b < u.len() implies u[a].0 != u[b].0 by {
        assert(u[a].0 == e[a].0 && u[b].0 == e[b].0);
    }
    lemma_entries_map(e);
    lemma_entries_map(u);
    let m1 = entries_map(u);
    let m2 = entries_map(e).insert(k, v);
    assert forall|kk: Seq<char>| m1.dom().contains(kk) <==> m2.dom().contains(kk) by {
        if exists|j: int| 0 <= j < u.len() && u[j].0 == kk {
            let j = choose|j: int| 0 <= j < u.len() && u[j].0 == kk;
            assert(e[j].0 == kk);
        }
        if exists|j: int| 0 <= j < e.len() && e[j].0 == kk {
            let j = choose|j: int| 0 <= j < e.len() && e[j].0 == kk;
            assert(u[j].0 == kk);
        }
    }
    assert forall|kk: Seq<char>| m1.dom().contains(kk) implies m1[kk] == m2[kk] by {
        let j = choose|j: int| 0 <= j < u.len() && u[j].0 == kk;
        assert(m1[u[j].0] == u[j].1);
        if j != i {
            assert(e[j] == u[j]);
            assert(entries_map(e)[e[j].0] == e[j].1);
        }
    }
    assert(m1 =~= m2);
}

/// Appending an entry with a new key keeps the keys distinct.
pub proof fn lemma_distinct_push<V>(e: Seq<(Seq<char>, V)>, x: (Seq<char>, V))
    requires
        distinct_keys(e),
        !entries_map(e).dom().contains(x.0),
    ensures
        distinct_keys(e.push(x)),
{
    lemma_entries_map(e);
    assert forall|a: int, b: int| 0 <= a < b < e.push(x).len() implies e.push(x)[a].0 != e.push(
        x,
    )[b].0 by {
        if b == e.len() {
            assert(e[a].0 != x.0);
        }
    }
}

/// A string-to-string map.
#[derive(Debug)]
pub struct StringMap {
    entries: Vec<(String, String)>,
}

impl View for StringMap {
    type V = Map<Seq<char>, Seq<char>>;

    closed spec fn view(&self) -> Map<Seq<char>, Seq<char>> {
        entries_map(entry_views(self.entries@))
    }
}

impl StringMap {
    /// Keys are distinct.
    pub closed spec fn wf(&self) -> bool {
        distinct_keys(entry_views(self.entries@))
    }

    pub closed spec fn spec_entries(&self) -> Seq<(Seq<char>, Seq<char>)> {
        entry_views(self.entries@)
    }

    pub fn new() -> (r: StringMap)
        ensures
            r.wf(),
            r@ == Map::<Seq<char>, Seq<char>>::empty(),
    {
        let r = StringMap { entries: Vec::new() };
        assert(entry_views(r.entries@) =~= Seq::<(Seq<char>, Seq<char>)>::empty());
        r
    }

    proof fn lemma_view(&self)
        requires
            self.wf(),
        ensures
            forall|k: Seq<char>|
                self@.dom().contains(k) <==> exists|i: int|
                    0 <= i < self.entries@.len() && self.entries@[i].0@ == k,
            forall|i: int|
                0 <= i < self.entries@.len() ==> #[trigger] self@[self.entries@[i].0@]
                    == self.entries@[i].1@,
            self@.dom().finite(),
            self@.dom().len() == self.entries@.len(),
    {
        let e = entry_views(self.entries@);
        lemma_entries_map(e);
        assert forall|k: Seq<char>|
            self@.dom().contains(k) <==> exists|i: int|
                0 <= i < self.entries@.len() && self.entries@[i].0@ == k by {
            if exists|i: int| 0 <= i < self.entries@.len() && self.entries@[i].0@ == k {
                let i = choose|i: int| 0 <= i < self.entries@.len() && self.entries@[i].0@ == k;
                assert(e[i].0 == k);
            }
        }
        assert forall|i: int| 0 <= i < self.entries@.len() implies #[trigger] self@[
            self.entries@[i].0@] == self.entries@[i].1@ by {
            assert(e[i].0 == self.entries@[i].0@);
        }
    }

    fn find(&self, key: &str) -> (r: Option<usize>)
        requires
            self.wf(),
        ensures
            match r {
                Some(i) => i < self.entries@.len() && self.entries@[i as int].0@ == key@,
                None => !self@.dom().contains(key@),
            },
    {
        proof {
            self.lemma_view();
        }
        let mut i: usize = 0;
        while i < self.entries.len()
            invariant
                i <= self.entries@.len(),
                forall|j: int| 0 <= j < i ==> self.entries@[j].0@ != key@,
            decreases self.entries@.len() - i,
        {
            if str_eq(self.entries[i].0.as_str(), key) {
                return Some(i);
            }
            i = i + 1;
        }
        None
    }

    /// The number of keys.
    pub fn len(&self) -> (r: usize)
        requires
            self.wf(),
        ensures
            r == self@.dom().len(),
    {
        proof {
            self.lemma_view();
        }
        self.entries.len()
    }

    pub fn is_empty(&self) -> (r: bool)
        requires
            self.wf(),
        ensures
            r == (self@.dom().len() == 0),
    {
        self.len() == 0
    }

    pub fn contains_key(&self, key: &str) -> (r: bool)
        requires
            self.wf(),
        ensures
            r == self@.dom().contains(key@),
    {
        proof {
            self.lemma_view();
        }
        self.find(key).is_some()
    }

    /// A copy of the value for `key`.
    pub fn get(&self, key: &str) -> (r: Option<String>)
        requires
            self.wf(),
        ensures
            match r {
                Some(v) => self@.dom().contains(key@) && self@[key@] == v@,
                None => !self@.dom().contains(key@),
            },
    {
        proof {
            self.lemma_view();
        }
        match self.find(key) {
            Some(i) => Some(self.entries[i].1.clone()),
            None => None,
        }
    }

    /// Sets the value of `key`.
    pub fn insert(&mut self, key: String, value: String)
        requires
            old(self).wf(),
        ensures
            final(self).wf(),
            final(self)@ == old(self)@.insert(key@, value@),
    {
        proof {
            self.lemma_view();
        }
        let ghost old_map = self@;
        match self.find(key.as_str()) {
            Some(i) => {
                let ghost k = key@;
                let ghost v = value@;
                self.entries.set(i, (key, value));
                proof {
                    assert(entry_views(self.entries@) =~= entry_views(old(self).entries@).update(
                        i as int,
                        (k, v),
                    ));
                    assert forall|j: int| 0 <= j < self.entries@.len() implies #[trigger]
                        self.entries@[j].0@ == old(self).entries@[j].0@ by {
                        if j != i {
                            assert(self.entries@[j] == old(self).entries@[j]);
                        }
                    }
                    assert forall|a: int, b: int|
                        0 <= a < b < self.entries@.len() implies self.entries@[a].0@
                        != self.entries@[b].0@ by {
                        assert(entry_views(old(self).entries@)[a].0 != entry_views(
                            old(self).entries@,
                        )[b].0);
                    }
                    assert(self.wf());
                    self.lemma_view();
                    assert forall|kk: Seq<char>|
                        self@.dom().contains(kk) <==> old_map.insert(k, v).dom().contains(kk) by {
                        if exists|j: int|
                            0 <= j < old(self).entries@.len() && old(self).entries@[j].0@ == kk {
                            let j = choose|j: int|
                                0 <= j < old(self).entries@.len() && old(self).entries@[j].0@
                                    == kk;
                            if j != i {
                                assert(self.entries@[j].0@ == kk);
                            }
                        }
                        if exists|j: int| 0 <= j < self.entries@.len() && self.entries@[j].0@ == kk {
                            let j = choose|j: int|
                                0 <= j < self.entries@.len() && self.entries@[j].0@ == kk;
                            if j != i {
                                assert(old(self).entries@[j].0@ == kk);
                            }
                        }
                    }
                    assert forall|kk: Seq<char>| #[trigger]
                        self@.dom().contains(kk) implies self@[kk] == old_map.insert(k, v)[kk] by {
                        let j = choose|j: int|
                            0 <= j < self.entries@.len() && self.entries@[j].0@ == kk;
                        assert(self@[self.entries@[j].0@] == self.entries@[j].1@);
                        assert(self.entries@[i as int].0@ == k);
                        if j != i {
                            let (a, b) = if j < i { (j, i as int) } else { (i as int, j) };
                            assert(entry_views(self.entries@)[a].0 != entry_views(self.entries@)[b].0);
                            assert(old(self).entries@[j] == self.entries@[j]);
                            assert(old_map[old(self).entries@[j].0@] == old(self).entries@[j].1@);
                        }
                    }
                    assert(self@ =~= old_map.insert(k, v));
                }
            },
            None => {
                let ghost k = key@;
                let ghost v = value@;
                self.entries.push((key, value));
                proof {
                    let e = entry_views(self.entries@);
                    assert(e.drop_last() =~= entry_views(old(self).entries@));
                    assert(e.last() == (k, v));
                    assert forall|a: int, b: int| 0 <= a < b < e.len() implies e[a].0 != e[b].0 by {
                        if b == e.len() - 1 {
                            assert(old(self).entries@[a].0@ == e[a].0);
                        } else {
                            assert(entry_views(old(self).entries@)[a] == e[a]);
                            assert(entry_views(old(self).entries@)[b] == e[b]);
                        }
                    }
                }
            },
        }
    }

    /// Removes `key` and its value, if present.
    pub fn remove(&mut self, key: &str)
        requires
            old(self).wf(),
        ensures
            final(self).wf(),
            final(self)@ == old(self)@.remove(key@),
    {
        proof {
            self.lemma_view();
        }
        let ghost old_map = self@;
        match self.find(key) {
            Some(i) => {
                self.entries.remove(i);
                proof {
                    assert(entry_views(self.entries@) =~= entry_views(old(self).entries@).remove(
                        i as int,
                    ));
                    assert forall|a: int, b: int|
                        0 <= a < b < self.entries@.len() implies self.entries@[a].0@
                        != self.entries@[b].0@ by {
                        let a2 = if a < i {
                            a
                        } else {
                            a + 1
                        };
                        let b2 = if b < i {
                            b
                        } else {
                            b + 1
                        };
                        assert(self.entries@[a] == old(self).entries@[a2]);
                        assert(self.entries@[b] == old(self).entries@[b2]);
                        assert(entry_views(old(self).entries@)[a2].0 != entry_views(
                            old(self).entries@,
                        )[b2].0);
                    }
                    assert(self.wf());
                    self.lemma_view();
                    assert forall|kk: Seq<char>|
                        self@.dom().contains(kk) <==> old_map.remove(key@).dom().contains(kk) by {
                        if exists|j: int|
                            0 <= j < old(self).entries@.len() && old(self).entries@[j].0@ == kk {
                            let j = choose|j: int|
                                0 <= j < old(self).entries@.len() && old(self).entries@[j].0@
                                    == kk;
                            if j < i {
                                assert(self.entries@[j].0@ == kk);
                            } else if j > i {
                                assert(self.entries@[j - 1].0@ == kk);
                            }
                        }
                        if exists|j: int| 0 <= j < self.entries@.len() && self.entries@[j].0@ == kk {
                            let j = choose|j: int|
                                0 <= j < self.entries@.len() && self.entries@[j].0@ == kk;
                            let j2 = if j < i {
                                j
                            } else {
                                j + 1
                            };
                            assert(old(self).entries@[j2].0@ == kk);
                            assert(entry_views(old(self).entries@)[j2].0 != entry_views(
                                old(self).entries@,
                            )[i as int].0 || j2 == i);
                        }
                    }
                    assert forall|kk: Seq<char>| #[trigger]
                        self@.dom().contains(kk) implies self@[kk] == old_map.remove(key@)[kk] by {
                        let j = choose|j: int|
                            0 <= j < self.entries@.len() && self.entries@[j].0@ == kk;
                        let j2 = if j < i {
                            j
                        } else {
                            j + 1
                        };
                        assert(self@[self.entries@[j].0@] == self.entries@[j].1@);
                        assert(old(self).entries@[j2] == self.entries@[j]);
                        assert(old_map[old(self).entries@[j2].0@] == old(self).entries@[j2].1@);
                    }
                    assert(self@ =~= old_map.remove(key@));
                }
            },
            None => {
                assert(old_map.remove(key@) =~= old_map);
            },
        }
    }

    /// The keys, in storage order.
    pub fn keys(&self) -> (r: Vec<String>)
        requires
            self.wf(),
        ensures
            forall|k: Seq<char>|
                self@.dom().contains(k) <==> exists|i: int| 0 <= i < r@.len() && r@[i]@ == k,
            r@.len() == self@.dom().len(),
            forall|i: int, j: int| 0 <= i < j < r@.len() ==> r@[i]@ != r@[j]@,
    {
        proof {
            self.lemma_view();
        }
        let mut r: Vec<String> = Vec::new();
        let mut i: usize = 0;
        while i < self.entries.len()
            invariant
                i <= self.entries@.len(),
                self.wf(),
                r@.len() == i,
                forall|j: int| 0 <= j < i ==> r@[j]@ == self.entries@[j].0@,
            decreases self.entries@.len() - i,
        {
            r.push(self.entries[i].0.clone());
            i = i + 1;
        }
        proof {
            assert forall|k: Seq<char>|
                self@.dom().contains(k) <==> exists|i: int| 0 <= i < r@.len() && r@[i]@ == k by {
                if self@.dom().contains(k) {
                    let j = choose|j: int|
                        0 <= j < self.entries@.len() && self.entries@[j].0@ == k;
                    assert(r@[j]@ == k);
                }
                if exists|i: int| 0 <= i < r@.len() && r@[i]@ == k {
                    let j = choose|j: int| 0 <= j < r@.len() && r@[j]@ == k;
                    assert(self.entries@[j].0@ == k);
                }
            }
            assert forall|a: int, b: int| 0 <= a < b < r@.len() implies r@[a]@ != r@[b]@ by {
                assert(entry_views(self.entries@)[a].0 != entry_views(self.entries@)[b].0);
            }
        }
        r
    }

    /// The key-value pairs, in storage order.
    pub fn to_pairs(&self) -> (r: Vec<(String, String)>)
        requires
            self.wf(),
        ensures
            entry_views(r@) == self.spec_entries(),
            entries_map(entry_views(r@)) == self@,
            distinct_keys(entry_views(r@)),
    {
        self.copy_entries()
    }

    fn copy_entries(&self) -> (r: Vec<(String, String)>)
        ensures
            entry_views(r@) == self.spec_entries(),
    {
        let mut r: Vec<(String, String)> = Vec::new();
        let mut i: usize = 0;
        while i < self.entries.len()
            invariant
                i <= self.entries@.len(),
                r@.len() == i,
                entry_views(r@) == entry_views(self.entries@).take(i as int),
            decreases self.entries@.len() - i,
        {
            let k = self.entries[i].0.clone();
            let v = self.entries[i].1.clone();
            let ghost before = r@;
            r.push((k, v));
            proof {
                assert(r@ == before.push((k, v)));
                assert forall|j: int| 0 <= j < i + 1 implies #[trigger] entry_views(r@)[j]
                    == entry_views(self.entries@).take(i + 1)[j] by {
                    if j < i {
                        assert(r@[j] == before[j]);
                        assert(entry_views(before)[j] == entry_views(self.entries@).take(
                            i as int,
                        )[j]);
                    }
                }
                assert(entry_views(r@) =~= entry_views(self.entries@).take(i + 1));
            }
            i = i + 1;
        }
        proof {
            assert(entry_views(self.entries@).take(i as int) =~= entry_views(self.entries@));
        }
        r
    }

    /// A copy of the map.
    pub fn clone_map(&self) -> (r: StringMap)
        requires
            self.wf(),
        ensures
            r.wf(),
            r@ == self@,
    {
        StringMap { entries: self.to_pairs() }
    }

    /// Inserts every pair of `other`, which wins where both have a key.
    pub fn extend_from(&mut self, other: &StringMap)
        requires
            old(self).wf(),
            other.wf(),
        ensures
            final(self).wf(),
            final(self)@ == old(self)@.union_prefer_right(other@),
    {
        let pairs = other.to_pairs();
        let ghost e = entry_views(pairs@);
        let mut i: usize = 0;
        while i < pairs.len()
            invariant
                i <= pairs@.len(),
                e == entry_views(pairs@),
                self.wf(),
                self@ == old(self)@.union_prefer_right(entries_map(e.take(i as int))),
            decreases pairs@.len() - i,
        {
            let k = pairs[i].0.clone();
            let v = pairs[i].1.clone();
            self.insert(k, v);
            proof {
                assert(e.take(i + 1).drop_last() =~= e.take(i as int));
                assert(e.take(i + 1).last() == e[i as int]);
                assert(self@ =~= old(self)@.union_prefer_right(entries_map(e.take(i + 1))));
            }
            i = i + 1;
        }
        proof {
            assert(e.take(i as int) =~= e);
        }
    }
}

impl Clone for StringMap {
    /// A copy with the same entries.
    fn clone(&self) -> (r: StringMap)
        ensures
            r.spec_entries() == self.spec_entries(),
            r@ == self@,
            r.wf() == self.wf(),
    {
        StringMap { entries: self.copy_entries() }
    }
}

} // verus!
