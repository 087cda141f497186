//! A map from strings to values of any type, kept as a vector of distinct
//! keys.

use vstd::prelude::*;
use crate::strmap::{entries_map, distinct_keys, lemma_entries_map, lemma_entries_map_update, lemma_distinct_push};
use crate::text::str_eq;

verus! {

/// The entries of a vector of keyed values, each key by its characters.
pub open spec fn keyed_views<V>(e: Seq<(String, V)>) -> Seq<(Seq<char>, V)> {
    e.map_values(|p: (String, V)| (p.0@, p.1))
}

/// Removing one of distinct entries removes its key from the map, and the
/// rest stay distinct.
pub proof fn lemma_entries_map_remove<V>(e: Seq<(Seq<char>, V)>, i: int)
    requires
        distinct_keys(e),
        0 <= i < e.len(),
    ensures
        distinct_keys(e.remove(i)),
        entries_map(e.remove(i)) == entries_map(e).remove(e[i].0),
{
    let u = e.remove(i);
    assert forall|a: int, b: int| 0 <= a < b < u.len() implies u[a].0 != u[b].0 by {
        let a2 = if a < i {
            a
        } else {
            a + 1
        };
        let b2 = if b < i {
            b
        } else {
            b + 1
        };
        assert(u[a] == e[a2]);
        assert(u[b] == e[b2]);
    }
    lemma_entries_map(e);
    lemma_entries_map(u);
    let m1 = entries_map(u);
    let m2 = entries_map(e).remove(e[i].0);
    assert forall|k: Seq<char>| m1.dom().contains(k) <==> m2.dom().contains(k) by {
        if exists|j: int| 0 <= j < u.len() && u[j].0 == k {
            let j = choose|j: int| 0 <= j < u.len() && u[j].0 == k;
            let j2 = if j < i {
                j
            } else {
                j + 1
            };
            assert(u[j] == e[j2]);
            assert(e[j2].0 != e[i].0);
        }
        if exists|j: int| 0 <= j < e.len() && e[j].0 == k {
            let j = choose|j: int| 0 <= j < e.len() && e[j].0 == k;
            if k != e[i].0 {
                let j2 = if j < i {
                    j
                } else {
                    j - 1
                };
                assert(u[j2] == e[j]);
            }
        }
    }
    assert forall|k: Seq<char>| #[trigger] m1.dom().contains(k) implies m1[k] == m2[k] by {
        let j = choose|j: int| 0 <= j < u.len() && u[j].0 == k;
        let j2 = if j < i {
            j
        } else {
            j + 1
        };
        assert(m1[u[j].0] == u[j].1);
        assert(u[j] == e[j2]);
        assert(entries_map(e)[e[j2].0] == e[j2].1);
    }
    assert(m1 =~= m2);
}

/// Two entry sequences with the same keys, in order, denote maps with the
/// same keys.
pub proof fn lemma_entries_map_dom<V, W>(a: Seq<(Seq<char>, V)>, b: Seq<(Seq<char>, W)>)
    requires
        a.len() == b.len(),
        forall|i: int| 0 <= i < a.len() ==> a[i].0 == b[i].0,
    ensures
        entries_map(a).dom() == entries_map(b).dom(),
    decreases a.len(),
{
    if a.len() > 0 {
        lemma_entries_map_dom(a.drop_last(), b.drop_last());
    }
    assert(entries_map(a).dom() =~= entries_map(b).dom());
}

/// A map from strings to values.
#[derive(Debug)]
pub struct KeyMap<V> {
    entries: Vec<(String, V)>,
}

impl<V> View for KeyMap<V> {
    type V = Map<Seq<char>, V>;

    closed spec fn view(&self) -> Map<Seq<char>, V> {
        entries_map(keyed_views(self.entries@))
    }
}

impl<V> KeyMap<V> {
    /// Keys are distinct.
    pub closed spec fn wf(&self) -> bool {
        distinct_keys(keyed_views(self.entries@))
    }

    pub fn new() -> (r: KeyMap<V>)
        ensures
            r.wf(),
            r@ == Map::<Seq<char>, V>::empty(),
    {
        let r = KeyMap { entries: Vec::new() };
        assert(keyed_views(r.entries@) =~= Seq::<(Seq<char>, V)>::empty());
        r
    }

    proof fn lemma_view(&self)
        requires
            self.wf(),
        ensures
            forall|k: Seq<char>|
                self@.dom().contains(k) <==> exists|i: int|
                    0 <= i < self.entries@.len() && self.entries@[i].0@ == k,
            forall|i: int|
                0 <= i < self.entries@.len() ==> #[trigger] self@[self.entries@[i].0@]
                    == self.entries@[i].1,
            self@.dom().finite(),
            self@.dom().len() == self.entries@.len(),
    {
        let e = keyed_views(self.entries@);
        lemma_entries_map(e);
        assert forall|k: Seq<char>|
            self@.dom().contains(k) <==> exists|i: int|
                0 <= i < self.entries@.len() && self.entries@[i].0@ == k by {
            if exists|i: int| 0 <= i < self.entries@.len() && self.entries@[i].0@ == k {
                let i = choose|i: int| 0 <= i < self.entries@.len() && self.entries@[i].0@ == k;
                assert(e[i].0 == k);
            }
        }
        assert forall|i: int| 0 <= i < self.entries@.len() implies #[trigger] self@[
            self.entries@[i].0@] == self.entries@[i].1 by {
            assert(e[i].0 == self.entries@[i].0@);
        }
    }

    fn find(&self, key: &str) -> (r: Option<usize>)
        requires
            self.wf(),
        ensures
            match r {
                Some(i) => i < self.entries@.len() && self.entries@[i as int].0@ == key@,
                None => !self@.dom().contains(key@),
            },
    {
        proof {
            self.lemma_view();
        }
        let mut i: usize = 0;
        while i < self.entries.len()
            invariant
                i <= self.entries@.len(),
                forall|j: int| 0 <= j < i ==> self.entries@[j].0@ != key@,
            decreases self.entries@.len() - i,
        {
            if str_eq(self.entries[i].0.as_str(), key) {
                return Some(i);
            }
            i = i + 1;
        }
        None
    }

    /// The number of keys.
    pub fn len(&self) -> (r: usize)
        requires
            self.wf(),
        ensures
            r == self@.dom().len(),
    {
        proof {
            self.lemma_view();
        }
        self.entries.len()
    }

    pub fn is_empty(&self) -> (r: bool)
        requires
            self.wf(),
        ensures
            r == (self@.dom().len() == 0),
    {
        self.len() == 0
    }

    pub fn contains_key(&self, key: &str) -> (r: bool)
        requires
            self.wf(),
        ensures
            r == self@.dom().contains(key@),
    {
        proof {
            self.lemma_view();
        }
        self.find(key).is_some()
    }

    /// The value of `key`.
    pub fn get(&self, key: &str) -> (r: Option<&V>)
        requires
            self.wf(),
        ensures
            match r {
                Some(v) => self@.dom().contains(key@) && *v == self@[key@],
                None => !self@.dom().contains(key@),
            },
    {
        proof {
            self.lemma_view();
        }
        match self.find(key) {
            Some(i) => Some(&self.entries[i].1),
            None => None,
        }
    }

    /// The keys, in storage order.
    pub fn keys(&self) -> (r: Vec<String>)
        requires
            self.wf(),
        ensures
            forall|k: Seq<char>|
                self@.dom().contains(k) <==> exists|i: int| 0 <= i < r@.len() && r@[i]@ == k,
            r@.len() == self@.dom().len(),
    {
        proof {
            self.lemma_view();
        }
        let mut r: Vec<String> = Vec::new();
        let mut i: usize = 0;
        while i < self.entries.len()
            invariant
                i <= self.entries@.len(),
                r@.len() == i,
                forall|j: int| 0 <= j < i ==> (#[trigger] r@[j])@ == self.entries@[j].0@,
            decreases self.entries@.len() - i,
        {
            r.push(self.entries[i].0.clone());
            i = i + 1;
        }
        proof {
            assert forall|k: Seq<char>|
                self@.dom().contains(k) <==> exists|i: int| 0 <= i < r@.len() && r@[i]@ == k by {
                if self@.dom().contains(k) {
                    let j = choose|j: int|
                        0 <= j < self.entries@.len() && self.entries@[j].0@ == k;
                    assert(r@[j]@ == k);
                }
                if exists|i: int| 0 <= i < r@.len() && r@[i]@ == k {
                    let j = choose|j: int| 0 <= j < r@.len() && r@[j]@ == k;
                    assert(self.entries@[j].0@ == k);
                }
            }
        }
        r
    }

    /// Sets the value of `key`.
    pub fn insert(&mut self, key: String, value: V)
        requires
            old(self).wf(),
        ensures
            final(self).wf(),
            final(self)@ == old(self)@.insert(key@, value),
    {
        let ghost e = keyed_views(self.entries@);
        let ghost k = key@;
        match self.find(key.as_str()) {
            Some(i) => {
                self.entries.set(i, (key, value));
                proof {
                    assert(keyed_views(self.entries@) =~= e.update(i as int, (e[i as int].0, value)));
                    lemma_entries_map_update(e, i as int, value);
                }
            },
            None => {
                self.entries.push((key, value));
                proof {
                    assert(keyed_views(self.entries@) =~= e.push((k, value)));
                    lemma_distinct_push(e, (k, value));
                    assert(e.push((k, value)).drop_last() =~= e);
                }
            },
        }
    }

    /// Takes `key` and its value out of the map, if present.
    pub fn remove(&mut self, key: &str) -> (r: Option<(String, V)>)
        requires
            old(self).wf(),
        ensures
            final(self).wf(),
            final(self)@ == old(self)@.remove(key@),
            match r {
                Some(kv) => kv.0@ == key@ && old(self)@.dom().contains(key@) && kv.1 == old(
                    self,
                )@[key@],
                None => !old(self)@.dom().contains(key@),
            },
    {
        proof {
            self.lemma_view();
        }
        let ghost e = keyed_views(self.entries@);
        match self.find(key) {
            Some(i) => {
                let kv = self.entries.remove(i);
                proof {
                    assert(keyed_views(self.entries@) =~= e.remove(i as int));
                    lemma_entries_map_remove(e, i as int);
                }
                Some(kv)
            },
            None => {
                assert(old(self)@.remove(key@) =~= old(self)@);
                None
            },
        }
    }
}

impl<V: Clone> Clone for KeyMap<V> {
    /// A copy with the same keys, each value cloned.
    fn clone(&self) -> (r: KeyMap<V>)
        ensures
            r@.dom() == self@.dom(),
            r.wf() == self.wf(),
            self.wf() ==> forall|k: Seq<char>| #[trigger]
                r@.dom().contains(k) ==> cloned::<V>(self@[k], r@[k]),
    {
        let mut out: Vec<(String, V)> = Vec::new();
        let mut i: usize = 0;
        while i < self.entries.len()
            invariant
                i <= self.entries@.len(),
                out@.len() == i,
                forall|j: int| 0 <= j < i ==> (#[trigger] out@[j]).0 == self.entries@[j].0,
                forall|j: int| 0 <= j < i ==> cloned::<V>(self.entries@[j].1, #[trigger] out@[j].1),
            decreases self.entries@.len() - i,
        {
            let k = self.entries[i].0.clone();
            let v = self.entries[i].1.clone();
            out.push((k, v));
            i = i + 1;
        }
        let r = KeyMap { entries: out };
        proof {
            let a = keyed_views(r.entries@);
            let b = keyed_views(self.entries@);
            assert forall|j: int| 0 <= j < a.len() implies a[j].0 == b[j].0 by {
                assert(r.entries@[j].0 == self.entries@[j].0);
            }
            lemma_entries_map_dom(a, b);
            if self.wf() {
                assert(r.wf());
                self.lemma_view();
                r.lemma_view();
                assert forall|k: Seq<char>| #[trigger] r@.dom().contains(k) implies cloned::<V>(
                    self@[k],
                    r@[k],
                ) by {
                    let j = choose|j: int| 0 <= j < r.entries@.len() && r.entries@[j].0@ == k;
                    assert(r@[r.entries@[j].0@] == r.entries@[j].1);
                    assert(self@[self.entries@[j].0@] == self.entries@[j].1);
                }
            }
        }
        r
    }
}

} // verus!
