//! A map keyed by strings, kept as a list of entries with distinct keys.
//!
//! The list keeps insertion order: a new key goes to the end, an existing key keeps its
//! place when its value is replaced, and removal closes the gap.
use vstd::prelude::*;
use crate::text::chars_of;

verus! {

/// The value stored under `k` in a list of entries (the last entry with that key).
pub open spec fn lookup<V>(s: Seq<(Seq<char>, V)>, k: Seq<char>) -> Option<V>
    decreases s.len(),
{
    if s.len() == 0 {
        None
    } else if s.last().0 == k {
        Some(s.last().1)
    } else {
        lookup(s.drop_last(), k)
    }
}

/// No key occurs twice.
pub open spec fn distinct_keys<V>(s: Seq<(Seq<char>, V)>) -> bool {
    forall|i: int, j: int| 0 <= i < s.len() && 0 <= j < s.len() && i != j ==> s[i].0 != s[j].0
}

/// The map that a list of entries stands for.
pub open spec fn as_map<V>(s: Seq<(Seq<char>, V)>) -> Map<Seq<char>, V> {
    Map::new(|k: Seq<char>| lookup(s, k) is Some, |k: Seq<char>| lookup(s, k)->0)
}

/// A list of entries that holds each key once and, read as a map, is `m`.
pub open spec fn lists_map<V>(s: Seq<(Seq<char>, V)>, m: Map<Seq<char>, V>) -> bool {
    distinct_keys(s) && as_map(s) == m
}

/// Rewriting each entry's value, keeping its key, rewrites what every key looks up.
pub proof fn lemma_lookup_mapped<V, W>(s: Seq<(Seq<char>, V)>, g: spec_fn((Seq<char>, V)) -> (Seq<char>, W), k: Seq<char>)
    requires
        forall|e: (Seq<char>, V)| #[trigger] g(e).0 == e.0,
    ensures
        lookup(s.map_values(g), k) == match lookup(s, k) {
            Some(v) => Some(g((k, v)).1),
            None => None::<W>,
        },
    decreases s.len(),
{
    if s.len() > 0 {
        assert(s.map_values(g).drop_last() =~= s.drop_last().map_values(g));
        assert(s.map_values(g).last() == g(s.last()));
        lemma_lookup_mapped(s.drop_last(), g, k);
    }
}

pub proof fn lemma_lookup_absent<V>(s: Seq<(Seq<char>, V)>, k: Seq<char>)
    requires
        forall|i: int| 0 <= i < s.len() ==> s[i].0 != k,
    ensures
        lookup(s, k) is None,
    decreases s.len(),
{
    if s.len() > 0 {
        lemma_lookup_absent(s.drop_last(), k);
    }
}

pub proof fn lemma_lookup_at<V>(s: Seq<(Seq<char>, V)>, i: int)
    requires
        distinct_keys(s),
        0 <= i < s.len(),
    ensures
        lookup(s, s[i].0) == Some(s[i].1),
    decreases s.len(),
{
    if i != s.len() - 1 {
        assert(s.drop_last()[i] == s[i]);
        lemma_lookup_at(s.drop_last(), i);
    }
}

pub proof fn lemma_lookup_some<V>(s: Seq<(Seq<char>, V)>, k: Seq<char>)
    requires
        lookup(s, k) is Some,
    ensures
        exists|i: int| 0 <= i < s.len() && s[i].0 == k && s[i].1 == lookup(s, k)->0,
    decreases s.len(),
{
    if s.last().0 != k {
        lemma_lookup_some(s.drop_last(), k);
        let i = choose|i: int|
            0 <= i < s.drop_last().len() && s.drop_last()[i].0 == k && s.drop_last()[i].1 == lookup(
                s.drop_last(),
                k,
            )->0;
        assert(s[i] == s.drop_last()[i]);
    }
}

proof fn lemma_lookup_update<V>(s: Seq<(Seq<char>, V)>, idx: int, v: V, k: Seq<char>)
    requires
        distinct_keys(s),
        0 <= idx < s.len(),
    ensures
        lookup(s.update(idx, (s[idx].0, v)), k) == (if k == s[idx].0 {
            Some(v)
        } else {
            lookup(s, k)
        }),
    decreases s.len(),
{
    let t = s.update(idx, (s[idx].0, v));
    if idx == s.len() - 1 {
        assert(t.drop_last() =~= s.drop_last());
        if k != s[idx].0 {
        }
    } else {
        assert(t.drop_last() =~= s.drop_last().update(idx, (s[idx].0, v)));
        assert(s.drop_last()[idx] == s[idx]);
        lemma_lookup_update(s.drop_last(), idx, v, k);
        if k == s[idx].0 {
            assert(s.last().0 != s[idx].0);
        }
    }
}

proof fn lemma_lookup_remove<V>(s: Seq<(Seq<char>, V)>, idx: int, k: Seq<char>)
    requires
        distinct_keys(s),
        0 <= idx < s.len(),
    ensures
        lookup(s.remove(idx), k) == (if k == s[idx].0 {
            None
        } else {
            lookup(s, k)
        }),
    decreases s.len(),
{
    let t = s.remove(idx);
    if idx == s.len() - 1 {
        assert(t =~= s.drop_last());
        if k == s[idx].0 {
            assert forall|i: int| 0 <= i < t.len() implies t[i].0 != k by {
                assert(t[i] == s[i]);
            }
            lemma_lookup_absent(t, k);
        }
    } else {
        assert(t.drop_last() =~= s.drop_last().remove(idx));
        assert(t.last() == s.last());
        assert(s.drop_last()[idx] == s[idx]);
        lemma_lookup_remove(s.drop_last(), idx, k);
        if k == s[idx].0 {
            assert(s.last().0 != s[idx].0);
        }
    }
}

/// A map from strings to values.
pub struct StrMap<V> {
    entries: Vec<(String, V)>,
}

impl<V> StrMap<V> {
    /// The entries, in order, keys taken by their characters.
    pub closed spec fn pairs(&self) -> Seq<(Seq<char>, V)> {
        Seq::new(self.entries@.len(), |i: int| (self.entries@[i].0@, self.entries@[i].1))
    }

    /// The map that the entries stand for.
    pub open spec fn map(&self) -> Map<Seq<char>, V> {
        as_map(self.pairs())
    }

    /// Keys are distinct.
    pub open spec fn wf(&self) -> bool {
        distinct_keys(self.pairs())
    }

    pub fn new() -> (r: Self)
        ensures
            r.wf(),
            r.pairs() == Seq::<(Seq<char>, V)>::empty(),
    {
        let r = StrMap { entries: Vec::new() };
        proof {
            assert(r.pairs() =~= Seq::<(Seq<char>, V)>::empty());
        }
        r
    }

    pub fn len(&self) -> (r: usize)
        ensures
            r == self.pairs().len(),
    {
        self.entries.len()
    }

    /// The key and value of entry `i`.
    pub fn entry_at(&self, i: usize) -> (r: (&String, &V))
        requires
            i < self.pairs().len(),
        ensures
            r.0@ == self.pairs()[i as int].0,
            *r.1 == self.pairs()[i as int].1,
    {
        let e = &self.entries[i];
        (&e.0, &e.1)
    }

    /// Position of `key`, if present.
    pub fn find(&self, key: &str) -> (r: Option<usize>)
        requires
            self.wf(),
        ensures
            match r {
                Some(i) => i < self.pairs().len() && self.pairs()[i as int].0 == key@,
                None => lookup(self.pairs(), key@) is None,
            },
            r is None <==> lookup(self.pairs(), key@) is None,
    {
        let k = chars_of(key);
        let mut i: usize = 0;
        while i < self.entries.len()
            invariant
                i <= self.entries@.len(),
                k@ == key@,
                self.wf(),
                forall|j: int| 0 <= j < i ==> self.pairs()[j].0 != key@,
            decreases self.entries.len() - i,
        {
            let name = chars_of(self.entries[i].0.as_str());
            if same_chars(&name, &k) {
                proof {
                    assert(self.pairs()[i as int].0 == name@);
                    lemma_lookup_at(self.pairs(), i as int);
                }
                return Some(i);
            }
            proof {
                assert(self.pairs()[i as int].0 == name@);
            }
            i = i + 1;
        }
        proof {
            lemma_lookup_absent(self.pairs(), key@);
        }
        None
    }

    /// Whether `key` is present.
    pub fn contains_key(&self, key: &str) -> (r: bool)
        requires
            self.wf(),
        ensures
            r == self.map().contains_key(key@),
    {
        self.find(key).is_some()
    }

    /// The value under `key`.
    pub fn get(&self, key: &str) -> (r: Option<&V>)
        requires
            self.wf(),
        ensures
            match r {
                Some(v) => lookup(self.pairs(), key@) == Some(*v),
                None => lookup(self.pairs(), key@) is None,
            },
    {
        match self.find(key) {
            Some(i) => {
                proof {
                    lemma_lookup_at(self.pairs(), i as int);
                }
                Some(&self.entries[i].1)
            },
            None => None,
        }
    }

    /// Puts `value` under `key`: an existing entry keeps its place, a new key goes last.
    /// Returns the value it replaced.
    pub fn insert(&mut self, key: String, value: V) -> (r: Option<V>)
        requires
            old(self).wf(),
        ensures
            final(self).wf(),
            r == lookup(old(self).pairs(), key@),
            forall|k: Seq<char>|
                #![trigger lookup(final(self).pairs(), k)]
                lookup(final(self).pairs(), k) == (if k == key@ {
                    Some(value)
                } else {
                    lookup(old(self).pairs(), k)
                }),
            lookup(old(self).pairs(), key@) is None ==> final(self).pairs() == old(self).pairs().push(
                (key@, value),
            ),
            lookup(old(self).pairs(), key@) is Some ==> final(self).pairs().len() == old(
                self,
            ).pairs().len(),
            final(self).map() == old(self).map().insert(key@, value),
    {
        match self.find(key.as_str()) {
            Some(i) => {
                let ghost s = self.pairs();
                proof {
                    lemma_lookup_at(s, i as int);
                }
                let mut tmp: Vec<(String, V)> = Vec::new();
                std::mem::swap(&mut tmp, &mut self.entries);
                let (old_key, old_value) = tmp.remove(i);
                tmp.insert(i, (old_key, value));
                self.entries = tmp;
                proof {
                    assert(self.pairs() =~= s.update(i as int, (s[i as int].0, value)));
                    assert forall|k: Seq<char>| #![trigger lookup(self.pairs(), k)]
                        lookup(self.pairs(), k) == (if k == key@ {
                            Some(value)
                        } else {
                            lookup(s, k)
                        }) by {
                        lemma_lookup_update(s, i as int, value, k);
                    }
                    assert(self.map() =~= old(self).map().insert(key@, value));
                }
                Some(old_value)
            },
            None => {
                let ghost s = self.pairs();
                let ghost kv = key@;
                self.entries.push((key, value));
                proof {
                    assert(self.pairs() =~= s.push((kv, value)));
                    assert(self.pairs().drop_last() =~= s);
                    assert forall|a: int, b: int|
                        0 <= a < self.pairs().len() && 0 <= b < self.pairs().len() && a != b
                            implies self.pairs()[a].0 != self.pairs()[b].0 by {
                        if a == s.len() as int {
                            lemma_lookup_absent_contra(s, kv, b);
                        } else if b == s.len() as int {
                            lemma_lookup_absent_contra(s, kv, a);
                        }
                    }
                    assert(self.map() =~= old(self).map().insert(key@, value));
                }
                None
            },
        }
    }

    /// Removes `key`; the remaining entries keep their order. Returns the removed value.
    pub fn remove(&mut self, key: &str) -> (r: Option<V>)
        requires
            old(self).wf(),
        ensures
            final(self).wf(),
            r == lookup(old(self).pairs(), key@),
            forall|k: Seq<char>|
                #![trigger lookup(final(self).pairs(), k)]
                lookup(final(self).pairs(), k) == (if k == key@ {
                    None
                } else {
                    lookup(old(self).pairs(), k)
                }),
            final(self).map() == old(self).map().remove(key@),
            r is None ==> final(self).pairs() == old(self).pairs(),
    {
        match self.find(key) {
            Some(i) => {
                let ghost s = self.pairs();
                proof {
                    lemma_lookup_at(s, i as int);
                }
                let (_k, v) = self.entries.remove(i);
                proof {
                    assert(self.pairs() =~= s.remove(i as int));
                    assert forall|k: Seq<char>| #![trigger lookup(self.pairs(), k)]
                        lookup(self.pairs(), k) == (if k == key@ {
                            None
                        } else {
                            lookup(s, k)
                        }) by {
                        lemma_lookup_remove(s, i as int, k);
                    }
                    assert forall|a: int, b: int|
                        0 <= a < self.pairs().len() && 0 <= b < self.pairs().len() && a != b
                            implies self.pairs()[a].0 != self.pairs()[b].0 by {
                        let a2 = if a < i { a } else { a + 1 };
                        let b2 = if b < i { b } else { b + 1 };
                        assert(self.pairs()[a] == s[a2]);
                        assert(self.pairs()[b] == s[b2]);
                    }
                    assert(self.map() =~= old(self).map().remove(key@));
                }
                Some(v)
            },
            None => {
                proof {
                    assert(self.map() =~= old(self).map().remove(key@));
                }
                None
            },
        }
    }

    /// Removes entry `i`; the remaining entries keep their order.
    pub fn remove_at(&mut self, i: usize) -> (r: (String, V))
        requires
            old(self).wf(),
            i < old(self).pairs().len(),
        ensures
            final(self).wf(),
            final(self).pairs() == old(self).pairs().remove(i as int),
            r.0@ == old(self).pairs()[i as int].0,
            r.1 == old(self).pairs()[i as int].1,
    {
        let ghost s = self.pairs();
        let r = self.entries.remove(i);
        proof {
            assert(self.pairs() =~= s.remove(i as int));
            assert forall|a: int, b: int|
                0 <= a < self.pairs().len() && 0 <= b < self.pairs().len() && a != b
                    implies self.pairs()[a].0 != self.pairs()[b].0 by {
                let a2 = if a < i { a } else { a + 1 };
                let b2 = if b < i { b } else { b + 1 };
                assert(self.pairs()[a] == s[a2]);
                assert(self.pairs()[b] == s[b2]);
            }
        }
        r
    }

    /// Removes every entry.
    pub fn clear(&mut self)
        ensures
            final(self).wf(),
            final(self).pairs() == Seq::<(Seq<char>, V)>::empty(),
    {
        self.entries = Vec::new();
        proof {
            assert(self.pairs() =~= Seq::<(Seq<char>, V)>::empty());
        }
    }
}

proof fn lemma_lookup_absent_contra<V>(s: Seq<(Seq<char>, V)>, k: Seq<char>, j: int)
    requires
        lookup(s, k) is None,
        0 <= j < s.len(),
    ensures
        s[j].0 != k,
    decreases s.len(),
{
    if j < s.len() - 1 {
        assert(s.drop_last()[j] == s[j]);
        lemma_lookup_absent_contra(s.drop_last(), k, j);
    }
}

fn same_chars(a: &Vec<char>, b: &Vec<char>) -> (r: bool)
    ensures
        r == (a@ == b@),
{
    if a.len() != b.len() {
        return false;
    }
    let mut i: usize = 0;
    while i < a.len()
        invariant
            a@.len() == b@.len(),
            i <= a@.len(),
            forall|k: int| 0 <= k < i ==> a@[k] == b@[k],
        decreases a.len() - i,
    {
        if a[i] != b[i] {
            return false;
        }
        i = i + 1;
    }
    proof {
        assert(a@ =~= b@);
    }
    true
}

/// Pairs of strings as mathematical values.
pub open spec fn pair_views(v: Seq<(String, String)>) -> Seq<(Seq<char>, Seq<char>)> {
    Seq::new(v.len(), |i: int| (v[i].0@, v[i].1@))
}

} // verus!
