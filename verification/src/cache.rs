//! Cache abstraction for filesystem layers.
//!
//! Keys are strings (e.g. path or path+offset); values are byte buffers. Implementations
//! may be in memory, on disk, or both; optional statistics support monitoring.
use vstd::prelude::*;
use crate::strmap::{as_map, lookup, StrMap};
use crate::text::owned;

verus! {

/// Statistics for cache monitoring (hit rate, eviction count).
#[derive(Debug, Clone, Copy)]
pub struct CacheStats {
    /// Number of successful lookups.
    pub hits: u64,
    /// Number of lookups that missed.
    pub misses: u64,
    /// Number of entries evicted (e.g. by capacity or TTL).
    pub evictions: u64,
}

impl CacheStats {
    /// Total number of lookups (hits + misses).
    pub fn total_requests(&self) -> (r: u64)
        requires
            self.hits + self.misses <= u64::MAX,
        ensures
            r == self.hits + self.misses,
    {
        self.hits + self.misses
    }
}

impl Default for CacheStats {
    fn default() -> (r: Self)
        ensures
            r.hits == 0 && r.misses == 0 && r.evictions == 0,
    {
        CacheStats { hits: 0, misses: 0, evictions: 0 }
    }
}

/// Abstraction for key-value caches used by filesystem layers.
pub trait Cache {
    /// Returns the value for `key`, or `None` if missing or expired.
    fn get(&self, key: &str) -> Option<Vec<u8>>;

    /// Inserts or overwrites the value for `key`.
    fn put(&mut self, key: &str, value: &[u8]);

    /// Removes the entry for `key`. No-op if the key is not present.
    fn remove(&mut self, key: &str);

    /// Removes all entries whose key starts with `prefix`. The default does nothing;
    /// prefix-aware caches override it.
    fn invalidate_prefix(&mut self, prefix: &str) {
    }

    /// Returns current cache statistics if the implementation tracks them; by default
    /// it does not.
    fn stats(&self) -> (r: Option<CacheStats>)
        default_ensures
            r is None,
    {
        None
    }
}

/// Whether `p` is a prefix of `k`.
pub open spec fn is_prefix(p: Seq<char>, k: Seq<char>) -> bool {
    p.len() <= k.len() && k.subrange(0, p.len() as int) == p
}

/// Simple in-memory cache: no capacity limit, TTL or eviction policy. Useful for tests
/// and as a reference implementation.
pub struct HashMapCache {
    inner: StrMap<Vec<u8>>,
}

impl HashMapCache {
    #[verifier::type_invariant]
    spec fn inv(self) -> bool {
        self.inner.wf()
    }

    /// What the cache holds: each key's bytes.
    pub closed spec fn contents(&self) -> Map<Seq<char>, Seq<u8>> {
        self.inner.map().map_values(|v: Vec<u8>| v@)
    }

    /// Creates a new empty cache.
    pub fn new() -> (r: Self)
        ensures
            r.contents() == Map::<Seq<char>, Seq<u8>>::empty(),
    {
        let r = HashMapCache { inner: StrMap::new() };
        proof {
            assert(r.contents() =~= Map::<Seq<char>, Seq<u8>>::empty());
        }
        r
    }
}

impl Default for HashMapCache {
    fn default() -> (r: Self)
        ensures
            r.contents() == Map::<Seq<char>, Seq<u8>>::empty(),
    {
        HashMapCache::new()
    }
}

impl Cache for HashMapCache {
    fn get(&self, key: &str) -> (r: Option<Vec<u8>>)
        ensures
            match r {
                Some(v) => self.contents().contains_key(key@) && self.contents()[key@] == v@,
                None => !self.contents().contains_key(key@),
            },
    {
        proof {
            use_type_invariant(self);
        }
        match self.inner.get(key) {
            Some(v) => Some(v.clone()),
            None => None,
        }
    }

    fn put(&mut self, key: &str, value: &[u8])
        ensures
            final(self).contents() == old(self).contents().insert(key@, value@),
    {
        proof {
            use_type_invariant(&*self);
        }
        let v = vstd::slice::slice_to_vec(value);
        let mut m = StrMap::new();
        std::mem::swap(&mut m, &mut self.inner);
        m.insert(owned(key), v);
        self.inner = m;
        proof {
            assert(self.contents() =~= old(self).contents().insert(key@, value@));
        }
    }

    fn remove(&mut self, key: &str)
        ensures
            final(self).contents() == old(self).contents().remove(key@),
    {
        proof {
            use_type_invariant(&*self);
        }
        let mut m = StrMap::new();
        std::mem::swap(&mut m, &mut self.inner);
        m.remove(key);
        self.inner = m;
        proof {
            assert(self.contents() =~= old(self).contents().remove(key@));
        }
    }

    fn invalidate_prefix(&mut self, prefix: &str)
        ensures
            final(self).contents() == old(self).contents().restrict(
                old(self).contents().dom().filter(|k: Seq<char>| !is_prefix(prefix@, k)),
            ),
    {
        proof {
            use_type_invariant(&*self);
        }
        let mut rest = StrMap::new();
        std::mem::swap(&mut rest, &mut self.inner);
        let ghost orig = rest.pairs();
        let mut kept: StrMap<Vec<u8>> = StrMap::new();
        let ghost mut n: int = 0;
        proof {
            assert(orig.subrange(0, 0) =~= Seq::<(Seq<char>, Vec<u8>)>::empty());
            assert(rest.pairs() =~= orig.subrange(0, orig.len() as int));
            assert(kept.map() =~= as_map(orig.subrange(0, 0)).restrict(
                as_map(orig.subrange(0, 0)).dom().filter(|k: Seq<char>| !is_prefix(prefix@, k)),
            ));
        }
        while rest.len() > 0
            invariant
                rest.wf(),
                kept.wf(),
                0 <= n <= orig.len(),
                rest.pairs() == orig.subrange(n, orig.len() as int),
                kept.map() == as_map(orig.subrange(0, n)).restrict(
                    as_map(orig.subrange(0, n)).dom().filter(|k: Seq<char>| !is_prefix(prefix@, k)),
                ),
            decreases rest.pairs().len(),
        {
            let ghost before = rest.pairs();
            let (k, v) = rest.remove_at(0);
            let keep = !crate::path::has_prefix(k.as_str(), prefix);
            let ghost kv = k@;
            let ghost vv = v;
            proof {
                assert(before[0] == orig[n]);
                assert(orig.subrange(0, n + 1).drop_last() =~= orig.subrange(0, n));
                assert(orig.subrange(0, n + 1).last() == orig[n]);
            }
            if keep {
                kept.insert(k, v);
            }
            proof {
                let m0 = as_map(orig.subrange(0, n));
                let m1 = as_map(orig.subrange(0, n + 1));
                assert forall|x: Seq<char>| #[trigger] lookup(orig.subrange(0, n + 1), x) == (if x
                    == kv {
                    Some(vv)
                } else {
                    lookup(orig.subrange(0, n), x)
                }) by {}
                assert(m1 =~= m0.insert(kv, vv));
                assert(kept.map() =~= m1.restrict(
                    m1.dom().filter(|k: Seq<char>| !is_prefix(prefix@, k)),
                ));
                assert(rest.pairs() =~= orig.subrange(n + 1, orig.len() as int));
                n = n + 1;
            }
        }
        proof {
            assert(orig.subrange(0, n) =~= orig);
        }
        self.inner = kept;
        proof {
            assert(self.contents() =~= old(self).contents().restrict(
                old(self).contents().dom().filter(|k: Seq<char>| !is_prefix(prefix@, k)),
            ));
        }
    }
}

/// A cache backed by foyer's concurrent in-memory cache, which evicts entries to stay
/// within its capacity. The foyer cache is held privately: its type's bounds name
/// traits that foyer does not export.
#[verifier::external_body]
pub struct FoyerCache {
    inner: foyer::Cache<String, Vec<u8>>,
}

/// What a foyer cache holds: each key's bytes.
pub uninterp spec fn foyer_contents(c: FoyerCache) -> Map<Seq<char>, Seq<u8>>;

impl FoyerCache {
    /// `foyer::Cache::builder(capacity).build()`: a cache of that capacity holding
    /// nothing.
    #[verifier::external_body]
    pub fn new(capacity: usize) -> (r: FoyerCache)
        ensures
            foyer_contents(r).dom().is_empty(),
    {
        FoyerCache { inner: foyer::Cache::builder(capacity).build() }
    }

    /// `foyer::Cache::get`, the entry's bytes copied: the value held for `key`, if any.
    #[verifier::external_body]
    fn lookup_entry(&self, key: &str) -> (r: Option<Vec<u8>>)
        ensures
            match r {
                Some(v) => foyer_contents(*self).contains_key(key@) && foyer_contents(*self)[key@] == v@,
                None => !foyer_contents(*self).contains_key(key@),
            },
    {
        self.inner.get(key).map(|e| e.value().to_vec())
    }

    /// `foyer::Cache::insert`: the cache evicts entries of other keys as it needs room,
    /// then holds `value` under `key`.
    #[verifier::external_body]
    fn insert_entry(&mut self, key: &str, value: &[u8])
        ensures
            foyer_contents(*final(self)).contains_key(key@),
            foyer_contents(*final(self))[key@] == value@,
            forall|k: Seq<char>| #[trigger] foyer_contents(*final(self)).contains_key(k) && k != key@ ==> foyer_contents(
                *old(self),
            ).contains_key(k) && foyer_contents(*final(self))[k] == foyer_contents(*old(self))[k],
    {
        self.inner.insert(key.to_string(), value.to_vec());
    }

    /// `foyer::Cache::remove`: the entry of `key` is dropped, the others stay.
    #[verifier::external_body]
    fn remove_entry(&mut self, key: &str)
        ensures
            foyer_contents(*final(self)) == foyer_contents(*old(self)).remove(key@),
    {
        self.inner.remove(key);
    }
}

impl Cache for FoyerCache {
    fn get(&self, key: &str) -> (r: Option<Vec<u8>>)
        ensures
            match r {
                Some(v) => foyer_contents(*self).contains_key(key@) && foyer_contents(*self)[key@] == v@,
                None => !foyer_contents(*self).contains_key(key@),
            },
    {
        self.lookup_entry(key)
    }

    fn put(&mut self, key: &str, value: &[u8])
        ensures
            foyer_contents(*final(self)).contains_key(key@),
            foyer_contents(*final(self))[key@] == value@,
            forall|k: Seq<char>| #[trigger] foyer_contents(*final(self)).contains_key(k) && k != key@ ==> foyer_contents(
                *old(self),
            ).contains_key(k) && foyer_contents(*final(self))[k] == foyer_contents(*old(self))[k],
    {
        self.insert_entry(key, value)
    }

    fn remove(&mut self, key: &str)
        ensures
            foyer_contents(*final(self)) == foyer_contents(*old(self)).remove(key@),
    {
        self.remove_entry(key)
    }
}

} // verus!
