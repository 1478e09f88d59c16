use vstd::prelude::*;
use crate::table::Table;

verus! {

/// What a cache holds and how often it was asked: entries, hits and misses.
pub struct CacheState {
    pub entries: Map<Seq<char>, Seq<char>>,
    pub hits: nat,
    pub misses: nat,
}

impl CacheState {
    /// The state after a lookup of `key`: a hit when the key is present, a miss otherwise.
    pub open spec fn looked_up(self, key: Seq<char>) -> CacheState {
        if self.entries.contains_key(key) {
            CacheState { hits: self.hits + 1, ..self }
        } else {
            CacheState { misses: self.misses + 1, ..self }
        }
    }

    /// The state with every entry dropped and the counters kept.
    pub open spec fn cleared(self) -> CacheState {
        CacheState { entries: Map::empty(), ..self }
    }
}

/// Clearing twice leaves the cache as clearing once does, and it is empty.
pub proof fn lemma_clear_idempotent(s: CacheState)
    ensures
        s.cleared().cleared() == s.cleared(),
        s.cleared().entries.len() == 0,
{
    assert(s.cleared().entries =~= Map::<Seq<char>, Seq<char>>::empty());
}

/// A string cache that counts its hits and misses.
pub struct CacheManager {
    cache: Table,
    hits: usize,
    misses: usize,
}

impl View for CacheManager {
    type V = CacheState;

    closed spec fn view(&self) -> CacheState {
        CacheState { entries: self.cache@, hits: self.hits as nat, misses: self.misses as nat }
    }
}

impl CacheManager {
    pub closed spec fn wf(&self) -> bool {
        self.cache.wf()
    }

    /// An empty cache with both counters at zero.
    pub fn new() -> (r: CacheManager)
        ensures
            r.wf(),
            r@.entries == Map::<Seq<char>, Seq<char>>::empty(),
            r@.hits == 0,
            r@.misses == 0,
    {
        CacheManager { cache: Table::new(), hits: 0, misses: 0 }
    }

    /// Looks `key` up and counts the lookup as a hit or a miss.
    pub fn get(&mut self, key: &str) -> (r: Option<String>)
        requires
            old(self).wf(),
            old(self)@.hits < usize::MAX,
            old(self)@.misses < usize::MAX,
        ensures
            final(self).wf(),
            final(self)@ == old(self)@.looked_up(key@),
            r is Some <==> old(self)@.entries.contains_key(key@),
            r matches Some(v) ==> v@ == old(self)@.entries[key@],
    {
        match self.cache.get(key) {
            Some(value) => {
                let v = value.clone();
                self.hits += 1;
                Some(v)
            },
            None => {
                self.misses += 1;
                None
            },
        }
    }

    /// Maps `key` to `value`, in place of any earlier value.
    pub fn set(&mut self, key: String, value: String)
        requires
            old(self).wf(),
        ensures
            final(self).wf(),
            final(self)@ == (CacheState { entries: old(self)@.entries.insert(key@, value@), ..old(self)@ }),
    {
        self.cache.insert(key, value);
    }

    /// Takes `key` out and hands back its value; the counters stay.
    pub fn remove(&mut self, key: &str) -> (r: Option<String>)
        requires
            old(self).wf(),
        ensures
            final(self).wf(),
            final(self)@ == (CacheState { entries: old(self)@.entries.remove(key@), ..old(self)@ }),
            r is Some <==> old(self)@.entries.contains_key(key@),
            r matches Some(v) ==> v@ == old(self)@.entries[key@],
    {
        self.cache.remove(key)
    }

    /// Drops every entry; the counters stay.
    pub fn clear(&mut self)
        requires
            old(self).wf(),
        ensures
            final(self).wf(),
            final(self)@ == old(self)@.cleared(),
    {
        self.cache.clear();
    }

    /// Number of entries held.
    pub fn len(&self) -> (r: usize)
        requires
            self.wf(),
        ensures
            r == self@.entries.len(),
    {
        self.cache.len()
    }

    /// Hits and misses counted so far.
    pub fn get_stats(&self) -> (r: (usize, usize))
        ensures
            r.0 == self@.hits,
            r.1 == self@.misses,
    {
        (self.hits, self.misses)
    }
}

} // verus!
