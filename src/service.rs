use vstd::prelude::*;
use vstd::string::*;
use crate::cache::CacheState;
use crate::table::Table;

verus! {

/// Read-only settings of a service, shared as they are built.
#[derive(Debug, Clone)]
pub struct AppConfig {
    pub name: String,
    pub version: String,
    pub max_threads: usize,
}

impl AppConfig {
    /// "MyApp" version "1.0.0" with four worker threads.
    pub fn new() -> (r: AppConfig)
        ensures
            r.name@ == "MyApp"@,
            r.version@ == "1.0.0"@,
            r.max_threads == 4,
    {
        AppConfig {
            name: String::from_str("MyApp"),
            version: String::from_str("1.0.0"),
            max_threads: 4,
        }
    }
}

/// Request counters: how many requests were served, how many failed, and the
/// time they took together, in nanoseconds.
#[derive(Debug)]
pub struct Statistics {
    pub requests: u64,
    pub errors: u64,
    pub total_time_nanos: u128,
}

impl Statistics {
    /// No request recorded yet.
    pub fn new() -> (r: Statistics)
        ensures
            r.requests == 0,
            r.errors == 0,
            r.total_time_nanos == 0,
    {
        Statistics { requests: 0, errors: 0, total_time_nanos: 0 }
    }

    /// Counts one request that took `duration_nanos`, and one error when it failed.
    pub fn record_request(&mut self, duration_nanos: u128, success: bool)
        requires
            old(self).requests < u64::MAX,
            old(self).errors < u64::MAX,
            old(self).total_time_nanos + duration_nanos <= u128::MAX,
        ensures
            final(self).requests == old(self).requests + 1,
            final(self).errors == old(self).errors + if success { 0int } else { 1int },
            final(self).total_time_nanos == old(self).total_time_nanos + duration_nanos,
    {
        self.requests += 1;
        if !success {
            self.errors += 1;
        }
        self.total_time_nanos += duration_nanos;
    }
}

/// A string cache that counts hits and misses, without removal.
pub struct Cache {
    data: Table,
    hits: usize,
    misses: usize,
}

impl View for Cache {
    type V = CacheState;

    closed spec fn view(&self) -> CacheState {
        CacheState { entries: self.data@, hits: self.hits as nat, misses: self.misses as nat }
    }
}

impl Cache {
    pub closed spec fn wf(&self) -> bool {
        self.data.wf()
    }

    /// An empty cache with both counters at zero.
    pub fn new() -> (r: Cache)
        ensures
            r.wf(),
            r@.entries == Map::<Seq<char>, Seq<char>>::empty(),
            r@.hits == 0,
            r@.misses == 0,
    {
        Cache { data: Table::new(), hits: 0, misses: 0 }
    }

    /// Looks `key` up and counts the lookup as a hit or a miss.
    pub fn get(&mut self, key: &str) -> (r: Option<String>)
        requires
            old(self).wf(),
            old(self)@.hits < usize::MAX,
            old(self)@.misses < usize::MAX,
        ensures
            final(self).wf(),
            final(self)@ == old(self)@.looked_up(key@),
            r is Some <==> old(self)@.entries.contains_key(key@),
            r matches Some(v) ==> v@ == old(self)@.entries[key@],
    {
        match self.data.get(key) {
            Some(value) => {
                let v = value.clone();
                self.hits += 1;
                Some(v)
            },
            None => {
                self.misses += 1;
                None
            },
        }
    }

    /// Maps `key` to `value`, in place of any earlier value.
    pub fn set(&mut self, key: String, value: String)
        requires
            old(self).wf(),
        ensures
            final(self).wf(),
            final(self)@ == (CacheState { entries: old(self)@.entries.insert(key@, value@), ..old(self)@ }),
    {
        self.data.insert(key, value);
    }

    /// Hits and misses counted so far.
    pub fn stats(&self) -> (r: (usize, usize))
        ensures
            r.0 == self@.hits,
            r.1 == self@.misses,
    {
        (self.hits, self.misses)
    }
}

} // verus!
