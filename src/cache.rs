use vstd::prelude::*;
use crate::json::{Json, JsonModel};
use crate::table::Table;

verus! {

/// How long an entry stays fresh unless told otherwise: ten minutes, in milliseconds.
pub const DEFAULT_TTL_MS: u64 = 600000;

/// A cached value, with when it was stored and for how long it stays fresh,
/// both in milliseconds.
pub struct CacheEntry {
    pub cached_at: u64,
    pub ttl: u64,
    pub value: Json,
}

pub struct CacheEntryModel {
    pub cached_at: u64,
    pub ttl: u64,
    pub value: JsonModel,
}

impl View for CacheEntry {
    type V = CacheEntryModel;

    open spec fn view(&self) -> CacheEntryModel {
        CacheEntryModel { cached_at: self.cached_at, ttl: self.ttl, value: self.value@ }
    }
}

/// An entry stored at `cached_at` is still fresh at `now` while no more than
/// its time to live has passed.
pub open spec fn fresh(e: CacheEntryModel, now: u64) -> bool {
    now <= e.cached_at + e.ttl
}

/// What a lookup of `key` at `now` finds in a cache whose entries are `m`.
pub open spec fn lookup(m: Map<Seq<char>, CacheEntryModel>, key: Seq<char>, now: u64) -> Option<
    JsonModel,
> {
    if m.contains_key(key) && fresh(m[key], now) {
        Some(m[key].value)
    } else {
        None
    }
}

/// JSON values stored under string keys, each for a limited time.
pub struct MemoizationCache {
    cache: Table<CacheEntry>,
}

impl MemoizationCache {
    pub closed spec fn wf(&self) -> bool {
        self.cache.wf()
    }

    /// The entries, expired ones included.
    pub closed spec fn entries(&self) -> Map<Seq<char>, CacheEntryModel> {
        Map::new(|k: Seq<char>| self.cache.dom().contains(k), |k: Seq<char>| self.cache.at(k)@)
    }

    /// An empty cache.
    pub fn new() -> (r: MemoizationCache)
        ensures
            r.wf(),
            r.entries() == Map::<Seq<char>, CacheEntryModel>::empty(),
    {
        MemoizationCache::empty()
    }

    /// An empty cache.
    pub fn empty() -> (r: MemoizationCache)
        ensures
            r.wf(),
            r.entries() == Map::<Seq<char>, CacheEntryModel>::empty(),
    {
        let r = MemoizationCache { cache: Table::new() };
        assert(r.entries() =~= Map::<Seq<char>, CacheEntryModel>::empty());
        r
    }

    /// The value stored under `key`, if it is still fresh at `now`.
    pub fn get(&self, key: &String, now: u64) -> (r: Option<Json>)
        requires
            self.wf(),
        ensures
            match r {
                Some(v) => lookup(self.entries(), key@, now) == Some(v@),
                None => lookup(self.entries(), key@, now) is None,
            },
    {
        match self.cache.get(key) {
            Some(e) => {
                if now <= e.cached_at || now - e.cached_at <= e.ttl {
                    Some(e.value.deep_clone())
                } else {
                    None
                }
            },
            None => None,
        }
    }

    /// Stores `value` under `key` at `now` for `ttl` milliseconds, in place of
    /// whatever was there, and hands the value back.
    pub fn insert(&mut self, key: String, value: Json, ttl: u64, now: u64) -> (r: Json)
        requires
            old(self).wf(),
        ensures
            final(self).wf(),
            final(self).entries() == old(self).entries().insert(
                key@,
                CacheEntryModel { cached_at: now, ttl, value: value@ },
            ),
            r@ == value@,
    {
        let kept = value.deep_clone();
        let ghost k = key@;
        self.cache.insert(key, CacheEntry { cached_at: now, ttl, value });
        assert(self.entries() =~= old(self).entries().insert(
            k,
            CacheEntryModel { cached_at: now, ttl, value: kept@ },
        ));
        kept
    }
}

/// Once more time than its time to live has passed since an entry was
/// stored, a lookup of its key finds nothing.
pub proof fn law_expired_entries_are_absent(
    m: Map<Seq<char>, CacheEntryModel>,
    key: Seq<char>,
    value: JsonModel,
    stored_at: u64,
    ttl: u64,
    now: u64,
)
    requires
        now > stored_at + ttl,
    ensures
        lookup(m.insert(key, CacheEntryModel { cached_at: stored_at, ttl, value }), key, now) is None,
{
}

} // verus!
