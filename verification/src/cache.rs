//! Cache-aside policy: serve a stored snapshot while it is fresh, refresh
//! it from the providers otherwise, and never let a wholly-failed refresh
//! poison the store.
//!
//! The store itself is a plain keyed collection with at most one snapshot
//! per world. The decisions around it — freshness, miss handling, the
//! "only write on at least one success" rule — are verified here; an
//! unverified caller performs the provider fetches between `lookup` and
//! `complete_refresh` exactly when `lookup` declines to serve.

use crate::types::Response;
use std::collections::HashMap;
use vstd::prelude::*;

verus! {

broadcast use vstd::std_specs::hash::group_hash_axioms;

/// How long a stored snapshot is served without re-querying providers,
/// in seconds. Two deployments of this design have used 3 and 5 minutes;
/// this library fixes the window at 5 minutes.
pub const TTL_SECONDS: i64 = 300;

/// A stored snapshot is served only while its age is strictly below the
/// TTL: at exactly the boundary it is already stale. A timestamp ahead of
/// the clock counts as fresh rather than failing.
pub open spec fn spec_is_fresh(cached_at: int, now: int) -> bool {
    now - cached_at < TTL_SECONDS
}

/// Freshness of a stored timestamp against the given clock reading.
pub fn is_fresh(cached_at: i64, now: i64) -> (r: bool)
    ensures
        r == spec_is_fresh(cached_at as int, now as int),
{
    (now as i128) - (cached_at as i128) < (TTL_SECONDS as i128)
}

/// The warm store: at most one snapshot per world identifier, overwritten
/// on every successful refresh, no history retained.
pub struct CacheStore {
    entries: HashMap<i32, Response>,
}

impl View for CacheStore {
    type V = Map<i32, Response>;

    closed spec fn view(&self) -> Map<i32, Response> {
        self.entries@
    }
}

impl CacheStore {
    /// An empty store: no world has a snapshot yet.
    pub fn new() -> (s: Self)
        ensures
            s@ == Map::<i32, Response>::empty(),
    {
        CacheStore { entries: HashMap::new() }
    }

    /// Point lookup: the snapshot stored under `world`, if any.
    pub fn get(&self, world: i32) -> (r: Option<&Response>)
        ensures
            match r {
                Some(s) => self@.contains_key(world) && *s == self@[world],
                None => !self@.contains_key(world),
            },
    {
        self.entries.get(&world)
    }

    /// Point overwrite: `world` now maps to `snapshot`, every other world
    /// is untouched.
    pub fn put(&mut self, world: i32, snapshot: Response)
        ensures
            final(self)@ == old(self)@.insert(world, snapshot),
    {
        self.entries.insert(world, snapshot);
    }
}

/// The read side of the cache-aside policy: the stored snapshot is served
/// exactly when the caller does not bypass the cache, the store holds one
/// for this world, and it is still fresh; every other case falls through
/// to a live aggregation.
pub open spec fn spec_lookup(
    store: Map<i32, Response>,
    world: i32,
    bypass_cache: bool,
    now: int,
) -> Option<Response> {
    if !bypass_cache && store.contains_key(world) && spec_is_fresh(
        store[world].cached_at as int,
        now,
    ) {
        Some(store[world])
    } else {
        None
    }
}

/// Serve from the store when allowed; `None` directs the caller to run a
/// live aggregation (and only then to contact any provider).
pub fn lookup<'a>(store: &'a CacheStore, world: i32, bypass_cache: bool, now: i64) -> (r: Option<
    &'a Response,
>)
    ensures
        match r {
            Some(s) => spec_lookup(store@, world, bypass_cache, now as int) == Some(*s),
            None => spec_lookup(store@, world, bypass_cache, now as int) is None,
        },
{
    if bypass_cache {
        return None;
    }
    match store.get(world) {
        Some(s) => if is_fresh(s.cached_at, now) {
            Some(s)
        } else {
            None
        },
        None => None,
    }
}

/// The write side of the cache-aside policy: persist the freshly merged
/// snapshot under its world key only when at least one provider
/// succeeded; a wholly-failed aggregation leaves the store exactly as it
/// was, so a still-valid prior entry keeps its own TTL.
pub fn complete_refresh(store: &mut CacheStore, world: i32, snapshot: Response) -> (stored: bool)
    ensures
        stored == (snapshot.services@.len() > 0),
        stored ==> final(store)@ == old(store)@.insert(world, snapshot),
        !stored ==> final(store)@ == old(store)@,
{
    if snapshot.services.len() > 0 {
        store.put(world, snapshot);
        true
    } else {
        false
    }
}

/// Law: a snapshot stored for this world and still within the TTL is
/// returned unchanged by a non-bypassing lookup, which therefore issues
/// no provider call.
pub proof fn lemma_fresh_hit_served(store: Map<i32, Response>, world: i32, now: int)
    requires
        store.contains_key(world),
        spec_is_fresh(store[world].cached_at as int, now),
    ensures
        spec_lookup(store, world, false, now) == Some(store[world]),
{
}

/// Law: a snapshot exactly at or past the TTL boundary — or no snapshot
/// at all — forces a fresh aggregation; the boundary itself is stale.
pub proof fn lemma_boundary_is_stale(store: Map<i32, Response>, world: i32, now: int)
    requires
        store.contains_key(world) ==> now - store[world].cached_at >= TTL_SECONDS,
    ensures
        spec_lookup(store, world, false, now) is None,
{
}

/// Law: bypassing the cache performs a live aggregation no matter what
/// the store holds.
pub proof fn lemma_bypass_always_aggregates(store: Map<i32, Response>, world: i32, now: int)
    ensures
        spec_lookup(store, world, true, now) is None,
{
}

/// Law: round trip — a snapshot written to the store and read back while
/// still fresh is the very value that was written.
pub proof fn lemma_round_trip(store: Map<i32, Response>, world: i32, snapshot: Response, now: int)
    requires
        spec_is_fresh(snapshot.cached_at as int, now),
    ensures
        spec_lookup(store.insert(world, snapshot), world, false, now) == Some(snapshot),
{
}

} // verus!
