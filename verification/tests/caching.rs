use worldpop::aggregate::aggregate;
use worldpop::cache::{complete_refresh, is_fresh, lookup, CacheStore, TTL_SECONDS};
use worldpop::types::{Factions, Population, Response};

fn snapshot(world: i32, average: i32, cached_at: i64) -> Response {
    Response {
        id: world,
        average,
        factions: Factions { nc: average, tr: average, vs: average },
        services: vec![("a".to_string(), Population { nc: average, tr: average, vs: average, total: average })],
        cached_at,
    }
}

#[test]
fn ttl_is_five_minutes() {
    assert_eq!(TTL_SECONDS, 300);
}

#[test]
fn fresh_strictly_inside_window() {
    assert!(is_fresh(1000, 1000 + TTL_SECONDS - 1));
    assert!(!is_fresh(1000, 1000 + TTL_SECONDS));
    assert!(!is_fresh(1000, 1000 + TTL_SECONDS + 1));
    // a timestamp ahead of the clock counts as fresh
    assert!(is_fresh(2000, 1000));
}

#[test]
fn round_trip_within_ttl_is_identical() {
    let mut store = CacheStore::new();
    let snap = snapshot(17, 120, 10_000);
    store.put(17, snap.duplicate());
    let served = lookup(&store, 17, false, 10_000 + 60).expect("fresh hit");
    assert_eq!(*served, snap);
}

#[test]
fn lookup_misses_on_empty_store() {
    let store = CacheStore::new();
    assert!(lookup(&store, 17, false, 0).is_none());
}

#[test]
fn boundary_is_stale_exclusive() {
    let mut store = CacheStore::new();
    store.put(17, snapshot(17, 5, 1000));
    // one second before the boundary: still fresh
    assert!(lookup(&store, 17, false, 1000 + TTL_SECONDS - 1).is_some());
    // exactly at the boundary: already stale
    assert!(lookup(&store, 17, false, 1000 + TTL_SECONDS).is_none());
    // past the boundary: stale
    assert!(lookup(&store, 17, false, 1000 + TTL_SECONDS + 1).is_none());
}

#[test]
fn ten_minute_old_snapshot_is_stale() {
    let now: i64 = 50_000;
    let mut store = CacheStore::new();
    store.put(1, snapshot(1, 9, now - 600));
    assert!(lookup(&store, 1, false, now).is_none());
}

#[test]
fn bypass_never_serves_the_store() {
    let mut store = CacheStore::new();
    store.put(17, snapshot(17, 5, 1000));
    // perfectly fresh, yet bypassed
    assert!(lookup(&store, 17, true, 1001).is_none());
}

#[test]
fn successful_refresh_overwrites() {
    let mut store = CacheStore::new();
    store.put(17, snapshot(17, 5, 1000));
    let newer = snapshot(17, 8, 2000);
    assert!(complete_refresh(&mut store, 17, newer.duplicate()));
    let served = lookup(&store, 17, false, 2100).expect("fresh hit");
    assert_eq!(*served, newer);
}

#[test]
fn failed_refresh_never_writes() {
    let mut store = CacheStore::new();
    let zero = Response::zero(17);
    assert!(!complete_refresh(&mut store, 17, zero));
    assert!(store.get(17).is_none());
}

#[test]
fn failed_refresh_keeps_prior_entry() {
    let mut store = CacheStore::new();
    let prior = snapshot(17, 5, 1000);
    store.put(17, prior.duplicate());

    // every provider fails; the merge yields the all-zero snapshot
    let outcomes: Vec<(String, Result<Population, ()>)> = vec![
        ("a".to_string(), Err(())),
        ("b".to_string(), Err(())),
    ];
    let merged = aggregate(17, &outcomes, 1100);
    assert!(!complete_refresh(&mut store, 17, merged));

    // the still-fresh prior snapshot is served, with its own TTL
    let served = lookup(&store, 17, false, 1100).expect("prior entry survives");
    assert_eq!(*served, prior);
    // and the prior TTL was not extended
    assert!(lookup(&store, 17, false, 1000 + TTL_SECONDS).is_none());
}

#[test]
fn entries_are_keyed_by_world() {
    let mut store = CacheStore::new();
    store.put(1, snapshot(1, 10, 500));
    store.put(10, snapshot(10, 20, 500));
    assert_eq!(lookup(&store, 1, false, 600).unwrap().average, 10);
    assert_eq!(lookup(&store, 10, false, 600).unwrap().average, 20);
    assert!(lookup(&store, 13, false, 600).is_none());
}
