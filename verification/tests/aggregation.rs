use worldpop::aggregate::{aggregate, aggregate_now, sanitize_outcomes};
use worldpop::types::{Factions, Population, Response};

fn pop(nc: i32, tr: i32, vs: i32, total: i32) -> Population {
    Population { nc, tr, vs, total }
}

#[test]
fn two_succeed_one_fails_average_150() {
    let outcomes: Vec<(String, Result<Population, ()>)> = vec![
        ("a".to_string(), Ok(pop(30, 30, 40, 100))),
        ("b".to_string(), Ok(pop(50, 100, 50, 200))),
        ("c".to_string(), Err(())),
    ];
    let r = aggregate(17, &outcomes, 7);
    assert_eq!(r.id, 17);
    assert_eq!(r.average, 150);
    assert_eq!(r.factions, Factions { nc: 40, tr: 65, vs: 45 });
    assert_eq!(r.cached_at, 7);
    assert_eq!(r.services.len(), 2);
    assert_eq!(r.services[0].0, "a");
    assert_eq!(r.services[0].1, pop(30, 30, 40, 100));
    assert_eq!(r.services[1].0, "b");
    assert_eq!(r.services[1].1, pop(50, 100, 50, 200));
}

#[test]
fn all_fail_gives_zero_snapshot() {
    let outcomes: Vec<(String, Result<Population, ()>)> = vec![
        ("a".to_string(), Err(())),
        ("b".to_string(), Err(())),
        ("c".to_string(), Err(())),
    ];
    let r = aggregate(40, &outcomes, 999);
    assert_eq!(r, Response::zero(40));
    assert_eq!(r.id, 40);
    assert_eq!(r.average, 0);
    assert_eq!(r.factions, Factions { nc: 0, tr: 0, vs: 0 });
    assert!(r.services.is_empty());
    assert_eq!(r.cached_at, 0);
}

#[test]
fn no_outcomes_gives_zero_snapshot() {
    let outcomes: Vec<(String, Result<Population, ()>)> = Vec::new();
    let r = aggregate(1, &outcomes, 5);
    assert_eq!(r, Response::zero(1));
}

#[test]
fn average_uses_floor_division() {
    let outcomes: Vec<(String, Result<Population, ()>)> = vec![
        ("a".to_string(), Ok(pop(0, 0, 0, 100))),
        ("b".to_string(), Ok(pop(0, 0, 0, 201))),
    ];
    let r = aggregate(13, &outcomes, 1);
    // 301 / 2 == 150.5; the fraction is dropped, not rounded.
    assert_eq!(r.average, 150);
}

#[test]
fn faction_averages_are_independent_of_average() {
    let outcomes: Vec<(String, Result<Population, ()>)> = vec![
        ("a".to_string(), Ok(pop(3, 9, 0, 12))),
        ("b".to_string(), Ok(pop(0, 0, 1, 1))),
    ];
    let r = aggregate(10, &outcomes, 1);
    assert_eq!(r.average, 6); // 13 / 2
    assert_eq!(r.factions.nc, 1); // 3 / 2, not average / 3
    assert_eq!(r.factions.tr, 4); // 9 / 2
    assert_eq!(r.factions.vs, 0); // 1 / 2
}

#[test]
fn single_provider_is_its_own_average() {
    let outcomes: Vec<(String, Result<Population, ()>)> =
        vec![("only".to_string(), Ok(pop(5, 6, 7, 18)))];
    let r = aggregate(19, &outcomes, 42);
    assert_eq!(r.average, 18);
    assert_eq!(r.factions, Factions { nc: 5, tr: 6, vs: 7 });
    assert_eq!(r.cached_at, 42);
}

#[test]
fn aggregate_now_stamps_wall_clock_on_success() {
    let outcomes: Vec<(String, Result<Population, ()>)> =
        vec![("a".to_string(), Ok(pop(1, 2, 3, 6)))];
    let r = aggregate_now(2000, &outcomes);
    assert_eq!(r.average, 6);
    assert_eq!(r.id, 2000);
    // the snapshot records a real, recent instant
    assert!(r.cached_at > 0);
}

#[test]
fn aggregate_now_leaves_timestamp_unset_on_failure() {
    let outcomes: Vec<(String, Result<Population, ()>)> = vec![("a".to_string(), Err(()))];
    let r = aggregate_now(2000, &outcomes);
    assert_eq!(r.cached_at, 0);
}

#[test]
fn sanitize_keeps_plausible_outcomes_unchanged() {
    let outcomes: Vec<(String, Result<Population, ()>)> = vec![
        ("a".to_string(), Ok(pop(1, 2, 3, 6))),
        ("b".to_string(), Err(())),
        ("c".to_string(), Ok(pop(4, 5, 6, 15))),
    ];
    assert_eq!(sanitize_outcomes(&outcomes), outcomes);
}

#[test]
fn sanitize_demotes_negative_counts_to_failure() {
    let outcomes: Vec<(String, Result<Population, ()>)> = vec![
        ("a".to_string(), Ok(pop(-1, 2, 3, 4))),
        ("b".to_string(), Ok(pop(1, 1, 1, 3))),
    ];
    let screened = sanitize_outcomes(&outcomes);
    assert_eq!(screened[0], ("a".to_string(), Err(())));
    assert_eq!(screened[1], ("b".to_string(), Ok(pop(1, 1, 1, 3))));
    // the merge then sees one survivor
    let r = aggregate(1, &screened, 9);
    assert_eq!(r.average, 3);
    assert_eq!(r.services.len(), 1);
}

#[test]
fn sanitize_demotes_overflowing_reading_to_failure() {
    let outcomes: Vec<(String, Result<Population, ()>)> = vec![
        ("a".to_string(), Ok(pop(0, 0, 0, i32::MAX))),
        ("b".to_string(), Ok(pop(0, 0, 0, 1))),
    ];
    let screened = sanitize_outcomes(&outcomes);
    assert_eq!(screened[0].1, Ok(pop(0, 0, 0, i32::MAX)));
    // adding b's total would pass i32::MAX, so b is demoted
    assert_eq!(screened[1].1, Err(()));
}

#[test]
fn population_total_sums_factions() {
    let p = pop(1, 2, 3, 0);
    assert_eq!(p.total(), 6);
}

#[test]
fn duplicate_is_observationally_identical() {
    let outcomes: Vec<(String, Result<Population, ()>)> = vec![
        ("x".to_string(), Ok(pop(1, 2, 3, 6))),
        ("y".to_string(), Ok(pop(4, 5, 6, 15))),
    ];
    let r = aggregate(1, &outcomes, 3);
    let copy = r.duplicate();
    assert_eq!(copy, r);
}
