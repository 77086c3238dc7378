//! The merge at the heart of the tracker: settle every provider's answer,
//! drop the failures, and average what survives.
//!
//! The caller (an unverified fan-out loop) starts one fetch per provider,
//! waits for all of them to settle, and hands the settled outcomes here in
//! roster order. The merge is a pure function of those outcomes and the
//! clock, so the result is independent of the order in which the fetches
//! happened to complete.

use crate::clock::now_seconds;
use crate::types::{Factions, Population, Response, ResponseView, spec_zero_response, services_view};
use vstd::prelude::*;

verus! {

/// View of the settled outcomes: each provider name as its character
/// sequence, beside the provider's reading or the opaque failure.
pub open spec fn outcome_views(s: Seq<(String, Result<Population, ()>)>) -> Seq<
    (Seq<char>, Result<Population, ()>),
> {
    Seq::new(s.len(), |i: int| (s[i].0@, s[i].1))
}

/// The surviving readings, each tagged with its provider name, in the
/// order the outcomes were given; failures leave no trace.
pub open spec fn kept(s: Seq<(Seq<char>, Result<Population, ()>)>) -> Seq<(Seq<char>, Population)>
    decreases s.len(),
{
    if s.len() == 0 {
        Seq::empty()
    } else {
        let rest = kept(s.drop_last());
        if s.last().1 is Ok {
            rest.push((s.last().0, s.last().1->Ok_0))
        } else {
            rest
        }
    }
}

/// Componentwise sums (total, nc, tr, vs) over kept readings.
pub open spec fn pop_sums(s: Seq<(Seq<char>, Population)>) -> (int, int, int, int)
    decreases s.len(),
{
    if s.len() == 0 {
        (0, 0, 0, 0)
    } else {
        let r = pop_sums(s.drop_last());
        let p = s.last().1;
        (r.0 + p.total, r.1 + p.nc, r.2 + p.tr, r.3 + p.vs)
    }
}

/// A reading whose counts are plausible head-counts: none negative.
pub open spec fn counts_ok(p: Population) -> bool {
    0 <= p.nc && 0 <= p.tr && 0 <= p.vs && 0 <= p.total
}

/// Every successful outcome carries plausible counts.
pub open spec fn outcomes_ok(s: Seq<(Seq<char>, Result<Population, ()>)>) -> bool {
    forall|i: int|
        #![auto]
        0 <= i < s.len() && s[i].1 is Ok ==> counts_ok(s[i].1->Ok_0)
}

/// The summed counts of the surviving readings stay within machine range.
pub open spec fn sums_fit(s: Seq<(Seq<char>, Result<Population, ()>)>) -> bool {
    let t = pop_sums(kept(s));
    t.0 <= i32::MAX && t.1 <= i32::MAX && t.2 <= i32::MAX && t.3 <= i32::MAX
}

/// The merged snapshot as a function of the world, the settled outcomes
/// and the clock: with no survivor, the all-zero snapshot with its
/// timestamp unset; otherwise the floor-integer mean of each count over
/// the survivors, each averaged independently, stamped with `now`.
pub open spec fn spec_aggregate(
    world: i32,
    outcomes: Seq<(Seq<char>, Result<Population, ()>)>,
    now: i64,
) -> ResponseView {
    let k = kept(outcomes);
    if k.len() == 0 {
        spec_zero_response(world)
    } else {
        let t = pop_sums(k);
        let n = k.len() as int;
        ResponseView {
            id: world as int,
            average: t.0 / n,
            nc: t.1 / n,
            tr: t.2 / n,
            vs: t.3 / n,
            services: k,
            cached_at: now as int,
        }
    }
}

/// No more readings survive than outcomes settled, and with plausible
/// counts every summed component is non-negative.
proof fn lemma_kept_bounds(s: Seq<(Seq<char>, Result<Population, ()>)>)
    requires
        outcomes_ok(s),
    ensures
        kept(s).len() <= s.len(),
        0 <= pop_sums(kept(s)).0,
        0 <= pop_sums(kept(s)).1,
        0 <= pop_sums(kept(s)).2,
        0 <= pop_sums(kept(s)).3,
    decreases s.len(),
{
    if s.len() > 0 {
        assert(outcomes_ok(s.drop_last())) by {
            assert(forall|i: int|
                #![auto]
                0 <= i < s.drop_last().len() ==> s.drop_last()[i] == s[i]);
        }
        lemma_kept_bounds(s.drop_last());
        if s.last().1 is Ok {
            let p = s.last().1->Ok_0;
            assert(s[s.len() - 1].1 is Ok && s[s.len() - 1].1->Ok_0 == p);
            assert(counts_ok(p));
            assert(kept(s).drop_last() =~= kept(s.drop_last()));
        }
    }
}

/// Plausibility of the counts carries over to any settled prefix.
proof fn lemma_outcomes_ok_prefix(s: Seq<(Seq<char>, Result<Population, ()>)>, i: int)
    requires
        outcomes_ok(s),
        0 <= i <= s.len(),
    ensures
        outcomes_ok(s.subrange(0, i)),
{
    assert(forall|j: int| #![auto] 0 <= j < i ==> s.subrange(0, i)[j] == s[j]);
}

/// Extending the settled prefix by one outcome extends the kept readings
/// by at most that outcome's reading.
proof fn lemma_kept_step(s: Seq<(Seq<char>, Result<Population, ()>)>, i: int)
    requires
        0 <= i < s.len(),
    ensures
        s[i].1 is Ok ==> kept(s.subrange(0, i + 1)) == kept(s.subrange(0, i)).push(
            (s[i].0, s[i].1->Ok_0),
        ),
        !(s[i].1 is Ok) ==> kept(s.subrange(0, i + 1)) == kept(s.subrange(0, i)),
{
    assert(s.subrange(0, i + 1).drop_last() =~= s.subrange(0, i));
    assert(s.subrange(0, i + 1).last() == s[i]);
}

/// Over plausible outcomes the kept sums grow monotonically with the
/// settled prefix: any prefix's sums are bounded by the full sums.
proof fn lemma_kept_prefix(s: Seq<(Seq<char>, Result<Population, ()>)>, i: int)
    requires
        outcomes_ok(s),
        0 <= i <= s.len(),
    ensures
        kept(s.subrange(0, i)).len() <= kept(s).len(),
        pop_sums(kept(s.subrange(0, i))).0 <= pop_sums(kept(s)).0,
        pop_sums(kept(s.subrange(0, i))).1 <= pop_sums(kept(s)).1,
        pop_sums(kept(s.subrange(0, i))).2 <= pop_sums(kept(s)).2,
        pop_sums(kept(s.subrange(0, i))).3 <= pop_sums(kept(s)).3,
    decreases s.len() - i,
{
    if i == s.len() {
        assert(s.subrange(0, i) =~= s);
    } else {
        lemma_kept_step(s, i);
        if s[i].1 is Ok {
            let p = s[i].1->Ok_0;
            assert(counts_ok(p));
            let k0 = kept(s.subrange(0, i));
            let k1 = kept(s.subrange(0, i + 1));
            assert(k1.drop_last() =~= k0);
            assert(k1.last() == (s[i].0, p));
            assert(pop_sums(k1).0 == pop_sums(k0).0 + p.total);
        }
        lemma_kept_prefix(s, i + 1);
    }
}

/// How one settled outcome is screened against what already passed: a
/// success survives exactly when its counts are plausible and adding
/// them to the survivors' running sums stays within 32-bit range; any
/// other reading is demoted to that provider's failure.
pub open spec fn screened(
    rest: Seq<(String, Result<Population, ()>)>,
    outcome: Result<Population, ()>,
) -> Result<Population, ()> {
    match outcome {
        Ok(p) => {
            let t = pop_sums(kept(outcome_views(rest)));
            if counts_ok(p) && t.0 + p.total <= i32::MAX && t.1 + p.nc <= i32::MAX && t.2 + p.tr
                <= i32::MAX && t.3 + p.vs <= i32::MAX {
                Ok(p)
            } else {
                Err(())
            }
        },
        Err(_) => Err(()),
    }
}

/// The settled outcomes with every implausible reading demoted to a
/// failure, screened front to back.
pub open spec fn spec_sanitize(s: Seq<(String, Result<Population, ()>)>) -> Seq<
    (String, Result<Population, ()>),
>
    decreases s.len(),
{
    if s.len() == 0 {
        Seq::empty()
    } else {
        let rest = spec_sanitize(s.drop_last());
        rest.push((s.last().0, screened(rest, s.last().1)))
    }
}

/// Plausibility survives appending one more plausible outcome.
proof fn lemma_outcomes_ok_push(
    s: Seq<(Seq<char>, Result<Population, ()>)>,
    e: (Seq<char>, Result<Population, ()>),
)
    requires
        outcomes_ok(s),
        e.1 is Ok ==> counts_ok(e.1->Ok_0),
    ensures
        outcomes_ok(s.push(e)),
{
    let sp = s.push(e);
    assert forall|j: int| 0 <= j < sp.len() && (#[trigger] sp[j]).1 is Ok implies counts_ok(
        sp[j].1->Ok_0,
    ) by {
        if j < s.len() {
            assert(sp[j] == s[j]);
        } else {
            assert(sp[j] == e);
        }
    }
}

/// Make a settled outcome list safe to merge: a reading with a negative
/// count, or one that would push a cross-provider sum past the 32-bit
/// range, becomes that provider's failure; everything else is kept
/// exactly as it came.
pub fn sanitize_outcomes(outcomes: &Vec<(String, Result<Population, ()>)>) -> (r: Vec<
    (String, Result<Population, ()>),
>)
    ensures
        r@ == spec_sanitize(outcomes@),
        outcomes_ok(outcome_views(r@)),
        sums_fit(outcome_views(r@)),
        r@.len() == outcomes@.len(),
{
    let ghost full = outcomes@;
    let mut r: Vec<(String, Result<Population, ()>)> = Vec::new();
    let mut sum_total: i32 = 0;
    let mut sum_nc: i32 = 0;
    let mut sum_tr: i32 = 0;
    let mut sum_vs: i32 = 0;
    let mut i: usize = 0;

    proof {
        assert(full.subrange(0, 0) =~= Seq::empty());
        assert(outcome_views(r@) =~= Seq::empty());
    }

    while i < outcomes.len()
        invariant
            i <= outcomes.len(),
            full == outcomes@,
            r@ == spec_sanitize(full.subrange(0, i as int)),
            r@.len() == i as int,
            outcomes_ok(outcome_views(r@)),
            0 <= sum_total && 0 <= sum_nc && 0 <= sum_tr && 0 <= sum_vs,
            sum_total == pop_sums(kept(outcome_views(r@))).0,
            sum_nc == pop_sums(kept(outcome_views(r@))).1,
            sum_tr == pop_sums(kept(outcome_views(r@))).2,
            sum_vs == pop_sums(kept(outcome_views(r@))).3,
        decreases outcomes.len() - i,
    {
        proof {
            assert(full.subrange(0, i as int + 1).drop_last() =~= full.subrange(0, i as int));
            assert(full.subrange(0, i as int + 1).last() == full[i as int]);
        }
        let ghost prev = r@;
        let entry = &outcomes[i];
        let name = entry.0.clone();
        let max = i32::MAX as i64;
        let keep = match &entry.1 {
            Ok(p) => p.nc >= 0 && p.tr >= 0 && p.vs >= 0 && p.total >= 0 && sum_total as i64
                + p.total as i64 <= max && sum_nc as i64 + p.nc as i64 <= max && sum_tr as i64
                + p.tr as i64 <= max && sum_vs as i64 + p.vs as i64 <= max,
            Err(_) => false,
        };
        if keep {
            let p = match &entry.1 {
                Ok(p) => *p,
                Err(_) => vstd::pervasive::unreached(),
            };
            r.push((name, Ok(p)));
            sum_total = sum_total + p.total;
            sum_nc = sum_nc + p.nc;
            sum_tr = sum_tr + p.tr;
            sum_vs = sum_vs + p.vs;
            proof {
                assert(screened(prev, full[i as int].1) == Ok::<Population, ()>(p));
                let e = (full[i as int].0@, Ok::<Population, ()>(p));
                assert(outcome_views(r@) =~= outcome_views(prev).push(e));
                assert(outcome_views(r@).drop_last() =~= outcome_views(prev));
                assert(outcome_views(r@).last() == e);
                assert(kept(outcome_views(r@)) == kept(outcome_views(prev)).push(
                    (full[i as int].0@, p),
                ));
                assert(kept(outcome_views(r@)).drop_last() =~= kept(outcome_views(prev)));
                lemma_outcomes_ok_push(outcome_views(prev), e);
            }
        } else {
            r.push((name, Err(())));
            proof {
                assert(screened(prev, full[i as int].1) == Err::<Population, ()>(()));
                let e = (full[i as int].0@, Err::<Population, ()>(()));
                assert(outcome_views(r@) =~= outcome_views(prev).push(e));
                assert(outcome_views(r@).drop_last() =~= outcome_views(prev));
                assert(outcome_views(r@).last() == e);
                assert(kept(outcome_views(r@)) =~= kept(outcome_views(prev)));
                lemma_outcomes_ok_push(outcome_views(prev), e);
            }
        }
        i = i + 1;
        proof {
            assert(r@ =~= spec_sanitize(full.subrange(0, i as int)));
        }
    }
    proof {
        assert(full.subrange(0, full.len() as int) =~= full);
    }
    r
}

/// Law: screening is the identity on outcome lists that are already
/// plausible and within range — it only ever touches bad readings.
pub proof fn lemma_sanitize_keeps_plausible(s: Seq<(String, Result<Population, ()>)>)
    requires
        outcomes_ok(outcome_views(s)),
        sums_fit(outcome_views(s)),
    ensures
        spec_sanitize(s) == s,
    decreases s.len(),
{
    if s.len() > 0 {
        let ov = outcome_views(s);
        let rest = s.drop_last();
        assert(outcome_views(rest) =~= ov.drop_last());
        assert(outcomes_ok(ov.drop_last())) by {
            assert(forall|j: int|
                #![auto]
                0 <= j < ov.drop_last().len() ==> ov.drop_last()[j] == ov[j]);
        }
        lemma_kept_bounds(ov.drop_last());
        if ov.last().1 is Ok {
            let p = ov.last().1->Ok_0;
            assert(ov[ov.len() - 1].1 is Ok && ov[ov.len() - 1].1->Ok_0 == p);
            assert(counts_ok(p));
            assert(kept(ov).drop_last() =~= kept(ov.drop_last()));
            assert(pop_sums(kept(ov)).0 == pop_sums(kept(ov.drop_last())).0 + p.total);
            assert(pop_sums(kept(ov)).1 == pop_sums(kept(ov.drop_last())).1 + p.nc);
            assert(pop_sums(kept(ov)).2 == pop_sums(kept(ov.drop_last())).2 + p.tr);
            assert(pop_sums(kept(ov)).3 == pop_sums(kept(ov.drop_last())).3 + p.vs);
        }
        assert(sums_fit(ov.drop_last()));
        lemma_sanitize_keeps_plausible(rest);
        assert(ov[ov.len() - 1] == (s.last().0@, s.last().1));
        if s.last().1 is Ok {
            let p = s.last().1->Ok_0;
            let t = pop_sums(kept(outcome_views(rest)));
            assert(t == pop_sums(kept(ov.drop_last())));
            assert(counts_ok(p));
            assert(t.0 + p.total <= i32::MAX);
            assert(t.1 + p.nc <= i32::MAX);
            assert(t.2 + p.tr <= i32::MAX);
            assert(t.3 + p.vs <= i32::MAX);
            assert(screened(rest, s.last().1) == Ok::<Population, ()>(p));
        } else {
            assert(s.last().1->Err_0 == ());
            assert(s.last().1 == Err::<Population, ()>(()));
        }
        assert(screened(rest, s.last().1) == s.last().1);
        assert(spec_sanitize(s) =~= s);
    }
}

/// Fan-in merge: keep the successes, average each count independently
/// with floor division, and stamp the given clock reading on success.
///
/// The result depends only on the settled outcomes, never on the order in
/// which the underlying calls completed.
pub fn aggregate(world: i32, outcomes: &Vec<(String, Result<Population, ()>)>, now: i64) -> (r:
    Response)
    requires
        outcomes_ok(outcome_views(outcomes@)),
        sums_fit(outcome_views(outcomes@)),
        outcomes@.len() <= i32::MAX,
    ensures
        r@ =~= spec_aggregate(world, outcome_views(outcomes@), now),
{
    let ghost ov = outcome_views(outcomes@);
    let mut services: Vec<(String, Population)> = Vec::new();
    let mut sum_total: i32 = 0;
    let mut sum_nc: i32 = 0;
    let mut sum_tr: i32 = 0;
    let mut sum_vs: i32 = 0;
    let mut i: usize = 0;

    proof {
        assert(ov.subrange(0, 0) =~= Seq::empty());
    }

    while i < outcomes.len()
        invariant
            i <= outcomes.len(),
            ov == outcome_views(outcomes@),
            outcomes_ok(ov),
            sums_fit(ov),
            outcomes@.len() <= i32::MAX,
            services_view(services@) == kept(ov.subrange(0, i as int)),
            sum_total == pop_sums(kept(ov.subrange(0, i as int))).0,
            sum_nc == pop_sums(kept(ov.subrange(0, i as int))).1,
            sum_tr == pop_sums(kept(ov.subrange(0, i as int))).2,
            sum_vs == pop_sums(kept(ov.subrange(0, i as int))).3,
        decreases outcomes.len() - i,
    {
        proof {
            lemma_kept_step(ov, i as int);
            lemma_kept_prefix(ov, i as int + 1);
            lemma_outcomes_ok_prefix(ov, i as int);
            lemma_outcomes_ok_prefix(ov, i as int + 1);
            lemma_kept_bounds(ov.subrange(0, i as int));
            lemma_kept_bounds(ov.subrange(0, i as int + 1));
        }
        let entry = &outcomes[i];
        match &entry.1 {
            Ok(p) => {
                proof {
                    assert(ov[i as int] == (outcomes@[i as int].0@, outcomes@[i as int].1));
                    assert(ov[i as int].1 is Ok && ov[i as int].1->Ok_0 == *p);
                    assert(counts_ok(*p));
                    let k0 = kept(ov.subrange(0, i as int));
                    let k1 = kept(ov.subrange(0, i as int + 1));
                    assert(k1.drop_last() =~= k0);
                    assert(k1.last() == (ov[i as int].0, *p));
                    assert(pop_sums(k1).0 == pop_sums(k0).0 + p.total);
                }
                let name = entry.0.clone();
                services.push((name, *p));
                sum_total = sum_total + p.total;
                sum_nc = sum_nc + p.nc;
                sum_tr = sum_tr + p.tr;
                sum_vs = sum_vs + p.vs;
                proof {
                    assert(services_view(services@) =~= kept(ov.subrange(0, i as int + 1)));
                }
            },
            Err(_) => {
                proof {
                    assert(services_view(services@) =~= kept(ov.subrange(0, i as int + 1)));
                }
            },
        }
        i = i + 1;
    }

    proof {
        assert(ov.subrange(0, outcomes@.len() as int) =~= ov);
        lemma_kept_bounds(ov);
    }

    if services.len() == 0 {
        let r = Response::zero(world);
        proof {
            assert(r@ =~= spec_aggregate(world, ov, now));
        }
        r
    } else {
        let count = services.len() as u32;
        let average = (sum_total as u32 / count) as i32;
        let nc = (sum_nc as u32 / count) as i32;
        let tr = (sum_tr as u32 / count) as i32;
        let vs = (sum_vs as u32 / count) as i32;
        let r = Response {
            id: world,
            average,
            factions: Factions { nc, tr, vs },
            services,
            cached_at: now,
        };
        proof {
            assert(r@ =~= spec_aggregate(world, ov, now));
        }
        r
    }
}

/// The merge stamped with the wall clock: identical to `aggregate` at the
/// instant the snapshot itself records in `cached_at`.
pub fn aggregate_now(world: i32, outcomes: &Vec<(String, Result<Population, ()>)>) -> (r: Response)
    requires
        outcomes_ok(outcome_views(outcomes@)),
        sums_fit(outcome_views(outcomes@)),
        outcomes@.len() <= i32::MAX,
    ensures
        r@ =~= spec_aggregate(world, outcome_views(outcomes@), r.cached_at),
{
    let now = now_seconds();
    let r = aggregate(world, outcomes, now);
    proof {
        if kept(outcome_views(outcomes@)).len() == 0 {
            assert(r@ =~= spec_aggregate(world, outcome_views(outcomes@), r.cached_at));
        }
    }
    r
}

/// For any set of surviving readings, the published average is the floor
/// of the mean of their totals, and each faction figure is the floor mean
/// of that faction's counts alone, computed independently of the average.
pub proof fn lemma_floor_averages(
    world: i32,
    outcomes: Seq<(Seq<char>, Result<Population, ()>)>,
    now: i64,
)
    requires
        kept(outcomes).len() > 0,
    ensures
        spec_aggregate(world, outcomes, now).average == pop_sums(kept(outcomes)).0 as int / kept(
            outcomes,
        ).len() as int,
        spec_aggregate(world, outcomes, now).nc == pop_sums(kept(outcomes)).1 as int / kept(
            outcomes,
        ).len() as int,
        spec_aggregate(world, outcomes, now).tr == pop_sums(kept(outcomes)).2 as int / kept(
            outcomes,
        ).len() as int,
        spec_aggregate(world, outcomes, now).vs == pop_sums(kept(outcomes)).3 as int / kept(
            outcomes,
        ).len() as int,
{
}

/// If no provider succeeds, the snapshot carries the world id, every
/// numeric field at zero, no provider entries, and an unset timestamp.
pub proof fn lemma_all_failed_is_zero(
    world: i32,
    outcomes: Seq<(Seq<char>, Result<Population, ()>)>,
    now: i64,
)
    requires
        kept(outcomes).len() == 0,
    ensures
        spec_aggregate(world, outcomes, now) == spec_zero_response(world),
{
}

} // verus!
