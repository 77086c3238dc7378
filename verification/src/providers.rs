//! Per-provider reconciliation: each upstream service reports populations
//! in its own shape, and each adapter folds that shape into the uniform
//! `Population` value under its own documented rule.
//!
//! The fetch itself (HTTP and JSON decoding) is unverified plumbing; it
//! hands the decoded counts to these functions as plain values. A fetch
//! that fails, decodes badly, or is rejected here collapses to the single
//! opaque failure the aggregator expects.
//!
//! Counts are head-counts, so every adapter requires them non-negative;
//! the summed bounds are what the 32-bit fields force.

use crate::types::Population;
use vstd::prelude::*;

verus! {

// --- saerro: reports the three faction counts; no total of its own, so
// --- the total is the faction sum.
/// saerro's folding rule: totals are derived, never reported.
pub fn saerro_population(nc: i32, tr: i32, vs: i32) -> (r: Population)
    requires
        0 <= nc && 0 <= tr && 0 <= vs,
        nc + tr + vs <= i32::MAX,
    ensures
        r == (Population { nc, tr, vs, total: (nc + tr + vs) as i32 }),
{
    Population { nc, tr, vs, total: nc + tr + vs }
}

// --- honu: reports each faction beside the robot faction's players
// --- currently teamed with it; those are folded into their host faction.
/// honu's folding rule: teamed neutral players count toward the faction
/// they fight for, and toward the total.
pub fn honu_population(nc: i32, tr: i32, vs: i32, ns_nc: i32, ns_tr: i32, ns_vs: i32) -> (r:
    Population)
    requires
        0 <= nc && 0 <= tr && 0 <= vs && 0 <= ns_nc && 0 <= ns_tr && 0 <= ns_vs,
        nc + tr + vs + ns_nc + ns_tr + ns_vs <= i32::MAX,
    ensures
        r == (Population {
            nc: (nc + ns_nc) as i32,
            tr: (tr + ns_tr) as i32,
            vs: (vs + ns_vs) as i32,
            total: (nc + tr + vs + ns_nc + ns_tr + ns_vs) as i32,
        }),
{
    Population {
        nc: nc + ns_nc,
        tr: tr + ns_tr,
        vs: vs + ns_vs,
        total: nc + tr + vs + ns_nc + ns_tr + ns_vs,
    }
}

// --- fisu: reports the three factions and a separate neutral bucket;
// --- the bucket joins the total only. Consoles live on their own
// --- subdomains.
/// The fisu endpoint subdomain for a world: the console worlds are
/// served from their own hosts.
pub fn fisu_subdomain(world: i32) -> (r: &'static str)
    ensures
        world == 1000 ==> r@ == "ps4us.ps2"@,
        world == 2000 ==> r@ == "ps4eu.ps2"@,
        world != 1000 && world != 2000 ==> r@ == "ps2"@,
{
    match world {
        1000 => "ps4us.ps2",
        2000 => "ps4eu.ps2",
        _ => "ps2",
    }
}

/// fisu's folding rule: the neutral bucket is added to the total only,
/// never to a faction.
pub fn fisu_population(nc: i32, tr: i32, vs: i32, ns: i32) -> (r: Population)
    requires
        0 <= nc && 0 <= tr && 0 <= vs && 0 <= ns,
        nc + tr + vs + ns <= i32::MAX,
    ensures
        r == (Population { nc, tr, vs, total: (nc + tr + vs + ns) as i32 }),
{
    Population { nc, tr, vs, total: nc + tr + vs + ns }
}

// --- voidwell: reports per-zone faction counts plus a neutral count per
// --- zone; a third of the summed neutral count is credited to every
// --- faction, and the reported online-character figure is the total.
/// One zone's population line as voidwell reports it.
#[derive(Clone, Copy, Debug, PartialEq, Eq, Structural)]
pub struct ZonePopulation {
    pub vs: i32,
    pub nc: i32,
    pub tr: i32,
    pub ns: i32,
}

/// Componentwise sums (nc, tr, vs, ns) over zone lines.
pub open spec fn zone_sums(zones: Seq<ZonePopulation>) -> (int, int, int, int)
    decreases zones.len(),
{
    if zones.len() == 0 {
        (0, 0, 0, 0)
    } else {
        let r = zone_sums(zones.drop_last());
        let z = zones.last();
        (r.0 + z.nc, r.1 + z.tr, r.2 + z.vs, r.3 + z.ns)
    }
}

/// Every zone line carries non-negative counts.
pub open spec fn zones_counts_ok(zones: Seq<ZonePopulation>) -> bool {
    forall|i: int|
        #![auto]
        0 <= i < zones.len() ==> 0 <= zones[i].nc && 0 <= zones[i].tr && 0 <= zones[i].vs && 0
            <= zones[i].ns
}

/// voidwell's folding rule as a value: each faction receives a third of
/// the summed neutral players, and the total is the reported
/// online-character count, not a sum.
pub open spec fn spec_voidwell_population(zones: Seq<ZonePopulation>, online: i32) -> Population {
    let s = zone_sums(zones);
    let ns_share = s.3 / 3;
    Population {
        nc: (s.0 + ns_share) as i32,
        tr: (s.1 + ns_share) as i32,
        vs: (s.2 + ns_share) as i32,
        total: online,
    }
}

/// Whether voidwell covers a world at all: it has no console coverage,
/// so the console worlds fail before any call is made.
pub fn voidwell_supported(world: i32) -> (r: bool)
    ensures
        r == (world != 1000 && world != 2000),
{
    world != 1000 && world != 2000
}

/// The voidwell platform path segment for a world.
pub fn voidwell_platform(world: i32) -> (r: &'static str)
    ensures
        world == 1000 ==> r@ == "ps4us"@,
        world == 2000 ==> r@ == "ps4eu"@,
        world != 1000 && world != 2000 ==> r@ == "pc"@,
{
    match world {
        1000 => "ps4us",
        2000 => "ps4eu",
        _ => "pc",
    }
}

/// With plausible zone counts, no summed component is negative.
proof fn lemma_zone_sums_nonneg(zones: Seq<ZonePopulation>)
    requires
        zones_counts_ok(zones),
    ensures
        0 <= zone_sums(zones).0,
        0 <= zone_sums(zones).1,
        0 <= zone_sums(zones).2,
        0 <= zone_sums(zones).3,
    decreases zones.len(),
{
    if zones.len() > 0 {
        assert(zones_counts_ok(zones.drop_last())) by {
            assert(forall|j: int|
                #![auto]
                0 <= j < zones.drop_last().len() ==> zones.drop_last()[j] == zones[j]);
        }
        lemma_zone_sums_nonneg(zones.drop_last());
        assert(0 <= zones[zones.len() - 1].nc);
    }
}

/// Any prefix of the zone sums is bounded by the full sums, and nothing
/// is negative, when the zone counts are plausible.
proof fn lemma_zone_sums_prefix(zones: Seq<ZonePopulation>, i: int)
    requires
        zones_counts_ok(zones),
        0 <= i <= zones.len(),
    ensures
        0 <= zone_sums(zones.subrange(0, i)).0 <= zone_sums(zones).0,
        0 <= zone_sums(zones.subrange(0, i)).1 <= zone_sums(zones).1,
        0 <= zone_sums(zones.subrange(0, i)).2 <= zone_sums(zones).2,
        0 <= zone_sums(zones.subrange(0, i)).3 <= zone_sums(zones).3,
    decreases zones.len() - i,
{
    if i == zones.len() {
        assert(zones.subrange(0, i) =~= zones);
        lemma_zone_sums_nonneg(zones);
    } else {
        assert(zones.subrange(0, i + 1).drop_last() =~= zones.subrange(0, i));
        assert(zones.subrange(0, i + 1).last() == zones[i]);
        assert(0 <= zones[i].nc && 0 <= zones[i].tr && 0 <= zones[i].vs && 0 <= zones[i].ns);
        assert(zones_counts_ok(zones.subrange(0, i))) by {
            assert(forall|j: int| #![auto] 0 <= j < i ==> zones.subrange(0, i)[j] == zones[j]);
        }
        lemma_zone_sums_nonneg(zones.subrange(0, i));
        lemma_zone_sums_prefix(zones, i + 1);
    }
}

/// voidwell's reconciliation: sum each faction over the zones, credit a
/// third of the summed neutral count to every faction, and take the
/// reported online-character figure as the total.
pub fn voidwell_population(zones: &Vec<ZonePopulation>, online_characters: i32) -> (r: Population)
    requires
        zones_counts_ok(zones@),
        0 <= online_characters,
        zone_sums(zones@).0 + zone_sums(zones@).3 / 3 <= i32::MAX,
        zone_sums(zones@).1 + zone_sums(zones@).3 / 3 <= i32::MAX,
        zone_sums(zones@).2 + zone_sums(zones@).3 / 3 <= i32::MAX,
        zone_sums(zones@).3 <= i32::MAX,
    ensures
        r == spec_voidwell_population(zones@, online_characters),
{
    let mut sum_nc: i32 = 0;
    let mut sum_tr: i32 = 0;
    let mut sum_vs: i32 = 0;
    let mut sum_ns: i32 = 0;
    let mut i: usize = 0;

    proof {
        assert(zones@.subrange(0, 0) =~= Seq::empty());
    }

    while i < zones.len()
        invariant
            i <= zones.len(),
            zones_counts_ok(zones@),
            zone_sums(zones@).0 + zone_sums(zones@).3 / 3 <= i32::MAX,
            zone_sums(zones@).1 + zone_sums(zones@).3 / 3 <= i32::MAX,
            zone_sums(zones@).2 + zone_sums(zones@).3 / 3 <= i32::MAX,
            zone_sums(zones@).3 <= i32::MAX,
            sum_nc == zone_sums(zones@.subrange(0, i as int)).0,
            sum_tr == zone_sums(zones@.subrange(0, i as int)).1,
            sum_vs == zone_sums(zones@.subrange(0, i as int)).2,
            sum_ns == zone_sums(zones@.subrange(0, i as int)).3,
        decreases zones.len() - i,
    {
        proof {
            assert(zones@.subrange(0, i as int + 1).drop_last() =~= zones@.subrange(0, i as int));
            assert(zones@.subrange(0, i as int + 1).last() == zones@[i as int]);
            lemma_zone_sums_prefix(zones@, i as int + 1);
        }
        let z = zones[i];
        sum_nc = sum_nc + z.nc;
        sum_tr = sum_tr + z.tr;
        sum_vs = sum_vs + z.vs;
        sum_ns = sum_ns + z.ns;
        i = i + 1;
    }

    proof {
        assert(zones@.subrange(0, zones@.len() as int) =~= zones@);
        lemma_zone_sums_nonneg(zones@);
        vstd::arithmetic::div_mod::lemma_div_pos_is_pos(zone_sums(zones@).3, 3);
        vstd::arithmetic::div_mod::lemma_div_nonincreasing(zone_sums(zones@).3, 3);
    }

    let ns_share = ((sum_ns as u32) / 3u32) as i32;
    Population {
        nc: sum_nc + ns_share,
        tr: sum_tr + ns_share,
        vs: sum_vs + ns_share,
        total: online_characters,
    }
}

// --- sanctuary: reports the three factions plus a neutral count that
// --- joins the total only, and stamps its reading; a reading older than
// --- 15 minutes is rejected. No console or event-world coverage.
/// The oldest sanctuary reading still accepted, in seconds.
pub const SANCTUARY_MAX_AGE_SECONDS: i64 = 900;

/// Whether sanctuary covers a world at all: no console worlds, no
/// event world.
pub fn sanctuary_supported(world: i32) -> (r: bool)
    ensures
        r == (world != 1000 && world != 2000 && world != 19),
{
    world != 1000 && world != 2000 && world != 19
}

/// Whether a sanctuary reading is recent enough to use: readings are
/// rejected once strictly older than the 15-minute window.
pub fn sanctuary_is_current(timestamp: i64, now: i64) -> (r: bool)
    ensures
        r == (timestamp as int >= now as int - SANCTUARY_MAX_AGE_SECONDS),
{
    (timestamp as i128) >= (now as i128) - (SANCTUARY_MAX_AGE_SECONDS as i128)
}

/// sanctuary's folding rule: the neutral count joins the total only.
pub fn sanctuary_population(nc: i32, tr: i32, vs: i32, nso: i32) -> (r: Population)
    requires
        0 <= nc && 0 <= tr && 0 <= vs && 0 <= nso,
        nc + tr + vs + nso <= i32::MAX,
    ensures
        r == (Population { nc, tr, vs, total: (nc + tr + vs + nso) as i32 }),
{
    Population { nc, tr, vs, total: nc + tr + vs + nso }
}

// --- niumside: reports a tree of per-zone, per-faction team counts; a
// --- team's players are found either under its own faction or under the
// --- neutral faction, and only the first matching faction entry of a
// --- zone is consulted.
/// One team's head-count within a faction entry.
#[derive(Clone, Copy, Debug, PartialEq, Eq, Structural)]
pub struct NiumsideTeam {
    pub team_id: i32,
    pub team_population: i32,
}

/// One faction entry of a zone, with the teams currently fighting for it.
#[derive(Clone, Debug, PartialEq)]
pub struct NiumsideFaction {
    pub faction_id: i32,
    pub teams: Vec<NiumsideTeam>,
}

/// One zone's faction entries.
#[derive(Clone, Debug, PartialEq)]
pub struct NiumsideZone {
    pub factions: Vec<NiumsideFaction>,
}

/// One population record: the zones it covers.
#[derive(Clone, Debug, PartialEq)]
pub struct NiumsidePop {
    pub zones: Vec<NiumsideZone>,
}

/// The population of the first team entry matching `team_id`, or zero
/// when the faction lists no such team.
pub open spec fn team_value(teams: Seq<NiumsideTeam>, team_id: i32) -> int
    decreases teams.len(),
{
    if teams.len() == 0 {
        0
    } else if teams[0].team_id == team_id {
        teams[0].team_population as int
    } else {
        team_value(teams.drop_first(), team_id)
    }
}

/// The team's count within the first faction entry that either is the
/// team's own faction or is the neutral faction (id 4); zero when no
/// entry matches.
pub open spec fn faction_value(factions: Seq<NiumsideFaction>, team_id: i32) -> int
    decreases factions.len(),
{
    if factions.len() == 0 {
        0
    } else if factions[0].faction_id == team_id || factions[0].faction_id == 4 {
        team_value(factions[0].teams@, team_id)
    } else {
        faction_value(factions.drop_first(), team_id)
    }
}

/// The team's count summed over a record's zones.
pub open spec fn zone_total(zones: Seq<NiumsideZone>, team_id: i32) -> int
    decreases zones.len(),
{
    if zones.len() == 0 {
        0
    } else {
        zone_total(zones.drop_last(), team_id) + faction_value(zones.last().factions@, team_id)
    }
}

/// The team's count summed over every record and every zone.
pub open spec fn spec_extract(pops: Seq<NiumsidePop>, team_id: i32) -> int
    decreases pops.len(),
{
    if pops.len() == 0 {
        0
    } else {
        spec_extract(pops.drop_last(), team_id) + zone_total(pops.last().zones@, team_id)
    }
}

/// Non-negative team counts, level by level.
pub open spec fn teams_ok(teams: Seq<NiumsideTeam>) -> bool {
    forall|i: int| #![auto] 0 <= i < teams.len() ==> 0 <= teams[i].team_population
}

pub open spec fn factions_ok(factions: Seq<NiumsideFaction>) -> bool {
    forall|i: int| #![auto] 0 <= i < factions.len() ==> teams_ok(factions[i].teams@)
}

pub open spec fn zones_ok(zones: Seq<NiumsideZone>) -> bool {
    forall|i: int| #![auto] 0 <= i < zones.len() ==> factions_ok(zones[i].factions@)
}

pub open spec fn pops_ok(pops: Seq<NiumsidePop>) -> bool {
    forall|i: int| #![auto] 0 <= i < pops.len() ==> zones_ok(pops[i].zones@)
}

proof fn lemma_team_value_bounds(teams: Seq<NiumsideTeam>, team_id: i32)
    requires
        teams_ok(teams),
    ensures
        0 <= team_value(teams, team_id) <= i32::MAX,
    decreases teams.len(),
{
    if teams.len() == 0 {
    } else if teams[0].team_id == team_id {
        assert(0 <= teams[0].team_population);
    } else {
        assert(teams_ok(teams.drop_first())) by {
            assert(forall|j: int|
                #![auto]
                0 <= j < teams.drop_first().len() ==> teams.drop_first()[j] == teams[j + 1]);
        }
        lemma_team_value_bounds(teams.drop_first(), team_id);
    }
}

proof fn lemma_faction_value_bounds(factions: Seq<NiumsideFaction>, team_id: i32)
    requires
        factions_ok(factions),
    ensures
        0 <= faction_value(factions, team_id) <= i32::MAX,
    decreases factions.len(),
{
    if factions.len() == 0 {
    } else if factions[0].faction_id == team_id || factions[0].faction_id == 4 {
        assert(teams_ok(factions[0].teams@));
        lemma_team_value_bounds(factions[0].teams@, team_id);
    } else {
        assert(factions_ok(factions.drop_first())) by {
            assert(forall|j: int|
                #![auto]
                0 <= j < factions.drop_first().len() ==> factions.drop_first()[j] == factions[j
                    + 1]);
        }
        lemma_faction_value_bounds(factions.drop_first(), team_id);
    }
}

proof fn lemma_zone_total_nonneg(zones: Seq<NiumsideZone>, team_id: i32)
    requires
        zones_ok(zones),
    ensures
        0 <= zone_total(zones, team_id),
    decreases zones.len(),
{
    if zones.len() > 0 {
        assert(zones_ok(zones.drop_last())) by {
            assert(forall|j: int|
                #![auto]
                0 <= j < zones.drop_last().len() ==> zones.drop_last()[j] == zones[j]);
        }
        lemma_zone_total_nonneg(zones.drop_last(), team_id);
        assert(factions_ok(zones[zones.len() - 1].factions@));
        lemma_faction_value_bounds(zones[zones.len() - 1].factions@, team_id);
    }
}

/// Prefixes of the per-zone sums stay within the full sum.
proof fn lemma_zone_total_prefix(zones: Seq<NiumsideZone>, team_id: i32, j: int)
    requires
        zones_ok(zones),
        0 <= j <= zones.len(),
    ensures
        0 <= zone_total(zones.subrange(0, j), team_id) <= zone_total(zones, team_id),
    decreases zones.len() - j,
{
    assert(zones_ok(zones.subrange(0, j))) by {
        assert(forall|k: int| #![auto] 0 <= k < j ==> zones.subrange(0, j)[k] == zones[k]);
    }
    lemma_zone_total_nonneg(zones.subrange(0, j), team_id);
    if j == zones.len() {
        assert(zones.subrange(0, j) =~= zones);
    } else {
        assert(zones.subrange(0, j + 1).drop_last() =~= zones.subrange(0, j));
        assert(zones.subrange(0, j + 1).last() == zones[j]);
        assert(factions_ok(zones[j].factions@));
        lemma_faction_value_bounds(zones[j].factions@, team_id);
        lemma_zone_total_prefix(zones, team_id, j + 1);
    }
}

proof fn lemma_extract_nonneg(pops: Seq<NiumsidePop>, team_id: i32)
    requires
        pops_ok(pops),
    ensures
        0 <= spec_extract(pops, team_id),
    decreases pops.len(),
{
    if pops.len() > 0 {
        assert(pops_ok(pops.drop_last())) by {
            assert(forall|j: int|
                #![auto]
                0 <= j < pops.drop_last().len() ==> pops.drop_last()[j] == pops[j]);
        }
        lemma_extract_nonneg(pops.drop_last(), team_id);
        assert(zones_ok(pops[pops.len() - 1].zones@));
        lemma_zone_total_nonneg(pops[pops.len() - 1].zones@, team_id);
    }
}

/// Prefixes of the per-record sums stay within the full sum.
proof fn lemma_extract_prefix(pops: Seq<NiumsidePop>, team_id: i32, i: int)
    requires
        pops_ok(pops),
        0 <= i <= pops.len(),
    ensures
        0 <= spec_extract(pops.subrange(0, i), team_id) <= spec_extract(pops, team_id),
    decreases pops.len() - i,
{
    assert(pops_ok(pops.subrange(0, i))) by {
        assert(forall|k: int| #![auto] 0 <= k < i ==> pops.subrange(0, i)[k] == pops[k]);
    }
    lemma_extract_nonneg(pops.subrange(0, i), team_id);
    if i == pops.len() {
        assert(pops.subrange(0, i) =~= pops);
    } else {
        assert(pops.subrange(0, i + 1).drop_last() =~= pops.subrange(0, i));
        assert(pops.subrange(0, i + 1).last() == pops[i]);
        assert(zones_ok(pops[i].zones@));
        lemma_zone_total_nonneg(pops[i].zones@, team_id);
        lemma_extract_prefix(pops, team_id, i + 1);
    }
}

/// The first matching team entry's count, walked front to back.
fn team_lookup(teams: &Vec<NiumsideTeam>, team_id: i32) -> (r: i32)
    ensures
        r == team_value(teams@, team_id),
{
    proof {
        assert(teams@.subrange(0, teams@.len() as int) =~= teams@);
    }
    let mut i: usize = 0;
    while i < teams.len()
        invariant
            i <= teams.len(),
            team_value(teams@, team_id) == team_value(
                teams@.subrange(i as int, teams@.len() as int),
                team_id,
            ),
        decreases teams.len() - i,
    {
        proof {
            let suffix = teams@.subrange(i as int, teams@.len() as int);
            assert(suffix[0] == teams@[i as int]);
            assert(suffix.drop_first() =~= teams@.subrange(i as int + 1, teams@.len() as int));
        }
        if teams[i].team_id == team_id {
            return teams[i].team_population;
        }
        i = i + 1;
    }
    proof {
        assert(teams@.subrange(teams@.len() as int, teams@.len() as int) =~= Seq::<
            NiumsideTeam,
        >::empty());
    }
    0
}

/// The team's count under the first faction entry that hosts it, walked
/// front to back.
fn faction_lookup(factions: &Vec<NiumsideFaction>, team_id: i32) -> (r: i32)
    ensures
        r == faction_value(factions@, team_id),
{
    proof {
        assert(factions@.subrange(0, factions@.len() as int) =~= factions@);
    }
    let mut i: usize = 0;
    while i < factions.len()
        invariant
            i <= factions.len(),
            faction_value(factions@, team_id) == faction_value(
                factions@.subrange(i as int, factions@.len() as int),
                team_id,
            ),
        decreases factions.len() - i,
    {
        proof {
            let suffix = factions@.subrange(i as int, factions@.len() as int);
            assert(suffix[0] == factions@[i as int]);
            assert(suffix.drop_first() =~= factions@.subrange(
                i as int + 1,
                factions@.len() as int,
            ));
        }
        if factions[i].faction_id == team_id || factions[i].faction_id == 4 {
            return team_lookup(&factions[i].teams, team_id);
        }
        i = i + 1;
    }
    proof {
        assert(factions@.subrange(factions@.len() as int, factions@.len() as int) =~= Seq::<
            NiumsideFaction,
        >::empty());
    }
    0
}

/// One team's count summed over every record and zone, consulting only
/// the first matching faction entry within each zone.
#[verifier::loop_isolation(false)]
pub fn extract(pops: &Vec<NiumsidePop>, team_id: i32) -> (r: i32)
    requires
        pops_ok(pops@),
        spec_extract(pops@, team_id) <= i32::MAX,
    ensures
        r == spec_extract(pops@, team_id),
{
    proof {
        assert(pops@.subrange(0, 0) =~= Seq::<NiumsidePop>::empty());
    }
    let mut acc: i32 = 0;
    let mut i: usize = 0;
    while i < pops.len()
        invariant
            i <= pops.len(),
            acc == spec_extract(pops@.subrange(0, i as int), team_id),
        decreases pops.len() - i,
    {
        let zones = &pops[i].zones;
        proof {
            lemma_extract_prefix(pops@, team_id, i as int);
            lemma_extract_prefix(pops@, team_id, i as int + 1);
            assert(pops@.subrange(0, i as int + 1).drop_last() =~= pops@.subrange(0, i as int));
            assert(pops@.subrange(0, i as int + 1).last() == pops@[i as int]);
            assert(zones_ok(zones@));
            assert(zones@.subrange(0, 0) =~= Seq::<NiumsideZone>::empty());
        }
        let mut j: usize = 0;
        while j < zones.len()
            invariant
                j <= zones.len(),
                acc == spec_extract(pops@.subrange(0, i as int), team_id) + zone_total(
                    zones@.subrange(0, j as int),
                    team_id,
                ),
            decreases zones.len() - j,
        {
            proof {
                lemma_zone_total_prefix(zones@, team_id, j as int);
                lemma_zone_total_prefix(zones@, team_id, j as int + 1);
                assert(zones@.subrange(0, j as int + 1).drop_last() =~= zones@.subrange(
                    0,
                    j as int,
                ));
                assert(zones@.subrange(0, j as int + 1).last() == zones@[j as int]);
                assert(factions_ok(zones@[j as int].factions@));
                lemma_faction_value_bounds(zones@[j as int].factions@, team_id);
                lemma_extract_prefix(pops@, team_id, i as int);
            }
            let fv = faction_lookup(&zones[j].factions, team_id);
            acc = acc + fv;
            j = j + 1;
        }
        proof {
            assert(zones@.subrange(0, zones@.len() as int) =~= zones@);
        }
        i = i + 1;
    }
    proof {
        assert(pops@.subrange(0, pops@.len() as int) =~= pops@);
    }
    acc
}

/// niumside's reconciliation: each faction's figure is its team's count
/// over all records and zones, and the total is the faction sum.
pub fn niumside_population(pops: &Vec<NiumsidePop>) -> (r: Population)
    requires
        pops_ok(pops@),
        spec_extract(pops@, 1) + spec_extract(pops@, 2) + spec_extract(pops@, 3) <= i32::MAX,
    ensures
        r.vs == spec_extract(pops@, 1),
        r.nc == spec_extract(pops@, 2),
        r.tr == spec_extract(pops@, 3),
        r.total == spec_extract(pops@, 1) + spec_extract(pops@, 2) + spec_extract(pops@, 3),
{
    proof {
        lemma_extract_nonneg(pops@, 1);
        lemma_extract_nonneg(pops@, 2);
        lemma_extract_nonneg(pops@, 3);
    }
    let vs = extract(pops, 1);
    let nc = extract(pops, 2);
    let tr = extract(pops, 3);
    Population { nc, tr, vs, total: nc + tr + vs }
}

} // verus!
