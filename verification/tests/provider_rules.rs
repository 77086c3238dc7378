use worldpop::providers::{
    extract, fisu_population, fisu_subdomain, honu_population, niumside_population,
    saerro_population, sanctuary_is_current, sanctuary_population, sanctuary_supported,
    voidwell_platform, voidwell_population, voidwell_supported, NiumsideFaction, NiumsidePop,
    NiumsideTeam, NiumsideZone, ZonePopulation, SANCTUARY_MAX_AGE_SECONDS,
};
use worldpop::types::Population;

#[test]
fn saerro_derives_total_from_factions() {
    let p = saerro_population(1, 2, 3);
    assert_eq!(p, Population { nc: 1, tr: 2, vs: 3, total: 6 });
}

#[test]
fn honu_folds_teamed_neutrals_into_their_faction() {
    let p = honu_population(10, 20, 30, 1, 2, 3);
    assert_eq!(p, Population { nc: 11, tr: 22, vs: 33, total: 66 });
}

#[test]
fn fisu_adds_neutral_bucket_to_total_only() {
    let p = fisu_population(1, 2, 3, 4);
    assert_eq!(p, Population { nc: 1, tr: 2, vs: 3, total: 10 });
}

#[test]
fn fisu_console_worlds_use_their_own_subdomains() {
    assert_eq!(fisu_subdomain(1000), "ps4us.ps2");
    assert_eq!(fisu_subdomain(2000), "ps4eu.ps2");
    assert_eq!(fisu_subdomain(17), "ps2");
    assert_eq!(fisu_subdomain(1), "ps2");
}

#[test]
fn voidwell_has_no_console_coverage() {
    assert!(!voidwell_supported(1000));
    assert!(!voidwell_supported(2000));
    assert!(voidwell_supported(17));
    assert_eq!(voidwell_platform(1000), "ps4us");
    assert_eq!(voidwell_platform(2000), "ps4eu");
    assert_eq!(voidwell_platform(13), "pc");
}

#[test]
fn voidwell_credits_a_third_of_neutrals_to_each_faction() {
    let zones = vec![
        ZonePopulation { vs: 1, nc: 2, tr: 3, ns: 4 },
        ZonePopulation { vs: 5, nc: 6, tr: 7, ns: 5 },
    ];
    // ns sum 9, a third is 3; the reported online count is the total
    let p = voidwell_population(&zones, 40);
    assert_eq!(p, Population { nc: 11, tr: 13, vs: 9, total: 40 });
}

#[test]
fn voidwell_neutral_share_uses_floor_division() {
    let zones = vec![ZonePopulation { vs: 0, nc: 0, tr: 0, ns: 8 }];
    let p = voidwell_population(&zones, 8);
    // 8 / 3 == 2.66..; each faction receives 2
    assert_eq!(p, Population { nc: 2, tr: 2, vs: 2, total: 8 });
}

#[test]
fn voidwell_empty_zone_list_is_all_zero_factions() {
    let zones: Vec<ZonePopulation> = Vec::new();
    let p = voidwell_population(&zones, 12);
    assert_eq!(p, Population { nc: 0, tr: 0, vs: 0, total: 12 });
}

#[test]
fn sanctuary_has_no_console_or_event_coverage() {
    assert!(!sanctuary_supported(1000));
    assert!(!sanctuary_supported(2000));
    assert!(!sanctuary_supported(19));
    assert!(sanctuary_supported(13));
}

#[test]
fn sanctuary_rejects_readings_older_than_fifteen_minutes() {
    let now: i64 = 1_000_000;
    assert!(sanctuary_is_current(now - SANCTUARY_MAX_AGE_SECONDS, now));
    assert!(!sanctuary_is_current(now - SANCTUARY_MAX_AGE_SECONDS - 1, now));
    assert!(sanctuary_is_current(now, now));
}

#[test]
fn sanctuary_adds_robots_to_total_only() {
    let p = sanctuary_population(1, 2, 3, 4);
    assert_eq!(p, Population { nc: 1, tr: 2, vs: 3, total: 10 });
}

fn team(team_id: i32, team_population: i32) -> NiumsideTeam {
    NiumsideTeam { team_id, team_population }
}

#[test]
fn niumside_reads_teams_from_own_and_neutral_factions() {
    let pops = vec![NiumsidePop {
        zones: vec![NiumsideZone {
            factions: vec![
                NiumsideFaction { faction_id: 2, teams: vec![team(2, 5)] },
                NiumsideFaction { faction_id: 4, teams: vec![team(1, 7), team(3, 2)] },
            ],
        }],
    }];
    // vs (team 1) is hosted by the neutral faction, nc (team 2) by its own
    let p = niumside_population(&pops);
    assert_eq!(p, Population { nc: 5, tr: 2, vs: 7, total: 14 });
}

#[test]
fn niumside_consults_only_first_matching_faction() {
    let pops = vec![NiumsidePop {
        zones: vec![NiumsideZone {
            factions: vec![
                // first match for team 1: its own faction, which lists no team 1
                NiumsideFaction { faction_id: 1, teams: vec![team(9, 50)] },
                // the neutral faction would have 7, but is never consulted
                NiumsideFaction { faction_id: 4, teams: vec![team(1, 7)] },
            ],
        }],
    }];
    assert_eq!(extract(&pops, 1), 0);
}

#[test]
fn niumside_sums_across_zones_and_records() {
    let zone = |n: i32| NiumsideZone {
        factions: vec![NiumsideFaction { faction_id: 3, teams: vec![team(3, n)] }],
    };
    let pops = vec![
        NiumsidePop { zones: vec![zone(10), zone(20)] },
        NiumsidePop { zones: vec![zone(30)] },
    ];
    assert_eq!(extract(&pops, 3), 60);
    let p = niumside_population(&pops);
    assert_eq!(p, Population { nc: 0, tr: 60, vs: 0, total: 60 });
}

#[test]
fn niumside_missing_team_counts_zero() {
    let pops = vec![NiumsidePop {
        zones: vec![NiumsideZone {
            factions: vec![NiumsideFaction { faction_id: 4, teams: vec![] }],
        }],
    }];
    assert_eq!(extract(&pops, 2), 0);
    let p = niumside_population(&pops);
    assert_eq!(p, Population { nc: 0, tr: 0, vs: 0, total: 0 });
}
