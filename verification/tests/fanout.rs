use worldpop::roster::{assemble_in_order, world_roster};
use worldpop::types::{Factions, Population, Response};

fn snapshot(world: i32, average: i32) -> Response {
    Response {
        id: world,
        average,
        factions: Factions { nc: 0, tr: 0, vs: 0 },
        services: vec![("a".to_string(), Population { nc: 0, tr: 0, vs: 0, total: average })],
        cached_at: 1,
    }
}

#[test]
fn roster_holds_the_eight_known_worlds() {
    assert_eq!(world_roster(), vec![1, 10, 13, 17, 19, 40, 1000, 2000]);
}

#[test]
fn assembly_places_completions_by_request_slot() {
    let roster = world_roster();
    // completions arrive in an arbitrary order
    let completed = vec![
        (5usize, snapshot(40, 44)),
        (0usize, snapshot(1, 11)),
        (7usize, snapshot(2000, 77)),
        (2usize, snapshot(13, 33)),
    ];
    let out = assemble_in_order(&roster, completed);
    assert_eq!(out.len(), 8);
    assert_eq!(out[0].average, 11);
    assert_eq!(out[2].average, 33);
    assert_eq!(out[5].average, 44);
    assert_eq!(out[7].average, 77);
}

#[test]
fn assembly_is_independent_of_completion_order() {
    let roster = world_roster();
    let completions = |order: &[usize]| -> Vec<(usize, Response)> {
        order.iter().map(|&slot| (slot, snapshot(roster[slot], slot as i32 * 10))).collect()
    };
    let a = assemble_in_order(&roster, completions(&[0, 1, 2, 3, 4, 5, 6, 7]));
    let b = assemble_in_order(&roster, completions(&[7, 3, 5, 1, 0, 6, 2, 4]));
    assert_eq!(a, b);
}

#[test]
fn missing_slot_surfaces_as_zero_snapshot() {
    let roster = world_roster();
    let completed = vec![(1usize, snapshot(10, 5))];
    let out = assemble_in_order(&roster, completed);
    assert_eq!(out[1].average, 5);
    // every unclaimed slot carries its world's all-zero snapshot
    for (j, world) in [1, 10, 13, 17, 19, 40, 1000, 2000].iter().enumerate() {
        if j != 1 {
            assert_eq!(out[j], Response::zero(*world));
        }
    }
}

#[test]
fn no_completions_yields_all_zero_batch() {
    let roster = world_roster();
    let out = assemble_in_order(&roster, Vec::new());
    assert_eq!(out.len(), 8);
    for (j, world) in [1, 10, 13, 17, 19, 40, 1000, 2000].iter().enumerate() {
        assert_eq!(out[j], Response::zero(*world));
    }
}
