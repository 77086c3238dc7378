//! The fixed world roster and the multi-world fan-out: results of the
//! concurrent per-world queries are matched back to their request slots,
//! so the output order is the roster's declared order no matter in which
//! order the queries completed.

use crate::types::{Response, spec_zero_response};
use vstd::prelude::*;

verus! {

/// The fixed, configured set of worlds kept warm by the background
/// refresher and served by the query-all operation.
pub open spec fn spec_roster() -> Seq<i32> {
    seq![1i32, 10i32, 13i32, 17i32, 19i32, 40i32, 1000i32, 2000i32]
}

/// The roster as a vector, in its declared order.
pub fn world_roster() -> (r: Vec<i32>)
    ensures
        r@ == spec_roster(),
{
    let mut v: Vec<i32> = Vec::new();
    v.push(1);
    v.push(10);
    v.push(13);
    v.push(17);
    v.push(19);
    v.push(40);
    v.push(1000);
    v.push(2000);
    proof {
        assert(v@ =~= spec_roster());
    }
    v
}

/// The snapshot that ends up in request slot `j`: the first completion
/// tagged with slot index `j`, if any arrived.
pub open spec fn slot_value(completed: Seq<(usize, Response)>, j: int) -> Option<Response>
    decreases completed.len(),
{
    if completed.len() == 0 {
        None
    } else if completed[0].0 as int == j {
        Some(completed[0].1)
    } else {
        slot_value(completed.drop_first(), j)
    }
}

/// Each completion is tagged with a distinct request slot — what a
/// fan-out that spawns one task per slot and joins each exactly once
/// delivers.
pub open spec fn distinct_slots(completed: Seq<(usize, Response)>) -> bool {
    forall|a: int, b: int|
        0 <= a < b < completed.len() ==> (#[trigger] completed[a]).0 != (#[trigger] completed[b]).0
}

/// Place each completed snapshot into its request slot; a slot no
/// completion claimed surfaces as that world's all-zero snapshot, never
/// as an error. The completions may arrive in any order.
#[verifier::loop_isolation(false)]
pub fn assemble_in_order(roster: &Vec<i32>, completed: Vec<(usize, Response)>) -> (out: Vec<
    Response,
>)
    requires
        forall|i: int|
            0 <= i < completed@.len() ==> (#[trigger] completed@[i]).0 < roster@.len(),
    ensures
        out@.len() == roster@.len(),
        forall|j: int|
            0 <= j < roster@.len() ==> match #[trigger] slot_value(completed@, j) {
                Some(r) => out@[j] == r,
                None => out@[j]@ == spec_zero_response(roster@[j]),
            },
{
    let ghost orig = completed@;
    let mut out: Vec<Response> = Vec::new();
    let mut j: usize = 0;
    while j < roster.len()
        invariant
            j <= roster.len(),
            out@.len() == j as int,
            forall|k: int| 0 <= k < j as int ==> (#[trigger] out@[k])@ == spec_zero_response(
                roster@[k],
            ),
        decreases roster.len() - j,
    {
        out.push(Response::zero(roster[j]));
        j = j + 1;
    }

    let mut rest = completed;
    proof {
        assert(rest@ =~= orig.subrange(0, orig.len() as int));
        assert(orig.subrange(orig.len() as int, orig.len() as int) =~= Seq::<(
            usize,
            Response,
        )>::empty());
    }
    while rest.len() > 0
        invariant
            out@.len() == roster@.len(),
            rest@.len() <= orig.len(),
            rest@ == orig.subrange(0, rest@.len() as int),
            forall|k: int|
                0 <= k < roster@.len() ==> match #[trigger] slot_value(
                    orig.subrange(rest@.len() as int, orig.len() as int),
                    k,
                ) {
                    Some(r) => out@[k] == r,
                    None => out@[k]@ == spec_zero_response(roster@[k]),
                },
        decreases rest@.len(),
    {
        let ghost m = rest@.len() as int;
        let ghost prev = rest@;
        let entry = rest.pop().unwrap();
        let (idx, resp) = entry;
        proof {
            assert(prev == orig.subrange(0, m));
            assert(rest@ == prev.subrange(0, m - 1));
            assert forall|k: int| 0 <= k < m implies prev[k] == orig[k] by {
                assert(prev[k] == orig.subrange(0, m)[k]);
            }
            assert(prev.subrange(0, m - 1) =~= orig.subrange(0, m - 1));
            assert(prev[m - 1] == orig[m - 1]);
            assert(orig[m - 1] == (idx, resp));
            assert((orig[m - 1]).0 < roster@.len());
            let ghost suffix_new = orig.subrange(m - 1, orig.len() as int);
            assert(suffix_new[0] == orig[m - 1]);
            assert(suffix_new.drop_first() =~= orig.subrange(m, orig.len() as int));
        }
        let ghost before = out@;
        out.set(idx, resp);
        proof {
            let suffix_new = orig.subrange(m - 1, orig.len() as int);
            let suffix_old = orig.subrange(m, orig.len() as int);
            assert forall|k: int| 0 <= k < roster@.len() implies match #[trigger] slot_value(
                suffix_new,
                k,
            ) {
                Some(r) => out@[k] == r,
                None => out@[k]@ == spec_zero_response(roster@[k]),
            } by {
                if k == idx as int {
                    assert(slot_value(suffix_new, k) == Some(resp));
                } else {
                    assert(slot_value(suffix_new, k) == slot_value(suffix_old, k));
                    assert(out@[k] == before[k]);
                }
            }
        }
    }
    proof {
        assert(orig.subrange(0, orig.len() as int) =~= orig);
    }
    out
}

/// Wherever a slot's snapshot came from, a pair of the slot index and
/// that snapshot occurs among the completions.
proof fn lemma_slot_value_member(c: Seq<(usize, Response)>, j: int)
    ensures
        slot_value(c, j) is Some ==> exists|p: (usize, Response)|
            #[trigger] c.contains(p) && p.0 as int == j && slot_value(c, j) == Some(p.1),
        slot_value(c, j) is None ==> forall|i: int| 0 <= i < c.len() ==> (#[trigger] c[i]).0 as int
            != j,
    decreases c.len(),
{
    if c.len() > 0 {
        if c[0].0 as int == j {
            assert(c.contains(c[0]));
        } else {
            lemma_slot_value_member(c.drop_first(), j);
            if slot_value(c, j) is Some {
                let p = choose|p: (usize, Response)|
                    #[trigger] c.drop_first().contains(p) && p.0 as int == j && slot_value(
                        c.drop_first(),
                        j,
                    ) == Some(p.1);
                let i = choose|i: int|
                    0 <= i < c.drop_first().len() && c.drop_first()[i] == p;
                assert(c[i + 1] == p);
                assert(c.contains(p));
            } else {
                assert forall|i: int| 0 <= i < c.len() implies (#[trigger] c[i]).0 as int
                    != j by {
                    if i > 0 {
                        assert(c.drop_first()[i - 1] == c[i]);
                    }
                }
            }
        }
    }
}

/// Under distinct slots, membership decides the slot's snapshot.
proof fn lemma_member_slot_value(c: Seq<(usize, Response)>, p: (usize, Response))
    requires
        distinct_slots(c),
        c.contains(p),
    ensures
        slot_value(c, p.0 as int) == Some(p.1),
    decreases c.len(),
{
    let i = choose|i: int| 0 <= i < c.len() && c[i] == p;
    if c[0].0 == p.0 {
        if i != 0 {
            assert(c[0].0 != c[i].0);
        }
        assert(slot_value(c, p.0 as int) == Some(c[0].1));
    } else {
        assert(c.drop_first()[i - 1] == c[i]);
        assert(c.drop_first().contains(p));
        assert(distinct_slots(c.drop_first())) by {
            assert(forall|a: int, b: int|
                0 <= a < b < c.drop_first().len() ==> (#[trigger] c.drop_first()[a],
                #[trigger] c.drop_first()[b]) == (c[a + 1], c[b + 1]));
        }
        lemma_member_slot_value(c.drop_first(), p);
    }
}

/// Law: the assembled batch is independent of completion order — two
/// runs whose fan-outs settle with the same tagged snapshots, however
/// interleaved, fill every request slot identically.
pub proof fn lemma_assembly_order_independent(
    c1: Seq<(usize, Response)>,
    c2: Seq<(usize, Response)>,
    j: int,
)
    requires
        distinct_slots(c1),
        distinct_slots(c2),
        c1.to_multiset() == c2.to_multiset(),
    ensures
        slot_value(c1, j) == slot_value(c2, j),
{
    broadcast use vstd::seq_lib::group_to_multiset_ensures;

    lemma_slot_value_member(c1, j);
    lemma_slot_value_member(c2, j);
    if slot_value(c1, j) is Some {
        let p = choose|p: (usize, Response)|
            #[trigger] c1.contains(p) && p.0 as int == j && slot_value(c1, j) == Some(p.1);
        assert(c1.to_multiset().count(p) > 0);
        assert(c2.contains(p));
        lemma_member_slot_value(c2, p);
    } else {
        if slot_value(c2, j) is Some {
            let p = choose|p: (usize, Response)|
                #[trigger] c2.contains(p) && p.0 as int == j && slot_value(c2, j) == Some(p.1);
            assert(c2.to_multiset().count(p) > 0);
            assert(c1.contains(p));
            let i = choose|i: int| 0 <= i < c1.len() && c1[i] == p;
            assert((c1[i]).0 as int == j);
            assert(false);
        }
    }
}

} // verus!
