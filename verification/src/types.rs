//! Data model: per-provider population readings and merged snapshots.
//!
//! Timestamps are seconds since the Unix epoch; `0` is the "unset" value
//! a snapshot carries when no provider answered.

use vstd::prelude::*;

verus! {

/// One provider's (or the merged) faction and total head-counts for one
/// world at one instant. `total` is either reported directly by the
/// provider or derived from the faction counts; each provider adapter
/// fixes its own rule (see `providers`).
#[derive(Clone, Copy, Debug, PartialEq, Eq, Structural)]
pub struct Population {
    pub nc: i32,
    pub tr: i32,
    pub vs: i32,
    pub total: i32,
}

/// The three per-faction averages of a merged snapshot.
#[derive(Clone, Copy, Debug, PartialEq, Eq, Structural)]
pub struct Factions {
    pub nc: i32,
    pub tr: i32,
    pub vs: i32,
}

/// A merged point-in-time result for one world: the floor-average of the
/// surviving provider readings, the readings themselves keyed by provider
/// name, and the moment the merge happened (`cached_at == 0` when no
/// provider succeeded).
#[derive(Clone, Debug, PartialEq)]
pub struct Response {
    pub id: i32,
    pub average: i32,
    pub factions: Factions,
    pub services: Vec<(String, Population)>,
    pub cached_at: i64,
}

/// The multi-world query result, one `Response` per roster slot.
#[derive(Clone, Debug, PartialEq)]
pub struct AllResponse {
    pub worlds: Vec<Response>,
}

/// Mathematical image of a `Response`: unbounded integers and a sequence
/// of (provider-name, reading) pairs.
#[verifier::ext_equal]
pub ghost struct ResponseView {
    pub id: int,
    pub average: int,
    pub nc: int,
    pub tr: int,
    pub vs: int,
    pub services: Seq<(Seq<char>, Population)>,
    pub cached_at: int,
}

/// View of a provider-entry list: each name as its character sequence.
pub open spec fn services_view(s: Seq<(String, Population)>) -> Seq<(Seq<char>, Population)> {
    Seq::new(s.len(), |i: int| (s[i].0@, s[i].1))
}

impl View for Response {
    type V = ResponseView;

    open spec fn view(&self) -> ResponseView {
        ResponseView {
            id: self.id as int,
            average: self.average as int,
            nc: self.factions.nc as int,
            tr: self.factions.tr as int,
            vs: self.factions.vs as int,
            services: services_view(self.services@),
            cached_at: self.cached_at as int,
        }
    }
}

/// The snapshot a caller receives when nothing is known about a world:
/// every count zero, no provider entries, timestamp unset.
pub open spec fn spec_zero_response(world: i32) -> ResponseView {
    ResponseView {
        id: world as int,
        average: 0,
        nc: 0,
        tr: 0,
        vs: 0,
        services: Seq::empty(),
        cached_at: 0,
    }
}

impl Population {
    /// Sum of the three faction counts, the fallback when a provider does
    /// not report a total of its own.
    pub fn total(&self) -> (r: i32)
        requires
            i32::MIN <= self.nc + self.tr <= i32::MAX,
            i32::MIN <= self.nc + self.tr + self.vs <= i32::MAX,
        ensures
            r == self.nc + self.tr + self.vs,
    {
        self.nc + self.tr + self.vs
    }
}

impl Response {
    /// The all-zero snapshot for `world`; callers must read it as
    /// "unknown", not as an empty world.
    pub fn zero(world: i32) -> (r: Response)
        ensures
            r@ =~= spec_zero_response(world),
    {
        Response {
            id: world,
            average: 0,
            factions: Factions { nc: 0, tr: 0, vs: 0 },
            services: Vec::new(),
            cached_at: 0,
        }
    }

    /// An observationally identical copy: every field equal, the provider
    /// entries name-for-name and count-for-count.
    pub fn duplicate(&self) -> (r: Response)
        ensures
            r@ =~= self@,
    {
        let mut services: Vec<(String, Population)> = Vec::new();
        let mut i: usize = 0;
        while i < self.services.len()
            invariant
                i <= self.services.len(),
                services@.len() == i as int,
                forall|j: int|
                    0 <= j < i as int ==> services@[j].0@ == self.services@[j].0@
                        && services@[j].1 == self.services@[j].1,
            decreases self.services.len() - i,
        {
            let name = self.services[i].0.clone();
            services.push((name, self.services[i].1));
            i = i + 1;
        }
        Response {
            id: self.id,
            average: self.average,
            factions: self.factions,
            services,
            cached_at: self.cached_at,
        }
    }
}

} // verus!
