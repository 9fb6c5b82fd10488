//! Route resolution: from a destination identity to the best known path.
use vstd::prelude::*;

use crate::identity::QuantumIdentity;

verus! {

/// A resolved reachability record: one viable path to an identity.
#[derive(Debug, Clone)]
pub struct OrbitalLocation {
    /// The identity that the path reaches.
    pub identity: QuantumIdentity,
    /// Relay nodes in hop order, first hop first.
    pub mesh_routes: Vec<String>,
    /// Estimated end-to-end latency in milliseconds.
    pub latency_ms: u32,
}

/// A point-in-time snapshot of the mesh: the paths known to each identity.
#[derive(Debug, Clone)]
pub struct MeshView {
    /// Known paths, in the order the topology provider listed them.
    pub known: Vec<OrbitalLocation>,
}

/// The path leads to `dest` and has at least one hop.
pub open spec fn reaches(loc: OrbitalLocation, dest: Seq<char>) -> bool {
    loc.identity@ == dest && loc.mesh_routes@.len() > 0
}

/// Fewer hops, or as many hops and no higher latency.
pub open spec fn at_least_as_good(a: OrbitalLocation, b: OrbitalLocation) -> bool {
    a.mesh_routes@.len() < b.mesh_routes@.len() || (a.mesh_routes@.len() == b.mesh_routes@.len()
        && a.latency_ms <= b.latency_ms)
}

/// Fewer hops, or as many hops and a lower latency.
pub open spec fn strictly_better(a: OrbitalLocation, b: OrbitalLocation) -> bool {
    a.mesh_routes@.len() < b.mesh_routes@.len() || (a.mesh_routes@.len() == b.mesh_routes@.len()
        && a.latency_ms < b.latency_ms)
}

/// Entry `i` is the path the policy picks: it reaches `dest`, no path to
/// `dest` beats it, and every earlier path to `dest` is strictly worse.
pub open spec fn best_at(known: Seq<OrbitalLocation>, dest: Seq<char>, i: int) -> bool {
    &&& 0 <= i < known.len()
    &&& reaches(known[i], dest)
    &&& forall|j: int|
        0 <= j < known.len() && reaches(#[trigger] known[j], dest) ==> at_least_as_good(known[i], known[j])
    &&& forall|j: int| 0 <= j < i && reaches(#[trigger] known[j], dest) ==> strictly_better(known[i], known[j])
}

/// Two records describe the same location.
pub open spec fn same_location(a: OrbitalLocation, b: OrbitalLocation) -> bool {
    &&& a.identity@ == b.identity@
    &&& a.mesh_routes@ == b.mesh_routes@
    &&& a.latency_ms == b.latency_ms
}

/// What resolution owes: no route exactly when no known path reaches `dest`,
/// else a copy of the entry that the policy picks.
pub open spec fn resolves_to(known: Seq<OrbitalLocation>, dest: Seq<char>, r: Option<OrbitalLocation>) -> bool {
    match r {
        None => forall|j: int| 0 <= j < known.len() ==> !reaches(#[trigger] known[j], dest),
        Some(loc) => exists|i: int| #[trigger] best_at(known, dest, i) && same_location(loc, known[i]),
    }
}

/// At most one entry is the policy's pick.
proof fn lemma_best_unique(known: Seq<OrbitalLocation>, dest: Seq<char>, i: int, j: int)
    requires
        best_at(known, dest, i),
        best_at(known, dest, j),
    ensures
        i == j,
{
    if i < j {
        assert(reaches(known[i], dest));
        assert(strictly_better(known[j], known[i]));
        assert(at_least_as_good(known[i], known[j]));
    } else if j < i {
        assert(reaches(known[j], dest));
        assert(strictly_better(known[i], known[j]));
        assert(at_least_as_good(known[j], known[i]));
    }
}

/// Resolving twice against the same snapshot gives the same path.
pub proof fn lemma_resolve_deterministic(
    known: Seq<OrbitalLocation>,
    dest: Seq<char>,
    r1: Option<OrbitalLocation>,
    r2: Option<OrbitalLocation>,
)
    requires
        resolves_to(known, dest, r1),
        resolves_to(known, dest, r2),
    ensures
        r1 is Some <==> r2 is Some,
        r1 matches Some(a) ==> r2 matches Some(b) && same_location(a, b),
{
    match (r1, r2) {
        (Some(a), Some(b)) => {
            let i = choose|i: int| #[trigger] best_at(known, dest, i) && same_location(a, known[i]);
            let j = choose|j: int| #[trigger] best_at(known, dest, j) && same_location(b, known[j]);
            lemma_best_unique(known, dest, i, j);
        },
        (Some(a), None) => {
            let i = choose|i: int| #[trigger] best_at(known, dest, i) && same_location(a, known[i]);
            assert(!reaches(known[i], dest));
        },
        (None, Some(b)) => {
            let j = choose|j: int| #[trigger] best_at(known, dest, j) && same_location(b, known[j]);
            assert(!reaches(known[j], dest));
        },
        (None, None) => {},
    }
}

/// A copy of a list of relay names.
fn copy_routes(routes: &Vec<String>) -> (r: Vec<String>)
    ensures
        r@ == routes@,
{
    let mut out: Vec<String> = Vec::new();
    let mut i: usize = 0;
    while i < routes.len()
        invariant
            i <= routes@.len(),
            out@ == routes@.subrange(0, i as int),
        decreases routes@.len() - i,
    {
        out.push(routes[i].clone());
        i = i + 1;
        assert(out@ =~= routes@.subrange(0, i as int));
    }
    assert(routes@.subrange(0, i as int) =~= routes@);
    out
}

impl OrbitalLocation {
    /// A copy of this record.
    pub fn duplicate(&self) -> (r: OrbitalLocation)
        ensures
            same_location(r, *self),
    {
        OrbitalLocation {
            identity: self.identity.duplicate(),
            mesh_routes: copy_routes(&self.mesh_routes),
            latency_ms: self.latency_ms,
        }
    }
}

impl MeshView {
    /// The best known path to `destination`: fewest hops first, then lowest
    /// latency, then the earliest listed; `None` when no known path reaches it.
    /// Each call reads the snapshot afresh.
    pub fn resolve(&self, destination: &QuantumIdentity) -> (r: Option<OrbitalLocation>)
        ensures
            resolves_to(self.known@, destination@, r),
    {
        let ghost known = self.known@;
        let ghost dest = destination@;
        let mut best: Option<usize> = None;
        let mut i: usize = 0;
        while i < self.known.len()
            invariant
                i <= known.len(),
                known == self.known@,
                dest == destination@,
                match best {
                    None => forall|j: int| 0 <= j < i ==> !reaches(#[trigger] known[j], dest),
                    Some(b) => {
                        &&& b < i
                        &&& reaches(known[b as int], dest)
                        &&& forall|j: int|
                            0 <= j < i && reaches(#[trigger] known[j], dest) ==> at_least_as_good(
                                known[b as int],
                                known[j],
                            )
                        &&& forall|j: int|
                            0 <= j < b && reaches(#[trigger] known[j], dest) ==> strictly_better(
                                known[b as int],
                                known[j],
                            )
                    },
                },
            decreases known.len() - i,
        {
            let cand = &self.known[i];
            if cand.identity == *destination && cand.mesh_routes.len() > 0 {
                match best {
                    None => {
                        best = Some(i);
                    },
                    Some(b) => {
                        let cur = &self.known[b];
                        let hops = cand.mesh_routes.len();
                        let cur_hops = cur.mesh_routes.len();
                        if hops < cur_hops || (hops == cur_hops && cand.latency_ms < cur.latency_ms) {
                            best = Some(i);
                        }
                    },
                }
            }
            i = i + 1;
        }
        match best {
            None => None,
            Some(b) => {
                assert(best_at(known, dest, b as int));
                Some(self.known[b].duplicate())
            },
        }
    }
}

} // verus!
