//! The per-hop forwarding decision: validate, then deliver, forward or drop.
use vstd::prelude::*;
use vstd::string::StringExecFns;

use crate::identity::QuantumIdentity;
use crate::packet::{encoding, packet_fields, recognised_version, well_formed, HttqPacket};
use crate::route::{best_at, reaches, resolves_to, MeshView, OrbitalLocation};

verus! {

/// Why a relay dropped a packet.
#[derive(Debug, Clone, Copy, PartialEq, Eq, Structural)]
pub enum DropReason {
    /// The signature did not verify.
    InvalidSignature,
    /// The packet's version is not recognised.
    Malformed,
    /// The hop budget is spent and the packet is not at its destination.
    TtlExpired,
    /// No known path reaches the destination.
    Unreachable,
}

/// The fate of a packet at one relay.
#[derive(Debug, Clone)]
pub enum ForwardOutcome {
    /// The packet is addressed to this relay.
    Delivered(HttqPacket),
    /// The packet goes on to `next_hop` with its hop budget one lower.
    Forwarded { next_hop: String, packet: HttqPacket },
    /// The packet goes no further.
    Dropped(DropReason),
}

/// The packet is the same as `p` but for a hop budget one lower.
pub open spec fn decremented(q: HttqPacket, p: HttqPacket) -> bool {
    &&& q.version@ == p.version@
    &&& q.destination@ == p.destination@
    &&& q.origin@ == p.origin@
    &&& q.payload@ == p.payload@
    &&& q.signature@ == p.signature@
    &&& q.ttl == p.ttl - 1
}

/// What one hop owes, given the verifier's verdict on the packet's signature
/// and the relay's snapshot of the mesh.
pub open spec fn hop_outcome(
    p: HttqPacket,
    local: Seq<char>,
    signature_valid: bool,
    known: Seq<OrbitalLocation>,
    r: ForwardOutcome,
) -> bool {
    if !recognised_version(p.version@) {
        r == ForwardOutcome::Dropped(DropReason::Malformed)
    } else if !signature_valid {
        r == ForwardOutcome::Dropped(DropReason::InvalidSignature)
    } else if p.destination@ == local {
        r matches ForwardOutcome::Delivered(q) && packet_fields(q) == packet_fields(p)
    } else if p.ttl == 0 {
        r == ForwardOutcome::Dropped(DropReason::TtlExpired)
    } else if forall|j: int| 0 <= j < known.len() ==> !reaches(#[trigger] known[j], p.destination@) {
        r == ForwardOutcome::Dropped(DropReason::Unreachable)
    } else {
        r matches ForwardOutcome::Forwarded { next_hop, packet: q } && decremented(q, p) && exists|
            i: int,
        | #[trigger] best_at(known, p.destination@, i) && next_hop@ == known[i].mesh_routes@[0]@
    }
}

/// The first step at a relay: the packet that the received bytes encode, or
/// a drop for `Malformed` exactly when they encode no well-formed packet.
pub fn receive(bytes: &[u8]) -> (r: Result<HttqPacket, DropReason>)
    ensures
        match r {
            Ok(p) => well_formed(p) && encoding(p) == bytes@,
            Err(reason) => reason == DropReason::Malformed && forall|q: HttqPacket|
                well_formed(q) ==> #[trigger] encoding(q) != bytes@,
        },
{
    match HttqPacket::deserialize(bytes) {
        Ok(p) => Ok(p),
        Err(_) => Err(DropReason::Malformed),
    }
}

/// Decides what the relay with identity `local` does with `packet`.
/// `signature_valid` is the verification capability's verdict over the
/// packet's signing bytes and signature.
pub fn forward(packet: HttqPacket, local: &QuantumIdentity, signature_valid: bool, topology: &MeshView) -> (r:
    ForwardOutcome)
    ensures
        hop_outcome(packet, local@, signature_valid, topology.known@, r),
{
    let known_version = String::from_str("1.0");
    if packet.version != known_version {
        return ForwardOutcome::Dropped(DropReason::Malformed);
    }
    if !signature_valid {
        return ForwardOutcome::Dropped(DropReason::InvalidSignature);
    }
    if packet.destination == *local {
        return ForwardOutcome::Delivered(packet);
    }
    if packet.ttl == 0 {
        return ForwardOutcome::Dropped(DropReason::TtlExpired);
    }
    match topology.resolve(&packet.destination) {
        None => ForwardOutcome::Dropped(DropReason::Unreachable),
        Some(loc) => {
            let ghost known = topology.known@;
            let ghost i = choose|i: int|
                #[trigger] best_at(known, packet.destination@, i) && crate::route::same_location(
                    loc,
                    known[i],
                );
            assert(reaches(known[i], packet.destination@));
            let next_hop = loc.mesh_routes[0].clone();
            let ttl = packet.ttl - 1;
            let q = HttqPacket { ttl, ..packet };
            assert(best_at(known, q.destination@, i));
            ForwardOutcome::Forwarded { next_hop, packet: q }
        },
    }
}

/// Forwarding never raises the hop budget, and a packet whose budget is spent
/// is dropped unless it has reached its destination.
pub proof fn lemma_ttl_never_rises(
    p: HttqPacket,
    local: Seq<char>,
    signature_valid: bool,
    known: Seq<OrbitalLocation>,
    r: ForwardOutcome,
)
    requires
        hop_outcome(p, local, signature_valid, known, r),
    ensures
        r matches ForwardOutcome::Forwarded { packet: q, .. } ==> q.ttl < p.ttl,
        r matches ForwardOutcome::Delivered(q) ==> q.ttl == p.ttl,
        p.ttl == 0 && p.destination@ != local ==> r is Dropped,
{
}

} // verus!
