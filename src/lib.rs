//! Identity-based transport: peers are addressed by the digest of their public
//! key, packets are signed over a canonical byte form, and every relay decides
//! a packet's fate from the packet and its own view of the mesh.

pub mod hexenc;
pub mod identity;
pub mod packet;
pub mod route;
pub mod forward;

pub use identity::QuantumIdentity;
pub use packet::{HttqError, HttqPacket};
pub use route::{MeshView, OrbitalLocation};
pub use forward::{forward, receive, DropReason, ForwardOutcome};
