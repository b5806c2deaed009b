//! Sharded membership store: members, their group joins and invites, role
//! based permissions, gated admission and the shard coordinator.
use vstd::prelude::*;

pub mod aggregate;
pub mod chunk;
pub mod gate;
pub mod keyed;
pub mod membership;
pub mod model;
pub mod permission;
pub mod principal;
pub mod roles;
pub mod shard;
pub mod store;

verus! {

} // verus!
