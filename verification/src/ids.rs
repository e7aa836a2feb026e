//! Generation of fresh entity identifiers.

use vstd::prelude::*;
use crate::types::EntityId;

verus! {

/// Relies on uuid::Uuid::new_v4 (via Uuid::as_u128): draws a fresh random
/// version-4 UUID. Nothing can be promised of a random value.
#[verifier::external_body]
pub fn fresh_entity_id() -> EntityId {
    uuid::Uuid::new_v4().as_u128()
}

} // verus!
