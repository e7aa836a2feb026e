//! Shared identifier aliases and the domain error taxonomy.

use vstd::prelude::*;

verus! {

/// Opaque unique identifier of a room, participant or chat message.
pub type EntityId = u128;

/// A card label as shown on the deck.
pub type Card = String;

/// Errors surfaced by store operations. Background tasks never propagate
/// a failure that terminates the process; race losses during removal are
/// not errors.
#[derive(Clone, Copy, Debug, PartialEq, Eq, Structural)]
pub enum DomainError {
    /// The operation targets a room id absent from the store.
    NotFound,
    /// An ownership check failed; no state change was made.
    Forbidden,
    /// The operation is illegal in the current stage, or targets a
    /// participant absent from the room; no partial mutation is made.
    InvalidState,
    /// A caller-supplied room id is already taken.
    Conflict,
}

} // verus!
