//! The deck of card labels a room offers. Mutable configuration, not a
//! queue: the order of the labels is their display order.

use vstd::prelude::*;
use crate::ids::fresh_entity_id;
use crate::types::{Card, EntityId};

verus! {

pub struct Deck {
    pub id: EntityId,
    pub cards: Vec<Card>,
}

impl Deck {
    /// A fresh deck holding exactly `cards`, with a newly drawn id.
    pub fn new_with_cards(cards: Vec<Card>) -> (r: Deck)
        ensures
            r.cards@ == cards@,
    {
        Deck { id: fresh_entity_id(), cards }
    }
}

impl Clone for Deck {
    fn clone(&self) -> (r: Self)
        ensures
            r.id == self.id,
            r.cards@ == self.cards@,
    {
        Deck { id: self.id, cards: self.cards.clone() }
    }
}

} // verus!
