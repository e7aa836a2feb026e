//! The per-room game state: the table of current card selections,
//! keyed by participant id and hidden until reveal.

use vstd::prelude::*;
use crate::types::{Card, EntityId};

verus! {

/// One participant's current selection. The card is `None` in redacted
/// snapshots published before the reveal.
pub struct UserCard {
    pub user_id: EntityId,
    pub card: Option<Card>,
}

impl UserCard {
    pub fn new(user_id: EntityId, card: Card) -> (r: UserCard)
        ensures
            r == (UserCard { user_id, card: Some(card) }),
    {
        UserCard { user_id, card: Some(card) }
    }
}

impl Clone for UserCard {
    fn clone(&self) -> (r: Self)
        ensures
            r == *self,
    {
        UserCard {
            user_id: self.user_id,
            card: (match &self.card {
                Some(c) => Some(c.clone()),
                None => None,
            }),
        }
    }
}

/// The game state of one room.
pub struct Game {
    pub table: Vec<UserCard>,
}

impl Game {
    /// A fresh game with an empty table.
    pub fn new() -> (r: Game)
        ensures
            r.table@ == Seq::<UserCard>::empty(),
    {
        Game { table: Vec::new() }
    }
}

impl Clone for Game {
    fn clone(&self) -> (r: Self)
        ensures
            r.table@ == self.table@,
    {
        Game { table: self.table.clone() }
    }
}

} // verus!
