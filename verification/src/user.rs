//! Participants. A participant is created independently of any room and
//! attached to one by a join operation.
//!
//! The numeric value of a picked card is derived from its label by an
//! external normalizer and is not part of this core; callers that need it
//! derive it from `last_card_picked` themselves.

use vstd::prelude::*;
use crate::ids::fresh_entity_id;
use crate::types::EntityId;

verus! {

/// A participant as handed in by a caller when joining a room.
#[derive(Debug)]
pub struct UserInput {
    pub id: EntityId,
    pub username: String,
    /// When set on a join of a new participant, renames the room.
    pub room_name: Option<String>,
    pub last_card_picked: Option<String>,
}

/// A participant of a room.
#[derive(Debug)]
pub struct User {
    pub id: EntityId,
    pub username: String,
    pub last_card_picked: Option<String>,
}

impl User {
    /// A fresh participant with a newly drawn id and no picked card.
    pub fn new(username: String) -> (r: User)
        ensures
            r.username == username,
            r.last_card_picked is None,
    {
        User { id: fresh_entity_id(), username, last_card_picked: None }
    }

    /// The participant described by `input`, keeping its id.
    pub fn from_input(input: UserInput) -> (r: User)
        ensures
            r.id == input.id,
            r.username == input.username,
            r.last_card_picked == input.last_card_picked,
    {
        User {
            id: input.id,
            username: input.username,
            last_card_picked: input.last_card_picked,
        }
    }
}

impl Clone for User {
    fn clone(&self) -> (r: Self)
        ensures
            r == *self,
    {
        User {
            id: self.id,
            username: self.username.clone(),
            last_card_picked: (match &self.last_card_picked {
                Some(c) => Some(c.clone()),
                None => None,
            }),
        }
    }
}

impl Clone for UserInput {
    fn clone(&self) -> (r: Self)
        ensures
            r == *self,
    {
        UserInput {
            id: self.id,
            username: self.username.clone(),
            room_name: (match &self.room_name {
                Some(n) => Some(n.clone()),
                None => None,
            }),
            last_card_picked: (match &self.last_card_picked {
                Some(c) => Some(c.clone()),
                None => None,
            }),
        }
    }
}

} // verus!
