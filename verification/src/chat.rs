//! Chat messages. A room keeps an ordered chat log bounded by a rolling
//! retention window (pruned by the eviction sweeper), not by count.
//!
//! Placement metadata of floating chat windows is presentation-layer
//! data and is not part of this core.

use vstd::prelude::*;
use crate::ids::fresh_entity_id;
use crate::types::EntityId;

verus! {

/// A chat message within a room.
pub struct ChatMessage {
    pub id: EntityId,
    pub room_id: EntityId,
    pub user_id: EntityId,
    pub username: String,
    /// The plain-text version of the message.
    pub content: String,
    /// Optional formatted (HTML or Markdown) version of the message.
    pub formatted_content: Option<String>,
    /// Message type: "text", "html", "gif", "image", and the like.
    pub content_type: String,
    /// Milliseconds since the Unix epoch.
    pub timestamp: i64,
}

impl ChatMessage {
    /// A fresh message with a newly drawn id, stamped `timestamp`.
    pub fn new(
        room_id: EntityId,
        user_id: EntityId,
        username: String,
        content: String,
        formatted_content: Option<String>,
        content_type: String,
        timestamp: i64,
    ) -> (r: ChatMessage)
        ensures
            r.room_id == room_id,
            r.user_id == user_id,
            r.username == username,
            r.content == content,
            r.formatted_content == formatted_content,
            r.content_type == content_type,
            r.timestamp == timestamp,
    {
        ChatMessage {
            id: fresh_entity_id(),
            room_id,
            user_id,
            username,
            content,
            formatted_content,
            content_type,
            timestamp,
        }
    }
}

impl Clone for ChatMessage {
    fn clone(&self) -> (r: Self)
        ensures
            r == *self,
    {
        ChatMessage {
            id: self.id,
            room_id: self.room_id,
            user_id: self.user_id,
            username: self.username.clone(),
            content: self.content.clone(),
            formatted_content: (match &self.formatted_content {
                Some(f) => Some(f.clone()),
                None => None,
            }),
            content_type: self.content_type.clone(),
            timestamp: self.timestamp,
        }
    }
}

} // verus!
