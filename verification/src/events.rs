//! Room lifecycle events (kicked / banned / expired) and the shapes that
//! publishing rooms or events leaves in a hub's subscriber buffers.

use vstd::prelude::*;
use crate::hub::{event_appended, publish_post, sub_delivers, SubscriberModel};
use crate::room::{Room, RoomModel};
use crate::types::EntityId;

verus! {

/// What happened to a room (or to a participant in it).
#[derive(Clone, Copy, Debug, PartialEq, Eq, Structural)]
pub enum EventKind {
    Kicked,
    Banned,
    Expired,
}

/// A room lifecycle event: the kind, the room it concerns, the
/// participant it targets (none for an expiry), and the redacted
/// snapshot taken when it happened.
pub struct RoomEvent {
    pub room_id: EntityId,
    pub event_type: EventKind,
    pub target_user_id: Option<EntityId>,
    pub room: Room,
}

/// The mathematical state of a lifecycle event.
#[verifier::ext_equal]
pub struct RoomEventModel {
    pub room_id: EntityId,
    pub event_type: EventKind,
    pub target_user_id: Option<EntityId>,
    pub room: RoomModel,
}

impl View for RoomEvent {
    type V = RoomEventModel;

    open spec fn view(&self) -> RoomEventModel {
        RoomEventModel {
            room_id: self.room_id,
            event_type: self.event_type,
            target_user_id: self.target_user_id,
            room: self.room@,
        }
    }
}

impl Clone for RoomEvent {
    fn clone(&self) -> (r: Self)
        ensures
            r@ == self@,
    {
        RoomEvent {
            room_id: self.room_id,
            event_type: self.event_type,
            target_user_id: self.target_user_id,
            room: self.room.clone(),
        }
    }
}

/// `post` is `pre` with one more buffered room whose model is `m`.
pub open spec fn snapshot_appended(
    pre: SubscriberModel<Room>,
    post: SubscriberModel<Room>,
    m: RoomModel,
) -> bool {
    &&& post.id == pre.id
    &&& post.capacity == pre.capacity
    &&& post.closed == pre.closed
    &&& post.buffer.len() == pre.buffer.len() + 1
    &&& post.buffer.drop_last() == pre.buffer
    &&& post.buffer.last()@ == m
}

/// What publishing a room snapshot with model `m` does to the
/// subscribers of a room hub: exactly the delivering subscribers
/// survive, each with the snapshot appended.
pub open spec fn room_published(
    pre: Seq<SubscriberModel<Room>>,
    post: Seq<SubscriberModel<Room>>,
    m: RoomModel,
) -> bool {
    &&& post.len() == pre.filter(sub_delivers()).len()
    &&& (forall|j: int|
        0 <= j < post.len() ==> snapshot_appended(
            pre.filter(sub_delivers())[j],
            #[trigger] post[j],
            m,
        ))
}

/// `post` is `pre` with one more buffered event whose model is `em`.
pub open spec fn lifecycle_appended(
    pre: SubscriberModel<RoomEvent>,
    post: SubscriberModel<RoomEvent>,
    em: RoomEventModel,
) -> bool {
    &&& post.id == pre.id
    &&& post.capacity == pre.capacity
    &&& post.closed == pre.closed
    &&& post.buffer.len() == pre.buffer.len() + 1
    &&& post.buffer.drop_last() == pre.buffer
    &&& post.buffer.last()@ == em
}

/// What publishing a lifecycle event with model `em` does to the
/// subscribers of an event hub.
pub open spec fn lifecycle_published(
    pre: Seq<SubscriberModel<RoomEvent>>,
    post: Seq<SubscriberModel<RoomEvent>>,
    em: RoomEventModel,
) -> bool {
    &&& post.len() == pre.filter(sub_delivers()).len()
    &&& (forall|j: int|
        0 <= j < post.len() ==> lifecycle_appended(
            pre.filter(sub_delivers())[j],
            #[trigger] post[j],
            em,
        ))
}

/// A delivered copy of a room carries the published room's model:
/// cloning preserves the model.
pub proof fn lemma_room_publish(
    pre: Seq<SubscriberModel<Room>>,
    post: Seq<SubscriberModel<Room>>,
    event: Room,
)
    requires
        publish_post(pre, post, event),
    ensures
        room_published(pre, post, event@),
{
    assert forall|j: int| 0 <= j < post.len() implies snapshot_appended(
        pre.filter(sub_delivers())[j],
        #[trigger] post[j],
        event@,
    ) by {
        assert(event_appended(pre.filter(sub_delivers())[j], post[j], event));
        let x = post[j].buffer.last();
        assert(cloned::<Room>(event, x));
        if x != event {
            assert(vstd::pervasive::strictly_cloned::<Room>(event, x));
        }
        assert(x@ == event@);
    }
}

/// A delivered copy of a lifecycle event carries the published event's
/// model: cloning preserves the model.
pub proof fn lemma_lifecycle_publish(
    pre: Seq<SubscriberModel<RoomEvent>>,
    post: Seq<SubscriberModel<RoomEvent>>,
    event: RoomEvent,
)
    requires
        publish_post(pre, post, event),
    ensures
        lifecycle_published(pre, post, event@),
{
    assert forall|j: int| 0 <= j < post.len() implies lifecycle_appended(
        pre.filter(sub_delivers())[j],
        #[trigger] post[j],
        event@,
    ) by {
        assert(event_appended(pre.filter(sub_delivers())[j], post[j], event));
        let x = post[j].buffer.last();
        assert(cloned::<RoomEvent>(event, x));
        if x != event {
            assert(vstd::pervasive::strictly_cloned::<RoomEvent>(event, x));
        }
        assert(x@ == event@);
    }
}

/// The relation stepped by one room-snapshot publish, as a value, for
/// stating what a whole sequence of publishes did.
pub open spec fn room_publish_step() -> spec_fn(
    Seq<SubscriberModel<Room>>,
    Seq<SubscriberModel<Room>>,
    RoomModel,
) -> bool {
    |pre: Seq<SubscriberModel<Room>>, post: Seq<SubscriberModel<Room>>, m: RoomModel|
        room_published(pre, post, m)
}

/// The relation stepped by one lifecycle-event publish.
pub open spec fn lifecycle_publish_step() -> spec_fn(
    Seq<SubscriberModel<RoomEvent>>,
    Seq<SubscriberModel<RoomEvent>>,
    RoomEventModel,
) -> bool {
    |pre: Seq<SubscriberModel<RoomEvent>>, post: Seq<SubscriberModel<RoomEvent>>, em: RoomEventModel|
        lifecycle_published(pre, post, em)
}

} // verus!
