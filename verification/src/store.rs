//! The session store: the single source of truth for all room
//! aggregates. It owns the only collection of rooms; every public
//! operation is one atomic read or read-modify-publish step, so that a
//! caller holding the store exclusively (behind whatever lock the
//! embedding chooses) gets serialized semantics per room. Mutating
//! operations refresh the room's activity timestamp and publish the
//! redacted snapshot before returning; reads hand out deep, independent
//! copies.
//!
//! Time enters through explicit `now` arguments (milliseconds since the
//! Unix epoch), so behaviour is fully specified and deterministic under
//! test; the embedding passes the wall clock's reading.

use vstd::prelude::*;
use crate::events::{
    lemma_lifecycle_publish, lemma_room_publish, lifecycle_published, room_published,
    room_publish_step, EventKind, RoomEvent, RoomEventModel,
};
use crate::hub::{published_in_order, Hub};
use crate::room::{
    has_member, keep_other_entries, keep_other_ids, keep_other_users, rename_member, Room,
    RoomModel, RevealStage,
};
use crate::chat::ChatMessage;
use crate::game::UserCard;
use crate::labels::trimmed_of;
use crate::types::{Card, DomainError, EntityId};
use crate::user::{User, UserInput};

verus! {

/// The models of a sequence of rooms.
pub open spec fn room_views(rs: Seq<Room>) -> Seq<RoomModel> {
    rs.map_values(|r: Room| r@)
}

/// Whether the store holds a room with this id.
pub open spec fn contains_room(s: Seq<RoomModel>, id: EntityId) -> bool {
    exists|i: int| 0 <= i < s.len() && s[i].id == id
}

/// The index of the room with this id.
pub open spec fn room_index(s: Seq<RoomModel>, id: EntityId) -> int {
    choose|i: int| 0 <= i < s.len() && s[i].id == id
}

/// Room ids are pairwise distinct and every room satisfies its
/// invariant.
pub open spec fn store_inv(s: Seq<RoomModel>) -> bool {
    &&& (forall|i: int, j: int|
        0 <= i < j < s.len() ==> (#[trigger] s[i]).id != (#[trigger] s[j]).id)
    &&& (forall|i: int| 0 <= i < s.len() ==> (#[trigger] s[i]).inv())
}

/// Selects the rooms a participant is a member of.
pub open spec fn member_of(uid: EntityId) -> spec_fn(RoomModel) -> bool {
    |m: RoomModel| has_member(m.users, uid)
}

/// A room after renaming the member `uid` to `username` (and the
/// touch that goes with the mutation).
pub open spec fn edited_room(m: RoomModel, uid: EntityId, username: String, now: i64) -> RoomModel {
    RoomModel { users: m.users.map_values(rename_member(uid, username)), last_active: now, ..m }
}

/// The snapshot such a rename publishes.
pub open spec fn edited_snapshot(uid: EntityId, username: String, now: i64) -> spec_fn(
    RoomModel,
) -> RoomModel {
    |m: RoomModel| edited_room(m, uid, username, now).publishable()
}

/// A room after participant `uid` departed: removed from the members,
/// its table entry purged, the owner cleared if it was the owner.
pub open spec fn departed_room(m: RoomModel, uid: EntityId, now: i64) -> RoomModel {
    RoomModel {
        users: m.users.filter(keep_other_users(uid)),
        table: m.table.filter(keep_other_entries(uid)),
        room_owner_id: if m.room_owner_id == Some(uid) {
            None
        } else {
            m.room_owner_id
        },
        last_active: now,
        ..m
    }
}

/// The snapshot such a departure publishes.
pub open spec fn departed_snapshot(uid: EntityId, now: i64) -> spec_fn(RoomModel) -> RoomModel {
    |m: RoomModel| departed_room(m, uid, now).publishable()
}

/// A room with `id` stands at index `i`; with distinct ids that index
/// is the one `room_index` denotes.
pub proof fn lemma_room_index_unique(s: Seq<RoomModel>, id: EntityId, i: int)
    requires
        forall|a: int, b: int| 0 <= a < b < s.len() ==> (#[trigger] s[a]).id != (#[trigger] s[b]).id,
        0 <= i < s.len(),
        s[i].id == id,
    ensures
        contains_room(s, id),
        room_index(s, id) == i,
{
    assert(contains_room(s, id));
    let k = room_index(s, id);
    assert(0 <= k < s.len() && s[k].id == id);
    if k < i {
        assert(s[k].id != s[i].id);
    } else if k > i {
        assert(s[i].id != s[k].id);
    }
}

/// Replacing a room by one with the same id and a valid state keeps
/// the store invariant.
pub proof fn lemma_store_update(s: Seq<RoomModel>, i: int, m: RoomModel)
    requires
        store_inv(s),
        0 <= i < s.len(),
        m.inv(),
        m.id == s[i].id,
    ensures
        store_inv(s.update(i, m)),
{
    let t = s.update(i, m);
    assert forall|a: int, b: int| 0 <= a < b < t.len() implies (#[trigger] t[a]).id != (
    #[trigger] t[b]).id by {
        assert(s[a].id != s[b].id);
    }
    assert forall|a: int| 0 <= a < t.len() implies (#[trigger] t[a]).inv() by {
        if a != i {
            assert(t[a] == s[a]);
        }
    }
}

/// The single shared collection of room aggregates.
pub struct RoomStore {
    pub rooms: Vec<Room>,
}

impl View for RoomStore {
    type V = Seq<RoomModel>;

    open spec fn view(&self) -> Seq<RoomModel> {
        room_views(self.rooms@)
    }
}

impl RoomStore {
    pub open spec fn inv(&self) -> bool {
        store_inv(self@)
    }

    /// An empty store.
    pub fn new() -> (r: RoomStore)
        ensures
            r.inv(),
            r@ == Seq::<RoomModel>::empty(),
    {
        let r = RoomStore { rooms: Vec::new() };
        proof {
            assert(r@ =~= Seq::<RoomModel>::empty());
        }
        r
    }

    /// The index of the room with `room_id`, if present.
    fn index_of_room(&self, room_id: EntityId) -> (r: Option<usize>)
        ensures
            (match r {
                Some(i) => i < self@.len() && self@[i as int].id == room_id,
                None => !contains_room(self@, room_id),
            }),
    {
        let n = self.rooms.len();
        let mut i: usize = 0;
        while i < n
            invariant
                i <= n,
                n == self.rooms@.len(),
                forall|j: int| 0 <= j < i ==> (#[trigger] room_views(self.rooms@)[j]).id
                    != room_id,
            decreases n - i,
        {
            if self.rooms[i].id == room_id {
                proof {
                    assert(room_views(self.rooms@)[i as int].id == room_id);
                }
                return Some(i);
            }
            i += 1;
        }
        None
    }

    /// Deep copies of all rooms, in insertion order. Mutating a copy
    /// never affects stored state.
    pub fn rooms(&self) -> (r: Vec<Room>)
        ensures
            room_views(r@) == self@,
    {
        let n = self.rooms.len();
        let mut out: Vec<Room> = Vec::new();
        let mut i: usize = 0;
        while i < n
            invariant
                i <= n,
                n == self.rooms@.len(),
                out@.len() == i,
                forall|j: int| 0 <= j < i ==> (#[trigger] room_views(out@)[j]) == room_views(
                    self.rooms@,
                )[j],
            decreases n - i,
        {
            let c = self.rooms[i].clone();
            let ghost out_before = out@;
            out.push(c);
            proof {
                assert(out@ == out_before.push(c));
                assert(out_before.len() == i as int);
                assert forall|j: int| 0 <= j < i as int + 1 implies (#[trigger] room_views(out@)[j])
                    == room_views(self.rooms@)[j] by {
                    assert(room_views(out@)[j] == out@[j]@);
                    if j < i as int {
                        assert(out@[j] == out_before[j]);
                        assert(room_views(out_before)[j] == room_views(self.rooms@)[j]);
                        assert(room_views(out_before)[j] == out_before[j]@);
                    } else {
                        assert(out@[j] == c);
                        assert(c@ == self.rooms@[j]@);
                        assert(room_views(self.rooms@)[j] == self.rooms@[j]@);
                    }
                }
            }
            i += 1;
        }
        proof {
            assert(room_views(out@) =~= self@);
        }
        out
    }

    /// A deep copy of the room with `room_id`, if present.
    pub fn room_by_id(&self, room_id: EntityId) -> (r: Option<Room>)
        requires
            self.inv(),
        ensures
            (match r {
                Some(room) => contains_room(self@, room_id) && room@ == self@[room_index(
                    self@,
                    room_id,
                )],
                None => !contains_room(self@, room_id),
            }),
    {
        match self.index_of_room(room_id) {
            Some(i) => {
                proof {
                    lemma_room_index_unique(self@, room_id, i as int);
                }
                Some(self.rooms[i].clone())
            },
            None => None,
        }
    }

    /// Deep copies of the rooms `user_id` is a member of, in store
    /// order.
    pub fn user_rooms(&self, user_id: EntityId) -> (r: Vec<Room>)
        ensures
            room_views(r@) == self@.filter(member_of(user_id)),
    {
        let n = self.rooms.len();
        let mut out: Vec<Room> = Vec::new();
        let mut i: usize = 0;
        while i < n
            invariant
                i <= n,
                n == self.rooms@.len(),
                room_views(out@) == self@.subrange(0, i as int).filter(member_of(user_id)),
            decreases n - i,
        {
            let ghost prefix = self@.subrange(0, i as int);
            let ghost out_before = out@;
            if self.rooms[i].is_user_exist(user_id) {
                out.push(self.rooms[i].clone());
                proof {
                    assert(member_of(user_id)(self@[i as int]));
                    assert(room_views(out@) =~= room_views(out_before).push(self@[i as int]));
                }
            } else {
                proof {
                    assert(!member_of(user_id)(self@[i as int]));
                }
            }
            proof {
                assert(self@.subrange(0, i as int + 1) =~= prefix.push(self@[i as int]));
                crate::seq_util::lemma_filter_push(prefix, self@[i as int], member_of(user_id));
            }
            i += 1;
        }
        proof {
            assert(self@.subrange(0, n as int) =~= self@);
        }
        out
    }

    /// Removes the room with `room_id`, returning it, or nothing when
    /// it is already absent — a benign race with another remover, not
    /// an error. Does not publish: an eviction's lifecycle event is the
    /// sweeper's business.
    pub fn remove(&mut self, room_id: EntityId) -> (r: Option<Room>)
        requires
            old(self).inv(),
        ensures
            final(self).inv(),
            (match r {
                Some(room) => {
                    &&& contains_room(old(self)@, room_id)
                    &&& room@ == old(self)@[room_index(old(self)@, room_id)]
                    &&& final(self)@ == old(self)@.remove(room_index(old(self)@, room_id))
                },
                None => !contains_room(old(self)@, room_id) && final(self)@ == old(self)@,
            }),
    {
        match self.index_of_room(room_id) {
            Some(i) => {
                proof {
                    lemma_room_index_unique(old(self)@, room_id, i as int);
                }
                let room = self.rooms.remove(i);
                proof {
                    assert(self@ =~= old(self)@.remove(i as int));
                    assert forall|a: int, b: int| 0 <= a < b < self@.len() implies (
                    #[trigger] self@[a]).id != (#[trigger] self@[b]).id by {
                        let iv = i as int;
                        let a0: int = if a < iv {
                            a
                        } else {
                            a + 1
                        };
                        let b0: int = if b < iv {
                            b
                        } else {
                            b + 1
                        };
                        assert(old(self)@[a0].id != old(self)@[b0].id);
                    }
                }
                Some(room)
            },
            None => None,
        }
    }

    /// Creates a room: a caller-supplied id must be free, a missing id
    /// is drawn freshly (and, on the freak chance the draw collides,
    /// the creation is refused rather than a room replaced). The new
    /// room is stamped `now` and its snapshot published.
    pub fn create_room(
        &mut self,
        hub: &mut Hub<Room>,
        id: Option<EntityId>,
        name: Option<String>,
        cards: Vec<Card>,
        now: i64,
    ) -> (r: Result<Room, DomainError>)
        requires
            old(self).inv(),
            old(hub).inv(),
        ensures
            final(self).inv(),
            final(hub).inv(),
            final(hub)@.next_id == old(hub)@.next_id,
            (match r {
                Ok(snap) => {
                    &&& !contains_room(old(self)@, snap@.id)
                    &&& (id matches Some(given) ==> snap@.id == given)
                    &&& final(self)@ == old(self)@.push(
                        (RoomModel {
                            id: snap@.id,
                            name: name,
                            users: Seq::<User>::empty(),
                            banned_users: Seq::<EntityId>::empty(),
                            deck_id: final(self)@.last().deck_id,
                            cards: cards@,
                            table: Seq::<crate::game::UserCard>::empty(),
                            is_game_over: false,
                            room_owner_id: None,
                            countdown_enabled: false,
                            reveal_stage: RevealStage::Idle,
                            confirm_new_game: true,
                            last_active: now,
                            chat_history: Seq::<crate::chat::ChatMessage>::empty(),
                        }),
                    )
                    &&& snap@ == final(self)@.last().publishable()
                    &&& room_published(
                        old(hub)@.subscribers,
                        final(hub)@.subscribers,
                        final(self)@.last().publishable(),
                    )
                },
                Err(e) => {
                    &&& e == DomainError::Conflict
                    &&& (id matches Some(given) ==> contains_room(old(self)@, given))
                    &&& final(self)@ == old(self)@
                    &&& final(hub)@ == old(hub)@
                },
            }),
            (id matches Some(given) && !contains_room(old(self)@, given)) ==> r is Ok,
    {
        let room = Room::new_with_id(id, name, cards, now);
        match self.index_of_room(room.id) {
            Some(_) => Err(DomainError::Conflict),
            None => {
                let snap = room.get_room();
                let published = room.get_room();
                let ghost m = room@;
                self.rooms.push(room);
                hub.publish(published);
                proof {
                    assert(self@ =~= old(self)@.push(m));
                    assert(self@.last() == m);
                    assert forall|a: int, b: int| 0 <= a < b < self@.len() implies (
                    #[trigger] self@[a]).id != (#[trigger] self@[b]).id by {
                        if b == self@.len() - 1 {
                            assert(!contains_room(old(self)@, m.id));
                            assert(old(self)@[a].id != m.id);
                        } else {
                            assert(old(self)@[a].id != old(self)@[b].id);
                        }
                    }
                    lemma_room_publish(old(hub)@.subscribers, hub@.subscribers, published);
                }
                Ok(snap)
            },
        }
    }

    /// Renames the room and publishes the new snapshot.
    pub fn rename_room(
        &mut self,
        hub: &mut Hub<Room>,
        room_id: EntityId,
        name: Option<String>,
        now: i64,
    ) -> (r: Result<Room, DomainError>)
        requires
            old(self).inv(),
            old(hub).inv(),
        ensures
            final(self).inv(),
            final(hub).inv(),
            final(hub)@.next_id == old(hub)@.next_id,
            (match r {
                Ok(snap) => contains_room(old(self)@, room_id) && ({
                    let i = room_index(old(self)@, room_id);
                    let m = (RoomModel { name: name, last_active: now, ..old(self)@[i] });
                    &&& final(self)@ == old(self)@.update(i, m)
                    &&& snap@ == m.publishable()
                    &&& room_published(old(hub)@.subscribers, final(hub)@.subscribers, m.publishable())
                }),
                Err(e) => {
                    &&& e == DomainError::NotFound
                    &&& !contains_room(old(self)@, room_id)
                    &&& final(self)@ == old(self)@
                    &&& final(hub)@ == old(hub)@
                },
            }),
    {
        match self.index_of_room(room_id) {
            None => Err(DomainError::NotFound),
            Some(i) => {
                proof {
                    lemma_room_index_unique(old(self)@, room_id, i as int);
                }
                let mut room = self.rooms.remove(i);
                room.rename(name);
                room.touch_at(now);
                let snap = room.get_room();
                let published = room.get_room();
                let ghost m = room@;
                self.rooms.insert(i, room);
                hub.publish(published);
                proof {
                    assert(self@ =~= old(self)@.update(i as int, m));
                    lemma_store_update(old(self)@, i as int, m);
                    lemma_room_publish(old(hub)@.subscribers, hub@.subscribers, published);
                }
                Ok(snap)
            },
        }
    }

    /// Switches the countdown feature flag and publishes the new
    /// snapshot.
    pub fn toggle_countdown_option(
        &mut self,
        hub: &mut Hub<Room>,
        room_id: EntityId,
        enabled: bool,
        now: i64,
    ) -> (r: Result<Room, DomainError>)
        requires
            old(self).inv(),
            old(hub).inv(),
        ensures
            final(self).inv(),
            final(hub).inv(),
            final(hub)@.next_id == old(hub)@.next_id,
            (match r {
                Ok(snap) => contains_room(old(self)@, room_id) && ({
                    let i = room_index(old(self)@, room_id);
                    let m = (RoomModel {
                        countdown_enabled: enabled,
                        last_active: now,
                        ..old(self)@[i]
                    });
                    &&& final(self)@ == old(self)@.update(i, m)
                    &&& snap@ == m.publishable()
                    &&& room_published(old(hub)@.subscribers, final(hub)@.subscribers, m.publishable())
                }),
                Err(e) => {
                    &&& e == DomainError::NotFound
                    &&& !contains_room(old(self)@, room_id)
                    &&& final(self)@ == old(self)@
                    &&& final(hub)@ == old(hub)@
                },
            }),
    {
        match self.index_of_room(room_id) {
            None => Err(DomainError::NotFound),
            Some(i) => {
                proof {
                    lemma_room_index_unique(old(self)@, room_id, i as int);
                }
                let mut room = self.rooms.remove(i);
                room.enable_countdown(enabled);
                room.touch_at(now);
                let snap = room.get_room();
                let published = room.get_room();
                let ghost m = room@;
                self.rooms.insert(i, room);
                hub.publish(published);
                proof {
                    assert(self@ =~= old(self)@.update(i as int, m));
                    lemma_store_update(old(self)@, i as int, m);
                    lemma_room_publish(old(hub)@.subscribers, hub@.subscribers, published);
                }
                Ok(snap)
            },
        }
    }

    /// Switches the "confirm a new game" hint and publishes the new
    /// snapshot.
    pub fn toggle_confirm_new_game(
        &mut self,
        hub: &mut Hub<Room>,
        room_id: EntityId,
        enabled: bool,
        now: i64,
    ) -> (r: Result<Room, DomainError>)
        requires
            old(self).inv(),
            old(hub).inv(),
        ensures
            final(self).inv(),
            final(hub).inv(),
            final(hub)@.next_id == old(hub)@.next_id,
            (match r {
                Ok(snap) => contains_room(old(self)@, room_id) && ({
                    let i = room_index(old(self)@, room_id);
                    let m = (RoomModel {
                        confirm_new_game: enabled,
                        last_active: now,
                        ..old(self)@[i]
                    });
                    &&& final(self)@ == old(self)@.update(i, m)
                    &&& snap@ == m.publishable()
                    &&& room_published(old(hub)@.subscribers, final(hub)@.subscribers, m.publishable())
                }),
                Err(e) => {
                    &&& e == DomainError::NotFound
                    &&& !contains_room(old(self)@, room_id)
                    &&& final(self)@ == old(self)@
                    &&& final(hub)@ == old(hub)@
                },
            }),
    {
        match self.index_of_room(room_id) {
            None => Err(DomainError::NotFound),
            Some(i) => {
                proof {
                    lemma_room_index_unique(old(self)@, room_id, i as int);
                }
                let mut room = self.rooms.remove(i);
                room.toggle_confirm_new_game(enabled);
                room.touch_at(now);
                let snap = room.get_room();
                let published = room.get_room();
                let ghost m = room@;
                self.rooms.insert(i, room);
                hub.publish(published);
                proof {
                    assert(self@ =~= old(self)@.update(i as int, m));
                    lemma_store_update(old(self)@, i as int, m);
                    lemma_room_publish(old(hub)@.subscribers, hub@.subscribers, published);
                }
                Ok(snap)
            },
        }
    }

    /// Replaces the deck's card labels (the deck keeps its id) and
    /// publishes the new snapshot.
    pub fn update_deck(
        &mut self,
        hub: &mut Hub<Room>,
        room_id: EntityId,
        cards: Vec<Card>,
        now: i64,
    ) -> (r: Result<Room, DomainError>)
        requires
            old(self).inv(),
            old(hub).inv(),
        ensures
            final(self).inv(),
            final(hub).inv(),
            final(hub)@.next_id == old(hub)@.next_id,
            (match r {
                Ok(snap) => contains_room(old(self)@, room_id) && ({
                    let i = room_index(old(self)@, room_id);
                    let m = (RoomModel { cards: cards@, last_active: now, ..old(self)@[i] });
                    &&& final(self)@ == old(self)@.update(i, m)
                    &&& snap@ == m.publishable()
                    &&& room_published(old(hub)@.subscribers, final(hub)@.subscribers, m.publishable())
                }),
                Err(e) => {
                    &&& e == DomainError::NotFound
                    &&& !contains_room(old(self)@, room_id)
                    &&& final(self)@ == old(self)@
                    &&& final(hub)@ == old(hub)@
                },
            }),
    {
        match self.index_of_room(room_id) {
            None => Err(DomainError::NotFound),
            Some(i) => {
                proof {
                    lemma_room_index_unique(old(self)@, room_id, i as int);
                }
                let mut room = self.rooms.remove(i);
                room.deck = crate::deck::Deck { id: room.deck.id, cards };
                room.touch_at(now);
                let snap = room.get_room();
                let published = room.get_room();
                let ghost m = room@;
                self.rooms.insert(i, room);
                hub.publish(published);
                proof {
                    assert(self@ =~= old(self)@.update(i as int, m));
                    assert(m.inv());
                    lemma_store_update(old(self)@, i as int, m);
                    lemma_room_publish(old(hub)@.subscribers, hub@.subscribers, published);
                }
                Ok(snap)
            },
        }
    }

    /// Makes all selections visible ("show cards") and publishes the
    /// now-unredacted snapshot.
    pub fn show_cards(&mut self, hub: &mut Hub<Room>, room_id: EntityId, now: i64) -> (r: Result<
        Room,
        DomainError,
    >)
        requires
            old(self).inv(),
            old(hub).inv(),
        ensures
            final(self).inv(),
            final(hub).inv(),
            final(hub)@.next_id == old(hub)@.next_id,
            (match r {
                Ok(snap) => contains_room(old(self)@, room_id) && ({
                    let i = room_index(old(self)@, room_id);
                    let m = (RoomModel { is_game_over: true, last_active: now, ..old(self)@[i] });
                    &&& final(self)@ == old(self)@.update(i, m)
                    &&& snap@ == m.publishable()
                    &&& room_published(old(hub)@.subscribers, final(hub)@.subscribers, m.publishable())
                }),
                Err(e) => {
                    &&& e == DomainError::NotFound
                    &&& !contains_room(old(self)@, room_id)
                    &&& final(self)@ == old(self)@
                    &&& final(hub)@ == old(hub)@
                },
            }),
    {
        match self.index_of_room(room_id) {
            None => Err(DomainError::NotFound),
            Some(i) => {
                proof {
                    lemma_room_index_unique(old(self)@, room_id, i as int);
                }
                let mut room = self.rooms.remove(i);
                room.is_game_over = true;
                room.touch_at(now);
                let snap = room.get_room();
                let published = room.get_room();
                let ghost m = room@;
                self.rooms.insert(i, room);
                hub.publish(published);
                proof {
                    assert(self@ =~= old(self)@.update(i as int, m));
                    lemma_store_update(old(self)@, i as int, m);
                    lemma_room_publish(old(hub)@.subscribers, hub@.subscribers, published);
                }
                Ok(snap)
            },
        }
    }

    /// Starts a new round: hides selections and clears the table, and
    /// publishes the new snapshot.
    pub fn reset_game(&mut self, hub: &mut Hub<Room>, room_id: EntityId, now: i64) -> (r: Result<
        Room,
        DomainError,
    >)
        requires
            old(self).inv(),
            old(hub).inv(),
        ensures
            final(self).inv(),
            final(hub).inv(),
            final(hub)@.next_id == old(hub)@.next_id,
            (match r {
                Ok(snap) => contains_room(old(self)@, room_id) && ({
                    let i = room_index(old(self)@, room_id);
                    let m = (RoomModel {
                        is_game_over: false,
                        table: Seq::<crate::game::UserCard>::empty(),
                        last_active: now,
                        ..old(self)@[i]
                    });
                    &&& final(self)@ == old(self)@.update(i, m)
                    &&& snap@ == m.publishable()
                    &&& room_published(old(hub)@.subscribers, final(hub)@.subscribers, m.publishable())
                }),
                Err(e) => {
                    &&& e == DomainError::NotFound
                    &&& !contains_room(old(self)@, room_id)
                    &&& final(self)@ == old(self)@
                    &&& final(hub)@ == old(hub)@
                },
            }),
    {
        match self.index_of_room(room_id) {
            None => Err(DomainError::NotFound),
            Some(i) => {
                proof {
                    lemma_room_index_unique(old(self)@, room_id, i as int);
                }
                let mut room = self.rooms.remove(i);
                room.is_game_over = false;
                room.game = crate::game::Game::new();
                room.touch_at(now);
                let snap = room.get_room();
                let published = room.get_room();
                let ghost m = room@;
                self.rooms.insert(i, room);
                hub.publish(published);
                proof {
                    assert(self@ =~= old(self)@.update(i as int, m));
                    assert(m.inv());
                    lemma_store_update(old(self)@, i as int, m);
                    lemma_room_publish(old(hub)@.subscribers, hub@.subscribers, published);
                }
                Ok(snap)
            },
        }
    }

    /// Lifts a ban and publishes the new snapshot. Unbanning an id that
    /// is not banned is a no-op that still succeeds.
    pub fn unban_user(
        &mut self,
        hub: &mut Hub<Room>,
        room_id: EntityId,
        target_user_id: EntityId,
        now: i64,
    ) -> (r: Result<Room, DomainError>)
        requires
            old(self).inv(),
            old(hub).inv(),
        ensures
            final(self).inv(),
            final(hub).inv(),
            final(hub)@.next_id == old(hub)@.next_id,
            (match r {
                Ok(snap) => contains_room(old(self)@, room_id) && ({
                    let i = room_index(old(self)@, room_id);
                    let m = (RoomModel {
                        banned_users: old(self)@[i].banned_users.filter(
                            keep_other_ids(target_user_id),
                        ),
                        last_active: now,
                        ..old(self)@[i]
                    });
                    &&& final(self)@ == old(self)@.update(i, m)
                    &&& snap@ == m.publishable()
                    &&& room_published(old(hub)@.subscribers, final(hub)@.subscribers, m.publishable())
                }),
                Err(e) => {
                    &&& e == DomainError::NotFound
                    &&& !contains_room(old(self)@, room_id)
                    &&& final(self)@ == old(self)@
                    &&& final(hub)@ == old(hub)@
                },
            }),
    {
        match self.index_of_room(room_id) {
            None => Err(DomainError::NotFound),
            Some(i) => {
                proof {
                    lemma_room_index_unique(old(self)@, room_id, i as int);
                }
                let mut room = self.rooms.remove(i);
                room.unban_user(target_user_id);
                room.touch_at(now);
                let snap = room.get_room();
                let published = room.get_room();
                let ghost m = room@;
                self.rooms.insert(i, room);
                hub.publish(published);
                proof {
                    assert(self@ =~= old(self)@.update(i as int, m));
                    lemma_store_update(old(self)@, i as int, m);
                    lemma_room_publish(old(hub)@.subscribers, hub@.subscribers, published);
                }
                Ok(snap)
            },
        }
    }

    /// Detaches a participant ("kick"): removes it from the members and
    /// purges its table entry, publishes the new snapshot and a
    /// `Kicked` lifecycle event naming the target.
    pub fn kick_user(
        &mut self,
        hub: &mut Hub<Room>,
        events: &mut Hub<RoomEvent>,
        room_id: EntityId,
        target_user_id: EntityId,
        now: i64,
    ) -> (r: Result<Room, DomainError>)
        requires
            old(self).inv(),
            old(hub).inv(),
            old(events).inv(),
        ensures
            final(self).inv(),
            final(hub).inv(),
            final(events).inv(),
            final(hub)@.next_id == old(hub)@.next_id,
            final(events)@.next_id == old(events)@.next_id,
            (match r {
                Ok(snap) => contains_room(old(self)@, room_id) && ({
                    let i = room_index(old(self)@, room_id);
                    let m = (RoomModel {
                        users: old(self)@[i].users.filter(keep_other_users(target_user_id)),
                        table: old(self)@[i].table.filter(keep_other_entries(target_user_id)),
                        room_owner_id: if old(self)@[i].room_owner_id == Some(target_user_id) {
                            None
                        } else {
                            old(self)@[i].room_owner_id
                        },
                        last_active: now,
                        ..old(self)@[i]
                    });
                    &&& final(self)@ == old(self)@.update(i, m)
                    &&& snap@ == m.publishable()
                    &&& room_published(old(hub)@.subscribers, final(hub)@.subscribers, m.publishable())
                    &&& lifecycle_published(
                        old(events)@.subscribers,
                        final(events)@.subscribers,
                        (RoomEventModel {
                            room_id: room_id,
                            event_type: EventKind::Kicked,
                            target_user_id: Some(target_user_id),
                            room: m.publishable(),
                        }),
                    )
                }),
                Err(e) => {
                    &&& e == DomainError::NotFound
                    &&& !contains_room(old(self)@, room_id)
                    &&& final(self)@ == old(self)@
                    &&& final(hub)@ == old(hub)@
                    &&& final(events)@ == old(events)@
                },
            }),
    {
        match self.index_of_room(room_id) {
            None => Err(DomainError::NotFound),
            Some(i) => {
                proof {
                    lemma_room_index_unique(old(self)@, room_id, i as int);
                }
                let mut room = self.rooms.remove(i);
                room.kick_user(target_user_id);
                room.touch_at(now);
                let snap = room.get_room();
                let published = room.get_room();
                let ev = RoomEvent {
                    room_id,
                    event_type: EventKind::Kicked,
                    target_user_id: Some(target_user_id),
                    room: room.get_room(),
                };
                let ghost m = room@;
                self.rooms.insert(i, room);
                hub.publish(published);
                events.publish(ev);
                proof {
                    assert(self@ =~= old(self)@.update(i as int, m));
                    lemma_store_update(old(self)@, i as int, m);
                    lemma_room_publish(old(hub)@.subscribers, hub@.subscribers, published);
                    lemma_lifecycle_publish(old(events)@.subscribers, events@.subscribers, ev);
                }
                Ok(snap)
            },
        }
    }

    /// Detaches a participant and bans its id (idempotently), then
    /// publishes the new snapshot and a `Banned` lifecycle event.
    /// Banning a participant already absent still records the ban.
    pub fn ban_user(
        &mut self,
        hub: &mut Hub<Room>,
        events: &mut Hub<RoomEvent>,
        room_id: EntityId,
        target_user_id: EntityId,
        now: i64,
    ) -> (r: Result<Room, DomainError>)
        requires
            old(self).inv(),
            old(hub).inv(),
            old(events).inv(),
        ensures
            final(self).inv(),
            final(hub).inv(),
            final(events).inv(),
            final(hub)@.next_id == old(hub)@.next_id,
            final(events)@.next_id == old(events)@.next_id,
            (match r {
                Ok(snap) => contains_room(old(self)@, room_id) && ({
                    let i = room_index(old(self)@, room_id);
                    let m = (RoomModel {
                        users: old(self)@[i].users.filter(keep_other_users(target_user_id)),
                        table: old(self)@[i].table.filter(keep_other_entries(target_user_id)),
                        room_owner_id: if old(self)@[i].room_owner_id == Some(target_user_id) {
                            None
                        } else {
                            old(self)@[i].room_owner_id
                        },
                        banned_users: if old(self)@[i].banned_users.contains(target_user_id) {
                            old(self)@[i].banned_users
                        } else {
                            old(self)@[i].banned_users.push(target_user_id)
                        },
                        last_active: now,
                        ..old(self)@[i]
                    });
                    &&& final(self)@ == old(self)@.update(i, m)
                    &&& snap@ == m.publishable()
                    &&& room_published(old(hub)@.subscribers, final(hub)@.subscribers, m.publishable())
                    &&& lifecycle_published(
                        old(events)@.subscribers,
                        final(events)@.subscribers,
                        (RoomEventModel {
                            room_id: room_id,
                            event_type: EventKind::Banned,
                            target_user_id: Some(target_user_id),
                            room: m.publishable(),
                        }),
                    )
                }),
                Err(e) => {
                    &&& e == DomainError::NotFound
                    &&& !contains_room(old(self)@, room_id)
                    &&& final(self)@ == old(self)@
                    &&& final(hub)@ == old(hub)@
                    &&& final(events)@ == old(events)@
                },
            }),
    {
        match self.index_of_room(room_id) {
            None => Err(DomainError::NotFound),
            Some(i) => {
                proof {
                    lemma_room_index_unique(old(self)@, room_id, i as int);
                }
                let mut room = self.rooms.remove(i);
                room.ban_user(target_user_id);
                room.touch_at(now);
                let snap = room.get_room();
                let published = room.get_room();
                let ev = RoomEvent {
                    room_id,
                    event_type: EventKind::Banned,
                    target_user_id: Some(target_user_id),
                    room: room.get_room(),
                };
                let ghost m = room@;
                self.rooms.insert(i, room);
                hub.publish(published);
                events.publish(ev);
                proof {
                    assert(self@ =~= old(self)@.update(i as int, m));
                    lemma_store_update(old(self)@, i as int, m);
                    lemma_room_publish(old(hub)@.subscribers, hub@.subscribers, published);
                    lemma_lifecycle_publish(old(events)@.subscribers, events@.subscribers, ev);
                }
                Ok(snap)
            },
        }
    }

    /// Assigns or clears the room owner. Assigning an id that is not a
    /// current member fails with `InvalidState` and changes nothing.
    pub fn set_room_owner(
        &mut self,
        hub: &mut Hub<Room>,
        room_id: EntityId,
        user_id: Option<EntityId>,
        now: i64,
    ) -> (r: Result<Room, DomainError>)
        requires
            old(self).inv(),
            old(hub).inv(),
        ensures
            final(self).inv(),
            final(hub).inv(),
            final(hub)@.next_id == old(hub)@.next_id,
            (match r {
                Ok(snap) => contains_room(old(self)@, room_id) && ({
                    let i = room_index(old(self)@, room_id);
                    let m = (RoomModel {
                        room_owner_id: user_id,
                        last_active: now,
                        ..old(self)@[i]
                    });
                    &&& (user_id matches Some(uid) ==> has_member(old(self)@[i].users, uid))
                    &&& final(self)@ == old(self)@.update(i, m)
                    &&& snap@ == m.publishable()
                    &&& room_published(old(hub)@.subscribers, final(hub)@.subscribers, m.publishable())
                }),
                Err(e) => final(self)@ == old(self)@ && final(hub)@ == old(hub)@ && {
                    ||| (e == DomainError::NotFound && !contains_room(old(self)@, room_id))
                    ||| (e == DomainError::InvalidState && contains_room(old(self)@, room_id)
                        && (user_id matches Some(uid) && !has_member(
                        old(self)@[room_index(old(self)@, room_id)].users,
                        uid,
                    )))
                },
            }),
    {
        match self.index_of_room(room_id) {
            None => Err(DomainError::NotFound),
            Some(i) => {
                proof {
                    lemma_room_index_unique(old(self)@, room_id, i as int);
                }
                let mut room = self.rooms.remove(i);
                match room.set_room_owner(user_id) {
                    Err(e) => {
                        self.rooms.insert(i, room);
                        proof {
                            assert(self@ =~= old(self)@);
                        }
                        Err(e)
                    },
                    Ok(()) => {
                        room.touch_at(now);
                        let snap = room.get_room();
                        let published = room.get_room();
                        let ghost m = room@;
                        self.rooms.insert(i, room);
                        hub.publish(published);
                        proof {
                            assert(self@ =~= old(self)@.update(i as int, m));
                            lemma_store_update(old(self)@, i as int, m);
                            lemma_room_publish(old(hub)@.subscribers, hub@.subscribers, published);
                        }
                        Ok(snap)
                    },
                }
            },
        }
    }

    /// Records a participant's pick (or clears it, on a blank label)
    /// and publishes the new snapshot. A pick by a participant that is
    /// not a member fails with `InvalidState` and changes nothing, so
    /// the table keys stay a subset of the member ids.
    pub fn pick_card(
        &mut self,
        hub: &mut Hub<Room>,
        user_id: EntityId,
        room_id: EntityId,
        card: Card,
        now: i64,
    ) -> (r: Result<Room, DomainError>)
        requires
            old(self).inv(),
            old(hub).inv(),
        ensures
            final(self).inv(),
            final(hub).inv(),
            final(hub)@.next_id == old(hub)@.next_id,
            (match r {
                Ok(snap) => contains_room(old(self)@, room_id) && ({
                    let i = room_index(old(self)@, room_id);
                    let m = (RoomModel {
                        table: if trimmed_of(card@).len() == 0 {
                            old(self)@[i].table.filter(keep_other_entries(user_id))
                        } else {
                            old(self)@[i].table.filter(keep_other_entries(user_id)).push(
                                (UserCard { user_id: user_id, card: Some(card) }),
                            )
                        },
                        last_active: now,
                        ..old(self)@[i]
                    });
                    &&& has_member(old(self)@[i].users, user_id)
                    &&& final(self)@ == old(self)@.update(i, m)
                    &&& snap@ == m.publishable()
                    &&& room_published(old(hub)@.subscribers, final(hub)@.subscribers, m.publishable())
                }),
                Err(e) => final(self)@ == old(self)@ && final(hub)@ == old(hub)@ && {
                    ||| (e == DomainError::NotFound && !contains_room(old(self)@, room_id))
                    ||| (e == DomainError::InvalidState && contains_room(old(self)@, room_id)
                        && !has_member(old(self)@[room_index(old(self)@, room_id)].users, user_id))
                },
            }),
    {
        match self.index_of_room(room_id) {
            None => Err(DomainError::NotFound),
            Some(i) => {
                proof {
                    lemma_room_index_unique(old(self)@, room_id, i as int);
                }
                let mut room = self.rooms.remove(i);
                match room.pick_card(user_id, card) {
                    Err(e) => {
                        self.rooms.insert(i, room);
                        proof {
                            assert(self@ =~= old(self)@);
                        }
                        Err(e)
                    },
                    Ok(()) => {
                        room.touch_at(now);
                        let snap = room.get_room();
                        let published = room.get_room();
                        let ghost m = room@;
                        self.rooms.insert(i, room);
                        hub.publish(published);
                        proof {
                            assert(self@ =~= old(self)@.update(i as int, m));
                            lemma_store_update(old(self)@, i as int, m);
                            lemma_room_publish(old(hub)@.subscribers, hub@.subscribers, published);
                        }
                        Ok(snap)
                    },
                }
            },
        }
    }

    /// Attaches a participant to a room. A banned id is refused with
    /// `Forbidden`; a participant already present gets the current
    /// snapshot back with nothing mutated or published. A new
    /// participant may rename the room on the way in; the join is
    /// published.
    pub fn join_room(
        &mut self,
        hub: &mut Hub<Room>,
        room_id: EntityId,
        user: UserInput,
        now: i64,
    ) -> (r: Result<Room, DomainError>)
        requires
            old(self).inv(),
            old(hub).inv(),
        ensures
            final(self).inv(),
            final(hub).inv(),
            final(hub)@.next_id == old(hub)@.next_id,
            (match r {
                Ok(snap) => contains_room(old(self)@, room_id) && ({
                    let i = room_index(old(self)@, room_id);
                    &&& !old(self)@[i].banned_users.contains(user.id)
                    &&& if has_member(old(self)@[i].users, user.id) {
                        &&& snap@ == old(self)@[i].publishable()
                        &&& final(self)@ == old(self)@
                        &&& final(hub)@ == old(hub)@
                    } else {
                        let m = (RoomModel {
                            name: if user.room_name is Some {
                                user.room_name
                            } else {
                                old(self)@[i].name
                            },
                            users: old(self)@[i].users.push(
                                (User {
                                    id: user.id,
                                    username: user.username,
                                    last_card_picked: user.last_card_picked,
                                }),
                            ),
                            last_active: now,
                            ..old(self)@[i]
                        });
                        &&& final(self)@ == old(self)@.update(i, m)
                        &&& snap@ == m.publishable()
                        &&& room_published(
                            old(hub)@.subscribers,
                            final(hub)@.subscribers,
                            m.publishable(),
                        )
                    }
                }),
                Err(e) => final(self)@ == old(self)@ && final(hub)@ == old(hub)@ && {
                    ||| (e == DomainError::NotFound && !contains_room(old(self)@, room_id))
                    ||| (e == DomainError::Forbidden && contains_room(old(self)@, room_id)
                        && old(self)@[room_index(old(self)@, room_id)].banned_users.contains(
                        user.id,
                    ))
                },
            }),
    {
        match self.index_of_room(room_id) {
            None => Err(DomainError::NotFound),
            Some(i) => {
                proof {
                    lemma_room_index_unique(old(self)@, room_id, i as int);
                }
                let mut room = self.rooms.remove(i);
                if room.is_banned(user.id) {
                    self.rooms.insert(i, room);
                    proof {
                        assert(self@ =~= old(self)@);
                    }
                    return Err(DomainError::Forbidden);
                }
                if room.is_user_exist(user.id) {
                    let snap = room.get_room();
                    self.rooms.insert(i, room);
                    proof {
                        assert(self@ =~= old(self)@);
                    }
                    return Ok(snap);
                }
                let UserInput { id, username, room_name, last_card_picked } = user;
                match room_name {
                    Some(n) => room.rename(Some(n)),
                    None => (),
                }
                room.add_user(User { id, username, last_card_picked });
                room.touch_at(now);
                let snap = room.get_room();
                let published = room.get_room();
                let ghost m = room@;
                self.rooms.insert(i, room);
                hub.publish(published);
                proof {
                    assert(self@ =~= old(self)@.update(i as int, m));
                    lemma_store_update(old(self)@, i as int, m);
                    lemma_room_publish(old(hub)@.subscribers, hub@.subscribers, published);
                }
                Ok(snap)
            },
        }
    }

    /// Enters the reveal countdown at tick 3: only the owner may start
    /// it (when one is set), and only with the feature enabled. The
    /// entry is published; the caller then drives the ticks, releasing
    /// the store between them.
    pub fn start_reveal_countdown(
        &mut self,
        hub: &mut Hub<Room>,
        room_id: EntityId,
        user_id: Option<EntityId>,
        now: i64,
    ) -> (r: Result<Room, DomainError>)
        requires
            old(self).inv(),
            old(hub).inv(),
        ensures
            final(self).inv(),
            final(hub).inv(),
            final(hub)@.next_id == old(hub)@.next_id,
            (match r {
                Ok(snap) => contains_room(old(self)@, room_id) && ({
                    let i = room_index(old(self)@, room_id);
                    let m = (RoomModel {
                        reveal_stage: RevealStage::Countdown(3),
                        last_active: now,
                        ..old(self)@[i]
                    });
                    &&& (user_id matches Some(uid) ==> old(self)@[i].room_owner_id == Some(uid))
                    &&& old(self)@[i].countdown_enabled
                    &&& final(self)@ == old(self)@.update(i, m)
                    &&& snap@ == m.publishable()
                    &&& room_published(old(hub)@.subscribers, final(hub)@.subscribers, m.publishable())
                }),
                Err(e) => final(self)@ == old(self)@ && final(hub)@ == old(hub)@ && ({
                    ||| (e == DomainError::NotFound && !contains_room(old(self)@, room_id))
                    ||| (e == DomainError::Forbidden && contains_room(old(self)@, room_id)
                        && (user_id matches Some(uid) && old(self)@[room_index(
                        old(self)@,
                        room_id,
                    )].room_owner_id != Some(uid)))
                    ||| (e == DomainError::InvalidState && contains_room(old(self)@, room_id)
                        && !old(self)@[room_index(old(self)@, room_id)].countdown_enabled)
                }),
            }),
    {
        match self.index_of_room(room_id) {
            None => Err(DomainError::NotFound),
            Some(i) => {
                proof {
                    lemma_room_index_unique(old(self)@, room_id, i as int);
                }
                let mut room = self.rooms.remove(i);
                let allowed: bool = match user_id {
                    Some(uid) => match room.room_owner_id {
                        Some(owner) => owner == uid,
                        None => false,
                    },
                    None => true,
                };
                if !allowed {
                    self.rooms.insert(i, room);
                    proof {
                        assert(self@ =~= old(self)@);
                    }
                    return Err(DomainError::Forbidden);
                }
                if !room.countdown_enabled {
                    self.rooms.insert(i, room);
                    proof {
                        assert(self@ =~= old(self)@);
                    }
                    return Err(DomainError::InvalidState);
                }
                room.start_countdown();
                room.touch_at(now);
                let snap = room.get_room();
                let published = room.get_room();
                let ghost m = room@;
                self.rooms.insert(i, room);
                hub.publish(published);
                proof {
                    assert(self@ =~= old(self)@.update(i as int, m));
                    lemma_store_update(old(self)@, i as int, m);
                    lemma_room_publish(old(hub)@.subscribers, hub@.subscribers, published);
                }
                Ok(snap)
            },
        }
    }

    /// One wake-up of the countdown controller: with the store
    /// re-acquired, re-read the stage before mutating, because a
    /// cancellation may have happened while the controller slept.
    /// A `Cancelled` stage publishes the cancelled snapshot and tells
    /// the controller to stop; a running countdown moves to `remaining`
    /// and publishes; a vanished room tells the controller to go on to
    /// its final step. Ticks refresh no activity timestamp.
    pub fn reveal_countdown_tick(
        &mut self,
        hub: &mut Hub<Room>,
        room_id: EntityId,
        remaining: i32,
    ) -> (t: CountdownTick)
        requires
            old(self).inv(),
            old(hub).inv(),
            0 <= remaining <= 3,
        ensures
            final(self).inv(),
            final(hub).inv(),
            final(hub)@.next_id == old(hub)@.next_id,
            (match t {
                CountdownTick::Missing => {
                    &&& !contains_room(old(self)@, room_id)
                    &&& final(self)@ == old(self)@
                    &&& final(hub)@ == old(hub)@
                },
                CountdownTick::Stopped(snap) => contains_room(old(self)@, room_id) && ({
                    let i = room_index(old(self)@, room_id);
                    &&& old(self)@[i].reveal_stage is Cancelled
                    &&& final(self)@ == old(self)@
                    &&& snap@ == old(self)@[i].publishable()
                    &&& room_published(
                        old(hub)@.subscribers,
                        final(hub)@.subscribers,
                        old(self)@[i].publishable(),
                    )
                }),
                CountdownTick::Proceed(snap) => contains_room(old(self)@, room_id) && ({
                    let i = room_index(old(self)@, room_id);
                    let m = (RoomModel {
                        reveal_stage: if old(self)@[i].reveal_stage is Countdown {
                            RevealStage::Countdown(remaining)
                        } else {
                            old(self)@[i].reveal_stage
                        },
                        ..old(self)@[i]
                    });
                    &&& !(old(self)@[i].reveal_stage is Cancelled)
                    &&& final(self)@ == old(self)@.update(i, m)
                    &&& snap@ == m.publishable()
                    &&& room_published(old(hub)@.subscribers, final(hub)@.subscribers, m.publishable())
                }),
            }),
    {
        match self.index_of_room(room_id) {
            None => CountdownTick::Missing,
            Some(i) => {
                proof {
                    lemma_room_index_unique(old(self)@, room_id, i as int);
                }
                let mut room = self.rooms.remove(i);
                let cancelled: bool = match room.reveal_stage {
                    RevealStage::Cancelled => true,
                    _ => false,
                };
                if cancelled {
                    let snap = room.get_room();
                    let published = room.get_room();
                    self.rooms.insert(i, room);
                    hub.publish(published);
                    proof {
                        assert(self@ =~= old(self)@);
                        lemma_room_publish(old(hub)@.subscribers, hub@.subscribers, published);
                    }
                    CountdownTick::Stopped(snap)
                } else {
                    room.update_countdown_value(remaining);
                    let snap = room.get_room();
                    let published = room.get_room();
                    let ghost m = room@;
                    self.rooms.insert(i, room);
                    hub.publish(published);
                    proof {
                        assert(self@ =~= old(self)@.update(i as int, m));
                        lemma_store_update(old(self)@, i as int, m);
                        lemma_room_publish(old(hub)@.subscribers, hub@.subscribers, published);
                    }
                    CountdownTick::Proceed(snap)
                }
            },
        }
    }

    /// The controller's final step: unless a cancellation won the race,
    /// the stage becomes `Revealed`, selections become visible, and the
    /// unredacted snapshot is published. After a cancellation the
    /// cancelled snapshot is returned with nothing mutated or
    /// published.
    pub fn finish_reveal_countdown(
        &mut self,
        hub: &mut Hub<Room>,
        room_id: EntityId,
        now: i64,
    ) -> (r: Result<Room, DomainError>)
        requires
            old(self).inv(),
            old(hub).inv(),
        ensures
            final(self).inv(),
            final(hub).inv(),
            final(hub)@.next_id == old(hub)@.next_id,
            (match r {
                Ok(snap) => contains_room(old(self)@, room_id) && ({
                    let i = room_index(old(self)@, room_id);
                    if old(self)@[i].reveal_stage is Cancelled {
                        &&& final(self)@ == old(self)@
                        &&& final(hub)@ == old(hub)@
                        &&& snap@ == old(self)@[i].publishable()
                    } else {
                        let m = (RoomModel {
                            reveal_stage: RevealStage::Revealed,
                            is_game_over: true,
                            last_active: now,
                            ..old(self)@[i]
                        });
                        &&& final(self)@ == old(self)@.update(i, m)
                        &&& snap@ == m.publishable()
                        &&& room_published(
                            old(hub)@.subscribers,
                            final(hub)@.subscribers,
                            m.publishable(),
                        )
                    }
                }),
                Err(e) => {
                    &&& e == DomainError::NotFound
                    &&& !contains_room(old(self)@, room_id)
                    &&& final(self)@ == old(self)@
                    &&& final(hub)@ == old(hub)@
                },
            }),
    {
        match self.index_of_room(room_id) {
            None => Err(DomainError::NotFound),
            Some(i) => {
                proof {
                    lemma_room_index_unique(old(self)@, room_id, i as int);
                }
                let mut room = self.rooms.remove(i);
                let cancelled: bool = match room.reveal_stage {
                    RevealStage::Cancelled => true,
                    _ => false,
                };
                if cancelled {
                    let snap = room.get_room();
                    self.rooms.insert(i, room);
                    proof {
                        assert(self@ =~= old(self)@);
                    }
                    Ok(snap)
                } else {
                    room.complete_countdown();
                    room.touch_at(now);
                    let snap = room.get_room();
                    let published = room.get_room();
                    let ghost m = room@;
                    self.rooms.insert(i, room);
                    hub.publish(published);
                    proof {
                        assert(self@ =~= old(self)@.update(i as int, m));
                        lemma_store_update(old(self)@, i as int, m);
                        lemma_room_publish(old(hub)@.subscribers, hub@.subscribers, published);
                    }
                    Ok(snap)
                }
            },
        }
    }

    /// Cancels a reveal countdown: only the owner may (when one is
    /// set). The stage becomes `Cancelled` with no tick value kept;
    /// the controller notices on its next wake-up. The cancellation is
    /// published at once.
    pub fn cancel_reveal_countdown(
        &mut self,
        hub: &mut Hub<Room>,
        room_id: EntityId,
        user_id: Option<EntityId>,
        now: i64,
    ) -> (r: Result<Room, DomainError>)
        requires
            old(self).inv(),
            old(hub).inv(),
        ensures
            final(self).inv(),
            final(hub).inv(),
            final(hub)@.next_id == old(hub)@.next_id,
            (match r {
                Ok(snap) => contains_room(old(self)@, room_id) && ({
                    let i = room_index(old(self)@, room_id);
                    let m = (RoomModel {
                        reveal_stage: RevealStage::Cancelled,
                        last_active: now,
                        ..old(self)@[i]
                    });
                    &&& (user_id matches Some(uid) ==> old(self)@[i].room_owner_id == Some(uid))
                    &&& final(self)@ == old(self)@.update(i, m)
                    &&& snap@ == m.publishable()
                    &&& room_published(old(hub)@.subscribers, final(hub)@.subscribers, m.publishable())
                }),
                Err(e) => final(self)@ == old(self)@ && final(hub)@ == old(hub)@ && ({
                    ||| (e == DomainError::NotFound && !contains_room(old(self)@, room_id))
                    ||| (e == DomainError::Forbidden && contains_room(old(self)@, room_id)
                        && (user_id matches Some(uid) && old(self)@[room_index(
                        old(self)@,
                        room_id,
                    )].room_owner_id != Some(uid)))
                }),
            }),
    {
        match self.index_of_room(room_id) {
            None => Err(DomainError::NotFound),
            Some(i) => {
                proof {
                    lemma_room_index_unique(old(self)@, room_id, i as int);
                }
                let mut room = self.rooms.remove(i);
                let allowed: bool = match user_id {
                    Some(uid) => match room.room_owner_id {
                        Some(owner) => owner == uid,
                        None => false,
                    },
                    None => true,
                };
                if !allowed {
                    self.rooms.insert(i, room);
                    proof {
                        assert(self@ =~= old(self)@);
                    }
                    return Err(DomainError::Forbidden);
                }
                room.cancel_countdown();
                room.touch_at(now);
                let snap = room.get_room();
                let published = room.get_room();
                let ghost m = room@;
                self.rooms.insert(i, room);
                hub.publish(published);
                proof {
                    assert(self@ =~= old(self)@.update(i as int, m));
                    lemma_store_update(old(self)@, i as int, m);
                    lemma_room_publish(old(hub)@.subscribers, hub@.subscribers, published);
                }
                Ok(snap)
            },
        }
    }

    /// Appends a chat message to the room's log and delivers it to the
    /// chat subscribers.
    pub fn post_chat_message(
        &mut self,
        chat_hub: &mut Hub<ChatMessage>,
        room_id: EntityId,
        message: ChatMessage,
        now: i64,
    ) -> (r: Result<(), DomainError>)
        requires
            old(self).inv(),
            old(chat_hub).inv(),
        ensures
            final(self).inv(),
            final(chat_hub).inv(),
            final(chat_hub)@.next_id == old(chat_hub)@.next_id,
            (match r {
                Ok(u) => contains_room(old(self)@, room_id) && ({
                    let i = room_index(old(self)@, room_id);
                    let m = (RoomModel {
                        chat_history: old(self)@[i].chat_history.push(message),
                        last_active: now,
                        ..old(self)@[i]
                    });
                    &&& final(self)@ == old(self)@.update(i, m)
                    &&& crate::hub::publish_post(
                        old(chat_hub)@.subscribers,
                        final(chat_hub)@.subscribers,
                        message,
                    )
                }),
                Err(e) => {
                    &&& e == DomainError::NotFound
                    &&& !contains_room(old(self)@, room_id)
                    &&& final(self)@ == old(self)@
                    &&& final(chat_hub)@ == old(chat_hub)@
                },
            }),
    {
        match self.index_of_room(room_id) {
            None => Err(DomainError::NotFound),
            Some(i) => {
                proof {
                    lemma_room_index_unique(old(self)@, room_id, i as int);
                }
                let mut room = self.rooms.remove(i);
                room.add_chat_message(message.clone());
                room.touch_at(now);
                let ghost m = room@;
                self.rooms.insert(i, room);
                chat_hub.publish(message);
                proof {
                    assert(m.chat_history =~= old(self)@[i as int].chat_history.push(m.chat_history.last()));
                    assert(self@ =~= old(self)@.update(i as int, m));
                    lemma_store_update(old(self)@, i as int, m);
                }
                Ok(())
            },
        }
    }

    /// Renames a participant in every room it is a member of,
    /// publishing each affected room's new snapshot in store order, and
    /// returns the renamed participant.
    pub fn edit_user(
        &mut self,
        hub: &mut Hub<Room>,
        user_id: EntityId,
        username: String,
        now: i64,
    ) -> (r: User)
        requires
            old(self).inv(),
            old(hub).inv(),
        ensures
            final(self).inv(),
            final(hub).inv(),
            final(hub)@.next_id == old(hub)@.next_id,
            final(self)@.len() == old(self)@.len(),
            forall|j: int|
                0 <= j < old(self)@.len() ==> #[trigger] final(self)@[j] == (if member_of(user_id)(
                    old(self)@[j],
                ) {
                    edited_room(old(self)@[j], user_id, username, now)
                } else {
                    old(self)@[j]
                }),
            published_in_order(
                room_publish_step(),
                old(hub)@.subscribers,
                final(hub)@.subscribers,
                old(self)@.filter(member_of(user_id)).map_values(
                    edited_snapshot(user_id, username, now),
                ),
            ),
            r.id == user_id,
            r.username == username,
            r.last_card_picked is None,
    {
        let ghost step = room_publish_step();
        let ghost snapfn = edited_snapshot(user_id, username, now);
        let n = self.rooms.len();
        let mut i: usize = 0;
        while i < n
            invariant
                i <= n,
                n == self.rooms@.len(),
                n == old(self)@.len(),
                old(self).inv(),
                old(hub).inv(),
                hub.inv(),
                hub@.next_id == old(hub)@.next_id,
                step == room_publish_step(),
                snapfn == edited_snapshot(user_id, username, now),
                forall|j: int| i <= j < n ==> #[trigger] self@[j] == old(self)@[j],
                forall|j: int|
                    0 <= j < i ==> #[trigger] self@[j] == (if member_of(user_id)(old(self)@[j]) {
                        edited_room(old(self)@[j], user_id, username, now)
                    } else {
                        old(self)@[j]
                    }),
                forall|j: int| 0 <= j < n ==> (#[trigger] self@[j]).id == old(self)@[j].id,
                forall|j: int| 0 <= j < n ==> (#[trigger] self@[j]).inv(),
                published_in_order(
                    step,
                    old(hub)@.subscribers,
                    hub@.subscribers,
                    old(self)@.subrange(0, i as int).filter(member_of(user_id)).map_values(snapfn),
                ),
            decreases n - i,
        {
            let ghost prefix = old(self)@.subrange(0, i as int);
            let ghost prev_ms = prefix.filter(member_of(user_id)).map_values(snapfn);
            proof {
                assert(old(self)@.subrange(0, i as int + 1) =~= prefix.push(old(self)@[i as int]));
                crate::seq_util::lemma_filter_push(
                    prefix,
                    old(self)@[i as int],
                    member_of(user_id),
                );
            }
            proof {
                assert(self.rooms@[i as int]@ == self@[i as int]);
                assert(self@[i as int] == old(self)@[i as int]);
            }
            let is_member = self.rooms[i].is_user_exist(user_id);
            if is_member {
                let ghost store_before = self@;
                let mut room = self.rooms.remove(i);
                proof {
                    assert(room@ == store_before[i as int]);
                    assert(store_before[i as int] == old(self)@[i as int]);
                    assert(room@.inv());
                }
                let c = username.clone();
                room.edit_user(user_id, c);
                room.touch_at(now);
                let published = room.get_room();
                let ghost m = room@;
                self.rooms.insert(i, room);
                let ghost hub_before = hub@.subscribers;
                hub.publish(published);
                proof {
                    assert(self@ =~= store_before.update(i as int, m));
                    assert(m =~= edited_room(old(self)@[i as int], user_id, username, now));
                    lemma_room_publish(hub_before, hub@.subscribers, published);
                    assert(step(hub_before, hub@.subscribers, m.publishable()));
                    crate::hub::lemma_published_in_order_snoc(
                        step,
                        old(hub)@.subscribers,
                        hub_before,
                        hub@.subscribers,
                        prev_ms,
                        m.publishable(),
                    );
                    assert(snapfn(old(self)@[i as int]) == m.publishable());
                    assert(old(self)@.subrange(0, i as int + 1).filter(member_of(user_id))
                        .map_values(snapfn) =~= prev_ms.push(m.publishable()));
                }
            } else {
                proof {
                    assert(!member_of(user_id)(old(self)@[i as int]));
                    assert(old(self)@.subrange(0, i as int + 1).filter(member_of(user_id))
                        .map_values(snapfn) =~= prev_ms);
                }
            }
            i += 1;
        }
        proof {
            assert(old(self)@.subrange(0, n as int) =~= old(self)@);
            assert forall|a: int, b: int| 0 <= a < b < self@.len() implies (
            #[trigger] self@[a]).id != (#[trigger] self@[b]).id by {
                assert(old(self)@[a].id != old(self)@[b].id);
            }
        }
        User { id: user_id, username, last_card_picked: None }
    }

    /// Detaches a participant from every room it is a member of (a
    /// logout), publishing each affected room's new snapshot in store
    /// order. Always succeeds.
    pub fn logout(&mut self, hub: &mut Hub<Room>, user_id: EntityId, now: i64) -> (r: bool)
        requires
            old(self).inv(),
            old(hub).inv(),
        ensures
            final(self).inv(),
            final(hub).inv(),
            final(hub)@.next_id == old(hub)@.next_id,
            final(self)@.len() == old(self)@.len(),
            forall|j: int|
                0 <= j < old(self)@.len() ==> #[trigger] final(self)@[j] == (if member_of(user_id)(
                    old(self)@[j],
                ) {
                    departed_room(old(self)@[j], user_id, now)
                } else {
                    old(self)@[j]
                }),
            published_in_order(
                room_publish_step(),
                old(hub)@.subscribers,
                final(hub)@.subscribers,
                old(self)@.filter(member_of(user_id)).map_values(departed_snapshot(user_id, now)),
            ),
            r == true,
    {
        let ghost step = room_publish_step();
        let ghost snapfn = departed_snapshot(user_id, now);
        let n = self.rooms.len();
        let mut i: usize = 0;
        while i < n
            invariant
                i <= n,
                n == self.rooms@.len(),
                n == old(self)@.len(),
                old(self).inv(),
                old(hub).inv(),
                hub.inv(),
                hub@.next_id == old(hub)@.next_id,
                step == room_publish_step(),
                snapfn == departed_snapshot(user_id, now),
                forall|j: int| i <= j < n ==> #[trigger] self@[j] == old(self)@[j],
                forall|j: int|
                    0 <= j < i ==> #[trigger] self@[j] == (if member_of(user_id)(old(self)@[j]) {
                        departed_room(old(self)@[j], user_id, now)
                    } else {
                        old(self)@[j]
                    }),
                forall|j: int| 0 <= j < n ==> (#[trigger] self@[j]).id == old(self)@[j].id,
                forall|j: int| 0 <= j < n ==> (#[trigger] self@[j]).inv(),
                published_in_order(
                    step,
                    old(hub)@.subscribers,
                    hub@.subscribers,
                    old(self)@.subrange(0, i as int).filter(member_of(user_id)).map_values(snapfn),
                ),
            decreases n - i,
        {
            let ghost prefix = old(self)@.subrange(0, i as int);
            let ghost prev_ms = prefix.filter(member_of(user_id)).map_values(snapfn);
            proof {
                assert(old(self)@.subrange(0, i as int + 1) =~= prefix.push(old(self)@[i as int]));
                crate::seq_util::lemma_filter_push(
                    prefix,
                    old(self)@[i as int],
                    member_of(user_id),
                );
            }
            proof {
                assert(self.rooms@[i as int]@ == self@[i as int]);
                assert(self@[i as int] == old(self)@[i as int]);
            }
            let is_member = self.rooms[i].is_user_exist(user_id);
            if is_member {
                let ghost store_before = self@;
                let mut room = self.rooms.remove(i);
                proof {
                    assert(room@ == store_before[i as int]);
                    assert(store_before[i as int] == old(self)@[i as int]);
                    assert(room@.inv());
                }
                room.remove_user(user_id);
                room.touch_at(now);
                let published = room.get_room();
                let ghost m = room@;
                self.rooms.insert(i, room);
                let ghost hub_before = hub@.subscribers;
                hub.publish(published);
                proof {
                    assert(self@ =~= store_before.update(i as int, m));
                    assert(m =~= departed_room(old(self)@[i as int], user_id, now));
                    lemma_room_publish(hub_before, hub@.subscribers, published);
                    assert(step(hub_before, hub@.subscribers, m.publishable()));
                    crate::hub::lemma_published_in_order_snoc(
                        step,
                        old(hub)@.subscribers,
                        hub_before,
                        hub@.subscribers,
                        prev_ms,
                        m.publishable(),
                    );
                    assert(snapfn(old(self)@[i as int]) == m.publishable());
                    assert(old(self)@.subrange(0, i as int + 1).filter(member_of(user_id))
                        .map_values(snapfn) =~= prev_ms.push(m.publishable()));
                }
            } else {
                proof {
                    assert(!member_of(user_id)(old(self)@[i as int]));
                    assert(old(self)@.subrange(0, i as int + 1).filter(member_of(user_id))
                        .map_values(snapfn) =~= prev_ms);
                }
            }
            i += 1;
        }
        proof {
            assert(old(self)@.subrange(0, n as int) =~= old(self)@);
            assert forall|a: int, b: int| 0 <= a < b < self@.len() implies (
            #[trigger] self@[a]).id != (#[trigger] self@[b]).id by {
                assert(old(self)@[a].id != old(self)@[b].id);
            }
        }
        true
    }
}

/// What one wake-up of the countdown controller found and did.
pub enum CountdownTick {
    /// The countdown goes on: the published snapshot after the tick.
    Proceed(Room),
    /// A cancellation won the race: the cancelled snapshot, published;
    /// the controller terminates early.
    Stopped(Room),
    /// The room vanished while the controller slept.
    Missing,
}

} // verus!
