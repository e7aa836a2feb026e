//! The eviction sweeper. Each tick makes one pass over the store:
//! prune every room's chat log to the retention window, estimate each
//! room's metadata footprint, and collect the rooms that are both safe
//! to remove (never one mid-countdown) and inactive beyond the TTL.
//! The eligible ids are then removed one by one in a second phase, so
//! that the scan itself bounds how long the store must be held
//! exclusively; a removal that finds its room already gone is a benign
//! race, not an error. Each room actually removed is announced with one
//! `Expired` lifecycle event carrying its redacted snapshot.

use vstd::prelude::*;
use crate::events::{
    lemma_lifecycle_publish, lifecycle_publish_step, EventKind, RoomEvent, RoomEventModel,
};
use crate::hub::{lemma_published_in_order_snoc, published_in_order, Hub};
use crate::room::{chat_message_kept, RoomModel};
use crate::seq_util::lemma_filter_push;
use crate::store::{contains_room, room_index, RoomStore};
use crate::types::EntityId;

verus! {

/// Fixed per-room overhead of the metadata footprint estimate, bytes.
pub const BASE_PER_ROOM: u64 = 200;

/// Estimated bytes per member.
pub const PER_USER_BYTES: u64 = 180;

/// Estimated bytes per deck card.
pub const PER_DECK_CARD_BYTES: u64 = 16;

/// Addition that sticks at the largest 64-bit value instead of
/// overflowing.
pub open spec fn sat_add_u64(a: int, b: int) -> int {
    if a + b > u64::MAX {
        u64::MAX as int
    } else {
        a + b
    }
}

/// `a + b`, saturating at the largest 64-bit value.
pub fn sat_add(a: u64, b: u64) -> (r: u64)
    ensures
        r == sat_add_u64(a as int, b as int),
{
    if a > u64::MAX - b {
        u64::MAX
    } else {
        a + b
    }
}

/// The metadata-only footprint estimate of one room: a constant
/// overhead plus a weight per member and per deck card, capped at the
/// largest 64-bit value.
pub open spec fn room_estimate(m: RoomModel) -> int {
    let raw = BASE_PER_ROOM + PER_USER_BYTES * m.users.len() + PER_DECK_CARD_BYTES
        * m.cards.len();
    if raw > u64::MAX {
        u64::MAX as int
    } else {
        raw
    }
}

/// The summed footprint estimate of a sequence of rooms, saturating.
pub open spec fn total_estimate(s: Seq<RoomModel>) -> int
    decreases s.len(),
{
    if s.len() == 0 {
        0
    } else {
        sat_add_u64(total_estimate(s.drop_last()), room_estimate(s.last()))
    }
}

/// How many chat messages pruning to the retention window drops from
/// one room.
pub open spec fn pruned_count(m: RoomModel, now: i64, retention_millis: i64) -> int {
    m.chat_history.len() - m.chat_history.filter(chat_message_kept(now, retention_millis)).len()
}

/// The summed pruned-message count of a sequence of rooms, saturating.
pub open spec fn total_pruned(s: Seq<RoomModel>, now: i64, retention_millis: i64) -> int
    decreases s.len(),
{
    if s.len() == 0 {
        0
    } else {
        sat_add_u64(
            total_pruned(s.drop_last(), now, retention_millis),
            pruned_count(s.last(), now, retention_millis),
        )
    }
}

/// A room after its chat log was pruned to the retention window.
pub open spec fn pruned_room(m: RoomModel, now: i64, retention_millis: i64) -> RoomModel {
    RoomModel {
        chat_history: m.chat_history.filter(chat_message_kept(now, retention_millis)),
        ..m
    }
}

/// Eviction eligibility: safe to remove (not mid-countdown) and
/// inactive beyond the TTL as of `now`. Pruning never touches the
/// activity timestamp, so a sweep by itself keeps no room alive.
pub open spec fn stale_pred(now: i64, ttl_millis: i64) -> spec_fn(RoomModel) -> bool {
    |m: RoomModel|
        !(m.reveal_stage is Countdown) && (now < m.last_active || now - m.last_active
            > ttl_millis)
}

/// The id of a room, for collecting eligible rooms.
pub open spec fn room_id_of() -> spec_fn(RoomModel) -> EntityId {
    |m: RoomModel| m.id
}

/// What one tick's scan found.
pub struct SweepReport {
    /// How many rooms the scan passed over.
    pub rooms_seen: usize,
    /// The ids eligible for removal, in store order.
    pub stale_ids: Vec<EntityId>,
    /// How many chat messages the scan pruned, over all rooms.
    pub pruned_messages: u64,
    /// The summed footprint estimate after pruning, saturating.
    pub total_estimated_bytes: u64,
    /// The footprint estimate averaged over the rooms seen (integer
    /// division; zero when the store is empty).
    pub avg_estimated_bytes: u64,
}

/// The scan phase of one sweeper tick, under one exclusive pass: prunes
/// every chat log in place, estimates footprints, and collects the
/// eviction-eligible ids. Removes nothing itself.
pub fn sweep_scan(store: &mut RoomStore, now: i64, ttl_millis: i64, retention_millis: i64) -> (rep:
    SweepReport)
    requires
        old(store).inv(),
    ensures
        final(store).inv(),
        final(store)@.len() == old(store)@.len(),
        forall|j: int|
            0 <= j < old(store)@.len() ==> #[trigger] final(store)@[j] == pruned_room(
                old(store)@[j],
                now,
                retention_millis,
            ),
        rep.rooms_seen == old(store)@.len(),
        rep.stale_ids@ == old(store)@.filter(stale_pred(now, ttl_millis)).map_values(
            room_id_of(),
        ),
        rep.pruned_messages == total_pruned(old(store)@, now, retention_millis),
        rep.total_estimated_bytes == total_estimate(old(store)@),
        rep.avg_estimated_bytes == (if old(store)@.len() > 0 {
            total_estimate(old(store)@) / (old(store)@.len() as int)
        } else {
            0
        }),
{
    let ghost stale = stale_pred(now, ttl_millis);
    let n = store.rooms.len();
    let mut stale_ids: Vec<EntityId> = Vec::new();
    let mut pruned: u64 = 0;
    let mut total: u64 = 0;
    let mut i: usize = 0;
    while i < n
        invariant
            i <= n,
            n == store.rooms@.len(),
            n == old(store)@.len(),
            old(store).inv(),
            stale == stale_pred(now, ttl_millis),
            forall|j: int| i <= j < n ==> #[trigger] store@[j] == old(store)@[j],
            forall|j: int|
                0 <= j < i ==> #[trigger] store@[j] == pruned_room(
                    old(store)@[j],
                    now,
                    retention_millis,
                ),
            forall|j: int| 0 <= j < n ==> (#[trigger] store@[j]).id == old(store)@[j].id,
            forall|j: int| 0 <= j < n ==> (#[trigger] store@[j]).inv(),
            stale_ids@ == old(store)@.subrange(0, i as int).filter(stale).map_values(
                room_id_of(),
            ),
            pruned == total_pruned(old(store)@.subrange(0, i as int), now, retention_millis),
            total == total_estimate(old(store)@.subrange(0, i as int)),
        decreases n - i,
    {
        let ghost prefix = old(store)@.subrange(0, i as int);
        let ghost store_before = store@;
        proof {
            assert(old(store)@.subrange(0, i as int + 1) =~= prefix.push(old(store)@[i as int]));
            assert(old(store)@.subrange(0, i as int + 1).drop_last() =~= prefix);
            lemma_filter_push(prefix, old(store)@[i as int], stale);
        }
        let mut room = store.rooms.remove(i);
        proof {
            assert(room@ == store_before[i as int]);
            assert(store_before[i as int] == old(store)@[i as int]);
            assert(room@.inv());
        }
        let dropped = room.prune_chat_history(now, retention_millis);
        pruned = sat_add(pruned, dropped as u64);
        let users = room.users.len();
        let cards = room.deck.cards.len();
        let est128: u128 = (BASE_PER_ROOM as u128) + (PER_USER_BYTES as u128) * (users as u128)
            + (PER_DECK_CARD_BYTES as u128) * (cards as u128);
        let est: u64 = if est128 > u64::MAX as u128 {
            u64::MAX
        } else {
            est128 as u64
        };
        proof {
            assert(est == room_estimate(old(store)@[i as int]));
        }
        total = sat_add(total, est);
        let safe = room.is_safe_to_remove();
        let inactive = room.is_inactive_at(now, ttl_millis);
        let ghost ids_before = stale_ids@;
        if safe && inactive {
            stale_ids.push(room.id);
            proof {
                assert(stale(old(store)@[i as int]));
                assert(prefix.push(old(store)@[i as int]).filter(stale).map_values(room_id_of())
                    =~= ids_before.push(old(store)@[i as int].id));
            }
        } else {
            proof {
                assert(!stale(old(store)@[i as int]));
            }
        }
        let ghost m = room@;
        store.rooms.insert(i, room);
        proof {
            assert(store@ =~= store_before.update(i as int, m));
            assert(m =~= pruned_room(old(store)@[i as int], now, retention_millis));
        }
        i += 1;
    }
    proof {
        assert(old(store)@.subrange(0, n as int) =~= old(store)@);
        assert forall|a: int, b: int| 0 <= a < b < store@.len() implies (
        #[trigger] store@[a]).id != (#[trigger] store@[b]).id by {
            assert(old(store)@[a].id != old(store)@[b].id);
        }
    }
    let avg: u64 = if n > 0 {
        total / (n as u64)
    } else {
        0
    };
    SweepReport {
        rooms_seen: n,
        stale_ids,
        pruned_messages: pruned,
        total_estimated_bytes: total,
        avg_estimated_bytes: avg,
    }
}

/// The store after removing, in order, each of `ids` that is present.
pub open spec fn after_removals(s: Seq<RoomModel>, ids: Seq<EntityId>) -> Seq<RoomModel>
    decreases ids.len(),
{
    if ids.len() == 0 {
        s
    } else if contains_room(s, ids[0]) {
        after_removals(s.remove(room_index(s, ids[0])), ids.drop_first())
    } else {
        after_removals(s, ids.drop_first())
    }
}

/// The `Expired` lifecycle events that removing `ids`, in order,
/// produces: one per id actually present, carrying the redacted
/// snapshot of the room at removal time.
pub open spec fn expired_events(s: Seq<RoomModel>, ids: Seq<EntityId>) -> Seq<RoomEventModel>
    decreases ids.len(),
{
    if ids.len() == 0 {
        Seq::<RoomEventModel>::empty()
    } else if contains_room(s, ids[0]) {
        seq![
            RoomEventModel {
                room_id: ids[0],
                event_type: EventKind::Expired,
                target_user_id: None,
                room: s[room_index(s, ids[0])].publishable(),
            },
        ] + expired_events(s.remove(room_index(s, ids[0])), ids.drop_first())
    } else {
        expired_events(s, ids.drop_first())
    }
}

/// The removal phase of one sweeper tick: removes each eligible id in
/// its own exclusive step (so the store is not held across the whole
/// fan-out) and publishes one `Expired` lifecycle event per room
/// actually removed. An id already gone is a benign race with another
/// remover and is skipped silently. Returns how many rooms were
/// removed.
pub fn sweep_remove_stale(
    store: &mut RoomStore,
    events: &mut Hub<RoomEvent>,
    stale_ids: &Vec<EntityId>,
) -> (removed: usize)
    requires
        old(store).inv(),
        old(events).inv(),
    ensures
        final(store).inv(),
        final(events).inv(),
        final(events)@.next_id == old(events)@.next_id,
        final(store)@ == after_removals(old(store)@, stale_ids@),
        published_in_order(
            lifecycle_publish_step(),
            old(events)@.subscribers,
            final(events)@.subscribers,
            expired_events(old(store)@, stale_ids@),
        ),
        removed == expired_events(old(store)@, stale_ids@).len(),
{
    let ghost step = lifecycle_publish_step();
    let ghost all = expired_events(old(store)@, stale_ids@);
    let n = stale_ids.len();
    let mut removed: usize = 0;
    let mut k: usize = 0;
    let ghost mut done: Seq<RoomEventModel> = Seq::<RoomEventModel>::empty();
    proof {
        assert(stale_ids@.subrange(0, n as int) =~= stale_ids@);
        assert(Seq::<RoomEventModel>::empty() + expired_events(store@, stale_ids@)
            =~= expired_events(store@, stale_ids@));
    }
    while k < n
        invariant
            k <= n,
            n == stale_ids@.len(),
            old(store).inv(),
            old(events).inv(),
            store.inv(),
            events.inv(),
            events@.next_id == old(events)@.next_id,
            step == lifecycle_publish_step(),
            all == expired_events(old(store)@, stale_ids@),
            all == done + expired_events(store@, stale_ids@.subrange(k as int, n as int)),
            after_removals(old(store)@, stale_ids@) == after_removals(
                store@,
                stale_ids@.subrange(k as int, n as int),
            ),
            published_in_order(step, old(events)@.subscribers, events@.subscribers, done),
            removed == done.len(),
            done.len() <= k,
        decreases n - k,
    {
        let ghost rem = stale_ids@.subrange(k as int, n as int);
        let ghost store_cur = store@;
        proof {
            assert(rem[0] == stale_ids@[k as int]);
            assert(rem.drop_first() =~= stale_ids@.subrange(k as int + 1, n as int));
        }
        let id = stale_ids[k];
        match store.remove(id) {
            Some(room) => {
                let ev = RoomEvent {
                    room_id: id,
                    event_type: EventKind::Expired,
                    target_user_id: None,
                    room: room.get_room(),
                };
                let ghost hub_before = events@.subscribers;
                events.publish(ev);
                proof {
                    let e0 = RoomEventModel {
                        room_id: id,
                        event_type: EventKind::Expired,
                        target_user_id: None,
                        room: store_cur[room_index(store_cur, id)].publishable(),
                    };
                    assert(ev@ == e0);
                    lemma_lifecycle_publish(hub_before, events@.subscribers, ev);
                    assert(step(hub_before, events@.subscribers, e0));
                    lemma_published_in_order_snoc(
                        step,
                        old(events)@.subscribers,
                        hub_before,
                        events@.subscribers,
                        done,
                        e0,
                    );
                    assert(expired_events(store_cur, rem) == seq![e0] + expired_events(
                        store@,
                        rem.drop_first(),
                    ));
                    assert(done.push(e0) =~= done + seq![e0]);
                    assert((done + seq![e0]) + expired_events(store@, rem.drop_first()) =~= done
                        + (seq![e0] + expired_events(store@, rem.drop_first())));
                    assert(after_removals(store_cur, rem) == after_removals(
                        store@,
                        rem.drop_first(),
                    ));
                    done = done.push(e0);
                }
                removed = removed + 1;
            },
            None => {
                proof {
                    assert(!contains_room(store_cur, rem[0]));
                    assert(expired_events(store_cur, rem) == expired_events(
                        store@,
                        rem.drop_first(),
                    ));
                    assert(after_removals(store_cur, rem) == after_removals(
                        store@,
                        rem.drop_first(),
                    ));
                }
            },
        }
        k += 1;
    }
    proof {
        assert(stale_ids@.subrange(n as int, n as int) =~= Seq::<EntityId>::empty());
        assert(all =~= done + Seq::<RoomEventModel>::empty());
        assert(all =~= done);
    }
    removed
}

} // verus!
