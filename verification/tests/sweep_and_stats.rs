//! Sweeper and telemetry behaviour: pruning, footprint estimates,
//! eviction eligibility, the two-phase removal, and the sampler's
//! exact totals.

use planning_poker::chat::ChatMessage;
use planning_poker::events::{EventKind, RoomEvent};
use planning_poker::hub::Hub;
use planning_poker::room::Room;
use planning_poker::stats::collect_store_stats;
use planning_poker::store::RoomStore;
use planning_poker::sweep::{sweep_remove_stale, sweep_scan};
use planning_poker::user::UserInput;

fn deck3() -> Vec<String> {
    vec!["1".to_string(), "2".to_string(), "3".to_string()]
}

fn join(store: &mut RoomStore, hub: &mut Hub<Room>, room: u128, uid: u128, now: i64) {
    store
        .join_room(
            hub,
            room,
            UserInput {
                id: uid,
                username: format!("u{}", uid),
                room_name: None,
                last_card_picked: None,
            },
            now,
        )
        .unwrap();
}

#[test]
fn scenario_stale_idle_room_expires_but_counting_room_survives() {
    let mut store = RoomStore::new();
    let mut hub: Hub<Room> = Hub::new();
    let mut events: Hub<RoomEvent> = Hub::new();
    let s = events.subscribe(8);

    // Both rooms share the same stale timestamp; only the idle one may
    // go.
    store
        .create_room(&mut hub, Some(1), Some("idle".to_string()), deck3(), 0)
        .unwrap();
    store
        .create_room(&mut hub, Some(2), Some("counting".to_string()), deck3(), 0)
        .unwrap();
    store
        .toggle_countdown_option(&mut hub, 2, true, 0)
        .unwrap();
    store.start_reveal_countdown(&mut hub, 2, None, 0).unwrap();

    let ttl = 1_000;
    let rep = sweep_scan(&mut store, 10_000, ttl, 100_000);
    assert_eq!(rep.rooms_seen, 2);
    assert_eq!(rep.stale_ids, vec![1]);

    let removed = sweep_remove_stale(&mut store, &mut events, &rep.stale_ids);
    assert_eq!(removed, 1);
    assert!(store.room_by_id(1).is_none());
    assert!(store.room_by_id(2).is_some());

    // Exactly one expired event, with no target participant.
    let e = events.recv(s).unwrap();
    assert_eq!(e.event_type, EventKind::Expired);
    assert_eq!(e.room_id, 1);
    assert_eq!(e.target_user_id, None);
    assert_eq!(e.room.name.as_deref(), Some("idle"));
    assert!(events.recv(s).is_none());
}

#[test]
fn removing_an_already_absent_id_is_a_benign_race() {
    let mut store = RoomStore::new();
    let mut hub: Hub<Room> = Hub::new();
    let mut events: Hub<RoomEvent> = Hub::new();
    let s = events.subscribe(8);
    store
        .create_room(&mut hub, Some(1), None, deck3(), 0)
        .unwrap();

    // Another remover got there first.
    store.remove(1);

    let removed = sweep_remove_stale(&mut store, &mut events, &vec![1]);
    assert_eq!(removed, 0);
    assert!(events.recv(s).is_none());
}

#[test]
fn active_rooms_are_never_swept() {
    let mut store = RoomStore::new();
    let mut hub: Hub<Room> = Hub::new();
    store
        .create_room(&mut hub, Some(1), None, deck3(), 9_500)
        .unwrap();
    let rep = sweep_scan(&mut store, 10_000, 1_000, 100_000);
    assert!(rep.stale_ids.is_empty());
}

#[test]
fn sweep_estimates_and_average_are_exact() {
    let mut store = RoomStore::new();
    let mut hub: Hub<Room> = Hub::new();
    // Room 1: two members, three cards. Room 2: no members, three
    // cards.
    store
        .create_room(&mut hub, Some(1), None, deck3(), 0)
        .unwrap();
    store
        .create_room(&mut hub, Some(2), None, deck3(), 0)
        .unwrap();
    join(&mut store, &mut hub, 1, 100, 0);
    join(&mut store, &mut hub, 1, 200, 0);

    let rep = sweep_scan(&mut store, 10, 1_000_000, 100_000);
    let room1 = 200 + 180 * 2 + 16 * 3;
    let room2 = 200 + 16 * 3;
    assert_eq!(rep.total_estimated_bytes, room1 + room2);
    assert_eq!(rep.avg_estimated_bytes, (room1 + room2) / 2);
    assert_eq!(rep.pruned_messages, 0);
}

#[test]
fn sweep_prunes_chat_in_place_across_rooms() {
    let mut store = RoomStore::new();
    let mut hub: Hub<Room> = Hub::new();
    let mut chat: Hub<ChatMessage> = Hub::new();
    store
        .create_room(&mut hub, Some(1), None, deck3(), 0)
        .unwrap();
    let mk = |id: u128, ts: i64| ChatMessage {
        id,
        room_id: 1,
        user_id: 100,
        username: "p1".to_string(),
        content: "hi".to_string(),
        formatted_content: None,
        content_type: "text".to_string(),
        timestamp: ts,
    };
    store.post_chat_message(&mut chat, 1, mk(1, 100), 100).unwrap();
    store.post_chat_message(&mut chat, 1, mk(2, 9_900), 9_900).unwrap();

    let rep = sweep_scan(&mut store, 10_000, 1_000_000, 500);
    assert_eq!(rep.pruned_messages, 1);
    let room = store.room_by_id(1).unwrap();
    assert_eq!(room.chat_history.len(), 1);
    assert_eq!(room.chat_history[0].id, 2);
}

#[test]
fn sampler_totals_are_exact() {
    let mut store = RoomStore::new();
    let mut hub: Hub<Room> = Hub::new();
    let mut chat: Hub<ChatMessage> = Hub::new();
    store
        .create_room(&mut hub, Some(1), None, deck3(), 0)
        .unwrap();
    store
        .create_room(&mut hub, Some(2), None, vec!["8".to_string()], 0)
        .unwrap();
    join(&mut store, &mut hub, 1, 100, 0);
    join(&mut store, &mut hub, 1, 200, 0);
    join(&mut store, &mut hub, 2, 300, 0);

    // One message weighs by its longer body: formatted (12 bytes) over
    // plain (5 bytes); the second has only its plain body (2 bytes).
    store
        .post_chat_message(
            &mut chat,
            1,
            ChatMessage {
                id: 1,
                room_id: 1,
                user_id: 100,
                username: "u100".to_string(),
                content: "hello".to_string(),
                formatted_content: Some("<i>hello</i>".to_string()),
                content_type: "html".to_string(),
                timestamp: 1,
            },
            1,
        )
        .unwrap();
    store
        .post_chat_message(
            &mut chat,
            2,
            ChatMessage {
                id: 2,
                room_id: 2,
                user_id: 300,
                username: "u300".to_string(),
                content: "ok".to_string(),
                formatted_content: None,
                content_type: "text".to_string(),
                timestamp: 2,
            },
            2,
        )
        .unwrap();

    let s = collect_store_stats(&store);
    assert_eq!(s.room_count, 2);
    assert_eq!(s.total_users, 3);
    assert_eq!(s.total_deck_cards, 4);
    assert_eq!(s.total_chat_messages, 2);
    assert_eq!(s.total_chat_bytes, 12 + 2);
    assert_eq!(
        s.total_estimated_bytes,
        200 * 2 + 180 * 3 + 16 * 4 + 14
    );
}

#[test]
fn sampler_on_an_empty_store_reports_zeros() {
    let store = RoomStore::new();
    let s = collect_store_stats(&store);
    assert_eq!(s.room_count, 0);
    assert_eq!(s.total_users, 0);
    assert_eq!(s.total_deck_cards, 0);
    assert_eq!(s.total_chat_messages, 0);
    assert_eq!(s.total_chat_bytes, 0);
    assert_eq!(s.total_estimated_bytes, 0);
}
