//! Hub behaviour: fan-out to independent subscribers, bounded buffers
//! with drop-on-full, no replay, and consumer-side filtering.

use planning_poker::chat::ChatMessage;
use planning_poker::events::{EventKind, RoomEvent};
use planning_poker::hub::Hub;
use planning_poker::room::Room;
use planning_poker::store::RoomStore;
use planning_poker::user::UserInput;

fn deck() -> Vec<String> {
    vec!["1".to_string(), "2".to_string()]
}

#[test]
fn every_subscriber_gets_its_own_copy() {
    let mut store = RoomStore::new();
    let mut hub: Hub<Room> = Hub::new();
    let a = hub.subscribe(8);
    let b = hub.subscribe(8);

    store
        .create_room(&mut hub, Some(1), Some("x".to_string()), deck(), 0)
        .unwrap();

    let ea = hub.recv(a).expect("first subscriber sees the event");
    let eb = hub.recv(b).expect("second subscriber sees the event");
    assert_eq!(ea.id, 1);
    assert_eq!(eb.id, 1);
    assert!(hub.recv(a).is_none());
    assert!(hub.recv(b).is_none());
}

#[test]
fn no_replay_for_late_subscribers() {
    let mut store = RoomStore::new();
    let mut hub: Hub<Room> = Hub::new();
    store
        .create_room(&mut hub, Some(1), None, deck(), 0)
        .unwrap();

    let late = hub.subscribe(8);
    assert!(hub.recv(late).is_none());

    store
        .rename_room(&mut hub, 1, Some("y".to_string()), 1)
        .unwrap();
    let e = hub.recv(late).expect("events after subscribing arrive");
    assert_eq!(e.name.as_deref(), Some("y"));
}

#[test]
fn a_full_subscriber_is_dropped_not_waited_for() {
    let mut store = RoomStore::new();
    let mut hub: Hub<Room> = Hub::new();
    let slow = hub.subscribe(1);
    let fast = hub.subscribe(8);

    store
        .create_room(&mut hub, Some(1), None, deck(), 0)
        .unwrap();
    // The slow consumer's buffer is now full; the next publish drops
    // it rather than stalling, and its backlog is gone with it.
    store
        .rename_room(&mut hub, 1, Some("z".to_string()), 1)
        .unwrap();

    assert!(hub.recv(slow).is_none());
    assert!(hub.recv(fast).is_some());
    assert!(hub.recv(fast).is_some());
    assert!(hub.recv(fast).is_none());
}

#[test]
fn unsubscribed_consumers_receive_nothing_further() {
    let mut store = RoomStore::new();
    let mut hub: Hub<Room> = Hub::new();
    let s = hub.subscribe(8);
    store
        .create_room(&mut hub, Some(1), None, deck(), 0)
        .unwrap();
    hub.unsubscribe(s);
    assert!(hub.recv(s).is_none());
    // The next publish sweeps the closed handle out silently.
    store
        .rename_room(&mut hub, 1, Some("w".to_string()), 1)
        .unwrap();
    assert!(hub.recv(s).is_none());
}

#[test]
fn consumers_filter_by_room_id() {
    let mut store = RoomStore::new();
    let mut hub: Hub<Room> = Hub::new();
    let s = hub.subscribe(8);
    store
        .create_room(&mut hub, Some(1), None, deck(), 0)
        .unwrap();
    store
        .create_room(&mut hub, Some(2), None, deck(), 0)
        .unwrap();
    store
        .rename_room(&mut hub, 1, Some("one".to_string()), 1)
        .unwrap();

    let mut for_room_one = Vec::new();
    while let Some(e) = hub.recv(s) {
        if e.id == 1 {
            for_room_one.push(e);
        }
    }
    assert_eq!(for_room_one.len(), 2);
    assert_eq!(for_room_one[1].name.as_deref(), Some("one"));
}

#[test]
fn kick_and_ban_emit_lifecycle_events_with_the_target() {
    let mut store = RoomStore::new();
    let mut hub: Hub<Room> = Hub::new();
    let mut events: Hub<RoomEvent> = Hub::new();
    let s = events.subscribe(8);

    store
        .create_room(&mut hub, Some(1), None, deck(), 0)
        .unwrap();
    for uid in [100u128, 200] {
        store
            .join_room(
                &mut hub,
                1,
                UserInput {
                    id: uid,
                    username: format!("u{}", uid),
                    room_name: None,
                    last_card_picked: None,
                },
                1,
            )
            .unwrap();
    }

    store.kick_user(&mut hub, &mut events, 1, 100, 2).unwrap();
    store.ban_user(&mut hub, &mut events, 1, 200, 3).unwrap();

    let kicked = events.recv(s).unwrap();
    assert_eq!(kicked.event_type, EventKind::Kicked);
    assert_eq!(kicked.room_id, 1);
    assert_eq!(kicked.target_user_id, Some(100));
    assert_eq!(kicked.room.users.len(), 1);

    let banned = events.recv(s).unwrap();
    assert_eq!(banned.event_type, EventKind::Banned);
    assert_eq!(banned.target_user_id, Some(200));
    assert!(banned.room.users.is_empty());
    assert!(banned.room.banned_users.contains(&200));

    assert!(events.recv(s).is_none());
}

#[test]
fn chat_messages_fan_out_and_land_in_the_log() {
    let mut store = RoomStore::new();
    let mut hub: Hub<Room> = Hub::new();
    let mut chat: Hub<ChatMessage> = Hub::new();
    let s = chat.subscribe(8);

    store
        .create_room(&mut hub, Some(1), None, deck(), 0)
        .unwrap();
    let msg = ChatMessage {
        id: 9,
        room_id: 1,
        user_id: 100,
        username: "p1".to_string(),
        content: "hello".to_string(),
        formatted_content: Some("<b>hello</b>".to_string()),
        content_type: "html".to_string(),
        timestamp: 5,
    };
    store.post_chat_message(&mut chat, 1, msg, 5).unwrap();

    let got = chat.recv(s).unwrap();
    assert_eq!(got.id, 9);
    assert_eq!(got.content, "hello");

    let room = store.room_by_id(1).unwrap();
    assert_eq!(room.chat_history.len(), 1);
    assert_eq!(room.chat_history[0].id, 9);
    assert_eq!(room.last_active, 5);
}
