//! Store-level behaviour: atomic operations, their errors, and the
//! snapshots they publish.

use planning_poker::events::RoomEvent;
use planning_poker::hub::Hub;
use planning_poker::room::{RevealStage, Room};
use planning_poker::store::{CountdownTick, RoomStore};
use planning_poker::types::DomainError;
use planning_poker::user::UserInput;

fn input(id: u128, name: &str) -> UserInput {
    UserInput {
        id,
        username: name.to_string(),
        room_name: None,
        last_card_picked: None,
    }
}

fn deck() -> Vec<String> {
    vec![
        "1".to_string(),
        "2".to_string(),
        "3".to_string(),
        "5".to_string(),
        "8".to_string(),
    ]
}

#[test]
fn scenario_two_players_pick_then_reveal() {
    let mut store = RoomStore::new();
    let mut hub: Hub<Room> = Hub::new();

    let room = store
        .create_room(&mut hub, Some(1), None, deck(), 10)
        .unwrap();
    assert_eq!(room.id, 1);

    store.join_room(&mut hub, 1, input(100, "p1"), 11).unwrap();
    store.join_room(&mut hub, 1, input(200, "p2"), 12).unwrap();

    let mid = store
        .pick_card(&mut hub, 100, 1, "3".to_string(), 13)
        .unwrap();
    // Mid-round snapshots hide every selection.
    assert!(mid.game.table.iter().all(|c| c.card.is_none()));

    store
        .pick_card(&mut hub, 200, 1, "5".to_string(), 14)
        .unwrap();

    let shown = store.show_cards(&mut hub, 1, 15).unwrap();
    assert!(shown.is_game_over);
    assert_eq!(shown.game.table.len(), 2);
    assert_eq!(shown.game.table[0].user_id, 100);
    assert_eq!(shown.game.table[0].card.as_deref(), Some("3"));
    assert_eq!(shown.game.table[1].user_id, 200);
    assert_eq!(shown.game.table[1].card.as_deref(), Some("5"));
}

#[test]
fn scenario_countdown_refused_while_disabled() {
    let mut store = RoomStore::new();
    let mut hub: Hub<Room> = Hub::new();
    store
        .create_room(&mut hub, Some(1), None, deck(), 0)
        .unwrap();

    let r = store.start_reveal_countdown(&mut hub, 1, None, 1);
    assert_eq!(r.err(), Some(DomainError::InvalidState));
    let room = store.room_by_id(1).unwrap();
    assert_eq!(room.reveal_stage, RevealStage::Idle);
}

#[test]
fn scenario_cancel_after_first_tick() {
    let mut store = RoomStore::new();
    let mut hub: Hub<Room> = Hub::new();
    store
        .create_room(&mut hub, Some(1), None, deck(), 0)
        .unwrap();
    store
        .toggle_countdown_option(&mut hub, 1, true, 1)
        .unwrap();

    let started = store.start_reveal_countdown(&mut hub, 1, None, 2).unwrap();
    assert_eq!(started.reveal_stage, RevealStage::Countdown(3));

    // First wake-up publishes Countdown(2).
    match store.reveal_countdown_tick(&mut hub, 1, 2) {
        CountdownTick::Proceed(snap) => {
            assert_eq!(snap.reveal_stage, RevealStage::Countdown(2));
        }
        _ => panic!("expected the countdown to proceed"),
    }

    // A concurrent cancellation lands between wake-ups.
    store
        .cancel_reveal_countdown(&mut hub, 1, None, 3)
        .unwrap();

    // The next wake-up observes it and stops early.
    match store.reveal_countdown_tick(&mut hub, 1, 1) {
        CountdownTick::Stopped(snap) => {
            assert_eq!(snap.reveal_stage, RevealStage::Cancelled);
            assert!(!snap.is_game_over);
        }
        _ => panic!("expected the countdown to stop"),
    }

    // The final step after a cancellation reveals nothing.
    let fin = store.finish_reveal_countdown(&mut hub, 1, 4).unwrap();
    assert_eq!(fin.reveal_stage, RevealStage::Cancelled);
    assert!(!fin.is_game_over);
}

#[test]
fn countdown_completes_when_not_cancelled() {
    let mut store = RoomStore::new();
    let mut hub: Hub<Room> = Hub::new();
    store
        .create_room(&mut hub, Some(1), None, deck(), 0)
        .unwrap();
    store
        .toggle_countdown_option(&mut hub, 1, true, 1)
        .unwrap();
    store.start_reveal_countdown(&mut hub, 1, None, 2).unwrap();
    for remaining in [2, 1, 0] {
        match store.reveal_countdown_tick(&mut hub, 1, remaining) {
            CountdownTick::Proceed(snap) => {
                assert_eq!(snap.reveal_stage, RevealStage::Countdown(remaining));
            }
            _ => panic!("expected the countdown to proceed"),
        }
    }
    let fin = store.finish_reveal_countdown(&mut hub, 1, 9).unwrap();
    assert_eq!(fin.reveal_stage, RevealStage::Revealed);
    assert!(fin.is_game_over);
}

#[test]
fn countdown_guards_check_the_owner() {
    let mut store = RoomStore::new();
    let mut hub: Hub<Room> = Hub::new();
    store
        .create_room(&mut hub, Some(1), None, deck(), 0)
        .unwrap();
    store.join_room(&mut hub, 1, input(100, "p1"), 1).unwrap();
    store
        .toggle_countdown_option(&mut hub, 1, true, 2)
        .unwrap();
    store
        .set_room_owner(&mut hub, 1, Some(100), 3)
        .unwrap();

    let r = store.start_reveal_countdown(&mut hub, 1, Some(200), 4);
    assert_eq!(r.err(), Some(DomainError::Forbidden));

    store
        .start_reveal_countdown(&mut hub, 1, Some(100), 5)
        .unwrap();

    let c = store.cancel_reveal_countdown(&mut hub, 1, Some(200), 6);
    assert_eq!(c.err(), Some(DomainError::Forbidden));
    store
        .cancel_reveal_countdown(&mut hub, 1, Some(100), 7)
        .unwrap();
}

#[test]
fn scenario_ban_after_logout_is_a_safe_no_op() {
    let mut store = RoomStore::new();
    let mut hub: Hub<Room> = Hub::new();
    let mut events: Hub<RoomEvent> = Hub::new();
    store
        .create_room(&mut hub, Some(1), None, deck(), 0)
        .unwrap();
    store.join_room(&mut hub, 1, input(100, "p1"), 1).unwrap();

    assert!(store.logout(&mut hub, 100, 2));
    let after_logout = store.room_by_id(1).unwrap();
    assert!(after_logout.users.is_empty());

    let banned = store.ban_user(&mut hub, &mut events, 1, 100, 3).unwrap();
    assert!(banned.banned_users.contains(&100));
    assert!(banned.users.is_empty());
}

#[test]
fn join_is_idempotent_and_bans_are_enforced() {
    let mut store = RoomStore::new();
    let mut hub: Hub<Room> = Hub::new();
    let mut events: Hub<RoomEvent> = Hub::new();
    store
        .create_room(&mut hub, Some(1), None, deck(), 0)
        .unwrap();
    store.join_room(&mut hub, 1, input(100, "p1"), 1).unwrap();
    let again = store.join_room(&mut hub, 1, input(100, "p1"), 2).unwrap();
    assert_eq!(again.users.len(), 1);

    store.ban_user(&mut hub, &mut events, 1, 100, 3).unwrap();
    let r = store.join_room(&mut hub, 1, input(100, "p1"), 4);
    assert_eq!(r.err(), Some(DomainError::Forbidden));

    store.unban_user(&mut hub, 1, 100, 5).unwrap();
    let back = store.join_room(&mut hub, 1, input(100, "p1"), 6).unwrap();
    assert_eq!(back.users.len(), 1);
}

#[test]
fn joining_with_a_room_name_renames_the_room() {
    let mut store = RoomStore::new();
    let mut hub: Hub<Room> = Hub::new();
    store
        .create_room(&mut hub, Some(1), None, deck(), 0)
        .unwrap();
    let mut user = input(100, "p1");
    user.room_name = Some("sprint 12".to_string());
    let snap = store.join_room(&mut hub, 1, user, 1).unwrap();
    assert_eq!(snap.name.as_deref(), Some("sprint 12"));
}

#[test]
fn missing_room_reports_not_found() {
    let mut store = RoomStore::new();
    let mut hub: Hub<Room> = Hub::new();
    let r = store.rename_room(&mut hub, 42, Some("x".to_string()), 0);
    assert_eq!(r.err(), Some(DomainError::NotFound));
    assert!(store.room_by_id(42).is_none());
}

#[test]
fn creating_over_a_taken_id_reports_conflict() {
    let mut store = RoomStore::new();
    let mut hub: Hub<Room> = Hub::new();
    store
        .create_room(&mut hub, Some(1), Some("first".to_string()), deck(), 0)
        .unwrap();
    let r = store.create_room(&mut hub, Some(1), Some("second".to_string()), deck(), 1);
    assert_eq!(r.err(), Some(DomainError::Conflict));
    let kept = store.room_by_id(1).unwrap();
    assert_eq!(kept.name.as_deref(), Some("first"));
}

#[test]
fn owner_assignment_requires_membership() {
    let mut store = RoomStore::new();
    let mut hub: Hub<Room> = Hub::new();
    store
        .create_room(&mut hub, Some(1), None, deck(), 0)
        .unwrap();
    let r = store.set_room_owner(&mut hub, 1, Some(100), 1);
    assert_eq!(r.err(), Some(DomainError::InvalidState));
    assert_eq!(store.room_by_id(1).unwrap().room_owner_id, None);
}

#[test]
fn update_deck_replaces_cards_and_keeps_the_deck_id() {
    let mut store = RoomStore::new();
    let mut hub: Hub<Room> = Hub::new();
    store
        .create_room(&mut hub, Some(1), None, deck(), 0)
        .unwrap();
    let deck_id = store.room_by_id(1).unwrap().deck.id;
    let snap = store
        .update_deck(&mut hub, 1, vec!["XS".to_string(), "XL".to_string()], 1)
        .unwrap();
    assert_eq!(snap.deck.cards, vec!["XS", "XL"]);
    assert_eq!(snap.deck.id, deck_id);
}

#[test]
fn edit_user_and_logout_touch_every_room_with_that_member() {
    let mut store = RoomStore::new();
    let mut hub: Hub<Room> = Hub::new();
    store
        .create_room(&mut hub, Some(1), None, deck(), 0)
        .unwrap();
    store
        .create_room(&mut hub, Some(2), None, deck(), 0)
        .unwrap();
    store
        .create_room(&mut hub, Some(3), None, deck(), 0)
        .unwrap();
    store.join_room(&mut hub, 1, input(100, "p1"), 1).unwrap();
    store.join_room(&mut hub, 2, input(100, "p1"), 1).unwrap();
    store.join_room(&mut hub, 2, input(200, "p2"), 1).unwrap();

    let renamed = store.edit_user(&mut hub, 100, "paula".to_string(), 2);
    assert_eq!(renamed.id, 100);
    assert_eq!(renamed.username, "paula");
    assert_eq!(store.room_by_id(1).unwrap().users[0].username, "paula");
    assert_eq!(store.room_by_id(2).unwrap().users[0].username, "paula");
    assert_eq!(store.room_by_id(2).unwrap().users[1].username, "p2");

    let mine = store.user_rooms(100);
    let mut ids: Vec<u128> = mine.iter().map(|r| r.id).collect();
    ids.sort();
    assert_eq!(ids, vec![1, 2]);

    assert!(store.logout(&mut hub, 100, 3));
    assert!(store.user_rooms(100).is_empty());
    assert_eq!(store.room_by_id(2).unwrap().users.len(), 1);
}

#[test]
fn reads_are_deep_copies() {
    let mut store = RoomStore::new();
    let mut hub: Hub<Room> = Hub::new();
    store
        .create_room(&mut hub, Some(1), None, deck(), 0)
        .unwrap();
    let mut copy = store.room_by_id(1).unwrap();
    copy.name = Some("scratch".to_string());
    copy.deck.cards.clear();
    assert_eq!(store.room_by_id(1).unwrap().name, None);
    assert_eq!(store.room_by_id(1).unwrap().deck.cards.len(), 5);

    let all = store.rooms();
    assert_eq!(all.len(), 1);
    assert_eq!(all[0].id, 1);
}

#[test]
fn remove_returns_the_room_once() {
    let mut store = RoomStore::new();
    let mut hub: Hub<Room> = Hub::new();
    store
        .create_room(&mut hub, Some(1), None, deck(), 0)
        .unwrap();
    let removed = store.remove(1);
    assert!(removed.is_some());
    assert_eq!(removed.unwrap().id, 1);
    // A second remover finds it already gone: a benign race, not an
    // error.
    assert!(store.remove(1).is_none());
}

#[test]
fn reset_game_clears_the_table_and_hides_cards() {
    let mut store = RoomStore::new();
    let mut hub: Hub<Room> = Hub::new();
    store
        .create_room(&mut hub, Some(1), None, deck(), 0)
        .unwrap();
    store.join_room(&mut hub, 1, input(100, "p1"), 1).unwrap();
    store
        .pick_card(&mut hub, 100, 1, "8".to_string(), 2)
        .unwrap();
    store.show_cards(&mut hub, 1, 3).unwrap();

    let snap = store.reset_game(&mut hub, 1, 4).unwrap();
    assert!(!snap.is_game_over);
    assert!(snap.game.table.is_empty());
}

#[test]
fn mutations_refresh_the_activity_timestamp() {
    let mut store = RoomStore::new();
    let mut hub: Hub<Room> = Hub::new();
    store
        .create_room(&mut hub, Some(1), None, deck(), 5)
        .unwrap();
    store
        .rename_room(&mut hub, 1, Some("renamed".to_string()), 77)
        .unwrap();
    assert_eq!(store.room_by_id(1).unwrap().last_active, 77);
}

#[test]
fn create_room_can_draw_its_own_id() {
    let mut store = RoomStore::new();
    let mut hub: Hub<Room> = Hub::new();
    let room = store
        .create_room(&mut hub, None, Some("drawn".to_string()), deck(), 0)
        .unwrap();
    let found = store.room_by_id(room.id).unwrap();
    assert_eq!(found.name.as_deref(), Some("drawn"));
}
