//! Room-level behaviour: membership, banning, ownership, redaction,
//! picking, pruning and activity tracking.

use planning_poker::chat::ChatMessage;
use planning_poker::game::UserCard;
use planning_poker::room::{RevealStage, Room};
use planning_poker::types::DomainError;
use planning_poker::user::User;

fn sample_user(id: u128, name: &str) -> User {
    User { id, username: name.to_string(), last_card_picked: None }
}

fn sample_room(now: i64) -> Room {
    Room::new_with_id(
        Some(7),
        Some("planning".to_string()),
        vec!["1".to_string(), "2".to_string(), "3".to_string()],
        now,
    )
}

#[test]
fn new_room_defaults() {
    let room = sample_room(5);
    assert_eq!(room.id, 7);
    assert_eq!(room.name.as_deref(), Some("planning"));
    assert!(room.users.is_empty());
    assert!(room.banned_users.is_empty());
    assert_eq!(room.deck.cards, vec!["1", "2", "3"]);
    assert!(room.game.table.is_empty());
    assert!(!room.is_game_over);
    assert_eq!(room.room_owner_id, None);
    assert!(!room.countdown_enabled);
    assert_eq!(room.reveal_stage, RevealStage::Idle);
    assert!(room.confirm_new_game);
    assert_eq!(room.last_active, 5);
    assert!(room.chat_history.is_empty());
}

#[test]
fn ban_removes_member_and_selection_before_recording_ban() {
    let mut room = sample_room(0);
    room.add_user(sample_user(1, "alice"));
    room.add_user(sample_user(2, "bob"));
    room.pick_card(1, "2".to_string()).unwrap();
    room.pick_card(2, "3".to_string()).unwrap();

    room.ban_user(1);

    assert!(!room.is_user_exist(1));
    assert!(room.is_user_exist(2));
    assert!(room.game.table.iter().all(|c| c.user_id != 1));
    assert_eq!(room.banned_users, vec![1]);
    // Banned ids never overlap the members.
    for b in &room.banned_users {
        assert!(!room.is_user_exist(*b));
    }
}

#[test]
fn banning_twice_records_the_id_once() {
    let mut room = sample_room(0);
    room.add_user(sample_user(1, "alice"));
    room.ban_user(1);
    room.ban_user(1);
    assert_eq!(room.banned_users, vec![1]);
}

#[test]
fn banning_an_absent_participant_is_a_safe_no_op_that_records_the_ban() {
    let mut room = sample_room(0);
    room.add_user(sample_user(2, "bob"));
    room.ban_user(9);
    assert!(room.is_banned(9));
    assert!(room.is_user_exist(2));
}

#[test]
fn unban_removes_the_id() {
    let mut room = sample_room(0);
    room.ban_user(5);
    assert!(room.is_banned(5));
    room.unban_user(5);
    assert!(!room.is_banned(5));
    assert!(room.banned_users.is_empty());
}

#[test]
fn unban_of_an_id_not_banned_is_a_no_op_that_succeeds() {
    let mut room = sample_room(0);
    room.ban_user(5);
    room.unban_user(6);
    assert_eq!(room.banned_users, vec![5]);
}

#[test]
fn remove_user_purges_table_entry_and_clears_matching_owner() {
    let mut room = sample_room(0);
    room.add_user(sample_user(1, "alice"));
    room.add_user(sample_user(2, "bob"));
    room.pick_card(1, "1".to_string()).unwrap();
    room.set_room_owner(Some(1)).unwrap();

    room.remove_user(1);

    assert!(!room.is_user_exist(1));
    assert!(room.game.table.is_empty());
    assert_eq!(room.room_owner_id, None);
    // Table keys stay a subset of the member ids.
    for entry in &room.game.table {
        assert!(room.is_user_exist(entry.user_id));
    }
}

#[test]
fn kicking_a_non_owner_keeps_the_owner() {
    let mut room = sample_room(0);
    room.add_user(sample_user(1, "alice"));
    room.add_user(sample_user(2, "bob"));
    room.set_room_owner(Some(1)).unwrap();
    room.kick_user(2);
    assert_eq!(room.room_owner_id, Some(1));
}

#[test]
fn assigning_an_absent_owner_fails_and_changes_nothing() {
    let mut room = sample_room(0);
    room.add_user(sample_user(1, "alice"));
    room.set_room_owner(Some(1)).unwrap();

    let r = room.set_room_owner(Some(42));
    assert_eq!(r, Err(DomainError::InvalidState));
    assert_eq!(room.room_owner_id, Some(1));
}

#[test]
fn clearing_the_owner_always_succeeds() {
    let mut room = sample_room(0);
    room.add_user(sample_user(1, "alice"));
    room.set_room_owner(Some(1)).unwrap();
    assert_eq!(room.set_room_owner(None), Ok(()));
    assert_eq!(room.room_owner_id, None);
}

#[test]
fn redacted_view_hides_cards_until_reveal_then_shows_exact_values() {
    let mut room = sample_room(0);
    room.add_user(sample_user(1, "alice"));
    room.add_user(sample_user(2, "bob"));
    room.pick_card(1, "2".to_string()).unwrap();
    room.pick_card(2, "3".to_string()).unwrap();

    let hidden = room.get_room();
    assert_eq!(hidden.game.table.len(), 2);
    for entry in &hidden.game.table {
        assert_eq!(entry.card, None);
    }
    // The redaction is a copy-out: the stored table still has values.
    assert_eq!(room.game.table[0].card.as_deref(), Some("2"));

    room.is_game_over = true;
    let shown = room.get_room();
    assert_eq!(shown.game.table[0].user_id, 1);
    assert_eq!(shown.game.table[0].card.as_deref(), Some("2"));
    assert_eq!(shown.game.table[1].user_id, 2);
    assert_eq!(shown.game.table[1].card.as_deref(), Some("3"));
}

#[test]
fn pick_replaces_an_earlier_selection() {
    let mut room = sample_room(0);
    room.add_user(sample_user(1, "alice"));
    room.pick_card(1, "1".to_string()).unwrap();
    room.pick_card(1, "3".to_string()).unwrap();
    assert_eq!(room.game.table.len(), 1);
    assert_eq!(room.game.table[0].card.as_deref(), Some("3"));
}

#[test]
fn blank_label_clears_the_selection() {
    // Relies on trimming: a label of spaces and tabs counts as blank.
    // If trimming handed the label back unchanged, this pick would be
    // recorded instead of clearing.
    let mut room = sample_room(0);
    room.add_user(sample_user(1, "alice"));
    room.pick_card(1, "5".to_string()).unwrap();
    room.pick_card(1, " \t ".to_string()).unwrap();
    assert!(room.game.table.is_empty());
}

#[test]
fn padded_label_is_not_blank_and_is_stored_verbatim() {
    let mut room = sample_room(0);
    room.add_user(sample_user(1, "alice"));
    room.pick_card(1, " 5 ".to_string()).unwrap();
    assert_eq!(room.game.table.len(), 1);
    assert_eq!(room.game.table[0].card.as_deref(), Some(" 5 "));
}

#[test]
fn pick_by_a_non_member_is_refused() {
    let mut room = sample_room(0);
    let r = room.pick_card(1, "3".to_string());
    assert_eq!(r, Err(DomainError::InvalidState));
    assert!(room.game.table.is_empty());
}

#[test]
fn edit_user_renames_only_the_matching_member() {
    let mut room = sample_room(0);
    room.add_user(sample_user(1, "alice"));
    room.add_user(sample_user(2, "bob"));
    room.edit_user(1, "alicia".to_string());
    assert_eq!(room.users[0].username, "alicia");
    assert_eq!(room.users[1].username, "bob");
}

#[test]
fn countdown_stage_machine() {
    let mut room = sample_room(0);
    room.start_countdown();
    assert_eq!(room.reveal_stage, RevealStage::Idle);

    room.enable_countdown(true);
    room.start_countdown();
    assert_eq!(room.reveal_stage, RevealStage::Countdown(3));

    room.update_countdown_value(2);
    assert_eq!(room.reveal_stage, RevealStage::Countdown(2));

    room.complete_countdown();
    assert_eq!(room.reveal_stage, RevealStage::Revealed);
    assert!(room.is_game_over);

    room.cancel_countdown();
    assert_eq!(room.reveal_stage, RevealStage::Cancelled);
}

#[test]
fn update_countdown_value_outside_a_countdown_is_a_no_op() {
    let mut room = sample_room(0);
    room.update_countdown_value(1);
    assert_eq!(room.reveal_stage, RevealStage::Idle);
}

#[test]
fn safety_and_inactivity_guards() {
    let mut room = sample_room(1_000);
    assert!(room.is_safe_to_remove());
    room.enable_countdown(true);
    room.start_countdown();
    assert!(!room.is_safe_to_remove());
    room.cancel_countdown();
    assert!(room.is_safe_to_remove());

    assert!(!room.is_inactive_at(1_500, 600));
    assert!(room.is_inactive_at(1_601, 600));
    // A timestamp in the future counts as inactive.
    assert!(room.is_inactive_at(999, 600));
    // Exactly at the TTL boundary the room is still active.
    assert!(!room.is_inactive_at(1_600, 600));
}

#[test]
fn prune_drops_only_messages_older_than_the_window() {
    let mut room = sample_room(0);
    let mk = |id: u128, ts: i64| ChatMessage {
        id,
        room_id: 7,
        user_id: 1,
        username: "alice".to_string(),
        content: "hello".to_string(),
        formatted_content: None,
        content_type: "text".to_string(),
        timestamp: ts,
    };
    room.add_chat_message(mk(1, 100));
    room.add_chat_message(mk(2, 900));
    room.add_chat_message(mk(3, 2_000));

    let removed = room.prune_chat_history(1_000, 500);
    assert_eq!(removed, 1);
    let ids: Vec<u128> = room.chat_history.iter().map(|m| m.id).collect();
    assert_eq!(ids, vec![2, 3]);
    // Pruning never refreshes the activity timestamp.
    assert_eq!(room.last_active, 0);
}

#[test]
fn touch_at_updates_only_the_timestamp() {
    let mut room = sample_room(0);
    room.touch_at(99);
    assert_eq!(room.last_active, 99);
    assert_eq!(room.id, 7);
}

#[test]
fn clone_is_a_deep_independent_copy() {
    let mut room = sample_room(0);
    room.add_user(sample_user(1, "alice"));
    let mut copy = room.clone();
    copy.users.clear();
    copy.game.table.push(UserCard::new(9, "8".to_string()));
    assert_eq!(room.users.len(), 1);
    assert!(room.game.table.is_empty());
}

#[test]
fn generated_ids_are_fresh_and_distinct() {
    let u1 = User::new("ada".to_string());
    let u2 = User::new("ada".to_string());
    assert_ne!(u1.id, u2.id);
    assert_eq!(u1.username, "ada");
    assert_eq!(u1.last_card_picked, None);

    let r1 = Room::new(None, vec!["1".to_string()], 0);
    let r2 = Room::new(None, vec!["1".to_string()], 0);
    assert_ne!(r1.id, r2.id);
    assert_ne!(r1.deck.id, r2.deck.id);

    let m1 = ChatMessage::new(
        r1.id,
        u1.id,
        "ada".to_string(),
        "hi".to_string(),
        None,
        "text".to_string(),
        3,
    );
    let m2 = ChatMessage::new(
        r1.id,
        u1.id,
        "ada".to_string(),
        "hi".to_string(),
        None,
        "text".to_string(),
        3,
    );
    assert_ne!(m1.id, m2.id);
    assert_eq!(m1.room_id, r1.id);
    assert_eq!(m1.timestamp, 3);
}

#[test]
fn touch_reads_the_wall_clock() {
    let mut room = sample_room(0);
    room.touch();
    // The wall clock lies far after the Unix epoch, and a freshly
    // touched room is not inactive for any generous TTL.
    assert!(room.last_active > 0);
    assert!(!room.is_inactive(1_000_000_000));
}
