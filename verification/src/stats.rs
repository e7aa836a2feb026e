//! The telemetry sampler's read-only pass: aggregate counts over the
//! store, taken under one short exclusive read. Derived rates and
//! process resource usage are the embedding's business, computed
//! outside the lock from these totals; sampling never mutates the
//! store, and a failure to sample can never affect its correctness.

use vstd::prelude::*;
use crate::chat::ChatMessage;
use crate::room::RoomModel;
use crate::store::RoomStore;
use crate::sweep::{sat_add, sat_add_u64, BASE_PER_ROOM, PER_DECK_CARD_BYTES, PER_USER_BYTES};

verus! {

/// The length of a string in UTF-8 bytes, as `str::len` reports it.
pub open spec fn byte_len(s: Seq<char>) -> int {
    vstd::utf8::encode_utf8(s).len() as usize as int
}

/// The in-memory weight of one chat message: the longer of its plain
/// and formatted bodies, in UTF-8 bytes.
pub open spec fn message_weight(m: ChatMessage) -> int {
    let content = byte_len(m.content@);
    let formatted = match m.formatted_content {
        Some(f) => byte_len(f@),
        None => 0,
    };
    if formatted > content {
        formatted
    } else {
        content
    }
}

/// The summed weight of a chat log, saturating.
pub open spec fn chat_bytes(log: Seq<ChatMessage>) -> int
    decreases log.len(),
{
    if log.len() == 0 {
        0
    } else {
        sat_add_u64(chat_bytes(log.drop_last()), message_weight(log.last()))
    }
}

/// The member count summed over a sequence of rooms, saturating.
pub open spec fn total_users(s: Seq<RoomModel>) -> int
    decreases s.len(),
{
    if s.len() == 0 {
        0
    } else {
        sat_add_u64(total_users(s.drop_last()), s.last().users.len() as int)
    }
}

/// The deck size summed over a sequence of rooms, saturating.
pub open spec fn total_deck_cards(s: Seq<RoomModel>) -> int
    decreases s.len(),
{
    if s.len() == 0 {
        0
    } else {
        sat_add_u64(total_deck_cards(s.drop_last()), s.last().cards.len() as int)
    }
}

/// The chat message count summed over a sequence of rooms, saturating.
pub open spec fn total_chat_messages(s: Seq<RoomModel>) -> int
    decreases s.len(),
{
    if s.len() == 0 {
        0
    } else {
        sat_add_u64(total_chat_messages(s.drop_last()), s.last().chat_history.len() as int)
    }
}

/// The chat byte weight summed over a sequence of rooms, saturating.
pub open spec fn total_chat_bytes(s: Seq<RoomModel>) -> int
    decreases s.len(),
{
    if s.len() == 0 {
        0
    } else {
        sat_add_u64(total_chat_bytes(s.drop_last()), chat_bytes(s.last().chat_history))
    }
}

/// The whole-store footprint estimate: a constant per room, a weight
/// per member and per deck card, plus the chat bytes, capped at the
/// largest 64-bit value.
pub open spec fn estimated_store_bytes(
    room_count: int,
    users: int,
    deck_cards: int,
    chat: int,
) -> int {
    let raw = BASE_PER_ROOM * room_count + PER_USER_BYTES * users + PER_DECK_CARD_BYTES
        * deck_cards + chat;
    if raw > u64::MAX {
        u64::MAX as int
    } else {
        raw
    }
}

/// One telemetry sample of the store.
pub struct StoreStats {
    pub room_count: usize,
    pub total_users: u64,
    pub total_deck_cards: u64,
    pub total_chat_messages: u64,
    pub total_chat_bytes: u64,
    pub total_estimated_bytes: u64,
}

/// Takes one sample: every field is the exact (saturating) total over
/// the rooms the store holds right now.
pub fn collect_store_stats(store: &RoomStore) -> (s: StoreStats)
    ensures
        s.room_count == store@.len(),
        s.total_users == total_users(store@),
        s.total_deck_cards == total_deck_cards(store@),
        s.total_chat_messages == total_chat_messages(store@),
        s.total_chat_bytes == total_chat_bytes(store@),
        s.total_estimated_bytes == estimated_store_bytes(
            store@.len() as int,
            total_users(store@) as int,
            total_deck_cards(store@) as int,
            total_chat_bytes(store@) as int,
        ),
{
    let n = store.rooms.len();
    let mut users: u64 = 0;
    let mut deck_cards: u64 = 0;
    let mut chat_msgs: u64 = 0;
    let mut chat_weight: u64 = 0;
    let mut i: usize = 0;
    while i < n
        invariant
            i <= n,
            n == store.rooms@.len(),
            users == total_users(store@.subrange(0, i as int)),
            deck_cards == total_deck_cards(store@.subrange(0, i as int)),
            chat_msgs == total_chat_messages(store@.subrange(0, i as int)),
            chat_weight == total_chat_bytes(store@.subrange(0, i as int)),
        decreases n - i,
    {
        let ghost prefix = store@.subrange(0, i as int);
        proof {
            assert(store@.subrange(0, i as int + 1) =~= prefix.push(store@[i as int]));
            assert(store@.subrange(0, i as int + 1).drop_last() =~= prefix);
            assert(store.rooms@[i as int]@ == store@[i as int]);
        }
        let room = &store.rooms[i];
        users = sat_add(users, room.users.len() as u64);
        deck_cards = sat_add(deck_cards, room.deck.cards.len() as u64);
        chat_msgs = sat_add(chat_msgs, room.chat_history.len() as u64);
        let cn = room.chat_history.len();
        let mut w: u64 = 0;
        let mut c: usize = 0;
        while c < cn
            invariant
                c <= cn,
                cn == room.chat_history@.len(),
                w == chat_bytes(room.chat_history@.subrange(0, c as int)),
            decreases cn - c,
        {
            let ghost cprefix = room.chat_history@.subrange(0, c as int);
            proof {
                assert(room.chat_history@.subrange(0, c as int + 1) =~= cprefix.push(
                    room.chat_history@[c as int],
                ));
                assert(room.chat_history@.subrange(0, c as int + 1).drop_last() =~= cprefix);
            }
            let msg = &room.chat_history[c];
            let formatted_len: usize = match &msg.formatted_content {
                Some(f) => f.as_str().len(),
                None => 0,
            };
            let content_len: usize = msg.content.as_str().len();
            let weight: usize = if formatted_len > content_len {
                formatted_len
            } else {
                content_len
            };
            proof {
                let cm = room.chat_history@[c as int];
                assert(weight as int == message_weight(cm));
                assert(chat_bytes(cprefix.push(cm)) == sat_add_u64(
                    chat_bytes(cprefix),
                    message_weight(cm),
                ));
            }
            w = sat_add(w, weight as u64);
            c += 1;
        }
        proof {
            assert(room.chat_history@.subrange(0, cn as int) =~= room.chat_history@);
        }
        chat_weight = sat_add(chat_weight, w);
        i += 1;
    }
    proof {
        assert(store@.subrange(0, n as int) =~= store@);
    }
    let est128: u128 = (BASE_PER_ROOM as u128) * (n as u128) + (PER_USER_BYTES as u128) * (
    users as u128) + (PER_DECK_CARD_BYTES as u128) * (deck_cards as u128) + (chat_weight as u128);
    let est: u64 = if est128 > u64::MAX as u128 {
        u64::MAX
    } else {
        est128 as u64
    };
    StoreStats {
        room_count: n,
        total_users: users,
        total_deck_cards: deck_cards,
        total_chat_messages: chat_msgs,
        total_chat_bytes: chat_weight,
        total_estimated_bytes: est,
    }
}

} // verus!
