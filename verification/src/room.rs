//! The session aggregate: membership, card table, reveal/countdown stage,
//! activity timestamp and bounded chat log of one room, together with the
//! invariants every operation preserves:
//!
//! - member ids are unique;
//! - `banned_users` is disjoint from the members: banning first removes;
//! - the table holds at most one selection per participant, and only for
//!   current members;
//! - `room_owner_id`, if set, references a current member;
//! - a `Countdown` stage carries a tick value in `0 ..= 3`.

use vstd::prelude::*;
use crate::chat::ChatMessage;
use crate::deck::Deck;
use crate::game::{Game, UserCard};
use crate::ids::fresh_entity_id;
use crate::labels::{label_is_blank, trimmed_of};
use crate::seq_util::{
    lemma_filter_keeps_distinct_keys, lemma_filter_push, lemma_filter_retains_all,
    lemma_filter_subset,
};
use crate::types::{Card, DomainError, EntityId};
use crate::user::User;

verus! {

/// The reveal state machine of a room. `Countdown` carries the current
/// tick value; invalid stage/value combinations are unrepresentable.
#[derive(Clone, Copy, Debug, PartialEq, Eq, Structural)]
pub enum RevealStage {
    Idle,
    Countdown(i32),
    Revealed,
    Cancelled,
}

/// One collaborative estimation session.
pub struct Room {
    pub id: EntityId,
    pub name: Option<String>,
    pub users: Vec<User>,
    pub banned_users: Vec<EntityId>,
    pub deck: Deck,
    pub game: Game,
    /// True once selections are visible to all.
    pub is_game_over: bool,
    pub room_owner_id: Option<EntityId>,
    pub countdown_enabled: bool,
    pub reveal_stage: RevealStage,
    pub confirm_new_game: bool,
    /// Milliseconds since the Unix epoch; refreshed by every mutation.
    pub last_active: i64,
    pub chat_history: Vec<ChatMessage>,
}

/// The mathematical state of a room, used by every contract.
#[verifier::ext_equal]
pub struct RoomModel {
    pub id: EntityId,
    pub name: Option<String>,
    pub users: Seq<User>,
    pub banned_users: Seq<EntityId>,
    pub deck_id: EntityId,
    pub cards: Seq<Card>,
    pub table: Seq<UserCard>,
    pub is_game_over: bool,
    pub room_owner_id: Option<EntityId>,
    pub countdown_enabled: bool,
    pub reveal_stage: RevealStage,
    pub confirm_new_game: bool,
    pub last_active: i64,
    pub chat_history: Seq<ChatMessage>,
}

impl View for Room {
    type V = RoomModel;

    open spec fn view(&self) -> RoomModel {
        RoomModel {
            id: self.id,
            name: self.name,
            users: self.users@,
            banned_users: self.banned_users@,
            deck_id: self.deck.id,
            cards: self.deck.cards@,
            table: self.game.table@,
            is_game_over: self.is_game_over,
            room_owner_id: self.room_owner_id,
            countdown_enabled: self.countdown_enabled,
            reveal_stage: self.reveal_stage,
            confirm_new_game: self.confirm_new_game,
            last_active: self.last_active,
            chat_history: self.chat_history@,
        }
    }
}

/// Whether a participant with id `uid` is a current member.
pub open spec fn has_member(users: Seq<User>, uid: EntityId) -> bool {
    exists|i: int| 0 <= i < users.len() && users[i].id == uid
}

/// Whether the table holds a selection of participant `uid`.
pub open spec fn table_has(table: Seq<UserCard>, uid: EntityId) -> bool {
    exists|i: int| 0 <= i < table.len() && table[i].user_id == uid
}

/// Keeps every member but `uid` (the filter of a removal).
pub open spec fn keep_other_users(uid: EntityId) -> spec_fn(User) -> bool {
    |u: User| u.id != uid
}

/// Keeps every table entry but the one of `uid`.
pub open spec fn keep_other_entries(uid: EntityId) -> spec_fn(UserCard) -> bool {
    |c: UserCard| c.user_id != uid
}

/// Keeps every banned id but `uid` (the filter of an unban).
pub open spec fn keep_other_ids(uid: EntityId) -> spec_fn(EntityId) -> bool {
    |b: EntityId| b != uid
}

/// Renames the member with id `uid`, leaving every other member as is.
pub open spec fn rename_member(uid: EntityId, name: String) -> spec_fn(User) -> User {
    |u: User|
        if u.id == uid {
            User { id: u.id, username: name, last_card_picked: u.last_card_picked }
        } else {
            u
        }
}

/// Hides a table entry's card value ("no selection").
pub open spec fn hide_selection() -> spec_fn(UserCard) -> UserCard {
    |c: UserCard| UserCard { user_id: c.user_id, card: None }
}

/// Keeps a chat message that is still inside the retention window at
/// time `now` (future-dated messages are kept).
pub open spec fn chat_message_kept(now: i64, retention_millis: i64) -> spec_fn(ChatMessage) -> bool {
    |m: ChatMessage| now - m.timestamp <= retention_millis
}

impl RoomModel {
    /// The room invariant; established at construction, preserved by
    /// every operation.
    pub open spec fn inv(self) -> bool {
        &&& (forall|i: int, j: int|
            0 <= i < j < self.users.len() ==> (#[trigger] self.users[i]).id != (
            #[trigger] self.users[j]).id)
        &&& (forall|i: int|
            0 <= i < self.banned_users.len() ==> !has_member(
                self.users,
                #[trigger] self.banned_users[i],
            ))
        &&& (forall|i: int, j: int|
            0 <= i < j < self.table.len() ==> (#[trigger] self.table[i]).user_id != (
            #[trigger] self.table[j]).user_id)
        &&& (forall|i: int|
            0 <= i < self.table.len() ==> has_member(
                self.users,
                (#[trigger] self.table[i]).user_id,
            ))
        &&& (self.room_owner_id matches Some(uid) ==> has_member(self.users, uid))
        &&& (self.reveal_stage matches RevealStage::Countdown(n) ==> 0 <= n <= 3)
    }

    /// The externally visible projection: while the game is not over,
    /// every table entry's card value is hidden; once it is over, the
    /// real values are shown.
    pub open spec fn publishable(self) -> RoomModel {
        if self.is_game_over {
            self
        } else {
            RoomModel { table: self.table.map_values(hide_selection()), ..self }
        }
    }
}

impl Clone for Room {
    fn clone(&self) -> (r: Self)
        ensures
            r@ == self@,
    {
        let r = Room {
            id: self.id,
            name: (match &self.name {
                Some(n) => Some(n.clone()),
                None => None,
            }),
            users: self.users.clone(),
            banned_users: self.banned_users.clone(),
            deck: self.deck.clone(),
            game: self.game.clone(),
            is_game_over: self.is_game_over,
            room_owner_id: self.room_owner_id,
            countdown_enabled: self.countdown_enabled,
            reveal_stage: self.reveal_stage,
            confirm_new_game: self.confirm_new_game,
            last_active: self.last_active,
            chat_history: self.chat_history.clone(),
        };
        proof {
            assert(r.users@ =~= self.users@);
            assert(r.banned_users@ =~= self.banned_users@);
            assert(r.chat_history@ =~= self.chat_history@);
            assert(r@ =~= self@);
        }
        r
    }
}

impl Room {
    /// A fresh room: no members, no bans, an empty table, stage `Idle`,
    /// `confirm_new_game` set, not revealed, stamped `now`. A missing id
    /// is drawn freshly.
    pub fn new_with_id(id: Option<EntityId>, name: Option<String>, cards: Vec<Card>, now: i64) -> (r:
        Room)
        ensures
            (id matches Some(given) ==> r.id == given),
            r@ == (RoomModel {
                id: r.id,
                name: name,
                users: Seq::<User>::empty(),
                banned_users: Seq::<EntityId>::empty(),
                deck_id: r@.deck_id,
                cards: cards@,
                table: Seq::<UserCard>::empty(),
                is_game_over: false,
                room_owner_id: None,
                countdown_enabled: false,
                reveal_stage: RevealStage::Idle,
                confirm_new_game: true,
                last_active: now,
                chat_history: Seq::<ChatMessage>::empty(),
            }),
            r@.inv(),
    {
        let rid: EntityId = match id {
            Some(given) => given,
            None => fresh_entity_id(),
        };
        Room {
            id: rid,
            name,
            users: Vec::new(),
            banned_users: Vec::new(),
            deck: Deck::new_with_cards(cards),
            game: Game::new(),
            is_game_over: false,
            room_owner_id: None,
            countdown_enabled: false,
            reveal_stage: RevealStage::Idle,
            confirm_new_game: true,
            last_active: now,
            chat_history: Vec::new(),
        }
    }

    /// A fresh room with a freshly drawn id.
    pub fn new(name: Option<String>, cards: Vec<Card>, now: i64) -> (r: Room)
        ensures
            r@ == (RoomModel {
                id: r.id,
                name: name,
                users: Seq::<User>::empty(),
                banned_users: Seq::<EntityId>::empty(),
                deck_id: r@.deck_id,
                cards: cards@,
                table: Seq::<UserCard>::empty(),
                is_game_over: false,
                room_owner_id: None,
                countdown_enabled: false,
                reveal_stage: RevealStage::Idle,
                confirm_new_game: true,
                last_active: now,
                chat_history: Seq::<ChatMessage>::empty(),
            }),
            r@.inv(),
    {
        Self::new_with_id(None, name, cards, now)
    }

    /// The redacted snapshot suitable for publishing to clients: card
    /// values are hidden unless the game is over.
    pub fn get_room(&self) -> (r: Room)
        ensures
            r@ == self@.publishable(),
    {
        let mut r = self.clone();
        if !self.is_game_over {
            let n = self.game.table.len();
            let mut table: Vec<UserCard> = Vec::new();
            let mut i: usize = 0;
            while i < n
                invariant
                    i <= n,
                    n == self.game.table.len(),
                    table@ == self.game.table@.subrange(0, i as int).map_values(hide_selection()),
                decreases n - i,
            {
                let ghost prefix = self.game.table@.subrange(0, i as int);
                table.push(UserCard { user_id: self.game.table[i].user_id, card: None });
                proof {
                    assert(self.game.table@.subrange(0, i as int + 1) =~= prefix.push(
                        self.game.table@[i as int],
                    ));
                    assert(prefix.push(self.game.table@[i as int]).map_values(hide_selection())
                        =~= prefix.map_values(hide_selection()).push(
                        hide_selection()(self.game.table@[i as int]),
                    ));
                }
                i += 1;
            }
            r.game = Game { table };
            proof {
                assert(self.game.table@.subrange(0, n as int) =~= self.game.table@);
                assert(r@ =~= self@.publishable());
            }
        }
        r
    }

    /// Whether `user_id` is a current member.
    pub fn is_user_exist(&self, user_id: EntityId) -> (r: bool)
        ensures
            r == has_member(self@.users, user_id),
    {
        let n = self.users.len();
        let mut i: usize = 0;
        while i < n
            invariant
                i <= n,
                n == self.users.len(),
                forall|j: int| 0 <= j < i ==> (#[trigger] self.users@[j]).id != user_id,
            decreases n - i,
        {
            if self.users[i].id == user_id {
                return true;
            }
            i += 1;
        }
        false
    }

    /// Renames the member with id `user_id`; a no-op when absent.
    pub fn edit_user(&mut self, user_id: EntityId, username: String)
        requires
            old(self)@.inv(),
        ensures
            final(self)@ == (RoomModel {
                users: old(self)@.users.map_values(rename_member(user_id, username)),
                ..old(self)@
            }),
            final(self)@.inv(),
    {
        let n = self.users.len();
        let mut users: Vec<User> = Vec::new();
        let mut i: usize = 0;
        while i < n
            invariant
                i <= n,
                n == self.users.len(),
                users@ == self.users@.subrange(0, i as int).map_values(
                    rename_member(user_id, username),
                ),
            decreases n - i,
        {
            let ghost prefix = self.users@.subrange(0, i as int);
            let u = &self.users[i];
            if u.id == user_id {
                users.push(
                    User {
                        id: u.id,
                        username: username.clone(),
                        last_card_picked: (match &u.last_card_picked {
                            Some(c) => Some(c.clone()),
                            None => None,
                        }),
                    },
                );
            } else {
                users.push(u.clone());
            }
            proof {
                assert(self.users@.subrange(0, i as int + 1) =~= prefix.push(
                    self.users@[i as int],
                ));
                assert(prefix.push(self.users@[i as int]).map_values(
                    rename_member(user_id, username),
                ) =~= prefix.map_values(rename_member(user_id, username)).push(
                    rename_member(user_id, username)(self.users@[i as int]),
                ));
            }
            i += 1;
        }
        proof {
            assert(self.users@.subrange(0, n as int) =~= self.users@);
        }
        self.users = users;
        proof {
            let m = rename_member(user_id, username);
            let before = old(self)@.users;
            let after = before.map_values(m);
            assert(forall|i: int| 0 <= i < after.len() ==> (#[trigger] after[i]).id
                == before[i].id);
            assert forall|b: EntityId| has_member(after, b) implies has_member(before, b) by {
                let i = choose|i: int| 0 <= i < after.len() && after[i].id == b;
                assert(before[i].id == b);
            }
            assert forall|b: EntityId| has_member(before, b) implies has_member(after, b) by {
                let i = choose|i: int| 0 <= i < before.len() && before[i].id == b;
                assert(after[i].id == b);
            }
            assert(self@ =~= (RoomModel { users: after, ..old(self)@ }));
        }
    }

    /// Detaches `user_id`: removes it from the members and purges its
    /// table entry; clears the owner when the owner itself is removed.
    pub fn remove_user(&mut self, user_id: EntityId)
        requires
            old(self)@.inv(),
        ensures
            final(self)@ == (RoomModel {
                users: old(self)@.users.filter(keep_other_users(user_id)),
                table: old(self)@.table.filter(keep_other_entries(user_id)),
                room_owner_id: if old(self)@.room_owner_id == Some(user_id) {
                    None
                } else {
                    old(self)@.room_owner_id
                },
                ..old(self)@
            }),
            final(self)@.inv(),
            !has_member(final(self)@.users, user_id),
            !table_has(final(self)@.table, user_id),
    {
        let n = self.users.len();
        let mut users: Vec<User> = Vec::new();
        let mut i: usize = 0;
        while i < n
            invariant
                i <= n,
                n == self.users.len(),
                users@ == self.users@.subrange(0, i as int).filter(keep_other_users(user_id)),
            decreases n - i,
        {
            let ghost prefix = self.users@.subrange(0, i as int);
            let u = &self.users[i];
            if u.id != user_id {
                users.push(u.clone());
            }
            proof {
                assert(self.users@.subrange(0, i as int + 1) =~= prefix.push(
                    self.users@[i as int],
                ));
                lemma_filter_push(prefix, self.users@[i as int], keep_other_users(user_id));
            }
            i += 1;
        }
        let tn = self.game.table.len();
        let mut table: Vec<UserCard> = Vec::new();
        let mut t: usize = 0;
        while t < tn
            invariant
                t <= tn,
                tn == self.game.table.len(),
                table@ == self.game.table@.subrange(0, t as int).filter(
                    keep_other_entries(user_id),
                ),
            decreases tn - t,
        {
            let ghost prefix = self.game.table@.subrange(0, t as int);
            let c = &self.game.table[t];
            if c.user_id != user_id {
                table.push(c.clone());
            }
            proof {
                assert(self.game.table@.subrange(0, t as int + 1) =~= prefix.push(
                    self.game.table@[t as int],
                ));
                lemma_filter_push(prefix, self.game.table@[t as int], keep_other_entries(user_id));
            }
            t += 1;
        }
        proof {
            assert(self.users@.subrange(0, n as int) =~= self.users@);
            assert(self.game.table@.subrange(0, tn as int) =~= self.game.table@);
        }
        self.users = users;
        self.game = Game { table };
        if let Some(owner) = self.room_owner_id {
            if owner == user_id {
                self.room_owner_id = None;
            }
        }
        proof {
            Self::lemma_removal_invariant(old(self)@, self@, user_id);
        }
    }

    /// The detachment of one participant preserves the room invariant.
    proof fn lemma_removal_invariant(pre: RoomModel, post: RoomModel, user_id: EntityId)
        requires
            pre.inv(),
            post == (RoomModel {
                users: pre.users.filter(keep_other_users(user_id)),
                table: pre.table.filter(keep_other_entries(user_id)),
                room_owner_id: if pre.room_owner_id == Some(user_id) {
                    None
                } else {
                    pre.room_owner_id
                },
                ..pre
            }),
        ensures
            post.inv(),
            !has_member(post.users, user_id),
            !table_has(post.table, user_id),
    {
        let pu = keep_other_users(user_id);
        let pt = keep_other_entries(user_id);
        lemma_filter_keeps_distinct_keys(pre.users, pu, |u: User| u.id);
        lemma_filter_keeps_distinct_keys(pre.table, pt, |c: UserCard| c.user_id);
        lemma_filter_subset(pre.users, pu);
        lemma_filter_subset(pre.table, pt);
        broadcast use vstd::seq_lib::group_filter_ensures;

        // No member of the filtered list carries the removed id.
        assert forall|b: EntityId| has_member(post.users, b) implies has_member(pre.users, b)
            && b != user_id by {
            let i = choose|i: int| 0 <= i < post.users.len() && post.users[i].id == b;
            assert(pre.users.contains(post.users[i]));
            let j = choose|j: int| 0 <= j < pre.users.len() && pre.users[j] == post.users[i];
            assert(pu(post.users[i]));
        }
        // Members that survive are exactly the members with another id.
        assert forall|b: EntityId| has_member(pre.users, b) && b != user_id implies has_member(
            post.users,
            b,
        ) by {
            let i = choose|i: int| 0 <= i < pre.users.len() && pre.users[i].id == b;
            assert(pu(pre.users[i]));
            assert(post.users.contains(pre.users[i]));
            let j = choose|j: int| 0 <= j < post.users.len() && post.users[j] == pre.users[i];
        }
        assert forall|i: int| 0 <= i < post.table.len() implies has_member(
            post.users,
            (#[trigger] post.table[i]).user_id,
        ) by {
            assert(pre.table.contains(post.table[i]));
            let j = choose|j: int| 0 <= j < pre.table.len() && pre.table[j] == post.table[i];
            assert(has_member(pre.users, post.table[i].user_id));
            assert(pt(post.table[i]));
        }
        assert forall|i: int| 0 <= i < post.table.len() implies (#[trigger] post.table[i]).user_id
            != user_id by {
            assert(pt(post.table[i]));
        }
    }

    /// Attaches a participant at the end of the member list. The id
    /// must be fresh and not banned, so that membership stays unique
    /// and disjoint from the banned set.
    pub fn add_user(&mut self, user: User)
        requires
            old(self)@.inv(),
            !has_member(old(self)@.users, user.id),
            !old(self)@.banned_users.contains(user.id),
        ensures
            final(self)@ == (RoomModel { users: old(self)@.users.push(user), ..old(self)@ }),
            final(self)@.inv(),
    {
        let ghost uid = user.id;
        self.users.push(user);
        proof {
            let before = old(self)@.users;
            let after = self@.users;
            assert(after == before.push(old(self)@.users.push(user).last()));
            assert forall|i: int, j: int| 0 <= i < j < after.len() implies (
            #[trigger] after[i]).id != (#[trigger] after[j]).id by {
                if j == after.len() - 1 {
                    assert(after[i] == before[i]);
                    if after[i].id == uid {
                        assert(has_member(before, uid));
                    }
                } else {
                    assert(after[i] == before[i]);
                    assert(after[j] == before[j]);
                }
            }
            assert forall|i: int| 0 <= i < self@.banned_users.len() implies !has_member(
                after,
                #[trigger] self@.banned_users[i],
            ) by {
                let b = self@.banned_users[i];
                assert(b != uid);
                if has_member(after, b) {
                    let k = choose|k: int| 0 <= k < after.len() && after[k].id == b;
                    assert(k < after.len() - 1);
                    assert(before[k].id == b);
                    assert(has_member(before, b));
                }
            }
            assert forall|i: int| 0 <= i < self@.table.len() implies has_member(
                after,
                (#[trigger] self@.table[i]).user_id,
            ) by {
                assert(has_member(before, self@.table[i].user_id));
                let k = choose|k: int| 0 <= k < before.len() && before[k].id == self@.table[i].user_id;
                assert(after[k].id == self@.table[i].user_id);
            }
            match self@.room_owner_id {
                Some(o) => {
                    let k = choose|k: int| 0 <= k < before.len() && before[k].id == o;
                    assert(after[k].id == o);
                },
                None => {},
            }
        }
    }

    /// Assigns or clears the owner. Assigning an id that is not a
    /// current member fails with `InvalidState` and changes nothing.
    pub fn set_room_owner(&mut self, user_id: Option<EntityId>) -> (r: Result<(), DomainError>)
        requires
            old(self)@.inv(),
        ensures
            (match user_id {
                Some(uid) => {
                    if has_member(old(self)@.users, uid) {
                        r is Ok && final(self)@ == (RoomModel {
                            room_owner_id: Some(uid),
                            ..old(self)@
                        })
                    } else {
                        r == Result::<(), DomainError>::Err(DomainError::InvalidState)
                            && final(self)@ == old(self)@
                    }
                },
                None => r is Ok && final(self)@ == (RoomModel {
                    room_owner_id: None,
                    ..old(self)@
                }),
            }),
            final(self)@.inv(),
    {
        match user_id {
            Some(uid) => {
                if !self.is_user_exist(uid) {
                    return Err(DomainError::InvalidState);
                }
                self.room_owner_id = Some(uid);
                Ok(())
            },
            None => {
                self.room_owner_id = None;
                Ok(())
            },
        }
    }

    /// Replaces the display label.
    pub fn rename(&mut self, new_name: Option<String>)
        ensures
            final(self)@ == (RoomModel { name: new_name, ..old(self)@ }),
    {
        self.name = new_name;
    }

    /// Whether `user_id` is banned from this room.
    pub fn is_banned(&self, user_id: EntityId) -> (r: bool)
        ensures
            r == self@.banned_users.contains(user_id),
    {
        let n = self.banned_users.len();
        let mut i: usize = 0;
        while i < n
            invariant
                i <= n,
                n == self.banned_users.len(),
                forall|j: int| 0 <= j < i ==> self.banned_users@[j] != user_id,
            decreases n - i,
        {
            if self.banned_users[i] == user_id {
                return true;
            }
            i += 1;
        }
        false
    }

    /// Detaches `user_id` without banning it.
    pub fn kick_user(&mut self, user_id: EntityId)
        requires
            old(self)@.inv(),
        ensures
            final(self)@ == (RoomModel {
                users: old(self)@.users.filter(keep_other_users(user_id)),
                table: old(self)@.table.filter(keep_other_entries(user_id)),
                room_owner_id: if old(self)@.room_owner_id == Some(user_id) {
                    None
                } else {
                    old(self)@.room_owner_id
                },
                ..old(self)@
            }),
            final(self)@.inv(),
    {
        self.remove_user(user_id);
    }

    /// Detaches `user_id` and adds it to the banned set (idempotently:
    /// an id already banned is not added twice). Banning a participant
    /// already absent is a safe no-op that still records the ban.
    pub fn ban_user(&mut self, user_id: EntityId)
        requires
            old(self)@.inv(),
        ensures
            final(self)@ == (RoomModel {
                users: old(self)@.users.filter(keep_other_users(user_id)),
                table: old(self)@.table.filter(keep_other_entries(user_id)),
                room_owner_id: if old(self)@.room_owner_id == Some(user_id) {
                    None
                } else {
                    old(self)@.room_owner_id
                },
                banned_users: if old(self)@.banned_users.contains(user_id) {
                    old(self)@.banned_users
                } else {
                    old(self)@.banned_users.push(user_id)
                },
                ..old(self)@
            }),
            final(self)@.inv(),
            final(self)@.banned_users.contains(user_id),
            !has_member(final(self)@.users, user_id),
    {
        self.remove_user(user_id);
        let already = self.is_banned(user_id);
        if !already {
            self.banned_users.push(user_id);
        }
        proof {
            let mid_users = old(self)@.users.filter(keep_other_users(user_id));
            lemma_filter_subset(old(self)@.users, keep_other_users(user_id));
            broadcast use vstd::seq_lib::group_filter_ensures;

            assert forall|b: EntityId| has_member(mid_users, b) implies has_member(
                old(self)@.users,
                b,
            ) by {
                let i = choose|i: int| 0 <= i < mid_users.len() && mid_users[i].id == b;
                assert(old(self)@.users.contains(mid_users[i]));
                let j = choose|j: int|
                    0 <= j < old(self)@.users.len() && old(self)@.users[j] == mid_users[i];
            }
            assert forall|i: int| 0 <= i < mid_users.len() implies (#[trigger] mid_users[i]).id
                != user_id by {
                assert(keep_other_users(user_id)(mid_users[i]));
            }
            if !old(self)@.banned_users.contains(user_id) {
                assert(self@.banned_users == old(self)@.banned_users.push(user_id));
            }
            assert(self@.banned_users.contains(user_id)) by {
                if old(self)@.banned_users.contains(user_id) {
                } else {
                    assert(self@.banned_users.last() == user_id);
                }
            }
        }
    }

    /// Removes `user_id` from the banned set. Unbanning a participant
    /// not currently banned is a no-op that still succeeds.
    pub fn unban_user(&mut self, user_id: EntityId)
        requires
            old(self)@.inv(),
        ensures
            final(self)@ == (RoomModel {
                banned_users: old(self)@.banned_users.filter(keep_other_ids(user_id)),
                ..old(self)@
            }),
            !old(self)@.banned_users.contains(user_id) ==> final(self)@ == old(self)@,
            final(self)@.inv(),
    {
        let n = self.banned_users.len();
        let mut banned: Vec<EntityId> = Vec::new();
        let mut i: usize = 0;
        while i < n
            invariant
                i <= n,
                n == self.banned_users.len(),
                banned@ == self.banned_users@.subrange(0, i as int).filter(
                    keep_other_ids(user_id),
                ),
            decreases n - i,
        {
            let ghost prefix = self.banned_users@.subrange(0, i as int);
            let b = self.banned_users[i];
            if b != user_id {
                banned.push(b);
            }
            proof {
                assert(self.banned_users@.subrange(0, i as int + 1) =~= prefix.push(
                    self.banned_users@[i as int],
                ));
                lemma_filter_push(prefix, self.banned_users@[i as int], keep_other_ids(user_id));
            }
            i += 1;
        }
        proof {
            assert(self.banned_users@.subrange(0, n as int) =~= self.banned_users@);
        }
        self.banned_users = banned;
        proof {
            lemma_filter_subset(old(self)@.banned_users, keep_other_ids(user_id));
            if !old(self)@.banned_users.contains(user_id) {
                assert forall|i: int| 0 <= i < old(self)@.banned_users.len() implies keep_other_ids(
                    user_id,
                )(#[trigger] old(self)@.banned_users[i]) by {
                    assert(old(self)@.banned_users[i] != user_id);
                }
                lemma_filter_retains_all(old(self)@.banned_users, keep_other_ids(user_id));
                assert(self@ =~= old(self)@);
            }
            assert forall|i: int| 0 <= i < self@.banned_users.len() implies !has_member(
                self@.users,
                #[trigger] self@.banned_users[i],
            ) by {
                assert(old(self)@.banned_users.contains(self@.banned_users[i]));
                let j = choose|j: int|
                    0 <= j < old(self)@.banned_users.len() && old(self)@.banned_users[j]
                        == self@.banned_users[i];
            }
        }
    }

    /// Switches the countdown feature flag.
    pub fn enable_countdown(&mut self, enabled: bool)
        ensures
            final(self)@ == (RoomModel { countdown_enabled: enabled, ..old(self)@ }),
    {
        self.countdown_enabled = enabled;
    }

    /// Enters the countdown at tick 3 when the feature is enabled; a
    /// no-op otherwise.
    pub fn start_countdown(&mut self)
        ensures
            final(self)@ == (RoomModel {
                reveal_stage: if old(self)@.countdown_enabled {
                    RevealStage::Countdown(3)
                } else {
                    old(self)@.reveal_stage
                },
                ..old(self)@
            }),
    {
        if self.countdown_enabled {
            self.reveal_stage = RevealStage::Countdown(3);
        }
    }

    /// Replaces the current tick value; meaningful only while counting
    /// down, a no-op in every other stage.
    pub fn update_countdown_value(&mut self, value: i32)
        requires
            0 <= value <= 3,
        ensures
            final(self)@ == (RoomModel {
                reveal_stage: if old(self)@.reveal_stage is Countdown {
                    RevealStage::Countdown(value)
                } else {
                    old(self)@.reveal_stage
                },
                ..old(self)@
            }),
    {
        if let RevealStage::Countdown(_) = self.reveal_stage {
            self.reveal_stage = RevealStage::Countdown(value);
        }
    }

    /// Finishes the countdown: stage `Revealed`, selections visible.
    pub fn complete_countdown(&mut self)
        ensures
            final(self)@ == (RoomModel {
                reveal_stage: RevealStage::Revealed,
                is_game_over: true,
                ..old(self)@
            }),
    {
        self.reveal_stage = RevealStage::Revealed;
        self.is_game_over = true;
    }

    /// Cancels the countdown: stage `Cancelled`, no tick value kept,
    /// selections stay hidden.
    pub fn cancel_countdown(&mut self)
        ensures
            final(self)@ == (RoomModel { reveal_stage: RevealStage::Cancelled, ..old(self)@ }),
    {
        self.reveal_stage = RevealStage::Cancelled;
    }

    /// Switches the "confirm a new game" UI hint.
    pub fn toggle_confirm_new_game(&mut self, enabled: bool)
        ensures
            final(self)@ == (RoomModel { confirm_new_game: enabled, ..old(self)@ }),
    {
        self.confirm_new_game = enabled;
    }

    /// Records `card` as `user_id`'s selection, replacing any earlier
    /// one; a blank label (empty after trimming) clears the selection
    /// instead. Picking by a participant that is not a current member
    /// fails with `InvalidState` and changes nothing, so that the table
    /// keys stay a subset of the member ids.
    pub fn pick_card(&mut self, user_id: EntityId, card: Card) -> (r: Result<(), DomainError>)
        requires
            old(self)@.inv(),
        ensures
            (if has_member(old(self)@.users, user_id) {
                r is Ok && final(self)@ == (RoomModel {
                    table: if trimmed_of(card@).len() == 0 {
                        old(self)@.table.filter(keep_other_entries(user_id))
                    } else {
                        old(self)@.table.filter(keep_other_entries(user_id)).push(
                            UserCard { user_id: user_id, card: Some(card) },
                        )
                    },
                    ..old(self)@
                })
            } else {
                r == Result::<(), DomainError>::Err(DomainError::InvalidState) && final(self)@
                    == old(self)@
            }),
            final(self)@.inv(),
    {
        if !self.is_user_exist(user_id) {
            return Err(DomainError::InvalidState);
        }
        let tn = self.game.table.len();
        let mut table: Vec<UserCard> = Vec::new();
        let mut t: usize = 0;
        while t < tn
            invariant
                t <= tn,
                tn == self.game.table.len(),
                table@ == self.game.table@.subrange(0, t as int).filter(
                    keep_other_entries(user_id),
                ),
            decreases tn - t,
        {
            let ghost prefix = self.game.table@.subrange(0, t as int);
            let c = &self.game.table[t];
            if c.user_id != user_id {
                table.push(c.clone());
            }
            proof {
                assert(self.game.table@.subrange(0, t as int + 1) =~= prefix.push(
                    self.game.table@[t as int],
                ));
                lemma_filter_push(prefix, self.game.table@[t as int], keep_other_entries(user_id));
            }
            t += 1;
        }
        proof {
            assert(self.game.table@.subrange(0, tn as int) =~= self.game.table@);
        }
        let blank = label_is_blank(card.as_str());
        if !blank {
            table.push(UserCard::new(user_id, card));
        }
        self.game = Game { table };
        proof {
            let pt = keep_other_entries(user_id);
            let filtered = old(self)@.table.filter(pt);
            lemma_filter_keeps_distinct_keys(old(self)@.table, pt, |c: UserCard| c.user_id);
            lemma_filter_subset(old(self)@.table, pt);
            broadcast use vstd::seq_lib::group_filter_ensures;

            assert forall|i: int| 0 <= i < filtered.len() implies (#[trigger] filtered[i]).user_id
                != user_id by {
                assert(pt(filtered[i]));
            }
            assert forall|i: int| 0 <= i < filtered.len() implies has_member(
                self@.users,
                (#[trigger] filtered[i]).user_id,
            ) by {
                assert(old(self)@.table.contains(filtered[i]));
                let j = choose|j: int|
                    0 <= j < old(self)@.table.len() && old(self)@.table[j] == filtered[i];
            }
        }
        Ok(())
    }

    /// Refreshes the activity timestamp to `now`.
    pub fn touch_at(&mut self, now: i64)
        ensures
            final(self)@ == (RoomModel { last_active: now, ..old(self)@ }),
    {
        self.last_active = now;
    }

    /// Refreshes the activity timestamp from the wall clock.
    pub fn touch(&mut self)
        ensures
            final(self)@ == (RoomModel {
                last_active: final(self)@.last_active,
                ..old(self)@
            }),
    {
        let now = crate::clock::now_millis();
        self.touch_at(now);
    }

    /// Conservative guard: false while a countdown is in progress —
    /// never evict a room mid-reveal.
    pub fn is_safe_to_remove(&self) -> (r: bool)
        ensures
            r == !(self@.reveal_stage is Countdown),
    {
        match self.reveal_stage {
            RevealStage::Countdown(_) => false,
            _ => true,
        }
    }

    /// Whether the room's last activity, seen at time `now`, lies
    /// further back than `ttl_millis`. A timestamp in the future counts
    /// as inactive, as a clock anomaly not worth keeping a room for.
    pub fn is_inactive_at(&self, now: i64, ttl_millis: i64) -> (r: bool)
        ensures
            r == (now < self@.last_active || now - self@.last_active > ttl_millis),
    {
        if now < self.last_active {
            true
        } else {
            (now as i128) - (self.last_active as i128) > (ttl_millis as i128)
        }
    }

    /// Whether the room is inactive as of the wall clock's reading.
    pub fn is_inactive(&self, ttl_millis: i64) -> bool {
        let now = crate::clock::now_millis();
        self.is_inactive_at(now, ttl_millis)
    }

    /// Appends a chat message to the log.
    pub fn add_chat_message(&mut self, message: ChatMessage)
        ensures
            final(self)@ == (RoomModel {
                chat_history: old(self)@.chat_history.push(message),
                ..old(self)@
            }),
    {
        self.chat_history.push(message);
    }

    /// Drops every chat message older than the retention window at time
    /// `now`, in place; returns how many were dropped.
    pub fn prune_chat_history(&mut self, now: i64, retention_millis: i64) -> (removed: usize)
        ensures
            final(self)@ == (RoomModel {
                chat_history: old(self)@.chat_history.filter(
                    chat_message_kept(now, retention_millis),
                ),
                ..old(self)@
            }),
            removed == old(self)@.chat_history.len() - final(self)@.chat_history.len(),
    {
        let n = self.chat_history.len();
        let mut kept: Vec<ChatMessage> = Vec::new();
        let mut i: usize = 0;
        while i < n
            invariant
                i <= n,
                n == self.chat_history.len(),
                kept@ == self.chat_history@.subrange(0, i as int).filter(
                    chat_message_kept(now, retention_millis),
                ),
            decreases n - i,
        {
            let ghost prefix = self.chat_history@.subrange(0, i as int);
            let m = &self.chat_history[i];
            if (now as i128) - (m.timestamp as i128) <= (retention_millis as i128) {
                kept.push(m.clone());
            }
            proof {
                assert(self.chat_history@.subrange(0, i as int + 1) =~= prefix.push(
                    self.chat_history@[i as int],
                ));
                lemma_filter_push(
                    prefix,
                    self.chat_history@[i as int],
                    chat_message_kept(now, retention_millis),
                );
            }
            i += 1;
        }
        proof {
            assert(self.chat_history@.subrange(0, n as int) =~= self.chat_history@);
            broadcast use vstd::seq_lib::group_filter_ensures;

        }
        let removed = n - kept.len();
        self.chat_history = kept;
        removed
    }
}


/// Law: in a valid room the banned set is disjoint from the members.
/// Banning a current participant removes it from the members and the
/// table before its id joins the banned set, so no id is ever both a
/// member and banned.
pub proof fn lemma_banned_disjoint_from_members(m: RoomModel)
    requires
        m.inv(),
    ensures
        forall|i: int|
            0 <= i < m.banned_users.len() ==> !has_member(m.users, #[trigger] m.banned_users[i]),
{
}

/// Law: in a valid room the table's keys are a subset of the member
/// ids — removing a participant always purges its table entry, and a
/// pick by a non-member is refused.
pub proof fn lemma_table_keys_are_members(m: RoomModel)
    requires
        m.inv(),
    ensures
        forall|i: int|
            0 <= i < m.table.len() ==> has_member(m.users, (#[trigger] m.table[i]).user_id),
{
}

/// Law: in a valid room an assigned owner always references a current
/// member — assigning an absent id is refused and leaves the owner
/// unchanged.
pub proof fn lemma_owner_is_member(m: RoomModel)
    requires
        m.inv(),
    ensures
        m.room_owner_id matches Some(uid) ==> has_member(m.users, uid),
{
}

/// Law: the redacted ("publishable") view of a room that has not yet
/// revealed exposes no card value, while keeping every participant's
/// entry; once revealed, the view is the room itself, real values
/// included.
pub proof fn lemma_publishable_redaction(m: RoomModel)
    ensures
        m.publishable().table.len() == m.table.len(),
        forall|i: int|
            0 <= i < m.table.len() ==> (#[trigger] m.publishable().table[i]).user_id
                == m.table[i].user_id,
        !m.is_game_over ==> forall|i: int|
            0 <= i < m.publishable().table.len() ==> (#[trigger] m.publishable().table[i]).card
                is None,
        m.is_game_over ==> m.publishable() == m,
{
}

} // verus!
