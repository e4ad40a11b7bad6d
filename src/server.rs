//! The coordinator: the table of sessions (each with its player once it joined
//! a level), the rooms, and the chat history. Every cross-session action goes
//! through it, one message at a time.
use crate::auth::AuthInfo;
use crate::chat::{
    byte_len, censored, command_announcement, handle_command, is_name_valid, name_valid, sanitized,
    screaming,
};
use crate::client::{skin_view, Client, Player};
use crate::history::{
    count_recent, fresh_key, next_key, opt_view, window_start, AccountInfo, ChatError,
    ChatHistory, ChatResult, GetChat, EXCESSIVE_SPAM_LIMIT, EXCESSIVE_SPAM_WINDOW, SPAM_LIMIT,
    SPAM_WINDOW,
};
use crate::moderation::{
    digits, digits_string, player_line, player_line_text, DiscordRichEmbedAuthor,
    DiscordRichEmbedField, EMBED_BASE, EMBED_LIMIT, FIELD_COUNT_LIMIT, FIELD_LIMIT,
};
use crate::protocol::{
    AttackMsg, ChatMsg, Delivery, GrabFlagMsg, JoinGameMsg, MarioListMsg, MarioMsg,
    PlayerListsMsg, SkinMsg, Sm64JsMsg, ValidPlayersMsg,
};
use crate::room::{lemma_room_ids_distinct, room_matches, room_table, Room};
use vstd::prelude::*;
use vstd::string::{StrSliceExecFns, StringExecFns};
use vstd::utf8::encode_utf8;

verus! {

/// Whether `id` is the socket id of some session of `c`.
pub open spec fn has_socket(c: Seq<Client>, id: u32) -> bool {
    exists|i: int| 0 <= i < c.len() && (#[trigger] c[i]).socket_id == id
}

/// Whether some session of `c` belongs to `account`.
pub open spec fn has_account(c: Seq<Client>, account: i32) -> bool {
    exists|i: int| 0 <= i < c.len() && (#[trigger] c[i]).auth_info.account_id == account
}

/// Whether `level` is the id of some room of `r`.
pub open spec fn has_room(r: Seq<Room>, level: u32) -> bool {
    exists|i: int| 0 <= i < r.len() && (#[trigger] r[i]).id_spec() == level
}

pub open spec fn sockets_unique(c: Seq<Client>) -> bool {
    forall|i: int, j: int|
        0 <= i < c.len() && 0 <= j < c.len() && i != j ==> (#[trigger] c[i]).socket_id
            != (#[trigger] c[j]).socket_id
}

pub open spec fn accounts_unique(c: Seq<Client>) -> bool {
    forall|i: int, j: int|
        0 <= i < c.len() && 0 <= j < c.len() && i != j ==> (#[trigger] c[i]).auth_info.account_id
            != (#[trigger] c[j]).auth_info.account_id
}

pub open spec fn room_ids_unique(r: Seq<Room>) -> bool {
    forall|i: int, j: int|
        0 <= i < r.len() && 0 <= j < r.len() && i != j ==> (#[trigger] r[i]).id_spec() != (
        #[trigger] r[j]).id_spec()
}

/// The stored frame of every session carries that session's socket id.
pub open spec fn frames_stamped(c: Seq<Client>) -> bool {
    forall|i: int| 0 <= i < c.len() && (#[trigger] c[i]).data is Some ==> c[i].data->0.socket_id == c[i].socket_id
}

/// `b` is `a` after the player `id`, in `level` if any, left: the room of that
/// level has every flag the player carried dropped; the other rooms are
/// unchanged.
pub open spec fn rooms_released(a: Seq<Room>, b: Seq<Room>, level: Option<u32>, id: u32) -> bool {
    &&& b.len() == a.len()
    &&& forall|i: int|
        0 <= i < a.len() ==> if level == Some((#[trigger] a[i]).id_spec()) {
            Room::released(a[i], b[i], id)
        } else {
            b[i] == a[i]
        }
}

/// Every player of `c` is in the level of some room of `r`.
pub open spec fn clients_in_rooms(c: Seq<Client>, r: Seq<Room>) -> bool {
    forall|i: int| 0 <= i < c.len() && (#[trigger] c[i]).player is Some ==> has_room(r, c[i].player->0.level)
}

/// Whether the session `id` of `c` has a player in `level`.
pub open spec fn in_level(c: Seq<Client>, id: u32, level: u32) -> bool {
    exists|i: int| 0 <= i < c.len() && (#[trigger] c[i]).socket_id == id && c[i].level_spec() == Some(level)
}

/// Socket ids of the sessions of `c` whose player is in `level`, in order.
pub open spec fn sockets_in_level(c: Seq<Client>, level: u32) -> Seq<u32>
    decreases c.len(),
{
    if c.len() == 0 {
        Seq::empty()
    } else {
        let rest = sockets_in_level(c.drop_last(), level);
        if c.last().level_spec() == Some(level) {
            rest.push(c.last().socket_id)
        } else {
            rest
        }
    }
}

/// Socket ids of the sessions of `c` that have not joined a level, in order.
pub open spec fn lobby_sockets(c: Seq<Client>) -> Seq<u32>
    decreases c.len(),
{
    if c.len() == 0 {
        Seq::empty()
    } else {
        let rest = lobby_sockets(c.drop_last());
        if c.last().player is None {
            rest.push(c.last().socket_id)
        } else {
            rest
        }
    }
}

/// What a frame holds: its socket id, position and relayed bytes.
pub open spec fn frame_view(m: MarioMsg) -> (u32, crate::flag::Position, Seq<u8>) {
    (m.socket_id, m.pos, m.body@)
}

/// The latest frames of the sessions of `c` whose player is in `level`.
pub open spec fn frames_in_level(c: Seq<Client>, level: u32) -> Seq<(u32, crate::flag::Position, Seq<u8>)>
    decreases c.len(),
{
    if c.len() == 0 {
        Seq::empty()
    } else {
        let rest = frames_in_level(c.drop_last(), level);
        if c.last().level_spec() == Some(level) && c.last().data is Some {
            rest.push(frame_view(c.last().data->0))
        } else {
            rest
        }
    }
}

/// The display name of a Discord identity: `username#discriminator`.
pub open spec fn discord_name(auth: AuthInfo) -> Seq<char> {
    auth.discord->0.username@ + "#"@ + auth.discord->0.discriminator@
}

/// What the duration formatter makes of a number of seconds.
pub uninterp spec fn duration_text(secs: u64) -> Seq<char>;

/// Relies on humantime's `format_duration` on a `std::time::Duration` of whole
/// seconds: the text depends on the number of seconds alone.
#[verifier::external_body]
fn format_duration_secs(secs: u64) -> (r: String)
    ensures
        r@ == duration_text(secs),
{
    humantime::format_duration(std::time::Duration::from_secs(secs)).to_string()
}

/// Seconds of a mute left at `now`, both in nanoseconds since the epoch,
/// counted in whole seconds and never below zero.
pub open spec fn mute_seconds_left(expires_at: i64, now: i64) -> u64 {
    if expires_at - now <= 0 {
        0
    } else {
        ((expires_at - now) / 1_000_000_000) as u64
    }
}

/// The private notice for a muted sender.
pub open spec fn muted_notice(expires_at: Option<i64>, now: i64) -> Seq<char> {
    match expires_at {
        Some(t) => "You are muted"@ + " for "@ + duration_text(mute_seconds_left(t, now)),
        None => "You are muted"@,
    }
}

pub open spec fn spam_notice() -> Seq<char> {
    "Chat message ignored: You have to wait longer between sending chat messages"@
}

pub open spec fn excessive_spam_notice() -> Seq<char> {
    "You have been muted for 5min due to sending way too many messages"@
}

pub open spec fn screaming_notice() -> Seq<char> {
    "COULD YOU PLEASE STOP SCREAMING?"@
}

/// `m` is `chat` turned into a server notice with the given text.
pub open spec fn is_notice(m: ChatMsg, chat: ChatMsg, text: Seq<char>) -> bool {
    &&& m.message@ == text
    &&& m.sender@ == "[Server]"@
    &&& m.is_server
    &&& m.socket_id == chat.socket_id
    &&& m.is_admin == chat.is_admin
}

/// What a chat message leads to.
pub struct ChatOutcome {
    /// A message for everyone in the sender's level.
    pub broadcast: Option<Delivery>,
    /// A notice for the sender alone.
    pub reply: Option<ChatMsg>,
    /// An account to mute, and when the mute ends (nanoseconds since the
    /// epoch): five minutes after the message.
    pub mute_account: Option<(i32, i64)>,
}

/// Length of the automatic mute, in seconds.
pub const AUTO_MUTE_SECS: i64 = 300;

/// When an automatic mute that starts at `now` ends, in nanoseconds since
/// the epoch; the largest time when that lies beyond an `i64`.
pub open spec fn mute_end(now: i64) -> i64 {
    if now > i64::MAX - AUTO_MUTE_SECS * 1_000_000_000 {
        i64::MAX
    } else {
        (now + AUTO_MUTE_SECS * 1_000_000_000) as i64
    }
}

/// Outcome of a connect.
pub enum ConnectError {
    /// Another session already has the socket id.
    SocketIdTaken,
}

/// A join that was accepted.
#[derive(Debug)]
pub struct JoinGameAccepted {
    pub level: u32,
    pub name: String,
}

pub struct Sm64JsServer {
    clients: Vec<Client>,
    rooms: Vec<Room>,
    chat_history: ChatHistory,
}

impl Sm64JsServer {
    pub closed spec fn clients_spec(&self) -> Seq<Client> {
        self.clients@
    }

    pub closed spec fn rooms_spec(&self) -> Seq<Room> {
        self.rooms@
    }

    pub closed spec fn history_spec(&self) -> ChatHistory {
        self.chat_history
    }

    /// One session per socket id and per account, rooms with distinct ids and
    /// well-formed flags, every player in an existing room, and a well-formed
    /// chat history.
    pub open spec fn wf(&self) -> bool {
        &&& sockets_unique(self.clients_spec())
        &&& accounts_unique(self.clients_spec())
        &&& room_ids_unique(self.rooms_spec())
        &&& forall|i: int| 0 <= i < self.rooms_spec().len() ==> (#[trigger] self.rooms_spec()[i]).wf()
        &&& clients_in_rooms(self.clients_spec(), self.rooms_spec())
        &&& frames_stamped(self.clients_spec())
        &&& self.history_spec().wf()
    }

    /// A server with no session, the given rooms and an empty chat history.
    pub fn new(rooms: Vec<Room>) -> (r: Sm64JsServer)
        requires
            room_ids_unique(rooms@),
            forall|i: int| 0 <= i < rooms@.len() ==> (#[trigger] rooms@[i]).wf(),
        ensures
            r.wf(),
            r.clients_spec().len() == 0,
            r.rooms_spec() == rooms@,
            r.history_spec().view().len() == 0,
    {
        Sm64JsServer { clients: Vec::new(), rooms, chat_history: ChatHistory::new() }
    }

    /// A server with the rooms of every level, as the room table gives them.
    pub fn with_default_rooms() -> (r: Sm64JsServer)
        ensures
            r.wf(),
            r.clients_spec().len() == 0,
            r.history_spec().view().len() == 0,
            r.rooms_spec().len() == room_table().len(),
            forall|i: int| 0 <= i < r.rooms_spec().len() ==> room_matches(#[trigger] r.rooms_spec()[i], room_table()[i]),
    {
        let rooms = Room::init_rooms();
        proof {
            lemma_room_ids_distinct();
            assert forall|i: int, j: int|
                0 <= i < rooms@.len() && 0 <= j < rooms@.len() && i != j implies (#[trigger] rooms@[i]).id_spec()
                != (#[trigger] rooms@[j]).id_spec() by {
                assert(room_matches(rooms@[i], room_table()[i]));
                assert(room_matches(rooms@[j], room_table()[j]));
            }
            assert forall|i: int| 0 <= i < rooms@.len() implies (#[trigger] rooms@[i]).wf() by {
                assert(room_matches(rooms@[i], room_table()[i]));
            }
        }
        Self::new(rooms)
    }

    pub fn clients(&self) -> (r: &Vec<Client>)
        ensures
            r@ == self.clients_spec(),
    {
        &self.clients
    }

    pub fn rooms(&self) -> (r: &Vec<Room>)
        ensures
            r@ == self.rooms_spec(),
    {
        &self.rooms
    }

    pub fn chat_history(&self) -> (r: &ChatHistory)
        ensures
            *r == self.history_spec(),
    {
        &self.chat_history
    }

    /// Index of the session with socket id `id`.
    pub fn client_index(&self, id: u32) -> (r: Option<usize>)
        ensures
            match r {
                Some(i) => i < self.clients_spec().len() && self.clients_spec()[i as int].socket_id
                    == id,
                None => !has_socket(self.clients_spec(), id),
            },
    {
        let mut i: usize = 0;
        while i < self.clients.len()
            invariant
                i <= self.clients@.len(),
                forall|k: int| 0 <= k < i ==> (#[trigger] self.clients@[k]).socket_id != id,
            decreases self.clients@.len() - i,
        {
            if self.clients[i].socket_id == id {
                return Some(i);
            }
            i = i + 1;
        }
        None
    }

    /// Index of the session of `account`.
    pub fn account_index(&self, account: i32) -> (r: Option<usize>)
        ensures
            match r {
                Some(i) => i < self.clients_spec().len() && self.clients_spec()[i as int].auth_info.account_id
                    == account,
                None => !has_account(self.clients_spec(), account),
            },
    {
        let mut i: usize = 0;
        while i < self.clients.len()
            invariant
                i <= self.clients@.len(),
                forall|k: int| 0 <= k < i ==> (#[trigger] self.clients@[k]).auth_info.account_id != account,
            decreases self.clients@.len() - i,
        {
            if self.clients[i].auth_info.account_id == account {
                return Some(i);
            }
            i = i + 1;
        }
        None
    }

    /// Index of the room of level `level`.
    pub fn room_index(&self, level: u32) -> (r: Option<usize>)
        ensures
            match r {
                Some(i) => i < self.rooms_spec().len() && self.rooms_spec()[i as int].id_spec()
                    == level,
                None => !has_room(self.rooms_spec(), level),
            },
    {
        let mut i: usize = 0;
        while i < self.rooms.len()
            invariant
                i <= self.rooms@.len(),
                forall|k: int| 0 <= k < i ==> (#[trigger] self.rooms@[k]).id_spec() != level,
            decreases self.rooms@.len() - i,
        {
            if self.rooms[i].get_id() == level {
                return Some(i);
            }
            i = i + 1;
        }
        None
    }

    proof fn lemma_remove_keeps_unique(c: Seq<Client>, i: int)
        requires
            0 <= i < c.len(),
            sockets_unique(c),
            accounts_unique(c),
            frames_stamped(c),
        ensures
            sockets_unique(c.remove(i)),
            accounts_unique(c.remove(i)),
            frames_stamped(c.remove(i)),
            forall|k: int|
                0 <= k < c.remove(i).len() ==> #[trigger] c.remove(i)[k] == c[if k < i {
                    k
                } else {
                    k + 1
                }],
            forall|id: u32|
                #![trigger has_socket(c.remove(i), id)]
                has_socket(c.remove(i), id) <==> has_socket(c, id) && id != c[i].socket_id,
            forall|a: i32|
                #![trigger has_account(c.remove(i), a)]
                has_account(c.remove(i), a) <==> has_account(c, a) && a != c[i].auth_info.account_id,
    {
        let d = c.remove(i);
        assert forall|k: int| 0 <= k < d.len() implies #[trigger] d[k] == c[if k < i {
            k
        } else {
            k + 1
        }] by {}
        assert forall|a: int, b: int|
            0 <= a < d.len() && 0 <= b < d.len() && a != b implies (#[trigger] d[a]).socket_id
            != (#[trigger] d[b]).socket_id && d[a].auth_info.account_id != d[b].auth_info.account_id by {
            let a1 = if a < i { a } else { a + 1 };
            let b1 = if b < i { b } else { b + 1 };
            assert(d[a] == c[a1]);
            assert(d[b] == c[b1]);
        }
        assert forall|k: int|
            0 <= k < d.len() && (#[trigger] d[k]).data is Some implies d[k].data->0.socket_id == d[k].socket_id by {
            let k1 = if k < i { k } else { k + 1 };
            assert(d[k] == c[k1]);
        }
        assert forall|id: u32| has_socket(d, id) <==> has_socket(c, id) && id != c[i].socket_id by {
            if has_socket(d, id) {
                let k = choose|k: int| 0 <= k < d.len() && (#[trigger] d[k]).socket_id == id;
                let k1 = if k < i { k } else { k + 1 };
                assert(c[k1] == d[k]);
            }
            if has_socket(c, id) && id != c[i].socket_id {
                let k = choose|k: int| 0 <= k < c.len() && (#[trigger] c[k]).socket_id == id;
                let k1 = if k < i { k } else { k - 1 };
                assert(d[k1] == c[k]);
            }
        }
        assert forall|acc: i32|
            has_account(d, acc) <==> has_account(c, acc) && acc != c[i].auth_info.account_id by {
            if has_account(d, acc) {
                let k = choose|k: int| 0 <= k < d.len() && (#[trigger] d[k]).auth_info.account_id == acc;
                let k1 = if k < i { k } else { k + 1 };
                assert(c[k1] == d[k]);
            }
            if has_account(c, acc) && acc != c[i].auth_info.account_id {
                let k = choose|k: int| 0 <= k < c.len() && (#[trigger] c[k]).auth_info.account_id == acc;
                let k1 = if k < i { k } else { k - 1 };
                assert(d[k1] == c[k]);
            }
        }
    }

    /// Drops the flag, if any, that the session at `ci` carries in its level.
    fn release_flag(&mut self, ci: usize)
        requires
            old(self).wf(),
            ci < old(self).clients_spec().len(),
        ensures
            final(self).wf(),
            final(self).clients_spec() == old(self).clients_spec(),
            final(self).history_spec() == old(self).history_spec(),
            rooms_released(
                old(self).rooms_spec(),
                final(self).rooms_spec(),
                old(self).clients_spec()[ci as int].level_spec(),
                old(self).clients_spec()[ci as int].socket_id,
            ),
    {
        let socket_id = self.clients[ci].socket_id;
        match self.clients[ci].get_level() {
            Some(level) => {
                match self.room_index(level) {
                    Some(ri) => {
                        let ghost before = self.rooms@;
                        let mut room = self.rooms.remove(ri);
                        proof {
                            assert(before[ri as int].wf());
                        }
                        room.drop_flag_if_holding(socket_id);
                        self.rooms.insert(ri, room);
                        proof {
                            assert(self.rooms@ == before.update(ri as int, room));
                            assert forall|i: int| 0 <= i < self.rooms@.len() implies (#[trigger] self.rooms@[i]).wf() by {
                                if i != ri {
                                    assert(before[i].wf());
                                }
                            }
                            assert forall|i: int, j: int|
                                0 <= i < self.rooms@.len() && 0 <= j < self.rooms@.len() && i != j
                                implies (#[trigger] self.rooms@[i]).id_spec() != (#[trigger] self.rooms@[j]).id_spec() by {
                                assert(before[i].id_spec() != before[j].id_spec());
                            }
                            assert forall|i: int|
                                0 <= i < self.clients@.len() && (#[trigger] self.clients@[i]).player is Some
                                implies has_room(self.rooms@, self.clients@[i].player->0.level) by {
                                let k = choose|k: int| 0 <= k < before.len() && (#[trigger] before[k]).id_spec() == self.clients@[i].player->0.level;
                                assert(self.rooms@[k].id_spec() == before[k].id_spec());
                            }
                            assert forall|i: int| 0 <= i < before.len() && i != ri implies before[i].id_spec() != level by {
                                assert(before[i].id_spec() != before[ri as int].id_spec());
                            }
                        }
                    },
                    None => {},
                }
            },
            None => {},
        }
    }

    /// Ends the session `socket_id`: its record and its player go away, and any
    /// flag its player carried is dropped where it is.
    pub fn disconnect(&mut self, socket_id: u32)
        requires
            old(self).wf(),
        ensures
            final(self).wf(),
            forall|id: u32|
                #![trigger has_socket(final(self).clients_spec(), id)]
                has_socket(final(self).clients_spec(), id) <==> has_socket(old(self).clients_spec(), id)
                    && id != socket_id,
            has_socket(old(self).clients_spec(), socket_id) ==> exists|k: int|
                0 <= k < old(self).clients_spec().len() && old(self).clients_spec()[k].socket_id
                    == socket_id && #[trigger] old(self).clients_spec().remove(k)
                    == final(self).clients_spec(),
            !has_socket(old(self).clients_spec(), socket_id) ==> final(self).clients_spec()
                == old(self).clients_spec(),
            final(self).history_spec() == old(self).history_spec(),
            has_socket(old(self).clients_spec(), socket_id) ==> rooms_released(
                old(self).rooms_spec(),
                final(self).rooms_spec(),
                client_of(old(self).clients_spec(), socket_id).level_spec(),
                socket_id,
            ),
            !has_socket(old(self).clients_spec(), socket_id) ==> final(self).rooms_spec()
                == old(self).rooms_spec(),
    {
        match self.client_index(socket_id) {
            Some(ci) => {
                proof {
                    let k = choose|i: int| 0 <= i < self.clients@.len() && (#[trigger] self.clients@[i]).socket_id == socket_id;
                    if k != ci {
                        assert(self.clients@[k].socket_id != self.clients@[ci as int].socket_id);
                    }
                }
                self.release_flag(ci);
                let ghost before = self.clients@;
                self.clients.remove(ci);
                proof {
                    Self::lemma_remove_keeps_unique(before, ci as int);
                    assert forall|i: int|
                        0 <= i < self.clients@.len() && (#[trigger] self.clients@[i]).player is Some
                        implies has_room(self.rooms@, self.clients@[i].player->0.level) by {
                        let i1 = if i < ci { i } else { i + 1 };
                        assert(self.clients@[i] == before[i1]);
                    }
                    assert(before.remove(ci as int) == self.clients@);
                    assert forall|id: u32|
                        has_socket(self.clients@, id) <==> has_socket(before, id) && id != socket_id by {
                    }
                }
            },
            None => {},
        }
    }

    /// A new session `socket_id` for `auth_info`. A session of the same
    /// account is ended first, and its socket id is returned so that it can be
    /// told it was kicked. Fails, changing nothing, when `socket_id` is taken.
    pub fn connect(&mut self, auth_info: AuthInfo, ip: String, socket_id: u32) -> (r: Result<
        Option<u32>,
        ConnectError,
    >)
        requires
            old(self).wf(),
        ensures
            final(self).wf(),
            has_socket(old(self).clients_spec(), socket_id) ==> r is Err && *final(self) == *old(self),
            !has_socket(old(self).clients_spec(), socket_id) ==> r is Ok && {
                &&& final(self).clients_spec().last() == Client::spec_new(auth_info, ip, socket_id)
                &&& (match r {
                    Ok(Some(old_id)) => has_socket(old(self).clients_spec(), old_id) && !has_socket(
                        final(self).clients_spec().drop_last(),
                        old_id,
                    ) && exists|k: int|
                        0 <= k < old(self).clients_spec().len() && (#[trigger] old(self).clients_spec()[k]).socket_id
                            == old_id && old(self).clients_spec()[k].auth_info.account_id
                            == auth_info.account_id && final(self).clients_spec() == old(
                            self,
                        ).clients_spec().remove(k).push(Client::spec_new(auth_info, ip, socket_id))
                            && rooms_released(
                            old(self).rooms_spec(),
                            final(self).rooms_spec(),
                            old(self).clients_spec()[k].level_spec(),
                            old_id,
                        ),
                    Ok(None) => !has_account(old(self).clients_spec(), auth_info.account_id)
                        && final(self).clients_spec() == old(self).clients_spec().push(
                        Client::spec_new(auth_info, ip, socket_id),
                    ) && final(self).rooms_spec() == old(self).rooms_spec(),
                    Err(_) => false,
                })
                &&& forall|id: u32|
                    #![trigger has_socket(final(self).clients_spec(), id)]
                    has_socket(final(self).clients_spec(), id) <==> id == socket_id || (has_socket(
                        old(self).clients_spec(),
                        id,
                    ) && !(r matches Ok(Some(k)) && k == id))
            },
            final(self).history_spec() == old(self).history_spec(),
    {
        if self.client_index(socket_id).is_some() {
            return Err(ConnectError::SocketIdTaken);
        }
        let kicked = match self.account_index(auth_info.account_id) {
            Some(ai) => {
                let old_id = self.clients[ai].socket_id;
                proof {
                    assert(has_socket(self.clients@, old_id));
                }
                let ghost before = self.clients@;
                self.disconnect(old_id);
                proof {
                    let k = choose|k: int|
                        0 <= k < before.len() && before[k].socket_id == old_id && #[trigger] before.remove(k) == self.clients@;
                    assert(k == ai);
                    Self::lemma_remove_keeps_unique(before, k);
                    assert(!has_account(self.clients@, auth_info.account_id));
                    assert(!has_socket(self.clients@, old_id));
                    let j = choose|i: int| 0 <= i < before.len() && (#[trigger] before[i]).socket_id == old_id;
                    if j != ai {
                        assert(before[j].socket_id != before[ai as int].socket_id);
                    }
                }
                Some(old_id)
            },
            None => None,
        };
        let ghost mid = self.clients@;
        proof {
            assert forall|id: u32|
                #![trigger has_socket(mid, id)]
                has_socket(mid, id) <==> has_socket(old(self).clients@, id) && !(kicked == Some(id)) by {
                if kicked is Some {
                    assert(has_socket(mid, id) <==> has_socket(old(self).clients@, id) && id != kicked->0);
                }
            }
        }
        self.clients.push(Client::new(auth_info, ip, socket_id));
        proof {
            assert(self.clients@ == mid.push(Client::spec_new(auth_info, ip, socket_id)));
            assert(self.clients@.drop_last() == mid);
            assert forall|a: int, b: int|
                0 <= a < self.clients@.len() && 0 <= b < self.clients@.len() && a != b implies (#[trigger] self.clients@[a]).socket_id
                != (#[trigger] self.clients@[b]).socket_id && self.clients@[a].auth_info.account_id
                != self.clients@[b].auth_info.account_id by {
                if a == mid.len() {
                    assert(self.clients@[b] == mid[b]);
                } else if b == mid.len() {
                    assert(self.clients@[a] == mid[a]);
                } else {
                    assert(self.clients@[a] == mid[a]);
                    assert(self.clients@[b] == mid[b]);
                }
            }
            assert forall|i: int|
                0 <= i < self.clients@.len() && (#[trigger] self.clients@[i]).player is Some
                implies has_room(self.rooms@, self.clients@[i].player->0.level) by {
                assert(self.clients@[i] == mid[i]);
            }
            assert forall|i: int|
                0 <= i < self.clients@.len() && (#[trigger] self.clients@[i]).data is Some
                implies self.clients@[i].data->0.socket_id == self.clients@[i].socket_id by {
                assert(self.clients@[i] == mid[i]);
            }
            assert forall|id: u32|
                has_socket(self.clients@, id) <==> id == socket_id || has_socket(mid, id) by {
                if has_socket(self.clients@, id) && id != socket_id {
                    let k = choose|k: int| 0 <= k < self.clients@.len() && (#[trigger] self.clients@[k]).socket_id == id;
                    assert(mid[k] == self.clients@[k]);
                }
                if has_socket(mid, id) {
                    let k = choose|k: int| 0 <= k < mid.len() && (#[trigger] mid[k]).socket_id == id;
                    assert(mid[k] == self.clients@[k]);
                }
                if id == socket_id {
                    assert(self.clients@[mid.len() as int].socket_id == id);
                }
            }
        }
        proof {
            assert forall|id: u32|
                #![trigger has_socket(self.clients@, id)]
                has_socket(self.clients@, id) <==> id == socket_id || (has_socket(old(self).clients@, id)
                    && !(kicked == Some(id))) by {
                assert(has_socket(self.clients@, id) <==> id == socket_id || has_socket(mid, id));
                assert(has_socket(mid, id) <==> has_socket(old(self).clients@, id) && !(kicked == Some(id)));
            }
        }
        Ok(kicked)
    }

    proof fn lemma_client_update(c: Seq<Client>, rooms: Seq<Room>, i: int, x: Client)
        requires
            sockets_unique(c),
            accounts_unique(c),
            clients_in_rooms(c, rooms),
            0 <= i < c.len(),
            x.socket_id == c[i].socket_id,
            x.auth_info.account_id == c[i].auth_info.account_id,
            x.player is Some ==> has_room(rooms, x.player->0.level),
            frames_stamped(c),
            x.data is Some ==> x.data->0.socket_id == x.socket_id,
        ensures
            sockets_unique(c.update(i, x)),
            accounts_unique(c.update(i, x)),
            clients_in_rooms(c.update(i, x), rooms),
            frames_stamped(c.update(i, x)),
            forall|id: u32| #![trigger has_socket(c.update(i, x), id)] has_socket(c.update(i, x), id) <==> has_socket(c, id),
    {
        let d = c.update(i, x);
        assert forall|a: int, b: int|
            0 <= a < d.len() && 0 <= b < d.len() && a != b implies (#[trigger] d[a]).socket_id
            != (#[trigger] d[b]).socket_id && d[a].auth_info.account_id != d[b].auth_info.account_id by {
            assert(c[a].socket_id != c[b].socket_id);
            assert(c[a].auth_info.account_id != c[b].auth_info.account_id);
        }
        assert forall|k: int|
            0 <= k < d.len() && (#[trigger] d[k]).player is Some implies has_room(rooms, d[k].player->0.level) by {
            if k != i {
                assert(c[k] == d[k]);
            }
        }
        assert forall|k: int|
            0 <= k < d.len() && (#[trigger] d[k]).data is Some implies d[k].data->0.socket_id == d[k].socket_id by {
            if k != i {
                assert(c[k] == d[k]);
            }
        }
        assert forall|id: u32| has_socket(d, id) <==> has_socket(c, id) by {
            if has_socket(c, id) {
                let k = choose|k: int| 0 <= k < c.len() && (#[trigger] c[k]).socket_id == id;
                assert(d[k].socket_id == id);
            }
            if has_socket(d, id) {
                let k = choose|k: int| 0 <= k < d.len() && (#[trigger] d[k]).socket_id == id;
                assert(c[k].socket_id == id);
            }
        }
    }

    proof fn lemma_room_update(rooms: Seq<Room>, c: Seq<Client>, i: int, r: Room)
        requires
            room_ids_unique(rooms),
            forall|k: int| 0 <= k < rooms.len() ==> (#[trigger] rooms[k]).wf(),
            clients_in_rooms(c, rooms),
            0 <= i < rooms.len(),
            r.id_spec() == rooms[i].id_spec(),
            r.wf(),
        ensures
            room_ids_unique(rooms.update(i, r)),
            forall|k: int| 0 <= k < rooms.update(i, r).len() ==> (#[trigger] rooms.update(i, r)[k]).wf(),
            clients_in_rooms(c, rooms.update(i, r)),
    {
        let d = rooms.update(i, r);
        assert forall|k: int| 0 <= k < d.len() implies (#[trigger] d[k]).wf() by {
            if k != i {
                assert(rooms[k].wf());
            }
        }
        assert forall|a: int, b: int|
            0 <= a < d.len() && 0 <= b < d.len() && a != b implies (#[trigger] d[a]).id_spec()
            != (#[trigger] d[b]).id_spec() by {
            assert(rooms[a].id_spec() != rooms[b].id_spec());
        }
        assert forall|k: int|
            0 <= k < c.len() && (#[trigger] c[k]).player is Some implies has_room(d, c[k].player->0.level) by {
            let j = choose|j: int| 0 <= j < rooms.len() && (#[trigger] rooms[j]).id_spec() == c[k].player->0.level;
            assert(d[j].id_spec() == rooms[j].id_spec());
        }
    }

    /// Stores a frame of session `socket_id`, stamped with that socket id.
    pub fn set_data(&mut self, socket_id: u32, data: MarioMsg)
        requires
            old(self).wf(),
        ensures
            final(self).wf(),
            final(self).rooms_spec() == old(self).rooms_spec(),
            final(self).history_spec() == old(self).history_spec(),
            !has_socket(old(self).clients_spec(), socket_id) ==> final(self).clients_spec()
                == old(self).clients_spec(),
            has_socket(old(self).clients_spec(), socket_id) ==> exists|i: int|
                0 <= i < old(self).clients_spec().len() && (#[trigger] old(self).clients_spec()[i]).socket_id
                    == socket_id && final(self).clients_spec() == old(self).clients_spec().update(
                    i,
                    Client { data: Some(MarioMsg { socket_id, ..data }), ..old(self).clients_spec()[i] },
                ),
    {
        match self.client_index(socket_id) {
            Some(i) => {
                let ghost before = self.clients@;
                let mut c = self.clients.remove(i);
                c.set_data(data);
                self.clients.insert(i, c);
                proof {
                    assert(self.clients@ == before.update(i as int, c));
                    Self::lemma_client_update(before, self.rooms@, i as int, c);
                }
            },
            None => {},
        }
    }

    /// An attack by session `socket_id`: in the sender's level, flag
    /// `flag_id` is dropped from the sender's last position iff the target
    /// carries it. Nothing happens when the sender targets itself, has not
    /// joined a level, or has sent no frame.
    pub fn send_attack(&mut self, socket_id: u32, attack_msg: AttackMsg)
        requires
            old(self).wf(),
        ensures
            final(self).wf(),
            final(self).clients_spec() == old(self).clients_spec(),
            final(self).history_spec() == old(self).history_spec(),
            final(self).rooms_spec().len() == old(self).rooms_spec().len(),
            attack_msg.target_socket_id == socket_id ==> *final(self) == *old(self),
            !(exists|ci: int, ri: int|
                0 <= ci < old(self).clients_spec().len() && (#[trigger] old(self).clients_spec()[ci]).socket_id
                    == socket_id && old(self).clients_spec()[ci].level_spec() == Some(
                    (#[trigger] old(self).rooms_spec()[ri]).id_spec(),
                ) && 0 <= ri < old(self).rooms_spec().len() && old(self).clients_spec()[ci].data is Some
                    && old(self).clients_spec()[ci].data->0.pos.valid()) ==> *final(self) == *old(self),
            forall|ci: int, ri: int|
                0 <= ci < old(self).clients_spec().len() && (#[trigger] old(self).clients_spec()[ci]).socket_id
                    == socket_id && old(self).clients_spec()[ci].level_spec() == Some(
                    (#[trigger] old(self).rooms_spec()[ri]).id_spec(),
                ) && 0 <= ri < old(self).rooms_spec().len() && old(self).clients_spec()[ci].data is Some
                    && old(self).clients_spec()[ci].data->0.pos.valid() && attack_msg.target_socket_id
                    != socket_id ==> Room::attacked(
                    old(self).rooms_spec()[ri],
                    final(self).rooms_spec()[ri],
                    attack_msg.flag_id as int,
                    old(self).clients_spec()[ci].data->0.pos,
                    attack_msg.target_socket_id,
                ) && forall|k: int|
                    0 <= k < old(self).rooms_spec().len() && k != ri ==> #[trigger] final(self).rooms_spec()[k]
                        == old(self).rooms_spec()[k],
    {
        if attack_msg.target_socket_id == socket_id {
            return;
        }
        let ci = match self.client_index(socket_id) {
            Some(ci) => ci,
            None => {
                return;
            },
        };
        let level = match self.clients[ci].get_level() {
            Some(l) => l,
            None => {
                return;
            },
        };
        let pos = match self.clients[ci].get_pos() {
            Some(p) => p,
            None => {
                return;
            },
        };
        if !pos.is_valid() {
            return;
        }
        let ri = match self.room_index(level) {
            Some(ri) => ri,
            None => {
                return;
            },
        };
        let ghost before = self.rooms@;
        let mut room = self.rooms.remove(ri);
        proof {
            assert(before[ri as int].wf());
        }
        room.process_attack(attack_msg.flag_id as usize, pos, attack_msg.target_socket_id);
        self.rooms.insert(ri, room);
        proof {
            assert(self.rooms@ == before.update(ri as int, room));
            Self::lemma_room_update(before, self.clients@, ri as int, room);
            assert forall|c: int, r: int|
                0 <= c < old(self).clients_spec().len() && (#[trigger] old(self).clients_spec()[c]).socket_id
                    == socket_id && old(self).clients_spec()[c].level_spec() == Some((#[trigger] old(self).rooms_spec()[r]).id_spec())
                    && 0 <= r < old(self).rooms_spec().len() implies c == ci && r == ri by {
                if c != ci {
                    assert(old(self).clients_spec()[c].socket_id != old(self).clients_spec()[ci as int].socket_id);
                }
                if r != ri {
                    assert(old(self).rooms_spec()[r].id_spec() != old(self).rooms_spec()[ri as int].id_spec());
                }
            }
        }
    }

    /// A grab by session `socket_id` of flag `flag_id` in its level, from
    /// the position it reports; see `Room::process_grab_flag`.
    pub fn send_grab_flag(&mut self, socket_id: u32, grab_flag_msg: GrabFlagMsg) -> (grabbed: bool)
        requires
            old(self).wf(),
            grab_flag_msg.pos.valid(),
        ensures
            final(self).wf(),
            final(self).clients_spec() == old(self).clients_spec(),
            final(self).history_spec() == old(self).history_spec(),
            final(self).rooms_spec().len() == old(self).rooms_spec().len(),
            !grabbed ==> final(self).rooms_spec() == old(self).rooms_spec(),
            forall|ci: int, ri: int|
                0 <= ci < old(self).clients_spec().len() && (#[trigger] old(self).clients_spec()[ci]).socket_id
                    == socket_id && old(self).clients_spec()[ci].level_spec() == Some(
                    (#[trigger] old(self).rooms_spec()[ri]).id_spec(),
                ) && 0 <= ri < old(self).rooms_spec().len() ==> Room::grabbed(
                    old(self).rooms_spec()[ri],
                    final(self).rooms_spec()[ri],
                    grab_flag_msg.flag_id as int,
                    grab_flag_msg.pos,
                    socket_id,
                    grabbed,
                ) && forall|k: int|
                    0 <= k < old(self).rooms_spec().len() && k != ri ==> #[trigger] final(self).rooms_spec()[k]
                        == old(self).rooms_spec()[k],
    {
        let ci = match self.client_index(socket_id) {
            Some(ci) => ci,
            None => {
                return false;
            },
        };
        let level = match self.clients[ci].get_level() {
            Some(l) => l,
            None => {
                return false;
            },
        };
        let ri = match self.room_index(level) {
            Some(ri) => ri,
            None => {
                return false;
            },
        };
        proof {
            assert forall|c: int, r: int|
                0 <= c < old(self).clients_spec().len() && (#[trigger] old(self).clients_spec()[c]).socket_id
                    == socket_id && old(self).clients_spec()[c].level_spec() == Some((#[trigger] old(self).rooms_spec()[r]).id_spec())
                    && 0 <= r < old(self).rooms_spec().len() implies c == ci && r == ri by {
                if c != ci {
                    assert(old(self).clients_spec()[c].socket_id != old(self).clients_spec()[ci as int].socket_id);
                }
                if r != ri {
                    assert(old(self).rooms_spec()[r].id_spec() != old(self).rooms_spec()[ri as int].id_spec());
                }
            }
        }
        let ghost before = self.rooms@;
        let mut room = self.rooms.remove(ri);
        proof {
            assert(before[ri as int].wf());
        }
        let grabbed = room.process_grab_flag(grab_flag_msg.flag_id as usize, grab_flag_msg.pos, socket_id);
        self.rooms.insert(ri, room);
        proof {
            assert(self.rooms@ == before.update(ri as int, room));
            if !grabbed {
                assert(self.rooms@ == before);
            }
            Self::lemma_room_update(before, self.clients@, ri as int, room);
        }
        grabbed
    }

    /// A join of level `join_game_msg.level` by session `socket_id`. It is
    /// accepted iff the level has a room other than the reserved level 0, the
    /// session exists and is not in that level already, and the name is the
    /// Discord name (when asked for and linked) or a name that passes the
    /// display-name policy. The session's player is then a fresh player in
    /// that level.
    pub fn send_join_game(&mut self, socket_id: u32, join_game_msg: JoinGameMsg, auth_info: &AuthInfo) -> (r:
        Option<JoinGameAccepted>)
        requires
            old(self).wf(),
        ensures
            final(self).wf(),
            final(self).rooms_spec() == old(self).rooms_spec(),
            final(self).history_spec() == old(self).history_spec(),
            r is Some <==> {
                &&& has_room(old(self).rooms_spec(), join_game_msg.level)
                &&& has_socket(old(self).clients_spec(), socket_id)
                &&& !in_level(old(self).clients_spec(), socket_id, join_game_msg.level)
                &&& (if join_game_msg.use_discord_name {
                    auth_info.discord is Some
                } else {
                    name_valid(join_game_msg.name@)
                })
                &&& join_game_msg.level != 0
            },
            r is None ==> final(self).clients_spec() == old(self).clients_spec(),
            r matches Some(a) ==> {
                &&& a.level == join_game_msg.level
                &&& a.name@ == (if join_game_msg.use_discord_name {
                    discord_name(*auth_info)
                } else {
                    join_game_msg.name@
                })
                &&& exists|i: int|
                    0 <= i < old(self).clients_spec().len() && (#[trigger] old(self).clients_spec()[i]).socket_id
                        == socket_id && final(self).clients_spec() == old(self).clients_spec().update(
                        i,
                        Client {
                            player: Some(Player::spec_new(socket_id, a.level, a.name)),
                            ..old(self).clients_spec()[i]
                        },
                    )
            },
    {
        let level = join_game_msg.level;
        if self.room_index(level).is_none() {
            return None;
        }
        let ci = match self.client_index(socket_id) {
            Some(ci) => ci,
            None => {
                return None;
            },
        };
        proof {
            assert forall|c: int| 0 <= c < self.clients@.len() && (#[trigger] self.clients@[c]).socket_id == socket_id implies c == ci by {
                if c != ci {
                    assert(self.clients@[c].socket_id != self.clients@[ci as int].socket_id);
                }
            }
        }
        if self.clients[ci].get_level() == Some(level) {
            return None;
        }
        let name = if join_game_msg.use_discord_name {
            match auth_info.get_discord_username() {
                Some(n) => n,
                None => {
                    return None;
                },
            }
        } else {
            if !is_name_valid(join_game_msg.name.as_str()) {
                return None;
            }
            join_game_msg.name
        };
        if level == 0 {
            return None;
        }
        let ghost before = self.clients@;
        let mut c = self.clients.remove(ci);
        let player = Player::new(socket_id, level, name);
        c.player = Some(player);
        self.clients.insert(ci, c);
        proof {
            assert(self.clients@ == before.update(ci as int, c));
            Self::lemma_client_update(before, self.rooms@, ci as int, c);
        }
        match &self.clients[ci].player {
            Some(p) => Some(JoinGameAccepted { level, name: p.name.clone() }),
            None => None,
        }
    }

    /// Stores the skin of session `socket_id`'s player and marks it for the
    /// next skin broadcast; a session without a player is left alone.
    pub fn send_skin(&mut self, socket_id: u32, skin_msg: SkinMsg)
        requires
            old(self).wf(),
        ensures
            final(self).wf(),
            final(self).rooms_spec() == old(self).rooms_spec(),
            final(self).history_spec() == old(self).history_spec(),
            forall|i: int|
                0 <= i < old(self).clients_spec().len() && (#[trigger] old(self).clients_spec()[i]).socket_id
                    == socket_id && old(self).clients_spec()[i].player is Some ==> final(self).clients_spec()
                    == old(self).clients_spec().update(
                    i,
                    Client {
                        player: Some(
                            Player {
                                skin_data: skin_msg.skin_data,
                                skin_data_updated: true,
                                ..old(self).clients_spec()[i].player->0
                            },
                        ),
                        ..old(self).clients_spec()[i]
                    },
                ),
            !in_some_level(old(self).clients_spec(), socket_id) ==> final(self).clients_spec()
                == old(self).clients_spec(),
    {
        let ci = match self.client_index(socket_id) {
            Some(ci) => ci,
            None => {
                return;
            },
        };
        proof {
            assert forall|c: int| 0 <= c < self.clients@.len() && (#[trigger] self.clients@[c]).socket_id == socket_id implies c == ci by {
                if c != ci {
                    assert(self.clients@[c].socket_id != self.clients@[ci as int].socket_id);
                }
            }
        }
        if self.clients[ci].player.is_none() {
            return;
        }
        let ghost before = self.clients@;
        let mut c = self.clients.remove(ci);
        match c.player {
            Some(mut p) => {
                p.set_skin_data(skin_msg.skin_data);
                c.player = Some(p);
            },
            None => {},
        }
        self.clients.insert(ci, c);
        proof {
            assert(self.clients@ == before.update(ci as int, c));
            Self::lemma_client_update(before, self.rooms@, ci as int, c);
        }
    }

    /// Socket ids of the sessions whose player is in `level`.
    pub fn sockets_in_level(&self, level: u32) -> (r: Vec<u32>)
        ensures
            r@ == sockets_in_level(self.clients_spec(), level),
    {
        let mut out: Vec<u32> = Vec::new();
        let mut i: usize = 0;
        while i < self.clients.len()
            invariant
                i <= self.clients@.len(),
                out@ == sockets_in_level(self.clients@.take(i as int), level),
            decreases self.clients@.len() - i,
        {
            proof {
                assert(self.clients@.take(i as int + 1).drop_last() == self.clients@.take(i as int));
            }
            if self.clients[i].get_level() == Some(level) {
                out.push(self.clients[i].socket_id);
            }
            i = i + 1;
        }
        assert(self.clients@.take(i as int) == self.clients@);
        out
    }

    /// Socket ids of the sessions that have not joined a level.
    pub fn lobby_sockets(&self) -> (r: Vec<u32>)
        ensures
            r@ == lobby_sockets(self.clients_spec()),
    {
        let mut out: Vec<u32> = Vec::new();
        let mut i: usize = 0;
        while i < self.clients.len()
            invariant
                i <= self.clients@.len(),
                out@ == lobby_sockets(self.clients@.take(i as int)),
            decreases self.clients@.len() - i,
        {
            proof {
                assert(self.clients@.take(i as int + 1).drop_last() == self.clients@.take(i as int));
            }
            if self.clients[i].player.is_none() {
                out.push(self.clients[i].socket_id);
            }
            i = i + 1;
        }
        assert(self.clients@.take(i as int) == self.clients@);
        out
    }

    /// The message for every session that has not joined a level.
    pub fn broadcast_lobby_data(&self, msg: Sm64JsMsg) -> (r: Delivery)
        ensures
            r.recipients@ == lobby_sockets(self.clients_spec()),
            r.msg == msg,
    {
        Delivery { recipients: self.lobby_sockets(), msg }
    }

    /// The latest frames of the sessions whose player is in `level`.
    pub fn frames_in_level(&self, level: u32) -> (r: Vec<MarioMsg>)
        ensures
            r@.map_values(|m: MarioMsg| frame_view(m)) == frames_in_level(self.clients_spec(), level),
    {
        let mut out: Vec<MarioMsg> = Vec::new();
        let mut i: usize = 0;
        while i < self.clients.len()
            invariant
                i <= self.clients@.len(),
                out@.map_values(|m: MarioMsg| frame_view(m)) == frames_in_level(self.clients@.take(i as int), level),
            decreases self.clients@.len() - i,
        {
            proof {
                assert(self.clients@.take(i as int + 1).drop_last() == self.clients@.take(i as int));
            }
            if self.clients[i].get_level() == Some(level) {
                match &self.clients[i].data {
                    Some(d) => {
                        let ghost prev = out@;
                        out.push(MarioMsg { socket_id: d.socket_id, pos: d.pos, body: d.body.clone() });
                        proof {
                            assert(out@.map_values(|m: MarioMsg| frame_view(m)) == prev.map_values(|m: MarioMsg| frame_view(m)).push(frame_view(*d)));
                        }
                    },
                    None => {},
                }
            }
            i = i + 1;
        }
        assert(self.clients@.take(i as int) == self.clients@);
        out
    }

    /// The snapshot of room `ri` for everyone in it: every flag and the
    /// latest frame of every player in the level.
    pub fn broadcast_data(&self, ri: usize) -> (r: Delivery)
        requires
            ri < self.rooms_spec().len(),
        ensures
            r.recipients@ == sockets_in_level(self.clients_spec(), self.rooms_spec()[ri as int].id_spec()),
            r.msg matches Sm64JsMsg::List(l) && l.flag@ == self.rooms_spec()[ri as int].flags_spec().map_values(
                |f: crate::flag::Flag| f.msg_spec(),
            ) && l.mario@.map_values(|m: MarioMsg| frame_view(m)) == frames_in_level(
                self.clients_spec(),
                self.rooms_spec()[ri as int].id_spec(),
            ),
    {
        let room = &self.rooms[ri];
        let level = room.get_id();
        let flag = room.flag_msgs();
        assert(flag@ == room.flags_spec().map_values(|f: crate::flag::Flag| f.msg_spec()));
        let mario = self.frames_in_level(level);
        Delivery { recipients: self.sockets_in_level(level), msg: Sm64JsMsg::List(MarioListMsg { flag, mario }) }
    }
}

/// Whether the session `id` of `c` has a player.
pub open spec fn in_some_level(c: Seq<Client>, id: u32) -> bool {
    exists|i: int| 0 <= i < c.len() && (#[trigger] c[i]).socket_id == id && c[i].player is Some
}

fn server_notice(chat: &ChatMsg, text: String) -> (r: ChatMsg)
    ensures
        is_notice(r, *chat, text@),
{
    ChatMsg {
        message: text,
        sender: String::from_str("[Server]"),
        socket_id: chat.socket_id,
        is_server: true,
        is_admin: chat.is_admin,
    }
}

fn mute_notice(expires_at: Option<i64>, now: i64) -> (r: String)
    ensures
        r@ == muted_notice(expires_at, now),
{
    let mut text = String::from_str("You are muted");
    match expires_at {
        Some(t) => {
            let diff = t as i128 - now as i128;
            let secs: u64 = if diff <= 0 {
                0
            } else {
                (diff / 1_000_000_000) as u64
            };
            text.append(" for ");
            let d = format_duration_secs(secs);
            text.append(d.as_str());
        },
        None => {},
    }
    text
}

/// The session of `c` with socket id `id`.
pub open spec fn client_of(c: Seq<Client>, id: u32) -> Client {
    c[choose|i: int| 0 <= i < c.len() && (#[trigger] c[i]).socket_id == id]
}

/// Whether `m` is a chat command: it starts with a slash.
pub open spec fn is_command(m: Seq<char>) -> bool {
    m.len() > 0 && m[0] == '/'
}

impl Sm64JsServer {
    /// A chat message from session `socket_id`.
    ///
    /// A text that starts with `/` is a command: an announcement that the
    /// sender may make goes to everyone in the sender's level. Otherwise, for
    /// a session with a player: a muted sender (`muted` holds the end of the
    /// mute, if it has one) gets a notice; else the text runs through the
    /// chat pipeline at time `now` and is broadcast to the level when it is
    /// accepted and not empty, or the sender gets a notice (spam, excessive
    /// spam with an automatic mute, screaming). Anything else does nothing.
    pub fn send_chat(
        &mut self,
        socket_id: u32,
        chat_msg: ChatMsg,
        auth_info: &AuthInfo,
        muted: Option<Option<i64>>,
        now: i64,
    ) -> (r: ChatOutcome)
        requires
            old(self).wf(),
        ensures
            final(self).wf(),
            final(self).clients_spec() == old(self).clients_spec(),
            final(self).rooms_spec() == old(self).rooms_spec(),
            is_command(chat_msg.message@) ==> {
                &&& final(self).history_spec() == old(self).history_spec()
                &&& r.reply is None
                &&& r.mute_account is None
                &&& (r.broadcast matches Some(d) ==> (d.msg matches Sm64JsMsg::Announcement(a)
                    && a.timer == crate::chat::ANNOUNCEMENT_TIMER && command_announcement(
                    chat_msg.message@,
                    *auth_info,
                    a.message@,
                ) && exists|level: u32|
                    in_level(old(self).clients_spec(), socket_id, level) && d.recipients@
                        == sockets_in_level(old(self).clients_spec(), level)))
            },
            is_command(chat_msg.message@) && (exists|t: Seq<char>|
                command_announcement(chat_msg.message@, *auth_info, t)) && in_some_level(
                old(self).clients_spec(),
                socket_id,
            ) ==> r.broadcast is Some,
            !is_command(chat_msg.message@) && !in_some_level(old(self).clients_spec(), socket_id)
                ==> final(self).history_spec() == old(self).history_spec() && r.broadcast is None
                && r.reply is None && r.mute_account is None,
            !is_command(chat_msg.message@) && muted is Some ==> final(self).history_spec()
                == old(self).history_spec() && r.broadcast is None && r.mute_account is None && (
            in_some_level(old(self).clients_spec(), socket_id) ==> r.reply is Some && is_notice(
                r.reply->0,
                chat_msg,
                muted_notice(muted->0, now),
            )),
            !is_command(chat_msg.message@) && muted is None && in_some_level(
                old(self).clients_spec(),
                socket_id,
            ) ==> ({
                let cl = client_of(old(self).clients_spec(), socket_id);
                let e = old(self).history_spec().view();
                let m = chat_msg.message@;
                let key = next_key(e, now);
                let spam = count_recent(e, window_start(key, SPAM_WINDOW), cl.auth_info.account_id, true)
                    >= SPAM_LIMIT;
                let excessive = count_recent(
                    e,
                    window_start(key, EXCESSIVE_SPAM_WINDOW),
                    cl.auth_info.account_id,
                    false,
                ) + 1 >= EXCESSIVE_SPAM_LIMIT;
                let text = censored(sanitized(m));
                &&& fresh_key(e, key) ==> final(self).history_spec().view().drop_last() == e
                    && final(self).history_spec().view().len() == e.len() + 1
                    && final(self).history_spec().view().last().1.message@ == m
                    && final(self).history_spec().view().last().0 == key
                &&& !fresh_key(e, key) ==> final(self).history_spec().view() == e
                &&& excessive ==> r.broadcast is None && r.mute_account == Some((cl.auth_info.account_id, mute_end(now)))
                    && r.reply is Some && is_notice(r.reply->0, chat_msg, excessive_spam_notice())
                &&& !excessive && spam ==> r.broadcast is None && r.mute_account is None && r.reply is Some
                    && is_notice(r.reply->0, chat_msg, spam_notice())
                &&& !excessive && !spam && screaming(m) ==> r.broadcast is None && r.mute_account is None
                    && r.reply is Some && is_notice(r.reply->0, chat_msg, screaming_notice())
                &&& !excessive && !spam && !screaming(m) ==> r.reply is None && r.mute_account is None && (
                r.broadcast is Some <==> text.len() > 0)
                &&& r.broadcast is Some ==> {
                    let d = r.broadcast->0;
                    &&& d.recipients@ == sockets_in_level(old(self).clients_spec(), cl.player->0.level)
                    &&& d.msg is Chat
                    &&& d.msg->Chat_0.message@ == text
                    &&& d.msg->Chat_0.sender == cl.player->0.name
                    &&& d.msg->Chat_0.socket_id == socket_id
                    &&& d.msg->Chat_0.is_admin == auth_info.is_admin()
                    &&& d.msg->Chat_0.is_server == chat_msg.is_server
                }
            }),
    {
        let message = chat_msg.message.as_str();
        if message.unicode_len() > 0 && message.get_char(0) == '/' {
            let ann = handle_command(message, auth_info);
            let level = match self.client_index(socket_id) {
                Some(ci) => {
                    proof {
                        assert forall|c: int|
                            0 <= c < self.clients@.len() && (#[trigger] self.clients@[c]).socket_id
                                == socket_id implies c == ci by {
                            if c != ci {
                                assert(self.clients@[c].socket_id != self.clients@[ci as int].socket_id);
                            }
                        }
                    }
                    self.clients[ci].get_level()
                },
                None => None,
            };
            let broadcast = match (ann, level) {
                (Some(a), Some(level)) => {
                    proof {
                        assert(in_level(self.clients@, socket_id, level));
                    }
                    Some(Delivery { recipients: self.sockets_in_level(level), msg: Sm64JsMsg::Announcement(a) })
                },
                _ => None,
            };
            return ChatOutcome { broadcast, reply: None, mute_account: None };
        }
        let ci = match self.client_index(socket_id) {
            Some(ci) => ci,
            None => {
                return ChatOutcome { broadcast: None, reply: None, mute_account: None };
            },
        };
        proof {
            assert forall|c: int| 0 <= c < self.clients@.len() && (#[trigger] self.clients@[c]).socket_id == socket_id implies c == ci by {
                if c != ci {
                    assert(self.clients@[c].socket_id != self.clients@[ci as int].socket_id);
                }
            }
        }
        let (level, name) = match &self.clients[ci].player {
            Some(p) => (p.level, p.name.clone()),
            None => {
                return ChatOutcome { broadcast: None, reply: None, mute_account: None };
            },
        };
        match muted {
            Some(exp) => {
                let reply = server_notice(&chat_msg, mute_notice(exp, now));
                return ChatOutcome { broadcast: None, reply: Some(reply), mute_account: None };
            },
            None => {},
        }
        proof {
            let k = choose|i: int| 0 <= i < self.clients@.len() && (#[trigger] self.clients@[i]).socket_id == socket_id;
            assert(k == ci);
        }
        let client = &self.clients[ci];
        let account = AccountInfo {
            account_id: client.auth_info.account_id,
            discord_id: client.auth_info.get_discord_id(),
            google_id: client.auth_info.get_google_id(),
        };
        let account_id = client.auth_info.account_id;
        let ip = client.ip.clone();
        let result = self.chat_history.add_message_at(message, account, name.clone(), ip, now);
        match result {
            ChatResult::Accepted((text, is_spam)) => {
                if is_spam || text.unicode_len() == 0 {
                    ChatOutcome { broadcast: None, reply: None, mute_account: None }
                } else {
                    let out = ChatMsg {
                        message: text,
                        sender: name,
                        socket_id,
                        is_server: chat_msg.is_server,
                        is_admin: auth_info.is_in_game_admin(),
                    };
                    ChatOutcome {
                        broadcast: Some(
                            Delivery { recipients: self.sockets_in_level(level), msg: Sm64JsMsg::Chat(out) },
                        ),
                        reply: None,
                        mute_account: None,
                    }
                }
            },
            ChatResult::Rejected(ChatError::Spam) => {
                let reply = server_notice(&chat_msg, String::from_str(
                    "Chat message ignored: You have to wait longer between sending chat messages",
                ));
                ChatOutcome { broadcast: None, reply: Some(reply), mute_account: None }
            },
            ChatResult::Rejected(ChatError::ExcessiveSpam) => {
                let reply = server_notice(&chat_msg, String::from_str(
                    "You have been muted for 5min due to sending way too many messages",
                ));
                let end = if now > i64::MAX - AUTO_MUTE_SECS * 1_000_000_000 {
                    i64::MAX
                } else {
                    now + AUTO_MUTE_SECS * 1_000_000_000
                };
                ChatOutcome { broadcast: None, reply: Some(reply), mute_account: Some((account_id, end)) }
            },
            ChatResult::Rejected(ChatError::Screaming) => {
                let reply = server_notice(&chat_msg, String::from_str("COULD YOU PLEASE STOP SCREAMING?"));
                ChatOutcome { broadcast: None, reply: Some(reply), mute_account: None }
            },
            ChatResult::NotFound => ChatOutcome { broadcast: None, reply: None, mute_account: None },
        }
    }
}

/// Skin messages for the players of `c` whose skin changed and who have a
/// skin, in order: the socket id, the skin bytes, the name and the level of
/// each.
pub open spec fn skin_updates(c: Seq<Client>) -> Seq<(u32, Option<Seq<u8>>, String, u32)>
    decreases c.len(),
{
    if c.len() == 0 {
        Seq::empty()
    } else {
        let rest = skin_updates(c.drop_last());
        let l = c.last();
        if l.player is Some && l.player->0.skin_data_updated && l.player->0.skin_data is Some {
            rest.push((l.socket_id, skin_view(l.player->0.skin_data), l.player->0.name, l.player->0.level))
        } else {
            rest
        }
    }
}

/// Skins of the players of `c` in `level` that have one, in order.
pub open spec fn skins_in_level(c: Seq<Client>, level: u32) -> Seq<(u32, Option<Seq<u8>>, String)>
    decreases c.len(),
{
    if c.len() == 0 {
        Seq::empty()
    } else {
        let rest = skins_in_level(c.drop_last(), level);
        let l = c.last();
        if l.player is Some && l.player->0.level == level && l.player->0.skin_data is Some {
            rest.push((l.socket_id, skin_view(l.player->0.skin_data), l.player->0.name))
        } else {
            rest
        }
    }
}

/// The view of a skin message.
pub open spec fn skin_msg_view(m: SkinMsg) -> (u32, Option<Seq<u8>>, String) {
    (m.socket_id, skin_view(m.skin_data), m.player_name)
}

impl Sm64JsServer {
    /// Ends the session of `account`, if any, and returns its socket id so
    /// that it can be told it was kicked.
    pub fn kick_client_by_account_id(&mut self, account_id: i32) -> (r: Option<u32>)
        requires
            old(self).wf(),
        ensures
            final(self).wf(),
            r is None <==> !has_account(old(self).clients_spec(), account_id),
            r is None ==> final(self).clients_spec() == old(self).clients_spec(),
            r matches Some(id) ==> exists|k: int|
                0 <= k < old(self).clients_spec().len() && (#[trigger] old(self).clients_spec()[k]).socket_id == id
                    && old(self).clients_spec()[k].auth_info.account_id == account_id
                    && final(self).clients_spec() == old(self).clients_spec().remove(k)
                    && rooms_released(old(self).rooms_spec(), final(self).rooms_spec(), old(self).clients_spec()[k].level_spec(), id),
            r is None ==> final(self).rooms_spec() == old(self).rooms_spec(),
            final(self).history_spec() == old(self).history_spec(),
    {
        match self.account_index(account_id) {
            Some(ai) => {
                let id = self.clients[ai].socket_id;
                proof {
                    assert(has_socket(self.clients@, id));
                }
                let ghost before = self.clients@;
                self.disconnect(id);
                proof {
                    let k = choose|k: int|
                        0 <= k < before.len() && before[k].socket_id == id && #[trigger] before.remove(k) == self.clients@;
                    assert(k == ai);
                }
                Some(id)
            },
            None => None,
        }
    }

    /// Ends the first session from `ip`, if any, and returns its socket id.
    pub fn kick_client_by_ip_addr(&mut self, ip: &str) -> (r: Option<u32>)
        requires
            old(self).wf(),
        ensures
            final(self).wf(),
            r is None ==> final(self).clients_spec() == old(self).clients_spec() && forall|k: int|
                0 <= k < old(self).clients_spec().len() ==> (#[trigger] old(self).clients_spec()[k]).ip@ != ip@,
            r matches Some(id) ==> exists|k: int|
                0 <= k < old(self).clients_spec().len() && (#[trigger] old(self).clients_spec()[k]).socket_id == id
                    && old(self).clients_spec()[k].ip@ == ip@
                    && final(self).clients_spec() == old(self).clients_spec().remove(k)
                    && rooms_released(old(self).rooms_spec(), final(self).rooms_spec(), old(self).clients_spec()[k].level_spec(), id),
            r is None ==> final(self).rooms_spec() == old(self).rooms_spec(),
            final(self).history_spec() == old(self).history_spec(),
    {
        let target = String::from_str(ip);
        let mut i: usize = 0;
        while i < self.clients.len()
            invariant
                i <= self.clients@.len(),
                target@ == ip@,
                self.wf(),
                self.clients@ == old(self).clients@,
                self.rooms@ == old(self).rooms@,
                self.chat_history == old(self).chat_history,
                forall|k: int| 0 <= k < i ==> (#[trigger] self.clients@[k]).ip@ != ip@,
            decreases self.clients@.len() - i,
        {
            if self.clients[i].ip == target {
                let id = self.clients[i].socket_id;
                proof {
                    assert(has_socket(self.clients@, id));
                }
                let ghost before = self.clients@;
                self.disconnect(id);
                proof {
                    let k = choose|k: int|
                        0 <= k < before.len() && before[k].socket_id == id && #[trigger] before.remove(k) == self.clients@;
                    if k != i {
                        assert(before[k].socket_id != before[i as int].socket_id);
                    }
                }
                return Some(id);
            }
            i = i + 1;
        }
        None
    }

    /// One world tick for the flags of every room.
    pub fn process_flags(&mut self)
        requires
            old(self).wf(),
        ensures
            final(self).wf(),
            final(self).clients_spec() == old(self).clients_spec(),
            final(self).history_spec() == old(self).history_spec(),
            final(self).rooms_spec().len() == old(self).rooms_spec().len(),
            forall|i: int|
                0 <= i < old(self).rooms_spec().len() ==> {
                    &&& (#[trigger] final(self).rooms_spec()[i]).id_spec() == old(self).rooms_spec()[i].id_spec()
                    &&& final(self).rooms_spec()[i].flags_spec().len() == old(self).rooms_spec()[i].flags_spec().len()
                    &&& forall|k: int|
                        0 <= k < old(self).rooms_spec()[i].flags_spec().len() ==> crate::flag::Flag::ticked(
                            #[trigger] old(self).rooms_spec()[i].flags_spec()[k],
                            final(self).rooms_spec()[i].flags_spec()[k],
                        )
                },
    {
        let n = self.rooms.len();
        let mut i: usize = 0;
        while i < n
            invariant
                n == self.rooms@.len(),
                n == old(self).rooms@.len(),
                i <= n,
                self.wf(),
                self.clients@ == old(self).clients@,
                self.chat_history == old(self).chat_history,
                forall|j: int|
                    0 <= j < i ==> {
                        &&& (#[trigger] self.rooms@[j]).id_spec() == old(self).rooms@[j].id_spec()
                        &&& self.rooms@[j].flags_spec().len() == old(self).rooms@[j].flags_spec().len()
                        &&& forall|k: int|
                            0 <= k < old(self).rooms@[j].flags_spec().len() ==> crate::flag::Flag::ticked(
                                #[trigger] old(self).rooms@[j].flags_spec()[k],
                                self.rooms@[j].flags_spec()[k],
                            )
                    },
                forall|j: int| i <= j < n ==> #[trigger] self.rooms@[j] == old(self).rooms@[j],
            decreases n - i,
        {
            let ghost before = self.rooms@;
            let mut room = self.rooms.remove(i);
            proof {
                assert(before[i as int].wf());
            }
            room.process_flags();
            self.rooms.insert(i, room);
            proof {
                assert(self.rooms@ == before.update(i as int, room));
                Self::lemma_room_update(before, self.clients@, i as int, room);
            }
            i = i + 1;
        }
    }

    /// Skin messages for every player whose skin changed since the last
    /// call, each for everyone in that player's level; the marks are cleared.
    pub fn broadcast_skins(&mut self) -> (r: Vec<Delivery>)
        requires
            old(self).wf(),
        ensures
            final(self).wf(),
            final(self).rooms_spec() == old(self).rooms_spec(),
            final(self).history_spec() == old(self).history_spec(),
            final(self).clients_spec().len() == old(self).clients_spec().len(),
            forall|i: int|
                0 <= i < old(self).clients_spec().len() ==> #[trigger] final(self).clients_spec()[i] == (
                match old(self).clients_spec()[i].player {
                    Some(p) => Client {
                        player: Some(Player { skin_data_updated: false, ..p }),
                        ..old(self).clients_spec()[i]
                    },
                    None => old(self).clients_spec()[i],
                }),
            r@.len() == skin_updates(old(self).clients_spec()).len(),
            forall|k: int|
                0 <= k < r@.len() ==> {
                    let u = skin_updates(old(self).clients_spec())[k];
                    &&& (#[trigger] r@[k]).msg is Skin
                    &&& skin_msg_view(r@[k].msg->Skin_0) == (u.0, u.1, u.2)
                    &&& r@[k].msg->Skin_0.num_coins == 0
                    &&& r@[k].recipients@ == sockets_in_level(old(self).clients_spec(), u.3)
                },
    {
        let n = self.clients.len();
        let mut updates: Vec<(SkinMsg, u32)> = Vec::new();
        let mut i: usize = 0;
        while i < n
            invariant
                n == self.clients@.len(),
                n == old(self).clients@.len(),
                i <= n,
                self.wf(),
                self.rooms@ == old(self).rooms@,
                self.chat_history == old(self).chat_history,
                forall|j: int|
                    0 <= j < i ==> #[trigger] self.clients@[j] == (match old(self).clients@[j].player {
                        Some(p) => Client { player: Some(Player { skin_data_updated: false, ..p }), ..old(self).clients@[j] },
                        None => old(self).clients@[j],
                    }),
                forall|j: int| i <= j < n ==> #[trigger] self.clients@[j] == old(self).clients@[j],
                updates@.len() == skin_updates(old(self).clients@.take(i as int)).len(),
                forall|k: int|
                    0 <= k < updates@.len() ==> {
                        let u = skin_updates(old(self).clients@.take(i as int))[k];
                        &&& skin_msg_view((#[trigger] updates@[k]).0) == (u.0, u.1, u.2)
                        &&& updates@[k].0.num_coins == 0
                        &&& updates@[k].1 == u.3
                    },
            decreases n - i,
        {
            proof {
                assert(old(self).clients@.take(i as int + 1).drop_last() == old(self).clients@.take(i as int));
            }
            let ghost before = self.clients@;
            let mut c = self.clients.remove(i);
            match c.player {
                Some(mut p) => {
                    let got = p.get_updated_skin_data();
                    match got {
                        Some(skin) => {
                            updates.push((SkinMsg { socket_id: c.socket_id, skin_data: Some(skin), player_name: p.name.clone(), num_coins: 0 }, p.level));
                        },
                        None => {},
                    }
                    c.player = Some(p);
                },
                None => {},
            }
            self.clients.insert(i, c);
            proof {
                assert(self.clients@ == before.update(i as int, c));
                Self::lemma_client_update(before, self.rooms@, i as int, c);
            }
            i = i + 1;
        }
        proof {
            assert(old(self).clients@.take(n as int) == old(self).clients@);
            assert forall|j: int| 0 <= j < old(self).clients@.len() implies #[trigger] self.clients@[j].level_spec() == old(self).clients@[j].level_spec() && self.clients@[j].socket_id == old(self).clients@[j].socket_id by {
                assert(self.clients@[j] == (match old(self).clients@[j].player {
                    Some(p) => Client { player: Some(Player { skin_data_updated: false, ..p }), ..old(self).clients@[j] },
                    None => old(self).clients@[j],
                }));
            }
        }
        let mut out: Vec<Delivery> = Vec::new();
        let mut k: usize = 0;
        while k < updates.len()
            invariant
                k <= updates@.len(),
                out@.len() == k,
                forall|j: int| 0 <= j < old(self).clients@.len() ==> #[trigger] self.clients@[j].level_spec() == old(self).clients@[j].level_spec() && self.clients@[j].socket_id == old(self).clients@[j].socket_id,
                self.clients@.len() == old(self).clients@.len(),
                forall|j: int|
                    0 <= j < k ==> (#[trigger] out@[j]).msg is Skin && skin_msg_view(out@[j].msg->Skin_0) == skin_msg_view(updates@[j].0)
                        && out@[j].msg->Skin_0.num_coins == 0
                        && out@[j].recipients@ == sockets_in_level(old(self).clients@, updates@[j].1),
            decreases updates@.len() - k,
        {
            let level = updates[k].1;
            let recipients = self.sockets_in_level(level);
            proof {
                lemma_levels_equal(self.clients@, old(self).clients@, level);
            }
            let m = SkinMsg {
                socket_id: updates[k].0.socket_id,
                skin_data: crate::client::copy_skin(&updates[k].0.skin_data),
                player_name: updates[k].0.player_name.clone(),
                num_coins: 0,
            };
            out.push(Delivery { recipients, msg: Sm64JsMsg::Skin(m) });
            k = k + 1;
        }
        out
    }
}

proof fn lemma_levels_equal(a: Seq<Client>, b: Seq<Client>, level: u32)
    requires
        a.len() == b.len(),
        forall|j: int| 0 <= j < b.len() ==> #[trigger] a[j].level_spec() == b[j].level_spec() && a[j].socket_id == b[j].socket_id,
    ensures
        sockets_in_level(a, level) == sockets_in_level(b, level),
    decreases a.len(),
{
    if a.len() > 0 {
        assert(a.last().level_spec() == b.last().level_spec() && a.last().socket_id == b.last().socket_id) by {
            assert(a[a.len() - 1].level_spec() == b[b.len() - 1].level_spec());
        }
        lemma_levels_equal(a.drop_last(), b.drop_last(), level);
    }
}

impl Sm64JsServer {
    /// The players present in room `ri`, also sent to everyone in it.
    pub fn get_and_send_valid_players(&self, ri: usize) -> (r: (ValidPlayersMsg, Delivery))
        requires
            ri < self.rooms_spec().len(),
        ensures
            r.0.level_id == self.rooms_spec()[ri as int].id_spec(),
            r.0.valid_players@ == sockets_in_level(self.clients_spec(), r.0.level_id),
            r.1.recipients@ == r.0.valid_players@,
            r.1.msg is PlayerLists && r.1.msg->PlayerLists_0.game@.len() == 1
                && r.1.msg->PlayerLists_0.game@[0].level_id == r.0.level_id
                && r.1.msg->PlayerLists_0.game@[0].valid_players@ == r.0.valid_players@,
    {
        let level = self.rooms[ri].get_id();
        let valid = ValidPlayersMsg { level_id: level, valid_players: self.sockets_in_level(level) };
        let copy = ValidPlayersMsg { level_id: level, valid_players: self.sockets_in_level(level) };
        let recipients = self.sockets_in_level(level);
        (valid, Delivery { recipients, msg: Sm64JsMsg::PlayerLists(PlayerListsMsg { game: vec![copy] }) })
    }

    /// The once-a-second player lists: each room's list for everyone in it,
    /// and all of them together for every session that has not joined a level.
    pub fn broadcast_valid_update(&self) -> (r: Vec<Delivery>)
        ensures
            r@.len() == self.rooms_spec().len() + 1,
            forall|i: int|
                0 <= i < self.rooms_spec().len() ==> (#[trigger] r@[i]).recipients@ == sockets_in_level(
                    self.clients_spec(),
                    self.rooms_spec()[i].id_spec(),
                ),
            r@.last().recipients@ == lobby_sockets(self.clients_spec()),
            r@.last().msg is PlayerLists && r@.last().msg->PlayerLists_0.game@.len() == self.rooms_spec().len()
                && forall|i: int|
                0 <= i < self.rooms_spec().len() ==> (#[trigger] r@.last().msg->PlayerLists_0.game@[i]).level_id
                    == self.rooms_spec()[i].id_spec() && r@.last().msg->PlayerLists_0.game@[i].valid_players@
                    == sockets_in_level(self.clients_spec(), self.rooms_spec()[i].id_spec()),
    {
        let mut out: Vec<Delivery> = Vec::new();
        let mut game: Vec<ValidPlayersMsg> = Vec::new();
        let mut i: usize = 0;
        while i < self.rooms.len()
            invariant
                i <= self.rooms@.len(),
                out@.len() == i,
                game@.len() == i,
                forall|j: int|
                    0 <= j < i ==> (#[trigger] out@[j]).recipients@ == sockets_in_level(
                        self.clients@,
                        self.rooms@[j].id_spec(),
                    ),
                forall|j: int|
                    0 <= j < i ==> (#[trigger] game@[j]).level_id == self.rooms@[j].id_spec()
                        && game@[j].valid_players@ == sockets_in_level(self.clients@, self.rooms@[j].id_spec()),
            decreases self.rooms@.len() - i,
        {
            let (valid, delivery) = self.get_and_send_valid_players(i);
            game.push(valid);
            out.push(delivery);
            i = i + 1;
        }
        let lobby = self.broadcast_lobby_data(Sm64JsMsg::PlayerLists(PlayerListsMsg { game }));
        out.push(lobby);
        out
    }

    /// Snapshots of every room, each for everyone in that room.
    pub fn broadcast_all_data(&self) -> (r: Vec<Delivery>)
        ensures
            r@.len() == self.rooms_spec().len(),
            forall|i: int|
                0 <= i < r@.len() ==> (#[trigger] r@[i]).recipients@ == sockets_in_level(
                    self.clients_spec(),
                    self.rooms_spec()[i].id_spec(),
                ) && (r@[i].msg matches Sm64JsMsg::List(l) && l.flag@ == self.rooms_spec()[i].flags_spec().map_values(
                    |f: crate::flag::Flag| f.msg_spec(),
                ) && l.mario@.map_values(|m: MarioMsg| frame_view(m)) == frames_in_level(
                    self.clients_spec(),
                    self.rooms_spec()[i].id_spec(),
                )),
    {
        let mut out: Vec<Delivery> = Vec::new();
        let mut i: usize = 0;
        while i < self.rooms.len()
            invariant
                i <= self.rooms@.len(),
                out@.len() == i,
                forall|j: int|
                    0 <= j < i ==> (#[trigger] out@[j]).recipients@ == sockets_in_level(
                        self.clients@,
                        self.rooms@[j].id_spec(),
                    ) && (out@[j].msg matches Sm64JsMsg::List(l) && l.flag@ == self.rooms@[j].flags_spec().map_values(
                        |f: crate::flag::Flag| f.msg_spec(),
                    ) && l.mario@.map_values(|m: MarioMsg| frame_view(m)) == frames_in_level(
                        self.clients@,
                        self.rooms@[j].id_spec(),
                    )),
            decreases self.rooms@.len() - i,
        {
            out.push(self.broadcast_data(i));
            i = i + 1;
        }
        out
    }

    /// The skins of everyone in the level of session `socket_id`, for a
    /// session that asks for the cosmetics of its level.
    pub fn send_request_cosmetics(&self, socket_id: u32) -> (r: Option<Vec<SkinMsg>>)
        requires
            self.wf(),
        ensures
            r is Some <==> in_some_level(self.clients_spec(), socket_id),
            r matches Some(v) ==> v@.map_values(|m: SkinMsg| skin_msg_view(m)) == skins_in_level(
                self.clients_spec(),
                client_of(self.clients_spec(), socket_id).player->0.level,
            ) && forall|k: int| 0 <= k < v@.len() ==> (#[trigger] v@[k]).num_coins == 0,
    {
        let ci = match self.client_index(socket_id) {
            Some(ci) => ci,
            None => {
                return None;
            },
        };
        proof {
            assert forall|c: int| 0 <= c < self.clients@.len() && (#[trigger] self.clients@[c]).socket_id == socket_id implies c == ci by {
                if c != ci {
                    assert(self.clients@[c].socket_id != self.clients@[ci as int].socket_id);
                }
            }
            let k = choose|i: int| 0 <= i < self.clients@.len() && (#[trigger] self.clients@[i]).socket_id == socket_id;
            assert(k == ci);
        }
        let level = match self.clients[ci].get_level() {
            Some(l) => l,
            None => {
                return None;
            },
        };
        let mut out: Vec<SkinMsg> = Vec::new();
        let mut i: usize = 0;
        while i < self.clients.len()
            invariant
                i <= self.clients@.len(),
                out@.map_values(|m: SkinMsg| skin_msg_view(m)) == skins_in_level(self.clients@.take(i as int), level),
                forall|k: int| 0 <= k < out@.len() ==> (#[trigger] out@[k]).num_coins == 0,
            decreases self.clients@.len() - i,
        {
            proof {
                assert(self.clients@.take(i as int + 1).drop_last() == self.clients@.take(i as int));
            }
            match &self.clients[i].player {
                Some(p) => {
                    if p.level == level && p.skin_data.is_some() {
                        let ghost prev = out@;
                        let m = SkinMsg {
                            socket_id: self.clients[i].socket_id,
                            skin_data: crate::client::copy_skin(&p.skin_data),
                            player_name: p.name.clone(),
                            num_coins: 0,
                        };
                        out.push(m);
                        proof {
                            assert(out@.map_values(|m: SkinMsg| skin_msg_view(m)) == prev.map_values(|m: SkinMsg| skin_msg_view(m)).push(skin_msg_view(m)));
                        }
                    }
                },
                None => {},
            }
            i = i + 1;
        }
        assert(self.clients@.take(i as int) == self.clients@);
        Some(out)
    }
}

/// The player-list lines of the sessions of `c` in `level`, in order.
pub open spec fn level_lines(c: Seq<Client>, level: u32, base_url: Seq<char>) -> Seq<Seq<char>>
    decreases c.len(),
{
    if c.len() == 0 {
        Seq::empty()
    } else {
        let rest = level_lines(c.drop_last(), level, base_url);
        let l = c.last();
        if l.level_spec() == Some(level) {
            rest.push(player_line(l.auth_info.is_admin(), l.player->0.name@, base_url, l.auth_info.account_id))
        } else {
            rest
        }
    }
}

/// The lines of `lines` one after the other.
pub open spec fn joined(lines: Seq<Seq<char>>) -> Seq<char>
    decreases lines.len(),
{
    if lines.len() == 0 {
        Seq::empty()
    } else {
        joined(lines.drop_last()) + lines.last()
    }
}

impl Sm64JsServer {
    /// The player-list lines of level `level`.
    pub fn level_lines(&self, level: u32, base_url: &str) -> (r: Vec<String>)
        ensures
            r@.map_values(|s: String| s@) == level_lines(self.clients_spec(), level, base_url@),
    {
        let mut out: Vec<String> = Vec::new();
        let mut i: usize = 0;
        while i < self.clients.len()
            invariant
                i <= self.clients@.len(),
                out@.map_values(|s: String| s@) == level_lines(self.clients@.take(i as int), level, base_url@),
            decreases self.clients@.len() - i,
        {
            proof {
                assert(self.clients@.take(i as int + 1).drop_last() == self.clients@.take(i as int));
            }
            let c = &self.clients[i];
            match &c.player {
                Some(p) => {
                    if p.level == level {
                        let line = player_line_text(c.auth_info.is_in_game_admin(), p.name.as_str(), base_url, c.auth_info.account_id);
                        let ghost prev = out@;
                        out.push(line);
                        proof {
                            assert(out@.map_values(|s: String| s@) == prev.map_values(|s: String| s@).push(line@));
                        }
                    }
                },
                None => {},
            }
            i = i + 1;
        }
        assert(self.clients@.take(i as int) == self.clients@);
        out
    }

    /// `f`, holding `n` lines, is the player-list field of room `ri`: the room's
    /// name, then as many of its lines as fit in the field, in order, and a
    /// newline.
    pub open spec fn room_field(&self, ri: int, base_url: Seq<char>, n: int, f: DiscordRichEmbedField) -> bool {
        &&& self.listed_room(ri, base_url)
        &&& self.lines_kept(ri, base_url, n)
        &&& f.name@ == self.rooms_spec()[ri].name_spec()@
        &&& f.value@ == joined(self.room_lines(ri, base_url).take(n)) + "\n"@
    }

    /// The player-list lines of room `ri`.
    pub open spec fn room_lines(&self, ri: int, base_url: Seq<char>) -> Seq<Seq<char>> {
        level_lines(self.clients_spec(), self.rooms_spec()[ri].id_spec(), base_url)
    }

    /// Room `ri` exists and has a player, so it has a player-list field.
    pub open spec fn listed_room(&self, ri: int, base_url: Seq<char>) -> bool {
        0 <= ri < self.rooms_spec().len() && self.room_lines(ri, base_url).len() > 0
    }

    /// `n` is the number of lines of room `ri` that fit in its field: the
    /// first `n` lines fit with the closing newline, and one more would not.
    pub open spec fn lines_kept(&self, ri: int, base_url: Seq<char>, n: int) -> bool {
        let lines = self.room_lines(ri, base_url);
        &&& 0 <= n <= lines.len()
        &&& encode_utf8(joined(lines.take(n))).len() + 1 <= FIELD_LIMIT
        &&& n < lines.len() ==> encode_utf8(joined(lines.take(n + 1))).len() + 1 > FIELD_LIMIT
    }

    /// Bytes the field of room `ri` with `n` lines takes: name and value.
    pub open spec fn field_bytes(&self, ri: int, base_url: Seq<char>, n: int) -> nat {
        encode_utf8(self.rooms_spec()[ri].name_spec()@).len() + encode_utf8(
            joined(self.room_lines(ri, base_url).take(n)) + "\n"@,
        ).len()
    }

    /// `o` lists every room that has a field, once, as (room, lines kept),
    /// rooms with more lines first and, among equals, in room order.
    pub open spec fn player_list_order(&self, base_url: Seq<char>, o: Seq<(int, int)>) -> bool {
        &&& forall|j: int|
            0 <= j < o.len() ==> self.listed_room((#[trigger] o[j]).0, base_url) && self.lines_kept(
                o[j].0,
                base_url,
                o[j].1,
            )
        &&& forall|ri: int|
            #[trigger] self.listed_room(ri, base_url) ==> exists|j: int| 0 <= j < o.len() && (#[trigger] o[j]).0 == ri
        &&& forall|a: int, b: int| 0 <= a < b < o.len() ==> goes_before(#[trigger] o[a], #[trigger] o[b])
    }

    /// The player-list field of room `ri`: as many of its lines as fit in
    /// the field, in order, then a newline; `None` for an empty room. The
    /// count is the number of lines kept.
    pub fn get_player_list_field(&self, ri: usize, base_url: &str) -> (r: Option<(usize, DiscordRichEmbedField)>)
        requires
            ri < self.rooms_spec().len(),
        ensures
            r is None <==> level_lines(self.clients_spec(), self.rooms_spec()[ri as int].id_spec(), base_url@).len()
                == 0,
            r matches Some((n, f)) ==> self.room_field(ri as int, base_url@, n as int, f),
    {
        let room = &self.rooms[ri];
        let lines = self.level_lines(room.get_id(), base_url);
        let ghost ls = lines@.map_values(|s: String| s@);
        if lines.len() == 0 {
            return None;
        }
        let mut value = String::new();
        let mut n: usize = 0;
        assert(ls.take(0) == Seq::<Seq<char>>::empty());
        while n < lines.len()
            invariant
                n <= lines@.len(),
                ls == lines@.map_values(|s: String| s@),
                value@ == joined(ls.take(n as int)),
                encode_utf8(value@).len() + 1 <= FIELD_LIMIT,
            ensures
                n <= lines@.len(),
                value@ == joined(ls.take(n as int)),
                encode_utf8(value@).len() + 1 <= FIELD_LIMIT,
                n < lines@.len() ==> encode_utf8(joined(ls.take(n + 1))).len() + 1 > FIELD_LIMIT,
            decreases lines@.len() - n,
        {
            let mut candidate = value.clone();
            candidate.append(lines[n].as_str());
            proof {
                assert(ls.take(n + 1).drop_last() == ls.take(n as int));
                assert(ls.take(n + 1).last() == lines@[n as int]@);
            }
            let size = byte_len(candidate.as_str());
            if size >= FIELD_LIMIT {
                break;
            }
            value = candidate;
            n = n + 1;
        }
        value.append("\n");
        Some((n, DiscordRichEmbedField { name: room.get_name().clone(), value }))
    }
}

/// Entry `a` goes before entry `b` of the player list: it keeps more lines,
/// or as many and belongs to an earlier room.
pub open spec fn goes_before(a: (int, int), b: (int, int)) -> bool {
    a.1 > b.1 || (a.1 == b.1 && a.0 < b.0)
}

/// Number of sessions of `c` with a player.
pub open spec fn player_count(c: Seq<Client>) -> nat
    decreases c.len(),
{
    if c.len() == 0 {
        0
    } else {
        player_count(c.drop_last()) + if c.last().player is Some { 1nat } else { 0nat }
    }
}

/// Bytes an embed field takes: its name and its value.
pub open spec fn field_size(f: DiscordRichEmbedField) -> nat {
    encode_utf8(f.name@).len() + encode_utf8(f.value@).len()
}

/// Bytes the fields of `fs` take together.
pub open spec fn fields_size(fs: Seq<DiscordRichEmbedField>) -> nat
    decreases fs.len(),
{
    if fs.len() == 0 {
        0
    } else {
        fields_size(fs.drop_last()) + field_size(fs.last())
    }
}

impl Sm64JsServer {
    /// Number of sessions with a player.
    pub fn player_count(&self) -> (r: usize)
        ensures
            r == player_count(self.clients_spec()),
    {
        let mut n: usize = 0;
        let mut i: usize = 0;
        while i < self.clients.len()
            invariant
                i <= self.clients@.len(),
                n <= i,
                n == player_count(self.clients@.take(i as int)),
            decreases self.clients@.len() - i,
        {
            proof {
                assert(self.clients@.take(i as int + 1).drop_last() == self.clients@.take(i as int));
            }
            if self.clients[i].player.is_some() {
                n = n + 1;
            }
            i = i + 1;
        }
        assert(self.clients@.take(i as int) == self.clients@);
        n
    }

    /// The player list for the moderators' channel: the field of every room
    /// that has a player, rooms with more lines first (ties in room order),
    /// cut before the first field that would take the embed past its size or
    /// its field count, under the number of players online.
    #[verifier::rlimit(100)]
    pub fn send_player_list(&self, base_url: &str) -> (r: (Vec<DiscordRichEmbedField>, DiscordRichEmbedAuthor))
        ensures
            r.0@.len() <= FIELD_COUNT_LIMIT,
            EMBED_BASE + fields_size(r.0@) <= EMBED_LIMIT,
            r.1.name@ == "Players online: "@ + digits(player_count(self.clients_spec())),
            r.1.url is None,
            r.1.icon_url is None,
            exists|o: Seq<(int, int)>|
                #[trigger] self.player_list_order(base_url@, o) && r.0@.len() <= o.len() && (forall|j: int|
                    0 <= j < r.0@.len() ==> self.room_field(o[j].0, base_url@, o[j].1, #[trigger] r.0@[j]))
                    && (r.0@.len() < o.len() ==> r.0@.len() == FIELD_COUNT_LIMIT || EMBED_BASE + fields_size(r.0@)
                    + self.field_bytes(o[r.0@.len() as int].0, base_url@, o[r.0@.len() as int].1) > EMBED_LIMIT),
    {
        let mut sorted: Vec<(usize, DiscordRichEmbedField)> = Vec::new();
        let ghost mut o: Seq<(int, int)> = Seq::empty();
        let mut i: usize = 0;
        while i < self.rooms.len()
            invariant
                i <= self.rooms@.len(),
                sorted@.len() == o.len(),
                forall|j: int|
                    0 <= j < o.len() ==> (#[trigger] o[j]).0 < i && sorted@[j].0 == o[j].1 && self.room_field(
                        o[j].0,
                        base_url@,
                        o[j].1,
                        sorted@[j].1,
                    ),
                forall|ri: int|
                    0 <= ri < i && #[trigger] self.listed_room(ri, base_url@) ==> exists|j: int|
                        0 <= j < o.len() && (#[trigger] o[j]).0 == ri,
                forall|a: int, b: int| 0 <= a < b < o.len() ==> goes_before(#[trigger] o[a], #[trigger] o[b]),
            decreases self.rooms@.len() - i,
        {
            match self.get_player_list_field(i, base_url) {
                Some(entry) => {
                    let n = entry.0;
                    let mut k: usize = 0;
                    while k < sorted.len() && sorted[k].0 >= n
                        invariant
                            k <= sorted@.len(),
                            sorted@.len() == o.len(),
                            forall|j: int| 0 <= j < o.len() ==> sorted@[j].0 == (#[trigger] o[j]).1,
                            forall|a: int| 0 <= a < k ==> (#[trigger] o[a]).1 >= n,
                        decreases sorted@.len() - k,
                    {
                        k = k + 1;
                    }
                    let ghost old_o = o;
                    let ghost old_sorted = sorted@;
                    let ghost e = (i as int, n as int);
                    sorted.insert(k, entry);
                    proof {
                        o = old_o.insert(k as int, e);
                        assert(sorted@ == old_sorted.insert(k as int, entry));
                        assert forall|j: int|
                            0 <= j < o.len() implies (#[trigger] o[j]).0 < i + 1 && sorted@[j].0 == o[j].1
                            && self.room_field(o[j].0, base_url@, o[j].1, sorted@[j].1) by {
                            if j < k {
                                assert(o[j] == old_o[j] && sorted@[j] == old_sorted[j]);
                            } else if j > k {
                                assert(o[j] == old_o[j - 1] && sorted@[j] == old_sorted[j - 1]);
                            }
                        }
                        assert forall|ri: int|
                            0 <= ri < i + 1 && #[trigger] self.listed_room(ri, base_url@) implies exists|j: int|
                            0 <= j < o.len() && (#[trigger] o[j]).0 == ri by {
                            if ri < i {
                                let j0 = choose|j: int| 0 <= j < old_o.len() && (#[trigger] old_o[j]).0 == ri;
                                if j0 < k {
                                    assert(o[j0] == old_o[j0]);
                                } else {
                                    assert(o[j0 + 1] == old_o[j0]);
                                }
                            } else {
                                assert(o[k as int] == e);
                            }
                        }
                        assert forall|a: int, b: int| 0 <= a < b < o.len() implies goes_before(
                            #[trigger] o[a],
                            #[trigger] o[b],
                        ) by {
                            if k < old_o.len() {
                                assert(old_o[k as int].1 < n);
                            }
                            if b < k {
                                assert(o[a] == old_o[a] && o[b] == old_o[b]);
                            } else if b == k {
                                assert(o[a] == old_o[a] && o[b] == e);
                            } else if a < k {
                                assert(o[a] == old_o[a] && o[b] == old_o[b - 1]);
                            } else if a == k {
                                assert(o[b] == old_o[b - 1]);
                                if b - 1 > k {
                                    assert(goes_before(old_o[k as int], old_o[b - 1]));
                                }
                            } else {
                                assert(o[a] == old_o[a - 1] && o[b] == old_o[b - 1]);
                            }
                        }
                    }
                },
                None => {},
            }
            i = i + 1;
        }
        proof {
            assert(self.player_list_order(base_url@, o)) by {
                assert forall|ri: int| #[trigger] self.listed_room(ri, base_url@) implies exists|j: int|
                    0 <= j < o.len() && (#[trigger] o[j]).0 == ri by {
                    assert(0 <= ri < i);
                }
            }
        }
        let mut kept: Vec<DiscordRichEmbedField> = Vec::new();
        let mut sum: usize = EMBED_BASE;
        let mut j: usize = 0;
        let mut full = false;
        while !full && j < sorted.len() && j < FIELD_COUNT_LIMIT
            invariant
                j <= sorted@.len(),
                j <= FIELD_COUNT_LIMIT,
                kept@.len() == j,
                forall|t: int| 0 <= t < j ==> #[trigger] kept@[t] == sorted@[t].1,
                sum == EMBED_BASE + fields_size(kept@),
                sum <= EMBED_LIMIT,
                full ==> j < sorted@.len() && sum + field_size(sorted@[j as int].1) > EMBED_LIMIT,
            decreases sorted@.len() - j + if full { 0int } else { 1int },
        {
            let name_size = byte_len(sorted[j].1.name.as_str());
            let value_size = byte_len(sorted[j].1.value.as_str());
            if name_size > EMBED_LIMIT || value_size > EMBED_LIMIT || sum + name_size + value_size
                > EMBED_LIMIT {
                full = true;
            } else {
                sum = sum + name_size + value_size;
                let ghost prev = kept@;
                kept.push(
                    DiscordRichEmbedField {
                        name: sorted[j].1.name.clone(),
                        value: sorted[j].1.value.clone(),
                    },
                );
                proof {
                    assert(kept@.drop_last() == prev);
                }
                j = j + 1;
            }
        }
        proof {
            if j < sorted@.len() && j < FIELD_COUNT_LIMIT {
                let f = sorted@[j as int].1;
                assert(self.room_field(o[j as int].0, base_url@, o[j as int].1, f));
                assert(field_size(f) == self.field_bytes(o[j as int].0, base_url@, o[j as int].1));
            }
            assert forall|t: int| 0 <= t < kept@.len() implies self.room_field(o[t].0, base_url@, o[t].1, #[trigger] kept@[t]) by {
                assert(kept@[t] == sorted@[t].1);
            }
        }
        let mut name = String::from_str("Players online: ");
        let count = digits_string(self.player_count() as u64);
        name.append(count.as_str());
        (kept, DiscordRichEmbedAuthor { name, url: None, icon_url: None })
    }
}

/// A snapshot of one player for the moderation interface.
pub struct PlayerInfo {
    pub account_id: i32,
    pub discord_id: Option<String>,
    pub google_id: Option<String>,
    pub ip: String,
    pub level: u32,
    pub name: String,
    pub chat: Option<Vec<crate::history::ChatMessage>>,
}

/// `p` describes the session `c`, which has a player.
pub open spec fn describes(p: PlayerInfo, c: Client) -> bool {
    &&& c.player is Some
    &&& p.account_id == c.auth_info.account_id
    &&& p.level == c.player->0.level
    &&& p.name@ == c.player->0.name@
    &&& p.ip@ == c.ip@
    &&& opt_view(p.google_id) == opt_view(c.auth_info.google_id)
    &&& opt_view(p.discord_id) == (match c.auth_info.discord {
        Some(d) => Some(d.id@),
        None => None,
    })
}

/// Sessions of `c` that have a player, in order.
pub open spec fn with_players(c: Seq<Client>) -> Seq<Client>
    decreases c.len(),
{
    if c.len() == 0 {
        Seq::empty()
    } else if c.last().player is Some {
        with_players(c.drop_last()).push(c.last())
    } else {
        with_players(c.drop_last())
    }
}

impl Sm64JsServer {
    /// Every player, with their last `include_chat` chat messages when asked.
    pub fn get_players(&self, include_chat: Option<u32>) -> (r: Vec<PlayerInfo>)
        ensures
            r@.len() == with_players(self.clients_spec()).len(),
            forall|k: int| 0 <= k < r@.len() ==> describes(#[trigger] r@[k], with_players(self.clients_spec())[k]),
            include_chat is None ==> forall|k: int| 0 <= k < r@.len() ==> (#[trigger] r@[k]).chat is None,
            include_chat is Some ==> forall|k: int| 0 <= k < r@.len() ==> (#[trigger] r@[k]).chat is Some,
    {
        let mut out: Vec<PlayerInfo> = Vec::new();
        let mut i: usize = 0;
        while i < self.clients.len()
            invariant
                i <= self.clients@.len(),
                out@.len() == with_players(self.clients@.take(i as int)).len(),
                forall|k: int| 0 <= k < out@.len() ==> describes(#[trigger] out@[k], with_players(self.clients@.take(i as int))[k]),
                include_chat is None ==> forall|k: int| 0 <= k < out@.len() ==> (#[trigger] out@[k]).chat is None,
                include_chat is Some ==> forall|k: int| 0 <= k < out@.len() ==> (#[trigger] out@[k]).chat is Some,
            decreases self.clients@.len() - i,
        {
            proof {
                assert(self.clients@.take(i as int + 1).drop_last() == self.clients@.take(i as int));
                assert(self.clients@.take(i as int + 1).last() == self.clients@[i as int]);
            }
            let c = &self.clients[i];
            match &c.player {
                Some(p) => {
                    let discord_id = c.auth_info.get_discord_id();
                    let google_id = c.auth_info.get_google_id();
                    let chat = match include_chat {
                        Some(limit) => {
                            let query = GetChat {
                                from: None,
                                to: None,
                                limit: Some(limit),
                                player_name: None,
                                discord_id: c.auth_info.get_discord_id(),
                                google_id: c.auth_info.get_google_id(),
                            };
                            Some(self.chat_history.get_messages(query, false, false))
                        },
                        None => None,
                    };
                    let info = PlayerInfo {
                        account_id: c.auth_info.account_id,
                        discord_id,
                        google_id,
                        ip: c.ip.clone(),
                        level: p.level,
                        name: p.name.clone(),
                        chat,
                    };
                    let ghost prev = out@;
                    out.push(info);
                    proof {
                        assert forall|k: int| 0 <= k < out@.len() implies describes(#[trigger] out@[k], with_players(self.clients@.take(i as int + 1))[k]) by {
                            if k < prev.len() {
                                assert(out@[k] == prev[k]);
                            }
                        }
                    }
                },
                None => {},
            }
            i = i + 1;
        }
        assert(self.clients@.take(i as int) == self.clients@);
        out
    }
}

/// Relies on rand's `random::<u32>()`: some value, drawn from the thread's
/// generator.
#[verifier::external_body]
fn random_socket_id() -> (r: u32) {
    rand::random::<u32>()
}

impl Sm64JsServer {
    /// A new session for `auth_info` under a freshly drawn socket id; see
    /// `connect`. `None` when the drawn id is taken, which changes nothing.
    pub fn connect_new(&mut self, auth_info: AuthInfo, ip: String) -> (r: Option<(u32, Option<u32>)>)
        requires
            old(self).wf(),
        ensures
            final(self).wf(),
            final(self).history_spec() == old(self).history_spec(),
            r is None ==> *final(self) == *old(self),
            r matches Some((id, kicked)) ==> !has_socket(old(self).clients_spec(), id) && has_socket(
                final(self).clients_spec(),
                id,
            ) && final(self).clients_spec().last() == Client::spec_new(auth_info, ip, id) && (
            kicked is Some ==> has_socket(old(self).clients_spec(), kicked->0) && !has_socket(
                final(self).clients_spec(),
                kicked->0,
            )),
            r matches Some((id, kicked)) ==> (kicked is Some <==> has_account(
                old(self).clients_spec(),
                auth_info.account_id,
            )),
            r matches Some((id, None)) ==> final(self).clients_spec() == old(self).clients_spec().push(
                Client::spec_new(auth_info, ip, id),
            ),
    {
        let id = random_socket_id();
        match self.connect(auth_info, ip, id) {
            Ok(kicked) => {
                proof {
                    assert(has_socket(self.clients@, id));
                    if kicked is Some {
                        assert(kicked->0 != id);
                    }
                }
                Some((id, kicked))
            },
            Err(_) => None,
        }
    }
}

} // verus!
