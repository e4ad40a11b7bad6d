//! Properties that hold of every state the library can reach, proved from
//! the contracts of the functions they concern.
use crate::chat::{allowed_char, sanitized};
use crate::client::Client;
use crate::flag::{Flag, FALL_FLOOR};
use crate::history::{count_recent, window_start, ChatHistory, SPAM_LIMIT, SPAM_WINDOW};
use crate::server::{frame_view, frames_in_level, frames_stamped, in_level, sockets_in_level, sockets_unique, Sm64JsServer};
use vstd::prelude::*;

verus! {

/// A well-formed flag is in exactly one of its four states: resting,
/// carried, falling or lying idle.
pub proof fn lemma_flag_in_one_state(f: Flag)
    requires
        f.wf(),
    ensures
        f.is_resting() || f.is_carried() || f.is_falling() || f.is_idle(),
        f.is_resting() ==> !f.is_carried() && !f.is_falling() && !f.is_idle(),
        f.is_carried() ==> !f.is_resting() && !f.is_falling() && !f.is_idle(),
        f.is_falling() ==> !f.is_resting() && !f.is_carried() && !f.is_idle(),
        f.is_idle() ==> !f.is_resting() && !f.is_carried() && !f.is_falling(),
{
}

/// A flag at or below the fall floor stays where it is when it falls.
pub proof fn lemma_fall_halts_at_floor(a: Flag, b: Flag)
    requires
        Flag::fell(a, b),
        a.pos_spec().y <= FALL_FLOOR,
    ensures
        b.pos_spec() == a.pos_spec(),
{
}

proof fn lemma_frames_of_level(c: Seq<Client>, level: u32)
    requires
        frames_stamped(c),
    ensures
        forall|k: int|
            0 <= k < frames_in_level(c, level).len() ==> in_level(
                c,
                (#[trigger] frames_in_level(c, level)[k]).0,
                level,
            ),
    decreases c.len(),
{
    if c.len() > 0 {
        let d = c.drop_last();
        assert(frames_stamped(d)) by {
            assert forall|i: int| 0 <= i < d.len() && (#[trigger] d[i]).data is Some implies d[i].data->0.socket_id
                == d[i].socket_id by {
                assert(d[i] == c[i]);
            }
        }
        lemma_frames_of_level(d, level);
        assert forall|k: int|
            0 <= k < frames_in_level(c, level).len() implies in_level(
            c,
            (#[trigger] frames_in_level(c, level)[k]).0,
            level,
        ) by {
            if k < frames_in_level(d, level).len() {
                let id = frames_in_level(d, level)[k].0;
                assert(frames_in_level(c, level)[k] == frames_in_level(d, level)[k]);
                let i = choose|i: int| 0 <= i < d.len() && (#[trigger] d[i]).socket_id == id && d[i].level_spec() == Some(level);
                assert(c[i] == d[i]);
            } else {
                assert(c[c.len() - 1].data->0.socket_id == c[c.len() - 1].socket_id);
            }
        }
    }
}

proof fn lemma_sockets_of_level(c: Seq<Client>, level: u32)
    ensures
        forall|k: int|
            0 <= k < sockets_in_level(c, level).len() ==> in_level(c, #[trigger] sockets_in_level(c, level)[k], level),
    decreases c.len(),
{
    if c.len() > 0 {
        let d = c.drop_last();
        lemma_sockets_of_level(d, level);
        assert forall|k: int|
            0 <= k < sockets_in_level(c, level).len() implies in_level(c, #[trigger] sockets_in_level(c, level)[k], level) by {
            if k < sockets_in_level(d, level).len() {
                let id = sockets_in_level(d, level)[k];
                assert(sockets_in_level(c, level)[k] == id);
                let i = choose|i: int| 0 <= i < d.len() && (#[trigger] d[i]).socket_id == id && d[i].level_spec() == Some(level);
                assert(c[i] == d[i]);
            } else {
                assert(c[c.len() - 1].level_spec() == Some(level));
            }
        }
    }
}

proof fn lemma_frames_distinct(c: Seq<Client>, level: u32)
    requires
        frames_stamped(c),
        sockets_unique(c),
    ensures
        forall|a: int, b: int|
            0 <= a < frames_in_level(c, level).len() && 0 <= b < frames_in_level(c, level).len() && a
                != b ==> (#[trigger] frames_in_level(c, level)[a]).0 != (#[trigger] frames_in_level(c, level)[b]).0,
    decreases c.len(),
{
    if c.len() > 0 {
        let d = c.drop_last();
        assert(frames_stamped(d)) by {
            assert forall|i: int| 0 <= i < d.len() && (#[trigger] d[i]).data is Some implies d[i].data->0.socket_id
                == d[i].socket_id by {
                assert(d[i] == c[i]);
            }
        }
        assert(sockets_unique(d)) by {
            assert forall|i: int, j: int| 0 <= i < d.len() && 0 <= j < d.len() && i != j implies (#[trigger] d[i]).socket_id
                != (#[trigger] d[j]).socket_id by {
                assert(d[i] == c[i] && d[j] == c[j]);
            }
        }
        lemma_frames_distinct(d, level);
        lemma_frames_of_level(d, level);
        let fd = frames_in_level(d, level);
        let fc = frames_in_level(c, level);
        if c.last().level_spec() == Some(level) && c.last().data is Some {
            assert(fc == fd.push(frame_view(c.last().data->0)));
            assert forall|a: int| 0 <= a < fd.len() implies (#[trigger] fd[a]).0 != c.last().socket_id by {
                let i = choose|i: int| 0 <= i < d.len() && (#[trigger] d[i]).socket_id == fd[a].0 && d[i].level_spec() == Some(level);
                assert(d[i] == c[i]);
                assert(c[i].socket_id != c[c.len() - 1].socket_id);
            }
            assert(c[c.len() - 1].data->0.socket_id == c[c.len() - 1].socket_id);
            assert forall|a: int, b: int|
                0 <= a < fc.len() && 0 <= b < fc.len() && a != b implies (#[trigger] fc[a]).0 != (#[trigger] fc[b]).0 by {
                if a < fd.len() && b < fd.len() {
                    assert(fc[a] == fd[a] && fc[b] == fd[b]);
                } else if a < fd.len() {
                    assert(fc[a] == fd[a]);
                } else if b < fd.len() {
                    assert(fc[b] == fd[b]);
                }
            }
        } else {
            assert(fc == fd);
        }
    }
}

/// Everyone a level's snapshot goes to, and everyone whose frame it holds,
/// is a live session whose player is in that level, and no session has two
/// frames in it.
pub proof fn lemma_snapshot_only_live_sessions(s: Sm64JsServer, level: u32)
    requires
        s.wf(),
    ensures
        forall|k: int|
            0 <= k < frames_in_level(s.clients_spec(), level).len() ==> in_level(
                s.clients_spec(),
                (#[trigger] frames_in_level(s.clients_spec(), level)[k]).0,
                level,
            ),
        forall|k: int|
            0 <= k < sockets_in_level(s.clients_spec(), level).len() ==> in_level(
                s.clients_spec(),
                #[trigger] sockets_in_level(s.clients_spec(), level)[k],
                level,
            ),
        forall|a: int, b: int|
            0 <= a < frames_in_level(s.clients_spec(), level).len() && 0 <= b < frames_in_level(
                s.clients_spec(),
                level,
            ).len() && a != b ==> (#[trigger] frames_in_level(s.clients_spec(), level)[a]).0 != (
            #[trigger] frames_in_level(s.clients_spec(), level)[b]).0,
{
    lemma_frames_distinct(s.clients_spec(), level);
    lemma_frames_of_level(s.clients_spec(), level);
    lemma_sockets_of_level(s.clients_spec(), level);
}

/// Every player is in the level of exactly one room.
pub proof fn lemma_player_in_one_room(s: Sm64JsServer, i: int)
    requires
        s.wf(),
        0 <= i < s.clients_spec().len(),
        s.clients_spec()[i].player is Some,
    ensures
        exists|r: int|
            0 <= r < s.rooms_spec().len() && (#[trigger] s.rooms_spec()[r]).id_spec() == s.clients_spec()[i].player->0.level
                && forall|q: int|
                0 <= q < s.rooms_spec().len() && q != r ==> (#[trigger] s.rooms_spec()[q]).id_spec()
                    != s.clients_spec()[i].player->0.level,
{
    let level = s.clients_spec()[i].player->0.level;
    assert(s.clients_spec()[i].player is Some);
    let r = choose|r: int| 0 <= r < s.rooms_spec().len() && (#[trigger] s.rooms_spec()[r]).id_spec() == level;
    assert forall|q: int| 0 <= q < s.rooms_spec().len() && q != r implies (#[trigger] s.rooms_spec()[q]).id_spec() != level by {
        assert(s.rooms_spec()[q].id_spec() != s.rooms_spec()[r].id_spec());
    }
}

/// No two sessions belong to the same account, and no two share a socket id.
pub proof fn lemma_one_session_per_account(s: Sm64JsServer)
    requires
        s.wf(),
    ensures
        forall|i: int, j: int|
            0 <= i < s.clients_spec().len() && 0 <= j < s.clients_spec().len() && i != j ==> (
            #[trigger] s.clients_spec()[i]).auth_info.account_id != (#[trigger] s.clients_spec()[j]).auth_info.account_id
                && s.clients_spec()[i].socket_id != s.clients_spec()[j].socket_id,
{
}

/// Every message of the history marked as spam follows at least three
/// messages of its account from the fifteen seconds before it that were not
/// spam.
pub proof fn lemma_spam_has_three_predecessors(h: ChatHistory, i: int)
    requires
        h.wf(),
        0 <= i < h.view().len(),
        h.view()[i].1.is_spam,
    ensures
        count_recent(h.view().take(i), window_start(h.view()[i].0, SPAM_WINDOW), h.view()[i].1.account_id, true)
            >= SPAM_LIMIT,
{
}

proof fn lemma_sanitized_allowed(s: Seq<char>)
    ensures
        forall|k: int| 0 <= k < sanitized(s).len() ==> allowed_char(#[trigger] sanitized(s)[k]),
    decreases s.len(),
{
    if s.len() > 0 {
        let d = s.drop_last();
        lemma_sanitized_allowed(d);
        let r = sanitized(d);
        if allowed_char(s.last()) {
            assert(sanitized(s) == r.push(s.last()));
            assert forall|k: int| 0 <= k < sanitized(s).len() implies allowed_char(#[trigger] sanitized(s)[k]) by {
                if k < r.len() {
                    assert(sanitized(s)[k] == r[k]);
                }
            }
        } else {
            assert(sanitized(s) == r);
        }
    }
}

proof fn lemma_sanitized_keeps_allowed(s: Seq<char>)
    requires
        forall|k: int| 0 <= k < s.len() ==> allowed_char(#[trigger] s[k]),
    ensures
        sanitized(s) == s,
    decreases s.len(),
{
    if s.len() > 0 {
        let d = s.drop_last();
        assert forall|k: int| 0 <= k < d.len() implies allowed_char(#[trigger] d[k]) by {
            assert(d[k] == s[k]);
        }
        lemma_sanitized_keeps_allowed(d);
        assert(allowed_char(s[s.len() - 1]));
        assert(d.push(s.last()) == s);
    }
}

/// Sanitizing twice is sanitizing once.
pub proof fn lemma_sanitize_idempotent(s: Seq<char>)
    ensures
        sanitized(sanitized(s)) == sanitized(s),
{
    lemma_sanitized_allowed(s);
    lemma_sanitized_keeps_allowed(sanitized(s));
}

} // verus!
