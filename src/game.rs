//! The fixed-rate game loop: what each 33 ms tick has to do.
use crate::protocol::Delivery;
use crate::flag::Flag;
use crate::protocol::{MarioMsg, Sm64JsMsg};
use crate::server::{frame_view, frames_in_level, skin_updates, sockets_in_level, Sm64JsServer};
use vstd::prelude::*;

verus! {

/// Ticks per second of the game loop.
pub const TICKS_PER_SECOND: u16 = 30;

/// Seconds between two player-list posts (five minutes).
pub const PLAYER_LIST_PERIOD: u16 = 300;

/// Counters of the game loop: ticks into the current second, and seconds
/// into the current player-list period.
pub struct Game {
    i: u16,
    j: u16,
}

/// What one tick does besides moving flags and sending snapshots.
#[derive(Clone, Copy, Debug, PartialEq, Eq, Structural)]
pub struct TickPlan {
    /// The once-a-second work: skin updates and player lists.
    pub second: bool,
    /// The player-list post for moderators.
    pub player_list: bool,
}

impl Game {
    pub closed spec fn ticks(&self) -> u16 {
        self.i
    }

    pub closed spec fn seconds(&self) -> u16 {
        self.j
    }

    pub open spec fn wf(&self) -> bool {
        self.ticks() < TICKS_PER_SECOND && self.seconds() < PLAYER_LIST_PERIOD
    }

    pub fn new() -> (r: Game)
        ensures
            r.wf(),
            r.ticks() == 0,
            r.seconds() == 0,
    {
        Game { i: 0, j: 0 }
    }

    /// Counts one tick. Every thirtieth tick is a second; when the player
    /// list is enabled, every three hundredth second is a player-list post.
    pub fn advance(&mut self, enable_player_list: bool) -> (r: TickPlan)
        requires
            old(self).wf(),
        ensures
            final(self).wf(),
            r.second == (old(self).ticks() + 1 == TICKS_PER_SECOND),
            final(self).ticks() == (old(self).ticks() + 1) % (TICKS_PER_SECOND as int),
            r.second && enable_player_list ==> final(self).seconds() == (old(self).seconds() + 1) % (
            PLAYER_LIST_PERIOD as int) && r.player_list == (old(self).seconds() + 1 == PLAYER_LIST_PERIOD),
            !(r.second && enable_player_list) ==> final(self).seconds() == old(self).seconds()
                && !r.player_list,
    {
        self.i = self.i + 1;
        let second = self.i == TICKS_PER_SECOND;
        let mut player_list = false;
        if second {
            self.i = 0;
            if enable_player_list {
                self.j = self.j + 1;
                if self.j == PLAYER_LIST_PERIOD {
                    player_list = true;
                    self.j = 0;
                }
            }
        }
        TickPlan { second, player_list }
    }
}

impl Sm64JsServer {
    /// The work of one tick: every flag moves, then every room gets its
    /// snapshot; on a second, skin updates and player lists follow.
    pub fn game_tick(&mut self, plan: TickPlan) -> (r: Vec<Delivery>)
        requires
            old(self).wf(),
        ensures
            final(self).wf(),
            final(self).rooms_spec().len() == old(self).rooms_spec().len(),
            final(self).history_spec() == old(self).history_spec(),
            !plan.second ==> final(self).clients_spec() == old(self).clients_spec(),
            forall|i: int|
                0 <= i < old(self).rooms_spec().len() ==> {
                    &&& (#[trigger] final(self).rooms_spec()[i]).id_spec() == old(self).rooms_spec()[i].id_spec()
                    &&& final(self).rooms_spec()[i].flags_spec().len() == old(self).rooms_spec()[i].flags_spec().len()
                    &&& forall|k: int|
                        0 <= k < old(self).rooms_spec()[i].flags_spec().len() ==> Flag::ticked(
                            #[trigger] old(self).rooms_spec()[i].flags_spec()[k],
                            final(self).rooms_spec()[i].flags_spec()[k],
                        )
                },
            !plan.second ==> r@.len() == final(self).rooms_spec().len(),
            plan.second ==> r@.len() == 2 * final(self).rooms_spec().len() + 1 + skin_updates(
                old(self).clients_spec(),
            ).len(),
            forall|i: int|
                0 <= i < final(self).rooms_spec().len() ==> (#[trigger] r@[i]).recipients@ == sockets_in_level(
                    old(self).clients_spec(),
                    final(self).rooms_spec()[i].id_spec(),
                ) && (r@[i].msg matches Sm64JsMsg::List(l) && l.flag@ == final(self).rooms_spec()[i].flags_spec().map_values(
                    |f: Flag| f.msg_spec(),
                ) && l.mario@.map_values(|m: MarioMsg| frame_view(m)) == frames_in_level(
                    old(self).clients_spec(),
                    final(self).rooms_spec()[i].id_spec(),
                )),
    {
        self.process_flags();
        let mut out = self.broadcast_all_data();
        if plan.second {
            let ghost snapshots = out@;
            let mut skins = self.broadcast_skins();
            let mut lists = self.broadcast_valid_update();
            out.append(&mut skins);
            out.append(&mut lists);
            proof {
                assert forall|i: int| 0 <= i < self.rooms_spec().len() implies #[trigger] out@[i] == snapshots[i] by {}
            }
        }
        out
    }
}

} // verus!
