//! One connection's clocks and the routing of what it receives. Times are
//! milliseconds on a monotonic clock.
use crate::flag::Position;
use crate::protocol::Sm64JsMsg;
use vstd::prelude::*;

verus! {

/// Period of the heartbeat check (5 s).
pub const HEARTBEAT_INTERVAL: i64 = 5_000;

/// Silence after which a connection is closed (120 s).
pub const CLIENT_TIMEOUT: i64 = 120_000;

/// Time without movement after which a connection is closed (300 s).
pub const CLIENT_AFK_TIMEOUT: i64 = 300_000;

/// Frames between two samples of the position for the movement check.
pub const MOVEMENT_SAMPLE_FRAMES: u8 = 30;

/// The clocks of one connection.
pub struct SessionClock {
    hb: i64,
    hb_data: i64,
    hb_afk: i64,
    data: Option<Position>,
    data_afk_check: Option<Position>,
    data_loop_index: u8,
}

/// What the heartbeat check decides.
#[derive(Clone, Copy, Debug, PartialEq, Eq, Structural)]
pub enum Heartbeat {
    /// Send a ping and carry on.
    Ping,
    /// Close the connection.
    Close,
}

/// Where an incoming message goes.
#[derive(Clone, Copy, Debug, PartialEq, Eq, Structural)]
pub enum Route {
    /// Send the same bytes back.
    EchoPing,
    SetData,
    Attack,
    Grab,
    Chat,
    JoinGame,
    RequestCosmetics,
    Skin,
    /// Only the server sends this; drop it.
    Ignore,
}

/// The route of each message kind.
pub open spec fn route_of(m: Sm64JsMsg) -> Route {
    match m {
        Sm64JsMsg::Ping => Route::EchoPing,
        Sm64JsMsg::Mario(_) => Route::SetData,
        Sm64JsMsg::Attack(_) => Route::Attack,
        Sm64JsMsg::Grab(_) => Route::Grab,
        Sm64JsMsg::Chat(_) => Route::Chat,
        Sm64JsMsg::JoinGame(_) => Route::JoinGame,
        Sm64JsMsg::RequestCosmetics => Route::RequestCosmetics,
        Sm64JsMsg::Skin(_) => Route::Skin,
        _ => Route::Ignore,
    }
}

/// The route of an incoming message.
pub fn route(m: &Sm64JsMsg) -> (r: Route)
    ensures
        r == route_of(*m),
{
    match m {
        Sm64JsMsg::Ping => Route::EchoPing,
        Sm64JsMsg::Mario(_) => Route::SetData,
        Sm64JsMsg::Attack(_) => Route::Attack,
        Sm64JsMsg::Grab(_) => Route::Grab,
        Sm64JsMsg::Chat(_) => Route::Chat,
        Sm64JsMsg::JoinGame(_) => Route::JoinGame,
        Sm64JsMsg::RequestCosmetics => Route::RequestCosmetics,
        Sm64JsMsg::Skin(_) => Route::Skin,
        _ => Route::Ignore,
    }
}

/// Milliseconds from `from` to `to`, as a mathematical difference.
pub open spec fn elapsed(from: i64, to: i64) -> int {
    to - from
}

impl SessionClock {
    pub closed spec fn last_pong(&self) -> i64 {
        self.hb
    }

    pub closed spec fn last_frame(&self) -> i64 {
        self.hb_data
    }

    pub closed spec fn last_movement(&self) -> i64 {
        self.hb_afk
    }

    pub closed spec fn sample(&self) -> Option<Position> {
        self.data
    }

    pub closed spec fn checked_sample(&self) -> Option<Position> {
        self.data_afk_check
    }

    pub closed spec fn frames_since_sample(&self) -> u8 {
        self.data_loop_index
    }

    pub open spec fn wf(&self) -> bool {
        self.frames_since_sample() < MOVEMENT_SAMPLE_FRAMES
    }

    /// Clocks of a connection opened at `now`.
    pub fn new(now: i64) -> (r: SessionClock)
        ensures
            r.wf(),
            r.last_pong() == now,
            r.last_frame() == now,
            r.last_movement() == now,
            r.sample() is None,
            r.checked_sample() is None,
            r.frames_since_sample() == 0,
    {
        SessionClock { hb: now, hb_data: now, hb_afk: now, data: None, data_afk_check: None, data_loop_index: 0 }
    }

    /// A ping, a pong or any message arrived at `now`.
    pub fn on_activity(&mut self, now: i64)
        ensures
            final(self).last_pong() == now,
            final(self).last_frame() == old(self).last_frame(),
            final(self).last_movement() == old(self).last_movement(),
            final(self).sample() == old(self).sample(),
            final(self).checked_sample() == old(self).checked_sample(),
            final(self).frames_since_sample() == old(self).frames_since_sample(),
    {
        self.hb = now;
    }

    /// A world-state frame at `pos` arrived at `now`: the frame clock is
    /// reset, and every thirtieth frame the position is sampled.
    pub fn on_frame(&mut self, pos: Position, now: i64)
        requires
            old(self).wf(),
        ensures
            final(self).wf(),
            final(self).last_pong() == now,
            final(self).last_frame() == now,
            final(self).last_movement() == old(self).last_movement(),
            final(self).checked_sample() == old(self).checked_sample(),
            old(self).frames_since_sample() + 1 == MOVEMENT_SAMPLE_FRAMES ==> final(self).sample()
                == Some(pos) && final(self).frames_since_sample() == 0,
            old(self).frames_since_sample() + 1 < MOVEMENT_SAMPLE_FRAMES ==> final(self).sample()
                == old(self).sample() && final(self).frames_since_sample() == old(
                self,
            ).frames_since_sample() + 1,
    {
        self.hb = now;
        self.hb_data = now;
        self.data_loop_index = self.data_loop_index + 1;
        if self.data_loop_index >= MOVEMENT_SAMPLE_FRAMES {
            self.data = Some(pos);
            self.data_loop_index = 0;
        }
    }

    /// The periodic check at `now`: close after 120 s without a pong or
    /// without a frame, or after 300 s without the sampled position changing.
    pub fn check(&mut self, now: i64) -> (r: Heartbeat)
        requires
            old(self).wf(),
        ensures
            final(self).wf(),
            final(self).last_pong() == old(self).last_pong(),
            final(self).last_frame() == old(self).last_frame(),
            final(self).sample() == old(self).sample(),
            final(self).frames_since_sample() == old(self).frames_since_sample(),
            final(self).checked_sample() == old(self).sample(),
            old(self).checked_sample() != old(self).sample() ==> final(self).last_movement() == now,
            old(self).checked_sample() == old(self).sample() ==> final(self).last_movement()
                == old(self).last_movement(),
            r == Heartbeat::Close <==> (elapsed(old(self).last_pong(), now) > CLIENT_TIMEOUT || elapsed(
                old(self).last_frame(),
                now,
            ) > CLIENT_TIMEOUT || (old(self).checked_sample() == old(self).sample() && elapsed(
                old(self).last_movement(),
                now,
            ) > CLIENT_AFK_TIMEOUT)),
    {
        let silent = (now as i128) - (self.hb as i128) > CLIENT_TIMEOUT as i128;
        let no_frames = (now as i128) - (self.hb_data as i128) > CLIENT_TIMEOUT as i128;
        let moved = self.data_afk_check != self.data;
        let idle = !moved && (now as i128) - (self.hb_afk as i128) > CLIENT_AFK_TIMEOUT as i128;
        if moved {
            self.data_afk_check = self.data;
            self.hb_afk = now;
        }
        if silent || no_frames || idle {
            Heartbeat::Close
        } else {
            Heartbeat::Ping
        }
    }
}

} // verus!
