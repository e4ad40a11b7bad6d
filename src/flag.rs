//! A capturable flag and its state machine: resting at its start position,
//! carried by a player, falling after a drop, or lying idle until it resets.
use rand::Rng;
use vstd::prelude::*;

verus! {

/// Largest magnitude of a coordinate, in thousandths of a game unit.
pub const POS_BOUND: i64 = 1_000_000_000_000;

/// Height a falling flag stops at (-10 000 game units).
pub const FALL_FLOOR: i64 = -10_000_000;

/// Distance a falling flag drops per tick (2 game units).
pub const FALL_STEP: i64 = 2_000;

/// Height added to the drop origin (600 game units).
pub const DROP_LIFT: i64 = 600_000;

/// Largest horizontal scatter of a drop on each axis (500 game units).
pub const DROP_SCATTER: i64 = 500_000;

/// Square of the grab radius (50 game units).
pub const GRAB_RADIUS_SQUARED: i128 = 2_500_000_000;

/// Number of idle ticks a flag tolerates; the next one resets it.
pub const IDLE_LIMIT: u16 = 3000;

/// Height reported for a flag that has never been dropped (20 000 game units).
pub const INITIAL_FALL_HEIGHT: i64 = 20_000_000;

/// A point in the world, in thousandths of a game unit.
#[derive(Clone, Copy, Debug, PartialEq, Eq, Structural)]
pub struct Position {
    pub x: i64,
    pub y: i64,
    pub z: i64,
}

pub open spec fn coord_ok(v: int) -> bool {
    -POS_BOUND <= v <= POS_BOUND
}

/// `v` brought back into the coordinate range.
pub open spec fn clamp_coord(v: int) -> int {
    if v < -POS_BOUND {
        -POS_BOUND as int
    } else if v > POS_BOUND {
        POS_BOUND as int
    } else {
        v
    }
}

impl Position {
    pub open spec fn valid(self) -> bool {
        coord_ok(self.x as int) && coord_ok(self.y as int) && coord_ok(self.z as int)
    }

    pub fn new(x: i64, y: i64, z: i64) -> (r: Position)
        ensures
            r == (Position { x, y, z }),
    {
        Position { x, y, z }
    }

    /// Whether every coordinate lies within the coordinate range.
    pub fn is_valid(&self) -> (r: bool)
        ensures
            r == self.valid(),
    {
        -POS_BOUND <= self.x && self.x <= POS_BOUND && -POS_BOUND <= self.y && self.y
            <= POS_BOUND && -POS_BOUND <= self.z && self.z <= POS_BOUND
    }
}

/// Squared distance between two points in the XZ plane.
pub open spec fn xz_dist_squared(a: Position, b: Position) -> int {
    (a.x - b.x) * (a.x - b.x) + (a.z - b.z) * (a.z - b.z)
}

/// Whether `a` lies strictly inside the grab radius around `b`.
pub open spec fn within_grab_radius(a: Position, b: Position) -> bool {
    xz_dist_squared(a, b) < GRAB_RADIUS_SQUARED
}

/// Where a flag lands when dropped from `origin` with the given scatter.
pub open spec fn drop_position(origin: Position, dx: i64, dz: i64) -> Position {
    Position {
        x: clamp_coord(origin.x + dx) as i64,
        y: clamp_coord(origin.y + DROP_LIFT) as i64,
        z: clamp_coord(origin.z + dz) as i64,
    }
}

fn clamp_sum(a: i64, b: i64) -> (r: i64)
    requires
        coord_ok(a as int),
        -DROP_LIFT <= b <= DROP_LIFT,
    ensures
        r == clamp_coord(a + b),
{
    let s = a + b;
    if s < -POS_BOUND {
        -POS_BOUND
    } else if s > POS_BOUND {
        POS_BOUND
    } else {
        s
    }
}

/// Relies on rand's `thread_rng` and `Rng::gen_range` on an inclusive range:
/// a value between the bounds, which the range may not have inverted.
#[verifier::external_body]
fn random_between(lo: i64, hi: i64) -> (r: i64)
    requires
        lo <= hi,
    ensures
        lo <= r <= hi,
{
    rand::thread_rng().gen_range(lo..=hi)
}

/// The per-tick wire form of a flag.
#[derive(Clone, Copy, Debug, PartialEq, Eq, Structural)]
pub struct FlagMsg {
    pub pos: Position,
    pub linked_to_player: bool,
    /// The carrier's socket id, or 0 when nobody carries the flag.
    pub socket_id: u32,
    pub height_before_fall: i64,
}

/// A flag of a room.
#[derive(Clone, Copy, Debug)]
pub struct Flag {
    pos: Position,
    start_pos: Position,
    linked_to_player: Option<u32>,
    at_start_position: bool,
    idle_timer: u16,
    fall_mode: bool,
    height_before_fall: i64,
}

impl Flag {
    pub closed spec fn pos_spec(&self) -> Position {
        self.pos
    }

    pub closed spec fn start_spec(&self) -> Position {
        self.start_pos
    }

    pub closed spec fn carrier_spec(&self) -> Option<u32> {
        self.linked_to_player
    }

    pub closed spec fn at_start_spec(&self) -> bool {
        self.at_start_position
    }

    pub closed spec fn idle_spec(&self) -> u16 {
        self.idle_timer
    }

    pub closed spec fn falling_spec(&self) -> bool {
        self.fall_mode
    }

    pub closed spec fn height_spec(&self) -> i64 {
        self.height_before_fall
    }

    /// Well-formedness: coordinates in range, a flag at its start is neither
    /// carried nor falling, a carried flag does not fall, and the idle counter
    /// never passes its limit.
    pub open spec fn wf(&self) -> bool {
        &&& self.pos_spec().valid()
        &&& self.start_spec().valid()
        &&& self.at_start_spec() ==> self.carrier_spec() is None && !self.falling_spec()
        &&& self.carrier_spec() is Some ==> !self.falling_spec()
        &&& self.idle_spec() <= IDLE_LIMIT
    }

    pub open spec fn is_resting(&self) -> bool {
        self.carrier_spec() is None && self.at_start_spec()
    }

    pub open spec fn is_carried(&self) -> bool {
        self.carrier_spec() is Some
    }

    pub open spec fn is_falling(&self) -> bool {
        self.carrier_spec() is None && !self.at_start_spec() && self.falling_spec()
    }

    pub open spec fn is_idle(&self) -> bool {
        self.carrier_spec() is None && !self.at_start_spec() && !self.falling_spec()
    }

    /// A flag resting at `pos`.
    pub fn new(pos: Position) -> (r: Flag)
        requires
            pos.valid(),
        ensures
            r.wf(),
            r.is_resting(),
            r.pos_spec() == pos,
            r.start_spec() == pos,
            r.idle_spec() == 0,
            !r.falling_spec(),
            r.height_spec() == INITIAL_FALL_HEIGHT,
    {
        Flag {
            pos,
            start_pos: pos,
            linked_to_player: None,
            at_start_position: true,
            idle_timer: 0,
            fall_mode: false,
            height_before_fall: INITIAL_FALL_HEIGHT,
        }
    }

    pub fn pos(&self) -> (r: Position)
        ensures
            r == self.pos_spec(),
    {
        self.pos
    }

    pub fn start_pos(&self) -> (r: Position)
        ensures
            r == self.start_spec(),
    {
        self.start_pos
    }

    pub fn carrier(&self) -> (r: Option<u32>)
        ensures
            r == self.carrier_spec(),
    {
        self.linked_to_player
    }

    pub fn is_at_start(&self) -> (r: bool)
        ensures
            r == self.at_start_spec(),
    {
        self.at_start_position
    }

    pub fn idle_ticks(&self) -> (r: u16)
        ensures
            r == self.idle_spec(),
    {
        self.idle_timer
    }

    pub fn is_fall_mode(&self) -> (r: bool)
        ensures
            r == self.falling_spec(),
    {
        self.fall_mode
    }

    pub fn height_before_fall(&self) -> (r: i64)
        ensures
            r == self.height_spec(),
    {
        self.height_before_fall
    }

    /// `b` is `a` after one tick of falling.
    pub open spec fn fell(a: Flag, b: Flag) -> bool {
        &&& b.pos_spec() == (if a.falling_spec() && a.pos_spec().y > FALL_FLOOR {
            Position { y: (a.pos_spec().y - FALL_STEP) as i64, ..a.pos_spec() }
        } else {
            a.pos_spec()
        })
        &&& b.start_spec() == a.start_spec()
        &&& b.carrier_spec() == a.carrier_spec()
        &&& b.at_start_spec() == a.at_start_spec()
        &&& b.idle_spec() == a.idle_spec()
        &&& b.falling_spec() == a.falling_spec()
        &&& b.height_spec() == a.height_spec()
    }

    /// `b` is `a` after one tick of the idle clock.
    pub open spec fn idled(a: Flag, b: Flag) -> bool {
        &&& b.start_spec() == a.start_spec()
        &&& b.carrier_spec() == a.carrier_spec()
        &&& b.height_spec() == a.height_spec()
        &&& !(a.carrier_spec() is None && !a.at_start_spec()) ==> b == a
        &&& a.carrier_spec() is None && !a.at_start_spec() && a.idle_spec() < IDLE_LIMIT ==> {
            &&& b.idle_spec() == a.idle_spec() + 1
            &&& b.pos_spec() == a.pos_spec()
            &&& b.at_start_spec() == a.at_start_spec()
            &&& b.falling_spec() == a.falling_spec()
        }
        &&& a.carrier_spec() is None && !a.at_start_spec() && a.idle_spec() == IDLE_LIMIT ==> {
            &&& b.idle_spec() == 0
            &&& b.pos_spec() == a.start_spec()
            &&& b.at_start_spec()
            &&& !b.falling_spec()
        }
    }

    /// `b` is `a` after one world tick.
    pub open spec fn ticked(a: Flag, b: Flag) -> bool {
        exists|m: Flag| Self::fell(a, m) && #[trigger] Self::idled(m, b)
    }

    /// One tick of falling: a flag in fall mode above the floor drops by one
    /// step; any other flag is left as it is.
    pub fn process_falling(&mut self)
        requires
            old(self).wf(),
        ensures
            final(self).wf(),
            Self::fell(*old(self), *final(self)),
    {
        if self.fall_mode && self.pos.y > FALL_FLOOR {
            self.pos.y = self.pos.y - FALL_STEP;
        }
    }

    /// One tick of the idle clock: a flag that nobody carries and that is away
    /// from its start counts the tick; on passing the limit it goes back to
    /// rest at its start position.
    pub fn process_idle(&mut self)
        requires
            old(self).wf(),
        ensures
            final(self).wf(),
            Self::idled(*old(self), *final(self)),
    {
        if self.linked_to_player.is_none() && !self.at_start_position {
            self.idle_timer = self.idle_timer + 1;
            if self.idle_timer > IDLE_LIMIT {
                self.pos = self.start_pos;
                self.fall_mode = false;
                self.at_start_position = true;
                self.idle_timer = 0;
            }
        }
    }

    /// One world tick: falling, then the idle clock.
    pub fn tick(&mut self)
        requires
            old(self).wf(),
        ensures
            final(self).wf(),
            Self::ticked(*old(self), *final(self)),
    {
        self.process_falling();
        let ghost mid = *self;
        self.process_idle();
        assert(Self::fell(*old(self), mid) && Self::idled(mid, *self));
    }

    /// `b` is `a` dropped from `origin`: released, falling, lifted above
    /// `origin` with a horizontal scatter of at most half a thousand units.
    pub open spec fn dropped_from(a: Flag, b: Flag, origin: Position) -> bool {
        &&& b.carrier_spec() is None
        &&& b.falling_spec()
        &&& !b.at_start_spec()
        &&& b.height_spec() == b.pos_spec().y
        &&& b.start_spec() == a.start_spec()
        &&& b.idle_spec() == a.idle_spec()
        &&& exists|dx: i64, dz: i64|
            -DROP_SCATTER <= dx <= DROP_SCATTER && -DROP_SCATTER <= dz <= DROP_SCATTER
                && #[trigger] drop_position(origin, dx, dz) == b.pos_spec()
    }

    /// Drop from `origin` with a random scatter of up to half a thousand game
    /// units on each horizontal axis.
    pub fn drop(&mut self, origin: Position)
        requires
            old(self).wf(),
            origin.valid(),
        ensures
            final(self).wf(),
            final(self).carrier_spec() is None,
            final(self).falling_spec(),
            !final(self).at_start_spec(),
            exists|dx: i64, dz: i64|
                -DROP_SCATTER <= dx <= DROP_SCATTER && -DROP_SCATTER <= dz <= DROP_SCATTER
                    && #[trigger] drop_position(origin, dx, dz) == final(self).pos_spec(),
            final(self).height_spec() == final(self).pos_spec().y,
            final(self).start_spec() == old(self).start_spec(),
            final(self).idle_spec() == old(self).idle_spec(),
            Self::dropped_from(*old(self), *final(self), origin),
    {
        let dx = random_between(-DROP_SCATTER, DROP_SCATTER);
        let dz = random_between(-DROP_SCATTER, DROP_SCATTER);
        self.drop_at(origin, dx, dz);
    }

    /// The flag's wire form.
    pub open spec fn msg_spec(&self) -> FlagMsg {
        FlagMsg {
            pos: self.pos_spec(),
            linked_to_player: self.carrier_spec() is Some,
            socket_id: match self.carrier_spec() {
                Some(id) => id,
                None => 0,
            },
            height_before_fall: self.height_spec(),
        }
    }

    /// The flag's wire form.
    pub fn get_msg(&self) -> (r: FlagMsg)
        ensures
            r == self.msg_spec(),
    {
        FlagMsg {
            pos: self.pos,
            linked_to_player: self.linked_to_player.is_some(),
            socket_id: match self.linked_to_player {
                Some(id) => id,
                None => 0,
            },
            height_before_fall: self.height_before_fall,
        }
    }

    /// Grab by `socket_id` standing at `pos`: succeeds iff nobody carries the
    /// flag and `pos` is strictly inside the grab radius in the XZ plane.
    pub fn grab(&mut self, pos: Position, socket_id: u32) -> (grabbed: bool)
        requires
            old(self).wf(),
            pos.valid(),
        ensures
            final(self).wf(),
            grabbed == (old(self).carrier_spec() is None && within_grab_radius(
                pos,
                old(self).pos_spec(),
            )),
            grabbed ==> {
                &&& final(self).carrier_spec() == Some(socket_id)
                &&& !final(self).falling_spec()
                &&& !final(self).at_start_spec()
                &&& final(self).idle_spec() == 0
                &&& final(self).pos_spec() == old(self).pos_spec()
                &&& final(self).start_spec() == old(self).start_spec()
                &&& final(self).height_spec() == old(self).height_spec()
            },
            !grabbed ==> *final(self) == *old(self),
    {
        if self.linked_to_player.is_some() {
            return false;
        }
        let dx = pos.x as i128 - self.pos.x as i128;
        let dz = pos.z as i128 - self.pos.z as i128;
        assert(dx * dx <= 4_000_000_000_000_000_000_000_000) by (nonlinear_arith)
            requires
                -2_000_000_000_000 <= dx <= 2_000_000_000_000,
        ;
        assert(dz * dz <= 4_000_000_000_000_000_000_000_000) by (nonlinear_arith)
            requires
                -2_000_000_000_000 <= dz <= 2_000_000_000_000,
        ;
        assert(dx * dx >= 0) by (nonlinear_arith);
        assert(dz * dz >= 0) by (nonlinear_arith);
        let d = dx * dx + dz * dz;
        if d < GRAB_RADIUS_SQUARED {
            self.linked_to_player = Some(socket_id);
            self.fall_mode = false;
            self.at_start_position = false;
            self.idle_timer = 0;
            true
        } else {
            false
        }
    }

    /// Drop from `origin` with scatter `dx`, `dz`: the flag is released, starts
    /// falling, and lands lifted above `origin`.
    pub fn drop_at(&mut self, origin: Position, dx: i64, dz: i64)
        requires
            old(self).wf(),
            origin.valid(),
            -DROP_SCATTER <= dx <= DROP_SCATTER,
            -DROP_SCATTER <= dz <= DROP_SCATTER,
        ensures
            final(self).wf(),
            final(self).carrier_spec() is None,
            final(self).falling_spec(),
            !final(self).at_start_spec(),
            final(self).pos_spec() == drop_position(origin, dx, dz),
            final(self).height_spec() == final(self).pos_spec().y,
            final(self).start_spec() == old(self).start_spec(),
            final(self).idle_spec() == old(self).idle_spec(),
    {
        let x = clamp_sum(origin.x, dx);
        let y = clamp_sum(origin.y, DROP_LIFT);
        let z = clamp_sum(origin.z, dz);
        self.linked_to_player = None;
        self.fall_mode = true;
        self.at_start_position = false;
        self.pos = Position { x, y, z };
        self.height_before_fall = y;
    }

    /// Attack on `target_id`: drops the flag from `origin` iff `target_id`
    /// carries it; otherwise nothing changes.
    pub fn attack(&mut self, origin: Position, target_id: u32, dx: i64, dz: i64) -> (dropped:
        bool)
        requires
            old(self).wf(),
            origin.valid(),
            -DROP_SCATTER <= dx <= DROP_SCATTER,
            -DROP_SCATTER <= dz <= DROP_SCATTER,
        ensures
            final(self).wf(),
            dropped == (old(self).carrier_spec() == Some(target_id)),
            dropped ==> {
                &&& final(self).carrier_spec() is None
                &&& final(self).falling_spec()
                &&& !final(self).at_start_spec()
                &&& final(self).pos_spec() == drop_position(origin, dx, dz)
                &&& final(self).height_spec() == final(self).pos_spec().y
                &&& final(self).start_spec() == old(self).start_spec()
            },
            !dropped ==> *final(self) == *old(self),
    {
        match self.linked_to_player {
            Some(link_id) => {
                if link_id != target_id {
                    return false;
                }
                self.drop_at(origin, dx, dz);
                true
            },
            None => false,
        }
    }
}

} // verus!
