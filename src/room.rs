//! Rooms: one per level, owning its flags; the table of every level.
use crate::flag::{drop_position, within_grab_radius, Flag, FlagMsg, Position, DROP_SCATTER};
use vstd::prelude::*;
use vstd::string::StringExecFns;

verus! {

/// A level with its flags. The players present in a level are the sessions
/// whose player joined it; the server derives them from its session table.
pub struct Room {
    id: u32,
    pub name: String,
    flags: Vec<Flag>,
}

impl Room {
    pub closed spec fn id_spec(&self) -> u32 {
        self.id
    }

    pub closed spec fn flags_spec(&self) -> Seq<Flag> {
        self.flags@
    }

    pub closed spec fn name_spec(&self) -> String {
        self.name
    }

    /// Every flag is well formed.
    pub open spec fn wf(&self) -> bool {
        forall|i: int| 0 <= i < self.flags_spec().len() ==> (#[trigger] self.flags_spec()[i]).wf()
    }

    /// A room with resting flags at the given start positions.
    pub fn new(id: u32, name: &str, starts: &Vec<Position>) -> (r: Room)
        requires
            forall|i: int| 0 <= i < starts@.len() ==> (#[trigger] starts@[i]).valid(),
        ensures
            r.wf(),
            r.id_spec() == id,
            r.name_spec()@ == name@,
            r.flags_spec().len() == starts@.len(),
            forall|i: int|
                0 <= i < starts@.len() ==> (#[trigger] r.flags_spec()[i]).is_resting()
                    && r.flags_spec()[i].pos_spec() == starts@[i]
                    && r.flags_spec()[i].start_spec() == starts@[i],
    {
        let mut flags: Vec<Flag> = Vec::new();
        let mut i: usize = 0;
        while i < starts.len()
            invariant
                i <= starts@.len(),
                flags@.len() == i,
                forall|k: int| 0 <= k < starts@.len() ==> (#[trigger] starts@[k]).valid(),
                forall|k: int|
                    0 <= k < i ==> (#[trigger] flags@[k]).wf() && flags@[k].is_resting()
                        && flags@[k].pos_spec() == starts@[k] && flags@[k].start_spec()
                        == starts@[k],
            decreases starts@.len() - i,
        {
            flags.push(Flag::new(starts[i]));
            i = i + 1;
        }
        Room { id, name: String::from_str(name), flags }
    }

    pub fn get_name(&self) -> (r: &String)
        ensures
            *r == self.name_spec(),
    {
        &self.name
    }

    pub fn get_id(&self) -> (r: u32)
        ensures
            r == self.id_spec(),
    {
        self.id
    }

    pub fn flag_count(&self) -> (r: usize)
        ensures
            r == self.flags_spec().len(),
    {
        self.flags.len()
    }

    pub fn flag(&self, i: usize) -> (r: &Flag)
        requires
            i < self.flags_spec().len(),
        ensures
            *r == self.flags_spec()[i as int],
    {
        &self.flags[i]
    }

    /// One world tick for every flag.
    pub fn process_flags(&mut self)
        requires
            old(self).wf(),
        ensures
            final(self).wf(),
            final(self).id_spec() == old(self).id_spec(),
            final(self).name_spec() == old(self).name_spec(),
            final(self).flags_spec().len() == old(self).flags_spec().len(),
            forall|i: int|
                0 <= i < old(self).flags_spec().len() ==> Flag::ticked(
                    #[trigger] old(self).flags_spec()[i],
                    final(self).flags_spec()[i],
                ),
    {
        let n = self.flags.len();
        let mut i: usize = 0;
        while i < n
            invariant
                n == self.flags@.len(),
                i <= n,
                self.id == old(self).id,
                self.name == old(self).name,
                forall|k: int| 0 <= k < n ==> (#[trigger] self.flags@[k]).wf(),
                forall|k: int| 0 <= k < i ==> Flag::ticked(#[trigger] old(self).flags@[k], self.flags@[k]),
                forall|k: int| i <= k < n ==> #[trigger] self.flags@[k] == old(self).flags@[k],
            decreases n - i,
        {
            let mut f = self.flags[i];
            f.tick();
            self.flags.set(i, f);
            i = i + 1;
        }
    }

    /// `r` is this room with flag `i` replaced by `f`.
    pub open spec fn with_flag(&self, r: Room, i: int, f: Flag) -> bool {
        &&& r.id_spec() == self.id_spec()
        &&& r.name_spec() == self.name_spec()
        &&& r.flags_spec() == self.flags_spec().update(i, f)
    }

    fn set_flag(&mut self, i: usize, f: Flag)
        requires
            old(self).wf(),
            i < old(self).flags_spec().len(),
            f.wf(),
        ensures
            final(self).wf(),
            old(self).with_flag(*final(self), i as int, f),
    {
        self.flags.set(i, f);
        assert forall|k: int| 0 <= k < self.flags_spec().len() implies (#[trigger] self.flags_spec()[k]).wf() by {
            if k != i {
                assert(old(self).flags_spec()[k].wf());
            }
        }
    }

    /// `b` is `a` after an attack on `target_id` concerning flag `i`, made
    /// from `origin`: the flag is dropped from `origin` iff `target_id`
    /// carries it; otherwise nothing changes.
    pub open spec fn attacked(a: Room, b: Room, i: int, origin: Position, target_id: u32) -> bool {
        if 0 <= i < a.flags_spec().len() && a.flags_spec()[i].carrier_spec() == Some(target_id) {
            exists|f: Flag|
                #![trigger a.with_flag(b, i, f)]
                a.with_flag(b, i, f) && f.carrier_spec() is None && f.falling_spec()
                    && !f.at_start_spec() && f.height_spec() == f.pos_spec().y && f.start_spec()
                    == a.flags_spec()[i].start_spec() && exists|dx: i64, dz: i64|
                    -DROP_SCATTER <= dx <= DROP_SCATTER && -DROP_SCATTER <= dz <= DROP_SCATTER
                        && #[trigger] drop_position(origin, dx, dz) == f.pos_spec()
        } else {
            b == a
        }
    }

    /// `b` is `a` after `socket_id`, standing at `pos`, tried to grab flag
    /// `i`; `grabbed` tells whether it worked.
    pub open spec fn grabbed(a: Room, b: Room, i: int, pos: Position, socket_id: u32, grabbed: bool) -> bool {
        &&& grabbed == (0 <= i < a.flags_spec().len() && a.flags_spec()[i].carrier_spec() is None
            && within_grab_radius(pos, a.flags_spec()[i].pos_spec()))
        &&& !grabbed ==> b == a
        &&& grabbed ==> exists|f: Flag|
            #![trigger a.with_flag(b, i, f)]
            a.with_flag(b, i, f) && f.carrier_spec() == Some(socket_id) && !f.falling_spec()
                && !f.at_start_spec() && f.idle_spec() == 0 && f.pos_spec() == a.flags_spec()[i].pos_spec()
                && f.start_spec() == a.flags_spec()[i].start_spec()
    }

    /// An attack on `target_id` concerning flag `flag_id`: the flag is dropped
    /// from `attacker_pos` iff `target_id` carries it.
    pub fn process_attack(&mut self, flag_id: usize, attacker_pos: Position, target_id: u32)
        requires
            old(self).wf(),
            attacker_pos.valid(),
        ensures
            final(self).wf(),
            Self::attacked(*old(self), *final(self), flag_id as int, attacker_pos, target_id),
    {
        if flag_id >= self.flags.len() {
            return;
        }
        let mut f = self.flags[flag_id];
        proof {
            assert(self.flags_spec()[flag_id as int].wf());
        }
        if f.carrier() != Some(target_id) {
            return;
        }
        f.drop(attacker_pos);
        self.set_flag(flag_id, f);
    }

    /// A grab of flag `flag_id` by `socket_id` standing at `pos`; see `Flag::grab`.
    pub fn process_grab_flag(&mut self, flag_id: usize, pos: Position, socket_id: u32) -> (grabbed: bool)
        requires
            old(self).wf(),
            pos.valid(),
        ensures
            final(self).wf(),
            Self::grabbed(*old(self), *final(self), flag_id as int, pos, socket_id, grabbed),
    {
        if flag_id >= self.flags.len() {
            return false;
        }
        let mut f = self.flags[flag_id];
        proof {
            assert(self.flags_spec()[flag_id as int].wf());
        }
        if f.grab(pos, socket_id) {
            self.set_flag(flag_id, f);
            true
        } else {
            false
        }
    }

    /// Index of the first flag carried by `socket_id`.
    pub fn flag_held_by(&self, socket_id: u32) -> (r: Option<usize>)
        ensures
            match r {
                Some(i) => i < self.flags_spec().len() && self.flags_spec()[i as int].carrier_spec()
                    == Some(socket_id) && forall|k: int| 0 <= k < i ==> (#[trigger] self.flags_spec()[k]).carrier_spec()
                    != Some(socket_id),
                None => forall|k: int|
                    0 <= k < self.flags_spec().len() ==> (#[trigger] self.flags_spec()[k]).carrier_spec()
                        != Some(socket_id),
            },
    {
        let mut i: usize = 0;
        while i < self.flags.len()
            invariant
                i <= self.flags@.len(),
                forall|k: int| 0 <= k < i ==> (#[trigger] self.flags@[k]).carrier_spec() != Some(socket_id),
            decreases self.flags@.len() - i,
        {
            if self.flags[i].carrier() == Some(socket_id) {
                return Some(i);
            }
            i = i + 1;
        }
        None
    }

    /// `b` is `a` after the player `socket_id` left: every flag it carried is
    /// dropped from where the flag was stored, and the others are unchanged.
    pub open spec fn released(a: Room, b: Room, socket_id: u32) -> bool {
        &&& b.id_spec() == a.id_spec()
        &&& b.name_spec() == a.name_spec()
        &&& b.flags_spec().len() == a.flags_spec().len()
        &&& forall|k: int|
            0 <= k < a.flags_spec().len() ==> if (#[trigger] a.flags_spec()[k]).carrier_spec() == Some(
                socket_id,
            ) {
                Flag::dropped_from(a.flags_spec()[k], b.flags_spec()[k], a.flags_spec()[k].pos_spec())
            } else {
                b.flags_spec()[k] == a.flags_spec()[k]
            }
    }

    /// Drops every flag `socket_id` carries, each from its own position.
    pub fn drop_flag_if_holding(&mut self, socket_id: u32)
        requires
            old(self).wf(),
        ensures
            final(self).wf(),
            Self::released(*old(self), *final(self), socket_id),
    {
        let n = self.flags.len();
        let mut i: usize = 0;
        assert forall|k: int| 0 <= k < n implies (#[trigger] self.flags@[k]).wf() by {
            assert(self.flags_spec()[k].wf());
        }
        while i < n
            invariant
                n == self.flags@.len(),
                n == old(self).flags@.len(),
                i <= n,
                self.id == old(self).id,
                self.name == old(self).name,
                forall|k: int| 0 <= k < n ==> (#[trigger] self.flags@[k]).wf(),
                forall|k: int|
                    0 <= k < i ==> if (#[trigger] old(self).flags@[k]).carrier_spec() == Some(socket_id) {
                        Flag::dropped_from(old(self).flags@[k], self.flags@[k], old(self).flags@[k].pos_spec())
                    } else {
                        self.flags@[k] == old(self).flags@[k]
                    },
                forall|k: int| i <= k < n ==> #[trigger] self.flags@[k] == old(self).flags@[k],
            decreases n - i,
        {
            let mut f = self.flags[i];
            if f.carrier() == Some(socket_id) {
                let origin = f.pos();
                f.drop(origin);
                self.flags.set(i, f);
            }
            i = i + 1;
        }
    }

    /// The wire form of every flag, in order.
    pub fn flag_msgs(&self) -> (r: Vec<FlagMsg>)
        ensures
            r@.len() == self.flags_spec().len(),
            forall|i: int| 0 <= i < r@.len() ==> #[trigger] r@[i] == self.flags_spec()[i].msg_spec(),
    {
        let mut out: Vec<FlagMsg> = Vec::new();
        let mut i: usize = 0;
        while i < self.flags.len()
            invariant
                i <= self.flags@.len(),
                out@.len() == i,
                forall|k: int| 0 <= k < i ==> #[trigger] out@[k] == self.flags@[k].msg_spec(),
            decreases self.flags@.len() - i,
        {
            out.push(self.flags[i].get_msg());
            i = i + 1;
        }
        out
    }
}

/// The room table: each level's id, display name and flag start positions,
/// in order.
pub open spec fn room_table() -> Seq<(u32, Seq<char>, Seq<Position>)> {
    seq![
        (4u32, "Big Boo's Haunt"@, seq![Position { x: 671_000i64, y: 2_867_000i64, z: 1_908_000i64 }]),
        (5u32, "Cool, Cool Mountain"@, seq![Position { x: 2_556_000i64, y: 2_662_000i64, z: -1_041_000i64 }]),
        (6u32, "Castle Inside First Level"@, Seq::empty()),
        (7u32, "Hazy Maze Cave"@, seq![Position { x: 6_099_000i64, y: -4_689_000i64, z: 2_327_000i64 }]),
        (8u32, "Shifting Sand Land"@, seq![Position { x: -2_048_000i64, y: 1_103_000i64, z: -463_000i64 }]),
        (9u32, "Bob-omb Battlefield"@, seq![Position { x: -2_384_000i64, y: 260_000i64, z: 6_203_000i64 }]),
        (10u32, "Snowman's Land"@, seq![Position { x: 214_000i64, y: 4_864_000i64, z: -39_000i64 }]),
        (16u32, "Castle Grounds"@, seq![Position { x: 6_300_000i64, y: 910_000i64, z: -5_900_000i64 }, Position { x: -4_200_000i64, y: -1_300_000i64, z: -5_300_000i64 }]),
        (24u32, "Whomp's Fortress"@, seq![Position { x: 242_000i64, y: 3_584_000i64, z: 178_000i64 }]),
        (26u32, "Castle Courtyard"@, Seq::empty()),
        (27u32, "Princess's Secret Slide"@, Seq::empty()),
        (29u32, "Tower of the Wing Cap"@, Seq::empty()),
        (36u32, "Tall, Tall Mountain"@, seq![Position { x: 1_165_000i64, y: 2_309_000i64, z: 261_000i64 }]),
        (56u32, "Cool, Cool Mountain Slide"@, Seq::empty()),
        (602u32, "Castle Inside Second Level"@, Seq::empty()),
        (999u32, "Clouded Ruins"@, seq![Position { x: -6_000i64, y: 1_116_000i64, z: -2_027_000i64 }]),
        (1000u32, "Mushroom Battlefield"@, seq![Position { x: 9_380_000i64, y: 7_657_000i64, z: -8_980_000i64 }, Position { x: -5_126_000i64, y: 3_678_000i64, z: 10_106_000i64 }, Position { x: -14_920_000i64, y: 3_800_000i64, z: -8_675_000i64 }, Position { x: 12_043_000i64, y: 3_000_000i64, z: 10_086_000i64 }]),
        (1001u32, "CTF/Race Map"@, seq![Position { x: -76_000i64, y: 467_000i64, z: -7_768_000i64 }, Position { x: -76_000i64, y: 467_000i64, z: 7_945_000i64 }]),
        (1002u32, "Starman Fortress"@, seq![Position { x: 1_919_000i64, y: 4_319_000i64, z: -1_024_000i64 }]),
        (1003u32, "Glider Jungle"@, seq![Position { x: 8_363_000i64, y: 8_798_000i64, z: -1_613_000i64 }]),
        (1004u32, "Mushroom Raceway"@, Seq::empty()),
        (1006u32, "Dolphin Town"@, seq![Position { x: 4_124_000i64, y: 7_528_000i64, z: 576_000i64 }, Position { x: 4_224_000i64, y: 7_528_000i64, z: -1_267_000i64 }]),
    ]
}

/// Whether `r` is the room that entry `t` of the table describes, with its
/// flags resting at their starts.
pub open spec fn room_matches(r: Room, t: (u32, Seq<char>, Seq<Position>)) -> bool {
    &&& r.wf()
    &&& r.id_spec() == t.0
    &&& r.name_spec()@ == t.1
    &&& r.flags_spec().len() == t.2.len()
    &&& forall|k: int|
        0 <= k < t.2.len() ==> (#[trigger] r.flags_spec()[k]).is_resting() && r.flags_spec()[k].pos_spec()
            == t.2[k] && r.flags_spec()[k].start_spec() == t.2[k]
}

fn pos(x: i64, y: i64, z: i64) -> (r: Position)
    requires
        -100_000_000 <= x <= 100_000_000,
        -100_000_000 <= y <= 100_000_000,
        -100_000_000 <= z <= 100_000_000,
    ensures
        r == (Position { x, y, z }),
        r.valid(),
{
    Position { x, y, z }
}

fn push_room(rooms: &mut Vec<Room>, id: u32, name: &str, starts: Vec<Position>)
    requires
        forall|i: int| 0 <= i < starts@.len() ==> (#[trigger] starts@[i]).valid(),
        old(rooms)@.len() < room_table().len(),
        forall|j: int| 0 <= j < old(rooms)@.len() ==> room_matches(#[trigger] old(rooms)@[j], room_table()[j]),
        id == room_table()[old(rooms)@.len() as int].0,
        name@ == room_table()[old(rooms)@.len() as int].1,
        starts@ =~= room_table()[old(rooms)@.len() as int].2,
    ensures
        final(rooms)@.len() == old(rooms)@.len() + 1,
        forall|j: int| 0 <= j < final(rooms)@.len() ==> room_matches(#[trigger] final(rooms)@[j], room_table()[j]),
{
    let ghost before = rooms@;
    rooms.push(Room::new(id, name, &starts));
    assert forall|j: int| 0 <= j < rooms@.len() implies room_matches(#[trigger] rooms@[j], room_table()[j]) by {
        if j < before.len() {
            assert(rooms@[j] == before[j]);
        }
    }
}

impl Room {
    /// The rooms of every level, as the room table gives them, with their
    /// flags resting at their starts.
    pub fn init_rooms() -> (r: Vec<Room>)
        ensures
            r@.len() == room_table().len(),
            forall|i: int| 0 <= i < r@.len() ==> room_matches(#[trigger] r@[i], room_table()[i]),
    {
        let mut rooms: Vec<Room> = Vec::new();
        push_room(&mut rooms, 4, "Big Boo's Haunt", vec![pos(671_000, 2_867_000, 1_908_000)]);
        push_room(&mut rooms, 5, "Cool, Cool Mountain", vec![pos(2_556_000, 2_662_000, -1_041_000)]);
        push_room(&mut rooms, 6, "Castle Inside First Level", vec![]);
        push_room(&mut rooms, 7, "Hazy Maze Cave", vec![pos(6_099_000, -4_689_000, 2_327_000)]);
        push_room(&mut rooms, 8, "Shifting Sand Land", vec![pos(-2_048_000, 1_103_000, -463_000)]);
        push_room(&mut rooms, 9, "Bob-omb Battlefield", vec![pos(-2_384_000, 260_000, 6_203_000)]);
        push_room(&mut rooms, 10, "Snowman's Land", vec![pos(214_000, 4_864_000, -39_000)]);
        push_room(&mut rooms, 16, "Castle Grounds", vec![pos(6_300_000, 910_000, -5_900_000), pos(-4_200_000, -1_300_000, -5_300_000)]);
        push_room(&mut rooms, 24, "Whomp's Fortress", vec![pos(242_000, 3_584_000, 178_000)]);
        push_room(&mut rooms, 26, "Castle Courtyard", vec![]);
        push_room(&mut rooms, 27, "Princess's Secret Slide", vec![]);
        push_room(&mut rooms, 29, "Tower of the Wing Cap", vec![]);
        push_room(&mut rooms, 36, "Tall, Tall Mountain", vec![pos(1_165_000, 2_309_000, 261_000)]);
        push_room(&mut rooms, 56, "Cool, Cool Mountain Slide", vec![]);
        push_room(&mut rooms, 602, "Castle Inside Second Level", vec![]);
        push_room(&mut rooms, 999, "Clouded Ruins", vec![pos(-6_000, 1_116_000, -2_027_000)]);
        push_room(&mut rooms, 1000, "Mushroom Battlefield", vec![pos(9_380_000, 7_657_000, -8_980_000), pos(-5_126_000, 3_678_000, 10_106_000), pos(-14_920_000, 3_800_000, -8_675_000), pos(12_043_000, 3_000_000, 10_086_000)]);
        push_room(&mut rooms, 1001, "CTF/Race Map", vec![pos(-76_000, 467_000, -7_768_000), pos(-76_000, 467_000, 7_945_000)]);
        push_room(&mut rooms, 1002, "Starman Fortress", vec![pos(1_919_000, 4_319_000, -1_024_000)]);
        push_room(&mut rooms, 1003, "Glider Jungle", vec![pos(8_363_000, 8_798_000, -1_613_000)]);
        push_room(&mut rooms, 1004, "Mushroom Raceway", vec![]);
        push_room(&mut rooms, 1006, "Dolphin Town", vec![pos(4_124_000, 7_528_000, 576_000), pos(4_224_000, 7_528_000, -1_267_000)]);
        rooms
    }
}

proof fn lemma_ids_increase(t: Seq<(u32, Seq<char>, Seq<Position>)>, i: int, j: int)
    requires
        forall|k: int| 0 <= k && k + 1 < t.len() ==> (#[trigger] t[k]).0 < t[k + 1].0,
        0 <= i < j < t.len(),
    ensures
        t[i].0 < t[j].0,
    decreases j - i,
{
    if j > i + 1 {
        lemma_ids_increase(t, i, j - 1);
    }
}

/// The ids of the room table are distinct.
pub proof fn lemma_room_ids_distinct()
    ensures
        forall|i: int, j: int|
            0 <= i < room_table().len() && 0 <= j < room_table().len() && i != j ==> (
            #[trigger] room_table()[i]).0 != (#[trigger] room_table()[j]).0,
{
    let t = room_table();
    assert forall|k: int| 0 <= k && k + 1 < t.len() implies (#[trigger] t[k]).0 < t[k + 1].0 by {
        assert(t[0].0 < t[1].0 && t[1].0 < t[2].0 && t[2].0 < t[3].0 && t[3].0 < t[4].0 && t[4].0 < t[5].0
            && t[5].0 < t[6].0 && t[6].0 < t[7].0 && t[7].0 < t[8].0 && t[8].0 < t[9].0 && t[9].0 < t[10].0
            && t[10].0 < t[11].0 && t[11].0 < t[12].0 && t[12].0 < t[13].0 && t[13].0 < t[14].0
            && t[14].0 < t[15].0 && t[15].0 < t[16].0 && t[16].0 < t[17].0 && t[17].0 < t[18].0
            && t[18].0 < t[19].0 && t[19].0 < t[20].0 && t[20].0 < t[21].0);
    }
    assert forall|i: int, j: int| 0 <= i < t.len() && 0 <= j < t.len() && i != j implies (#[trigger] t[i]).0
        != (#[trigger] t[j]).0 by {
        if i < j {
            lemma_ids_increase(t, i, j);
        } else {
            lemma_ids_increase(t, j, i);
        }
    }
}

} // verus!
