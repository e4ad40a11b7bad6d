use sm64js_core::flag::{Flag, Position, DROP_LIFT, FALL_FLOOR, FALL_STEP, IDLE_LIMIT};
use sm64js_core::room::Room;

fn p(x: i64, y: i64, z: i64) -> Position {
    Position::new(x, y, z)
}

#[test]
fn new_flag_rests_at_start() {
    let f = Flag::new(p(1_000, 2_000, 3_000));
    assert!(f.is_at_start());
    assert_eq!(f.carrier(), None);
    assert!(!f.is_fall_mode());
    assert_eq!(f.pos(), p(1_000, 2_000, 3_000));
    assert_eq!(f.get_msg().height_before_fall, 20_000_000);
}

#[test]
fn grab_radius_is_strict() {
    let mut f = Flag::new(p(0, 0, 0));
    assert!(!f.grab(p(50_000, 0, 0), 7));
    assert_eq!(f.carrier(), None);
    assert!(f.grab(p(49_999, 0, 0), 7));
    assert_eq!(f.carrier(), Some(7));
    assert!(!f.is_at_start());
    assert_eq!(f.idle_ticks(), 0);
}

#[test]
fn grab_of_carried_flag_fails() {
    let mut f = Flag::new(p(0, 0, 0));
    assert!(f.grab(p(0, 0, 0), 1));
    assert!(!f.grab(p(0, 0, 0), 2));
    assert_eq!(f.carrier(), Some(1));
}

#[test]
fn attack_drops_only_for_the_carrier() {
    let mut f = Flag::new(p(0, 0, 0));
    assert!(f.grab(p(0, 0, 0), 1));
    assert!(!f.attack(p(100_000, 5_000, 0), 2, 0, 0));
    assert_eq!(f.carrier(), Some(1));
    assert!(f.attack(p(100_000, 5_000, 0), 1, 250_000, -250_000));
    assert_eq!(f.carrier(), None);
    assert!(f.is_fall_mode());
    assert_eq!(f.pos(), p(350_000, 5_000 + DROP_LIFT, -250_000));
    assert_eq!(f.height_before_fall(), 5_000 + DROP_LIFT);
}

#[test]
fn idle_reset_fires_on_tick_3001() {
    let mut f = Flag::new(p(10_000, 20_000, 30_000));
    assert!(f.grab(p(10_000, 0, 30_000), 3));
    f.drop_at(p(0, 0, 0), 0, 0);
    for _ in 0..IDLE_LIMIT {
        f.process_idle();
    }
    assert_eq!(f.idle_ticks(), 3000);
    assert!(!f.is_at_start());
    f.process_idle();
    assert!(f.is_at_start());
    assert_eq!(f.idle_ticks(), 0);
    assert!(!f.is_fall_mode());
    assert_eq!(f.pos(), p(10_000, 20_000, 30_000));
}

#[test]
fn resting_flag_does_not_count_idle_ticks() {
    let mut f = Flag::new(p(0, 0, 0));
    for _ in 0..5000 {
        f.tick();
    }
    assert!(f.is_at_start());
    assert_eq!(f.idle_ticks(), 0);
}

#[test]
fn fall_halts_at_floor() {
    let mut f = Flag::new(p(0, 0, 0));
    assert!(f.grab(p(0, 0, 0), 1));
    f.drop_at(p(0, FALL_FLOOR + 1_000 - DROP_LIFT, 0), 0, 0);
    assert_eq!(f.pos().y, FALL_FLOOR + 1_000);
    f.process_falling();
    assert_eq!(f.pos().y, FALL_FLOOR + 1_000 - FALL_STEP);
    f.process_falling();
    assert_eq!(f.pos().y, FALL_FLOOR + 1_000 - FALL_STEP);
}

#[test]
fn falling_flag_drops_two_units_per_tick() {
    let mut f = Flag::new(p(0, 0, 0));
    assert!(f.grab(p(0, 0, 0), 1));
    f.drop_at(p(0, 0, 0), 0, 0);
    f.process_falling();
    assert_eq!(f.pos().y, DROP_LIFT - 2_000);
}

#[test]
fn random_drop_stays_in_scatter_range() {
    let mut f = Flag::new(p(0, 0, 0));
    assert!(f.grab(p(0, 0, 0), 1));
    f.drop(p(1_000_000, 0, -1_000_000));
    let q = f.pos();
    assert!(q.x >= 500_000 && q.x <= 1_500_000);
    assert!(q.z >= -1_500_000 && q.z <= -500_000);
    assert_eq!(q.y, DROP_LIFT);
}

#[test]
fn room_table_matches_levels() {
    let rooms = Room::init_rooms();
    assert_eq!(rooms.len(), 22);
    let battlefield = rooms.iter().find(|r| r.get_id() == 1000).unwrap();
    assert_eq!(battlefield.name, "Mushroom Battlefield");
    assert_eq!(battlefield.flag_count(), 4);
    assert_eq!(battlefield.flag(0).pos(), p(9_380_000, 7_657_000, -8_980_000));
    let courtyard = rooms.iter().find(|r| r.get_id() == 26).unwrap();
    assert_eq!(courtyard.flag_count(), 0);
}

#[test]
fn position_bounds() {
    assert!(p(0, 0, 0).is_valid());
    assert!(!p(1_000_000_000_001, 0, 0).is_valid());
}
