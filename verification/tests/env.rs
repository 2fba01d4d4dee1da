use mcu_simulater::env::{Noise, SensorEvent, SensorFault, SensorPlan};
use mcu_simulater::timing::{Turn, TurnWatch, MAX_POLLS};

fn plan(events: &[(u64, SensorFault)]) -> SensorPlan {
    SensorPlan::new(events.iter().map(|(at, fault)| SensorEvent { at: *at, fault: *fault }).collect())
}

#[test]
fn events_strike_once_at_their_time() {
    let mut p = plan(&[
        (1000, SensorFault::ImuFreeze),
        (2000, SensorFault::BaroStep),
        (2000, SensorFault::MagDisturb),
        (9000, SensorFault::GpsJump),
    ]);
    p.advance(999);
    assert!(!p.condition().imu_frozen);
    p.advance(1);
    assert!(p.condition().imu_frozen);
    assert_eq!(p.baro_step(), None);
    p.advance(1500);
    assert_eq!(p.baro_step(), Some(1));
    assert_eq!(p.condition().mag_disturb, Some(2));
    assert_eq!(p.gps_jump(), None);
    p.advance(10_000);
    assert_eq!(p.gps_jump(), Some(3));
    assert_eq!(p.time(), 12_500);
}

#[test]
fn a_lost_fix_comes_back() {
    let mut p = plan(&[(100, SensorFault::GpsDrop { dur: 50 })]);
    assert!(p.gps_fix());
    p.advance(110);
    assert!(!p.gps_fix());
    p.advance(49);
    assert!(!p.gps_fix());
    p.advance(1);
    assert!(p.gps_fix());
}

#[test]
fn a_lost_remote_control_overrules_stuck_channels() {
    let mut p = plan(&[
        (10, SensorFault::RcStuck { ch: 4, raw: 2000, dur: 100 }),
        (20, SensorFault::RcDrop { dur: 10 }),
    ]);
    let rest = p.rc_channels(7);
    assert_eq!(rest[3], 1557);
    assert_eq!(rest[4], 1500);
    p.advance(10);
    assert_eq!(p.rc_channels(0)[4], 2000);
    p.advance(10);
    assert_eq!(p.rc_channels(7), [1500; 16]);
    p.advance(10);
    assert_eq!(p.rc_channels(0)[4], 2000);
    p.advance(80);
    assert_eq!(p.rc_channels(0)[4], 1500);
}

#[test]
fn time_does_not_run_over() {
    let p = plan(&[(0, SensorFault::RcDrop { dur: 5 })]);
    assert!(p.has_room(u64::MAX - 5));
    assert!(!p.has_room(u64::MAX - 4));
}

#[test]
fn noise_is_the_same_every_time() {
    let mut a = Noise::new();
    let x = 0x9E37_79B9_7F4A_7C15u64;
    let mut y = x ^ (x << 13);
    y ^= y >> 7;
    y ^= y << 17;
    assert_eq!(a.next_bits(), y >> 40);
    assert_eq!(a.state, y);
    assert!(a.next_bits() < 1 << 24);
}

#[test]
fn a_turn_is_complete_when_the_count_moves() {
    let mut t = TurnWatch::new(7, 100);
    assert_eq!(t.look(7, 102), Turn::Unfinished);
    assert_eq!(t.look(8, 104), Turn::Complete(4));
    let mut t = TurnWatch::new(u32::MAX, 100);
    assert_eq!(t.look(0, 90), Turn::Complete(0));
    let mut t = TurnWatch::new(7, 0);
    for _ in 1..MAX_POLLS {
        assert_eq!(t.look(7, 1), Turn::Unfinished);
    }
    assert_eq!(t.look(7, 1), Turn::Stuck);
}
