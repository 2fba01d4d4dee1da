use std::collections::HashMap;

use mcu_simulater::fault::scenarios;
use mcu_simulater::fault::{step_script, FaultAction, FaultScript};
use mcu_simulater::timing::VIRTUAL_INSNS_PER_SEC;

/// The retired count at a time in seconds.
fn at(sec: f64) -> u64 {
    (sec * VIRTUAL_INSNS_PER_SEC as f64) as u64
}

#[test]
fn script_triggers_at_time() {
    let mut s = FaultScript::new("t");
    s = s
        .at(at(1.0), FaultAction::Log { msg: "a".into() })
        .at(at(2.0), FaultAction::Log { msg: "b".into() });
    let mut drop = HashMap::new();
    assert!(step_script(&mut s, at(0.5), &mut drop).is_empty());
    let fired = step_script(&mut s, at(1.5), &mut drop);
    assert_eq!(fired.len(), 1);
    let fired = step_script(&mut s, at(2.5), &mut drop);
    assert_eq!(fired.len(), 1);
    assert_eq!(s.fired_count(), 2);
    assert!(s.all_fired());
}

#[test]
fn uart_drop_side_effect_applied() {
    let mut s = FaultScript::new("drop");
    s = s.at(at(0.5), FaultAction::UartDrop { port: 2, frames: 3 });
    let mut drop = HashMap::new();
    step_script(&mut s, at(0.5), &mut drop);
    assert_eq!(drop.get(&2), Some(&3));
    s = s.at(at(1.0), FaultAction::UartResume { port: 2 });
    step_script(&mut s, at(1.0), &mut drop);
    assert!(!drop.contains_key(&2));
}

#[test]
fn rearm_resets_fired() {
    let mut s = FaultScript::new("r");
    s = s.at(at(0.1), FaultAction::Halt);
    let mut drop = HashMap::new();
    step_script(&mut s, at(0.2), &mut drop);
    assert!(s.all_fired());
    s.rearm();
    assert!(!s.all_fired());
    assert_eq!(s.fired_count(), 0);
}

#[test]
fn scenario_builders() {
    let p = scenarios::i2c_sensor_nack_periodic("p", 1, 0x76, at(2.0), at(5.0), at(1.0), 3);
    assert_eq!(p.events().len(), 6);
    assert!(scenarios::gps_loss(at(10.0)).events().len() >= 1);
    assert!(scenarios::rc_loss(at(10.0)).events().len() >= 1);
    assert!(scenarios::i2c_sensor_loss("l", 1, 0x76, at(3.0)).events().len() >= 1);
}

#[test]
fn periodic_loss_goes_on_and_off() {
    let p = scenarios::i2c_sensor_nack_periodic("p", 1, 0x76, 20, 50, 10, 2);
    let e = p.events();
    assert_eq!(e[0].at, 20);
    assert_eq!(e[1].at, 30);
    assert_eq!(e[2].at, 70);
    assert_eq!(e[3].at, 80);
    assert_eq!(e[0].action, FaultAction::I2cNack { port: 1, addr7: 0x76, on: true });
    assert_eq!(e[1].action, FaultAction::I2cNack { port: 1, addr7: 0x76, on: false });
}

#[test]
fn an_empty_script_has_nothing_to_fire() {
    let mut s = FaultScript::new("e");
    assert!(!s.all_fired());
    assert!(step_script(&mut s, u64::MAX, &mut HashMap::new()).is_empty());
}
