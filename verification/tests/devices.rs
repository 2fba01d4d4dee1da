//! The bus, the event bus, and the devices that no other file is about.
use mcu_simulater::bus::Bus;
use mcu_simulater::device::Device;
use mcu_simulater::events::{Event, EventBus};
use mcu_simulater::machine::layout::make_device;
use mcu_simulater::peripheral::dac::{
    Dac, CR_EN1, CR_EN2, CR_TEN1, CR_TEN2, OFF_CR as DAC_CR, OFF_DHR12R1, OFF_DHR12R2, OFF_DOR1,
    OFF_SWTRIGR, SWTRIG1,
};
use mcu_simulater::peripheral::dwt::{Dwt, CYCCNTENA, OFF_CTRL, OFF_CYCCNT};
use mcu_simulater::peripheral::flash::{sr_bsy, Flash, OFF_SR};
use mcu_simulater::peripheral::mpu::MPU_CTRL_OFF;
use mcu_simulater::peripheral::rtc::{Rtc, ISR_INIT, OFF_DR, OFF_ISR, OFF_TR, OFF_WPR};
use mcu_simulater::peripheral::scb::{
    SystemControl, SYST_COUNTFLAG, SYST_CTRL_OFF, SYST_LOAD_OFF, SYST_VAL_OFF,
};
use mcu_simulater::peripheral::{BusError, Peripheral};
use mcu_simulater::timing::{TimerPace, VirtualClock};
use mcu_simulater::wires::Wires;

#[test]
fn regions_that_overlap_are_refused() {
    let mut bus: Bus<Device> = Bus::new();
    let mut w = Wires::new();
    assert!(bus.attach(0x1000, 0x100, "a".to_string(), make_device(2)).is_ok());
    assert!(matches!(
        bus.attach(0x10FF, 0x10, "b".to_string(), make_device(2)),
        Err(BusError::Overlap)
    ));
    assert!(bus.attach(0x1100, 0x100, "b".to_string(), make_device(3)).is_ok());
    assert_eq!(bus.place_of(0x1104), Some((1, 4)));
    assert_eq!(bus.place_of(0x1200), None);
    assert!(matches!(bus.read(&mut w, 0x1200, 4), Err(BusError::Unmapped(0x1200))));
    assert!(bus.write(&mut w, 0x1030, 4, 7).is_ok());
    assert_eq!(bus.read(&mut w, 0x1030, 4).unwrap(), 7);
    bus.reset(&mut w);
    assert_eq!(bus.regions().len(), 2);
}

#[test]
fn every_subscriber_hears_every_event_once() {
    let mut e = EventBus::new();
    let a = e.subscribe();
    e.publish(Event::TimUpdate { port: 1 });
    let b = e.subscribe();
    e.publish(Event::TimUpdate { port: 2 });
    assert_eq!(e.subscriber_count(), 2);
    assert_eq!(e.peek(a), Some(&Event::TimUpdate { port: 1 }));
    assert_eq!(e.nth(a, 1), Some(&Event::TimUpdate { port: 2 }));
    assert_eq!(e.peek(b), Some(&Event::TimUpdate { port: 2 }));
    e.advance(a);
    assert_eq!(e.peek(a), Some(&Event::TimUpdate { port: 2 }));
    e.forget_read();
    assert_eq!(e.nth(b, 0), Some(&Event::TimUpdate { port: 2 }));
    e.catch_up(a);
    e.catch_up(b);
    assert_eq!(e.peek(a), None);
    e.forget_read();
    e.publish(Event::Other("x".to_string()));
    assert_eq!(e.peek(b), Some(&Event::Other("x".to_string())));
}

#[test]
fn the_cycle_counter_counts_while_it_is_on() {
    let mut d = Dwt::new();
    let mut w = Wires::new();
    d.tick(&mut w, 5);
    assert_eq!(d.read(&mut w, OFF_CYCCNT, 4).unwrap(), 0);
    d.write(&mut w, OFF_CTRL, 4, CYCCNTENA).unwrap();
    assert!(d.active());
    d.tick(&mut w, 0x1_0000_0007);
    assert_eq!(d.read(&mut w, OFF_CYCCNT, 4).unwrap(), 7);
}

#[test]
fn the_system_timer_reloads() {
    let mut s = SystemControl::new_with_mpu_nvic(0x1000);
    let mut w = Wires::new();
    s.write(&mut w, SYST_LOAD_OFF, 4, 9).unwrap();
    s.write(&mut w, SYST_VAL_OFF, 4, 0).unwrap();
    s.write(&mut w, SYST_CTRL_OFF, 4, 3).unwrap();
    s.tick(&mut w, 10);
    assert!(w.nvic.is_sys_pending(15));
    assert_ne!(s.read(&mut w, SYST_CTRL_OFF, 4).unwrap() & SYST_COUNTFLAG, 0);
    assert_eq!(s.read(&mut w, SYST_CTRL_OFF, 4).unwrap() & SYST_COUNTFLAG, 0);
}

#[test]
fn the_converter_shows_what_it_holds() {
    let mut d = Dac::new(1);
    let mut w = Wires::new();
    let id = w.events.subscribe();
    d.write(&mut w, DAC_CR, 4, CR_EN1 | CR_TEN1 | 7 << 3).unwrap();
    assert!(d.active());
    d.write(&mut w, OFF_DHR12R1, 4, 0x7FF).unwrap();
    assert_eq!(d.read(&mut w, OFF_DOR1, 4).unwrap(), 0);
    d.write(&mut w, OFF_SWTRIGR, 4, SWTRIG1).unwrap();
    assert_eq!(d.read(&mut w, OFF_DOR1, 4).unwrap(), 0x7FF);
    assert!(matches!(
        w.events.peek(id),
        Some(Event::DacLevel { port: 1, level: 0x7FF, .. })
    ));
}

#[test]
fn the_flash_is_never_busy() {
    let mut f = Flash::new();
    let mut w = Wires::new();
    assert_eq!(f.read(&mut w, OFF_SR, 4).unwrap() & sr_bsy(), 0);
    assert_eq!(f.sr() & sr_bsy(), 0);
}

#[test]
fn the_clock_is_set_behind_its_keys() {
    let mut r = Rtc::new();
    let mut w = Wires::new();
    w.backup_writable = true;
    r.write(&mut w, OFF_WPR, 4, 0xCA).unwrap();
    r.write(&mut w, OFF_WPR, 4, 0x53).unwrap();
    r.write(&mut w, OFF_ISR, 4, ISR_INIT).unwrap();
    r.write(&mut w, OFF_TR, 4, 0x23_59_58).unwrap();
    let date = 0x24 << 16 | 4 << 13 | 0x02 << 8 | 0x29;
    assert!(r.takes_write(OFF_DR, 4, date));
    r.write(&mut w, OFF_DR, 4, date).unwrap();
    assert_eq!(r.hms(), (58, 59, 23));
    assert_eq!(r.ymd(), (2024, 2, 29, 4));
    assert_eq!(r.read(&mut w, OFF_TR, 4).unwrap(), 0x23_59_58);
    assert_eq!(r.read(&mut w, OFF_DR, 4).unwrap(), date);
}

#[test]
fn timers_get_their_share_of_the_code() {
    let mut p = TimerPace::new();
    assert_eq!(p.take(239), 210);
    let mut p = TimerPace::new();
    let total: u64 = (0..239).map(|_| p.take(1)).sum();
    assert_eq!(total, 210);
    let mut c = VirtualClock::new();
    c.advance(7);
    assert_eq!(c.cycles, 7);
}

#[test]
fn the_system_block_hands_on_its_windows() {
    let mut w = Wires::new();
    let mut s = SystemControl::new_with_mpu(0x1000);
    s.write(&mut w, MPU_CTRL_OFF, 4, 1).unwrap();
    assert!(w.mpu.enabled());
    s.write(&mut w, 0x100, 4, 1 << 5).unwrap();
    assert!(!w.nvic.is_enabled(5));
    let mut s = SystemControl::new_with_mpu_nvic(0x1000);
    s.write(&mut w, 0x100, 4, 1 << 5).unwrap();
    assert!(w.nvic.is_enabled(5));
}

#[test]
fn levels_of_a_timer_come_with_the_tick() {
    let mut d = Dac::new(1);
    let mut w = Wires::new();
    let id = w.events.subscribe();
    // Both channels listen to timer 6.
    d.write(&mut w, DAC_CR, 4, CR_EN1 | CR_TEN1 | CR_EN2 | CR_TEN2).unwrap();
    d.write(&mut w, OFF_DHR12R1, 4, 0x123).unwrap();
    d.write(&mut w, OFF_DHR12R2, 4, 0x456).unwrap();
    assert_eq!(d.timer_trigger(8), 0);
    assert_eq!(d.timer_trigger(6), 3);
    assert_eq!(d.read(&mut w, OFF_DOR1, 4).unwrap(), 0x123);
    assert_eq!(w.events.peek(id), None);
    d.tick(&mut w, 1);
    assert_eq!(w.events.nth(id, 0), Some(&Event::DacLevel { port: 1, channel: 1, level: 0x123 }));
    assert_eq!(w.events.nth(id, 1), Some(&Event::DacLevel { port: 1, channel: 2, level: 0x456 }));
    assert_eq!(w.events.nth(id, 2), None);
    d.tick(&mut w, 1);
    assert_eq!(w.events.nth(id, 2), None);
}
