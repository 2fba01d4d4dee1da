use mcu_simulater::peripheral::calendar::{civil_from_days, days_from_civil};
use mcu_simulater::peripheral::rtc::{
    bcd_pack, bcd_to_u8, Rtc, ISR_INIT, OFF_CR, OFF_DR, OFF_ISR, OFF_PRER, OFF_TR, OFF_WPR,
};
use mcu_simulater::peripheral::Peripheral;
use mcu_simulater::wires::Wires;

const ISR_INITS: u32 = 1 << 4;

/// A clock in initialisation mode.
fn in_init() -> (Rtc, Wires) {
    let mut r = Rtc::new();
    let mut w = Wires::new();
    r.write(&mut w, OFF_WPR, 4, 0xCA).unwrap();
    r.write(&mut w, OFF_WPR, 4, 0x53).unwrap();
    r.write(&mut w, OFF_ISR, 4, ISR_INIT).unwrap();
    assert!(!r.active());
    (r, w)
}

#[test]
fn civil_roundtrip() {
    for (y, m, d) in [(2000, 1, 1), (2021, 1, 1), (2023, 6, 1), (2024, 2, 29), (2099, 12, 31)] {
        let days = days_from_civil(y, m, d);
        assert_eq!(civil_from_days(days), (y, m, d));
    }
}

#[test]
fn weekday_known() {
    let r = Rtc::new();
    assert_eq!(r.ymd(), (2021, 1, 1, 5));
}

#[test]
fn bcd_helpers() {
    assert_eq!(bcd_pack(59), 0x59);
    assert_eq!(bcd_to_u8(0x59), 59);
    assert_eq!(bcd_to_u8(0x0F), 15);
}

#[test]
fn a_clock_set_up_without_a_date_runs() {
    let (mut r, mut w) = in_init();
    r.write(&mut w, OFF_TR, 4, 0x12_34_56).unwrap();
    r.write(&mut w, OFF_ISR, 4, 0).unwrap();
    assert!(r.active());
    assert_eq!(r.read(&mut w, OFF_ISR, 4).unwrap() & ISR_INITS, 0);
    r.tick(&mut w, 128 * 256);
    assert_eq!(r.read(&mut w, OFF_TR, 4).unwrap(), 0x12_34_57);
    r.reset(&mut w);
    assert!(!r.active());
}

#[test]
fn a_clock_with_new_prescalers_runs() {
    let (mut r, mut w) = in_init();
    r.write(&mut w, OFF_PRER, 4, 9).unwrap();
    r.write(&mut w, OFF_ISR, 4, 0).unwrap();
    assert!(r.active());
    r.tick(&mut w, 25);
    assert_eq!(r.read(&mut w, OFF_TR, 4).unwrap(), 0x00_00_02);
    r.write(&mut w, OFF_CR, 4, 0).unwrap();
    r.write(&mut w, OFF_ISR, 4, ISR_INIT).unwrap();
    assert!(r.active());
}

#[test]
fn the_first_date_is_noted() {
    let (mut r, mut w) = in_init();
    r.write(&mut w, OFF_DR, 4, 0x24 << 16 | 0x02 << 8 | 0x29).unwrap();
    assert_ne!(r.read(&mut w, OFF_ISR, 4).unwrap() & ISR_INITS, 0);
    r.write(&mut w, OFF_ISR, 4, 0).unwrap();
    assert_ne!(r.read(&mut w, OFF_ISR, 4).unwrap() & ISR_INITS, 0);
    assert!(r.active());
}
