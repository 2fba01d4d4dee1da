use mcu_simulater::peripheral::rng::{
    Rng, CR_IE, CR_RNGEN, OFF_CR, OFF_DR, OFF_SR, RNG_IRQ, SR_CECS, SR_DRDY, SR_SECS,
};
use mcu_simulater::peripheral::Peripheral;
use mcu_simulater::wires::Wires;

fn make() -> (Rng, Wires) {
    (Rng::new(0x1234_5678, RNG_IRQ), Wires::new())
}

#[test]
fn enable_sets_drdy() {
    let (mut r, mut w) = make();
    r.write(&mut w, OFF_CR, 4, CR_RNGEN).unwrap();
    assert_ne!(r.read(&mut w, OFF_SR, 4).unwrap() & SR_DRDY, 0);
}

#[test]
fn read_dr_returns_value_and_regenerates() {
    let (mut r, mut w) = make();
    r.write(&mut w, OFF_CR, 4, CR_RNGEN).unwrap();
    let v1 = r.read(&mut w, OFF_DR, 4).unwrap();
    let v2 = r.read(&mut w, OFF_DR, 4).unwrap();
    assert_ne!(v1, v2);
    assert_ne!(v2, 0);
}

#[test]
fn disable_clears_drdy() {
    let (mut r, mut w) = make();
    r.write(&mut w, OFF_CR, 4, CR_RNGEN).unwrap();
    r.write(&mut w, OFF_CR, 4, 0).unwrap();
    assert_eq!(r.read(&mut w, OFF_SR, 4).unwrap() & SR_DRDY, 0);
}

#[test]
fn inject_clock_error_sets_cecs_and_irq() {
    let (mut r, mut w) = make();
    r.write(&mut w, OFF_CR, 4, CR_RNGEN | CR_IE).unwrap();
    r.inject_clock_error(&mut w, true);
    let sr = r.read(&mut w, OFF_SR, 4).unwrap();
    assert_ne!(sr & SR_CECS, 0);
    assert!(w.nvic.is_pending(RNG_IRQ));
    r.inject_clock_error(&mut w, false);
    assert_eq!(r.read(&mut w, OFF_SR, 4).unwrap() & SR_CECS, 0);
}

#[test]
fn inject_seed_error_sets_secs_and_irq() {
    let (mut r, mut w) = make();
    r.write(&mut w, OFF_CR, 4, CR_RNGEN | CR_IE).unwrap();
    r.inject_seed_error(&mut w, true);
    let sr = r.read(&mut w, OFF_SR, 4).unwrap();
    assert_ne!(sr & SR_SECS, 0);
    assert!(w.nvic.is_pending(RNG_IRQ));
}

#[test]
fn error_blocks_drdy_on_enable() {
    let (mut r, mut w) = make();
    r.inject_seed_error(&mut w, true);
    r.write(&mut w, OFF_CR, 4, CR_RNGEN).unwrap();
    assert_eq!(r.read(&mut w, OFF_SR, 4).unwrap() & SR_DRDY, 0);
}

#[test]
fn same_seed_same_sequence() {
    let (mut a, mut w) = make();
    let (mut b, _) = make();
    a.write(&mut w, OFF_CR, 4, CR_RNGEN).unwrap();
    b.write(&mut w, OFF_CR, 4, CR_RNGEN).unwrap();
    for _ in 0..8 {
        assert_eq!(
            a.read(&mut w, OFF_DR, 4).unwrap(),
            b.read(&mut w, OFF_DR, 4).unwrap());
    }
}

#[test]
fn diff_seed_diff_sequence() {
    let mut w = Wires::new();
    let mut a = Rng::new(0x1111_1111, RNG_IRQ);
    let mut b = Rng::new(0x2222_2222, RNG_IRQ);
    a.write(&mut w, OFF_CR, 4, CR_RNGEN).unwrap();
    b.write(&mut w, OFF_CR, 4, CR_RNGEN).unwrap();
    let va = a.read(&mut w, OFF_DR, 4).unwrap();
    let vb = b.read(&mut w, OFF_DR, 4).unwrap();
    assert_ne!(va, vb);
}

#[test]
fn a_seed_makes_up_for_any_history() {
    let (mut a, mut w) = make();
    let mut b = Rng::new(7, RNG_IRQ);
    a.write(&mut w, OFF_CR, 4, CR_RNGEN).unwrap();
    b.write(&mut w, OFF_CR, 4, CR_RNGEN | CR_IE).unwrap();
    for _ in 0..5 {
        b.read(&mut w, OFF_DR, 4).unwrap();
    }
    a.set_seed(99);
    b.set_seed(99);
    assert_ne!(b.read(&mut w, OFF_SR, 4).unwrap() & SR_DRDY, 0);
    for _ in 0..20 {
        assert_eq!(a.read(&mut w, OFF_DR, 4).unwrap(), b.read(&mut w, OFF_DR, 4).unwrap());
    }
}
