use mcu_simulater::peripheral::dcmi::{
    Dcmi, CR_CAPTURE, CR_CM, CR_ENABLE, DCMI_IRQ, INT_FRAME, INT_LINE, OFF_CR, OFF_DR, OFF_ICR,
    OFF_IER, OFF_MIS, OFF_RIS, OFF_SR, SR_FNE, SR_FRAME, SR_LINE,
};
use mcu_simulater::peripheral::dma::DmaByteIo;
use mcu_simulater::peripheral::Peripheral;
use mcu_simulater::wires::Wires;

fn make() -> (Dcmi, Wires) {
    (Dcmi::new(DCMI_IRQ), Wires::new())
}

fn enable_capture(d: &mut Dcmi, w: &mut Wires) {
    d.write(w, OFF_CR, 4, CR_ENABLE | CR_CAPTURE).unwrap();
}

#[test]
fn feed_requires_enable_and_capture() {
    let (mut d, mut w) = make();
    assert_eq!(d.feed_frame(&mut w, &[1, 2, 3, 4]), 0);
    d.write(&mut w, OFF_CR, 4, CR_ENABLE).unwrap();
    assert_eq!(d.feed_frame(&mut w, &[1, 2, 3, 4]), 0);
    enable_capture(&mut d, &mut w);
    assert_eq!(d.feed_frame(&mut w, &[1, 2, 3, 4]), 1);
}

#[test]
fn feed_sets_fne_and_frame() {
    let (mut d, mut w) = make();
    enable_capture(&mut d, &mut w);
    d.feed_frame(&mut w, &[0x11, 0x22, 0x33, 0x44, 0xAA, 0xBB]);
    assert_eq!(d.feed_frame(&mut w, &[]), 0);
    let sr = d.read(&mut w, OFF_SR, 4).unwrap();
    assert_ne!(sr & SR_FNE, 0);
    assert_ne!(sr & SR_FRAME, 0);
    assert_ne!(sr & SR_LINE, 0);
}

#[test]
fn read_dr_pops_words_and_clears_fne() {
    let (mut d, mut w) = make();
    enable_capture(&mut d, &mut w);
    d.feed_frame(&mut w, &[0x11, 0x22, 0x33, 0x44, 0x55, 0x66, 0x77, 0x88]);
    assert_eq!(d.read(&mut w, OFF_DR, 4).unwrap(), 0x4433_2211);
    assert_ne!(d.read(&mut w, OFF_SR, 4).unwrap() & SR_FNE, 0);
    assert_eq!(d.read(&mut w, OFF_DR, 4).unwrap(), 0x8877_6655);
    assert_eq!(d.read(&mut w, OFF_SR, 4).unwrap() & SR_FNE, 0);
}

#[test]
fn frame_irq_when_ier_enabled() {
    let (mut d, mut w) = make();
    enable_capture(&mut d, &mut w);
    d.feed_frame(&mut w, &[1, 2, 3, 4]);
    assert!(!w.nvic.is_pending(DCMI_IRQ));
    d.write(&mut w, OFF_IER, 4, INT_FRAME).unwrap();
    d.feed_frame(&mut w, &[5, 6, 7, 8]);
    assert!(w.nvic.is_pending(DCMI_IRQ));
}

#[test]
fn icr_clears_ris_and_mis_masks() {
    let (mut d, mut w) = make();
    enable_capture(&mut d, &mut w);
    d.write(&mut w, OFF_IER, 4, INT_FRAME | INT_LINE).unwrap();
    d.feed_frame(&mut w, &[1, 2, 3, 4]);
    let ris = d.read(&mut w, OFF_RIS, 4).unwrap();
    assert_ne!(ris & INT_FRAME, 0);
    let mis = d.read(&mut w, OFF_MIS, 4).unwrap();
    assert_ne!(mis & INT_FRAME, 0);
    assert_eq!(mis & !(INT_FRAME | INT_LINE), 0);
    d.write(&mut w, OFF_ICR, 4, INT_FRAME).unwrap();
    assert_eq!(d.read(&mut w, OFF_RIS, 4).unwrap() & INT_FRAME, 0);
    assert_eq!(d.read(&mut w, OFF_MIS, 4).unwrap() & INT_FRAME, 0);
}

#[test]
fn snapshot_mode_clears_capture() {
    let (mut d, mut w) = make();
    d.write(&mut w, OFF_CR, 4, CR_ENABLE | CR_CAPTURE | CR_CM).unwrap();
    d.feed_frame(&mut w, &[1, 2, 3, 4]);
    assert_eq!(d.read(&mut w, OFF_CR, 4).unwrap() & CR_CAPTURE, 0);
    assert_eq!(d.feed_frame(&mut w, &[1, 2, 3, 4]), 0);
}

#[test]
fn dma_read_dr_drains_fifo() {
    let (mut d, mut w) = make();
    enable_capture(&mut d, &mut w);
    d.feed_frame(&mut w, &[0x11, 0x22, 0x33, 0x44, 0x55, 0x66, 0x77, 0x88]);
    assert_eq!(d.dma_read_dr(&mut w), 0x4433_2211);
    assert_eq!(d.dma_read_dr(&mut w), 0x8877_6655);
    assert_eq!(d.fne(), false);
}
