use mcu_simulater::peripheral::adc::{
    Adc, ADC_IRQ, CR1_EOCIE, CR2_ADON, CR2_DMA, OFF_CR1, OFF_CR2, OFF_DR, OFF_SR, SR_EOC,
};
use mcu_simulater::peripheral::Peripheral;
use mcu_simulater::wires::Wires;

fn adc() -> (Adc, Wires) {
    (Adc::new(1, ADC_IRQ), Wires::new())
}

#[test]
fn feed_value_sets_eoc_and_dr() {
    let (mut a, mut w) = adc();
    a.feed_value(&mut w, 0x123);
    assert_eq!(a.read(&mut w, OFF_SR, 4).unwrap() & SR_EOC, 0);
    a.write(&mut w, OFF_CR2, 4, CR2_ADON).unwrap();
    a.feed_value(&mut w, 0x123);
    assert_ne!(a.read(&mut w, OFF_SR, 4).unwrap() & SR_EOC, 0);
    assert_eq!(a.dma_read_dr(), 0x123);
    assert_eq!(a.read(&mut w, OFF_SR, 4).unwrap() & SR_EOC, 0);
}

#[test]
fn dma_pending_requires_cr2_dma() {
    let (mut a, mut w) = adc();
    a.write(&mut w, OFF_CR2, 4, CR2_ADON).unwrap();
    a.feed_value(&mut w, 0x111);
    assert!(!a.dma_pending());
    a.write(&mut w, OFF_CR2, 4, CR2_ADON | CR2_DMA).unwrap();
    a.feed_value(&mut w, 0x222);
    assert!(a.dma_pending());
}

#[test]
fn eocie_sets_pending_irq() {
    let (mut a, mut w) = adc();
    a.write(&mut w, OFF_CR1, 4, CR1_EOCIE).unwrap();
    a.write(&mut w, OFF_CR2, 4, CR2_ADON).unwrap();
    a.feed_value(&mut w, 0x400);
    assert!(w.nvic.is_pending(ADC_IRQ));
}

#[test]
fn read_dr_clears_eoc() {
    let (mut a, mut w) = adc();
    a.write(&mut w, OFF_CR2, 4, CR2_ADON).unwrap();
    a.feed_value(&mut w, 0x345);
    let v = a.read(&mut w, OFF_DR, 4).unwrap();
    assert_eq!(v, 0x345);
    assert_eq!(a.read(&mut w, OFF_SR, 4).unwrap() & SR_EOC, 0);
}

#[test]
fn sr_write_zero_clears_eoc() {
    let (mut a, mut w) = adc();
    a.write(&mut w, OFF_CR2, 4, CR2_ADON).unwrap();
    a.feed_value(&mut w, 0x100);
    assert_ne!(a.read(&mut w, OFF_SR, 4).unwrap() & SR_EOC, 0);
    a.write(&mut w, OFF_SR, 4, 0).unwrap();
    assert_eq!(a.read(&mut w, OFF_SR, 4).unwrap() & SR_EOC, 0);
}
