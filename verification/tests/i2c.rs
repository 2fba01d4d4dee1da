use mcu_simulater::events::Event;
use mcu_simulater::peripheral::dma::DmaDir;
use mcu_simulater::peripheral::i2c::{
    I2c, CR1_PE, CR2_DMAEN, CR2_ITBUF_ITEVT, I2C1_EV_IRQ, OFF_CR1, OFF_CR2, OFF_DR, OFF_SR1,
    SR1_OVR, SR1_RXNE, SR1_TXE,
};
use mcu_simulater::peripheral::Peripheral;
use mcu_simulater::wires::Wires;

fn i2c() -> (I2c, Wires) {
    (I2c::new(1, I2C1_EV_IRQ), Wires::new())
}

fn bytes(w: &Wires, id: usize) -> Vec<Event> {
    let mut out = Vec::new();
    let mut k = 0;
    while let Some(ev) = w.events.nth(id, k) {
        if let Event::I2cByte { .. } = ev {
            out.push(ev.clone());
        }
        k += 1;
    }
    out
}

fn dmas(w: &Wires, id: usize) -> Vec<Event> {
    let mut out = Vec::new();
    let mut k = 0;
    while let Some(ev) = w.events.nth(id, k) {
        if let Event::I2cDma { .. } = ev {
            out.push(ev.clone());
        }
        k += 1;
    }
    out
}

#[test]
fn tx_publishes_i2c_byte_events() {
    let (mut i, mut w) = i2c();
    let id = w.events.subscribe();
    i.write(&mut w, OFF_DR, 4, 0x41).unwrap();
    assert_eq!(bytes(&w, id).len(), 0);
    i.write(&mut w, OFF_CR1, 4, CR1_PE).unwrap();
    assert!(i.tx_ready());
    i.write(&mut w, OFF_DR, 4, 0x41).unwrap();
    i.write(&mut w, OFF_DR, 4, 0x42).unwrap();

    let got = bytes(&w, id);
    assert_eq!(got.len(), 2);
    assert_eq!(got[0], Event::I2cByte { port: 1, byte: 0x41 });
    assert_eq!(got[1], Event::I2cByte { port: 1, byte: 0x42 });
}

#[test]
fn rx_feed_sets_rxne_and_pends_ev_irq() {
    let (mut i, mut w) = i2c();
    i.feed_rx(&mut w, 0x11);
    assert_eq!(i.read(&mut w, OFF_SR1, 4).unwrap() & SR1_RXNE, 0);
    i.write(&mut w, OFF_CR1, 4, CR1_PE).unwrap();
    i.write(&mut w, OFF_CR2, 4, CR2_ITBUF_ITEVT).unwrap();
    i.feed_rx(&mut w, 0xAA);
    assert_ne!(i.read(&mut w, OFF_SR1, 4).unwrap() & SR1_RXNE, 0);
    assert!(w.nvic.is_pending(I2C1_EV_IRQ));
    assert_eq!(i.read(&mut w, OFF_DR, 4).unwrap(), 0xAA);
    assert_eq!(i.read(&mut w, OFF_SR1, 4).unwrap() & SR1_RXNE, 0);
}

#[test]
fn sr1_rc_w0_clears_ovr_but_not_txe() {
    let (mut i, mut w) = i2c();
    i.write(&mut w, OFF_CR1, 4, CR1_PE).unwrap();
    i.feed_rx(&mut w, 0x01);
    i.feed_rx(&mut w, 0x02);
    assert_ne!(i.read(&mut w, OFF_SR1, 4).unwrap() & SR1_OVR, 0);
    i.write(&mut w, OFF_SR1, 4, !0u32).unwrap();
    assert_ne!(i.read(&mut w, OFF_SR1, 4).unwrap() & SR1_OVR, 0);
    i.write(&mut w, OFF_SR1, 4, 0u32).unwrap();
    assert_eq!(i.read(&mut w, OFF_SR1, 4).unwrap() & SR1_OVR, 0);
    assert_ne!(i.read(&mut w, OFF_SR1, 4).unwrap() & SR1_TXE, 0);
    i.write(&mut w, OFF_SR1, 4, 0u32).unwrap();
    assert_ne!(i.read(&mut w, OFF_SR1, 4).unwrap() & SR1_TXE, 0);
}

#[test]
fn dmaen_write_publishes_tx_dma_request() {
    let (mut i, mut w) = i2c();
    let id = w.events.subscribe();
    i.write(&mut w, OFF_CR1, 4, CR1_PE).unwrap();
    i.write(&mut w, OFF_CR2, 4, CR2_DMAEN).unwrap();

    let got = dmas(&w, id);
    assert_eq!(got.len(), 1);
    assert_eq!(
        got[0],
        Event::I2cDma {
            port: 1,
            dir: DmaDir::MemToPeriph,
        });
}

#[test]
fn i2c_dma_read_write_dr_roundtrip() {
    let (mut i, mut w) = i2c();
    let id = w.events.subscribe();

    i.write(&mut w, OFF_CR1, 4, CR1_PE).unwrap();
    i.feed_rx(&mut w, 0x55);
    assert!(!i.dma_rx_pending());
    i.write(&mut w, OFF_CR2, 4, CR2_DMAEN).unwrap();
    assert!(i.dma_rx_pending());
    assert_eq!(i.dma_read_dr(), 0x55);
    assert!(!i.dma_rx_pending());

    i.dma_write_dr(&mut w, 0x77);
    assert_eq!(bytes(&w, id).len(), 1);
}
