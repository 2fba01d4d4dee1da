use mcu_simulater::events::Event;
use mcu_simulater::peripheral::dma::DmaDir;
use mcu_simulater::peripheral::spi::{
    Spi, CR1_SPE, CR2_RXDMAEN, CR2_RXNEIE, CR2_TXDMAEN, CR2_TXEIE, OFF_CR1, OFF_CR2, OFF_DR,
    OFF_SR, SPI1_IRQ, SR_OVR, SR_RXNE, SR_TXE,
};
use mcu_simulater::peripheral::Peripheral;
use mcu_simulater::wires::Wires;

fn spi() -> (Spi, Wires) {
    (Spi::new(1, SPI1_IRQ), Wires::new())
}

fn bytes(w: &Wires, id: usize) -> Vec<Event> {
    let mut out = Vec::new();
    let mut k = 0;
    while let Some(ev) = w.events.nth(id, k) {
        if let Event::SpiByte { .. } = ev {
            out.push(ev.clone());
        }
        k += 1;
    }
    out
}

fn dmas(w: &Wires, id: usize) -> Vec<Event> {
    let mut out = Vec::new();
    let mut k = 0;
    while let Some(ev) = w.events.nth(id, k) {
        if let Event::SpiDma { .. } = ev {
            out.push(ev.clone());
        }
        k += 1;
    }
    out
}

#[test]
fn tx_publishes_spi_byte_events() {
    let (mut s, mut w) = spi();
    let id = w.events.subscribe();
    s.write(&mut w, OFF_DR, 4, 0x41).unwrap();
    assert_eq!(bytes(&w, id).len(), 0);
    s.write(&mut w, OFF_CR1, 4, CR1_SPE).unwrap();
    assert!(s.tx_ready());
    s.write(&mut w, OFF_DR, 4, 0x41).unwrap();
    s.write(&mut w, OFF_DR, 4, 0x42).unwrap();

    let got = bytes(&w, id);
    assert_eq!(got.len(), 2);
    assert_eq!(got[0], Event::SpiByte { port: 1, byte: 0x41 });
    assert_eq!(got[1], Event::SpiByte { port: 1, byte: 0x42 });
}

#[test]
fn rx_feed_sets_rxne_and_pends_irq() {
    let (mut s, mut w) = spi();
    s.feed_rx(&mut w, 0x11);
    assert_eq!(s.read(&mut w, OFF_SR, 4).unwrap() & SR_RXNE, 0);
    s.write(&mut w, OFF_CR1, 4, CR1_SPE).unwrap();
    s.write(&mut w, OFF_CR2, 4, CR2_RXNEIE).unwrap();
    s.feed_rx(&mut w, 0xAA);
    assert_ne!(s.read(&mut w, OFF_SR, 4).unwrap() & SR_RXNE, 0);
    assert!(w.nvic.is_pending(SPI1_IRQ));
    assert_eq!(s.read(&mut w, OFF_DR, 4).unwrap(), 0xAA);
    assert_eq!(s.read(&mut w, OFF_SR, 4).unwrap() & SR_RXNE, 0);
}

#[test]
fn tx_when_txeie_pends_irq() {
    let (mut s, mut w) = spi();
    s.write(&mut w, OFF_CR1, 4, CR1_SPE).unwrap();
    s.write(&mut w, OFF_CR2, 4, CR2_TXEIE).unwrap();
    assert!(w.nvic.is_pending(SPI1_IRQ));
}

#[test]
fn sr_rc_w0_clears_ovr_but_not_txe() {
    let (mut s, mut w) = spi();
    s.write(&mut w, OFF_CR1, 4, CR1_SPE).unwrap();
    s.feed_rx(&mut w, 0x01);
    s.feed_rx(&mut w, 0x02);
    assert_ne!(s.read(&mut w, OFF_SR, 4).unwrap() & SR_OVR, 0);
    s.write(&mut w, OFF_SR, 4, !0u32).unwrap();
    assert_ne!(s.read(&mut w, OFF_SR, 4).unwrap() & SR_OVR, 0);
    s.write(&mut w, OFF_SR, 4, 0u32).unwrap();
    assert_eq!(s.read(&mut w, OFF_SR, 4).unwrap() & SR_OVR, 0);
    assert_ne!(s.read(&mut w, OFF_SR, 4).unwrap() & SR_TXE, 0);
    s.write(&mut w, OFF_SR, 4, 0u32).unwrap();
    assert_ne!(s.read(&mut w, OFF_SR, 4).unwrap() & SR_TXE, 0);
}

#[test]
fn txdmaen_write_publishes_tx_dma_request() {
    let (mut s, mut w) = spi();
    let id = w.events.subscribe();
    s.write(&mut w, OFF_CR1, 4, CR1_SPE).unwrap();
    s.write(&mut w, OFF_CR2, 4, CR2_TXDMAEN).unwrap();

    let got = dmas(&w, id);
    assert_eq!(got.len(), 1);
    assert_eq!(
        got[0],
        Event::SpiDma {
            port: 1,
            dir: DmaDir::MemToPeriph,
        });
}

#[test]
fn spi_dma_read_write_dr_roundtrip() {
    let (mut s, mut w) = spi();
    let id = w.events.subscribe();

    s.write(&mut w, OFF_CR1, 4, CR1_SPE).unwrap();
    s.feed_rx(&mut w, 0x55);
    assert!(!s.dma_rx_pending());
    s.write(&mut w, OFF_CR2, 4, CR2_RXDMAEN).unwrap();
    assert!(s.dma_rx_pending());
    assert_eq!(s.dma_read_dr(), 0x55);
    assert!(!s.dma_rx_pending());

    s.dma_write_dr(&mut w, 0x77);
    assert_eq!(bytes(&w, id).len(), 1);
}
