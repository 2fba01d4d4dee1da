use mcu_simulater::events::Event;
use mcu_simulater::peripheral::can::{
    Can, CanFrame, CAN1_IRQ_RX0, CAN1_IRQ_SCE, CAN1_IRQ_TX, ESR_BOFF, ESR_BUS_OFF, ESR_PASSIVE,
    ESR_WARNING, FIFO_DEPTH, FILTER_BASE, IER_ERRIE, IER_FMPIE0, IER_TMEIE, MCR_INRQ, MSR_INAK,
    OFF_ESR, OFF_FA1R, OFF_IER, OFF_MCR, OFF_MSR, OFF_RF0R, OFF_TSR, RF_FMP_MASK, RF_FOVR, RF_FULL,
    RF_RFOM, RX_FIFO_BASE, TI_IDE, TI_TXRQ, TX_MAILBOX_BASE,
};
use mcu_simulater::peripheral::Peripheral;
use mcu_simulater::wires::Wires;

const TSR_TXOK: [u32; 3] = [1 << 1, 1 << 9, 1 << 17];
const TSR_TME: [u32; 3] = [1 << 26, 1 << 27, 1 << 28];

fn make() -> (Can, Wires) {
    (Can::new(1, true), Wires::new())
}

fn frame(id: u32, ext: bool, dlc: u8, data: [u8; 8]) -> CanFrame {
    CanFrame::new(1, id, ext, false, dlc, data)
}

/// The last frame that was sent.
fn sent(w: &Wires, id: usize) -> CanFrame {
    let mut out = None;
    let mut k = 0;
    while let Some(ev) = w.events.nth(id, k) {
        if let Event::CanFrame { frame } = ev {
            out = Some((**frame).clone());
        }
        k += 1;
    }
    out.expect("a frame was sent")
}

#[test]
fn transmit_publishes_frame_and_sets_tsr() {
    let (mut c, mut w) = make();
    c.write(&mut w, OFF_IER, 4, IER_TMEIE).unwrap();
    let id = w.events.subscribe();
    c.write(&mut w, TX_MAILBOX_BASE + 0, 4, 0x123 << 21 | TI_TXRQ).unwrap();
    c.write(&mut w, TX_MAILBOX_BASE + 4, 4, 2 << 16).unwrap();
    c.write(&mut w, TX_MAILBOX_BASE + 8, 4, 0x22_11).unwrap();
    c.write(&mut w, TX_MAILBOX_BASE + 0, 4, 0x123 << 21 | TI_TXRQ).unwrap();
    assert_eq!(c.read(&mut w, OFF_TSR, 4).unwrap() & TSR_TXOK[0], TSR_TXOK[0]);
    assert_eq!(c.read(&mut w, OFF_TSR, 4).unwrap() & TSR_TME[0], TSR_TME[0]);
    assert!(w.nvic.is_pending(CAN1_IRQ_TX));
    let f = sent(&w, id);
    assert_eq!(f.id, 0x123);
    assert_eq!(f.dlc, 2);
    assert_eq!(&f.data[0..2], &[0x11, 0x22]);
}

#[test]
fn feed_rx_matches_filter_and_sets_fmp() {
    let (mut c, mut w) = make();
    c.write(&mut w, OFF_FA1R, 4, 0x1).unwrap();
    c.write(&mut w, FILTER_BASE, 4, 0x456 << 21).unwrap();
    c.write(&mut w, OFF_IER, 4, IER_FMPIE0).unwrap();
    c.feed_rx(&mut w, frame(0x456, false, 1, [0xAA; 8]));
    assert_eq!(c.read(&mut w, OFF_RF0R, 4).unwrap() & RF_FMP_MASK, 1);
    assert!(w.nvic.is_pending(CAN1_IRQ_RX0));
    c.feed_rx(&mut w, frame(0x999, false, 1, [0xBB; 8]));
    assert_eq!(c.read(&mut w, OFF_RF0R, 4).unwrap() & RF_FMP_MASK, 1);
}

#[test]
fn fifo_full_sets_overflow_and_release() {
    let (mut c, mut w) = make();
    for i in 0..FIFO_DEPTH {
        c.feed_rx(&mut w, frame(100 + i as u32, false, 1, [i as u8; 8]));
    }
    assert_ne!(c.read(&mut w, OFF_RF0R, 4).unwrap() & RF_FULL, 0);
    c.feed_rx(&mut w, frame(999, false, 1, [0xEE; 8]));
    assert_ne!(c.read(&mut w, OFF_RF0R, 4).unwrap() & RF_FOVR, 0);
    assert_eq!(c.read(&mut w, OFF_RF0R, 4).unwrap() & RF_FMP_MASK, FIFO_DEPTH as u32);
    assert_eq!(c.read(&mut w, RX_FIFO_BASE + 0, 4).unwrap() >> 21, 101);
    c.write(&mut w, OFF_RF0R, 4, RF_RFOM).unwrap();
    assert_eq!(c.read(&mut w, OFF_RF0R, 4).unwrap() & RF_FMP_MASK, FIFO_DEPTH as u32 - 1);
}

#[test]
fn read_rx_frame_fields() {
    let (mut c, mut w) = make();
    c.feed_rx(&mut w, frame(0x123, false, 4, [1, 2, 3, 4, 0, 0, 0, 0]));
    assert_eq!(c.read(&mut w, RX_FIFO_BASE + 0, 4).unwrap(), 0x123 << 21);
    assert_eq!(c.read(&mut w, RX_FIFO_BASE + 4, 4).unwrap(), 4 << 16, "RDT0R DLC");
    assert_eq!(c.read(&mut w, RX_FIFO_BASE + 8, 4).unwrap(), 0x0403_0201);
}

#[test]
fn inject_error_sets_esr_and_irq() {
    let (mut c, mut w) = make();
    c.write(&mut w, OFF_IER, 4, IER_ERRIE).unwrap();
    c.inject_error(&mut w, false, false, true);
    let esr = c.read(&mut w, OFF_ESR, 4).unwrap();
    assert_ne!(esr & ESR_BOFF, 0);
    assert!(w.nvic.is_pending(CAN1_IRQ_SCE));
}

#[test]
fn init_mode_reflects_inrq() {
    let (mut c, mut w) = make();
    c.write(&mut w, OFF_MCR, 4, MCR_INRQ).unwrap();
    assert_ne!(c.read(&mut w, OFF_MSR, 4).unwrap() & MSR_INAK, 0);
    c.write(&mut w, OFF_MCR, 4, 0).unwrap();
    assert_eq!(c.read(&mut w, OFF_MSR, 4).unwrap() & MSR_INAK, 0);
}

#[test]
fn ext_frame_transmit_and_receive() {
    let (mut c, mut w) = make();
    let id = w.events.subscribe();
    c.write(&mut w, TX_MAILBOX_BASE + 0, 4, TI_IDE | (0x1FFEDCBA << 3) | TI_TXRQ).unwrap();
    c.write(&mut w, TX_MAILBOX_BASE + 4, 4, 8 << 16).unwrap();
    c.write(&mut w, TX_MAILBOX_BASE + 8, 4, 0x8877_6655).unwrap();
    c.write(&mut w, TX_MAILBOX_BASE + 12, 4, 0x4433_2211).unwrap();
    c.write(&mut w, TX_MAILBOX_BASE + 0, 4, TI_IDE | (0x1FFEDCBA << 3) | TI_TXRQ).unwrap();
    let f = sent(&w, id);
    assert!(f.ext);
    assert_eq!(f.id, 0x1FFEDCBA);
    assert_eq!(f.dlc, 8);
    assert_eq!(f.data, [0x55, 0x66, 0x77, 0x88, 0x11, 0x22, 0x33, 0x44]);
}

#[test]
fn the_gravest_error_is_shown() {
    let (mut c, mut w) = make();
    c.inject_error(&mut w, true, false, false);
    assert_eq!(c.read(&mut w, OFF_ESR, 4).unwrap(), ESR_WARNING);
    c.inject_error(&mut w, true, true, false);
    assert_eq!(c.read(&mut w, OFF_ESR, 4).unwrap(), ESR_PASSIVE);
    c.inject_error(&mut w, true, true, true);
    assert_eq!(c.read(&mut w, OFF_ESR, 4).unwrap(), ESR_BUS_OFF);
    c.inject_error(&mut w, false, false, false);
    assert_eq!(c.read(&mut w, OFF_ESR, 4).unwrap(), 0);
    assert!(!w.nvic.is_pending(CAN1_IRQ_SCE));
}

#[test]
fn the_last_three_of_a_run_wait() {
    for n in 1..6u32 {
        let (mut c, mut w) = make();
        c.write(&mut w, OFF_IER, 4, IER_FMPIE0).unwrap();
        for id in 0..n {
            c.feed_rx(&mut w, frame(0x100 + id, false, 0, [0; 8]));
        }
        let rf = c.read(&mut w, OFF_RF0R, 4).unwrap();
        assert_eq!(rf & RF_FMP_MASK, n.min(3));
        assert_eq!(rf & RF_FULL != 0, n >= 3);
        assert_eq!(rf & RF_FOVR != 0, n >= 4);
        assert!(w.nvic.is_pending(CAN1_IRQ_RX0));
        for id in n.saturating_sub(3)..n {
            assert_eq!(c.read(&mut w, RX_FIFO_BASE, 4).unwrap(), (0x100 + id) << 21);
            c.write(&mut w, OFF_RF0R, 4, RF_RFOM).unwrap();
        }
        assert_eq!(c.read(&mut w, OFF_RF0R, 4).unwrap() & RF_FMP_MASK, 0);
    }
}

#[test]
fn the_last_filter_works_like_the_first() {
    let (mut c, mut w) = make();
    c.write(&mut w, OFF_FA1R, 4, 1 << 27).unwrap();
    c.write(&mut w, FILTER_BASE + 27 * 8, 4, (0x1234_5678 << 3) | TI_IDE).unwrap();
    c.feed_rx(&mut w, frame(0x1234_5678, true, 1, [0x11; 8]));
    assert_eq!(c.read(&mut w, OFF_RF0R, 4).unwrap() & RF_FMP_MASK, 1);
    c.feed_rx(&mut w, frame(0x1234_5679, true, 1, [0x22; 8]));
    assert_eq!(c.read(&mut w, OFF_RF0R, 4).unwrap() & RF_FMP_MASK, 1);
}
