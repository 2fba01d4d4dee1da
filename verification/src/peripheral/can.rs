//! The CAN controllers: three transmit mailboxes, a receive FIFO of three frames, and 28
//! identifier filters.
//!
//! A transmission completes at once: the frame is published, and the mailbox is free again. A
//! received frame passes if no filter is active, or if the identifier of an active filter
//! equals its own (standard with standard, extended with extended; the remote bit does not
//! count). A full FIFO loses its oldest frame, or the new one if it is locked. Error states
//! are injected.
//!
//! Offsets: MCR 0x00, MSR 0x04, TSR 0x08, RF0R 0x0C, RF1R 0x10, IER 0x14, ESR 0x18, BTR 0x1C,
//! mailboxes from 0x180, FIFOs from 0x1B0, FMR 0x400, FM1R 0x404, FS1R 0x40C, FFA1R 0x414,
//! FA1R 0x41C, filter words from 0x420.
use crate::bits;
use crate::events::Event;
use crate::peripheral::{BusError, Peripheral};
use crate::wires::{Wires, WiresView};
use std::collections::VecDeque;
use vstd::prelude::*;

verus! {

pub const CAN1_IRQ_TX: u32 = 19;

pub const CAN1_IRQ_RX0: u32 = 20;

pub const CAN1_IRQ_RX1: u32 = 21;

pub const CAN1_IRQ_SCE: u32 = 22;

pub const CAN2_IRQ_TX: u32 = 63;

pub const CAN2_IRQ_RX0: u32 = 64;

pub const CAN2_IRQ_RX1: u32 = 65;

pub const CAN2_IRQ_SCE: u32 = 66;

pub const CAN1_BASE: u32 = 0x4000_6400;

pub const CAN2_BASE: u32 = 0x4000_6800;

pub const OFF_MCR: u32 = 0x00;

pub const OFF_MSR: u32 = 0x04;

pub const OFF_TSR: u32 = 0x08;

pub const OFF_RF0R: u32 = 0x0C;

pub const OFF_RF1R: u32 = 0x10;

pub const OFF_IER: u32 = 0x14;

pub const OFF_ESR: u32 = 0x18;

pub const OFF_BTR: u32 = 0x1C;

pub const TX_MAILBOX_BASE: u32 = 0x180;

pub const RX_FIFO_BASE: u32 = 0x1B0;

pub const OFF_FMR: u32 = 0x400;

pub const OFF_FM1R: u32 = 0x404;

pub const OFF_FS1R: u32 = 0x40C;

pub const OFF_FFA1R: u32 = 0x414;

pub const OFF_FA1R: u32 = 0x41C;

pub const FILTER_BASE: u32 = 0x420;

pub const FILTER_COUNT: usize = 28;

pub const FIFO_DEPTH: usize = 3;

pub const MCR_INRQ: u32 = 0x1;

pub const MCR_RFLM: u32 = 0x8;

pub const MCR_RESET: u32 = 0x8000;

pub const MCR_WR_MASK: u32 = 0x1_80FF;

pub const MSR_INAK: u32 = 0x1;

/// All three mailboxes empty.
pub const TSR_TME_ALL: u32 = 0x1C00_0000;

pub const RF_FMP_MASK: u32 = 0x3;

pub const RF_FULL: u32 = 0x8;

pub const RF_FOVR: u32 = 0x10;

pub const RF_RFOM: u32 = 0x20;

pub const IER_TMEIE: u32 = 0x1;

pub const IER_FMPIE0: u32 = 0x2;

pub const IER_ERRIE: u32 = 0x80;

pub const IER_WR_MASK: u32 = 0x1FF;

/// The error warning flag, with a stuffing error as the last error.
pub const ESR_WARNING: u32 = 0x9;

/// The error passive flag, with a form error as the last error.
pub const ESR_PASSIVE: u32 = 0x22;

pub const ESR_BOFF: u32 = 0x4;

/// The bus-off flag, with a bit error as the last error.
pub const ESR_BUS_OFF: u32 = 0x2C;

/// The error flags and the last error code.
pub const ESR_FLAGS: u32 = 0x3F;

pub const TI_TXRQ: u32 = 0x1;

pub const TI_RTR: u32 = 0x2;

pub const TI_IDE: u32 = 0x4;

/// A frame on the bus.
#[derive(Debug, Clone, PartialEq, Eq)]
pub struct CanFrame {
    /// The controller that sent it (1 or 2).
    pub port: u8,
    /// The identifier: 11 bits, or 29 bits in an extended frame.
    pub id: u32,
    pub ext: bool,
    pub rtr: bool,
    /// The number of data bytes, at most 8.
    pub dlc: u8,
    pub data: [u8; 8],
}

impl CanFrame {
    pub fn new(port: u8, id: u32, ext: bool, rtr: bool, dlc: u8, data: [u8; 8]) -> (r: Self)
        ensures
            r == (CanFrame {
                port,
                id,
                ext,
                rtr,
                dlc: if dlc < 8 {
                    dlc
                } else {
                    8
                },
                data,
            }),
    {
        CanFrame {
            port,
            id,
            ext,
            rtr,
            dlc: if dlc < 8 {
                dlc
            } else {
                8
            },
            data,
        }
    }
}

/// The four words of a mailbox.
#[derive(Debug, Clone, Copy, PartialEq, Eq, Structural)]
pub struct Mailbox {
    pub ti: u32,
    pub tdt: u32,
    pub dl: u32,
    pub dh: u32,
}

/// The identifier in an identifier word: 29 bits from bit 3 or 11 bits from bit 21.
pub open spec fn id_of(word: u32) -> u32 {
    if word & TI_IDE != 0 {
        word / 8
    } else {
        word / 0x20_0000
    }
}

fn id_of_word(word: u32) -> (r: u32)
    ensures
        r == id_of(word),
{
    if word & TI_IDE != 0 {
        word / 8
    } else {
        word / 0x20_0000
    }
}

/// The frame that a mailbox holds.
pub open spec fn frame_of(m: Mailbox, port: u8) -> CanFrame {
    let dlc = ((m.tdt / 0x1_0000) % 16) as u8;
    CanFrame {
        port,
        id: id_of(m.ti),
        ext: m.ti & TI_IDE != 0,
        rtr: m.ti & TI_RTR != 0,
        dlc: if dlc < 8 {
            dlc
        } else {
            8
        },
        data: [
            bits::byte_at(m.dl, 0),
            bits::byte_at(m.dl, 1),
            bits::byte_at(m.dl, 2),
            bits::byte_at(m.dl, 3),
            bits::byte_at(m.dh, 0),
            bits::byte_at(m.dh, 1),
            bits::byte_at(m.dh, 2),
            bits::byte_at(m.dh, 3),
        ],
    }
}

impl Mailbox {
    fn frame(&self, port: u8) -> (r: CanFrame)
        ensures
            r == frame_of(*self, port),
    {
        let ext = self.ti & TI_IDE != 0;
        let rtr = self.ti & TI_RTR != 0;
        let dlc = ((self.tdt / 0x1_0000) % 16) as u8;
        let data: [u8; 8] = [
            bits::byte_of(self.dl, 0),
            bits::byte_of(self.dl, 1),
            bits::byte_of(self.dl, 2),
            bits::byte_of(self.dl, 3),
            bits::byte_of(self.dh, 0),
            bits::byte_of(self.dh, 1),
            bits::byte_of(self.dh, 2),
            bits::byte_of(self.dh, 3),
        ];
        let r = CanFrame::new(port, id_of_word(self.ti), ext, rtr, dlc, data);
        assert(r.data =~= frame_of(*self, port).data);
        r
    }
}

/// The words that a received frame shows.
pub open spec fn rx_word(f: CanFrame, reg: int) -> u32 {
    if reg == 0 {
        let v = if f.ext {
            TI_IDE | (f.id << 3u32)
        } else {
            f.id << 21u32
        };
        if f.rtr {
            v | TI_RTR
        } else {
            v
        }
    } else if reg == 1 {
        (f.dlc as u32) << 16u32
    } else if reg == 2 {
        bits::word_of(f.data[0], f.data[1], f.data[2], f.data[3])
    } else {
        bits::word_of(f.data[4], f.data[5], f.data[6], f.data[7])
    }
}

/// The status bits of a mailbox: request complete, transmission ok, mailbox empty.
pub open spec fn rqcp(m: int) -> u32 {
    bits::bit(8 * m)
}

pub open spec fn txok(m: int) -> u32 {
    bits::bit(8 * m + 1)
}

pub open spec fn tme(m: int) -> u32 {
    bits::bit(26 + m)
}

/// CAN controller.
pub struct Can {
    port: u8,
    connected: bool,
    irq_tx: u32,
    irq_rx0: u32,
    irq_sce: u32,
    mcr: u32,
    msr: u32,
    tsr: u32,
    rf0r: u32,
    rf1r: u32,
    ier: u32,
    esr: u32,
    btr: u32,
    tx: [Mailbox; 3],
    rx0: VecDeque<CanFrame>,
    fm1r: u32,
    fs1r: u32,
    ffa1r: u32,
    fa1r: u32,
    filters: [u32; 56],
}

/// The state of a controller.
#[verifier::ext_equal]
pub struct CanView {
    pub port: u8,
    /// Are sent frames published?
    pub connected: bool,
    pub irq_tx: u32,
    pub irq_rx0: u32,
    pub irq_sce: u32,
    pub mcr: u32,
    pub msr: u32,
    pub tsr: u32,
    pub rf0r: u32,
    pub rf1r: u32,
    pub ier: u32,
    pub esr: u32,
    pub btr: u32,
    pub tx: Seq<Mailbox>,
    /// The received frames, oldest first.
    pub rx0: Seq<CanFrame>,
    pub fm1r: u32,
    pub fs1r: u32,
    pub ffa1r: u32,
    /// Active filters, one bit each.
    pub fa1r: u32,
    /// Two words for each filter.
    pub filters: Seq<u32>,
}

impl View for Can {
    type V = CanView;

    closed spec fn view(&self) -> CanView {
        CanView {
            port: self.port,
            connected: self.connected,
            irq_tx: self.irq_tx,
            irq_rx0: self.irq_rx0,
            irq_sce: self.irq_sce,
            mcr: self.mcr,
            msr: self.msr,
            tsr: self.tsr,
            rf0r: self.rf0r,
            rf1r: self.rf1r,
            ier: self.ier,
            esr: self.esr,
            btr: self.btr,
            tx: self.tx@,
            rx0: self.rx0@,
            fm1r: self.fm1r,
            fs1r: self.fs1r,
            ffa1r: self.ffa1r,
            fa1r: self.fa1r,
            filters: self.filters@,
        }
    }
}

impl CanView {
    pub open spec fn fresh(port: u8, connected: bool) -> CanView {
        CanView {
            port,
            connected,
            irq_tx: if port == 2 {
                CAN2_IRQ_TX
            } else {
                CAN1_IRQ_TX
            },
            irq_rx0: if port == 2 {
                CAN2_IRQ_RX0
            } else {
                CAN1_IRQ_RX0
            },
            irq_sce: if port == 2 {
                CAN2_IRQ_SCE
            } else {
                CAN1_IRQ_SCE
            },
            mcr: 0,
            msr: 0,
            tsr: TSR_TME_ALL,
            rf0r: 0,
            rf1r: 0,
            ier: 0,
            esr: 0,
            btr: 0,
            tx: Seq::new(3, |i: int| Mailbox { ti: 0, tdt: 0, dl: 0, dh: 0 }),
            rx0: Seq::empty(),
            fm1r: 0,
            fs1r: 0,
            ffa1r: 0,
            fa1r: 0,
            filters: Seq::new(56, |i: int| 0u32),
        }
    }

    /// The shape of the state; at most three frames wait.
    pub open spec fn wf(self) -> bool {
        &&& self.tx.len() == 3
        &&& self.filters.len() == 56
        &&& self.rx0.len() <= 3
        &&& self.irq_tx < 96
        &&& self.irq_rx0 < 96
        &&& self.irq_sce < 96
    }

    /// Does filter `i` let the frame through?
    pub open spec fn filter_matches(self, i: int, f: CanFrame) -> bool {
        let word = self.filters[2 * i];
        &&& bits::has_bit(self.fa1r, i)
        &&& (word & TI_IDE != 0) == f.ext
        &&& id_of(word) == f.id
    }

    /// Is the frame received at all?
    pub open spec fn filter_pass(self, f: CanFrame) -> bool {
        self.fa1r == 0 || exists|i: int| 0 <= i < 28 && #[trigger] self.filter_matches(i, f)
    }

    pub open spec fn feed_rx(self, w: WiresView, f: CanFrame) -> (CanView, WiresView) {
        if !self.filter_pass(f) {
            (self, w)
        } else if self.rx0.len() >= 3 && self.mcr & MCR_RFLM != 0 {
            (CanView { rf0r: self.rf0r | RF_FOVR, ..self }, w)
        } else {
            let (kept, rf) = if self.rx0.len() >= 3 {
                (self.rx0.drop_first(), self.rf0r | RF_FOVR)
            } else {
                (self.rx0, self.rf0r)
            };
            let rx = kept.push(f);
            let rf = (rf & !RF_FMP_MASK) | ((rx.len() as u32) & RF_FMP_MASK);
            let rf = if rx.len() == 3 {
                rf | RF_FULL
            } else {
                rf
            };
            (
                CanView { rx0: rx, rf0r: rf, ..self },
                w.pend_if(self.ier & IER_FMPIE0 != 0, self.irq_rx0),
            )
        }
    }

    /// Bus-off outranks error passive, error passive outranks the warning.
    pub open spec fn inject_error(self, w: WiresView, ewgf: bool, epvf: bool, boff: bool) -> (
        CanView,
        WiresView,
    ) {
        let base = self.esr & !ESR_FLAGS;
        let esr = if boff {
            base | ESR_BUS_OFF
        } else if epvf {
            base | ESR_PASSIVE
        } else if ewgf {
            base | ESR_WARNING
        } else {
            base
        };
        (CanView { esr, ..self }, w.pend_if(self.ier & IER_ERRIE != 0, self.irq_sce))
    }

    /// Mailbox `m` is sent, if it is free.
    pub open spec fn transmit(self, w: WiresView, m: int) -> (CanView, WiresView) {
        if self.tsr & tme(m) == 0 {
            (self, w)
        } else {
            let ev = Event::CanFrame { frame: Box::new(frame_of(self.tx[m], self.port)) };
            (
                CanView {
                    tx: self.tx.update(
                        m,
                        Mailbox { ti: self.tx[m].ti & !TI_TXRQ, ..self.tx[m] },
                    ),
                    tsr: (self.tsr & !tme(m)) | (rqcp(m) | txok(m) | tme(m)),
                    ..self
                },
                w.publish_if(self.connected, ev).pend_if(self.ier & IER_TMEIE != 0, self.irq_tx),
            )
        }
    }

    /// The oldest frame leaves the FIFO.
    pub open spec fn release_fifo0(self) -> CanView {
        let rx = if self.rx0.len() > 0 {
            self.rx0.drop_first()
        } else {
            self.rx0
        };
        let rf = (self.rf0r & !RF_FMP_MASK) | ((rx.len() as u32) & RF_FMP_MASK);
        CanView {
            rx0: rx,
            rf0r: if rx.len() < 3 {
                rf & !RF_FULL
            } else {
                rf
            },
            ..self
        }
    }

    pub open spec fn read(self, offset: u32, size: u32) -> Result<u32, BusError> {
        if size != 4 {
            Err(BusError::NotImplemented)
        } else if offset == OFF_MCR {
            Ok(self.mcr)
        } else if offset == OFF_MSR {
            Ok(self.msr)
        } else if offset == OFF_TSR {
            Ok(self.tsr)
        } else if offset == OFF_RF0R {
            Ok(self.rf0r)
        } else if offset == OFF_RF1R {
            Ok(self.rf1r)
        } else if offset == OFF_IER {
            Ok(self.ier)
        } else if offset == OFF_ESR {
            Ok(self.esr)
        } else if offset == OFF_BTR {
            Ok(self.btr)
        } else if TX_MAILBOX_BASE <= offset < TX_MAILBOX_BASE + 48 {
            let m = self.tx[(offset - TX_MAILBOX_BASE) / 16];
            let r = ((offset - TX_MAILBOX_BASE) % 16) / 4;
            Ok(
                if r == 0 {
                    m.ti
                } else if r == 1 {
                    m.tdt
                } else if r == 2 {
                    m.dl
                } else {
                    m.dh
                },
            )
        } else if RX_FIFO_BASE <= offset < RX_FIFO_BASE + 16 {
            if self.rx0.len() == 0 {
                Ok(0u32)
            } else {
                Ok(rx_word(self.rx0[0], (offset - RX_FIFO_BASE) / 4))
            }
        } else if RX_FIFO_BASE + 16 <= offset < RX_FIFO_BASE + 32 {
            Ok(0u32)
        } else if offset == OFF_FMR {
            Ok(0u32)
        } else if offset == OFF_FM1R {
            Ok(self.fm1r)
        } else if offset == OFF_FS1R {
            Ok(self.fs1r)
        } else if offset == OFF_FFA1R {
            Ok(self.ffa1r)
        } else if offset == OFF_FA1R {
            Ok(self.fa1r)
        } else if FILTER_BASE <= offset < FILTER_BASE + 224 {
            Ok(self.filters[(offset - FILTER_BASE) / 4])
        } else {
            Err(BusError::OutOfRange)
        }
    }

    /// A write to the control register: the software reset, or the initialisation request,
    /// which is acknowledged at once.
    pub open spec fn write_mcr(self, value: u32) -> CanView {
        let mcr = value & MCR_WR_MASK;
        if mcr & MCR_RESET != 0 {
            self.cleared()
        } else {
            CanView {
                mcr,
                msr: if mcr & MCR_INRQ != 0 && self.mcr & MCR_INRQ == 0 {
                    self.msr | MSR_INAK
                } else if mcr & MCR_INRQ == 0 && self.mcr & MCR_INRQ != 0 {
                    self.msr & !MSR_INAK
                } else {
                    self.msr
                },
                ..self
            }
        }
    }

    /// The reset state of this controller.
    pub open spec fn cleared(self) -> CanView {
        CanView {
            irq_tx: self.irq_tx,
            irq_rx0: self.irq_rx0,
            irq_sce: self.irq_sce,
            ..CanView::fresh(self.port, self.connected)
        }
    }

    pub open spec fn with_mailbox(self, m: int, mailbox: Mailbox) -> CanView {
        CanView { tx: self.tx.update(m, mailbox), ..self }
    }

    /// A write to word `r` of mailbox `m`. The transmit request sends the mailbox.
    pub open spec fn write_mailbox(self, w: WiresView, m: int, r: int, value: u32) -> (
        CanView,
        WiresView,
    ) {
        let old = self.tx[m];
        if r == 0 {
            if value & TI_TXRQ != 0 {
                self.with_mailbox(
                    m,
                    Mailbox { ti: (value & !TI_TXRQ) | TI_TXRQ, ..old },
                ).transmit(w, m)
            } else {
                (self.with_mailbox(m, Mailbox { ti: value & !TI_TXRQ, ..old }), w)
            }
        } else if r == 1 {
            (self.with_mailbox(m, Mailbox { tdt: value, ..old }), w)
        } else if r == 2 {
            (self.with_mailbox(m, Mailbox { dl: value, ..old }), w)
        } else {
            (self.with_mailbox(m, Mailbox { dh: value, ..old }), w)
        }
    }

    pub open spec fn write(self, w: WiresView, offset: u32, size: u32, value: u32) -> (
        CanView,
        WiresView,
        Result<(), BusError>,
    ) {
        if size != 4 {
            (self, w, Err(BusError::NotImplemented))
        } else if offset == OFF_MCR {
            (self.write_mcr(value), w, Ok(()))
        } else if offset == OFF_MSR || offset == OFF_TSR || offset == OFF_ESR {
            (self, w, Ok(()))
        } else if offset == OFF_RF0R {
            (
                if value & RF_RFOM != 0 {
                    self.release_fifo0()
                } else {
                    self
                },
                w,
                Ok(()),
            )
        } else if offset == OFF_RF1R {
            (
                if value & RF_RFOM != 0 {
                    CanView { rf1r: self.rf1r & !RF_FMP_MASK, ..self }
                } else {
                    self
                },
                w,
                Ok(()),
            )
        } else if offset == OFF_IER {
            (CanView { ier: value & IER_WR_MASK, ..self }, w, Ok(()))
        } else if offset == OFF_BTR {
            (CanView { btr: value, ..self }, w, Ok(()))
        } else if TX_MAILBOX_BASE <= offset < TX_MAILBOX_BASE + 48 {
            let (s1, w1) = self.write_mailbox(
                w,
                (offset - TX_MAILBOX_BASE) / 16,
                ((offset - TX_MAILBOX_BASE) % 16) / 4,
                value,
            );
            (s1, w1, Ok(()))
        } else if RX_FIFO_BASE <= offset < RX_FIFO_BASE + 32 || offset == OFF_FMR {
            (self, w, Ok(()))
        } else if offset == OFF_FM1R {
            (CanView { fm1r: value, ..self }, w, Ok(()))
        } else if offset == OFF_FS1R {
            (CanView { fs1r: value, ..self }, w, Ok(()))
        } else if offset == OFF_FFA1R {
            (CanView { ffa1r: value, ..self }, w, Ok(()))
        } else if offset == OFF_FA1R {
            (CanView { fa1r: value, ..self }, w, Ok(()))
        } else if FILTER_BASE <= offset < FILTER_BASE + 224 {
            (
                CanView {
                    filters: self.filters.update((offset - FILTER_BASE) / 4, value),
                    ..self
                },
                w,
                Ok(()),
            )
        } else {
            (self, w, Err(BusError::OutOfRange))
        }
    }
}

impl Can {
    /// A controller on port 1 or 2. Unless it is connected, its frames are not published.
    pub fn new(port: u8, connected: bool) -> (r: Self)
        ensures
            r@ == CanView::fresh(port, connected),
            r@.wf(),
    {
        let (irq_tx, irq_rx0, irq_sce) = if port == 2 {
            (CAN2_IRQ_TX, CAN2_IRQ_RX0, CAN2_IRQ_SCE)
        } else {
            (CAN1_IRQ_TX, CAN1_IRQ_RX0, CAN1_IRQ_SCE)
        };
        let r = Can {
            port,
            connected,
            irq_tx,
            irq_rx0,
            irq_sce,
            mcr: 0,
            msr: 0,
            tsr: TSR_TME_ALL,
            rf0r: 0,
            rf1r: 0,
            ier: 0,
            esr: 0,
            btr: 0,
            tx: bits::filled(Mailbox { ti: 0, tdt: 0, dl: 0, dh: 0 }),
            rx0: VecDeque::new(),
            fm1r: 0,
            fs1r: 0,
            ffa1r: 0,
            fa1r: 0,
            filters: bits::filled(0),
        };
        assert(r@ =~= CanView::fresh(port, connected));
        r
    }

    /// A frame arrives from the bus.
    pub fn feed_rx(&mut self, w: &mut Wires, frame: CanFrame)
        requires
            old(self)@.wf(),
        ensures
            final(self)@.wf(),
            (final(self)@, final(w)@) == old(self)@.feed_rx(old(w)@, frame),
    {
        if !self.filter_pass(&frame) {
            return ;
        }
        if self.rx0.len() >= FIFO_DEPTH {
            if self.mcr & MCR_RFLM != 0 {
                self.rf0r = self.rf0r | RF_FOVR;
                return ;
            }
            let _ = self.rx0.pop_front();
            self.rf0r = self.rf0r | RF_FOVR;
        }
        self.rx0.push_back(frame);
        self.rf0r = (self.rf0r & !RF_FMP_MASK) | (self.rx0.len() as u32 & RF_FMP_MASK);
        if self.rx0.len() == FIFO_DEPTH {
            self.rf0r = self.rf0r | RF_FULL;
        }
        if self.ier & IER_FMPIE0 != 0 {
            w.pend(self.irq_rx0);
        }
        proof {
            let old_rx = old(self)@.rx0;
            assert(self.rx0@ =~= (if old_rx.len() >= 3 {
                old_rx.drop_first()
            } else {
                old_rx
            }).push(frame));
        }
    }

    /// Sets the error state, or clears it.
    pub fn inject_error(&mut self, w: &mut Wires, ewgf: bool, epvf: bool, boff: bool)
        requires
            old(self)@.wf(),
        ensures
            final(self)@.wf(),
            (final(self)@, final(w)@) == old(self)@.inject_error(old(w)@, ewgf, epvf, boff),
    {
        self.esr = self.esr & !ESR_FLAGS;
        if boff {
            self.esr = self.esr | ESR_BUS_OFF;
        } else if epvf {
            self.esr = self.esr | ESR_PASSIVE;
        } else if ewgf {
            self.esr = self.esr | ESR_WARNING;
        }
        if self.ier & IER_ERRIE != 0 {
            w.pend(self.irq_sce);
        }
    }

    fn filter_pass(&self, frame: &CanFrame) -> (r: bool)
        ensures
            r == self@.filter_pass(*frame),
    {
        if self.fa1r == 0 {
            return true;
        }
        let mut i: usize = 0;
        while i < FILTER_COUNT
            invariant
                i <= 28,
                self.fa1r != 0,
                forall|j: int| 0 <= j < i ==> !#[trigger] self@.filter_matches(j, *frame),
            decreases 28 - i,
        {
            let word = self.filters[2 * i];
            if self.fa1r & (1u32 << (i as u32)) != 0 && (word & TI_IDE != 0) == frame.ext
                && id_of_word(word) == frame.id {
                assert(self@.filter_matches(i as int, *frame));
                return true;
            }
            assert(!self@.filter_matches(i as int, *frame));
            i = i + 1;
        }
        false
    }

    fn transmit(&mut self, w: &mut Wires, m: usize)
        requires
            m < 3,
            old(self)@.wf(),
        ensures
            final(self)@.wf(),
            (final(self)@, final(w)@) == old(self)@.transmit(old(w)@, m as int),
    {
        let empty: u32 = 1u32 << (26 + m as u32);
        if self.tsr & empty == 0 {
            return ;
        }
        let frame = self.tx[m].frame(self.port);
        self.tsr = self.tsr & !empty;
        if self.connected {
            w.publish(Event::CanFrame { frame: Box::new(frame) });
        }
        self.tx[m].ti = self.tx[m].ti & !TI_TXRQ;
        let done: u32 = (1u32 << (8 * m as u32)) | (1u32 << (8 * m as u32 + 1)) | empty;
        self.tsr = self.tsr | done;
        if self.ier & IER_TMEIE != 0 {
            w.pend(self.irq_tx);
        }
    }

    fn release_fifo0(&mut self)
        requires
            old(self)@.wf(),
        ensures
            final(self)@.wf(),
            final(self)@ == old(self)@.release_fifo0(),
    {
        let _ = self.rx0.pop_front();
        self.rf0r = (self.rf0r & !RF_FMP_MASK) | (self.rx0.len() as u32 & RF_FMP_MASK);
        if self.rx0.len() < FIFO_DEPTH {
            self.rf0r = self.rf0r & !RF_FULL;
        }
        proof {
            let old_rx = old(self)@.rx0;
            assert(self.rx0@ =~= if old_rx.len() > 0 {
                old_rx.drop_first()
            } else {
                old_rx
            });
        }
    }

    fn read_rx0_reg(&self, reg: u32) -> (r: u32)
        requires
            reg < 4,
        ensures
            r == (if self@.rx0.len() == 0 {
                0
            } else {
                rx_word(self@.rx0[0], reg as int)
            }),
    {
        if self.rx0.len() == 0 {
            return 0;
        }
        let f = &self.rx0[0];
        if reg == 0 {
            let mut v: u32 = if f.ext {
                TI_IDE | (f.id << 3u32)
            } else {
                f.id << 21u32
            };
            if f.rtr {
                v = v | TI_RTR;
            }
            v
        } else if reg == 1 {
            (f.dlc as u32) << 16u32
        } else if reg == 2 {
            bits::le_word(f.data[0], f.data[1], f.data[2], f.data[3])
        } else {
            bits::le_word(f.data[4], f.data[5], f.data[6], f.data[7])
        }
    }

    fn read_filter(&self, offset: u32) -> (r: u32)
        requires
            FILTER_BASE <= offset < FILTER_BASE + 224,
        ensures
            r == self@.filters[(offset - FILTER_BASE) / 4],
    {
        self.filters[((offset - FILTER_BASE) / 4) as usize]
    }

    fn write_filter(&mut self, offset: u32, value: u32)
        requires
            FILTER_BASE <= offset < FILTER_BASE + 224,
        ensures
            final(self)@ == (CanView {
                filters: old(self)@.filters.update((offset - FILTER_BASE) / 4, value),
                ..old(self)@
            }),
    {
        self.filters[((offset - FILTER_BASE) / 4) as usize] = value;
    }

    fn write_mailbox(&mut self, w: &mut Wires, m: usize, r: u32, value: u32)
        requires
            m < 3,
            r < 4,
            old(self)@.wf(),
        ensures
            final(self)@.wf(),
            (final(self)@, final(w)@) == old(self)@.write_mailbox(
                old(w)@,
                m as int,
                r as int,
                value,
            ),
    {
        if r == 0 {
            if value & TI_TXRQ != 0 {
                self.tx[m].ti = (value & !TI_TXRQ) | TI_TXRQ;
                self.transmit(w, m);
            } else {
                self.tx[m].ti = value & !TI_TXRQ;
            }
        } else if r == 1 {
            self.tx[m].tdt = value;
        } else if r == 2 {
            self.tx[m].dl = value;
        } else {
            self.tx[m].dh = value;
        }
    }

    fn clear(&mut self)
        requires
            old(self)@.wf(),
        ensures
            final(self)@.wf(),
            final(self)@ == old(self)@.cleared(),
    {
        self.mcr = 0;
        self.msr = 0;
        self.tsr = TSR_TME_ALL;
        self.rf0r = 0;
        self.rf1r = 0;
        self.ier = 0;
        self.esr = 0;
        self.btr = 0;
        self.tx = bits::filled(Mailbox { ti: 0, tdt: 0, dl: 0, dh: 0 });
        self.rx0.clear();
        self.fm1r = 0;
        self.fs1r = 0;
        self.ffa1r = 0;
        self.fa1r = 0;
        self.filters = bits::filled(0);
        assert(self@ =~= old(self)@.cleared());
    }
}

impl Peripheral for Can {
    open spec fn inv(s: CanView) -> bool {
        s.wf()
    }

    open spec fn readable(s: CanView, w: WiresView, offset: u32, size: u32) -> bool {
        true
    }

    open spec fn read_of(s: CanView, w: WiresView, offset: u32, size: u32) -> (
        CanView,
        WiresView,
        Result<u32, BusError>,
    ) {
        (s, w, s.read(offset, size))
    }

    open spec fn writable(s: CanView, w: WiresView, offset: u32, size: u32, value: u32) -> bool {
        true
    }

    open spec fn write_of(s: CanView, w: WiresView, offset: u32, size: u32, value: u32) -> (
        CanView,
        WiresView,
        Result<(), BusError>,
    ) {
        s.write(w, offset, size, value)
    }

    open spec fn reset_of(s: CanView, w: WiresView) -> (CanView, WiresView) {
        (s.cleared(), w)
    }

    open spec fn tickable(s: CanView, w: WiresView, cycles: u64) -> bool {
        true
    }

    open spec fn tick_of(s: CanView, w: WiresView, cycles: u64) -> (CanView, WiresView) {
        (s, w)
    }

    open spec fn label(s: CanView) -> Seq<char> {
        if s.port == 2 {
            "CAN2"@
        } else {
            "CAN1"@
        }
    }

    fn name(&self) -> &str {
        if self.port == 2 {
            "CAN2"
        } else {
            "CAN1"
        }
    }

    fn read(&mut self, w: &mut Wires, offset: u32, size: u32) -> Result<u32, BusError> {
        if size != 4 {
            return Err(BusError::NotImplemented);
        }
        match offset {
            OFF_MCR => Ok(self.mcr),
            OFF_MSR => Ok(self.msr),
            OFF_TSR => Ok(self.tsr),
            OFF_RF0R => Ok(self.rf0r),
            OFF_RF1R => Ok(self.rf1r),
            OFF_IER => Ok(self.ier),
            OFF_ESR => Ok(self.esr),
            OFF_BTR => Ok(self.btr),
            OFF_FMR => Ok(0),
            OFF_FM1R => Ok(self.fm1r),
            OFF_FS1R => Ok(self.fs1r),
            OFF_FFA1R => Ok(self.ffa1r),
            OFF_FA1R => Ok(self.fa1r),
            _ => {
                if offset >= TX_MAILBOX_BASE && offset < TX_MAILBOX_BASE + 48 {
                    let m = ((offset - TX_MAILBOX_BASE) / 16) as usize;
                    let r: u32 = ((offset - TX_MAILBOX_BASE) % 16) / 4;
                    if r == 0 {
                        Ok(self.tx[m].ti)
                    } else if r == 1 {
                        Ok(self.tx[m].tdt)
                    } else if r == 2 {
                        Ok(self.tx[m].dl)
                    } else {
                        Ok(self.tx[m].dh)
                    }
                } else if offset >= RX_FIFO_BASE && offset < RX_FIFO_BASE + 32 {
                    let fifo: u32 = (offset - RX_FIFO_BASE) / 16;
                    let reg: u32 = ((offset - RX_FIFO_BASE) % 16) / 4;
                    if fifo == 0 {
                        Ok(self.read_rx0_reg(reg))
                    } else {
                        Ok(0)
                    }
                } else if offset >= FILTER_BASE && offset < FILTER_BASE + 224 {
                    Ok(self.read_filter(offset))
                } else {
                    Err(BusError::OutOfRange)
                }
            },
        }
    }

    fn write(&mut self, w: &mut Wires, offset: u32, size: u32, value: u32) -> Result<(), BusError> {
        if size != 4 {
            return Err(BusError::NotImplemented);
        }
        match offset {
            OFF_MCR => {
                let old_inrq: u32 = self.mcr & MCR_INRQ;
                let mcr: u32 = value & MCR_WR_MASK;
                if mcr & MCR_RESET != 0 {
                    self.clear();
                    return Ok(());
                }
                self.mcr = mcr;
                let new_inrq: u32 = mcr & MCR_INRQ;
                if new_inrq != 0 && old_inrq == 0 {
                    self.msr = self.msr | MSR_INAK;
                } else if new_inrq == 0 && old_inrq != 0 {
                    self.msr = self.msr & !MSR_INAK;
                }
                Ok(())
            },
            OFF_MSR | OFF_TSR | OFF_ESR | OFF_FMR => Ok(()),
            OFF_RF0R => {
                if value & RF_RFOM != 0 {
                    self.release_fifo0();
                }
                Ok(())
            },
            OFF_RF1R => {
                if value & RF_RFOM != 0 {
                    self.rf1r = self.rf1r & !RF_FMP_MASK;
                }
                Ok(())
            },
            OFF_IER => {
                self.ier = value & IER_WR_MASK;
                Ok(())
            },
            OFF_BTR => {
                self.btr = value;
                Ok(())
            },
            OFF_FM1R => {
                self.fm1r = value;
                Ok(())
            },
            OFF_FS1R => {
                self.fs1r = value;
                Ok(())
            },
            OFF_FFA1R => {
                self.ffa1r = value;
                Ok(())
            },
            OFF_FA1R => {
                self.fa1r = value;
                Ok(())
            },
            _ => {
                if offset >= TX_MAILBOX_BASE && offset < TX_MAILBOX_BASE + 48 {
                    let m = ((offset - TX_MAILBOX_BASE) / 16) as usize;
                    let r: u32 = ((offset - TX_MAILBOX_BASE) % 16) / 4;
                    self.write_mailbox(w, m, r, value);
                    Ok(())
                } else if offset >= RX_FIFO_BASE && offset < RX_FIFO_BASE + 32 {
                    Ok(())
                } else if offset >= FILTER_BASE && offset < FILTER_BASE + 224 {
                    self.write_filter(offset, value);
                    Ok(())
                } else {
                    Err(BusError::OutOfRange)
                }
            },
        }
    }

    fn reset(&mut self, w: &mut Wires) {
        self.clear();
    }

    fn tick(&mut self, w: &mut Wires, cycles: u64) {
    }
}

/// A frame that was sent shows at its receiver the identifier word (without the request), the
/// length (at most 8) and the data words of the mailbox.
pub proof fn law_frame_roundtrip(m: Mailbox, port: u8)
    ensures
        m.ti & TI_IDE != 0 ==> rx_word(frame_of(m, port), 0) == m.ti & !TI_TXRQ,
        m.ti & TI_IDE == 0 ==> rx_word(frame_of(m, port), 0) == m.ti & 0xFFE0_0002,
        rx_word(frame_of(m, port), 2) == m.dl,
        rx_word(frame_of(m, port), 3) == m.dh,
        frame_of(m, port).dlc <= 8,
{
    bits::lemma_word_of_bytes(m.dl);
    bits::lemma_word_of_bytes(m.dh);
    let ti = m.ti;
    let id = id_of(ti);
    assert((ti & 4 != 0 && id == ti / 8 ==> (if ti & 2 != 0 {
        (4u32 | (id << 3u32)) | 2u32
    } else {
        4u32 | (id << 3u32)
    }) == ti & !1u32) && (ti & 4 == 0 && id == ti / 0x20_0000 ==> (if ti & 2 != 0 {
        (id << 21u32) | 2u32
    } else {
        id << 21u32
    }) == ti & 0xFFE0_0002)) by (bit_vector);
}

/// Received frames leave in the order in which they came, and never more than three wait.
pub proof fn law_fifo_order(s: CanView, w: WiresView, f: CanFrame)
    requires
        s.wf(),
        s.filter_pass(f),
    ensures
        s.feed_rx(w, f).0.wf(),
        s.rx0.len() < 3 ==> s.feed_rx(w, f).0.rx0 == s.rx0.push(f),
        s.rx0.len() == 3 && s.mcr & MCR_RFLM == 0 ==> s.feed_rx(w, f).0.rx0 == s.rx0.drop_first().push(
            f,
        ),
        s.rx0.len() == 3 && s.mcr & MCR_RFLM != 0 ==> s.feed_rx(w, f).0.rx0 == s.rx0,
        s.rx0.len() == 3 ==> s.feed_rx(w, f).0.rf0r & RF_FOVR != 0,
        s.rx0.len() > 0 ==> s.release_fifo0().rx0 == s.rx0.drop_first(),
{
    let r = s.rf0r;
    assert((r | 0x10) & 0x10 != 0 && ((((r | 0x10) & !3u32) | (3u32 & 3)) | 8) & 0x10 != 0)
        by (bit_vector);
}

/// The count field of the FIFO register is the number of frames that wait.
pub proof fn law_fifo_count(s: CanView, w: WiresView, f: CanFrame)
    requires
        s.wf(),
        s.rf0r & RF_FMP_MASK == s.rx0.len(),
    ensures
        s.feed_rx(w, f).0.rf0r & RF_FMP_MASK == s.feed_rx(w, f).0.rx0.len(),
        s.release_fifo0().rf0r & RF_FMP_MASK == s.release_fifo0().rx0.len(),
{
    let r = s.rf0r;
    let n = s.feed_rx(w, f).0.rx0.len() as u32;
    let k = s.release_fifo0().rx0.len() as u32;
    assert((n <= 3 ==> ((r & !3u32) | (n & 3)) & 3 == n && (((r & !3u32) | (n & 3)) | 8) & 3 == n
        && (((r | 0x10) & !3u32) | (n & 3)) & 3 == n && ((((r | 0x10) & !3u32) | (n & 3)) | 8) & 3
        == n) && (k <= 3 ==> ((r & !3u32) | (k & 3)) & 3 == k && (((r & !3u32) | (k & 3)) & !8u32)
        & 3 == k) && (r | 0x10) & 3 == r & 3) by (bit_vector);
}

/// A mailbox is never left busy: whatever is written, all three are empty afterwards.
pub proof fn law_mailboxes_stay_free(s: CanView, w: WiresView, offset: u32, size: u32, value: u32)
    requires
        s.wf(),
        s.tsr & TSR_TME_ALL == TSR_TME_ALL,
    ensures
        s.write(w, offset, size, value).0.tsr & TSR_TME_ALL == TSR_TME_ALL,
        CanView::fresh(s.port, s.connected).tsr & TSR_TME_ALL == TSR_TME_ALL,
{
    bits::lemma_mask(TSR_TME_ALL, TSR_TME_ALL);
    let t = s.tsr;
    assert(t & 0x1C00_0000 == 0x1C00_0000 ==> {
        &&& ((t & !(1u32 << 26u32)) | ((1u32 << 0u32) | (1u32 << 1u32) | (1u32 << 26u32)))
            & 0x1C00_0000 == 0x1C00_0000
        &&& ((t & !(1u32 << 27u32)) | ((1u32 << 8u32) | (1u32 << 9u32) | (1u32 << 27u32)))
            & 0x1C00_0000 == 0x1C00_0000
        &&& ((t & !(1u32 << 28u32)) | ((1u32 << 16u32) | (1u32 << 17u32) | (1u32 << 28u32)))
            & 0x1C00_0000 == 0x1C00_0000
    }) by (bit_vector);
    if TX_MAILBOX_BASE <= offset < TX_MAILBOX_BASE + 48 {
        let m = (offset - TX_MAILBOX_BASE) / 16;
        assert(((t & !tme(m)) | (rqcp(m) | txok(m) | tme(m))) & TSR_TME_ALL == TSR_TME_ALL);
    }
}

impl CanView {
    /// A run of frames arrives.
    pub open spec fn fed(self, w: WiresView, fs: Seq<CanFrame>) -> (CanView, WiresView)
        decreases fs.len(),
    {
        if fs.len() == 0 {
            (self, w)
        } else {
            let (s, w1) = self.fed(w, fs.drop_last());
            s.feed_rx(w1, fs.last())
        }
    }
}

/// The FIFO register after `n` frames have arrived at an empty FIFO.
pub open spec fn fifo_word(n: nat) -> u32 {
    if n == 0 {
        0
    } else if n == 1 {
        1
    } else if n == 2 {
        2
    } else if n == 3 {
        3 | RF_FULL
    } else {
        3 | RF_FULL | RF_FOVR
    }
}

/// What a further frame makes of the FIFO register.
proof fn lemma_fifo_word(n: nat)
    ensures
        ({
            let k = if n < 3 {
                (n + 1) as u32
            } else {
                3
            };
            let r = if n < 3 {
                fifo_word(n)
            } else {
                fifo_word(n) | RF_FOVR
            };
            let r = (r & !RF_FMP_MASK) | (k & RF_FMP_MASK);
            fifo_word(n + 1) == if k == 3 {
                r | RF_FULL
            } else {
                r
            }
        }),
        fifo_word(n) & RF_FMP_MASK == (if n < 3 {
            n as int
        } else {
            3
        }),
        fifo_word(n) & RF_FULL != 0 <==> n >= 3,
        fifo_word(n) & RF_FOVR != 0 <==> n >= 4,
{
    assert((0u32 & !3u32) | (1u32 & 3) == 1 && (1u32 & !3u32) | (2u32 & 3) == 2 && ((2u32 & !3u32)
        | (3u32 & 3)) | 8 == 3u32 | 8 && (((3u32 | 8 | 0x10) & !3u32) | (3u32 & 3)) | 8 == 3u32 | 8
        | 0x10 && ((((3u32 | 8 | 0x10) | 0x10) & !3u32) | (3u32 & 3)) | 8 == 3u32 | 8 | 0x10 && 0u32
        & 3 == 0 && 1u32 & 3 == 1 && 2u32 & 3 == 2 && (3u32 | 8) & 3 == 3 && (3u32 | 8 | 0x10) & 3
        == 3 && 0u32 & 8 == 0 && 1u32 & 8 == 0 && 2u32 & 8 == 0 && (3u32 | 8) & 8 != 0 && (3u32 | 8
        | 0x10) & 8 != 0 && 0u32 & 0x10 == 0 && 1u32 & 0x10 == 0 && 2u32 & 0x10 == 0 && (3u32 | 8)
        & 0x10 == 0 && (3u32 | 8 | 0x10) & 0x10 != 0) by (bit_vector);
}

/// A line that is raised twice is raised.
proof fn lemma_pend_again(w: WiresView, irq: u32)
    requires
        w.wf(),
        irq < 96,
    ensures
        w.pend(irq).pend(irq) == w.pend(irq),
        w.pend(irq).wf(),
{
    let i = irq as int / 32;
    let (x, b) = (w.nvic.pending[i], bits::bit(irq as int % 32));
    bits::lemma_flags(x, b, 0);
    assert(w.pend(irq).pend(irq).nvic.pending =~= w.pend(irq).nvic.pending);
}

/// A run of frames that the filters let through arrives at an empty FIFO that is not locked,
/// with no release in between: the last three wait, oldest first; the count, the full flag and
/// the overrun flag tell how many came; and the line goes up if it is enabled.
pub proof fn law_fifo_keeps_the_last_three(s: CanView, w: WiresView, fs: Seq<CanFrame>)
    requires
        s.wf(),
        w.wf(),
        s.rx0.len() == 0,
        s.rf0r == 0,
        s.mcr & MCR_RFLM == 0,
        forall|i: int| 0 <= i < fs.len() ==> s.filter_pass(#[trigger] fs[i]),
    ensures
        ({
            let (c, v) = s.fed(w, fs);
            let n = fs.len();
            let waiting = if n < 3 {
                n
            } else {
                3
            };
            &&& c.rx0 == fs.skip(n - waiting)
            &&& c.rf0r & RF_FMP_MASK == waiting
            &&& (c.rf0r & RF_FULL != 0 <==> n >= 3)
            &&& (c.rf0r & RF_FOVR != 0 <==> n >= 4)
            &&& c == (CanView { rx0: c.rx0, rf0r: fifo_word(n), ..s })
            &&& v == w.pend_if(n > 0 && s.ier & IER_FMPIE0 != 0, s.irq_rx0)
        }),
    decreases fs.len(),
{
    let n = fs.len();
    lemma_fifo_word(n);
    if n == 0 {
        assert(fs.skip(0) =~= s.rx0);
        assert(s.fed(w, fs).0 =~= s);
    } else {
        let front = fs.drop_last();
        assert forall|i: int| 0 <= i < front.len() implies s.filter_pass(#[trigger] front[i]) by {
            assert(front[i] == fs[i]);
        }
        law_fifo_keeps_the_last_three(s, w, front);
        let (c, v) = s.fed(w, front);
        assert(fs[n - 1] == fs.last());
        assert(s.filter_pass(fs.last()));
        assert(c.filter_pass(fs.last())) by {
            if s.fa1r != 0 {
                let i = choose|i: int| 0 <= i < 28 && #[trigger] s.filter_matches(i, fs.last());
                assert(c.filter_matches(i, fs.last()));
            }
        }
        lemma_fifo_word((n - 1) as nat);
        let (d, u) = c.feed_rx(v, fs.last());
        if n <= 3 {
            assert(d.rx0 =~= fs.skip(0));
        } else {
            assert(d.rx0 =~= fs.skip(n - 3));
        }
        lemma_pend_again(w, s.irq_rx0);
        assert(d =~= (CanView { rx0: d.rx0, rf0r: fifo_word(n), ..s }));
    }
}

/// A transmit request sends the mailbox at once: its frame goes out, the request is complete and
/// the mailbox free again, and the line is raised if that is enabled. Without the request bit
/// nothing goes out.
pub proof fn law_request_sends_the_mailbox(s: CanView, w: WiresView, m: int, value: u32)
    requires
        s.wf(),
        0 <= m < 3,
        bits::has_bit(s.tsr, 26 + m),
        s.connected,
    ensures
        ({
            let (t, v, r) = s.write(w, (0x180 + 16 * m) as u32, 4, value);
            let box1 = Mailbox { ti: (value & !1u32) | 1, ..s.tx[m] };
            let sent = w.publish(Event::CanFrame { frame: Box::new(frame_of(box1, s.port)) });
            &&& r is Ok
            &&& value & 1 == 0 ==> v == w && t.tsr == s.tsr && t.tx[m].ti == value & !1u32
            &&& value & 1 != 0 ==> {
                &&& v == if s.ier & 1 != 0 {
                    sent.pend(s.irq_tx)
                } else {
                    sent
                }
                &&& bits::has_bit(t.tsr, 8 * m) && bits::has_bit(t.tsr, 8 * m + 1) && bits::has_bit(
                    t.tsr,
                    26 + m,
                )
                &&& t.tx[m].ti & 1 == 0
            }
            &&& t.rx0 == s.rx0
        }),
{
    let box1 = Mailbox { ti: (value & !1u32) | 1, ..s.tx[m] };
    bits::lemma_mask(box1.ti, 1);
    let (a, b, c) = (bits::bit(8 * m), bits::bit(8 * m + 1), bits::bit(26 + m));
    let x = s.tsr & !c;
    let y = a | b | c;
    let ab = a | b;
    bits::lemma_bits_of_sets(x, y, 8 * m);
    bits::lemma_bits_of_sets(x, y, 8 * m + 1);
    bits::lemma_bits_of_sets(x, y, 26 + m);
    bits::lemma_bits_of_sets(ab, c, 8 * m);
    bits::lemma_bits_of_sets(ab, c, 8 * m + 1);
    bits::lemma_bits_of_sets(ab, c, 26 + m);
    bits::lemma_bits_of_sets(a, b, 8 * m);
    bits::lemma_bits_of_sets(a, b, 8 * m + 1);
    bits::lemma_single_bits(8 * m, 8 * m);
    bits::lemma_single_bits(8 * m + 1, 8 * m + 1);
    bits::lemma_single_bits(26 + m, 26 + m);
}

/// The frame of a mailbox: the identifier is the top 11 bits of its first word, or with bit 2 set
/// the top 29; bit 1 makes it a remote frame. The length is the four bits from bit 16 of the
/// second word, at most 8, and the eight bytes follow, lowest first.
pub proof fn law_mailbox_layout(m: Mailbox, port: u8)
    ensures
        ({
            let f = frame_of(m, port);
            let n = (m.tdt / 0x1_0000) % 16;
            &&& f.port == port
            &&& f.ext <==> m.ti & 4 != 0
            &&& f.rtr <==> m.ti & 2 != 0
            &&& f.id == if m.ti & 4 != 0 {
                m.ti / 8
            } else {
                m.ti / 0x20_0000
            }
            &&& f.dlc == if n < 8 {
                n
            } else {
                8
            }
            &&& f.data@[0] == m.dl % 256 && f.data@[1] == (m.dl / 0x100) % 256
            &&& f.data@[2] == (m.dl / 0x1_0000) % 256 && f.data@[3] == m.dl / 0x100_0000
            &&& f.data@[4] == m.dh % 256 && f.data@[5] == (m.dh / 0x100) % 256
            &&& f.data@[6] == (m.dh / 0x1_0000) % 256 && f.data@[7] == m.dh / 0x100_0000
        }),
{
    bits::law_bytes_are_digits(m.dl, 0, 0, 0, 0);
    bits::law_bytes_are_digits(m.dh, 0, 0, 0, 0);
}

/// Which frames are received: all of them while no filter is active, else those whose identifier
/// and format are those of an active filter. A frame that is not received changes nothing.
pub proof fn law_filters(s: CanView, w: WiresView, f: CanFrame, i: int)
    requires
        s.wf(),
        0 <= i < 28,
    ensures
        s.fa1r == 0 ==> s.filter_pass(f),
        s.filter_matches(i, f) <==> {
            let word = s.filters[2 * i];
            &&& bits::has_bit(s.fa1r, i)
            &&& f.ext <==> word & 4 != 0
            &&& f.id == if word & 4 != 0 {
                word / 8
            } else {
                word / 0x20_0000
            }
        },
        s.filter_matches(i, f) ==> s.filter_pass(f),
        s.fa1r != 0 && (forall|j: int| 0 <= j < 28 ==> !#[trigger] s.filter_matches(j, f))
            ==> s.feed_rx(w, f) == (s, w),
{
}

/// A received frame raises the receive line if that is enabled, and an error the error line; a
/// frame that finds the queue full and locked raises nothing. The gravest error is shown.
pub proof fn law_can_lines(s: CanView, w: WiresView, f: CanFrame, ewgf: bool, epvf: bool, boff: bool)
    requires
        s.wf(),
        s.filter_pass(f),
    ensures
        s.feed_rx(w, f).1 == if s.ier & 2 != 0 && !(s.rx0.len() >= 3 && s.mcr & 8 != 0) {
            w.pend(s.irq_rx0)
        } else {
            w
        },
        ({
            let (t, v) = s.inject_error(w, ewgf, epvf, boff);
            let base = s.esr & !ESR_FLAGS;
            &&& v == if s.ier & 0x80 != 0 {
                w.pend(s.irq_sce)
            } else {
                w
            }
            &&& t.esr == if boff {
                base | ESR_BUS_OFF
            } else if epvf {
                base | ESR_PASSIVE
            } else if ewgf {
                base | ESR_WARNING
            } else {
                base
            }
            &&& t.rx0 == s.rx0 && t.tsr == s.tsr
        }),
{
}

/// The receive registers show the oldest frame that waits, and zeros if there is none; writing
/// the release bit makes the next one the oldest.
pub proof fn law_oldest_frame_is_shown(s: CanView, w: WiresView, reg: int)
    requires
        s.wf(),
        0 <= reg < 4,
    ensures
        s.read((0x1B0 + 4 * reg) as u32, 4) == Ok::<u32, BusError>(
            if s.rx0.len() > 0 {
                rx_word(s.rx0[0], reg)
            } else {
                0
            },
        ),
        s.rx0.len() > 1 ==> s.write(w, 0x0C, 4, 0x20).0.rx0[0] == s.rx0[1],
        s.write(w, 0x0C, 4, 0).0 == s,
{
    bits::lemma_mask(RF_RFOM, RF_RFOM);
    bits::lemma_mask(RF_RFOM, 0);
}

/// Initialisation is acknowledged with its request and ends with it; the mailbox words and the
/// filters hold what was written.
pub proof fn law_can_registers(s: CanView, w: WiresView, value: u32, m: int, k: int)
    requires
        s.wf(),
        0 <= m < 3,
        0 <= k < 56,
    ensures
        s.mcr & 1 == 0 && (value & MCR_WR_MASK) & 0x8000 == 0 && (value & MCR_WR_MASK) & 1 != 0
            ==> s.write(w, 0, 4, value).0.msr == s.msr | 1,
        s.mcr & 1 != 0 && (value & MCR_WR_MASK) & 0x8000 == 0 && (value & MCR_WR_MASK) & 1 == 0
            ==> s.write(w, 0, 4, value).0.msr == s.msr & !1u32,
        s.write(w, (0x184 + 16 * m) as u32, 4, value).0.tx[m] == (Mailbox { tdt: value, ..s.tx[m] }),
        s.write(w, (0x188 + 16 * m) as u32, 4, value).0.tx[m] == (Mailbox { dl: value, ..s.tx[m] }),
        s.write(w, (0x18C + 16 * m) as u32, 4, value).0.tx[m] == (Mailbox { dh: value, ..s.tx[m] }),
        s.write(w, (0x420 + 4 * k) as u32, 4, value).0.filters == s.filters.update(k, value),
        s.write(w, 0x41C, 4, value).0.fa1r == value,
        s.write(w, 0x14, 4, value).0.ier == value & 0x1FF,
{
}

/// The registers of the controller are where the chip has them; the filter registers read back
/// what was written, and writing one of them changes no other.
pub proof fn law_can_register_map(s: CanView, w: WiresView, value: u32, m: int, k: int)
    requires
        s.wf(),
        0 <= m < 3,
        0 <= k < 56,
    ensures
        s.read(0x00, 4) == Ok::<u32, BusError>(s.mcr),
        s.read(0x04, 4) == Ok::<u32, BusError>(s.msr),
        s.read(0x08, 4) == Ok::<u32, BusError>(s.tsr),
        s.read(0x0C, 4) == Ok::<u32, BusError>(s.rf0r),
        s.read(0x10, 4) == Ok::<u32, BusError>(s.rf1r),
        s.read(0x14, 4) == Ok::<u32, BusError>(s.ier),
        s.read(0x18, 4) == Ok::<u32, BusError>(s.esr),
        s.read(0x1C, 4) == Ok::<u32, BusError>(s.btr),
        s.read((0x180 + 16 * m) as u32, 4) == Ok::<u32, BusError>(s.tx[m].ti),
        s.read((0x184 + 16 * m) as u32, 4) == Ok::<u32, BusError>(s.tx[m].tdt),
        s.read((0x188 + 16 * m) as u32, 4) == Ok::<u32, BusError>(s.tx[m].dl),
        s.read((0x18C + 16 * m) as u32, 4) == Ok::<u32, BusError>(s.tx[m].dh),
        s.read(0x404, 4) == Ok::<u32, BusError>(s.fm1r),
        s.read(0x40C, 4) == Ok::<u32, BusError>(s.fs1r),
        s.read(0x414, 4) == Ok::<u32, BusError>(s.ffa1r),
        s.read(0x41C, 4) == Ok::<u32, BusError>(s.fa1r),
        s.read((0x420 + 4 * k) as u32, 4) == Ok::<u32, BusError>(s.filters[k]),
        s.write(w, 0x404, 4, value).0 == (CanView { fm1r: value, ..s }),
        s.write(w, 0x40C, 4, value).0 == (CanView { fs1r: value, ..s }),
        s.write(w, 0x414, 4, value).0 == (CanView { ffa1r: value, ..s }),
        s.write(w, 0x41C, 4, value).0 == (CanView { fa1r: value, ..s }),
        s.write(w, 0x1C, 4, value).0 == (CanView { btr: value, ..s }),
{
}

} // verus!
