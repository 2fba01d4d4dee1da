//! The I2C controllers.
//!
//! Enabling the controller makes it ready to send. A written byte is published; a received one
//! is latched and sets RxNE, and OVR too if the one before was not read. With the event and
//! the buffer interrupt both enabled, the event line goes up while RxNE or TxE is set. With DMA
//! enabled, requests are published for a free transmitter and for a received byte.
//!
//! Offsets: CR1 0x00, CR2 0x04, OAR1 0x08, OAR2 0x0C, DR 0x10, SR1 0x14, SR2 0x18, CCR 0x1C,
//! TRISE 0x20.
use crate::bits;
use crate::events::Event;
use crate::peripheral::dma::{DmaByteIo, DmaDir};
use crate::peripheral::{BusError, Peripheral};
use crate::wires::{Wires, WiresView};
use vstd::prelude::*;

verus! {

pub const I2C1_EV_IRQ: u32 = 31;

pub const I2C2_EV_IRQ: u32 = 33;

pub const I2C3_EV_IRQ: u32 = 72;

pub const SR1_RXNE: u32 = 0x40;

pub const SR1_TXE: u32 = 0x80;

/// A byte received or a transmitter free.
pub const SR1_BUFFER: u32 = 0xC0;

pub const SR1_OVR: u32 = 0x800;

/// The error flags that a written zero clears: BERR, ARLO, AF, OVR.
pub const SR1_ERRORS: u32 = 0xF00;

pub const CR1_PE: u32 = 0x1;

/// The event and the buffer interrupt enable.
pub const CR2_ITBUF_ITEVT: u32 = 0x600;

pub const CR2_DMAEN: u32 = 0x800;

pub const OFF_CR1: u32 = 0x00;

pub const OFF_CR2: u32 = 0x04;

pub const OFF_DR: u32 = 0x10;

pub const OFF_SR1: u32 = 0x14;

/// I2C controller.
pub struct I2c {
    pub port: u8,
    irq_ev: u32,
    regs: [u32; 9],
    rx_byte: u8,
}

/// The state of a controller.
#[verifier::ext_equal]
pub struct I2cView {
    pub port: u8,
    pub irq_ev: u32,
    /// The register file, by offset divided by four.
    pub regs: Seq<u32>,
    /// The byte received last.
    pub rx_byte: u8,
}

impl View for I2c {
    type V = I2cView;

    closed spec fn view(&self) -> I2cView {
        I2cView { port: self.port, irq_ev: self.irq_ev, regs: self.regs@, rx_byte: self.rx_byte }
    }
}

impl I2cView {
    pub open spec fn fresh(port: u8, irq_ev: u32) -> I2cView {
        I2cView { port, irq_ev, regs: Seq::new(9, |i: int| 0u32), rx_byte: 0 }
    }

    pub open spec fn wf(self) -> bool {
        self.regs.len() == 9 && self.irq_ev < 96
    }

    pub open spec fn enabled(self) -> bool {
        self.regs[0] & CR1_PE != 0
    }

    pub open spec fn cr2(self) -> u32 {
        self.regs[1]
    }

    pub open spec fn sr(self) -> u32 {
        self.regs[5]
    }

    pub open spec fn with_sr(self, sr: u32) -> I2cView {
        I2cView { regs: self.regs.update(5, sr), ..self }
    }

    /// Is the interrupt line up?
    pub open spec fn irq_due(self) -> bool {
        self.cr2() & CR2_ITBUF_ITEVT == CR2_ITBUF_ITEVT && self.sr() & SR1_BUFFER != 0
    }

    /// A received byte waits for the DMA.
    pub open spec fn dma_rx_pending(self) -> bool {
        self.cr2() & CR2_DMAEN != 0 && self.sr() & SR1_RXNE != 0
    }

    pub open spec fn dma_tx_ready(self) -> bool {
        self.cr2() & CR2_DMAEN != 0 && self.sr() & SR1_TXE != 0
    }

    /// A byte arrives; a disabled controller drops it.
    pub open spec fn feed_rx(self, w: WiresView, byte: u8) -> (I2cView, WiresView) {
        if !self.enabled() {
            (self, w)
        } else {
            let sr = if self.sr() & SR1_RXNE != 0 {
                self.sr() | SR1_OVR
            } else {
                self.sr()
            };
            let s = I2cView { rx_byte: byte, ..self.with_sr(sr | SR1_RXNE) };
            (s, w.pend_if(s.irq_due(), s.irq_ev))
        }
    }

    /// The received byte is taken.
    pub open spec fn taken(self) -> I2cView {
        self.with_sr(self.sr() & !SR1_RXNE)
    }

    /// A byte goes out; a disabled controller drops it.
    pub open spec fn sent(self, w: WiresView, byte: u8) -> (I2cView, WiresView) {
        (
            self.with_sr(self.sr() | SR1_TXE),
            w.publish_if(self.enabled(), Event::I2cByte { port: self.port, byte }),
        )
    }

    /// The requests that the DMA enable bits and the flags make.
    pub open spec fn request_dma(self, w: WiresView) -> WiresView {
        w.publish_if(
            self.dma_tx_ready(),
            Event::I2cDma { port: self.port, dir: DmaDir::MemToPeriph },
        ).publish_if(
            self.dma_rx_pending(),
            Event::I2cDma { port: self.port, dir: DmaDir::PeriphToMem },
        )
    }

    pub open spec fn read(self, offset: u32, size: u32) -> (I2cView, Result<u32, BusError>) {
        if size != 4 {
            (self, Err(BusError::NotImplemented))
        } else if offset == OFF_DR {
            (self.taken(), Ok(self.rx_byte as u32))
        } else if offset <= 0x20 {
            (self, Ok(self.regs[offset as int / 4]))
        } else {
            (self, Err(BusError::OutOfRange))
        }
    }

    pub open spec fn write(self, w: WiresView, offset: u32, size: u32, value: u32) -> (
        I2cView,
        WiresView,
        Result<(), BusError>,
    ) {
        if size != 4 {
            (self, w, Err(BusError::NotImplemented))
        } else if offset == OFF_SR1 {
            (self.with_sr(self.sr() & !(!value & SR1_ERRORS)), w, Ok(()))
        } else if offset == OFF_DR {
            if self.enabled() {
                let (s, w1) = self.sent(w, (value & 0xFF) as u8);
                (s, w1.pend_if(s.irq_due(), s.irq_ev), Ok(()))
            } else {
                (self.with_sr(self.sr() | SR1_TXE), w, Ok(()))
            }
        } else if offset <= 0x20 {
            let s = I2cView { regs: self.regs.update(offset as int / 4, value), ..self };
            if offset == OFF_CR1 {
                let s1 = s.with_sr(
                    if value & CR1_PE != 0 {
                        s.sr() | SR1_TXE
                    } else {
                        s.sr() & !SR1_TXE
                    },
                );
                (s1, w.pend_if(s1.irq_due(), s1.irq_ev), Ok(()))
            } else if offset == OFF_CR2 {
                (s, s.request_dma(w.pend_if(s.irq_due(), s.irq_ev)), Ok(()))
            } else {
                (s, w, Ok(()))
            }
        } else {
            (self, w, Err(BusError::OutOfRange))
        }
    }
}

impl I2c {
    pub fn new(port: u8, irq_ev: u32) -> (r: Self)
        requires
            irq_ev < 96,
        ensures
            r@ == I2cView::fresh(port, irq_ev),
            r@.wf(),
    {
        let r = I2c { port, irq_ev, regs: bits::filled(0), rx_byte: 0 };
        assert(r@ =~= I2cView::fresh(port, irq_ev));
        r
    }

    fn tx(&self, w: &mut Wires, byte: u8)
        ensures
            final(w)@ == old(w)@.publish_if(
                self@.enabled(),
                Event::I2cByte { port: self@.port, byte },
            ),
    {
        if self.regs[0] & CR1_PE != 0 {
            w.publish(Event::I2cByte { port: self.port, byte });
        }
    }

    fn set_pending_if_buf(&self, w: &mut Wires)
        requires
            self@.wf(),
        ensures
            final(w)@ == old(w)@.pend_if(self@.irq_due(), self@.irq_ev),
    {
        let cr2: u32 = self.regs[1];
        let sr: u32 = self.regs[5];
        if cr2 & CR2_ITBUF_ITEVT == CR2_ITBUF_ITEVT && sr & SR1_BUFFER != 0 {
            w.pend(self.irq_ev);
        }
    }

    /// A byte arrives.
    pub fn feed_rx(&mut self, w: &mut Wires, byte: u8)
        requires
            old(self)@.wf(),
        ensures
            final(self)@.wf(),
            (final(self)@, final(w)@) == old(self)@.feed_rx(old(w)@, byte),
    {
        if self.regs[0] & CR1_PE == 0 {
            return ;
        }
        let mut sr: u32 = self.regs[5];
        if sr & SR1_RXNE != 0 {
            sr = sr | SR1_OVR;
        }
        self.rx_byte = byte;
        self.regs[5] = sr | SR1_RXNE;
        self.set_pending_if_buf(w);
    }

    pub fn dma_rx_pending(&self) -> (r: bool)
        ensures
            r == self@.dma_rx_pending(),
    {
        self.regs[1] & CR2_DMAEN != 0 && self.regs[5] & SR1_RXNE != 0
    }

    pub fn tx_ready(&self) -> (r: bool)
        ensures
            r == (self@.sr() & SR1_TXE != 0),
    {
        self.regs[5] & SR1_TXE != 0
    }

    /// Takes the received byte, as a read of the data register does.
    pub fn dma_read_dr(&mut self) -> (r: u8)
        ensures
            r == old(self)@.rx_byte,
            final(self)@ == old(self)@.taken(),
    {
        self.regs[5] = self.regs[5] & !SR1_RXNE;
        self.rx_byte
    }

    /// Sends a byte, as a write of the data register does.
    pub fn dma_write_dr(&mut self, w: &mut Wires, byte: u8)
        ensures
            (final(self)@, final(w)@) == old(self)@.sent(old(w)@, byte),
    {
        self.tx(w, byte);
        self.regs[5] = self.regs[5] | SR1_TXE;
    }

    fn check_dma_request(&self, w: &mut Wires)
        ensures
            final(w)@ == self@.request_dma(old(w)@),
    {
        if self.regs[1] & CR2_DMAEN != 0 && self.regs[5] & SR1_TXE != 0 {
            w.publish(Event::I2cDma { port: self.port, dir: DmaDir::MemToPeriph });
        }
        if self.regs[1] & CR2_DMAEN != 0 && self.regs[5] & SR1_RXNE != 0 {
            w.publish(Event::I2cDma { port: self.port, dir: DmaDir::PeriphToMem });
        }
    }
}

impl DmaByteIo for I2c {
    open spec fn dr_inv(s: I2cView) -> bool {
        s.wf()
    }

    open spec fn dr_ready(s: I2cView) -> bool {
        true
    }

    open spec fn dr_read_of(s: I2cView, w: WiresView) -> (I2cView, WiresView, u32) {
        (s.taken(), w, s.rx_byte as u32)
    }

    open spec fn dr_write_of(s: I2cView, w: WiresView, value: u32) -> (I2cView, WiresView) {
        s.sent(w, value as u8)
    }

    fn dma_dr_ready(&self) -> bool {
        true
    }

    fn dma_read_dr(&mut self, w: &mut Wires) -> u32 {
        I2c::dma_read_dr(self) as u32
    }

    fn dma_write_dr(&mut self, w: &mut Wires, value: u32) {
        I2c::dma_write_dr(self, w, value as u8);
    }
}

impl Peripheral for I2c {
    open spec fn inv(s: I2cView) -> bool {
        s.wf()
    }

    open spec fn readable(s: I2cView, w: WiresView, offset: u32, size: u32) -> bool {
        true
    }

    open spec fn read_of(s: I2cView, w: WiresView, offset: u32, size: u32) -> (
        I2cView,
        WiresView,
        Result<u32, BusError>,
    ) {
        let (s1, r) = s.read(offset, size);
        (s1, w, r)
    }

    open spec fn writable(s: I2cView, w: WiresView, offset: u32, size: u32, value: u32) -> bool {
        true
    }

    open spec fn write_of(s: I2cView, w: WiresView, offset: u32, size: u32, value: u32) -> (
        I2cView,
        WiresView,
        Result<(), BusError>,
    ) {
        s.write(w, offset, size, value)
    }

    open spec fn reset_of(s: I2cView, w: WiresView) -> (I2cView, WiresView) {
        (I2cView::fresh(s.port, s.irq_ev), w)
    }

    open spec fn tickable(s: I2cView, w: WiresView, cycles: u64) -> bool {
        true
    }

    open spec fn tick_of(s: I2cView, w: WiresView, cycles: u64) -> (I2cView, WiresView) {
        (s, w)
    }

    open spec fn label(s: I2cView) -> Seq<char> {
        "I2C"@
    }

    fn name(&self) -> &str {
        "I2C"
    }

    fn read(&mut self, w: &mut Wires, offset: u32, size: u32) -> Result<u32, BusError> {
        if size != 4 {
            return Err(BusError::NotImplemented);
        }
        if offset == OFF_DR {
            Ok(I2c::dma_read_dr(self) as u32)
        } else if offset <= 0x20 {
            Ok(self.regs[(offset / 4) as usize])
        } else {
            Err(BusError::OutOfRange)
        }
    }

    fn write(&mut self, w: &mut Wires, offset: u32, size: u32, value: u32) -> Result<(), BusError> {
        if size != 4 {
            return Err(BusError::NotImplemented);
        }
        if offset == OFF_SR1 {
            let clear: u32 = !value & SR1_ERRORS;
            self.regs[5] = self.regs[5] & !clear;
            Ok(())
        } else if offset == OFF_DR {
            if self.regs[0] & CR1_PE != 0 {
                self.tx(w, (value & 0xFF) as u8);
                self.regs[5] = self.regs[5] | SR1_TXE;
                self.set_pending_if_buf(w);
            } else {
                self.regs[5] = self.regs[5] | SR1_TXE;
            }
            Ok(())
        } else if offset <= 0x20 {
            self.regs[(offset / 4) as usize] = value;
            if offset == OFF_CR1 {
                if value & CR1_PE != 0 {
                    self.regs[5] = self.regs[5] | SR1_TXE;
                } else {
                    self.regs[5] = self.regs[5] & !SR1_TXE;
                }
                self.set_pending_if_buf(w);
            }
            if offset == OFF_CR2 {
                self.set_pending_if_buf(w);
                self.check_dma_request(w);
            }
            Ok(())
        } else {
            Err(BusError::OutOfRange)
        }
    }

    fn reset(&mut self, w: &mut Wires) {
        self.regs = bits::filled(0);
        self.rx_byte = 0;
        assert(self@ =~= I2cView::fresh(old(self)@.port, old(self)@.irq_ev));
    }

    fn tick(&mut self, w: &mut Wires, cycles: u64) {
    }
}

/// A byte that arrives at an enabled controller is the byte that is read, once.
pub proof fn law_received_byte_is_read(s: I2cView, w: WiresView, byte: u8)
    requires
        s.wf(),
        s.enabled(),
    ensures
        ({
            let t = s.feed_rx(w, byte).0;
            &&& t.sr() & SR1_RXNE != 0
            &&& t.read(OFF_DR, 4).1 == Ok::<u32, BusError>(byte as u32)
            &&& t.read(OFF_DR, 4).0.sr() & SR1_RXNE == 0
            &&& s.sr() & SR1_RXNE != 0 ==> t.sr() & SR1_OVR != 0
        }),
{
    let x = s.sr();
    bits::lemma_flags(x, SR1_RXNE, SR1_OVR);
    bits::lemma_flags(x | SR1_RXNE, SR1_RXNE, 0);
    bits::lemma_flags(x, SR1_OVR, SR1_RXNE);
    bits::lemma_flags(x | SR1_OVR, SR1_RXNE, 0);
    bits::lemma_flags(x | SR1_OVR | SR1_RXNE, SR1_RXNE, 0);
}

/// A disabled controller neither receives nor sends.
pub proof fn law_disabled_is_silent(s: I2cView, w: WiresView, byte: u8, value: u32)
    requires
        s.wf(),
        !s.enabled(),
    ensures
        s.feed_rx(w, byte) == (s, w),
        s.write(w, OFF_DR, 4, value).1 == w,
        s.sent(w, byte).1 == w,
{
}

/// The status register takes written zeros on the error flags only.
pub proof fn law_status_write_touches_errors_only(s: I2cView, w: WiresView, value: u32)
    requires
        s.wf(),
    ensures
        ({
            let t = s.write(w, OFF_SR1, 4, value).0;
            &&& t.sr() & !SR1_ERRORS == s.sr() & !SR1_ERRORS
            &&& t.sr() & SR1_ERRORS == (s.sr() & value) & SR1_ERRORS
        }),
{
    bits::lemma_flags(s.sr(), SR1_ERRORS, value);
}

/// When the interrupt is due and which transfers are asked for.
pub proof fn law_conditions(s: I2cView)
    requires
        s.wf(),
    ensures
        s.irq_due() <==> s.regs[1] & 0x600 == 0x600 && s.regs[5] & 0xC0 != 0,
        s.dma_rx_pending() <==> s.regs[1] & 0x800 != 0 && s.regs[5] & 0x40 != 0,
        s.dma_tx_ready() <==> s.regs[1] & 0x800 != 0 && s.regs[5] & 0x80 != 0,
        s.enabled() <==> s.regs[0] & 1 != 0,
{
}

/// A byte written to the data register of an enabled controller goes out as an event of its
/// port: the low eight bits. The transmitter is free at once, and the interrupt is raised if it
/// is due then.
pub proof fn law_written_byte_goes_out(s: I2cView, w: WiresView, value: u32)
    requires
        s.wf(),
        s.regs[0] & 1 != 0,
    ensures
        ({
            let (t, v, r) = s.write(w, 0x10, 4, value);
            let out = w.publish(Event::I2cByte { port: s.port, byte: (value % 256) as u8 });
            &&& r is Ok
            &&& t.regs[5] == s.regs[5] | 0x80
            &&& t.regs[5] & 0x80 != 0
            &&& t.regs[0] == s.regs[0] && t.regs[1] == s.regs[1] && t.rx_byte == s.rx_byte
            &&& v == if t.irq_due() {
                out.pend(s.irq_ev)
            } else {
                out
            }
        }),
{
    bits::lemma_mask(s.regs[5], 0x80);
    bits::lemma_low_byte(value);
}

/// A byte that arrives raises the interrupt if it is due then; the controller keeps everything
/// but the byte and the flags.
pub proof fn law_arrival_raises_the_line(s: I2cView, w: WiresView, byte: u8)
    requires
        s.wf(),
        s.regs[0] & 1 != 0,
    ensures
        ({
            let (t, v) = s.feed_rx(w, byte);
            &&& v == if t.irq_due() {
                w.pend(s.irq_ev)
            } else {
                w
            }
            &&& t.rx_byte == byte && t.regs[0] == s.regs[0] && t.regs[1] == s.regs[1]
            &&& t.regs[5] == if s.regs[5] & 0x40 != 0 {
                s.regs[5] | 0x800 | 0x40
            } else {
                s.regs[5] | 0x40
            }
        }),
{
}

/// Enabling the controller frees the transmitter, disabling it does not leave it free. Setting
/// the second control register asks for the transfers whose conditions hold, sending first.
pub proof fn law_control_writes(s: I2cView, w: WiresView, value: u32)
    requires
        s.wf(),
    ensures
        ({
            let (t, v, r) = s.write(w, 0, 4, value);
            &&& r is Ok && t.regs[0] == value && t.regs[1] == s.regs[1]
            &&& t.regs[5] & 0x80 != 0 <==> value & 1 != 0
            &&& t.regs[5] & !0x80u32 == s.regs[5] & !0x80u32
        }),
        ({
            let (t, v, r) = s.write(w, 4, 4, value);
            let w1 = if t.irq_due() {
                w.pend(s.irq_ev)
            } else {
                w
            };
            let w2 = if t.dma_tx_ready() {
                w1.publish(Event::I2cDma { port: s.port, dir: DmaDir::MemToPeriph })
            } else {
                w1
            };
            &&& r is Ok && t.regs == s.regs.update(1, value) && t.rx_byte == s.rx_byte
            &&& v == if t.dma_rx_pending() {
                w2.publish(Event::I2cDma { port: s.port, dir: DmaDir::PeriphToMem })
            } else {
                w2
            }
        }),
{
    bits::lemma_mask(s.regs[5], 0x80);
    bits::lemma_mask(s.regs[5], !0x80u32);
}

/// A DMA stream takes the received byte as the processor does, and sends a byte as the processor
/// does.
pub proof fn law_transfers_use_the_data_register(s: I2cView, w: WiresView, value: u32)
    requires
        s.wf(),
    ensures
        (I2c::dr_read_of(s, w).0, I2c::dr_read_of(s, w).2) == (
            s.read(OFF_DR, 4).0,
            s.rx_byte as u32,
        ),
        I2c::dr_read_of(s, w).1 == w,
        I2c::dr_read_of(s, w).0.regs[5] == s.regs[5] & !0x40u32,
        I2c::dr_write_of(s, w, value).1 == if s.enabled() {
            w.publish(Event::I2cByte { port: s.port, byte: (value % 256) as u8 })
        } else {
            w
        },
        I2c::dr_write_of(s, w, value).0 == s.write(w, OFF_DR, 4, value).0,
{
    bits::lemma_low_byte(value);
}

} // verus!
