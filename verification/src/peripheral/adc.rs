//! The analog-to-digital converters.
//!
//! A sample that arrives at a switched-on converter is latched and ends a conversion (EOC).
//! Reading the data register takes EOC down. The three converters share interrupt 18. Setting
//! the start bit completes a conversion at once, with the sample latched last.
//!
//! Offsets: SR 0x00, CR1 0x04, CR2 0x08, then sample times, offsets, thresholds, sequences and
//! injected data up to DR 0x4C.
use crate::bits;
use crate::peripheral::dma::DmaByteIo;
use crate::peripheral::{BusError, Peripheral};
use crate::wires::{Wires, WiresView};
use vstd::prelude::*;

verus! {

pub const ADC_IRQ: u32 = 18;

pub const SR_EOC: u32 = 0x2;

pub const CR1_EOCIE: u32 = 0x20;

pub const CR2_ADON: u32 = 0x1;

pub const CR2_DMA: u32 = 0x100;

pub const CR2_SWSTART: u32 = 0x4000_0000;

pub const OFF_SR: u32 = 0x00;

pub const OFF_CR1: u32 = 0x04;

pub const OFF_CR2: u32 = 0x08;

pub const OFF_DR: u32 = 0x4C;

/// Analog-to-digital converter.
pub struct Adc {
    pub port: u8,
    irq: u32,
    regs: [u32; 20],
    conversion_value: u16,
}

/// The state of a converter.
#[verifier::ext_equal]
pub struct AdcView {
    pub port: u8,
    pub irq: u32,
    /// The register file, by offset divided by four.
    pub regs: Seq<u32>,
    /// The sample latched last.
    pub conversion_value: u16,
}

impl View for Adc {
    type V = AdcView;

    closed spec fn view(&self) -> AdcView {
        AdcView {
            port: self.port,
            irq: self.irq,
            regs: self.regs@,
            conversion_value: self.conversion_value,
        }
    }
}

impl AdcView {
    pub open spec fn fresh(port: u8, irq: u32) -> AdcView {
        AdcView { port, irq, regs: Seq::new(20, |i: int| 0u32), conversion_value: 0 }
    }

    pub open spec fn wf(self) -> bool {
        self.regs.len() == 20 && self.irq < 96
    }

    pub open spec fn sr(self) -> u32 {
        self.regs[0]
    }

    pub open spec fn with_sr(self, sr: u32) -> AdcView {
        AdcView { regs: self.regs.update(0, sr), ..self }
    }

    pub open spec fn irq_due(self) -> bool {
        self.regs[1] & CR1_EOCIE != 0 && self.sr() & SR_EOC != 0
    }

    pub open spec fn dma_pending(self) -> bool {
        self.regs[2] & CR2_DMA != 0 && self.sr() & SR_EOC != 0
    }

    /// A sample arrives; a converter that is off drops it.
    pub open spec fn feed_value(self, w: WiresView, value: u16) -> (AdcView, WiresView) {
        if self.regs[2] & CR2_ADON == 0 {
            (self, w)
        } else {
            let s = AdcView { conversion_value: value, ..self.with_sr(self.sr() | SR_EOC) };
            (s, w.pend_if(s.irq_due(), s.irq))
        }
    }

    /// The sample is taken.
    pub open spec fn taken(self) -> AdcView {
        self.with_sr(self.sr() & !SR_EOC)
    }

    pub open spec fn read(self, offset: u32, size: u32) -> (AdcView, Result<u32, BusError>) {
        if size != 4 {
            (self, Err(BusError::NotImplemented))
        } else if offset == OFF_DR {
            (self.taken(), Ok(self.conversion_value as u32))
        } else if offset < OFF_DR {
            (self, Ok(self.regs[offset as int / 4]))
        } else {
            (self, Err(BusError::OutOfRange))
        }
    }

    pub open spec fn write(self, w: WiresView, offset: u32, size: u32, value: u32) -> (
        AdcView,
        WiresView,
        Result<(), BusError>,
    ) {
        if size != 4 {
            (self, w, Err(BusError::NotImplemented))
        } else if offset == OFF_SR {
            (
                if value & SR_EOC == 0 {
                    self.taken()
                } else {
                    self
                },
                w,
                Ok(()),
            )
        } else if offset <= OFF_DR {
            let s = AdcView { regs: self.regs.update(offset as int / 4, value), ..self };
            let s1 = if offset == OFF_CR2 && value & CR2_SWSTART != 0 {
                let t = AdcView { regs: s.regs.update(2, value & !CR2_SWSTART), ..s };
                if (value & !CR2_SWSTART) & CR2_ADON != 0 {
                    t.with_sr(t.sr() | SR_EOC)
                } else {
                    t
                }
            } else {
                s
            };
            (
                s1,
                w.pend_if((offset == OFF_CR1 || offset == OFF_CR2) && s1.irq_due(), s1.irq),
                Ok(()),
            )
        } else {
            (self, w, Err(BusError::OutOfRange))
        }
    }
}

impl Adc {
    pub fn new(port: u8, irq: u32) -> (r: Self)
        requires
            irq < 96,
        ensures
            r@ == AdcView::fresh(port, irq),
            r@.wf(),
    {
        let r = Adc { port, irq, regs: bits::filled(0), conversion_value: 0 };
        assert(r@ =~= AdcView::fresh(port, irq));
        r
    }

    fn set_pending_if_irq(&self, w: &mut Wires)
        requires
            self@.wf(),
        ensures
            final(w)@ == old(w)@.pend_if(self@.irq_due(), self@.irq),
    {
        if self.regs[1] & CR1_EOCIE != 0 && self.regs[0] & SR_EOC != 0 {
            w.pend(self.irq);
        }
    }

    /// A sample arrives.
    pub fn feed_value(&mut self, w: &mut Wires, value: u16)
        requires
            old(self)@.wf(),
        ensures
            final(self)@.wf(),
            (final(self)@, final(w)@) == old(self)@.feed_value(old(w)@, value),
    {
        if self.regs[2] & CR2_ADON == 0 {
            return ;
        }
        self.conversion_value = value;
        self.regs[0] = self.regs[0] | SR_EOC;
        self.set_pending_if_irq(w);
    }

    /// Does a sample wait for the DMA?
    pub fn dma_pending(&self) -> (r: bool)
        ensures
            r == self@.dma_pending(),
    {
        self.regs[2] & CR2_DMA != 0 && self.regs[0] & SR_EOC != 0
    }

    /// Takes the sample, as a read of the data register does.
    pub fn dma_read_dr(&mut self) -> (r: u32)
        ensures
            r == old(self)@.conversion_value,
            final(self)@ == old(self)@.taken(),
    {
        self.regs[0] = self.regs[0] & !SR_EOC;
        self.conversion_value as u32
    }

    /// The data register cannot be written.
    pub fn dma_write_dr(&mut self, value: u32)
        ensures
            final(self)@ == old(self)@,
    {
    }
}

impl DmaByteIo for Adc {
    open spec fn dr_inv(s: AdcView) -> bool {
        s.wf()
    }

    open spec fn dr_ready(s: AdcView) -> bool {
        true
    }

    open spec fn dr_read_of(s: AdcView, w: WiresView) -> (AdcView, WiresView, u32) {
        (s.taken(), w, s.conversion_value as u32)
    }

    open spec fn dr_write_of(s: AdcView, w: WiresView, value: u32) -> (AdcView, WiresView) {
        (s, w)
    }

    fn dma_dr_ready(&self) -> bool {
        true
    }

    fn dma_read_dr(&mut self, w: &mut Wires) -> u32 {
        Adc::dma_read_dr(self)
    }

    fn dma_write_dr(&mut self, w: &mut Wires, value: u32) {
        Adc::dma_write_dr(self, value);
    }
}

impl Peripheral for Adc {
    open spec fn inv(s: AdcView) -> bool {
        s.wf()
    }

    open spec fn readable(s: AdcView, w: WiresView, offset: u32, size: u32) -> bool {
        true
    }

    open spec fn read_of(s: AdcView, w: WiresView, offset: u32, size: u32) -> (
        AdcView,
        WiresView,
        Result<u32, BusError>,
    ) {
        let (s1, r) = s.read(offset, size);
        (s1, w, r)
    }

    open spec fn writable(s: AdcView, w: WiresView, offset: u32, size: u32, value: u32) -> bool {
        true
    }

    open spec fn write_of(s: AdcView, w: WiresView, offset: u32, size: u32, value: u32) -> (
        AdcView,
        WiresView,
        Result<(), BusError>,
    ) {
        s.write(w, offset, size, value)
    }

    open spec fn reset_of(s: AdcView, w: WiresView) -> (AdcView, WiresView) {
        (AdcView::fresh(s.port, s.irq), w)
    }

    open spec fn tickable(s: AdcView, w: WiresView, cycles: u64) -> bool {
        true
    }

    open spec fn tick_of(s: AdcView, w: WiresView, cycles: u64) -> (AdcView, WiresView) {
        (s, w)
    }

    open spec fn label(s: AdcView) -> Seq<char> {
        "ADC"@
    }

    fn name(&self) -> &str {
        "ADC"
    }

    fn read(&mut self, w: &mut Wires, offset: u32, size: u32) -> Result<u32, BusError> {
        if size != 4 {
            return Err(BusError::NotImplemented);
        }
        if offset == OFF_DR {
            Ok(Adc::dma_read_dr(self))
        } else if offset < OFF_DR {
            Ok(self.regs[(offset / 4) as usize])
        } else {
            Err(BusError::OutOfRange)
        }
    }

    fn write(&mut self, w: &mut Wires, offset: u32, size: u32, value: u32) -> Result<(), BusError> {
        if size != 4 {
            return Err(BusError::NotImplemented);
        }
        if offset == OFF_SR {
            if value & SR_EOC == 0 {
                self.regs[0] = self.regs[0] & !SR_EOC;
            }
            Ok(())
        } else if offset <= OFF_DR {
            self.regs[(offset / 4) as usize] = value;
            if offset == OFF_CR1 || offset == OFF_CR2 {
                if offset == OFF_CR2 && value & CR2_SWSTART != 0 {
                    self.regs[2] = self.regs[2] & !CR2_SWSTART;
                    if self.regs[2] & CR2_ADON != 0 {
                        self.regs[0] = self.regs[0] | SR_EOC;
                    }
                }
                self.set_pending_if_irq(w);
            }
            Ok(())
        } else {
            Err(BusError::OutOfRange)
        }
    }

    fn reset(&mut self, w: &mut Wires) {
        self.regs = bits::filled(0);
        self.conversion_value = 0;
        assert(self@ =~= AdcView::fresh(old(self)@.port, old(self)@.irq));
    }

    fn tick(&mut self, w: &mut Wires, cycles: u64) {
    }
}

/// A sample that reaches a switched-on converter is what is read, by the processor and by the
/// DMA alike, and reading ends the conversion.
pub proof fn law_sample_is_read(s: AdcView, w: WiresView, value: u16)
    requires
        s.wf(),
        s.regs[2] & CR2_ADON != 0,
    ensures
        ({
            let t = s.feed_value(w, value).0;
            &&& t.sr() & SR_EOC != 0
            &&& t.read(OFF_DR, 4).1 == Ok::<u32, BusError>(value as u32)
            &&& Adc::dr_read_of(t, w).2 == value
            &&& t.read(OFF_DR, 4).0.sr() & SR_EOC == 0
            &&& t.read(OFF_DR, 4).0 == Adc::dr_read_of(t, w).0
        }),
{
    crate::bits::lemma_mask(s.sr(), SR_EOC);
    crate::bits::lemma_mask(s.sr() | SR_EOC, SR_EOC);
}

/// A sample that reaches a switched-on converter raises the line if the end-of-conversion
/// interrupt is enabled, and asks for a transfer if transfers are; one that is off drops it.
pub proof fn law_sample_is_announced(s: AdcView, w: WiresView, value: u16)
    requires
        s.wf(),
    ensures
        s.regs[2] & 1 == 0 ==> s.feed_value(w, value) == (s, w),
        s.regs[2] & 1 != 0 ==> {
            let (t, v) = s.feed_value(w, value);
            &&& v == if s.regs[1] & 0x20 != 0 {
                w.pend(s.irq)
            } else {
                w
            }
            &&& t.dma_pending() <==> s.regs[2] & 0x100 != 0
            &&& t.conversion_value == value
            &&& t.regs[0] == s.regs[0] | 2
            &&& forall|i: int| 1 <= i < 20 ==> #[trigger] t.regs[i] == s.regs[i]
        },
{
    crate::bits::lemma_mask(s.sr(), SR_EOC);
}

/// A software start of a switched-on converter ends a conversion at once; the start bit does not
/// stay. The end flag is cleared by writing a zero to it and by nothing else in the status word.
pub proof fn law_software_start(s: AdcView, w: WiresView, value: u32)
    requires
        s.wf(),
    ensures
        ({
            let (t, v, r) = s.write(w, 8, 4, value);
            &&& r is Ok
            &&& t.regs[2] == value & !0x4000_0000u32 || value & 0x4000_0000 == 0 && t.regs[2] == value
            &&& t.regs[0] == if value & 0x4000_0000 != 0 && (value & !0x4000_0000u32) & 1 != 0 {
                s.regs[0] | 2
            } else {
                s.regs[0]
            }
            &&& v == if s.regs[1] & 0x20 != 0 && t.regs[0] & 2 != 0 {
                w.pend(s.irq)
            } else {
                w
            }
        }),
        ({
            let (t, v, r) = s.write(w, 0, 4, value);
            &&& r is Ok && v == w
            &&& t.regs[0] == if value & 2 == 0 {
                s.regs[0] & !2u32
            } else {
                s.regs[0]
            }
            &&& t.conversion_value == s.conversion_value
        }),
{
}

} // verus!
