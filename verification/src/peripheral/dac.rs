//! The digital-to-analog converter with its two channels.
//!
//! A trigger moves the held value of a channel to its output: the software trigger at once,
//! with the level published; a timer trigger with the level kept for the next tick. With the
//! channel's DMA bit, a software trigger also asks for the next value. A value that the DMA
//! writes is held and converted.
//!
//! Offsets: CR 0x00, SWTRIGR 0x04, DHR12R1 0x08, DHR12L1 0x0C, DHR8R1 0x10, DHR12R2 0x14,
//! DHR12L2 0x18, DHR8R2 0x1C, DHR12RD 0x20, DHR12LD 0x24, DHR8RD 0x28, DOR1 0x2C, DOR2 0x30,
//! SR 0x34.
use crate::bits;
use crate::events::Event;
use crate::peripheral::dma::{DmaByteIo, DmaDir};
use crate::peripheral::{BusError, Peripheral};
use crate::wires::{Wires, WiresView};
use vstd::prelude::*;

verus! {

pub const CR_EN1: u32 = 0x1;

pub const CR_TEN1: u32 = 0x4;

pub const CR_DMAEN1: u32 = 0x1000;

pub const CR_EN2: u32 = 0x1_0000;

pub const CR_TEN2: u32 = 0x4_0000;

pub const CR_DMAEN2: u32 = 0x1000_0000;

/// Either channel enabled.
pub const CR_EN_ANY: u32 = 0x1_0001;

pub const SWTRIG1: u32 = 0x1;

pub const SWTRIG2: u32 = 0x2;

pub const OFF_CR: u32 = 0x00;

pub const OFF_SWTRIGR: u32 = 0x04;

pub const OFF_DHR12R1: u32 = 0x08;

pub const OFF_DHR12L1: u32 = 0x0C;

pub const OFF_DHR8R1: u32 = 0x10;

pub const OFF_DHR12R2: u32 = 0x14;

pub const OFF_DHR12L2: u32 = 0x18;

pub const OFF_DHR8R2: u32 = 0x1C;

pub const OFF_DHR12RD: u32 = 0x20;

pub const OFF_DHR12LD: u32 = 0x24;

pub const OFF_DHR8RD: u32 = 0x28;

pub const OFF_DOR1: u32 = 0x2C;

pub const OFF_DOR2: u32 = 0x30;

pub const OFF_SR: u32 = 0x34;

/// The timer that a trigger selection names.
pub open spec fn timer_of(tsel: u32) -> Option<u8> {
    if tsel == 0 {
        Some(6u8)
    } else if tsel == 1 {
        Some(8u8)
    } else if tsel == 2 {
        Some(7u8)
    } else if tsel == 3 {
        Some(5u8)
    } else {
        None
    }
}

fn tsel_to_timer(tsel: u32) -> (r: Option<u8>)
    ensures
        r == timer_of(tsel),
{
    match tsel {
        0 => Some(6),
        1 => Some(8),
        2 => Some(7),
        3 => Some(5),
        _ => None,
    }
}

/// Digital-to-analog converter.
pub struct Dac {
    pub port: u8,
    regs: [u32; 14],
    dhr: [u16; 2],
    dor: [u16; 2],
    dma_channel: u8,
    pending_levels: Vec<(u8, u16)>,
    active: bool,
}

/// The state of the converter.
#[verifier::ext_equal]
pub struct DacView {
    pub port: u8,
    /// The register file, by offset divided by four.
    pub regs: Seq<u32>,
    /// The held values, 12 bits.
    pub dhr: Seq<u16>,
    /// The outputs, 12 bits.
    pub dor: Seq<u16>,
    /// The channel that the DMA serves.
    pub dma_channel: u8,
    /// Levels that the next tick publishes.
    pub pending_levels: Seq<(u8, u16)>,
    /// Is a channel enabled?
    pub active: bool,
}

impl View for Dac {
    type V = DacView;

    closed spec fn view(&self) -> DacView {
        DacView {
            port: self.port,
            regs: self.regs@,
            dhr: self.dhr@,
            dor: self.dor@,
            dma_channel: self.dma_channel,
            pending_levels: self.pending_levels@,
            active: self.active,
        }
    }
}

/// The control bits of a channel.
pub open spec fn en_bit(ch: u8) -> u32 {
    if ch == 1 {
        CR_EN1
    } else {
        CR_EN2
    }
}

pub open spec fn ten_bit(ch: u8) -> u32 {
    if ch == 1 {
        CR_TEN1
    } else {
        CR_TEN2
    }
}

pub open spec fn dmaen_bit(ch: u8) -> u32 {
    if ch == 1 {
        CR_DMAEN1
    } else {
        CR_DMAEN2
    }
}

/// The values that a write to a holding register gives the two channels.
pub open spec fn held_values(offset: u32, value: u32) -> (Option<u16>, Option<u16>) {
    let none: Option<u16> = None;
    if offset == OFF_DHR12R1 {
        (Some((value % 0x1000) as u16), none)
    } else if offset == OFF_DHR12L1 {
        (Some(((value / 0x10) % 0x1000) as u16), none)
    } else if offset == OFF_DHR8R1 {
        (Some((value % 0x100) as u16), none)
    } else if offset == OFF_DHR12R2 {
        (none, Some((value % 0x1000) as u16))
    } else if offset == OFF_DHR12L2 {
        (none, Some(((value / 0x10) % 0x1000) as u16))
    } else if offset == OFF_DHR8R2 {
        (none, Some((value % 0x100) as u16))
    } else if offset == OFF_DHR12RD {
        (Some((value % 0x1000) as u16), Some(((value / 0x1_0000) % 0x1000) as u16))
    } else if offset == OFF_DHR12LD {
        (Some(((value / 0x10) % 0x1000) as u16), Some(((value / 0x10_0000) % 0x1000) as u16))
    } else if offset == OFF_DHR8RD {
        (Some((value % 0x100) as u16), Some(((value / 0x100) % 0x100) as u16))
    } else {
        (none, none)
    }
}

/// Is `offset` a holding register?
pub open spec fn is_holding(offset: u32) -> bool {
    OFF_DHR12R1 <= offset <= OFF_DHR8RD && offset % 4 == 0
}

/// Levels published in order.
pub open spec fn publish_levels(w: WiresView, port: u8, levels: Seq<(u8, u16)>) -> WiresView
    decreases levels.len(),
{
    if levels.len() == 0 {
        w
    } else {
        publish_levels(w, port, levels.drop_last()).publish(
            Event::DacLevel { port, channel: levels.last().0, level: levels.last().1 },
        )
    }
}

impl DacView {
    pub open spec fn fresh(port: u8, active: bool) -> DacView {
        DacView {
            port,
            regs: Seq::new(14, |i: int| 0u32),
            dhr: seq![0u16, 0u16],
            dor: seq![0u16, 0u16],
            dma_channel: 1,
            pending_levels: Seq::empty(),
            active,
        }
    }

    pub open spec fn wf(self) -> bool {
        &&& self.regs.len() == 14
        &&& self.dhr.len() == 2
        &&& self.dor.len() == 2
        &&& 1 <= self.dma_channel <= 2
    }

    pub open spec fn cr(self) -> u32 {
        self.regs[0]
    }

    pub open spec fn enabled(self, ch: u8) -> bool {
        self.cr() & en_bit(ch) != 0
    }

    pub open spec fn ten(self, ch: u8) -> bool {
        self.cr() & ten_bit(ch) != 0
    }

    pub open spec fn dma_requested(self, ch: u8) -> bool {
        self.cr() & dmaen_bit(ch) != 0
    }

    /// The trigger selection of a channel (two bits).
    pub open spec fn tsel(self, ch: u8) -> u32 {
        if ch == 1 {
            (self.cr() / 0x8) % 4
        } else {
            (self.cr() / 0x8_0000) % 4
        }
    }

    /// The held value goes to the output.
    pub open spec fn latch(self, ch: u8) -> DacView {
        let level = self.dhr[ch - 1];
        DacView {
            dor: self.dor.update(ch - 1, level),
            regs: self.regs.update(10 + ch, level as u32),
            ..self
        }
    }

    pub open spec fn convert(self, w: WiresView, ch: u8, request_dma: bool) -> (
        DacView,
        WiresView,
    ) {
        if !self.enabled(ch) {
            (self, w)
        } else {
            let s = self.latch(ch);
            let w1 = w.publish(
                Event::DacLevel { port: self.port, channel: ch, level: self.dhr[ch - 1] },
            );
            if request_dma && self.dma_requested(ch) {
                (
                    DacView { dma_channel: ch, ..s },
                    w1.publish(
                        Event::DacDma { port: self.port, channel: ch, dir: DmaDir::MemToPeriph },
                    ),
                )
            } else {
                (s, w1)
            }
        }
    }

    pub open spec fn sw_trigger(self, w: WiresView, ch: u8) -> (DacView, WiresView) {
        if self.ten(ch) {
            self.convert(w, ch, true)
        } else {
            (self, w)
        }
    }

    /// Does a timer trigger this channel?
    pub open spec fn triggered(self, ch: u8, timer: u8) -> bool {
        self.enabled(ch) && self.ten(ch) && timer_of(self.tsel(ch)) == Some(timer)
    }

    pub open spec fn timer_channel(self, ch: u8, timer: u8) -> DacView {
        if self.triggered(ch, timer) {
            let s = self.latch(ch);
            DacView {
                pending_levels: s.pending_levels.push((ch, self.dhr[ch - 1])),
                dma_channel: if self.dma_requested(ch) {
                    ch
                } else {
                    s.dma_channel
                },
                ..s
            }
        } else {
            self
        }
    }

    pub open spec fn timer_trigger(self, timer: u8) -> DacView {
        self.timer_channel(1, timer).timer_channel(2, timer)
    }

    /// A value from the DMA: held for its channel, and converted.
    pub open spec fn dma_write(self, w: WiresView, value: u32) -> (DacView, WiresView) {
        let ch = self.dma_channel;
        DacView {
            dhr: self.dhr.update(ch - 1, (value % 0x1000) as u16),
            regs: self.regs.update(
                if ch == 1 {
                    2
                } else {
                    5
                },
                value % 0x1000,
            ),
            ..self
        }.convert(w, ch, false)
    }

    pub open spec fn write_dhr(self, offset: u32, value: u32) -> DacView {
        let (a, b) = held_values(offset, value);
        let dhr = match a {
            Some(v) => self.dhr.update(0, v),
            None => self.dhr,
        };
        let dhr = match b {
            Some(v) => dhr.update(1, v),
            None => dhr,
        };
        DacView { dhr, regs: self.regs.update(offset as int / 4, value), ..self }
    }

    pub open spec fn read(self, offset: u32, size: u32) -> Result<u32, BusError> {
        if size != 4 {
            Err(BusError::NotImplemented)
        } else if offset == OFF_SR {
            Ok(0u32)
        } else if offset < OFF_SR {
            Ok(self.regs[offset as int / 4])
        } else {
            Err(BusError::OutOfRange)
        }
    }

    pub open spec fn write(self, w: WiresView, offset: u32, size: u32, value: u32) -> (
        DacView,
        WiresView,
        Result<(), BusError>,
    ) {
        if size != 4 {
            (self, w, Err(BusError::NotImplemented))
        } else if offset == OFF_SWTRIGR {
            let (s1, w1) = if value & SWTRIG1 != 0 {
                self.sw_trigger(w, 1)
            } else {
                (self, w)
            };
            let (s2, w2) = if value & SWTRIG2 != 0 {
                s1.sw_trigger(w1, 2)
            } else {
                (s1, w1)
            };
            (s2, w2, Ok(()))
        } else if is_holding(offset) {
            (self.write_dhr(offset, value), w, Ok(()))
        } else if offset == OFF_CR {
            (
                DacView {
                    regs: self.regs.update(0, value),
                    active: value & CR_EN_ANY != 0,
                    ..self
                },
                w,
                Ok(()),
            )
        } else if offset == OFF_DOR1 || offset == OFF_DOR2 || offset == OFF_SR {
            (self, w, Ok(()))
        } else if offset < OFF_SR {
            (
                DacView { regs: self.regs.update(offset as int / 4, value), ..self },
                w,
                Ok(()),
            )
        } else {
            (self, w, Err(BusError::OutOfRange))
        }
    }
}

impl Dac {
    pub fn new(port: u8) -> (r: Self)
        ensures
            r@ == DacView::fresh(port, false),
            r@.wf(),
    {
        Self::with_active(port, false)
    }

    /// Starts with the activity flag as given.
    pub fn with_active(port: u8, active: bool) -> (r: Self)
        ensures
            r@ == DacView::fresh(port, active),
            r@.wf(),
    {
        let regs: [u32; 14] = bits::filled(0);
        let zero: [u16; 2] = [0, 0];
        assert(regs@ =~= Seq::new(14, |i: int| 0u32));
        assert(zero@ =~= seq![0u16, 0u16]);
        let r = Dac {
            port,
            regs,
            dhr: zero,
            dor: zero,
            dma_channel: 1,
            pending_levels: Vec::new(),
            active,
        };
        assert(r@ =~= DacView::fresh(port, active));
        r
    }

    fn enabled(&self, ch: u8) -> (r: bool)
        ensures
            r == self@.enabled(ch),
    {
        let bit: u32 = if ch == 1 {
            CR_EN1
        } else {
            CR_EN2
        };
        self.regs[0] & bit != 0
    }

    fn ten(&self, ch: u8) -> (r: bool)
        ensures
            r == self@.ten(ch),
    {
        let bit: u32 = if ch == 1 {
            CR_TEN1
        } else {
            CR_TEN2
        };
        self.regs[0] & bit != 0
    }

    fn tsel(&self, ch: u8) -> (r: u32)
        ensures
            r == self@.tsel(ch),
    {
        if ch == 1 {
            (self.regs[0] / 0x8) % 4
        } else {
            (self.regs[0] / 0x8_0000) % 4
        }
    }

    fn latch(&mut self, ch: u8) -> (level: u16)
        requires
            1 <= ch <= 2,
        ensures
            level == old(self)@.dhr[ch - 1],
            final(self)@ == old(self)@.latch(ch),
    {
        let i = ch as usize - 1;
        let level: u16 = self.dhr[i];
        self.dor[i] = level;
        self.regs[11 + i] = level as u32;
        level
    }

    fn convert(&mut self, w: &mut Wires, ch: u8, request_dma: bool)
        requires
            1 <= ch <= 2,
            old(self)@.wf(),
        ensures
            final(self)@.wf(),
            (final(self)@, final(w)@) == old(self)@.convert(old(w)@, ch, request_dma),
    {
        if !self.enabled(ch) {
            return ;
        }
        let level = self.latch(ch);
        w.publish(Event::DacLevel { port: self.port, channel: ch, level });
        if request_dma && self.dma_requested(ch) {
            self.dma_channel = ch;
            w.publish(
                Event::DacDma { port: self.port, channel: ch, dir: DmaDir::MemToPeriph },
            );
        }
    }

    fn sw_trigger(&mut self, w: &mut Wires, ch: u8)
        requires
            1 <= ch <= 2,
            old(self)@.wf(),
        ensures
            final(self)@.wf(),
            (final(self)@, final(w)@) == old(self)@.sw_trigger(old(w)@, ch),
    {
        if self.ten(ch) {
            self.convert(w, ch, true);
        }
    }

    fn timer_channel(&mut self, ch: u8, timer_port: u8) -> (r: bool)
        requires
            1 <= ch <= 2,
            old(self)@.wf(),
        ensures
            final(self)@.wf(),
            r == old(self)@.triggered(ch, timer_port),
            final(self)@ == old(self)@.timer_channel(ch, timer_port),
    {
        if !self.enabled(ch) || !self.ten(ch) {
            return false;
        }
        let selected = match tsel_to_timer(self.tsel(ch)) {
            Some(t) => t == timer_port,
            None => false,
        };
        if !selected {
            return false;
        }
        let level = self.latch(ch);
        self.pending_levels.push((ch, level));
        if self.dma_requested(ch) {
            self.dma_channel = ch;
        }
        true
    }

    /// A timer fires: the channels that it triggers are latched, and their levels are kept for
    /// the next tick. Bit 0 of the answer stands for channel 1, bit 1 for channel 2.
    pub fn timer_trigger(&mut self, timer_port: u8) -> (r: u32)
        requires
            old(self)@.wf(),
        ensures
            final(self)@.wf(),
            final(self)@ == old(self)@.timer_trigger(timer_port),
            r == (if old(self)@.triggered(1, timer_port) {
                1int
            } else {
                0
            }) + (if old(self)@.triggered(2, timer_port) {
                2int
            } else {
                0
            }),
    {
        let a = self.timer_channel(1, timer_port);
        let b = self.timer_channel(2, timer_port);
        let mut latched: u32 = 0;
        if a {
            latched = latched + 1;
        }
        if b {
            latched = latched + 2;
        }
        latched
    }

    /// Is a channel enabled?
    pub fn active(&self) -> (r: bool)
        ensures
            r == self@.active,
    {
        self.active
    }

    /// Has a channel its DMA bit set?
    pub fn dma_requested(&self, ch: u8) -> (r: bool)
        ensures
            r == self@.dma_requested(ch),
    {
        let bit: u32 = if ch == 1 {
            CR_DMAEN1
        } else {
            CR_DMAEN2
        };
        self.regs[0] & bit != 0
    }

    /// A value from the DMA.
    pub fn dma_write_dr(&mut self, w: &mut Wires, value: u32)
        requires
            old(self)@.wf(),
        ensures
            final(self)@.wf(),
            (final(self)@, final(w)@) == old(self)@.dma_write(old(w)@, value),
    {
        let ch = self.dma_channel;
        self.dhr[ch as usize - 1] = (value % 0x1000) as u16;
        if ch == 1 {
            self.regs[2] = value % 0x1000;
        } else {
            self.regs[5] = value % 0x1000;
        }
        self.convert(w, ch, false);
    }

    /// There is nothing to read.
    pub fn dma_read_dr(&mut self) -> (r: u32)
        ensures
            r == 0,
            final(self)@ == old(self)@,
    {
        0
    }

    fn write_dhr(&mut self, offset: u32, value: u32)
        requires
            is_holding(offset),
            old(self)@.wf(),
        ensures
            final(self)@.wf(),
            final(self)@ == old(self)@.write_dhr(offset, value),
    {
        match offset {
            OFF_DHR12R1 => {
                self.dhr[0] = (value % 0x1000) as u16;
            },
            OFF_DHR12L1 => {
                self.dhr[0] = ((value / 0x10) % 0x1000) as u16;
            },
            OFF_DHR8R1 => {
                self.dhr[0] = (value % 0x100) as u16;
            },
            OFF_DHR12R2 => {
                self.dhr[1] = (value % 0x1000) as u16;
            },
            OFF_DHR12L2 => {
                self.dhr[1] = ((value / 0x10) % 0x1000) as u16;
            },
            OFF_DHR8R2 => {
                self.dhr[1] = (value % 0x100) as u16;
            },
            OFF_DHR12RD => {
                self.dhr[0] = (value % 0x1000) as u16;
                self.dhr[1] = ((value / 0x1_0000) % 0x1000) as u16;
            },
            OFF_DHR12LD => {
                self.dhr[0] = ((value / 0x10) % 0x1000) as u16;
                self.dhr[1] = ((value / 0x10_0000) % 0x1000) as u16;
            },
            _ => {
                self.dhr[0] = (value % 0x100) as u16;
                self.dhr[1] = ((value / 0x100) % 0x100) as u16;
            },
        }
        self.regs[(offset / 4) as usize] = value;
    }
}

impl DmaByteIo for Dac {
    open spec fn dr_inv(s: DacView) -> bool {
        s.wf()
    }

    open spec fn dr_ready(s: DacView) -> bool {
        true
    }

    open spec fn dr_read_of(s: DacView, w: WiresView) -> (DacView, WiresView, u32) {
        (s, w, 0u32)
    }

    open spec fn dr_write_of(s: DacView, w: WiresView, value: u32) -> (DacView, WiresView) {
        s.dma_write(w, value)
    }

    fn dma_dr_ready(&self) -> bool {
        true
    }

    fn dma_read_dr(&mut self, w: &mut Wires) -> u32 {
        Dac::dma_read_dr(self)
    }

    fn dma_write_dr(&mut self, w: &mut Wires, value: u32) {
        Dac::dma_write_dr(self, w, value);
    }
}

impl Peripheral for Dac {
    open spec fn inv(s: DacView) -> bool {
        s.wf()
    }

    open spec fn readable(s: DacView, w: WiresView, offset: u32, size: u32) -> bool {
        true
    }

    open spec fn read_of(s: DacView, w: WiresView, offset: u32, size: u32) -> (
        DacView,
        WiresView,
        Result<u32, BusError>,
    ) {
        (s, w, s.read(offset, size))
    }

    open spec fn writable(s: DacView, w: WiresView, offset: u32, size: u32, value: u32) -> bool {
        true
    }

    open spec fn write_of(s: DacView, w: WiresView, offset: u32, size: u32, value: u32) -> (
        DacView,
        WiresView,
        Result<(), BusError>,
    ) {
        s.write(w, offset, size, value)
    }

    open spec fn reset_of(s: DacView, w: WiresView) -> (DacView, WiresView) {
        (DacView::fresh(s.port, false), w)
    }

    open spec fn tickable(s: DacView, w: WiresView, cycles: u64) -> bool {
        true
    }

    /// The kept levels are published, in the order in which they came.
    open spec fn tick_of(s: DacView, w: WiresView, cycles: u64) -> (DacView, WiresView) {
        (
            DacView { pending_levels: Seq::empty(), ..s },
            publish_levels(w, s.port, s.pending_levels),
        )
    }

    open spec fn label(s: DacView) -> Seq<char> {
        "DAC"@
    }

    fn name(&self) -> &str {
        "DAC"
    }

    fn read(&mut self, w: &mut Wires, offset: u32, size: u32) -> Result<u32, BusError> {
        if size != 4 {
            return Err(BusError::NotImplemented);
        }
        if offset == OFF_SR {
            Ok(0)
        } else if offset < OFF_SR {
            Ok(self.regs[(offset / 4) as usize])
        } else {
            Err(BusError::OutOfRange)
        }
    }

    fn write(&mut self, w: &mut Wires, offset: u32, size: u32, value: u32) -> Result<(), BusError> {
        if size != 4 {
            return Err(BusError::NotImplemented);
        }
        match offset {
            OFF_SWTRIGR => {
                if value & SWTRIG1 != 0 {
                    self.sw_trigger(w, 1);
                }
                if value & SWTRIG2 != 0 {
                    self.sw_trigger(w, 2);
                }
                Ok(())
            },
            OFF_DHR12R1 | OFF_DHR12L1 | OFF_DHR8R1 | OFF_DHR12R2 | OFF_DHR12L2 | OFF_DHR8R2
            | OFF_DHR12RD | OFF_DHR12LD | OFF_DHR8RD => {
                self.write_dhr(offset, value);
                Ok(())
            },
            OFF_CR => {
                self.regs[0] = value;
                self.active = value & CR_EN_ANY != 0;
                Ok(())
            },
            OFF_DOR1 | OFF_DOR2 | OFF_SR => Ok(()),
            _ => {
                if offset < OFF_SR {
                    self.regs[(offset / 4) as usize] = value;
                    Ok(())
                } else {
                    Err(BusError::OutOfRange)
                }
            },
        }
    }

    fn reset(&mut self, w: &mut Wires) {
        *self = Self::with_active(self.port, false);
    }

    fn tick(&mut self, w: &mut Wires, cycles: u64) {
        let ghost levels = self.pending_levels@;
        let ghost w0 = w@;
        let mut i: usize = 0;
        assert(levels.take(0) =~= Seq::<(u8, u16)>::empty());
        while i < self.pending_levels.len()
            invariant
                i <= levels.len(),
                self.pending_levels@ == levels,
                self@ == old(self)@,
                w@ == publish_levels(w0, self.port, levels.take(i as int)),
            decreases levels.len() - i,
        {
            let (channel, level) = self.pending_levels[i];
            w.publish(Event::DacLevel { port: self.port, channel, level });
            proof {
                let next = levels.take(i + 1);
                assert(next.drop_last() =~= levels.take(i as int));
                assert(next.last() == levels[i as int]);
            }
            i = i + 1;
        }
        assert(levels.take(levels.len() as int) =~= levels);
        self.pending_levels.clear();
    }
}

/// A conversion shows the held value at the output register.
pub proof fn law_conversion_shows_the_held_value(s: DacView, w: WiresView, value: u32)
    requires
        s.wf(),
        s.enabled(1),
        s.ten(1),
    ensures
        ({
            let s1 = s.write_dhr(OFF_DHR12R1, value);
            let s2 = s1.sw_trigger(w, 1).0;
            s2.read(OFF_DOR1, 4) == Ok::<u32, BusError>(value % 0x1000)
        }),
{
}

/// A disabled channel is not converted by any trigger.
pub proof fn law_disabled_channel_holds(s: DacView, w: WiresView, ch: u8, timer: u8)
    requires
        s.wf(),
        1 <= ch <= 2,
        !s.enabled(ch),
    ensures
        s.sw_trigger(w, ch) == (s, w),
        s.timer_channel(ch, timer) == s,
{
}

/// A timer converts exactly the channels that listen to it, and touches no other. The levels
/// come out at the next tick, one for each converted channel, channel 1 first.
pub proof fn law_timer_levels_come_with_the_tick(d: DacView, w: WiresView, timer: u8, cycles: u64)
    requires
        d.wf(),
        d.pending_levels.len() == 0,
    ensures
        ({
            let t = d.timer_trigger(timer);
            let (n, w1) = Dac::tick_of(t, w, cycles);
            &&& forall|ch: u8|
                1 <= ch <= 2 ==> #[trigger] t.dor[ch - 1] == if d.triggered(ch, timer) {
                    d.dhr[ch - 1]
                } else {
                    d.dor[ch - 1]
                }
            &&& t.dhr == d.dhr
            &&& w1 == w.publish_if(
                d.triggered(1, timer),
                Event::DacLevel { port: d.port, channel: 1, level: d.dhr[0] },
            ).publish_if(
                d.triggered(2, timer),
                Event::DacLevel { port: d.port, channel: 2, level: d.dhr[1] },
            )
            &&& n == (DacView { pending_levels: Seq::empty(), ..t })
        }),
{
    reveal_with_fuel(publish_levels, 3);
    let none = d.pending_levels;
    assert(none =~= Seq::empty());
    let t = d.timer_trigger(timer);
    assert(d.timer_channel(1, timer).triggered(2, timer) == d.triggered(2, timer));
    let (a, b) = ((1u8, d.dhr[0]), (2u8, d.dhr[1]));
    assert(none.push(a).drop_last() =~= none);
    assert(none.push(b).drop_last() =~= none);
    assert(none.push(a).push(b).drop_last() =~= none.push(a));
}

/// The value that each holding register gives the channels: twelve bits from the right, twelve
/// bits from bit 4 on, or eight bits; the dual registers hold both channels. No write to them
/// moves an output.
pub proof fn law_holding_registers(s: DacView, w: WiresView, value: u32)
    requires
        s.wf(),
    ensures
        ({
            let at = |o: u32| s.write(w, o, 4, value).0.dhr;
            let (a, b) = (s.dhr[0] as int, s.dhr[1] as int);
            let v = value as int;
            &&& (at(0x08)[0] as int, at(0x08)[1] as int) == (v % 0x1000, b)
            &&& (at(0x0C)[0] as int, at(0x0C)[1] as int) == ((v / 0x10) % 0x1000, b)
            &&& (at(0x10)[0] as int, at(0x10)[1] as int) == (v % 0x100, b)
            &&& (at(0x14)[0] as int, at(0x14)[1] as int) == (a, v % 0x1000)
            &&& (at(0x18)[0] as int, at(0x18)[1] as int) == (a, (v / 0x10) % 0x1000)
            &&& (at(0x1C)[0] as int, at(0x1C)[1] as int) == (a, v % 0x100)
            &&& (at(0x20)[0] as int, at(0x20)[1] as int) == (v % 0x1000, (v / 0x1_0000) % 0x1000)
            &&& (at(0x24)[0] as int, at(0x24)[1] as int) == (
                (v / 0x10) % 0x1000,
                (v / 0x10_0000) % 0x1000,
            )
            &&& (at(0x28)[0] as int, at(0x28)[1] as int) == (v % 0x100, (v / 0x100) % 0x100)
            &&& s.write(w, 0x08, 4, value).0.dor == s.dor && s.write(w, 0x20, 4, value).0.dor == s.dor
            &&& s.write(w, 0x08, 4, value).1 == w && s.write(w, 0x20, 4, value).1 == w
        }),
{
}

/// A software trigger converts a channel that is enabled and listens to triggers, and no other:
/// the held value goes to its output and is announced, and the next value is asked for if the
/// channel uses transfers.
pub proof fn law_software_trigger(s: DacView, w: WiresView, ch: u8)
    requires
        s.wf(),
        1 <= ch <= 2,
    ensures
        ({
            let (t, v, r) = s.write(w, 4, 4, ch as u32);
            let (en, ten, dma) = if ch == 1 {
                (s.regs[0] & 1 != 0, s.regs[0] & 4 != 0, s.regs[0] & 0x1000 != 0)
            } else {
                (s.regs[0] & 0x1_0000 != 0, s.regs[0] & 0x4_0000 != 0, s.regs[0] & 0x1000_0000 != 0)
            };
            let level = s.dhr[ch - 1];
            let shown = w.publish(Event::DacLevel { port: s.port, channel: ch, level });
            &&& r is Ok
            &&& !(en && ten) ==> t == s && v == w
            &&& en && ten ==> {
                &&& t.dor[ch - 1] == level && t.dor[2 - ch] == s.dor[2 - ch] && t.dhr == s.dhr
                &&& t.regs[10 + ch] == level
                &&& v == if dma {
                    shown.publish(
                        Event::DacDma { port: s.port, channel: ch, dir: DmaDir::MemToPeriph },
                    )
                } else {
                    shown
                }
                &&& t.dma_channel == if dma {
                    ch
                } else {
                    s.dma_channel
                }
            }
        }),
{
    assert(1u32 & 1 != 0 && 1u32 & 2 == 0 && 2u32 & 1 == 0 && 2u32 & 2 != 0) by (bit_vector);
}

/// Which timer a channel listens to: its two selection bits name timer 6, 8, 7 or 5. Only a
/// channel that is enabled and listens to triggers does.
pub proof fn law_timer_selection(s: DacView, ch: u8, timer: u8)
    requires
        s.wf(),
        1 <= ch <= 2,
    ensures
        ({
            let (en, ten, sel) = if ch == 1 {
                (s.regs[0] & 1 != 0, s.regs[0] & 4 != 0, (s.regs[0] / 8) % 4)
            } else {
                (s.regs[0] & 0x1_0000 != 0, s.regs[0] & 0x4_0000 != 0, (s.regs[0] / 0x8_0000) % 4)
            };
            s.triggered(ch, timer) <==> en && ten && (sel == 0 && timer == 6 || sel == 1 && timer == 8
                || sel == 2 && timer == 7 || sel == 3 && timer == 5)
        }),
{
}

/// A value from a transfer is held for the channel that asked for it, cut to twelve bits, and
/// converted at once if that channel is enabled.
pub proof fn law_transferred_value(s: DacView, w: WiresView, value: u32)
    requires
        s.wf(),
    ensures
        ({
            let (t, v) = s.dma_write(w, value);
            let ch = s.dma_channel;
            let en = if ch == 1 {
                s.regs[0] & 1 != 0
            } else {
                s.regs[0] & 0x1_0000 != 0
            };
            &&& t.dhr[ch - 1] == value % 0x1000 && t.dhr[2 - ch] == s.dhr[2 - ch]
            &&& t.dor[ch - 1] == if en {
                (value % 0x1000) as u16
            } else {
                s.dor[ch - 1]
            }
            &&& t.dor[2 - ch] == s.dor[2 - ch]
            &&& v == if en {
                w.publish(
                    Event::DacLevel { port: s.port, channel: ch, level: (value % 0x1000) as u16 },
                )
            } else {
                w
            }
        }),
{
}

} // verus!
