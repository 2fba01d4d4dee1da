//! The DMA controllers: eight streams each, with the same layout and their own interrupts.
//!
//! A memory-to-memory stream that is enabled completes at the next tick: the count goes to
//! zero, the completion flag goes up, and the transfer is noted. A request of a peripheral is
//! noted if the stream is enabled for its channel and direction. `process` then moves the
//! data: between memory ranges, or between memory and the data register of a peripheral. A
//! transfer from a data register that holds nothing yet stays noted. The serial controllers
//! take and give bytes; the others take and give words.
//!
//! Offsets: LISR 0x00, HISR 0x04, LIFCR 0x08, HIFCR 0x0C, and from 0x10 on six words for each
//! stream: CR, NDTR, PAR, M0AR, M1AR, FCR. A stream has six status bits, four streams a word.
use crate::bits;
use crate::memory;
use crate::memory::GuestMemory;
use crate::peripheral::{BusError, Peripheral};
use crate::wires::{Wires, WiresView};
use vstd::prelude::*;

verus! {

pub const DMA1_BASE: u32 = 0x4002_6000;

pub const DMA2_BASE: u32 = 0x4002_6400;

/// The interrupts of the streams of the first controller.
pub const DMA1_STREAM_IRQ: [u32; 8] = [11, 12, 13, 14, 15, 16, 17, 47];

/// The interrupts of the streams of the second controller.
pub const DMA2_STREAM_IRQ: [u32; 8] = [56, 57, 58, 59, 60, 68, 69, 70];

pub const CR_EN: u32 = 0x1;

pub const CR_TCIE: u32 = 0x20;

pub const CR_DIR_MM: u32 = 0x80;

pub const CR_PINC: u32 = 0x200;

pub const CR_MINC: u32 = 0x400;

pub const OFF_LISR: u32 = 0x00;

pub const OFF_HISR: u32 = 0x04;

pub const OFF_LIFCR: u32 = 0x08;

pub const OFF_HIFCR: u32 = 0x0C;

/// The control register of stream 0; streams are 0x18 apart.
pub const OFF_CR: u32 = 0x10;

/// The direction of a transfer between a peripheral and memory.
#[derive(Debug, Clone, Copy, PartialEq, Eq, Structural)]
pub enum DmaDir {
    /// From the peripheral to memory.
    PeriphToMem,
    /// From memory to the peripheral.
    MemToPeriph,
}

impl DmaDir {
    /// The direction field of a control register.
    pub open spec fn field(self) -> u32 {
        match self {
            DmaDir::PeriphToMem => 0,
            DmaDir::MemToPeriph => 1,
        }
    }

    fn bits(&self) -> (r: u32)
        ensures
            r == self.field(),
    {
        match self {
            DmaDir::PeriphToMem => 0,
            DmaDir::MemToPeriph => 1,
        }
    }
}

/// The peripheral at the other end of a transfer.
#[derive(Debug, Clone, Copy, PartialEq, Eq, Structural)]
pub enum DmaTarget {
    /// USART 1 to 6.
    Usart(u8),
    /// I2C 1 to 3.
    I2c(u8),
    /// SPI 1 to 3.
    Spi(u8),
    /// ADC 1 to 3.
    Adc(u8),
    /// The DAC, number 1.
    Dac(u8),
    /// The camera interface, number 1.
    Dcmi(u8),
    /// The card interface, number 1.
    Sdio(u8),
    /// Timer 1 to 8.
    Tim(u8),
}

/// The data register of a peripheral, as a DMA stream moves it.
pub trait DmaByteIo: View + Sized {
    /// What holds of every state that the device reaches.
    spec fn dr_inv(s: Self::V) -> bool;

    /// Can a value be taken out of the data register, or does a transfer have to wait for one?
    spec fn dr_ready(s: Self::V) -> bool;

    spec fn dr_read_of(s: Self::V, w: WiresView) -> (Self::V, WiresView, u32);

    spec fn dr_write_of(s: Self::V, w: WiresView, value: u32) -> (Self::V, WiresView);

    /// Can a value be taken out of the data register?
    fn dma_dr_ready(&self) -> (r: bool)
        requires
            Self::dr_inv(self@),
        ensures
            r == Self::dr_ready(self@),
    ;

    /// Takes a value out of the data register.
    fn dma_read_dr(&mut self, w: &mut Wires) -> (r: u32)
        requires
            Self::dr_inv(old(self)@),
        ensures
            Self::dr_inv(final(self)@),
            (final(self)@, final(w)@, r) == Self::dr_read_of(old(self)@, old(w)@),
    ;

    /// Puts a value into the data register.
    fn dma_write_dr(&mut self, w: &mut Wires, value: u32)
        requires
            Self::dr_inv(old(self)@),
        ensures
            Self::dr_inv(final(self)@),
            (final(self)@, final(w)@) == Self::dr_write_of(old(self)@, old(w)@, value),
    ;
}

/// DMA controller.
pub struct Dma {
    name: &'static str,
    stream_irq: [u32; 8],
    regs: [u32; 52],
    pending_transfer: u32,
    pending_items: [u32; 8],
    pending_target: [Option<DmaTarget>; 8],
    wired: [Option<usize>; 18],
}

/// The state of a controller.
#[verifier::ext_equal]
pub struct DmaView {
    pub name: Seq<char>,
    pub stream_irq: Seq<u32>,
    /// The register file, by offset divided by four.
    pub regs: Seq<u32>,
    /// The streams with a noted transfer, one bit each.
    pub pending_transfer: u32,
    pub pending_items: Seq<u32>,
    pub pending_target: Seq<Option<DmaTarget>>,
    /// Where the peripherals that are wired up stand in the row of devices: USART 1 to 6, I2C 1
    /// to 3, SPI 1 to 3, ADC 1 to 3, the DAC, the camera interface, the card interface.
    pub wired: Seq<Option<usize>>,
}

impl View for Dma {
    type V = DmaView;

    closed spec fn view(&self) -> DmaView {
        DmaView {
            name: self.name@,
            stream_irq: self.stream_irq@,
            regs: self.regs@,
            pending_transfer: self.pending_transfer,
            pending_items: self.pending_items@,
            pending_target: self.pending_target@,
            wired: self.wired@,
        }
    }
}

/// Number `p` of `n` peripherals of a kind, the first of which is in place `first`.
pub open spec fn slot_from(first: int, p: u8, n: u8) -> Option<int> {
    if 1 <= p <= n {
        Some(first + p - 1)
    } else {
        None
    }
}

/// The place of a peripheral among those that a controller can serve. The timers have none.
pub open spec fn slot_of(t: DmaTarget) -> Option<int> {
    match t {
        DmaTarget::Usart(p) => slot_from(0, p, 6),
        DmaTarget::I2c(p) => slot_from(6, p, 3),
        DmaTarget::Spi(p) => slot_from(9, p, 3),
        DmaTarget::Adc(p) => slot_from(12, p, 3),
        DmaTarget::Dac(p) => slot_from(15, p, 1),
        DmaTarget::Dcmi(p) => slot_from(16, p, 1),
        DmaTarget::Sdio(p) => slot_from(17, p, 1),
        DmaTarget::Tim(_) => None,
    }
}

fn slot_index_from(first: usize, p: u8, n: u8) -> (r: Option<usize>)
    requires
        first + n <= 18,
    ensures
        match r {
            None => slot_from(first as int, p, n) is None,
            Some(i) => slot_from(first as int, p, n) == Some(i as int) && i < 18,
        },
{
    if p >= 1 && p <= n {
        Some(first + (p as usize - 1))
    } else {
        None
    }
}

fn slot_index(t: DmaTarget) -> (r: Option<usize>)
    ensures
        match r {
            None => slot_of(t) is None,
            Some(i) => slot_of(t) == Some(i as int) && i < 18,
        },
{
    match t {
        DmaTarget::Usart(p) => slot_index_from(0, p, 6),
        DmaTarget::I2c(p) => slot_index_from(6, p, 3),
        DmaTarget::Spi(p) => slot_index_from(9, p, 3),
        DmaTarget::Adc(p) => slot_index_from(12, p, 3),
        DmaTarget::Dac(p) => slot_index_from(15, p, 1),
        DmaTarget::Dcmi(p) => slot_index_from(16, p, 1),
        DmaTarget::Sdio(p) => slot_index_from(17, p, 1),
        DmaTarget::Tim(_) => None,
    }
}

/// Does the data register of the peripheral hold more than a byte?
pub open spec fn is_wide(t: DmaTarget) -> bool {
    t is Adc || t is Dac || t is Dcmi || t is Sdio || t is Tim
}

fn has_words(t: DmaTarget) -> (r: bool)
    ensures
        r == is_wide(t),
{
    match t {
        DmaTarget::Usart(_) | DmaTarget::I2c(_) | DmaTarget::Spi(_) => false,
        DmaTarget::Adc(_)
        | DmaTarget::Dac(_)
        | DmaTarget::Dcmi(_)
        | DmaTarget::Sdio(_)
        | DmaTarget::Tim(_) => true,
    }
}

/// The fields of a control register.
pub open spec fn dir_field(cr: u32) -> u32 {
    (cr / 0x40) % 4
}

pub open spec fn channel_field(cr: u32) -> u32 {
    (cr / 0x200_0000) % 8
}

/// The width in bytes that a size field stands for.
pub open spec fn width_of(field: u32) -> int {
    if field == 0 {
        1
    } else if field == 1 {
        2
    } else if field == 2 {
        4
    } else {
        8
    }
}

pub open spec fn periph_width(cr: u32) -> int {
    width_of((cr / 0x800) % 4)
}

pub open spec fn mem_width(cr: u32) -> int {
    width_of((cr / 0x2000) % 4)
}

/// How far the address moves after each item.
pub open spec fn periph_step(cr: u32) -> int {
    if cr & CR_PINC != 0 {
        periph_width(cr)
    } else {
        0
    }
}

pub open spec fn mem_step(cr: u32) -> int {
    if cr & CR_MINC != 0 {
        mem_width(cr)
    } else {
        0
    }
}

fn width(field: u32) -> (r: u32)
    ensures
        r == width_of(field),
        1 <= r <= 8,
{
    if field == 0 {
        1
    } else if field == 1 {
        2
    } else if field == 2 {
        4
    } else {
        8
    }
}

/// The index of the first register of a stream.
pub open spec fn stream_base(s: int) -> int {
    4 + 6 * s
}

/// The completion flag of a stream in its status word.
pub open spec fn tcif(s: int) -> u32 {
    bits::bit(6 * (s % 4) + 5)
}

/// Data widened with zeros, or cut, to `n` bytes.
pub open spec fn resized(data: Seq<u8>, n: int) -> Seq<u8> {
    Seq::new(
        n as nat,
        |i: int|
            if i < data.len() {
                data[i]
            } else {
                0
            },
    )
}

/// One item goes from memory to memory. It is skipped if its source is not there, and lost if
/// its destination is not.
pub open spec fn copy_item(m: Map<u64, u8>, src: int, dst: int, pw: int, mw: int) -> Map<u64, u8> {
    if memory::mapped(m, src, pw) {
        memory::stored_if_mapped(m, dst, resized(memory::bytes_of(m, src, pw), mw))
    } else {
        m
    }
}

/// `n` items go from memory to memory, one after the other.
pub open spec fn copy_items(m: Map<u64, u8>, cr: u32, src: int, dst: int, n: int) -> Map<u64, u8>
    decreases n,
{
    if n <= 0 {
        m
    } else {
        copy_item(
            copy_items(m, cr, src, dst, n - 1),
            src + (n - 1) * periph_step(cr),
            dst + (n - 1) * mem_step(cr),
            periph_width(cr),
            mem_width(cr),
        )
    }
}

/// An item on its way to a data register: a word that is little end first, or its first byte.
pub open spec fn outgoing(data: Seq<u8>, wide: bool) -> u32 {
    if wide {
        let b = resized(data, 4);
        bits::word_of(b[0], b[1], b[2], b[3])
    } else {
        data[0] as u32
    }
}

/// An item on its way to memory: as many bytes of the word as an item has, or its lowest byte.
pub open spec fn incoming(v: u32, wide: bool, width: int) -> Seq<u8> {
    if wide {
        resized(Seq::new(4, |i: int| bits::byte_at(v, i as u32)), width)
    } else {
        seq![v as u8]
    }
}

/// `n` items go from memory to a data register.
pub open spec fn send_items<D: DmaByteIo>(
    m: Map<u64, u8>,
    dev: D::V,
    w: WiresView,
    cr: u32,
    wide: bool,
    src: int,
    n: int,
) -> (D::V, WiresView)
    decreases n,
{
    if n <= 0 {
        (dev, w)
    } else {
        let (d1, w1) = send_items::<D>(m, dev, w, cr, wide, src, n - 1);
        let at = src + (n - 1) * mem_step(cr);
        if memory::mapped(m, at, mem_width(cr)) {
            D::dr_write_of(d1, w1, outgoing(memory::bytes_of(m, at, mem_width(cr)), wide))
        } else {
            (d1, w1)
        }
    }
}

/// `n` items go from a data register to memory.
pub open spec fn receive_items<D: DmaByteIo>(
    m: Map<u64, u8>,
    dev: D::V,
    w: WiresView,
    cr: u32,
    wide: bool,
    dst: int,
    n: int,
) -> (Map<u64, u8>, D::V, WiresView)
    decreases n,
{
    if n <= 0 {
        (m, dev, w)
    } else {
        let (m1, d1, w1) = receive_items::<D>(m, dev, w, cr, wide, dst, n - 1);
        let (d2, w2, v) = D::dr_read_of(d1, w1);
        (
            memory::stored_if_mapped(
                m1,
                dst + (n - 1) * mem_step(cr),
                incoming(v, wide, mem_width(cr)),
            ),
            d2,
            w2,
        )
    }
}

/// All that a transfer touches.
#[verifier::ext_equal]
pub struct DmaWorld<V> {
    pub dma: DmaView,
    pub w: WiresView,
    pub mem: Map<u64, u8>,
    pub devs: Seq<V>,
}

impl DmaView {
    pub open spec fn fresh(name: Seq<char>, stream_irq: Seq<u32>) -> DmaView {
        DmaView {
            name,
            stream_irq,
            regs: Seq::new(52, |i: int| 0u32),
            pending_transfer: 0,
            pending_items: Seq::new(8, |i: int| 0u32),
            pending_target: Seq::new(8, |i: int| None::<DmaTarget>),
            wired: Seq::new(18, |i: int| None),
        }
    }

    pub open spec fn wf(self) -> bool {
        &&& self.stream_irq.len() == 8
        &&& self.regs.len() == 52
        &&& self.pending_items.len() == 8
        &&& self.pending_target.len() == 8
        &&& self.wired.len() == 18
        &&& forall|i: int| 0 <= i < 8 ==> #[trigger] self.stream_irq[i] < 96
    }

    pub open spec fn cr(self, s: int) -> u32 {
        self.regs[stream_base(s)]
    }

    pub open spec fn ndtr(self, s: int) -> u32 {
        self.regs[stream_base(s) + 1]
    }

    pub open spec fn par(self, s: int) -> u32 {
        self.regs[stream_base(s) + 2]
    }

    pub open spec fn m0ar(self, s: int) -> u32 {
        self.regs[stream_base(s) + 3]
    }

    pub open spec fn with_stream_reg(self, s: int, sub: int, value: u32) -> DmaView {
        DmaView { regs: self.regs.update(stream_base(s) + sub, value), ..self }
    }

    /// The completion flag of a stream goes up.
    pub open spec fn flagged(self, s: int) -> DmaView {
        let i = s / 4;
        DmaView { regs: self.regs.update(i, self.regs[i] | tcif(s)), ..self }
    }

    /// Is any stream enabled?
    pub open spec fn active(self) -> bool {
        exists|s: int| 0 <= s < 8 && #[trigger] self.cr(s) & CR_EN != 0
    }

    /// Is a request served by this stream?
    pub open spec fn accepts(self, s: int, channel: u32, dir: DmaDir) -> bool {
        &&& self.cr(s) & CR_EN != 0
        &&& channel_field(self.cr(s)) == channel
        &&& dir_field(self.cr(s)) == dir.field()
    }

    /// The direction that a stream between a peripheral and memory is set up for.
    pub open spec fn stream_dir(self, s: int) -> DmaDir {
        if dir_field(self.cr(s)) == 1 {
            DmaDir::MemToPeriph
        } else {
            DmaDir::PeriphToMem
        }
    }

    /// A request is noted: one item towards memory, the whole count towards the peripheral.
    pub open spec fn service_stream(
        self,
        s: int,
        channel: u32,
        dir: DmaDir,
        target: DmaTarget,
    ) -> DmaView {
        let items = match dir {
            DmaDir::PeriphToMem => 1u32,
            DmaDir::MemToPeriph => self.ndtr(s),
        };
        self.service_stream_n(s, channel, dir, target, items)
    }

    /// A request for a number of items is noted.
    pub open spec fn service_stream_n(
        self,
        s: int,
        channel: u32,
        dir: DmaDir,
        target: DmaTarget,
        items: u32,
    ) -> DmaView {
        if self.accepts(s, channel, dir) && items != 0 {
            DmaView {
                pending_transfer: self.pending_transfer | bits::bit(s),
                pending_items: self.pending_items.update(s, items),
                pending_target: self.pending_target.update(s, Some(target)),
                ..self
            }
        } else {
            self
        }
    }

    /// A stream at a tick: an enabled memory-to-memory stream completes.
    pub open spec fn tick_stream(self, w: WiresView, s: int) -> (DmaView, WiresView) {
        let cr = self.cr(s);
        let n = self.ndtr(s);
        if cr & CR_EN != 0 && dir_field(cr) == 2 {
            let d = self.with_stream_reg(s, 1, 0).with_stream_reg(s, 0, cr & !CR_EN).flagged(s);
            (
                if n != 0 {
                    DmaView {
                        pending_transfer: d.pending_transfer | bits::bit(s),
                        pending_items: d.pending_items.update(s, n),
                        ..d
                    }
                } else {
                    d
                },
                w.pend_if(cr & CR_TCIE != 0, self.stream_irq[s]),
            )
        } else {
            (self, w)
        }
    }

    /// The first `n` streams at a tick.
    pub open spec fn tick_streams(self, w: WiresView, n: int) -> (DmaView, WiresView)
        decreases n,
    {
        if n <= 0 {
            (self, w)
        } else {
            let (d1, w1) = self.tick_streams(w, n - 1);
            d1.tick_stream(w1, n - 1)
        }
    }

    /// A peripheral is wired up, if there is one of that number.
    pub open spec fn wire(self, target: DmaTarget, place: usize) -> DmaView {
        match slot_of(target) {
            Some(slot) => DmaView { wired: self.wired.update(slot, Some(place)), ..self },
            None => self,
        }
    }

    /// The place of the peripheral that a stream's transfer goes to, if it is known and wired
    /// up.
    pub open spec fn device(self, s: int) -> Option<int> {
        match self.pending_target[s] {
            None => None,
            Some(t) => match slot_of(t) {
                Some(i) => match self.wired[i] {
                    Some(k) => Some(k as int),
                    None => None,
                },
                None => None,
            },
        }
    }

    /// Does a stream's transfer go to a peripheral whose data register holds more than a byte?
    pub open spec fn wide(self, s: int) -> bool {
        match self.pending_target[s] {
            None => false,
            Some(t) => is_wide(t),
        }
    }

    /// The transfer of a stream stays within the address space, and a copy uses the widths 1,
    /// 2 and 4.
    pub open spec fn transfer_fits(self, s: int) -> bool {
        let cr = self.cr(s);
        let n = self.pending_items[s];
        bits::has_bit(self.pending_transfer, s) && n != 0 ==> {
            &&& dir_field(cr) == 2 ==> {
                &&& periph_width(cr) <= 4
                &&& mem_width(cr) <= 4
                &&& self.par(s) + n * periph_step(cr) <= u32::MAX
                &&& self.m0ar(s) + n * mem_step(cr) <= u32::MAX
            }
            &&& dir_field(cr) != 2 && self.device(s) is Some ==> self.m0ar(s) + n * mem_step(cr)
                <= u32::MAX
        }
    }

    /// Are all wired peripherals within a row of `n` devices?
    pub open spec fn wired_within(self, n: int) -> bool {
        forall|i: int| 0 <= i < self.wired.len() ==> (#[trigger] self.wired[i] matches Some(k) ==> k < n)
    }

    /// The noted transfer is taken up.
    pub open spec fn taken(self, s: int) -> DmaView {
        DmaView {
            pending_items: self.pending_items.update(s, 0),
            pending_transfer: self.pending_transfer & !bits::bit(s),
            ..self
        }
    }

    /// The registers after a transfer with a peripheral: the count goes down, and at zero the
    /// stream is disabled and its flag and line go up.
    pub open spec fn moved(self, w: WiresView, s: int, n: u32) -> (DmaView, WiresView) {
        let cr = self.cr(s);
        let left = if self.ndtr(s) < n {
            0u32
        } else {
            (self.ndtr(s) - n) as u32
        };
        let d = self.with_stream_reg(
            s,
            3,
            (self.m0ar(s) + n * mem_step(cr)) as u32,
        ).with_stream_reg(s, 1, left);
        if left == 0 {
            (
                d.with_stream_reg(s, 0, cr & !CR_EN).flagged(s),
                w.pend_if(cr & CR_TCIE != 0, self.stream_irq[s]),
            )
        } else {
            (d, w)
        }
    }

    pub open spec fn read(self, offset: u32, size: u32) -> Result<u32, BusError> {
        if size != 4 {
            Err(BusError::NotImplemented)
        } else if offset / 4 >= 52 {
            Err(BusError::OutOfRange)
        } else if offset / 4 == 2 || offset / 4 == 3 {
            Ok(0u32)
        } else {
            Ok(self.regs[offset as int / 4])
        }
    }

    pub open spec fn write(self, offset: u32, size: u32, value: u32) -> (DmaView, Result<
        (),
        BusError,
    >) {
        let i = offset as int / 4;
        if size != 4 {
            (self, Err(BusError::NotImplemented))
        } else if i >= 52 {
            (self, Err(BusError::OutOfRange))
        } else if i < 2 {
            (self, Ok(()))
        } else if i < 4 {
            (
                DmaView { regs: self.regs.update(i - 2, self.regs[i - 2] & !value), ..self },
                Ok(()),
            )
        } else {
            (DmaView { regs: self.regs.update(i, value), ..self }, Ok(()))
        }
    }
}

/// Is the noted transfer of stream `s` one from a data register that holds nothing yet?
pub open spec fn is_held<D: DmaByteIo>(x: DmaWorld<D::V>, s: int) -> bool {
    let d = x.dma;
    &&& bits::has_bit(d.pending_transfer, s)
    &&& d.pending_items[s] != 0
    &&& dir_field(d.cr(s)) != 1
    &&& dir_field(d.cr(s)) != 2
    &&& (d.device(s) matches Some(k) && !D::dr_ready(x.devs[k]))
}

/// The noted transfer of stream `s` is carried out, unless it is held back.
pub open spec fn process_stream<D: DmaByteIo>(x: DmaWorld<D::V>, s: int) -> DmaWorld<D::V> {
    let d = x.dma;
    let n = d.pending_items[s];
    let cr = d.cr(s);
    if !bits::has_bit(d.pending_transfer, s) || is_held::<D>(x, s) {
        x
    } else if n == 0 {
        DmaWorld { dma: d.taken(s), ..x }
    } else if dir_field(cr) == 2 {
        DmaWorld {
            dma: d.taken(s).with_stream_reg(
                s,
                2,
                (d.par(s) + n * periph_step(cr)) as u32,
            ).with_stream_reg(s, 3, (d.m0ar(s) + n * mem_step(cr)) as u32),
            mem: copy_items(x.mem, cr, d.par(s) as int, d.m0ar(s) as int, n as int),
            ..x
        }
    } else {
        match d.device(s) {
            None => DmaWorld { dma: d.taken(s), ..x },
            Some(k) => if dir_field(cr) == 1 {
                let (dev, w1) = send_items::<D>(
                    x.mem,
                    x.devs[k],
                    x.w,
                    cr,
                    d.wide(s),
                    d.m0ar(s) as int,
                    n as int,
                );
                let (d1, w2) = d.taken(s).moved(w1, s, n);
                DmaWorld { dma: d1, w: w2, mem: x.mem, devs: x.devs.update(k, dev) }
            } else {
                let (mem, dev, w1) = receive_items::<D>(
                    x.mem,
                    x.devs[k],
                    x.w,
                    cr,
                    d.wide(s),
                    d.m0ar(s) as int,
                    n as int,
                );
                let (d1, w2) = d.taken(s).moved(w1, s, n);
                DmaWorld { dma: d1, w: w2, mem, devs: x.devs.update(k, dev) }
            },
        }
    }
}

/// The noted transfers of the first `n` streams are carried out, lowest stream first.
pub open spec fn process_streams<D: DmaByteIo>(x: DmaWorld<D::V>, n: int) -> DmaWorld<D::V>
    decreases n,
{
    if n <= 0 {
        x
    } else {
        process_stream::<D>(process_streams::<D>(x, n - 1), n - 1)
    }
}

/// The states of a row of devices.
pub open spec fn states<D: View>(devs: Seq<D>) -> Seq<D::V> {
    Seq::new(devs.len(), |i: int| devs[i]@)
}

/// A transfer of one stream leaves the others fit.
proof fn lemma_others_fit<D: DmaByteIo>(x: DmaWorld<D::V>, s: int, j: int)
    requires
        x.dma.wf(),
        0 <= s < 8,
        0 <= j < 8,
        j != s,
        x.dma.transfer_fits(j),
    ensures
        process_stream::<D>(x, s).dma.wf(),
        process_stream::<D>(x, s).dma.transfer_fits(j),
{
    bits::lemma_clear_bit(x.dma.pending_transfer, s, j);
    let d = process_stream::<D>(x, s).dma;
    assert(d.cr(j) == x.dma.cr(j));
    assert(d.par(j) == x.dma.par(j));
    assert(d.m0ar(j) == x.dma.m0ar(j));
    assert(d.pending_items[j] == x.dma.pending_items[j]);
}

impl Dma {
    pub fn new(name: &'static str, stream_irq: [u32; 8]) -> (r: Self)
        requires
            forall|i: int| 0 <= i < 8 ==> #[trigger] stream_irq@[i] < 96,
        ensures
            r@ == DmaView::fresh(name@, stream_irq@),
            r@.wf(),
    {
        let r = Dma {
            name,
            stream_irq,
            regs: bits::filled(0),
            pending_transfer: 0,
            pending_items: bits::filled(0),
            pending_target: [None; 8],
            wired: [None; 18],
        };
        assert(r@ =~= DmaView::fresh(name@, stream_irq@));
        r
    }

    /// Wires up a peripheral, if there is one of that number.
    fn wire(&mut self, target: DmaTarget, place: usize)
        ensures
            final(self)@ == old(self)@.wire(target, place),
    {
        if let Some(slot) = slot_index(target) {
            self.wired[slot] = Some(place);
        }
    }

    /// Wires up USART `port` (1 to 6).
    pub fn register_usart(&mut self, port: u8, place: usize)
        ensures
            final(self)@ == old(self)@.wire(DmaTarget::Usart(port), place),
    {
        self.wire(DmaTarget::Usart(port), place);
    }

    /// Wires up I2C `port` (1 to 3).
    pub fn register_i2c(&mut self, port: u8, place: usize)
        ensures
            final(self)@ == old(self)@.wire(DmaTarget::I2c(port), place),
    {
        self.wire(DmaTarget::I2c(port), place);
    }

    /// Wires up SPI `port` (1 to 3).
    pub fn register_spi(&mut self, port: u8, place: usize)
        ensures
            final(self)@ == old(self)@.wire(DmaTarget::Spi(port), place),
    {
        self.wire(DmaTarget::Spi(port), place);
    }

    /// Wires up ADC `port` (1 to 3).
    pub fn register_adc(&mut self, port: u8, place: usize)
        ensures
            final(self)@ == old(self)@.wire(DmaTarget::Adc(port), place),
    {
        self.wire(DmaTarget::Adc(port), place);
    }

    /// Wires up the DAC (`port` 1).
    pub fn register_dac(&mut self, port: u8, place: usize)
        ensures
            final(self)@ == old(self)@.wire(DmaTarget::Dac(port), place),
    {
        self.wire(DmaTarget::Dac(port), place);
    }

    /// Wires up the camera interface (`port` 1).
    pub fn register_dcmi(&mut self, port: u8, place: usize)
        ensures
            final(self)@ == old(self)@.wire(DmaTarget::Dcmi(port), place),
    {
        self.wire(DmaTarget::Dcmi(port), place);
    }

    /// Wires up the card interface (`port` 1).
    pub fn register_sdio(&mut self, port: u8, place: usize)
        ensures
            final(self)@ == old(self)@.wire(DmaTarget::Sdio(port), place),
    {
        self.wire(DmaTarget::Sdio(port), place);
    }

    /// Is a request served by this stream?
    pub fn serves(&self, stream: usize, channel: u32, dir: DmaDir) -> (r: bool)
        requires
            stream < 8,
        ensures
            r == self@.accepts(stream as int, channel, dir),
    {
        let cr: u32 = self.stream_reg(stream, 0);
        cr & CR_EN != 0 && (cr / 0x200_0000) % 8 == channel && (cr / 0x40) % 4 == dir.bits()
    }

    /// The direction that a stream between a peripheral and memory is set up for.
    pub fn stream_dir(&self, stream: usize) -> (r: DmaDir)
        requires
            stream < 8,
        ensures
            r == self@.stream_dir(stream as int),
    {
        let cr: u32 = self.stream_reg(stream, 0);
        if (cr / 0x40) % 4 == 1 {
            DmaDir::MemToPeriph
        } else {
            DmaDir::PeriphToMem
        }
    }

    /// A peripheral asks a stream for a transfer.
    pub fn service_stream(&mut self, stream: usize, channel: u32, dir: DmaDir, target: DmaTarget)
        requires
            stream < 8,
        ensures
            final(self)@ == old(self)@.service_stream(stream as int, channel, dir, target),
    {
        let items: u32 = match dir {
            DmaDir::PeriphToMem => 1,
            DmaDir::MemToPeriph => self.stream_reg(stream, 1),
        };
        let _ = self.service_stream_n(stream, channel, dir, target, items);
    }

    /// A peripheral asks a stream for a transfer of a number of items. Says whether the stream
    /// serves it.
    pub fn service_stream_n(
        &mut self,
        stream: usize,
        channel: u32,
        dir: DmaDir,
        target: DmaTarget,
        items: u32,
    ) -> (r: bool)
        requires
            stream < 8,
        ensures
            final(self)@ == old(self)@.service_stream_n(
                stream as int,
                channel,
                dir,
                target,
                items,
            ),
            r == (old(self)@.accepts(stream as int, channel, dir) && items != 0),
    {
        if !self.serves(stream, channel, dir) || items == 0 {
            return false;
        }
        self.pending_transfer = self.pending_transfer | (1u32 << (stream as u32));
        self.pending_items[stream] = items;
        self.pending_target[stream] = Some(target);
        true
    }

    fn set_stream_flag(&mut self, s: usize)
        requires
            s < 8,
        ensures
            final(self)@ == old(self)@.flagged(s as int),
    {
        let i = s / 4;
        let at: u32 = 6 * ((s % 4) as u32) + 5;
        self.regs[i] = self.regs[i] | (1u32 << at);
    }

    /// Register `sub` of a stream.
    pub fn stream_reg(&self, s: usize, sub: usize) -> (r: u32)
        requires
            s < 8,
            sub < 6,
        ensures
            r == self@.regs[stream_base(s as int) + sub],
    {
        self.regs[4 + 6 * s + sub]
    }

    fn set_stream_reg(&mut self, s: usize, sub: usize, value: u32)
        requires
            s < 8,
            sub < 6,
        ensures
            final(self)@ == old(self)@.with_stream_reg(s as int, sub as int, value),
    {
        self.regs[4 + 6 * s + sub] = value;
    }

    /// Can all noted transfers be carried out? See [`DmaView::transfer_fits`].
    pub fn transfers_fit(&self) -> (r: bool)
        requires
            self@.wf(),
        ensures
            r == (forall|s: int| 0 <= s < 8 ==> #[trigger] self@.transfer_fits(s)),
    {
        let mut s: usize = 0;
        while s < 8
            invariant
                s <= 8,
                self@.wf(),
                forall|j: int| 0 <= j < s ==> #[trigger] self@.transfer_fits(j),
            decreases 8 - s,
        {
            if !self.stream_fits(s) {
                assert(!self@.transfer_fits(s as int));
                return false;
            }
            s = s + 1;
        }
        true
    }

    /// The place of the peripheral that a stream's transfer goes to.
    fn device(&self, s: usize) -> (r: Option<usize>)
        requires
            s < 8,
            self@.wf(),
        ensures
            match r {
                Some(k) => self@.device(s as int) == Some(k as int),
                None => self@.device(s as int) is None,
            },
    {
        match self.pending_target[s] {
            Some(t) => match slot_index(t) {
                Some(slot) => self.wired[slot],
                None => None,
            },
            None => None,
        }
    }

    fn stream_fits(&self, s: usize) -> (r: bool)
        requires
            s < 8,
            self@.wf(),
        ensures
            r == self@.transfer_fits(s as int),
    {
        let n: u32 = self.pending_items[s];
        if self.pending_transfer & (1u32 << (s as u32)) == 0 || n == 0 {
            return true;
        }
        let cr: u32 = self.stream_reg(s, 0);
        let pw: u32 = width((cr / 0x800) % 4);
        let mw: u32 = width((cr / 0x2000) % 4);
        let ps: u32 = if cr & CR_PINC != 0 {
            pw
        } else {
            0
        };
        let ms: u32 = if cr & CR_MINC != 0 {
            mw
        } else {
            0
        };
        let room = u32::MAX as u64;
        assert(0 <= n * ps <= 0xFFFF_FFFF * 8 && 0 <= n * ms <= 0xFFFF_FFFF * 8) by (nonlinear_arith)
            requires
                0 <= n <= 0xFFFF_FFFF,
                0 <= ps <= 8,
                0 <= ms <= 8,
        ;
        let to = self.stream_reg(s, 3) as u64 + n as u64 * ms as u64;
        if (cr / 0x40) % 4 == 2 {
            let from = self.stream_reg(s, 2) as u64 + n as u64 * ps as u64;
            pw <= 4 && mw <= 4 && from <= room && to <= room
        } else {
            self.device(s).is_none() || to <= room
        }
    }

    /// Is any stream enabled?
    pub fn active(&self) -> (r: bool)
        ensures
            r == self@.active(),
    {
        let mut s: usize = 0;
        while s < 8
            invariant
                s <= 8,
                forall|j: int| 0 <= j < s ==> #[trigger] self@.cr(j) & CR_EN == 0,
            decreases 8 - s,
        {
            if self.stream_reg(s, 0) & CR_EN != 0 {
                assert(self@.cr(s as int) & CR_EN != 0);
                return true;
            }
            s = s + 1;
        }
        false
    }

    /// Does a noted transfer wait?
    pub fn has_pending(&self) -> (r: bool)
        ensures
            r == (self@.pending_transfer != 0),
    {
        self.pending_transfer != 0
    }

    /// The streams with a noted transfer, one bit each.
    pub fn pending_transfer(&self) -> (r: u32)
        ensures
            r == self@.pending_transfer,
    {
        self.pending_transfer
    }

    /// The number of items that a stream has to move.
    pub fn pending_items(&self, s: usize) -> (r: u32)
        requires
            s < 8,
        ensures
            r == self@.pending_items[s as int],
    {
        self.pending_items[s]
    }

    fn copy_item<M: GuestMemory>(mem: &mut M, src: u32, dst: u32, pw: u32, mw: u32)
        requires
            1 <= pw <= 4,
            1 <= mw <= 4,
        ensures
            final(mem)@ == copy_item(old(mem)@, src as int, dst as int, pw as int, mw as int),
    {
        if let Some(data) = mem.mem_read(src as u64, pw as usize) {
            let mut buf: Vec<u8> = Vec::new();
            let mut i: usize = 0;
            while i < mw as usize
                invariant
                    i <= mw,
                    buf@ == resized(data@, i as int),
                decreases mw - i,
            {
                if i < data.len() {
                    buf.push(data[i]);
                } else {
                    buf.push(0);
                }
                i = i + 1;
                assert(buf@ =~= resized(data@, i as int));
            }
            let _ = mem.mem_write(dst as u64, &buf);
        }
    }

    fn copy_stream<M: GuestMemory>(&mut self, mem: &mut M, s: usize, n: u32)
        requires
            s < 8,
            n > 0,
            periph_width(old(self)@.cr(s as int)) <= 4,
            mem_width(old(self)@.cr(s as int)) <= 4,
            old(self)@.par(s as int) + n * periph_step(old(self)@.cr(s as int)) <= u32::MAX,
            old(self)@.m0ar(s as int) + n * mem_step(old(self)@.cr(s as int)) <= u32::MAX,
        ensures
            final(mem)@ == copy_items(
                old(mem)@,
                old(self)@.cr(s as int),
                old(self)@.par(s as int) as int,
                old(self)@.m0ar(s as int) as int,
                n as int,
            ),
            final(self)@ == old(self)@.with_stream_reg(
                s as int,
                2,
                (old(self)@.par(s as int) + n * periph_step(old(self)@.cr(s as int))) as u32,
            ).with_stream_reg(
                s as int,
                3,
                (old(self)@.m0ar(s as int) + n * mem_step(old(self)@.cr(s as int))) as u32,
            ),
    {
        let cr: u32 = self.stream_reg(s, 0);
        let pw: u32 = width((cr / 0x800) % 4);
        let mw: u32 = width((cr / 0x2000) % 4);
        let ps: u32 = if cr & CR_PINC != 0 {
            pw
        } else {
            0
        };
        let ms: u32 = if cr & CR_MINC != 0 {
            mw
        } else {
            0
        };
        let src0: u32 = self.stream_reg(s, 2);
        let dst0: u32 = self.stream_reg(s, 3);
        let mut src: u32 = src0;
        let mut dst: u32 = dst0;
        let mut i: u32 = 0;
        while i < n
            invariant
                i <= n,
                1 <= pw <= 4,
                1 <= mw <= 4,
                pw == periph_width(cr),
                mw == mem_width(cr),
                ps == periph_step(cr),
                ms == mem_step(cr),
                src == src0 + i * ps,
                dst == dst0 + i * ms,
                src0 + n * ps <= u32::MAX,
                dst0 + n * ms <= u32::MAX,
                mem@ == copy_items(old(mem)@, cr, src0 as int, dst0 as int, i as int),
            decreases n - i,
        {
            Self::copy_item(mem, src, dst, pw, mw);
            proof {
                lemma_step_room(i as int, n as int, ps as int);
                lemma_step_room(i as int, n as int, ms as int);
            }
            src = src + ps;
            dst = dst + ms;
            i = i + 1;
        }
        self.set_stream_reg(s, 2, src);
        self.set_stream_reg(s, 3, dst);
    }

    fn outgoing(data: &Vec<u8>, wide: bool) -> (r: u32)
        requires
            1 <= data@.len() <= 8,
        ensures
            r == outgoing(data@, wide),
    {
        if wide {
            let n = data.len();
            let b1 = if n > 1 {
                data[1]
            } else {
                0
            };
            let b2 = if n > 2 {
                data[2]
            } else {
                0
            };
            let b3 = if n > 3 {
                data[3]
            } else {
                0
            };
            bits::le_word(data[0], b1, b2, b3)
        } else {
            data[0] as u32
        }
    }

    fn incoming(v: u32, wide: bool, width: u32) -> (r: Vec<u8>)
        requires
            1 <= width <= 8,
        ensures
            r@ == incoming(v, wide, width as int),
            1 <= r@.len() <= 8,
    {
        let mut out: Vec<u8> = Vec::new();
        if wide {
            let ghost bytes = Seq::new(4, |i: int| bits::byte_at(v, i as u32));
            let mut i: u32 = 0;
            while i < width
                invariant
                    i <= width <= 8,
                    bytes == Seq::new(4, |i: int| bits::byte_at(v, i as u32)),
                    out@ == resized(bytes, i as int),
                decreases width - i,
            {
                if i < 4 {
                    out.push(bits::byte_of(v, i));
                } else {
                    out.push(0);
                }
                i = i + 1;
                assert(out@ =~= resized(bytes, i as int));
            }
        } else {
            out.push(v as u8);
            assert(out@ =~= seq![v as u8]);
        }
        out
    }

    fn send_stream<M: GuestMemory, D: DmaByteIo>(
        &self,
        w: &mut Wires,
        mem: &M,
        dev: &mut D,
        s: usize,
        wide: bool,
        n: u32,
    )
        requires
            s < 8,
            D::dr_inv(old(dev)@),
            self@.m0ar(s as int) + n * mem_step(self@.cr(s as int)) <= u32::MAX,
        ensures
            D::dr_inv(final(dev)@),
            (final(dev)@, final(w)@) == send_items::<D>(
                mem@,
                old(dev)@,
                old(w)@,
                self@.cr(s as int),
                wide,
                self@.m0ar(s as int) as int,
                n as int,
            ),
    {
        let cr: u32 = self.stream_reg(s, 0);
        let mw: u32 = width((cr / 0x2000) % 4);
        let ms: u32 = if cr & CR_MINC != 0 {
            mw
        } else {
            0
        };
        let at0: u32 = self.stream_reg(s, 3);
        let mut at: u32 = at0;
        let mut i: u32 = 0;
        while i < n
            invariant
                i <= n,
                1 <= mw <= 8,
                mw == mem_width(cr),
                ms == mem_step(cr),
                at == at0 + i * ms,
                at0 + n * ms <= u32::MAX,
                D::dr_inv(dev@),
                (dev@, w@) == send_items::<D>(
                    mem@,
                    old(dev)@,
                    old(w)@,
                    cr,
                    wide,
                    at0 as int,
                    i as int,
                ),
            decreases n - i,
        {
            if let Some(data) = mem.mem_read(at as u64, mw as usize) {
                dev.dma_write_dr(w, Self::outgoing(&data, wide));
            }
            proof {
                lemma_step_room(i as int, n as int, ms as int);
            }
            at = at + ms;
            i = i + 1;
        }
    }

    fn receive_stream<M: GuestMemory, D: DmaByteIo>(
        &self,
        w: &mut Wires,
        mem: &mut M,
        dev: &mut D,
        s: usize,
        wide: bool,
        n: u32,
    )
        requires
            s < 8,
            D::dr_inv(old(dev)@),
            self@.m0ar(s as int) + n * mem_step(self@.cr(s as int)) <= u32::MAX,
        ensures
            D::dr_inv(final(dev)@),
            (final(mem)@, final(dev)@, final(w)@) == receive_items::<D>(
                old(mem)@,
                old(dev)@,
                old(w)@,
                self@.cr(s as int),
                wide,
                self@.m0ar(s as int) as int,
                n as int,
            ),
    {
        let cr: u32 = self.stream_reg(s, 0);
        let mw: u32 = width((cr / 0x2000) % 4);
        let ms: u32 = if cr & CR_MINC != 0 {
            mw
        } else {
            0
        };
        let at0: u32 = self.stream_reg(s, 3);
        let mut at: u32 = at0;
        let mut i: u32 = 0;
        while i < n
            invariant
                i <= n,
                1 <= mw <= 8,
                mw == mem_width(cr),
                ms == mem_step(cr),
                at == at0 + i * ms,
                at0 + n * ms <= u32::MAX,
                D::dr_inv(dev@),
                (mem@, dev@, w@) == receive_items::<D>(
                    old(mem)@,
                    old(dev)@,
                    old(w)@,
                    cr,
                    wide,
                    at0 as int,
                    i as int,
                ),
            decreases n - i,
        {
            let v: u32 = dev.dma_read_dr(w);
            let _ = mem.mem_write(at as u64, &Self::incoming(v, wide, mw));
            proof {
                lemma_step_room(i as int, n as int, ms as int);
            }
            at = at + ms;
            i = i + 1;
        }
    }

    fn finish_stream(&mut self, w: &mut Wires, s: usize, n: u32)
        requires
            s < 8,
            old(self)@.wf(),
            old(self)@.m0ar(s as int) + n * mem_step(old(self)@.cr(s as int)) <= u32::MAX,
        ensures
            final(self)@.wf(),
            (final(self)@, final(w)@) == old(self)@.moved(old(w)@, s as int, n),
    {
        let cr: u32 = self.stream_reg(s, 0);
        let ms: u32 = if cr & CR_MINC != 0 {
            width((cr / 0x2000) % 4)
        } else {
            0
        };
        let ndtr: u32 = self.stream_reg(s, 1);
        let left: u32 = if ndtr < n {
            0
        } else {
            ndtr - n
        };
        assert(0 <= n * ms) by (nonlinear_arith);
        let at: u32 = self.stream_reg(s, 3) + n * ms;
        self.set_stream_reg(s, 3, at);
        self.set_stream_reg(s, 1, left);
        if left == 0 {
            self.set_stream_reg(s, 0, cr & !CR_EN);
            self.set_stream_flag(s);
            if cr & CR_TCIE != 0 {
                w.pend(self.stream_irq[s]);
            }
        }
    }

    fn process_one<M: GuestMemory, D: DmaByteIo>(
        &mut self,
        w: &mut Wires,
        mem: &mut M,
        devices: &mut Vec<D>,
        s: usize,
    )
        requires
            s < 8,
            old(self)@.wf(),
            old(self)@.transfer_fits(s as int),
            old(self)@.wired_within(old(devices)@.len() as int),
            forall|i: int| 0 <= i < old(devices)@.len() ==> D::dr_inv(#[trigger] old(devices)@[i]@),
        ensures
            final(self)@.wf(),
            final(self)@.wired == old(self)@.wired,
            final(devices)@.len() == old(devices)@.len(),
            forall|i: int|
                0 <= i < final(devices)@.len() ==> D::dr_inv(#[trigger] final(devices)@[i]@),
            (DmaWorld {
                dma: final(self)@,
                w: final(w)@,
                mem: final(mem)@,
                devs: states(final(devices)@),
            }) == process_stream::<D>(
                DmaWorld {
                    dma: old(self)@,
                    w: old(w)@,
                    mem: old(mem)@,
                    devs: states(old(devices)@),
                },
                s as int,
            ),
    {
        let bit: u32 = 1u32 << (s as u32);
        if self.pending_transfer & bit == 0 {
            return ;
        }
        let items: u32 = self.pending_items[s];
        let cr: u32 = self.stream_reg(s, 0);
        let dir: u32 = (cr / 0x40) % 4;
        let place = self.device(s);
        if items != 0 && dir != 1 && dir != 2 {
            if let Some(k) = place {
                if !devices[k].dma_dr_ready() {
                    return ;
                }
            }
        }
        self.pending_items[s] = 0;
        self.pending_transfer = self.pending_transfer & !bit;
        if items == 0 {
            return ;
        }
        if dir == 2 {
            self.copy_stream(mem, s, items);
            return ;
        }
        let k: usize = match place {
            Some(k) => k,
            None => {
                return ;
            },
        };
        let wide = match self.pending_target[s] {
            Some(t) => has_words(t),
            None => false,
        };
        let ghost before = devices@;
        if dir == 1 {
            self.send_stream(w, mem, &mut devices[k], s, wide, items);
        } else {
            self.receive_stream(w, mem, &mut devices[k], s, wide, items);
        }
        assert(states(devices@) =~= states(before).update(k as int, devices@[k as int]@));
        self.finish_stream(w, s, items);
    }

    /// Carries out the noted transfers, lowest stream first, but for those that are held back
    /// because nothing has come yet. `devices` is the row in which the
    /// wired peripherals stand.
    pub fn process<M: GuestMemory, D: DmaByteIo>(
        &mut self,
        w: &mut Wires,
        mem: &mut M,
        devices: &mut Vec<D>,
    )
        requires
            old(self)@.wf(),
            forall|s: int| 0 <= s < 8 ==> #[trigger] old(self)@.transfer_fits(s),
            old(self)@.wired_within(old(devices)@.len() as int),
            forall|i: int| 0 <= i < old(devices)@.len() ==> D::dr_inv(#[trigger] old(devices)@[i]@),
        ensures
            final(self)@.wf(),
            final(self)@.wired == old(self)@.wired,
            final(devices)@.len() == old(devices)@.len(),
            forall|i: int|
                0 <= i < final(devices)@.len() ==> D::dr_inv(#[trigger] final(devices)@[i]@),
            (DmaWorld {
                dma: final(self)@,
                w: final(w)@,
                mem: final(mem)@,
                devs: states(final(devices)@),
            }) == process_streams::<D>(
                DmaWorld {
                    dma: old(self)@,
                    w: old(w)@,
                    mem: old(mem)@,
                    devs: states(old(devices)@),
                },
                8,
            ),
    {
        let ghost x0 = DmaWorld { dma: self@, w: w@, mem: mem@, devs: states(devices@) };
        let mut s: usize = 0;
        while s < 8
            invariant
                s <= 8,
                self@.wf(),
                forall|j: int| s <= j < 8 ==> #[trigger] self@.transfer_fits(j),
                devices@.len() == x0.devs.len(),
                self@.wired == x0.dma.wired,
                x0.dma.wired_within(x0.devs.len() as int),
                forall|i: int| 0 <= i < devices@.len() ==> D::dr_inv(#[trigger] devices@[i]@),
                (DmaWorld { dma: self@, w: w@, mem: mem@, devs: states(devices@) })
                    == process_streams::<D>(x0, s as int),
            decreases 8 - s,
        {
            let ghost x = DmaWorld { dma: self@, w: w@, mem: mem@, devs: states(devices@) };
            self.process_one(w, mem, devices, s);
            proof {
                assert forall|j: int| s + 1 <= j < 8 implies #[trigger] self@.transfer_fits(j) by {
                    assert(x.dma.transfer_fits(j));
                    lemma_others_fit::<D>(x, s as int, j);
                }
            }
            s = s + 1;
        }
    }
}

proof fn lemma_step_room(i: int, n: int, step: int)
    requires
        0 <= i < n,
        0 <= step,
    ensures
        i * step + step == (i + 1) * step,
        (i + 1) * step <= n * step,
        0 <= i * step,
{
    assert(i * step + step == (i + 1) * step && (i + 1) * step <= n * step && 0 <= i * step)
        by (nonlinear_arith)
        requires
            0 <= i < n,
            0 <= step,
    ;
}

impl Peripheral for Dma {
    open spec fn inv(s: DmaView) -> bool {
        s.wf()
    }

    open spec fn readable(s: DmaView, w: WiresView, offset: u32, size: u32) -> bool {
        true
    }

    open spec fn read_of(s: DmaView, w: WiresView, offset: u32, size: u32) -> (
        DmaView,
        WiresView,
        Result<u32, BusError>,
    ) {
        (s, w, s.read(offset, size))
    }

    open spec fn writable(s: DmaView, w: WiresView, offset: u32, size: u32, value: u32) -> bool {
        true
    }

    open spec fn write_of(s: DmaView, w: WiresView, offset: u32, size: u32, value: u32) -> (
        DmaView,
        WiresView,
        Result<(), BusError>,
    ) {
        let (s1, r) = s.write(offset, size, value);
        (s1, w, r)
    }

    open spec fn reset_of(s: DmaView, w: WiresView) -> (DmaView, WiresView) {
        (s, w)
    }

    open spec fn tickable(s: DmaView, w: WiresView, cycles: u64) -> bool {
        true
    }

    open spec fn tick_of(s: DmaView, w: WiresView, cycles: u64) -> (DmaView, WiresView) {
        s.tick_streams(w, 8)
    }

    open spec fn label(s: DmaView) -> Seq<char> {
        s.name
    }

    fn name(&self) -> &str {
        self.name
    }

    fn read(&mut self, w: &mut Wires, offset: u32, size: u32) -> Result<u32, BusError> {
        if size != 4 {
            return Err(BusError::NotImplemented);
        }
        let i = (offset / 4) as usize;
        if i < 52 {
            if i == 2 || i == 3 {
                return Ok(0);
            }
            Ok(self.regs[i])
        } else {
            Err(BusError::OutOfRange)
        }
    }

    fn write(&mut self, w: &mut Wires, offset: u32, size: u32, value: u32) -> Result<(), BusError> {
        if size != 4 {
            return Err(BusError::NotImplemented);
        }
        let i = (offset / 4) as usize;
        if i < 2 {
            Ok(())
        } else if i < 4 {
            self.regs[i - 2] = self.regs[i - 2] & !value;
            Ok(())
        } else if i < 52 {
            self.regs[i] = value;
            Ok(())
        } else {
            Err(BusError::OutOfRange)
        }
    }

    fn reset(&mut self, w: &mut Wires) {
    }

    fn tick(&mut self, w: &mut Wires, cycles: u64) {
        let ghost d0 = self@;
        let ghost w0 = w@;
        let mut s: usize = 0;
        while s < 8
            invariant
                s <= 8,
                self@.wf(),
                (self@, w@) == d0.tick_streams(w0, s as int),
            decreases 8 - s,
        {
            let cr: u32 = self.stream_reg(s, 0);
            if cr & CR_EN != 0 && (cr / 0x40) % 4 == 2 {
                let ndtr: u32 = self.stream_reg(s, 1);
                self.set_stream_reg(s, 1, 0);
                self.set_stream_reg(s, 0, cr & !CR_EN);
                self.set_stream_flag(s);
                if cr & CR_TCIE != 0 {
                    w.pend(self.stream_irq[s]);
                }
                if ndtr != 0 {
                    self.pending_transfer = self.pending_transfer | (1u32 << (s as u32));
                    self.pending_items[s] = ndtr;
                }
            }
            s = s + 1;
        }
    }
}

/// A tick leaves the wiring alone.
pub proof fn lemma_tick_keeps_wiring(d: DmaView, w: WiresView, n: int)
    ensures
        d.tick_streams(w, n).0.wired == d.wired,
    decreases n,
{
    if n > 0 {
        lemma_tick_keeps_wiring(d, w, n - 1);
    }
}

/// A copy with both addresses moving on and equal widths, between ranges that are there and
/// do not overlap, puts the source bytes into the destination and changes nothing else.
pub proof fn law_copy_moves_the_range(m: Map<u64, u8>, cr: u32, src: int, dst: int, n: int, a: u64)
    requires
        cr & CR_PINC != 0,
        cr & CR_MINC != 0,
        periph_width(cr) == mem_width(cr),
        n >= 0,
        0 <= src,
        0 <= dst,
        src + n * mem_width(cr) <= 0x1_0000_0000,
        dst + n * mem_width(cr) <= 0x1_0000_0000,
        src + n * mem_width(cr) <= dst || dst + n * mem_width(cr) <= src,
        memory::mapped(m, src, n * mem_width(cr)),
        memory::mapped(m, dst, n * mem_width(cr)),
    ensures
        copy_items(m, cr, src, dst, n).dom() == m.dom(),
        copy_items(m, cr, src, dst, n)[a] == (if dst <= a < dst + n * mem_width(cr) {
            m[(src + (a - dst)) as u64]
        } else {
            m[a]
        }),
    decreases n,
{
    let k = mem_width(cr);
    if n > 0 {
        assert((n - 1) * k + k == n * k && 0 <= (n - 1) * k) by (nonlinear_arith)
            requires
                n > 0,
                k > 0,
        ;
        assert(memory::mapped(m, src, (n - 1) * k)) by {
            assert forall|i: int| src <= i < src + (n - 1) * k implies 0 <= i <= u64::MAX
                && #[trigger] m.dom().contains(i as u64) by {
                assert(src <= i < src + n * k);
            }
        }
        assert(memory::mapped(m, dst, (n - 1) * k)) by {
            assert forall|i: int| dst <= i < dst + (n - 1) * k implies 0 <= i <= u64::MAX
                && #[trigger] m.dom().contains(i as u64) by {
                assert(dst <= i < dst + n * k);
            }
        }
        law_copy_moves_the_range(m, cr, src, dst, n - 1, a);
        let m1 = copy_items(m, cr, src, dst, n - 1);
        let s1 = src + (n - 1) * k;
        let d1 = dst + (n - 1) * k;
        assert forall|i: int| s1 <= i < s1 + k implies 0 <= i <= u64::MAX && #[trigger] m1.dom().contains(
            i as u64,
        ) by {
            assert(src <= i < src + n * k);
            assert(m.dom().contains(i as u64));
        }
        assert(memory::mapped(m1, s1, k));
        assert forall|i: int| d1 <= i < d1 + k implies 0 <= i <= u64::MAX && #[trigger] m1.dom().contains(
            i as u64,
        ) by {
            assert(dst <= i < dst + n * k);
            assert(m.dom().contains(i as u64));
        }
        assert(memory::mapped(m1, d1, k));
        let data = memory::bytes_of(m1, s1, k);
        let out = resized(data, k);
        assert(out =~= data);
        memory::law_store_then_load(m1, d1, out, a);
        if d1 <= a < d1 + k {
            let from = (s1 + (a - d1)) as u64;
            law_copy_moves_the_range(m, cr, src, dst, n - 1, from);
            assert(data[a - d1] == m1[from]);
        }
        assert(copy_items(m, cr, src, dst, n) == memory::stored(m1, d1, out));
    } else {
        assert(n * k == 0) by (nonlinear_arith)
            requires
                n == 0,
        ;
    }
}

/// A completed memory-to-memory stream is disabled, with its count at zero; a second tick
/// finds nothing to do.
pub proof fn law_completion_is_one_shot(d: DmaView, w: WiresView, s: int)
    requires
        d.wf(),
        0 <= s < 8,
        d.cr(s) & CR_EN != 0,
        dir_field(d.cr(s)) == 2,
    ensures
        ({
            let (d1, w1) = d.tick_stream(w, s);
            &&& d1.ndtr(s) == 0
            &&& d1.cr(s) & CR_EN == 0
            &&& d1.regs[s / 4] & tcif(s) != 0
            &&& d.ndtr(s) != 0 ==> bits::has_bit(d1.pending_transfer, s) && d1.pending_items[s]
                == d.ndtr(s)
            &&& d1.tick_stream(w1, s) == (d1, w1)
        }),
{
    bits::lemma_mask(d.cr(s), CR_EN);
    bits::lemma_set_bit(d.pending_transfer, s, s);
    bits::lemma_set_bit(d.regs[s / 4], 6 * (s % 4) + 5, 6 * (s % 4) + 5);
}

/// Ones written to a clear register take down those flags and no others; the clear registers
/// read as zero.
pub proof fn law_flags_clear_by_writing_one(d: DmaView, value: u32)
    requires
        d.wf(),
    ensures
        d.write(OFF_LIFCR, 4, value).0.regs[0] == d.regs[0] & !value,
        d.write(OFF_LIFCR, 4, value).0.regs[0] & value == 0,
        d.write(OFF_HIFCR, 4, value).0.regs[1] == d.regs[1] & !value,
        d.read(OFF_LIFCR, 4) == Ok::<u32, BusError>(0u32),
        d.read(OFF_HIFCR, 4) == Ok::<u32, BusError>(0u32),
{
    bits::lemma_mask(d.regs[0], value);
}

/// What goes from a data register to memory comes back as it was: a word, or a byte.
pub proof fn law_items_survive_memory(v: u32, b: u8)
    ensures
        outgoing(incoming(v, true, 4), true) == v,
        outgoing(incoming(b as u32, false, 1), false) == b,
{
    bits::lemma_word_of_bytes(v);
}

/// A request is noted by a stream that is enabled for its channel and its direction, and by no
/// other.
pub proof fn law_request_needs_its_stream(
    d: DmaView,
    s: int,
    channel: u32,
    dir: DmaDir,
    target: DmaTarget,
    items: u32,
)
    requires
        d.wf(),
        0 <= s < 8,
        items != 0,
    ensures
        ({
            let d1 = d.service_stream_n(s, channel, dir, target, items);
            &&& !d.accepts(s, channel, dir) ==> d1 == d
            &&& d.accepts(s, channel, dir) ==> bits::has_bit(d1.pending_transfer, s)
                && d1.pending_items[s] == items && d1.pending_target[s] == Some(target)
            &&& d1.regs == d.regs
        }),
{
    bits::lemma_set_bit(d.pending_transfer, s, s);
}

/// After the noted transfers were carried out, those are left that were held back when it was
/// their turn, and no others.
pub proof fn law_process_leaves_what_is_held<D: DmaByteIo>(x: DmaWorld<D::V>, n: int, s: int)
    requires
        x.dma.wf(),
        0 <= s < n <= 8,
    ensures
        process_streams::<D>(x, n).dma.wf(),
        bits::has_bit(process_streams::<D>(x, n).dma.pending_transfer, s) <==> is_held::<D>(
            process_streams::<D>(x, s),
            s,
        ),
    decreases n,
{
    lemma_process_keeps_shape::<D>(x, n - 1);
    let y = process_streams::<D>(x, n - 1);
    bits::lemma_clear_bit(y.dma.pending_transfer, n - 1, s);
    if s < n - 1 {
        law_process_leaves_what_is_held::<D>(x, n - 1, s);
    }
}

proof fn lemma_process_keeps_shape<D: DmaByteIo>(x: DmaWorld<D::V>, n: int)
    requires
        x.dma.wf(),
        0 <= n <= 8,
    ensures
        process_streams::<D>(x, n).dma.wf(),
    decreases n,
{
    if n > 0 {
        lemma_process_keeps_shape::<D>(x, n - 1);
    }
}

/// Is `k` the width in bytes that a two-bit size field stands for: 1, 2 or 4?
pub open spec fn is_width(field: u32, k: int) -> bool {
    field == 0 && k == 1 || field == 1 && k == 2 || field == 2 && k == 4
}

/// How many bytes `n` items of `width` bytes span if each is `step` bytes after the one before.
pub open spec fn span(n: int, step: int, width: int) -> int {
    if n > 0 {
        (n - 1) * step + width
    } else {
        0
    }
}

/// A copy from memory to memory with the destination moving on. Item i goes to the i-th place of
/// the destination, cut or widened with zeros to its width. It comes from the i-th place of the
/// source if the source moves on too (bit 9), and from the same place each time if it does not:
/// then memory is filled with one item. Nothing else changes.
pub proof fn law_copy_items(
    m: Map<u64, u8>,
    cr: u32,
    pw: int,
    mw: int,
    ps: int,
    src: int,
    dst: int,
    n: int,
    a: u64,
)
    requires
        is_width((cr / 0x800) % 4, pw),
        is_width((cr / 0x2000) % 4, mw),
        cr & 0x400 != 0,
        ps == if cr & 0x200 != 0 {
            pw
        } else {
            0
        },
        n >= 0,
        0 <= src,
        0 <= dst,
        src + span(n, ps, pw) <= 0x1_0000_0000,
        dst + n * mw <= 0x1_0000_0000,
        src + span(n, ps, pw) <= dst || dst + n * mw <= src,
        memory::mapped(m, src, span(n, ps, pw)),
        memory::mapped(m, dst, n * mw),
    ensures
        copy_items(m, cr, src, dst, n).dom() == m.dom(),
        copy_items(m, cr, src, dst, n)[a] == (if dst <= a < dst + n * mw {
            let (i, j) = ((a - dst) / mw, (a - dst) % mw);
            if j < pw {
                m[(src + i * ps + j) as u64]
            } else {
                0
            }
        } else {
            m[a]
        }),
    decreases n,
{
    assert(periph_width(cr) == pw && mem_width(cr) == mw && periph_step(cr) == ps && mem_step(cr)
        == mw);
    if n > 0 {
        let k = n - 1;
        assert(k * mw + mw == n * mw && 0 <= k * mw && 0 <= k * ps && span(k, ps, pw) <= k * ps + pw
            && 0 <= span(k, ps, pw)) by (nonlinear_arith)
            requires
                k == n - 1,
                n > 0,
                0 <= ps,
                mw > 0,
                pw > 0,
                span(k, ps, pw) == if k > 0 {
                    (k - 1) * ps + pw
                } else {
                    0
                },
        ;
        memory::lemma_part_is_mapped(m, src, span(n, ps, pw), src, span(k, ps, pw));
        memory::lemma_part_is_mapped(m, dst, n * mw, dst, k * mw);
        law_copy_items(m, cr, pw, mw, ps, src, dst, k, a);
        let m1 = copy_items(m, cr, src, dst, k);
        let (s1, d1) = (src + k * ps, dst + k * mw);
        memory::lemma_part_is_mapped(m, src, span(n, ps, pw), s1, pw);
        memory::lemma_part_is_mapped(m, dst, n * mw, d1, mw);
        assert(memory::mapped(m1, s1, pw)) by {
            memory::lemma_same_mapping(m, m1, s1, pw);
        }
        assert(memory::mapped(m1, d1, mw)) by {
            memory::lemma_same_mapping(m, m1, d1, mw);
        }
        let out = resized(memory::bytes_of(m1, s1, pw), mw);
        memory::law_store_then_load(m1, d1, out, a);
        assert(copy_items(m, cr, src, dst, n) == memory::stored(m1, d1, out));
        if d1 <= a < d1 + mw {
            let j = a - d1;
            vstd::arithmetic::div_mod::lemma_fundamental_div_mod_converse(a - dst, mw, k, j);
            if j < pw {
                law_copy_items(m, cr, pw, mw, ps, src, dst, k, (s1 + j) as u64);
                assert(out[j] == m1[(s1 + j) as u64]);
            }
        }
    } else {
        assert(n * mw == 0) by (nonlinear_arith)
            requires
                n == 0,
        ;
    }
}

/// A copy with the destination standing still leaves the last item there, and changes nothing
/// else.
pub proof fn law_copy_to_one_place(
    m: Map<u64, u8>,
    cr: u32,
    pw: int,
    mw: int,
    ps: int,
    src: int,
    dst: int,
    n: int,
    a: u64,
)
    requires
        is_width((cr / 0x800) % 4, pw),
        is_width((cr / 0x2000) % 4, mw),
        cr & 0x400 == 0,
        ps == if cr & 0x200 != 0 {
            pw
        } else {
            0
        },
        n > 0,
        0 <= src,
        0 <= dst,
        src + span(n, ps, pw) <= 0x1_0000_0000,
        dst + mw <= 0x1_0000_0000,
        src + span(n, ps, pw) <= dst || dst + mw <= src,
        memory::mapped(m, src, span(n, ps, pw)),
        memory::mapped(m, dst, mw),
    ensures
        copy_items(m, cr, src, dst, n).dom() == m.dom(),
        copy_items(m, cr, src, dst, n)[a] == (if dst <= a < dst + mw {
            if a - dst < pw {
                m[(src + (n - 1) * ps + (a - dst)) as u64]
            } else {
                0
            }
        } else {
            m[a]
        }),
    decreases n,
{
    assert(periph_width(cr) == pw && mem_width(cr) == mw && periph_step(cr) == ps && mem_step(cr)
        == 0);
    let k = n - 1;
    assert(k * 0 == 0 && 0 <= k * ps && span(k, ps, pw) <= k * ps + pw && 0 <= span(k, ps, pw))
        by (nonlinear_arith)
        requires
            k == n - 1,
            n > 0,
            0 <= ps,
            pw > 0,
            span(k, ps, pw) == if k > 0 {
                (k - 1) * ps + pw
            } else {
                0
            },
    ;
    let m1 = copy_items(m, cr, src, dst, k);
    let s1 = src + k * ps;
    memory::lemma_part_is_mapped(m, src, span(n, ps, pw), s1, pw);
    if k > 0 {
        memory::lemma_part_is_mapped(m, src, span(n, ps, pw), src, span(k, ps, pw));
        law_copy_to_one_place(m, cr, pw, mw, ps, src, dst, k, a);
    }
    memory::lemma_same_mapping(m, m1, s1, pw);
    memory::lemma_same_mapping(m, m1, dst, mw);
    let out = resized(memory::bytes_of(m1, s1, pw), mw);
    memory::law_store_then_load(m1, dst, out, a);
    assert(copy_items(m, cr, src, dst, n) == memory::stored(m1, dst, out));
    if dst <= a < dst + mw && a - dst < pw {
        let from = (s1 + (a - dst)) as u64;
        if k > 0 {
            law_copy_to_one_place(m, cr, pw, mw, ps, src, dst, k, from);
        }
        assert(out[a - dst] == m1[from]);
    }
}

/// A noted memory-to-memory transfer is carried out once: the items are copied from the address
/// in the peripheral register to the one in the memory register. Each of the two registers moves
/// on by the bytes of the items if it is set to, and stays if not. No device and no line is
/// touched, and no other register.
pub proof fn law_stream_copies<D: DmaByteIo>(
    x: DmaWorld<D::V>,
    s: int,
    pw: int,
    mw: int,
    ps: int,
    ms: int,
    i: int,
)
    requires
        x.dma.wf(),
        0 <= s < 8,
        0 <= i < 52,
        bits::has_bit(x.dma.pending_transfer, s),
        x.dma.pending_items[s] != 0,
        x.dma.transfer_fits(s),
        (x.dma.regs[4 + 6 * s] / 0x40) % 4 == 2,
        is_width((x.dma.regs[4 + 6 * s] / 0x800) % 4, pw),
        is_width((x.dma.regs[4 + 6 * s] / 0x2000) % 4, mw),
        ps == if x.dma.regs[4 + 6 * s] & 0x200 != 0 {
            pw
        } else {
            0
        },
        ms == if x.dma.regs[4 + 6 * s] & 0x400 != 0 {
            mw
        } else {
            0
        },
    ensures
        ({
            let y = process_stream::<D>(x, s);
            let (cr, n) = (x.dma.regs[4 + 6 * s], x.dma.pending_items[s] as int);
            let (par, m0ar) = (x.dma.regs[6 + 6 * s], x.dma.regs[7 + 6 * s]);
            &&& y.mem == copy_items(x.mem, cr, par as int, m0ar as int, n)
            &&& y.dma.regs[i] == if i == 6 + 6 * s {
                par + n * ps
            } else if i == 7 + 6 * s {
                m0ar + n * ms
            } else {
                x.dma.regs[i] as int
            }
            &&& y.w == x.w && y.devs == x.devs
            &&& !bits::has_bit(y.dma.pending_transfer, s) && y.dma.pending_items[s] == 0
        }),
{
    let d = x.dma;
    let n = d.pending_items[s] as int;
    bits::lemma_clear_bit(d.pending_transfer, s, s);
    assert(0 <= n * ps && 0 <= n * ms) by (nonlinear_arith)
        requires
            n >= 0,
            ps >= 0,
            ms >= 0,
    ;
    assert(d.cr(s) == d.regs[4 + 6 * s]);
    assert(periph_step(d.cr(s)) == ps && mem_step(d.cr(s)) == ms);
}

/// Items go to a peripheral in the order of their addresses: the first item is put into the data
/// register, and then the others from the next address on. An item is a byte, or a word made of
/// its bytes with the lowest first.
pub proof fn law_send_in_order<D: DmaByteIo>(
    m: Map<u64, u8>,
    dev: D::V,
    w: WiresView,
    cr: u32,
    wide: bool,
    src: int,
    n: int,
    mw: int,
)
    requires
        n > 0,
        is_width((cr / 0x2000) % 4, mw),
        0 <= src,
        src + mw <= u64::MAX,
    ensures
        ({
            let ms = if cr & 0x400 != 0 {
                mw
            } else {
                0
            };
            let b = |i: int| m[(src + i) as u64] as int;
            let item = if !wide || mw == 1 {
                b(0)
            } else if mw == 2 {
                b(0) + 0x100 * b(1)
            } else {
                b(0) + 0x100 * b(1) + 0x1_0000 * b(2) + 0x100_0000 * b(3)
            };
            let (d1, w1) = if memory::mapped(m, src, mw) {
                D::dr_write_of(dev, w, item as u32)
            } else {
                (dev, w)
            };
            send_items::<D>(m, dev, w, cr, wide, src, n) == send_items::<D>(
                m,
                d1,
                w1,
                cr,
                wide,
                src + ms,
                n - 1,
            )
        }),
{
    let data = memory::bytes_of(m, src, mw);
    let b = resized(data, 4);
    bits::law_bytes_are_digits(0, b[0], b[1], b[2], b[3]);
    bits::law_bytes_are_digits(0, data[0], 0, 0, 0);
    let (d1, w1) = if memory::mapped(m, src, mw) {
        D::dr_write_of(dev, w, outgoing(data, wide))
    } else {
        (dev, w)
    };
    lemma_send_from_front::<D>(m, dev, w, cr, wide, src, n);
}

proof fn lemma_send_from_front<D: DmaByteIo>(
    m: Map<u64, u8>,
    dev: D::V,
    w: WiresView,
    cr: u32,
    wide: bool,
    src: int,
    n: int,
)
    requires
        n > 0,
    ensures
        ({
            let mw = mem_width(cr);
            let (d1, w1) = if memory::mapped(m, src, mw) {
                D::dr_write_of(dev, w, outgoing(memory::bytes_of(m, src, mw), wide))
            } else {
                (dev, w)
            };
            send_items::<D>(m, dev, w, cr, wide, src, n) == send_items::<D>(
                m,
                d1,
                w1,
                cr,
                wide,
                src + mem_step(cr),
                n - 1,
            )
        }),
    decreases n,
{
    reveal_with_fuel(send_items, 2);
    let k = mem_step(cr);
    if n > 1 {
        lemma_send_from_front::<D>(m, dev, w, cr, wide, src, n - 1);
        assert(src + k + (n - 2) * k == src + (n - 1) * k) by (nonlinear_arith);
    } else {
        assert((n - 1) * k == 0) by (nonlinear_arith)
            requires
                n == 1,
        ;
    }
}

/// Items come from a peripheral in the order in which it gives them: the first one is taken out
/// of the data register and put at the address, and then the others from the next address on. A
/// byte stays a byte; a word gives as many of its bytes as an item has, lowest first.
pub proof fn law_receive_in_order<D: DmaByteIo>(
    m: Map<u64, u8>,
    dev: D::V,
    w: WiresView,
    cr: u32,
    wide: bool,
    dst: int,
    n: int,
    mw: int,
)
    requires
        n > 0,
        is_width((cr / 0x2000) % 4, mw),
    ensures
        ({
            let ms = if cr & 0x400 != 0 {
                mw
            } else {
                0
            };
            let (d1, w1, v) = D::dr_read_of(dev, w);
            let all = seq![
                (v % 256) as u8,
                ((v / 0x100) % 256) as u8,
                ((v / 0x1_0000) % 256) as u8,
                (v / 0x100_0000) as u8,
            ];
            let item = if wide {
                all.take(mw)
            } else {
                all.take(1)
            };
            receive_items::<D>(m, dev, w, cr, wide, dst, n) == receive_items::<D>(
                memory::stored_if_mapped(m, dst, item),
                d1,
                w1,
                cr,
                wide,
                dst + ms,
                n - 1,
            )
        }),
{
    let v = D::dr_read_of(dev, w).2;
    bits::law_bytes_are_digits(v, 0, 0, 0, 0);
    let all = seq![
        (v % 256) as u8,
        ((v / 0x100) % 256) as u8,
        ((v / 0x1_0000) % 256) as u8,
        (v / 0x100_0000) as u8,
    ];
    assert(v as u8 == bits::byte_at(v, 0)) by {
        vstd::bits::lemma_u32_shr_is_div(v, 0);
        vstd::arithmetic::power2::lemma2_to64();
    }
    assert(incoming(v, wide, mw) =~= if wide {
        all.take(mw)
    } else {
        all.take(1)
    });
    lemma_receive_from_front::<D>(m, dev, w, cr, wide, dst, n);
}

proof fn lemma_receive_from_front<D: DmaByteIo>(
    m: Map<u64, u8>,
    dev: D::V,
    w: WiresView,
    cr: u32,
    wide: bool,
    dst: int,
    n: int,
)
    requires
        n > 0,
    ensures
        ({
            let (d1, w1, v) = D::dr_read_of(dev, w);
            receive_items::<D>(m, dev, w, cr, wide, dst, n) == receive_items::<D>(
                memory::stored_if_mapped(m, dst, incoming(v, wide, mem_width(cr))),
                d1,
                w1,
                cr,
                wide,
                dst + mem_step(cr),
                n - 1,
            )
        }),
    decreases n,
{
    reveal_with_fuel(receive_items, 2);
    let k = mem_step(cr);
    if n > 1 {
        lemma_receive_from_front::<D>(m, dev, w, cr, wide, dst, n - 1);
        assert(dst + k + (n - 2) * k == dst + (n - 1) * k) by (nonlinear_arith);
    } else {
        assert((n - 1) * k == 0) by (nonlinear_arith)
            requires
                n == 1,
        ;
    }
}

/// After a transfer with a peripheral the count has gone down by the items, the memory address
/// has moved on by their bytes if it is set to, and the peripheral's address stays. With the last
/// item the stream is disabled, its completion flag goes up, and its line if that is enabled.
pub proof fn law_transfer_counts_down(d: DmaView, w: WiresView, s: int, n: u32, mw: int)
    requires
        d.wf(),
        0 <= s < 8,
        is_width((d.regs[4 + 6 * s] / 0x2000) % 4, mw),
        d.regs[7 + 6 * s] + n * mw <= u32::MAX,
    ensures
        ({
            let (e, v) = d.moved(w, s, n);
            let cr = d.regs[4 + 6 * s];
            let left = d.regs[5 + 6 * s] - n;
            &&& e.regs[5 + 6 * s] == if left > 0 {
                left
            } else {
                0
            }
            &&& e.regs[6 + 6 * s] == d.regs[6 + 6 * s]
            &&& e.regs[7 + 6 * s] == d.regs[7 + 6 * s] + if cr & 0x400 != 0 {
                n * mw
            } else {
                0
            }
            &&& left > 0 ==> e.regs[4 + 6 * s] == cr && e.regs[s / 4] == d.regs[s / 4] && v == w
            &&& left <= 0 ==> {
                &&& e.regs[4 + 6 * s] == cr & !1u32
                &&& bits::has_bit(e.regs[s / 4], 6 * (s % 4) + 5)
                &&& v == if cr & 0x20 != 0 {
                    w.pend(d.stream_irq[s])
                } else {
                    w
                }
            }
        }),
{
    let n1 = n as int;
    assert(0 <= n1 * mw && n1 * 0 == 0) by (nonlinear_arith)
        requires
            n1 >= 0,
            mw >= 0,
    ;
    assert(d.cr(s) == d.regs[4 + 6 * s] && d.ndtr(s) == d.regs[5 + 6 * s] && d.m0ar(s) == d.regs[7 + 6
        * s]);
    bits::lemma_set_bit(d.regs[s / 4], 6 * (s % 4) + 5, 6 * (s % 4) + 5);
}

/// Stream `s` has its registers from `0x10 + 0x18 * s` on: control, count, peripheral address,
/// memory address. Each reads back what was written, and writing one changes no other.
pub proof fn law_stream_registers(d: DmaView, s: int, value: u32)
    requires
        d.wf(),
        0 <= s < 8,
    ensures
        ({
            let at = (0x10 + 0x18 * s) as u32;
            &&& d.write(at, 4, value).0.cr(s) == value
            &&& d.write((at + 4) as u32, 4, value).0.ndtr(s) == value
            &&& d.write((at + 8) as u32, 4, value).0.par(s) == value
            &&& d.write((at + 12) as u32, 4, value).0.m0ar(s) == value
            &&& d.read(at, 4) == Ok::<u32, BusError>(d.cr(s))
            &&& d.read((at + 4) as u32, 4) == Ok::<u32, BusError>(d.ndtr(s))
            &&& d.read((at + 8) as u32, 4) == Ok::<u32, BusError>(d.par(s))
            &&& d.read((at + 12) as u32, 4) == Ok::<u32, BusError>(d.m0ar(s))
        }),
        forall|offset: u32, i: int|
            #![trigger d.write(offset, 4, value), d.regs[i]]
            0x10 <= offset < 0xD0 && 0 <= i < 52 && i != offset as int / 4 ==> d.write(
                offset,
                4,
                value,
            ).0.regs[i] == d.regs[i],
{
}

/// A stream serves a request if it is on, its channel field (bits 25 to 27) names the channel, and
/// its direction field (bits 6 and 7) is 0 towards memory and 1 towards the peripheral.
pub proof fn law_stream_selection(d: DmaView, s: int, channel: u32)
    requires
        d.wf(),
        0 <= s < 8,
    ensures
        d.accepts(s, channel, DmaDir::PeriphToMem) <==> d.cr(s) & 1 != 0 && (d.cr(s) / 0x200_0000) % 8
            == channel && (d.cr(s) / 0x40) % 4 == 0,
        d.accepts(s, channel, DmaDir::MemToPeriph) <==> d.cr(s) & 1 != 0 && (d.cr(s) / 0x200_0000) % 8
            == channel && (d.cr(s) / 0x40) % 4 == 1,
        d.stream_dir(s) == if (d.cr(s) / 0x40) % 4 == 1 {
            DmaDir::MemToPeriph
        } else {
            DmaDir::PeriphToMem
        },
        d.active() <==> (exists|k: int| 0 <= k < 8 && (#[trigger] d.cr(k)) & 1 != 0),
{
}

/// A memory-to-memory stream that is on completes at the next tick: its count is noted as the
/// transfer to make and goes to zero, the stream goes off, its flag goes up in its status word,
/// and so does its line if bit 5 of the control register allows it. Other streams notice nothing.
pub proof fn law_copy_completes(d: DmaView, w: WiresView, s: int, i: int)
    requires
        d.wf(),
        0 <= s < 8,
        0 <= i < 52,
    ensures
        ({
            let cr = d.regs[4 + 6 * s];
            let (t, v) = d.tick_stream(w, s);
            let on = cr & 1 != 0 && (cr / 0x40) % 4 == 2;
            &&& !on ==> (t, v) == (d, w)
            &&& on ==> {
                &&& t.regs[4 + 6 * s] == cr & !1u32
                &&& t.regs[5 + 6 * s] == 0
                &&& t.regs[s / 4] == d.regs[s / 4] | bits::bit(6 * (s % 4) + 5)
                &&& i != s / 4 && i != 4 + 6 * s && i != 5 + 6 * s ==> t.regs[i] == d.regs[i]
                &&& v == if cr & 0x20 != 0 {
                    w.pend(d.stream_irq[s])
                } else {
                    w
                }
                &&& d.regs[5 + 6 * s] != 0 ==> bits::has_bit(t.pending_transfer, s)
                    && t.pending_items[s] == d.regs[5 + 6 * s]
                &&& forall|r: int|
                    0 <= r < 8 && r != s ==> (#[trigger] t.pending_items[r]) == d.pending_items[r]
            }
        }),
{
    bits::lemma_set_bit(d.pending_transfer, s, s);
}

/// The data registers of the serial ports hold a byte, those of the converters, the camera and the
/// card a word. A word goes out and comes in lowest byte first, an item shorter than a word fills
/// its low end.
pub proof fn law_item_widths(p: u8, v: u32, data: Seq<u8>)
    requires
        data.len() >= 1,
    ensures
        !is_wide(DmaTarget::Usart(p)) && !is_wide(DmaTarget::I2c(p)) && !is_wide(DmaTarget::Spi(p)),
        is_wide(DmaTarget::Adc(p)) && is_wide(DmaTarget::Dac(p)) && is_wide(DmaTarget::Dcmi(p))
            && is_wide(DmaTarget::Sdio(p)) && is_wide(DmaTarget::Tim(p)),
        outgoing(data, false) == data[0],
        data.len() == 1 ==> outgoing(data, true) == data[0],
        data.len() == 2 ==> outgoing(data, true) == data[0] + 0x100 * data[1],
        data.len() == 4 ==> outgoing(data, true) == data[0] + 0x100 * data[1] + 0x1_0000 * data[2]
            + 0x100_0000 * data[3],
        incoming(v, false, 1) == seq![(v % 256) as u8],
        incoming(v, true, 1) == seq![(v % 256) as u8],
        incoming(v, true, 2) == seq![(v % 256) as u8, ((v / 0x100) % 256) as u8],
        incoming(v, true, 4) == seq![
            (v % 256) as u8,
            ((v / 0x100) % 256) as u8,
            ((v / 0x1_0000) % 256) as u8,
            (v / 0x100_0000) as u8,
        ],
{
    let b = resized(data, 4);
    bits::law_bytes_are_digits(v, b[0], b[1], b[2], b[3]);
    bits::lemma_low_byte(v);
}

} // verus!
