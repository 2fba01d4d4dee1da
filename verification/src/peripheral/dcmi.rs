//! The camera interface.
//!
//! A frame that arrives while the interface is enabled and capturing is queued as words, low
//! byte first, the last one filled up with zeros. It raises the frame and line flags; in
//! snapshot mode it ends the capture. Reading the data register, by the processor or the DMA,
//! takes a word.
//!
//! Offsets: CR 0x00, SR 0x04, RIS 0x08, IER 0x0C, MIS 0x10, ICR 0x14, ESCR 0x18, ESUR 0x1C,
//! CWSTRT 0x20, CWSIZE 0x24, DR 0x28.
use crate::bits;
use crate::peripheral::dma::DmaByteIo;
use crate::peripheral::{BusError, Peripheral};
use crate::wires::{Wires, WiresView};
use std::collections::VecDeque;
use vstd::prelude::*;

verus! {

pub const DCMI_IRQ: u32 = 78;

pub const OFF_CR: u32 = 0x00;

pub const OFF_SR: u32 = 0x04;

pub const OFF_RIS: u32 = 0x08;

pub const OFF_IER: u32 = 0x0C;

pub const OFF_MIS: u32 = 0x10;

pub const OFF_ICR: u32 = 0x14;

pub const OFF_ESCR: u32 = 0x18;

pub const OFF_ESUR: u32 = 0x1C;

pub const OFF_CWSTRT: u32 = 0x20;

pub const OFF_CWSIZE: u32 = 0x24;

pub const OFF_DR: u32 = 0x28;

pub const CR_CAPTURE: u32 = 0x1;

pub const CR_CM: u32 = 0x2;

pub const CR_ENABLE: u32 = 0x4000;

/// Enabled and capturing.
pub const CR_RUNNING: u32 = 0x4001;

pub const CR_WMASK: u32 = 0x005F_C01F;

pub const SR_FNE: u32 = 0x1;

pub const SR_LINE: u32 = 0x40;

pub const SR_FRAME: u32 = 0x80;

/// The flags that a frame raises in the status register.
pub const SR_ARRIVED: u32 = 0xC0;

pub const INT_FRAME: u32 = 0x1;

pub const INT_LINE: u32 = 0x8;

/// The interrupts that a frame raises.
pub const INT_ARRIVED: u32 = 0x9;

pub const INT_MASK: u32 = 0x3F;

/// Camera interface.
pub struct Dcmi {
    irq: u32,
    cr: u32,
    sr: u32,
    ris: u32,
    ier: u32,
    escr: u32,
    esur: u32,
    cwstrt: u32,
    cwsize: u32,
    fifo: VecDeque<u32>,
}

/// The state of the interface.
#[verifier::ext_equal]
pub struct DcmiView {
    pub irq: u32,
    pub cr: u32,
    pub sr: u32,
    pub ris: u32,
    pub ier: u32,
    pub escr: u32,
    pub esur: u32,
    pub cwstrt: u32,
    pub cwsize: u32,
    /// The words that wait, oldest first.
    pub fifo: Seq<u32>,
}

impl View for Dcmi {
    type V = DcmiView;

    closed spec fn view(&self) -> DcmiView {
        DcmiView {
            irq: self.irq,
            cr: self.cr,
            sr: self.sr,
            ris: self.ris,
            ier: self.ier,
            escr: self.escr,
            esur: self.esur,
            cwstrt: self.cwstrt,
            cwsize: self.cwsize,
            fifo: self.fifo@,
        }
    }
}

/// A byte of a frame; past its end there are zeros.
pub open spec fn frame_byte(data: Seq<u8>, i: int) -> u8 {
    if i < data.len() {
        data[i]
    } else {
        0
    }
}

/// The words of a frame.
pub open spec fn frame_words(data: Seq<u8>) -> Seq<u32> {
    Seq::new(
        ((data.len() + 3) / 4) as nat,
        |k: int|
            bits::word_of(
                frame_byte(data, 4 * k),
                frame_byte(data, 4 * k + 1),
                frame_byte(data, 4 * k + 2),
                frame_byte(data, 4 * k + 3),
            ),
    )
}

fn byte_or_zero(data: &[u8], i: usize) -> (r: u8)
    ensures
        r == frame_byte(data@, i as int),
{
    if i < data.len() {
        data[i]
    } else {
        0
    }
}

impl DcmiView {
    pub open spec fn fresh(irq: u32) -> DcmiView {
        DcmiView {
            irq,
            cr: 0,
            sr: 0,
            ris: 0,
            ier: 0,
            escr: 0,
            esur: 0,
            cwstrt: 0,
            cwsize: 0,
            fifo: Seq::empty(),
        }
    }

    pub open spec fn running(self) -> bool {
        self.cr & CR_RUNNING == CR_RUNNING
    }

    /// A frame arrives; without a running capture, or without bytes, nothing happens.
    pub open spec fn feed_frame(self, w: WiresView, data: Seq<u8>) -> (DcmiView, WiresView) {
        if !self.running() || data.len() == 0 {
            (self, w)
        } else {
            (
                DcmiView {
                    fifo: self.fifo + frame_words(data),
                    sr: self.sr | SR_FNE | SR_ARRIVED,
                    ris: self.ris | INT_ARRIVED,
                    cr: if self.cr & CR_CM != 0 {
                        self.cr & !CR_CAPTURE
                    } else {
                        self.cr
                    },
                    ..self
                },
                w.pend_if(self.ier & INT_ARRIVED != 0, self.irq),
            )
        }
    }

    /// A word is taken (0 if there is none).
    pub open spec fn pop_word(self) -> (DcmiView, u32) {
        let fifo = if self.fifo.len() > 0 {
            self.fifo.drop_first()
        } else {
            self.fifo
        };
        (
            DcmiView {
                fifo,
                sr: if fifo.len() == 0 {
                    self.sr & !SR_FNE
                } else {
                    self.sr
                },
                ..self
            },
            if self.fifo.len() > 0 {
                self.fifo[0]
            } else {
                0
            },
        )
    }

    pub open spec fn read(self, offset: u32, size: u32) -> (DcmiView, Result<u32, BusError>) {
        if size != 4 {
            (self, Err(BusError::NotImplemented))
        } else if offset == OFF_CR {
            (self, Ok(self.cr))
        } else if offset == OFF_SR {
            (self, Ok(self.sr))
        } else if offset == OFF_RIS {
            (self, Ok(self.ris))
        } else if offset == OFF_IER {
            (self, Ok(self.ier))
        } else if offset == OFF_MIS {
            (self, Ok(self.ris & self.ier))
        } else if offset == OFF_ICR {
            (self, Ok(0u32))
        } else if offset == OFF_ESCR {
            (self, Ok(self.escr))
        } else if offset == OFF_ESUR {
            (self, Ok(self.esur))
        } else if offset == OFF_CWSTRT {
            (self, Ok(self.cwstrt))
        } else if offset == OFF_CWSIZE {
            (self, Ok(self.cwsize))
        } else if offset == OFF_DR {
            (self.pop_word().0, Ok(self.pop_word().1))
        } else {
            (self, Err(BusError::OutOfRange))
        }
    }

    pub open spec fn write(self, offset: u32, size: u32, value: u32) -> (DcmiView, Result<
        (),
        BusError,
    >) {
        if size != 4 {
            (self, Err(BusError::NotImplemented))
        } else if offset == OFF_CR {
            (DcmiView { cr: value & CR_WMASK, ..self }, Ok(()))
        } else if offset == OFF_SR || offset == OFF_RIS || offset == OFF_MIS || offset == OFF_DR {
            (self, Ok(()))
        } else if offset == OFF_IER {
            (DcmiView { ier: value & INT_MASK, ..self }, Ok(()))
        } else if offset == OFF_ICR {
            (DcmiView { ris: self.ris & !(value & INT_MASK), ..self }, Ok(()))
        } else if offset == OFF_ESCR {
            (DcmiView { escr: value, ..self }, Ok(()))
        } else if offset == OFF_ESUR {
            (DcmiView { esur: value, ..self }, Ok(()))
        } else if offset == OFF_CWSTRT {
            (DcmiView { cwstrt: value, ..self }, Ok(()))
        } else if offset == OFF_CWSIZE {
            (DcmiView { cwsize: value, ..self }, Ok(()))
        } else {
            (self, Err(BusError::OutOfRange))
        }
    }
}

impl Dcmi {
    pub fn new(irq: u32) -> (r: Self)
        ensures
            r@ == DcmiView::fresh(irq),
    {
        Dcmi {
            irq,
            cr: 0,
            sr: 0,
            ris: 0,
            ier: 0,
            escr: 0,
            esur: 0,
            cwstrt: 0,
            cwsize: 0,
            fifo: VecDeque::new(),
        }
    }

    /// A frame arrives. The answer is the number of words that it added.
    pub fn feed_frame(&mut self, w: &mut Wires, data: &[u8]) -> (count: u32)
        requires
            old(self)@.irq < 96,
        ensures
            (final(self)@, final(w)@) == old(self)@.feed_frame(old(w)@, data@),
            count == (if old(self)@.running() {
                frame_words(data@).len() as u32
            } else {
                0
            }),
    {
        if self.cr & CR_RUNNING != CR_RUNNING {
            return 0;
        }
        if data.len() == 0 {
            return 0;
        }
        let n = data.len() / 4 + if data.len() % 4 == 0 {
            0
        } else {
            1
        };
        let mut k: usize = 0;
        assert(data@.len() == data.len());
        while k < n
            invariant
                k <= n,
                n == (data@.len() + 3) / 4,
                data@.len() <= usize::MAX,
                self.fifo@ == old(self)@.fifo + frame_words(data@).take(k as int),
                self@ == (DcmiView { fifo: self.fifo@, ..old(self)@ }),
            decreases n - k,
        {
            let at = 4 * k;
            let b0 = byte_or_zero(data, at);
            let (b1, b2, b3) = if data.len() - at > 3 {
                (data[at + 1], data[at + 2], data[at + 3])
            } else if data.len() - at > 2 {
                (data[at + 1], data[at + 2], 0)
            } else if data.len() - at > 1 {
                (data[at + 1], 0, 0)
            } else {
                (0, 0, 0)
            };
            let word = bits::le_word(b0, b1, b2, b3);
            self.fifo.push_back(word);
            assert(word == frame_words(data@)[k as int]);
            assert(self.fifo@ =~= old(self)@.fifo + frame_words(data@).take(k + 1));
            k = k + 1;
        }
        assert(frame_words(data@).take(n as int) =~= frame_words(data@));
        self.sr = self.sr | SR_FNE | SR_ARRIVED;
        self.ris = self.ris | INT_ARRIVED;
        if self.cr & CR_CM != 0 {
            self.cr = self.cr & !CR_CAPTURE;
        }
        if self.ier & INT_ARRIVED != 0 {
            w.pend(self.irq);
        }
        n as u32
    }

    /// Do words wait?
    pub fn fne(&self) -> (r: bool)
        ensures
            r == (self@.fifo.len() > 0),
    {
        self.fifo.len() > 0
    }

    fn pop_word(&mut self) -> (r: u32)
        ensures
            (final(self)@, r) == old(self)@.pop_word(),
    {
        let v: u32 = match self.fifo.pop_front() {
            Some(v) => v,
            None => 0,
        };
        proof {
            let f = old(self)@.fifo;
            assert(self.fifo@ =~= if f.len() > 0 {
                f.drop_first()
            } else {
                f
            });
        }
        if self.fifo.len() == 0 {
            self.sr = self.sr & !SR_FNE;
        }
        v
    }
}

impl DmaByteIo for Dcmi {
    open spec fn dr_inv(s: DcmiView) -> bool {
        true
    }

    open spec fn dr_ready(s: DcmiView) -> bool {
        true
    }

    open spec fn dr_read_of(s: DcmiView, w: WiresView) -> (DcmiView, WiresView, u32) {
        (s.pop_word().0, w, s.pop_word().1)
    }

    /// The interface only takes in.
    open spec fn dr_write_of(s: DcmiView, w: WiresView, value: u32) -> (DcmiView, WiresView) {
        (s, w)
    }

    fn dma_dr_ready(&self) -> bool {
        true
    }

    fn dma_read_dr(&mut self, w: &mut Wires) -> u32 {
        self.pop_word()
    }

    fn dma_write_dr(&mut self, w: &mut Wires, value: u32) {
    }
}

impl Peripheral for Dcmi {
    open spec fn inv(s: DcmiView) -> bool {
        true
    }

    open spec fn readable(s: DcmiView, w: WiresView, offset: u32, size: u32) -> bool {
        true
    }

    open spec fn read_of(s: DcmiView, w: WiresView, offset: u32, size: u32) -> (
        DcmiView,
        WiresView,
        Result<u32, BusError>,
    ) {
        let (s1, r) = s.read(offset, size);
        (s1, w, r)
    }

    open spec fn writable(s: DcmiView, w: WiresView, offset: u32, size: u32, value: u32) -> bool {
        true
    }

    open spec fn write_of(s: DcmiView, w: WiresView, offset: u32, size: u32, value: u32) -> (
        DcmiView,
        WiresView,
        Result<(), BusError>,
    ) {
        let (s1, r) = s.write(offset, size, value);
        (s1, w, r)
    }

    open spec fn reset_of(s: DcmiView, w: WiresView) -> (DcmiView, WiresView) {
        (DcmiView::fresh(s.irq), w)
    }

    open spec fn tickable(s: DcmiView, w: WiresView, cycles: u64) -> bool {
        true
    }

    open spec fn tick_of(s: DcmiView, w: WiresView, cycles: u64) -> (DcmiView, WiresView) {
        (s, w)
    }

    open spec fn label(s: DcmiView) -> Seq<char> {
        "DCMI"@
    }

    fn name(&self) -> &str {
        "DCMI"
    }

    fn read(&mut self, w: &mut Wires, offset: u32, size: u32) -> Result<u32, BusError> {
        if size != 4 {
            return Err(BusError::NotImplemented);
        }
        match offset {
            OFF_CR => Ok(self.cr),
            OFF_SR => Ok(self.sr),
            OFF_RIS => Ok(self.ris),
            OFF_IER => Ok(self.ier),
            OFF_MIS => Ok(self.ris & self.ier),
            OFF_ICR => Ok(0),
            OFF_ESCR => Ok(self.escr),
            OFF_ESUR => Ok(self.esur),
            OFF_CWSTRT => Ok(self.cwstrt),
            OFF_CWSIZE => Ok(self.cwsize),
            OFF_DR => Ok(self.pop_word()),
            _ => Err(BusError::OutOfRange),
        }
    }

    fn write(&mut self, w: &mut Wires, offset: u32, size: u32, value: u32) -> Result<(), BusError> {
        if size != 4 {
            return Err(BusError::NotImplemented);
        }
        match offset {
            OFF_CR => {
                self.cr = value & CR_WMASK;
                Ok(())
            },
            OFF_SR | OFF_RIS | OFF_MIS | OFF_DR => Ok(()),
            OFF_IER => {
                self.ier = value & INT_MASK;
                Ok(())
            },
            OFF_ICR => {
                self.ris = self.ris & !(value & INT_MASK);
                Ok(())
            },
            OFF_ESCR => {
                self.escr = value;
                Ok(())
            },
            OFF_ESUR => {
                self.esur = value;
                Ok(())
            },
            OFF_CWSTRT => {
                self.cwstrt = value;
                Ok(())
            },
            OFF_CWSIZE => {
                self.cwsize = value;
                Ok(())
            },
            _ => Err(BusError::OutOfRange),
        }
    }

    fn reset(&mut self, w: &mut Wires) {
        self.cr = 0;
        self.sr = 0;
        self.ris = 0;
        self.ier = 0;
        self.escr = 0;
        self.esur = 0;
        self.cwstrt = 0;
        self.cwsize = 0;
        self.fifo.clear();
    }

    fn tick(&mut self, w: &mut Wires, cycles: u64) {
    }
}

/// Words are taken in the order in which they came.
pub proof fn law_words_leave_in_order(s: DcmiView, w: WiresView, data: Seq<u8>)
    requires
        s.running(),
        s.fifo.len() == 0,
        data.len() > 0,
    ensures
        ({
            let t = s.feed_frame(w, data).0;
            &&& t.fifo == frame_words(data)
            &&& t.sr & SR_FNE != 0
            &&& t.pop_word().1 == frame_words(data)[0]
            &&& t.pop_word().0.fifo == frame_words(data).drop_first()
        }),
{
    assert(s.fifo + frame_words(data) =~= frame_words(data));
    bits::lemma_flags(s.sr, SR_FNE, SR_ARRIVED);
}

/// The not-empty flag tells whether words wait, after every operation that moves words.
pub proof fn law_not_empty_flag(s: DcmiView, w: WiresView, data: Seq<u8>)
    requires
        (s.sr & SR_FNE != 0) == (s.fifo.len() > 0),
    ensures
        ({
            let t = s.feed_frame(w, data).0;
            (t.sr & SR_FNE != 0) == (t.fifo.len() > 0)
        }),
        ({
            let t = s.pop_word().0;
            (t.sr & SR_FNE != 0) == (t.fifo.len() > 0)
        }),
        (DcmiView::fresh(s.irq).sr & SR_FNE != 0) == (DcmiView::fresh(s.irq).fifo.len() > 0),
{
    bits::lemma_flags(s.sr, SR_FNE, SR_ARRIVED);
    bits::lemma_mask(SR_FNE, 0);
}

/// One frame ends a snapshot: the next one is dropped.
pub proof fn law_snapshot_takes_one_frame(s: DcmiView, w: WiresView, a: Seq<u8>, b: Seq<u8>)
    requires
        s.running(),
        s.cr & CR_CM != 0,
        a.len() > 0,
    ensures
        ({
            let (t, w1) = s.feed_frame(w, a);
            !t.running() && t.feed_frame(w1, b) == (t, w1)
        }),
{
    let x = s.cr;
    assert((x & !1u32) & 0x4001 != 0x4001) by (bit_vector);
}

/// A frame that arrives at a running capture raises its flags, and the line if one of them is
/// enabled; a snapshot ends the capture. Without bytes, or without a running capture, nothing
/// happens. Both the enable and the capture bit make it run.
pub proof fn law_frame_arrives(s: DcmiView, w: WiresView, data: Seq<u8>)
    ensures
        s.running() <==> s.cr & 0x4001 == 0x4001,
        s.cr & 0x4001 != 0x4001 || data.len() == 0 ==> s.feed_frame(w, data) == (s, w),
        s.cr & 0x4001 == 0x4001 && data.len() > 0 ==> {
            let (t, v) = s.feed_frame(w, data);
            &&& t.ris == s.ris | 9 && t.sr == s.sr | 1 | 0xC0
            &&& t.cr == if s.cr & 2 != 0 {
                s.cr & !1u32
            } else {
                s.cr
            }
            &&& t.fifo == s.fifo + frame_words(data)
            &&& v == if s.ier & 9 != 0 {
                w.pend(s.irq)
            } else {
                w
            }
            &&& t.ier == s.ier
        },
{
}

/// The bytes of a frame fill words, four to a word with the first one lowest; a last word is
/// filled up with zeros.
pub proof fn law_frame_words(data: Seq<u8>, i: int)
    requires
        0 <= i < data.len(),
    ensures
        frame_words(data).len() == (data.len() + 3) / 4,
        bits::byte_at(frame_words(data)[i / 4], (i % 4) as u32) == data[i],
        data.len() % 4 == 1 ==> frame_words(data).last() < 0x100,
        data.len() % 4 == 2 ==> frame_words(data).last() < 0x1_0000,
        data.len() % 4 == 3 ==> frame_words(data).last() < 0x100_0000,
{
    let k = i / 4;
    bits::law_bytes_are_digits(
        0,
        frame_byte(data, 4 * k),
        frame_byte(data, 4 * k + 1),
        frame_byte(data, 4 * k + 2),
        frame_byte(data, 4 * k + 3),
    );
    assert(i == 4 * k + i % 4);
    let l = frame_words(data).len() - 1;
    bits::law_bytes_are_digits(
        0,
        frame_byte(data, 4 * l),
        frame_byte(data, 4 * l + 1),
        frame_byte(data, 4 * l + 2),
        frame_byte(data, 4 * l + 3),
    );
}

/// The masked interrupts are those that are both raised and enabled; ones that are written to the
/// clear register take raised ones down.
pub proof fn law_interrupt_registers(s: DcmiView, w: WiresView, value: u32)
    ensures
        s.read(0x08, 4).1 == Ok::<u32, BusError>(s.ris),
        s.read(0x10, 4).1 == Ok::<u32, BusError>(s.ris & s.ier),
        s.write(0x0C, 4, value).0 == (DcmiView { ier: value & 0x3F, ..s }),
        s.write(0x14, 4, value).0 == (DcmiView { ris: s.ris & !(value & 0x3F), ..s }),
        s.write(0x00, 4, value).0 == (DcmiView { cr: value & 0x005F_C01F, ..s }),
        Dcmi::dr_read_of(s, w).2 == if s.fifo.len() > 0 {
            s.fifo[0]
        } else {
            0
        },
{
}

} // verus!
