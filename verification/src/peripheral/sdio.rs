//! The SD card interface with a virtual card behind it.
//!
//! Writing the command register with the state machine enabled runs a command: no response
//! sets CMDSENT, a short or long response fills the response registers and sets CMDREND. Read
//! commands fill the data FIFO from the card, one block of 512 bytes. Written words stream to
//! the card until the length register is reached. Draining the FIFO, or the last written word,
//! sets DATAEND. With DMA enabled, transfer requests are published.
//!
//! Offsets: POWER 0x00, CLKCR 0x04, ARG 0x08, CMD 0x0C, RESPCMD 0x10, RESP1-4 0x14 to 0x20,
//! DTIMER 0x24, DLEN 0x28, DCTRL 0x2C, DCOUNT 0x30, STATUS 0x34, ICR 0x38, MASK 0x3C,
//! FIFOCNT 0x48, FIFO from 0x80.
use crate::bits;
use crate::events::Event;
use crate::peripheral::dma::{DmaByteIo, DmaDir};
use crate::peripheral::{BusError, Peripheral};
use crate::wires::{Wires, WiresView};
use std::collections::VecDeque;
use vstd::prelude::*;

verus! {

pub const SDIO_BASE: u32 = 0x4001_2C00;

pub const SDIO_IRQ: u32 = 49;

/// The size of the virtual card in bytes.
pub const CARD_SIZE: usize = 0x10_0000;

pub const BLOCK_SIZE: usize = 512;

/// The depth of the data FIFO in words: one block.
pub const FIFO_DEPTH: usize = 128;

pub const OFF_POWER: u32 = 0x00;

pub const OFF_CLKCR: u32 = 0x04;

pub const OFF_ARG: u32 = 0x08;

pub const OFF_CMD: u32 = 0x0C;

pub const OFF_RESPCMD: u32 = 0x10;

pub const OFF_RESP1: u32 = 0x14;

pub const OFF_RESP2: u32 = 0x18;

pub const OFF_RESP3: u32 = 0x1C;

pub const OFF_RESP4: u32 = 0x20;

pub const OFF_DTIMER: u32 = 0x24;

pub const OFF_DLEN: u32 = 0x28;

pub const OFF_DCTRL: u32 = 0x2C;

pub const OFF_DCOUNT: u32 = 0x30;

pub const OFF_STATUS: u32 = 0x34;

pub const OFF_ICR: u32 = 0x38;

pub const OFF_MASK: u32 = 0x3C;

pub const OFF_FIFOCNT: u32 = 0x48;

pub const OFF_FIFO: u32 = 0x80;

/// The end of the FIFO window (exclusive).
pub const FIFO_END: u32 = 0x280;

pub const PWR_PWRCTRL: u32 = 0x3;

pub const CMD_CPSMEN: u32 = 0x400;

pub const CMD_WMASK: u32 = 0x7FFF;

pub const DCTRL_DTEN: u32 = 0x1;

pub const DCTRL_DTDIR: u32 = 0x2;

pub const DCTRL_DMAEN: u32 = 0x8;

pub const DCTRL_WMASK: u32 = 0xEFF;

pub const ST_CMDREND: u32 = 0x40;

pub const ST_CMDSENT: u32 = 0x80;

pub const ST_DATAEND: u32 = 0x100;

pub const ST_DTBUSY: u32 = 0x400;

pub const ST_RXFIFOHF: u32 = 0x1000;

pub const ST_TXFIFOF: u32 = 0x8000;

/// Transmit FIFO empty and receive FIFO empty.
pub const ST_FIFOE: u32 = 0x1_4000;

pub const ST_TXFIFOHE: u32 = 0x2_0000;

pub const ICR_W1C: u32 = 0x3FF;

pub const CMD_GO_IDLE: u32 = 0;

pub const CMD_SEND_REL_ADDR: u32 = 3;

pub const CMD_SELECT_CARD: u32 = 7;

pub const CMD_SEND_IF_COND: u32 = 8;

pub const CMD_READ_SINGLE_BLOCK: u32 = 17;

pub const CMD_READ_MULTIPLE_BLOCK: u32 = 18;

pub const CMD_WRITE_BLOCK: u32 = 24;

pub const CMD_WRITE_MULTIPLE_BLOCK: u32 = 25;

pub const CMD_APP_OP_COND: u32 = 41;

pub const CMD_APP_CMD: u32 = 55;

/// The answer to the operating condition request.
pub const OCR: u32 = 0x40FF_8000;

/// The state of the card.
#[derive(Debug, Clone, Copy, PartialEq, Eq, Structural)]
pub enum CardState {
    Idle,
    Ready,
    Stby,
    Tran,
}

/// The number of a card state in the status word.
pub open spec fn state_number(s: CardState) -> u32 {
    match s {
        CardState::Idle => 0,
        CardState::Ready => 1,
        CardState::Stby => 3,
        CardState::Tran => 4,
    }
}

/// What the data path is doing.
#[derive(Debug, Clone, Copy, PartialEq, Eq, Structural)]
pub enum DataDir {
    Idle,
    /// From the card through the FIFO to memory.
    Read,
    /// From memory to the card.
    Write,
}

/// SD card interface.
pub struct Sdio {
    regs: [u32; 17],
    status: u32,
    fifo: VecDeque<u32>,
    dir: DataDir,
    data_block: u64,
    write_expected: u32,
    write_pushed: u32,
    card_state: CardState,
    app_cmd_pending: bool,
    rca: u32,
    pub card: Vec<u8>,
}

/// The state of the interface and the card.
#[verifier::ext_equal]
pub struct SdioView {
    /// The register file, by offset divided by four.
    pub regs: Seq<u32>,
    /// The event flags.
    pub status: u32,
    pub fifo: Seq<u32>,
    pub dir: DataDir,
    /// The byte address of the block that is written.
    pub data_block: u64,
    pub write_expected: u32,
    pub write_pushed: u32,
    pub card_state: CardState,
    /// The next command is an application command.
    pub app_cmd_pending: bool,
    pub rca: u32,
    pub card: Seq<u8>,
}

impl View for Sdio {
    type V = SdioView;

    closed spec fn view(&self) -> SdioView {
        SdioView {
            regs: self.regs@,
            status: self.status,
            fifo: self.fifo@,
            dir: self.dir,
            data_block: self.data_block,
            write_expected: self.write_expected,
            write_pushed: self.write_pushed,
            card_state: self.card_state,
            app_cmd_pending: self.app_cmd_pending,
            rca: self.rca,
            card: self.card@,
        }
    }
}

/// A byte of the card; past its end the card reads as zero.
pub open spec fn card_byte(card: Seq<u8>, i: int) -> u8 {
    if i < card.len() {
        card[i]
    } else {
        0
    }
}

/// A little-endian word of the card.
pub open spec fn card_word(card: Seq<u8>, at: int) -> u32 {
    bits::word_of(
        card_byte(card, at),
        card_byte(card, at + 1),
        card_byte(card, at + 2),
        card_byte(card, at + 3),
    )
}

/// The card after a word was written; bytes past its end are lost.
pub open spec fn card_with_word(card: Seq<u8>, at: int, value: u32) -> Seq<u8> {
    Seq::new(
        card.len(),
        |i: int|
            if at <= i < at + 4 {
                bits::byte_at(value, (i - at) as u32)
            } else {
                card[i]
            },
    )
}

/// The start of the block that an argument falls into.
pub open spec fn block_of(arg: u32) -> int {
    arg - arg % 512
}

pub open spec fn is_read_command(index: u32) -> bool {
    index == CMD_READ_SINGLE_BLOCK || index == CMD_READ_MULTIPLE_BLOCK
}

pub open spec fn is_write_command(index: u32) -> bool {
    index == CMD_WRITE_BLOCK || index == CMD_WRITE_MULTIPLE_BLOCK
}

impl SdioView {
    pub open spec fn fresh() -> SdioView {
        SdioView {
            regs: Seq::new(17, |i: int| 0u32),
            status: 0,
            fifo: Seq::empty(),
            dir: DataDir::Idle,
            data_block: 0,
            write_expected: 0,
            write_pushed: 0,
            card_state: CardState::Idle,
            app_cmd_pending: false,
            rca: 0xABCD,
            card: Seq::new(0x10_0000, |i: int| 0xA5u8),
        }
    }

    /// The shape of the state; a write that runs has words to go.
    pub open spec fn wf(self) -> bool {
        &&& self.regs.len() == 17
        &&& self.fifo.len() <= 128
        &&& self.data_block <= u32::MAX
        &&& self.write_expected <= 0x3FFF_FFFF
        &&& self.dir == DataDir::Write ==> self.write_pushed < self.write_expected
        &&& self.write_pushed <= 0x4000_0000
    }

    pub open spec fn arg(self) -> u32 {
        self.regs[2]
    }

    pub open spec fn dctrl(self) -> u32 {
        self.regs[11]
    }

    pub open spec fn with_reg(self, i: int, value: u32) -> SdioView {
        SdioView { regs: self.regs.update(i, value), ..self }
    }

    /// The card status: the state number from bit 9, and ready for data from standby on.
    pub open spec fn r1_status(self) -> u32 {
        let n = state_number(self.card_state);
        (n * 512 + (if n >= 3 {
            256int
        } else {
            0
        })) as u32
    }

    /// A flag goes up, and the line with it if the mask has it enabled.
    pub open spec fn set_flag(self, w: WiresView, bit: u32) -> (SdioView, WiresView) {
        (
            SdioView { status: self.status | bit, ..self },
            w.pend_if(self.regs[15] & bit != 0, SDIO_IRQ),
        )
    }

    /// A transfer request for the words in the FIFO, if data path and DMA are enabled and
    /// there are any.
    pub open spec fn request_read(self, w: WiresView) -> WiresView {
        w.publish_if(
            self.dctrl() & DCTRL_DTEN != 0 && self.dctrl() & DCTRL_DMAEN != 0 && self.fifo.len()
                > 0,
            Event::SdioDma {
                port: 1,
                dir: DmaDir::PeriphToMem,
                items: self.fifo.len() as u32,
            },
        )
    }

    /// The FIFO filled with the block that the argument names.
    pub open spec fn fill_read_data(self, w: WiresView, arg: u32) -> (SdioView, WiresView) {
        let s = SdioView {
            fifo: Seq::new(128, |k: int| card_word(self.card, block_of(arg) + 4 * k)),
            dir: DataDir::Read,
            ..self
        };
        (s, s.request_read(w))
    }

    /// A write begins, unless one runs already. It lasts for the words of the length register,
    /// at least one.
    pub open spec fn start_write(self) -> SdioView {
        if self.dir == DataDir::Write {
            self
        } else {
            SdioView {
                dir: DataDir::Write,
                write_expected: if self.regs[10] / 4 == 0 {
                    1
                } else {
                    self.regs[10] / 4
                },
                write_pushed: 0,
                ..self
            }
        }
    }

    /// The data path of a data command starts, if it is enabled.
    pub open spec fn start_data(self, w: WiresView) -> (SdioView, WiresView) {
        if self.dctrl() & DCTRL_DTEN == 0 {
            (self, w)
        } else if self.dctrl() & DCTRL_DTDIR != 0 {
            let s = SdioView { dir: DataDir::Read, ..self };
            (s, s.request_read(w))
        } else {
            (self.start_write(), w)
        }
    }

    /// What a command with a short response does, before the data path and the flag.
    pub open spec fn respond(self, w: WiresView, index: u32) -> (SdioView, WiresView) {
        let s = self.with_reg(4, index);
        let arg = s.arg();
        if index == CMD_SEND_IF_COND {
            (s.with_reg(5, arg & 0xFFF), w)
        } else if index == CMD_SEND_REL_ADDR {
            let s1 = SdioView { card_state: CardState::Stby, ..s };
            (s1.with_reg(5, (s1.rca << 16u32) | (s1.r1_status() & 0xFFFF)), w)
        } else if index == CMD_SELECT_CARD {
            let s1 = if arg / 0x1_0000 == s.rca {
                SdioView { card_state: CardState::Tran, ..s }
            } else {
                s
            };
            (s1.with_reg(5, s1.r1_status()), w)
        } else if index == CMD_APP_CMD {
            let s1 = SdioView { app_cmd_pending: true, ..s };
            (s1.with_reg(5, s1.r1_status() | 0x8000_0000), w)
        } else if index == CMD_APP_OP_COND && s.app_cmd_pending {
            (SdioView { card_state: CardState::Ready, ..s }.with_reg(5, OCR), w)
        } else if is_read_command(index) {
            s.with_reg(5, s.r1_status()).fill_read_data(w, arg)
        } else if is_write_command(index) {
            (
                SdioView { data_block: block_of(arg) as u64, ..s.with_reg(5, s.r1_status()) },
                w,
            )
        } else {
            (s.with_reg(5, s.r1_status()), w)
        }
    }

    pub open spec fn short_response(self, w: WiresView, index: u32) -> (SdioView, WiresView) {
        let (s1, w1) = self.respond(w, index);
        let (s2, w2) = if is_read_command(index) || is_write_command(index) {
            s1.start_data(w1)
        } else {
            (s1, w1)
        };
        let s3 = SdioView {
            app_cmd_pending: if index == CMD_APP_CMD {
                s2.app_cmd_pending
            } else {
                false
            },
            ..s2
        };
        s3.set_flag(w2, ST_CMDREND)
    }

    pub open spec fn long_response(self, w: WiresView, index: u32) -> (SdioView, WiresView) {
        SdioView {
            app_cmd_pending: false,
            ..self.with_reg(4, index).with_reg(5, 0x0102_0304).with_reg(6, 0x0506_0708).with_reg(
                7,
                0x090A_0B0C,
            ).with_reg(8, 0x0D0E_0F10)
        }.set_flag(w, ST_CMDREND)
    }

    /// The command in the command register runs. Old responses are gone first.
    pub open spec fn execute_command(self, w: WiresView) -> (SdioView, WiresView) {
        let index = self.regs[3] % 64;
        let waitresp = (self.regs[3] / 64) % 4;
        let s = self.with_reg(4, 0).with_reg(5, 0).with_reg(6, 0).with_reg(7, 0).with_reg(8, 0);
        if waitresp == 1 {
            s.short_response(w, index)
        } else if waitresp == 3 {
            s.long_response(w, index)
        } else {
            SdioView {
                card_state: if index == CMD_GO_IDLE {
                    CardState::Idle
                } else {
                    s.card_state
                },
                app_cmd_pending: false,
                ..s
            }.set_flag(w, ST_CMDSENT)
        }
    }

    pub open spec fn finish_transfer(self, w: WiresView) -> (SdioView, WiresView) {
        SdioView { dir: DataDir::Idle, ..self }.set_flag(w, ST_DATAEND)
    }

    /// A word leaves the FIFO (0 if there is none). A read ends with the last one.
    pub open spec fn dr_pop(self, w: WiresView) -> (SdioView, WiresView, u32) {
        let v = if self.fifo.len() > 0 {
            self.fifo[0]
        } else {
            0
        };
        let s = SdioView {
            fifo: if self.fifo.len() > 0 {
                self.fifo.drop_first()
            } else {
                self.fifo
            },
            ..self
        };
        if s.dir == DataDir::Read && s.fifo.len() == 0 {
            let (s1, w1) = s.finish_transfer(w);
            (s1, w1, v)
        } else {
            (s, w, v)
        }
    }

    /// A word comes in. With an enabled write path it goes to the card; the last expected word
    /// ends the write. Otherwise it queues, if there is room.
    pub open spec fn dr_push(self, w: WiresView, value: u32) -> (SdioView, WiresView) {
        let s = if self.dir == DataDir::Idle && self.dctrl() & DCTRL_DTEN != 0 && self.dctrl()
            & DCTRL_DTDIR == 0 {
            self.start_write()
        } else {
            self
        };
        if s.dir == DataDir::Write {
            let s1 = SdioView {
                card: card_with_word(s.card, s.data_block + 4 * s.write_pushed, value),
                write_pushed: (s.write_pushed + 1) as u32,
                ..s
            };
            if s1.write_pushed >= s1.write_expected {
                s1.finish_transfer(w)
            } else {
                (s1, w)
            }
        } else if s.fifo.len() < 128 {
            (SdioView { fifo: s.fifo.push(value), ..s }, w)
        } else {
            (s, w)
        }
    }

    /// The status register: the flags and what the FIFO shows now.
    pub open spec fn live_status(self) -> u32 {
        let n = self.fifo.len();
        let s = self.status;
        let s = if self.dir != DataDir::Idle {
            s | ST_DTBUSY
        } else {
            s
        };
        let s = if n >= 64 {
            s | ST_RXFIFOHF
        } else {
            s
        };
        let s = if n == 0 {
            s | ST_FIFOE
        } else {
            s & !ST_FIFOE
        };
        let s = if n >= 128 {
            s | ST_TXFIFOF
        } else {
            s
        };
        if n <= 64 {
            s | ST_TXFIFOHE
        } else {
            s
        }
    }

    /// The bytes that the running transfer still has to move.
    pub open spec fn remaining_bytes(self) -> int {
        match self.dir {
            DataDir::Read => 4 * self.fifo.len() as int,
            DataDir::Write => 4 * (self.write_expected - self.write_pushed),
            DataDir::Idle => 0,
        }
    }

    pub open spec fn is_plain(offset: u32) -> bool {
        offset % 4 == 0 && (offset <= OFF_DCTRL || offset == OFF_MASK)
    }

    pub open spec fn read(self, w: WiresView, offset: u32, size: u32) -> (
        SdioView,
        WiresView,
        Result<u32, BusError>,
    ) {
        if size != 4 {
            (self, w, Err(BusError::NotImplemented))
        } else if OFF_FIFO <= offset < FIFO_END {
            let (s1, w1, v) = self.dr_pop(w);
            (s1, w1, Ok(v))
        } else if offset == OFF_DCOUNT {
            (self, w, Ok(self.remaining_bytes() as u32))
        } else if offset == OFF_STATUS {
            (self, w, Ok(self.live_status()))
        } else if offset == OFF_FIFOCNT {
            (self, w, Ok(self.fifo.len() as u32))
        } else if Self::is_plain(offset) {
            (self, w, Ok(self.regs[offset as int / 4]))
        } else {
            (self, w, Err(BusError::OutOfRange))
        }
    }

    pub open spec fn write_dctrl(self, w: WiresView, value: u32) -> (SdioView, WiresView) {
        let masked = value & DCTRL_WMASK;
        let s = self.with_reg(11, masked);
        if masked & DCTRL_DTEN == 0 {
            (s, w)
        } else if masked & DCTRL_DTDIR != 0 {
            if s.fifo.len() > 0 {
                let s1 = SdioView { dir: DataDir::Read, ..s };
                (s1, s1.request_read(w))
            } else {
                (s, w)
            }
        } else {
            (
                s.start_write(),
                w.publish_if(
                    masked & DCTRL_DMAEN != 0,
                    Event::SdioDma { port: 1, dir: DmaDir::MemToPeriph, items: 0 },
                ),
            )
        }
    }

    pub open spec fn write(self, w: WiresView, offset: u32, size: u32, value: u32) -> (
        SdioView,
        WiresView,
        Result<(), BusError>,
    ) {
        if size != 4 {
            (self, w, Err(BusError::NotImplemented))
        } else if OFF_FIFO <= offset < FIFO_END {
            let (s1, w1) = self.dr_push(w, value);
            (s1, w1, Ok(()))
        } else if offset == OFF_STATUS || offset == OFF_DCOUNT || offset == OFF_FIFOCNT {
            (self, w, Err(BusError::NotImplemented))
        } else if offset == OFF_ICR {
            (SdioView { status: self.status & !(value & ICR_W1C), ..self }, w, Ok(()))
        } else if offset == OFF_POWER {
            (self.with_reg(0, value & PWR_PWRCTRL), w, Ok(()))
        } else if offset == OFF_CLKCR || offset == OFF_ARG || offset == OFF_DTIMER || offset
            == OFF_DLEN || offset == OFF_MASK {
            (self.with_reg(offset as int / 4, value), w, Ok(()))
        } else if offset == OFF_CMD {
            let masked = value & CMD_WMASK;
            let s = self.with_reg(3, masked);
            if masked & CMD_CPSMEN != 0 {
                let (s1, w1) = s.execute_command(w);
                (s1, w1, Ok(()))
            } else {
                (s, w, Ok(()))
            }
        } else if offset == OFF_DCTRL {
            let (s1, w1) = self.write_dctrl(w, value);
            (s1, w1, Ok(()))
        } else {
            (self, w, Err(BusError::OutOfRange))
        }
    }

    /// A read command names a block that begins on the card.
    pub open spec fn command_fits(self, cmd: u32) -> bool {
        let masked = cmd & CMD_WMASK;
        masked & CMD_CPSMEN != 0 && (masked / 64) % 4 == 1 && is_read_command(masked % 64)
            ==> block_of(self.arg()) <= self.card.len()
    }
}

impl CardState {
    fn number(&self) -> (r: u32)
        ensures
            r == state_number(*self),
            r <= 4,
    {
        match self {
            CardState::Idle => 0,
            CardState::Ready => 1,
            CardState::Stby => 3,
            CardState::Tran => 4,
        }
    }
}

impl Sdio {
    /// May the command be given? A read command names a block that begins on the card.
    pub fn takes_command(&self, cmd: u32) -> (r: bool)
        ensures
            r == self@.command_fits(cmd),
    {
        let masked = cmd & CMD_WMASK;
        let index = masked % 64;
        let reads = index == CMD_READ_SINGLE_BLOCK || index == CMD_READ_MULTIPLE_BLOCK;
        if masked & CMD_CPSMEN != 0 && (masked / 64) % 4 == 1 && reads {
            let arg = self.regs[2];
            (arg - arg % 512) as usize <= self.card.len()
        } else {
            true
        }
    }

    pub fn new() -> (r: Self)
        ensures
            r@ == SdioView::fresh(),
            r@.wf(),
    {
        let r = Sdio {
            regs: bits::filled(0),
            status: 0,
            fifo: VecDeque::with_capacity(FIFO_DEPTH),
            dir: DataDir::Idle,
            data_block: 0,
            write_expected: 0,
            write_pushed: 0,
            card_state: CardState::Idle,
            app_cmd_pending: false,
            rca: 0xABCD,
            card: vec![0xA5u8; CARD_SIZE],
        };
        assert(r@ =~= SdioView::fresh());
        r
    }

    /// Bytes of the card from `off` on, at most `len` and not past its end.
    pub fn card_bytes(&self, off: usize, len: usize) -> (r: &[u8])
        requires
            off + len <= usize::MAX,
            off <= self@.card.len(),
        ensures
            r@ == self@.card.subrange(
                off as int,
                if off + len < self@.card.len() {
                    off + len
                } else {
                    self@.card.len() as int
                },
            ),
    {
        let end = if off + len < self.card.len() {
            off + len
        } else {
            self.card.len()
        };
        &self.card.as_slice()[off..end]
    }

    /// What the data path is doing.
    pub fn dir(&self) -> (r: DataDir)
        ensures
            r == self@.dir,
    {
        self.dir
    }

    /// The byte on the card from which the next block is taken or at which it is put.
    pub fn data_block(&self) -> (r: u64)
        ensures
            r == self@.data_block,
    {
        self.data_block
    }

    pub fn fifo_len(&self) -> (r: usize)
        ensures
            r == self@.fifo.len(),
    {
        self.fifo.len()
    }

    fn r1_status(&self) -> (r: u32)
        ensures
            r == self@.r1_status(),
    {
        let n = self.card_state.number();
        if n >= 3 {
            n * 512 + 256
        } else {
            n * 512
        }
    }

    fn set_flag(&mut self, w: &mut Wires, bit: u32)
        ensures
            (final(self)@, final(w)@) == old(self)@.set_flag(old(w)@, bit),
    {
        self.status = self.status | bit;
        if self.regs[15] & bit != 0 {
            w.pend(SDIO_IRQ);
        }
    }

    fn publish_read_dma_if_ready(&self, w: &mut Wires)
        requires
            self@.wf(),
        ensures
            final(w)@ == self@.request_read(old(w)@),
    {
        let d: u32 = self.regs[11];
        if d & DCTRL_DTEN != 0 && d & DCTRL_DMAEN != 0 && self.fifo.len() > 0 {
            w.publish(
                Event::SdioDma {
                    port: 1,
                    dir: DmaDir::PeriphToMem,
                    items: self.fifo.len() as u32,
                },
            );
        }
    }

    fn card_byte(&self, i: u64) -> (r: u8)
        ensures
            r == card_byte(self@.card, i as int),
    {
        if i < self.card.len() as u64 {
            self.card[i as usize]
        } else {
            0
        }
    }

    /// Fills the FIFO with a block of the card.
    fn fill_read_data(&mut self, w: &mut Wires, arg: u32)
        requires
            old(self)@.wf(),
        ensures
            final(self)@.wf(),
            (final(self)@, final(w)@) == old(self)@.fill_read_data(old(w)@, arg),
    {
        let block: u64 = (arg - arg % 512) as u64;
        self.fifo.clear();
        let mut k: u64 = 0;
        while k < 128
            invariant
                k <= 128,
                block == block_of(arg),
                self.fifo@.len() == k,
                forall|j: int|
                    0 <= j < k ==> self.fifo@[j] == #[trigger] card_word(
                        self.card@,
                        block + 4 * j,
                    ),
                self@ == (SdioView { fifo: self.fifo@, ..old(self)@ }),
            decreases 128 - k,
        {
            let at: u64 = block + 4 * k;
            let v = bits::le_word(
                self.card_byte(at),
                self.card_byte(at + 1),
                self.card_byte(at + 2),
                self.card_byte(at + 3),
            );
            self.fifo.push_back(v);
            k = k + 1;
        }
        assert(self.fifo@ =~= Seq::new(
            128,
            |k: int| card_word(old(self)@.card, block_of(arg) + 4 * k),
        ));
        self.dir = DataDir::Read;
        self.publish_read_dma_if_ready(w);
    }

    fn start_write(&mut self)
        requires
            old(self)@.wf(),
        ensures
            final(self)@.wf(),
            final(self)@ == old(self)@.start_write(),
    {
        if self.dir == DataDir::Write {
            return ;
        }
        self.dir = DataDir::Write;
        let words: u32 = self.regs[10] / 4;
        self.write_expected = if words == 0 {
            1
        } else {
            words
        };
        self.write_pushed = 0;
    }

    fn write_word_to_card(&mut self, value: u32)
        requires
            old(self)@.wf(),
        ensures
            final(self)@.wf(),
            final(self)@ == (SdioView {
                card: card_with_word(
                    old(self)@.card,
                    old(self)@.data_block + 4 * old(self)@.write_pushed,
                    value,
                ),
                ..old(self)@
            }),
    {
        let base: u64 = self.data_block + 4 * (self.write_pushed as u64);
        let mut b: u32 = 0;
        while b < 4
            invariant
                b <= 4,
                base == old(self)@.data_block + 4 * old(self)@.write_pushed,
                base <= 0x2_0000_0000,
                self@ == (SdioView { card: self.card@, ..old(self)@ }),
                self.card@.len() == old(self)@.card.len(),
                forall|i: int|
                    0 <= i < self.card@.len() ==> #[trigger] self.card@[i] == (if base <= i < base
                        + b {
                        bits::byte_at(value, (i - base) as u32)
                    } else {
                        old(self)@.card[i]
                    }),
            decreases 4 - b,
        {
            let at: u64 = base + b as u64;
            if at < self.card.len() as u64 {
                self.card[at as usize] = bits::byte_of(value, b);
            }
            b = b + 1;
        }
        assert(self.card@ =~= card_with_word(old(self)@.card, base as int, value));
    }

    fn finish_transfer(&mut self, w: &mut Wires)
        ensures
            (final(self)@, final(w)@) == old(self)@.finish_transfer(old(w)@),
    {
        self.dir = DataDir::Idle;
        self.set_flag(w, ST_DATAEND);
    }

    fn dr_pop(&mut self, w: &mut Wires) -> (r: u32)
        requires
            old(self)@.wf(),
        ensures
            final(self)@.wf(),
            (final(self)@, final(w)@, r) == old(self)@.dr_pop(old(w)@),
    {
        let v: u32 = match self.fifo.pop_front() {
            Some(v) => v,
            None => 0,
        };
        proof {
            let f = old(self)@.fifo;
            assert(self.fifo@ =~= if f.len() > 0 {
                f.drop_first()
            } else {
                f
            });
        }
        if self.dir == DataDir::Read && self.fifo.len() == 0 {
            self.finish_transfer(w);
        }
        v
    }

    fn dr_push(&mut self, w: &mut Wires, value: u32)
        requires
            old(self)@.wf(),
        ensures
            final(self)@.wf(),
            (final(self)@, final(w)@) == old(self)@.dr_push(old(w)@, value),
    {
        if self.dir == DataDir::Idle {
            let d: u32 = self.regs[11];
            if d & DCTRL_DTEN != 0 && d & DCTRL_DTDIR == 0 {
                self.start_write();
            }
        }
        if self.dir == DataDir::Write {
            self.write_word_to_card(value);
            self.write_pushed = self.write_pushed + 1;
            if self.write_pushed >= self.write_expected {
                self.finish_transfer(w);
            }
        } else if self.fifo.len() < FIFO_DEPTH {
            self.fifo.push_back(value);
        }
    }

    fn live_status(&self) -> (r: u32)
        ensures
            r == self@.live_status(),
    {
        let mut s: u32 = self.status;
        let len = self.fifo.len();
        if self.dir != DataDir::Idle {
            s = s | ST_DTBUSY;
        }
        if len >= FIFO_DEPTH / 2 {
            s = s | ST_RXFIFOHF;
        }
        if len == 0 {
            s = s | ST_FIFOE;
        } else {
            s = s & !ST_FIFOE;
        }
        if len >= FIFO_DEPTH {
            s = s | ST_TXFIFOF;
        }
        if len <= FIFO_DEPTH / 2 {
            s = s | ST_TXFIFOHE;
        }
        s
    }

    fn remaining_bytes(&self) -> (r: u32)
        requires
            self@.wf(),
        ensures
            r == self@.remaining_bytes(),
    {
        match self.dir {
            DataDir::Read => self.fifo.len() as u32 * 4,
            DataDir::Write => (self.write_expected - self.write_pushed) * 4,
            DataDir::Idle => 0,
        }
    }

    fn respond(&mut self, w: &mut Wires, index: u32)
        requires
            old(self)@.wf(),
        ensures
            final(self)@.wf(),
            (final(self)@, final(w)@) == old(self)@.respond(old(w)@, index),
    {
        self.regs[4] = index;
        let arg: u32 = self.regs[2];
        if index == CMD_SEND_IF_COND {
            self.regs[5] = arg & 0xFFF;
        } else if index == CMD_SEND_REL_ADDR {
            self.card_state = CardState::Stby;
            let v: u32 = (self.rca << 16u32) | (self.r1_status() & 0xFFFF);
            self.regs[5] = v;
        } else if index == CMD_SELECT_CARD {
            if arg / 0x1_0000 == self.rca {
                self.card_state = CardState::Tran;
            }
            let v: u32 = self.r1_status();
            self.regs[5] = v;
        } else if index == CMD_APP_CMD {
            self.app_cmd_pending = true;
            let v: u32 = self.r1_status() | 0x8000_0000;
            self.regs[5] = v;
        } else if index == CMD_APP_OP_COND && self.app_cmd_pending {
            self.card_state = CardState::Ready;
            self.regs[5] = OCR;
        } else if index == CMD_READ_SINGLE_BLOCK || index == CMD_READ_MULTIPLE_BLOCK {
            let v: u32 = self.r1_status();
            self.regs[5] = v;
            self.fill_read_data(w, arg);
        } else if index == CMD_WRITE_BLOCK || index == CMD_WRITE_MULTIPLE_BLOCK {
            let v: u32 = self.r1_status();
            self.regs[5] = v;
            self.data_block = (arg - arg % 512) as u64;
        } else {
            let v: u32 = self.r1_status();
            self.regs[5] = v;
        }
    }

    fn short_response(&mut self, w: &mut Wires, index: u32)
        requires
            old(self)@.wf(),
        ensures
            final(self)@.wf(),
            (final(self)@, final(w)@) == old(self)@.short_response(old(w)@, index),
    {
        self.respond(w, index);
        if index == CMD_READ_SINGLE_BLOCK || index == CMD_READ_MULTIPLE_BLOCK || index
            == CMD_WRITE_BLOCK || index == CMD_WRITE_MULTIPLE_BLOCK {
            let d: u32 = self.regs[11];
            if d & DCTRL_DTEN != 0 {
                if d & DCTRL_DTDIR != 0 {
                    self.dir = DataDir::Read;
                    self.publish_read_dma_if_ready(w);
                } else {
                    self.start_write();
                }
            }
        }
        if index != CMD_APP_CMD {
            self.app_cmd_pending = false;
        }
        self.set_flag(w, ST_CMDREND);
    }

    fn long_response(&mut self, w: &mut Wires, index: u32)
        requires
            old(self)@.wf(),
        ensures
            final(self)@.wf(),
            (final(self)@, final(w)@) == old(self)@.long_response(old(w)@, index),
    {
        self.regs[4] = index;
        self.regs[5] = 0x0102_0304;
        self.regs[6] = 0x0506_0708;
        self.regs[7] = 0x090A_0B0C;
        self.regs[8] = 0x0D0E_0F10;
        self.app_cmd_pending = false;
        self.set_flag(w, ST_CMDREND);
    }

    fn execute_command(&mut self, w: &mut Wires)
        requires
            old(self)@.wf(),
        ensures
            final(self)@.wf(),
            (final(self)@, final(w)@) == old(self)@.execute_command(old(w)@),
    {
        let index: u32 = self.regs[3] % 64;
        let waitresp: u32 = (self.regs[3] / 64) % 4;
        self.regs[4] = 0;
        self.regs[5] = 0;
        self.regs[6] = 0;
        self.regs[7] = 0;
        self.regs[8] = 0;
        if waitresp == 1 {
            self.short_response(w, index);
        } else if waitresp == 3 {
            self.long_response(w, index);
        } else {
            if index == CMD_GO_IDLE {
                self.card_state = CardState::Idle;
            }
            self.app_cmd_pending = false;
            self.set_flag(w, ST_CMDSENT);
        }
    }

    fn write_dctrl(&mut self, w: &mut Wires, value: u32)
        requires
            old(self)@.wf(),
        ensures
            final(self)@.wf(),
            (final(self)@, final(w)@) == old(self)@.write_dctrl(old(w)@, value),
    {
        let masked: u32 = value & DCTRL_WMASK;
        self.regs[11] = masked;
        if masked & DCTRL_DTEN != 0 {
            if masked & DCTRL_DTDIR != 0 {
                if self.fifo.len() > 0 {
                    self.dir = DataDir::Read;
                    self.publish_read_dma_if_ready(w);
                }
            } else {
                self.start_write();
                if masked & DCTRL_DMAEN != 0 {
                    w.publish(Event::SdioDma { port: 1, dir: DmaDir::MemToPeriph, items: 0 });
                }
            }
        }
    }
}

impl Peripheral for Sdio {
    open spec fn inv(s: SdioView) -> bool {
        s.wf()
    }

    open spec fn readable(s: SdioView, w: WiresView, offset: u32, size: u32) -> bool {
        true
    }

    open spec fn read_of(s: SdioView, w: WiresView, offset: u32, size: u32) -> (
        SdioView,
        WiresView,
        Result<u32, BusError>,
    ) {
        s.read(w, offset, size)
    }

    open spec fn writable(s: SdioView, w: WiresView, offset: u32, size: u32, value: u32) -> bool {
        size == 4 && offset == OFF_CMD ==> s.command_fits(value)
    }

    open spec fn write_of(s: SdioView, w: WiresView, offset: u32, size: u32, value: u32) -> (
        SdioView,
        WiresView,
        Result<(), BusError>,
    ) {
        s.write(w, offset, size, value)
    }

    open spec fn reset_of(s: SdioView, w: WiresView) -> (SdioView, WiresView) {
        (s, w)
    }

    open spec fn tickable(s: SdioView, w: WiresView, cycles: u64) -> bool {
        true
    }

    open spec fn tick_of(s: SdioView, w: WiresView, cycles: u64) -> (SdioView, WiresView) {
        (s, w)
    }

    open spec fn label(s: SdioView) -> Seq<char> {
        "SDIO"@
    }

    fn name(&self) -> &str {
        "SDIO"
    }

    fn read(&mut self, w: &mut Wires, offset: u32, size: u32) -> Result<u32, BusError> {
        if size != 4 {
            return Err(BusError::NotImplemented);
        }
        if offset >= OFF_FIFO && offset < FIFO_END {
            return Ok(self.dr_pop(w));
        }
        match offset {
            OFF_DCOUNT => Ok(self.remaining_bytes()),
            OFF_STATUS => Ok(self.live_status()),
            OFF_FIFOCNT => Ok(self.fifo.len() as u32),
            OFF_POWER | OFF_CLKCR | OFF_ARG | OFF_CMD | OFF_RESPCMD | OFF_RESP1 | OFF_RESP2
            | OFF_RESP3 | OFF_RESP4 | OFF_DTIMER | OFF_DLEN | OFF_DCTRL | OFF_MASK => Ok(
                self.regs[(offset / 4) as usize],
            ),
            _ => Err(BusError::OutOfRange),
        }
    }

    fn write(&mut self, w: &mut Wires, offset: u32, size: u32, value: u32) -> Result<(), BusError> {
        if size != 4 {
            return Err(BusError::NotImplemented);
        }
        if offset >= OFF_FIFO && offset < FIFO_END {
            self.dr_push(w, value);
            return Ok(());
        }
        match offset {
            OFF_STATUS | OFF_DCOUNT | OFF_FIFOCNT => Err(BusError::NotImplemented),
            OFF_ICR => {
                self.status = self.status & !(value & ICR_W1C);
                Ok(())
            },
            OFF_POWER => {
                self.regs[0] = value & PWR_PWRCTRL;
                Ok(())
            },
            OFF_CLKCR | OFF_ARG | OFF_DTIMER | OFF_DLEN | OFF_MASK => {
                self.regs[(offset / 4) as usize] = value;
                Ok(())
            },
            OFF_CMD => {
                let masked: u32 = value & CMD_WMASK;
                self.regs[3] = masked;
                if masked & CMD_CPSMEN != 0 {
                    self.execute_command(w);
                }
                Ok(())
            },
            OFF_DCTRL => {
                self.write_dctrl(w, value);
                Ok(())
            },
            _ => Err(BusError::OutOfRange),
        }
    }

    fn reset(&mut self, w: &mut Wires) {
    }

    fn tick(&mut self, w: &mut Wires, cycles: u64) {
    }
}

impl DmaByteIo for Sdio {
    open spec fn dr_inv(s: SdioView) -> bool {
        s.wf()
    }

    open spec fn dr_ready(s: SdioView) -> bool {
        true
    }

    open spec fn dr_read_of(s: SdioView, w: WiresView) -> (SdioView, WiresView, u32) {
        s.dr_pop(w)
    }

    open spec fn dr_write_of(s: SdioView, w: WiresView, value: u32) -> (SdioView, WiresView) {
        s.dr_push(w, value)
    }

    fn dma_dr_ready(&self) -> bool {
        true
    }

    fn dma_read_dr(&mut self, w: &mut Wires) -> u32 {
        self.dr_pop(w)
    }

    fn dma_write_dr(&mut self, w: &mut Wires, value: u32) {
        self.dr_push(w, value);
    }
}

/// A sequence of words is pushed, one after the other.
pub open spec fn push_all(s: SdioView, w: WiresView, words: Seq<u32>) -> (SdioView, WiresView)
    decreases words.len(),
{
    if words.len() == 0 {
        (s, w)
    } else {
        let (s1, w1) = push_all(s, w, words.drop_last());
        s1.dr_push(w1, words.last())
    }
}

/// A sequence of words is popped: the state afterwards and the words that came out.
pub open spec fn pop_all(s: SdioView, w: WiresView, n: nat) -> (SdioView, WiresView, Seq<u32>)
    decreases n,
{
    if n == 0 {
        (s, w, Seq::empty())
    } else {
        let (s1, w1, out) = pop_all(s, w, (n - 1) as nat);
        let (s2, w2, v) = s1.dr_pop(w1);
        (s2, w2, out.push(v))
    }
}

/// Words that are read back from where they were written are the words that were written.
proof fn lemma_card_word_written(card: Seq<u8>, at: int, value: u32, other: int)
    requires
        0 <= at,
        at + 4 <= card.len(),
        0 <= other,
    ensures
        card_word(card_with_word(card, at, value), at) == value,
        other + 4 <= at || at + 4 <= other ==> card_word(card_with_word(card, at, value), other)
            == card_word(card, other),
{
    bits::lemma_word_of_bytes(value);
    let c = card_with_word(card, at, value);
    assert(c[at] == bits::byte_at(value, 0));
    assert(c[at + 1] == bits::byte_at(value, 1));
    assert(c[at + 2] == bits::byte_at(value, 2));
    assert(c[at + 3] == bits::byte_at(value, 3));
}

/// What is on the card while a block is written.
proof fn lemma_push_all(s: SdioView, w: WiresView, words: Seq<u32>)
    requires
        s.wf(),
        s.dir == DataDir::Write,
        s.write_pushed == 0,
        words.len() <= s.write_expected,
        s.data_block + 4 * words.len() <= s.card.len(),
    ensures
        ({
            let t = push_all(s, w, words).0;
            &&& t.card.len() == s.card.len()
            &&& t.data_block == s.data_block
            &&& t.regs == s.regs
            &&& t.write_expected == s.write_expected
            &&& t.write_pushed == words.len()
            &&& words.len() < s.write_expected ==> t.dir == DataDir::Write && t.status == s.status
            &&& words.len() == s.write_expected ==> t.dir == DataDir::Idle && t.status == s.status
                | ST_DATAEND
            &&& forall|j: int|
                0 <= j < words.len() ==> #[trigger] card_word(t.card, s.data_block + 4 * j)
                    == words[j]
        }),
    decreases words.len(),
{
    if words.len() > 0 {
        let front = words.drop_last();
        lemma_push_all(s, w, front);
        let (s1, w1) = push_all(s, w, front);
        let at = s.data_block + 4 * front.len();
        let t = push_all(s, w, words).0;
        assert(t.card == card_with_word(s1.card, at, words.last()));
        assert forall|j: int| 0 <= j < words.len() implies #[trigger] card_word(
            t.card,
            s.data_block + 4 * j,
        ) == words[j] by {
            lemma_card_word_written(s1.card, at, words.last(), s.data_block + 4 * j);
            if j < front.len() {
                assert(card_word(s1.card, s.data_block + 4 * j) == front[j]);
            }
        }
    }
}

/// A block that was written reads back as it was written: after 128 words went to a block, a
/// read command for that block fills the FIFO with those words.
pub proof fn law_written_block_reads_back(s: SdioView, w: WiresView, arg: u32, words: Seq<u32>)
    requires
        s.wf(),
        s.dir == DataDir::Write,
        s.write_pushed == 0,
        s.write_expected == 128,
        s.data_block == block_of(arg),
        block_of(arg) + 512 <= s.card.len(),
        words.len() == 128,
    ensures
        ({
            let (s1, w1) = push_all(s, w, words);
            let (s2, w2) = s1.fill_read_data(w1, arg);
            &&& s1.status == s.status | ST_DATAEND
            &&& s1.dir == DataDir::Idle
            &&& s2.fifo == words
            &&& s2.dir == DataDir::Read
        }),
{
    lemma_push_all(s, w, words);
    let (s1, w1) = push_all(s, w, words);
    let f = s1.fill_read_data(w1, arg).0.fifo;
    assert forall|j: int| 0 <= j < 128 implies f[j] == words[j] by {
        assert(card_word(s1.card, s.data_block + 4 * j) == words[j]);
    }
    assert(f =~= words);
}

/// Draining the FIFO hands out its words in order; the read ends with the last one.
pub proof fn law_read_drains_in_order(s: SdioView, w: WiresView, n: nat)
    requires
        s.dir == DataDir::Read,
        n <= s.fifo.len(),
        s.fifo.len() > 0,
    ensures
        ({
            let (t, _, out) = pop_all(s, w, n);
            &&& out == s.fifo.take(n as int)
            &&& t.fifo == s.fifo.skip(n as int)
            &&& n < s.fifo.len() ==> t.dir == DataDir::Read && t.status == s.status
            &&& n == s.fifo.len() ==> t.dir == DataDir::Idle && t.status == s.status | ST_DATAEND
        }),
    decreases n,
{
    if n > 0 {
        law_read_drains_in_order(s, w, (n - 1) as nat);
        let (s1, w1, out) = pop_all(s, w, (n - 1) as nat);
        assert(s1.fifo[0] == s.fifo[n - 1]);
        assert(s.fifo.take(n as int) =~= s.fifo.take(n - 1).push(s.fifo[n - 1]));
        assert(s1.fifo.drop_first() =~= s.fifo.skip(n as int));
    } else {
        assert(s.fifo.take(0) =~= Seq::<u32>::empty());
        assert(s.fifo.skip(0) =~= s.fifo);
    }
}

/// The card leaves standby for the transfer state only when its own address is selected.
pub proof fn law_select_needs_the_address(s: SdioView, w: WiresView)
    requires
        s.wf(),
        s.arg() / 0x1_0000 != s.rca,
    ensures
        s.short_response(w, CMD_SELECT_CARD).0.card_state == s.card_state,
{
}

/// The way of a card from power-on: command 0 makes it idle, an application command 41 after
/// command 55 makes it ready, command 3 gives it its address, and command 7 with that address
/// selects it. Without command 55 before it, command 41 does not count.
pub proof fn law_card_is_brought_up(s: SdioView, w: WiresView)
    requires
        s.wf(),
    ensures
        ({
            let run = |index: u32| s.short_response(w, index).0;
            &&& run(55).app_cmd_pending && run(55).card_state == s.card_state
            &&& run(55).regs[5] & 0x8000_0000 != 0
            &&& s.app_cmd_pending ==> run(41).card_state == CardState::Ready && run(41).regs[5]
                == 0x40FF_8000
            &&& !s.app_cmd_pending ==> run(41).card_state == s.card_state
            &&& run(3).card_state == CardState::Stby && run(3).regs[5] == (s.rca << 16u32) | (0x700u32
                & 0xFFFF)
            &&& s.regs[2] / 0x1_0000 == s.rca ==> run(7).card_state == CardState::Tran && run(7).regs[5]
                == 0x900
            &&& s.regs[2] / 0x1_0000 != s.rca ==> run(7).card_state == s.card_state
            &&& run(8).regs[5] == s.regs[2] & 0xFFF
            &&& !run(41).app_cmd_pending && !run(7).app_cmd_pending && !run(8).app_cmd_pending
        }),
{
    bits::lemma_flags(s.with_reg(4, 55).r1_status(), 0x8000_0000, 0);
}

/// Every command with a short response shows its number, raises the response flag, and the line
/// if that flag is enabled; a command without a response raises the sent flag instead.
pub proof fn law_commands_are_answered(s: SdioView, w: WiresView)
    requires
        s.wf(),
        (s.regs[3] % 64) != 17,
        (s.regs[3] % 64) != 18,
        (s.regs[3] % 64) != 24,
        (s.regs[3] % 64) != 25,
    ensures
        ({
            let (t, v) = s.execute_command(w);
            let resp = (s.regs[3] / 64) % 4;
            let flag: u32 = if resp == 1 || resp == 3 {
                0x40
            } else {
                0x80
            };
            &&& t.status == s.status | flag
            &&& v == if s.regs[15] & flag != 0 {
                w.pend(49)
            } else {
                w
            }
            &&& resp == 1 || resp == 3 ==> t.regs[4] == s.regs[3] % 64
            &&& resp != 1 && resp != 3 ==> t.regs[4] == 0 && t.regs[5] == 0
            &&& resp != 1 && resp != 3 && s.regs[3] % 64 == 0 ==> t.card_state == CardState::Idle
            &&& resp == 3 ==> t.card_state == s.card_state
            &&& t.card == s.card && t.fifo == s.fifo
        }),
{
}

/// A read command fills the queue with the block that its argument falls into, 128 words with
/// the lowest byte first, and asks for a transfer of them if the data path and transfers are
/// enabled. The card stays as it is.
pub proof fn law_read_command(s: SdioView, w: WiresView, arg: u32, k: int)
    requires
        s.wf(),
        0 <= k < 128,
        arg - arg % 512 + 512 <= s.card.len(),
    ensures
        ({
            let (t, v) = s.fill_read_data(w, arg);
            let at = arg - arg % 512 + 4 * k;
            &&& t.fifo.len() == 128 && t.card == s.card && t.dir == DataDir::Read
            &&& t.fifo[k] == s.card[at] + 0x100 * s.card[at + 1] + 0x1_0000 * s.card[at + 2]
                + 0x100_0000 * s.card[at + 3]
            &&& v == if s.regs[11] & 1 != 0 && s.regs[11] & 8 != 0 {
                w.publish(Event::SdioDma { port: 1, dir: DmaDir::PeriphToMem, items: 128 })
            } else {
                w
            }
        }),
{
    let at = arg - arg % 512 + 4 * k;
    bits::law_bytes_are_digits(0, s.card[at], s.card[at + 1], s.card[at + 2], s.card[at + 3]);
}

/// A word that is written goes to the card at its place in the block, lowest byte first, and
/// changes no other byte.
pub proof fn law_written_word(s: SdioView, w: WiresView, value: u32, i: int)
    requires
        s.wf(),
        s.dir == DataDir::Write,
        0 <= i < s.card.len(),
    ensures
        ({
            let (t, v) = s.dr_push(w, value);
            let at = s.data_block + 4 * s.write_pushed;
            &&& t.card.len() == s.card.len()
            &&& t.card[i] == if i == at {
                value as int % 256
            } else if i == at + 1 {
                (value as int / 0x100) % 256
            } else if i == at + 2 {
                (value as int / 0x1_0000) % 256
            } else if i == at + 3 {
                value as int / 0x100_0000
            } else {
                s.card[i] as int
            }
            &&& t.write_pushed == s.write_pushed + 1
            &&& s.write_pushed + 1 >= s.write_expected ==> t.dir == DataDir::Idle && t.status
                == s.status | 0x100 && v == (if s.regs[15] & 0x100 != 0 {
                w.pend(49)
            } else {
                w
            })
            &&& s.write_pushed + 1 < s.write_expected ==> t.dir == DataDir::Write && t.status
                == s.status && v == w
        }),
{
    bits::law_bytes_are_digits(value, 0, 0, 0, 0);
}

/// How a write starts: the command notes the block, and enabling the data path towards the card
/// starts it for the words of the length register. Enabling it for transfers asks for one.
pub proof fn law_write_starts(s: SdioView, w: WiresView, value: u32)
    requires
        s.wf(),
        s.dir == DataDir::Idle,
        value & 0xEFF == value,
    ensures
        s.respond(w, 24).0.data_block == s.regs[2] - s.regs[2] % 512,
        s.respond(w, 25).0.data_block == s.regs[2] - s.regs[2] % 512,
        value & 1 != 0 && value & 2 == 0 ==> {
            let (t, v) = s.write_dctrl(w, value);
            &&& t.dir == DataDir::Write && t.write_pushed == 0
            &&& t.write_expected == if s.regs[10] < 4 {
                1
            } else {
                s.regs[10] / 4
            }
            &&& v == if value & 8 != 0 {
                w.publish(Event::SdioDma { port: 1, dir: DmaDir::MemToPeriph, items: 0 })
            } else {
                w
            }
        },
        value & 1 == 0 ==> s.write_dctrl(w, value) == (s.with_reg(11, value), w),
{
}

/// The counters: the words in the queue, and the bytes that the running transfer still moves.
pub proof fn law_counters(s: SdioView, w: WiresView)
    requires
        s.wf(),
    ensures
        s.read(w, 0x48, 4).2 == Ok::<u32, BusError>(s.fifo.len() as u32),
        s.dir == DataDir::Idle ==> s.read(w, 0x30, 4).2 == Ok::<u32, BusError>(0u32),
        s.dir == DataDir::Read ==> s.read(w, 0x30, 4).2 == Ok::<u32, BusError>(
            (4 * s.fifo.len()) as u32,
        ),
        s.dir == DataDir::Write ==> s.read(w, 0x30, 4).2 == Ok::<u32, BusError>(
            (4 * (s.write_expected - s.write_pushed)) as u32,
        ),
        s.write(w, 0x38, 4, 0x3FF).0.status == s.status & !(0x3FFu32 & 0x3FF),
{
}

/// The status shows the flags; bit 10 while a transfer runs; bit 12 from a half-full FIFO on and
/// bit 15 with a full one; bits 14 and 16 while it is empty; bit 17 up to half full.
pub proof fn law_status_register(s: SdioView, w: WiresView)
    requires
        s.fifo.len() <= 128,
    ensures
        ({
            let base = if s.dir != DataDir::Idle {
                s.status | 0x400
            } else {
                s.status
            };
            let n = s.fifo.len();
            s.read(w, 0x34, 4).2 == Ok::<u32, BusError>(
                if n == 0 {
                    (base | 0x1_4000) | 0x2_0000
                } else if n < 64 {
                    (base & !0x1_4000u32) | 0x2_0000
                } else if n == 64 {
                    ((base | 0x1000) & !0x1_4000u32) | 0x2_0000
                } else if n < 128 {
                    (base | 0x1000) & !0x1_4000u32
                } else {
                    ((base | 0x1000) & !0x1_4000u32) | 0x8000
                },
            )
        }),
        s.read(w, 0x48, 4).2 == Ok::<u32, BusError>(s.fifo.len() as u32),
{
}

/// The plain registers of the interface are where the chip has them and read back what was
/// written; ones written to the clear register take down the flags among its low ten bits.
pub proof fn law_card_register_map(s: SdioView, w: WiresView, value: u32)
    requires
        s.wf(),
    ensures
        s.write(w, 0x00, 4, value).0.read(w, 0x00, 4).2 == Ok::<u32, BusError>(value & 3),
        s.write(w, 0x04, 4, value).0.read(w, 0x04, 4).2 == Ok::<u32, BusError>(value),
        s.write(w, 0x08, 4, value).0.read(w, 0x08, 4).2 == Ok::<u32, BusError>(value),
        s.write(w, 0x24, 4, value).0.read(w, 0x24, 4).2 == Ok::<u32, BusError>(value),
        s.write(w, 0x28, 4, value).0.read(w, 0x28, 4).2 == Ok::<u32, BusError>(value),
        s.write(w, 0x3C, 4, value).0.read(w, 0x3C, 4).2 == Ok::<u32, BusError>(value),
        s.write(w, 0x38, 4, value).0 == (SdioView { status: s.status & !(value & 0x3FF), ..s }),
        s.read(w, 0x10, 4).2 == Ok::<u32, BusError>(s.regs[4]),
        s.read(w, 0x14, 4).2 == Ok::<u32, BusError>(s.regs[5]),
        s.read(w, 0x18, 4).2 == Ok::<u32, BusError>(s.regs[6]),
        s.read(w, 0x1C, 4).2 == Ok::<u32, BusError>(s.regs[7]),
        s.read(w, 0x20, 4).2 == Ok::<u32, BusError>(s.regs[8]),
        (value & 0x7FFF) & 0x400 == 0 ==> s.write(w, 0x0C, 4, value).0.read(w, 0x0C, 4).2 == Ok::<
            u32,
            BusError,
        >(value & 0x7FFF),
        (value & 0xEFF) & 1 == 0 ==> s.write(w, 0x2C, 4, value).0.read(w, 0x2C, 4).2 == Ok::<
            u32,
            BusError,
        >(value & 0xEFF),
{
}

} // verus!
