//! The controller for outside memory.
//!
//! Four banks, each with a control, a timing and a write-timing register and a window of 64 KiB
//! (the first at 0x6000_0000, the others 64 MiB apart). A window works while its bank is
//! enabled; else it reads as zero and drops what is written. Timing has no effect.
//!
//! Offsets: BCR1 0x00, BTR1 0x04 and so on up to BTR4 0x1C; BWTR1 0x104 to BWTR4 0x110.
use crate::bits;
use crate::peripheral::{BusError, Peripheral};
use crate::wires::{Wires, WiresView};
use vstd::prelude::*;

verus! {

pub const FSMC_BASE: u32 = 0xA000_0000;

pub const FSMC_BANK1_BASE: u32 = 0x6000_0000;

pub const FSMC_BANK2_BASE: u32 = 0x6400_0000;

pub const FSMC_BANK3_BASE: u32 = 0x6800_0000;

pub const FSMC_BANK4_BASE: u32 = 0x6C00_0000;

/// The size of a window.
pub const FSMC_BANK_SIZE: usize = 0x1_0000;

/// Enables a bank.
pub const BCR_MBKEN: u32 = 0x1;

/// The bits of a control register that can be written.
pub const BCR_WMASK: u32 = 0x0018_FF7D;

pub const OFF_BCR1: u32 = 0x00;

pub const OFF_BTR1: u32 = 0x04;

pub const OFF_BCR2: u32 = 0x08;

pub const OFF_BTR2: u32 = 0x0C;

pub const OFF_BCR3: u32 = 0x10;

pub const OFF_BTR3: u32 = 0x14;

pub const OFF_BCR4: u32 = 0x18;

pub const OFF_BTR4: u32 = 0x1C;

pub const OFF_BWTR1: u32 = 0x104;

pub const OFF_BWTR2: u32 = 0x108;

pub const OFF_BWTR3: u32 = 0x10C;

pub const OFF_BWTR4: u32 = 0x110;

/// Where a register is kept: control registers first, then timing, then write timing.
pub open spec fn register_index(offset: u32) -> Option<int> {
    if offset % 4 != 0 {
        None
    } else if offset <= OFF_BTR4 {
        Some(
            if offset % 8 == 0 {
                offset as int / 8
            } else {
                4 + offset as int / 8
            },
        )
    } else if OFF_BWTR1 <= offset <= OFF_BWTR4 {
        Some(8 + (offset - OFF_BWTR1) / 4)
    } else {
        None
    }
}

/// The bank and the place in its window that an address names.
pub open spec fn place_of(addr: u32) -> Option<(int, int)> {
    let bank = (addr - FSMC_BANK1_BASE) / 0x0400_0000;
    let off = (addr - FSMC_BANK1_BASE) % 0x0400_0000;
    if FSMC_BANK1_BASE <= addr && bank < 4 && off < FSMC_BANK_SIZE {
        Some((bank, off))
    } else {
        None
    }
}

fn reg_idx(offset: u32) -> (r: Option<usize>)
    ensures
        r is Some <==> register_index(offset) is Some,
        r matches Some(i) ==> register_index(offset) == Some(i as int) && i < 12,
{
    match offset {
        OFF_BCR1 => Some(0),
        OFF_BCR2 => Some(1),
        OFF_BCR3 => Some(2),
        OFF_BCR4 => Some(3),
        OFF_BTR1 => Some(4),
        OFF_BTR2 => Some(5),
        OFF_BTR3 => Some(6),
        OFF_BTR4 => Some(7),
        OFF_BWTR1 => Some(8),
        OFF_BWTR2 => Some(9),
        OFF_BWTR3 => Some(10),
        OFF_BWTR4 => Some(11),
        _ => None,
    }
}

fn window_bank(addr: u32) -> (r: Option<(usize, usize)>)
    ensures
        r is Some <==> place_of(addr) is Some,
        r matches Some((bank, off)) ==> {
            &&& place_of(addr) == Some((bank as int, off as int))
            &&& bank < 4
            &&& off < FSMC_BANK_SIZE
        },
{
    let size: u32 = 0x1_0000;
    if addr >= FSMC_BANK1_BASE && addr < FSMC_BANK1_BASE + size {
        Some((0, (addr - FSMC_BANK1_BASE) as usize))
    } else if addr >= FSMC_BANK2_BASE && addr < FSMC_BANK2_BASE + size {
        Some((1, (addr - FSMC_BANK2_BASE) as usize))
    } else if addr >= FSMC_BANK3_BASE && addr < FSMC_BANK3_BASE + size {
        Some((2, (addr - FSMC_BANK3_BASE) as usize))
    } else if addr >= FSMC_BANK4_BASE && addr < FSMC_BANK4_BASE + size {
        Some((3, (addr - FSMC_BANK4_BASE) as usize))
    } else {
        None
    }
}

/// Controller for outside memory.
pub struct Fsmc {
    regs: [u32; 12],
    cells: Vec<u8>,
}

/// The state of the controller.
#[verifier::ext_equal]
pub struct FsmcView {
    /// Control, timing and write-timing registers, four of each.
    pub regs: Seq<u32>,
    /// The bytes of the windows, bank after bank.
    pub cells: Seq<u8>,
}

impl View for Fsmc {
    type V = FsmcView;

    closed spec fn view(&self) -> FsmcView {
        FsmcView { regs: self.regs@, cells: self.cells@ }
    }
}

impl FsmcView {
    pub open spec fn fresh() -> FsmcView {
        FsmcView {
            regs: Seq::new(12, |i: int| 0u32),
            cells: Seq::new(4 * FSMC_BANK_SIZE as nat, |i: int| 0u8),
        }
    }

    pub open spec fn wf(self) -> bool {
        self.regs.len() == 12 && self.cells.len() == 4 * FSMC_BANK_SIZE
    }

    pub open spec fn bank_enabled(self, bank: int) -> bool {
        self.regs[bank] & BCR_MBKEN != 0
    }

    /// The index of the first byte of an access that a window serves.
    pub open spec fn window_at(self, addr: u32, size: u32) -> Option<int> {
        match place_of(addr) {
            Some((bank, off)) => if self.bank_enabled(bank) && off + size <= FSMC_BANK_SIZE {
                Some(FSMC_BANK_SIZE * bank + off)
            } else {
                None
            },
            None => None,
        }
    }

    /// Byte `i` of an access of `size` bytes at index `at`; zero past the width.
    pub open spec fn lane(self, at: int, size: u32, i: int) -> u8 {
        if i < size {
            self.cells[at + i]
        } else {
            0
        }
    }

    pub open spec fn window_read(self, addr: u32, size: u32) -> u32 {
        match self.window_at(addr, size) {
            Some(at) => bits::word_of(
                self.lane(at, size, 0),
                self.lane(at, size, 1),
                self.lane(at, size, 2),
                self.lane(at, size, 3),
            ),
            None => 0,
        }
    }

    pub open spec fn window_write(self, addr: u32, size: u32, value: u32) -> FsmcView {
        match self.window_at(addr, size) {
            Some(at) => FsmcView {
                cells: Seq::new(
                    self.cells.len(),
                    |k: int|
                        if at <= k < at + size {
                            bits::byte_at(value, (k - at) as u32)
                        } else {
                            self.cells[k]
                        },
                ),
                ..self
            },
            None => self,
        }
    }

    pub open spec fn read(self, offset: u32, size: u32) -> Result<u32, BusError> {
        if size != 4 {
            Err(BusError::NotImplemented)
        } else {
            match register_index(offset) {
                Some(i) => Ok(self.regs[i]),
                None => Err(BusError::OutOfRange),
            }
        }
    }

    pub open spec fn write(self, offset: u32, size: u32, value: u32) -> (FsmcView, Result<
        (),
        BusError,
    >) {
        if size != 4 {
            (self, Err(BusError::NotImplemented))
        } else {
            match register_index(offset) {
                Some(i) => (
                    FsmcView {
                        regs: self.regs.update(
                            i,
                            if i < 4 {
                                value & BCR_WMASK
                            } else {
                                value
                            },
                        ),
                        ..self
                    },
                    Ok(()),
                ),
                None => (self, Err(BusError::OutOfRange)),
            }
        }
    }
}

impl Fsmc {
    pub fn new() -> (r: Self)
        ensures
            r@ == FsmcView::fresh(),
            r@.wf(),
    {
        let r = Fsmc { regs: bits::filled(0), cells: vec![0u8; 0x4_0000] };
        assert(r@ =~= FsmcView::fresh());
        r
    }

    /// Is the bank (counted from 0) enabled?
    pub fn bank_enabled(&self, bank: usize) -> (r: bool)
        requires
            bank < 12,
        ensures
            r == self@.bank_enabled(bank as int),
    {
        self.regs[bank] & BCR_MBKEN != 0
    }

    fn locate(&self, addr: u32, size: u32) -> (r: Option<usize>)
        requires
            self@.wf(),
            size <= 4,
        ensures
            match r {
                Some(at) => self@.window_at(addr, size) == Some(at as int) && at + size
                    <= self@.cells.len(),
                None => self@.window_at(addr, size) is None,
            },
    {
        match window_bank(addr) {
            Some((bank, off)) => {
                if self.bank_enabled(bank) && off + size as usize <= FSMC_BANK_SIZE {
                    Some(FSMC_BANK_SIZE * bank + off)
                } else {
                    None
                }
            },
            None => None,
        }
    }

    fn lane(&self, at: usize, size: u32, i: u32) -> (r: u8)
        requires
            self@.wf(),
            at + size <= self@.cells.len(),
        ensures
            r == self@.lane(at as int, size, i as int),
    {
        if i < size {
            self.cells[at + i as usize]
        } else {
            0
        }
    }

    /// Reads from a window, low byte first.
    pub fn window_read(&self, addr: u32, size: u32) -> (r: u32)
        requires
            self@.wf(),
            size <= 4,
        ensures
            r == self@.window_read(addr, size),
    {
        match self.locate(addr, size) {
            Some(at) => bits::le_word(
                self.lane(at, size, 0),
                self.lane(at, size, 1),
                self.lane(at, size, 2),
                self.lane(at, size, 3),
            ),
            None => 0,
        }
    }

    /// Writes to a window, low byte first.
    pub fn window_write(&mut self, addr: u32, size: u32, value: u32)
        requires
            old(self)@.wf(),
            size <= 4,
        ensures
            final(self)@.wf(),
            final(self)@ == old(self)@.window_write(addr, size, value),
    {
        if let Some(at) = self.locate(addr, size) {
            let mut i: u32 = 0;
            while i < size
                invariant
                    i <= size,
                    size <= 4,
                    at + size <= self.cells@.len(),
                    self.cells@.len() == 0x4_0000,
                    self.regs@ == old(self)@.regs,
                    self.cells@ == Seq::new(
                        old(self)@.cells.len(),
                        |k: int|
                            if at <= k < at + i {
                                bits::byte_at(value, (k - at) as u32)
                            } else {
                                old(self)@.cells[k]
                            },
                    ),
                decreases size - i,
            {
                self.cells[at + i as usize] = bits::byte_of(value, i);
                i = i + 1;
                assert(self.cells@ =~= Seq::new(
                    old(self)@.cells.len(),
                    |k: int|
                        if at <= k < at + i {
                            bits::byte_at(value, (k - at) as u32)
                        } else {
                            old(self)@.cells[k]
                        },
                ));
            }
            assert(self@ =~= old(self)@.window_write(addr, size, value));
        }
    }
}

impl Peripheral for Fsmc {
    open spec fn inv(s: FsmcView) -> bool {
        s.wf()
    }

    open spec fn readable(s: FsmcView, w: WiresView, offset: u32, size: u32) -> bool {
        true
    }

    open spec fn read_of(s: FsmcView, w: WiresView, offset: u32, size: u32) -> (
        FsmcView,
        WiresView,
        Result<u32, BusError>,
    ) {
        (s, w, s.read(offset, size))
    }

    open spec fn writable(s: FsmcView, w: WiresView, offset: u32, size: u32, value: u32) -> bool {
        true
    }

    open spec fn write_of(s: FsmcView, w: WiresView, offset: u32, size: u32, value: u32) -> (
        FsmcView,
        WiresView,
        Result<(), BusError>,
    ) {
        let (s1, r) = s.write(offset, size, value);
        (s1, w, r)
    }

    open spec fn reset_of(s: FsmcView, w: WiresView) -> (FsmcView, WiresView) {
        (FsmcView::fresh(), w)
    }

    open spec fn tickable(s: FsmcView, w: WiresView, cycles: u64) -> bool {
        true
    }

    open spec fn tick_of(s: FsmcView, w: WiresView, cycles: u64) -> (FsmcView, WiresView) {
        (s, w)
    }

    open spec fn label(s: FsmcView) -> Seq<char> {
        "FSMC"@
    }

    fn name(&self) -> &str {
        "FSMC"
    }

    fn read(&mut self, w: &mut Wires, offset: u32, size: u32) -> Result<u32, BusError> {
        if size != 4 {
            return Err(BusError::NotImplemented);
        }
        match reg_idx(offset) {
            Some(i) => Ok(self.regs[i]),
            None => Err(BusError::OutOfRange),
        }
    }

    fn write(&mut self, w: &mut Wires, offset: u32, size: u32, value: u32) -> Result<(), BusError> {
        if size != 4 {
            return Err(BusError::NotImplemented);
        }
        match reg_idx(offset) {
            Some(i) => {
                let kept: u32 = if i < 4 {
                    value & BCR_WMASK
                } else {
                    value
                };
                self.regs[i] = kept;
                Ok(())
            },
            None => Err(BusError::OutOfRange),
        }
    }

    fn reset(&mut self, w: &mut Wires) {
        self.regs = bits::filled(0);
        self.cells = vec![0u8; 0x4_0000];
        assert(self@ =~= FsmcView::fresh());
    }

    fn tick(&mut self, w: &mut Wires, cycles: u64) {
    }
}

/// The low bytes of a value.
pub open spec fn low_bytes(value: u32, size: u32) -> u32 {
    if size == 0 {
        0
    } else if size == 1 {
        value % 0x100
    } else if size == 2 {
        value % 0x1_0000
    } else if size == 3 {
        value % 0x100_0000
    } else {
        value
    }
}

/// What is written to an enabled window is read back, in every width, and byte by byte with the
/// lowest byte first.
pub proof fn law_window_reads_back(s: FsmcView, addr: u32, size: u32, value: u32)
    requires
        s.wf(),
        size <= 4,
        s.window_at(addr, size) is Some,
    ensures
        s.window_write(addr, size, value).window_read(addr, size) == low_bytes(value, size),
        forall|i: u32|
            i < size ==> s.window_write(addr, size, value).window_read((addr + i) as u32, 1)
                == #[trigger] bits::byte_at(value, i),
{
    let v = value;
    let t = s.window_write(addr, size, value);
    let at = s.window_at(addr, size)->0;
    assert(t.window_at(addr, size) == Some(at));
    assert(forall|i: int| 0 <= i < size ==> #[trigger] t.lane(at, size, i) == bits::byte_at(value, i as u32));
    bits::lemma_word_of_bytes(value);
    assert(bits::word_of(0, 0, 0, 0) == 0 && bits::word_of((v >> 0u32) as u8, 0, 0, 0) == v % 0x100
        && bits::word_of((v >> 0u32) as u8, (v >> 8u32) as u8, 0, 0) == v % 0x1_0000
        && bits::word_of((v >> 0u32) as u8, (v >> 8u32) as u8, (v >> 16u32) as u8, 0) == v
        % 0x100_0000) by (bit_vector);
    assert(t.lane(at, size, 0) == (if size > 0 {
        bits::byte_at(value, 0)
    } else {
        0
    }));
    assert(t.lane(at, size, 1) == (if size > 1 {
        bits::byte_at(value, 1)
    } else {
        0
    }));
    assert(t.lane(at, size, 2) == (if size > 2 {
        bits::byte_at(value, 2)
    } else {
        0
    }));
    assert(t.lane(at, size, 3) == (if size > 3 {
        bits::byte_at(value, 3)
    } else {
        0
    }));
    assert forall|i: u32| i < size implies t.window_read((addr + i) as u32, 1) == #[trigger]
        bits::byte_at(value, i) by {
        assert(t.window_at((addr + i) as u32, 1) == Some(at + i));
        let b = bits::byte_at(value, i);
        assert(t.lane(at + i, 1, 0) == b);
        bits::lemma_one_byte(b);
    }
}

/// A window without its bank enabled, and every address outside the windows, reads as zero
/// and drops what is written.
pub proof fn law_unserved_access(s: FsmcView, addr: u32, size: u32, value: u32)
    requires
        match place_of(addr) {
            Some((bank, off)) => !s.bank_enabled(bank) || off + size > FSMC_BANK_SIZE,
            None => true,
        },
    ensures
        s.window_read(addr, size) == 0,
        s.window_write(addr, size, value) == s,
{
}

/// A write to one window changes no other window.
pub proof fn law_banks_are_independent(
    s: FsmcView,
    a: u32,
    b: u32,
    size: u32,
    other: u32,
    value: u32,
)
    requires
        s.wf(),
        size <= 4,
        other <= 4,
        place_of(a) matches Some((p, _)) && place_of(b) matches Some((q, _)) && p != q,
    ensures
        s.window_write(a, size, value).window_read(b, other) == s.window_read(b, other),
{
    let t = s.window_write(a, size, value);
    if t.window_at(b, other) is Some {
        let at = t.window_at(b, other)->0;
        assert(forall|i: int| 0 <= i < 4 ==> #[trigger] t.lane(at, other, i) == s.lane(at, other, i));
        assert(t.lane(at, other, 0) == s.lane(at, other, 0));
        assert(t.lane(at, other, 1) == s.lane(at, other, 1));
        assert(t.lane(at, other, 2) == s.lane(at, other, 2));
        assert(t.lane(at, other, 3) == s.lane(at, other, 3));
    }
}

/// Bank `b` has its control register at `8 * b`, its timing one word behind it, and its write
/// timing at `0x104 + 4 * b`. Each reads back what was written, of a control register the bits
/// that exist, and writing one changes no other.
pub proof fn law_bank_registers(s: FsmcView, b: u32, value: u32)
    requires
        s.wf(),
        b < 4,
    ensures
        s.write((8 * b) as u32, 4, value).0.read((8 * b) as u32, 4) == Ok::<u32, BusError>(
            value & 0x0018_FF7D,
        ),
        s.write((8 * b + 4) as u32, 4, value).0.read((8 * b + 4) as u32, 4) == Ok::<u32, BusError>(
            value,
        ),
        s.write((0x104 + 4 * b) as u32, 4, value).0.read((0x104 + 4 * b) as u32, 4) == Ok::<
            u32,
            BusError,
        >(value),
        forall|offset: u32, other: u32|
            #![trigger s.write(offset, 4, value), s.read(other, 4)]
            offset != other ==> s.write(offset, 4, value).0.read(other, 4) == s.read(other, 4),
        forall|offset: u32| (#[trigger] s.write(offset, 4, value)).0.cells == s.cells,
{
}

/// The window of bank `b` begins at `0x6000_0000 + 0x400_0000 * b` and is 64 KiB long. It answers
/// while bit 0 of the bank's control register is set, with its bytes lowest first.
pub proof fn law_window_place(s: FsmcView, b: int, off: int)
    requires
        s.wf(),
        0 <= b < 4,
        0 <= off < 0x1_0000,
        s.regs[b] & 1 != 0,
    ensures
        ({
            let a = (0x6000_0000 + 0x400_0000 * b + off) as u32;
            let c = |k: int| s.cells[0x1_0000 * b + off + k];
            &&& s.window_read(a, 1) == c(0)
            &&& off + 2 <= 0x1_0000 ==> s.window_read(a, 2) == c(0) + 0x100 * c(1)
            &&& off + 4 <= 0x1_0000 ==> s.window_read(a, 4) == c(0) + 0x100 * c(1) + 0x1_0000 * c(2)
                + 0x100_0000 * c(3)
        }),
{
    let a = (0x6000_0000 + 0x400_0000 * b + off) as u32;
    let at = 0x1_0000 * b + off;
    assert(place_of(a) == Some((b, off)));
    bits::law_bytes_are_digits(0, s.lane(at, 1, 0), 0, 0, 0);
    bits::law_bytes_are_digits(0, s.lane(at, 2, 0), s.lane(at, 2, 1), 0, 0);
    bits::law_bytes_are_digits(
        0,
        s.lane(at, 4, 0),
        s.lane(at, 4, 1),
        s.lane(at, 4, 2),
        s.lane(at, 4, 3),
    );
}

/// A write to a window puts the bytes of the value, lowest first, at the address and behind it,
/// and changes no other byte.
pub proof fn law_window_write(s: FsmcView, b: int, off: int, size: u32, value: u32)
    requires
        s.wf(),
        0 <= b < 4,
        0 <= off,
        1 <= size <= 4,
        off + size <= 0x1_0000,
        s.regs[b] & 1 != 0,
    ensures
        ({
            let a = (0x6000_0000 + 0x400_0000 * b + off) as u32;
            let at = 0x1_0000 * b + off;
            let t = s.window_write(a, size, value);
            &&& t.regs == s.regs
            &&& t.cells.len() == s.cells.len()
            &&& t.cells[at] == value % 256
            &&& size > 1 ==> t.cells[at + 1] == (value / 0x100) % 256
            &&& size > 2 ==> t.cells[at + 2] == (value / 0x1_0000) % 256
            &&& size > 3 ==> t.cells[at + 3] == value / 0x100_0000
            &&& forall|k: int|
                0 <= k < s.cells.len() && !(at <= k < at + size) ==> #[trigger] t.cells[k]
                    == s.cells[k]
        }),
{
    let a = (0x6000_0000 + 0x400_0000 * b + off) as u32;
    assert(place_of(a) == Some((b, off)));
    bits::law_bytes_are_digits(value, 0, 0, 0, 0);
}

} // verus!
