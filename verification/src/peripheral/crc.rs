//! The CRC unit.
//!
//! Polynomial 0x04C11DB7, start value 0xFFFF_FFFF, most significant bit first, nothing
//! reflected and no final inversion (CRC-32/MPEG-2). A write to the data register feeds the
//! low 4, 2 or 1 bytes of the value, highest first.
//!
//! Offsets: DR 0x00, IDR 0x04, CR 0x08.
use crate::bits;
use crate::peripheral::{BusError, Peripheral};
use crate::wires::{Wires, WiresView};
use vstd::prelude::*;

verus! {

pub const OFF_DR: u32 = 0x00;

pub const OFF_IDR: u32 = 0x04;

pub const OFF_CR: u32 = 0x08;

pub const CR_RESET: u32 = 0x1;

pub const POLY: u32 = 0x04C1_1DB7;

pub const INIT: u32 = 0xFFFF_FFFF;

/// One step of the shift register: times x, modulo the polynomial.
pub open spec fn shift_once(crc: u32) -> u32 {
    if crc & 0x8000_0000 != 0 {
        (crc << 1u32) ^ POLY
    } else {
        crc << 1u32
    }
}

/// `n` steps of the shift register.
pub open spec fn shifted(crc: u32, n: nat) -> u32
    decreases n,
{
    if n == 0 {
        crc
    } else {
        shift_once(shifted(crc, (n - 1) as nat))
    }
}

/// The remainder after one more byte.
pub open spec fn crc_byte(crc: u32, byte: u8) -> u32 {
    shifted(crc ^ ((byte as u32) << 24u32), 8)
}

/// The remainder after a message.
pub open spec fn crc_of(crc: u32, message: Seq<u8>) -> u32
    decreases message.len(),
{
    if message.len() == 0 {
        crc
    } else {
        crc_byte(crc_of(crc, message.drop_last()), message.last())
    }
}

/// The bytes that a write of the given width feeds.
pub open spec fn fed_bytes(size: u32, value: u32) -> Seq<u8> {
    if size == 4 {
        seq![
            bits::byte_at(value, 3),
            bits::byte_at(value, 2),
            bits::byte_at(value, 1),
            bits::byte_at(value, 0),
        ]
    } else if size == 2 {
        seq![bits::byte_at(value, 1), bits::byte_at(value, 0)]
    } else if size == 1 {
        seq![bits::byte_at(value, 0)]
    } else {
        Seq::empty()
    }
}

/// CRC unit.
pub struct Crc {
    regs: [u32; 3],
    crc: u32,
}

/// The state of the unit.
#[verifier::ext_equal]
pub struct CrcView {
    pub regs: Seq<u32>,
    /// The remainder so far.
    pub crc: u32,
}

impl View for Crc {
    type V = CrcView;

    closed spec fn view(&self) -> CrcView {
        CrcView { regs: self.regs@, crc: self.crc }
    }
}

impl CrcView {
    pub open spec fn fresh() -> CrcView {
        CrcView { regs: seq![0u32, 0u32, 0u32], crc: INIT }
    }

    pub open spec fn wf(self) -> bool {
        self.regs.len() == 3
    }

    pub open spec fn push(self, size: u32, value: u32) -> CrcView {
        if size == 4 || size == 2 || size == 1 {
            CrcView {
                regs: self.regs.update(0, value),
                crc: crc_of(self.crc, fed_bytes(size, value)),
            }
        } else {
            self
        }
    }

    pub open spec fn read(self, offset: u32, size: u32) -> Result<u32, BusError> {
        if size != 4 {
            Err(BusError::NotImplemented)
        } else if offset == OFF_DR {
            Ok(self.crc)
        } else if offset == OFF_IDR {
            Ok(self.regs[1] & 0xFF)
        } else if offset == OFF_CR {
            Ok(0u32)
        } else {
            Err(BusError::OutOfRange)
        }
    }

    pub open spec fn write(self, offset: u32, size: u32, value: u32) -> (CrcView, Result<
        (),
        BusError,
    >) {
        if offset == OFF_DR {
            (self.push(size, value), Ok(()))
        } else if offset == OFF_IDR {
            (CrcView { regs: self.regs.update(1, value & 0xFF), ..self }, Ok(()))
        } else if offset == OFF_CR {
            (
                CrcView {
                    regs: self.regs.update(2, 0),
                    crc: if value & CR_RESET != 0 {
                        INIT
                    } else {
                        self.crc
                    },
                },
                Ok(()),
            )
        } else {
            (self, Err(BusError::OutOfRange))
        }
    }
}

/// Advances the remainder by one byte.
fn push_byte(crc: u32, byte: u8) -> (r: u32)
    ensures
        r == crc_byte(crc, byte),
{
    let start = crc ^ ((byte as u32) << 24u32);
    let mut c = start;
    let mut i: u32 = 0;
    while i < 8
        invariant
            i <= 8,
            c == shifted(start, i as nat),
        decreases 8 - i,
    {
        if c & 0x8000_0000 != 0 {
            c = (c << 1u32) ^ POLY;
        } else {
            c = c << 1u32;
        }
        i = i + 1;
    }
    c
}

impl Crc {
    pub fn new() -> (r: Self)
        ensures
            r@ == CrcView::fresh(),
            r@.wf(),
    {
        let r = Crc { regs: bits::filled(0), crc: INIT };
        assert(r@ =~= CrcView::fresh());
        r
    }

    /// Feeds the low `size` bytes of `value`, highest first. Other widths than 4, 2 and 1
    /// feed nothing.
    pub fn push(&mut self, size: u32, value: u32)
        requires
            old(self)@.wf(),
        ensures
            final(self)@ == old(self)@.push(size, value),
            final(self)@.wf(),
    {
        let ghost c0 = self.crc;
        proof {
            lemma_crc_short(
                c0,
                bits::byte_at(value, 3),
                bits::byte_at(value, 2),
                bits::byte_at(value, 1),
                bits::byte_at(value, 0),
            );
        }
        if size == 4 {
            let c1 = push_byte(self.crc, bits::byte_of(value, 3));
            let c2 = push_byte(c1, bits::byte_of(value, 2));
            let c3 = push_byte(c2, bits::byte_of(value, 1));
            self.crc = push_byte(c3, bits::byte_of(value, 0));
        } else if size == 2 {
            let c1 = push_byte(self.crc, bits::byte_of(value, 1));
            self.crc = push_byte(c1, bits::byte_of(value, 0));
        } else if size == 1 {
            self.crc = push_byte(self.crc, bits::byte_of(value, 0));
        } else {
            return ;
        }
        self.regs[0] = value;
    }

    /// The remainder so far.
    pub fn crc(&self) -> (r: u32)
        ensures
            r == self@.crc,
    {
        self.crc
    }

    /// Starts a new remainder.
    pub fn reset(&mut self)
        ensures
            final(self)@ == (CrcView { crc: INIT, ..old(self)@ }),
    {
        self.crc = INIT;
    }
}

/// The remainders of messages of one, two and four bytes.
proof fn lemma_crc_short(c: u32, b3: u8, b2: u8, b1: u8, b0: u8)
    ensures
        crc_of(c, seq![b0]) == crc_byte(c, b0),
        crc_of(c, seq![b1, b0]) == crc_byte(crc_byte(c, b1), b0),
        crc_of(c, seq![b3, b2, b1, b0]) == crc_byte(
            crc_byte(crc_byte(crc_byte(c, b3), b2), b1),
            b0,
        ),
{
    reveal_with_fuel(crc_of, 5);
    assert(seq![b0].drop_last() =~= Seq::<u8>::empty());
    assert(seq![b1, b0].drop_last() =~= seq![b1]);
    assert(seq![b1].drop_last() =~= Seq::<u8>::empty());
    assert(seq![b3, b2, b1, b0].drop_last() =~= seq![b3, b2, b1]);
    assert(seq![b3, b2, b1].drop_last() =~= seq![b3, b2]);
    assert(seq![b3, b2].drop_last() =~= seq![b3]);
    assert(seq![b3].drop_last() =~= Seq::<u8>::empty());
}

impl Default for Crc {
    fn default() -> (r: Self)
        ensures
            r@ == CrcView::fresh(),
    {
        Crc::new()
    }
}

impl Peripheral for Crc {
    open spec fn inv(s: CrcView) -> bool {
        s.wf()
    }

    open spec fn readable(s: CrcView, w: WiresView, offset: u32, size: u32) -> bool {
        true
    }

    open spec fn read_of(s: CrcView, w: WiresView, offset: u32, size: u32) -> (
        CrcView,
        WiresView,
        Result<u32, BusError>,
    ) {
        (s, w, s.read(offset, size))
    }

    open spec fn writable(s: CrcView, w: WiresView, offset: u32, size: u32, value: u32) -> bool {
        true
    }

    open spec fn write_of(s: CrcView, w: WiresView, offset: u32, size: u32, value: u32) -> (
        CrcView,
        WiresView,
        Result<(), BusError>,
    ) {
        let (s1, r) = s.write(offset, size, value);
        (s1, w, r)
    }

    open spec fn reset_of(s: CrcView, w: WiresView) -> (CrcView, WiresView) {
        (CrcView::fresh(), w)
    }

    open spec fn tickable(s: CrcView, w: WiresView, cycles: u64) -> bool {
        true
    }

    open spec fn tick_of(s: CrcView, w: WiresView, cycles: u64) -> (CrcView, WiresView) {
        (s, w)
    }

    open spec fn label(s: CrcView) -> Seq<char> {
        "CRC"@
    }

    fn name(&self) -> &str {
        "CRC"
    }

    fn read(&mut self, w: &mut Wires, offset: u32, size: u32) -> Result<u32, BusError> {
        if size != 4 {
            return Err(BusError::NotImplemented);
        }
        match offset {
            OFF_DR => Ok(self.crc),
            OFF_IDR => Ok(self.regs[1] & 0xFF),
            OFF_CR => Ok(0),
            _ => Err(BusError::OutOfRange),
        }
    }

    fn write(&mut self, w: &mut Wires, offset: u32, size: u32, value: u32) -> Result<(), BusError> {
        match offset {
            OFF_DR => {
                self.push(size, value);
                Ok(())
            },
            OFF_IDR => {
                self.regs[1] = value & 0xFF;
                Ok(())
            },
            OFF_CR => {
                if value & CR_RESET != 0 {
                    Crc::reset(self);
                }
                self.regs[2] = 0;
                Ok(())
            },
            _ => Err(BusError::OutOfRange),
        }
    }

    fn reset(&mut self, w: &mut Wires) {
        self.regs = bits::filled(0);
        self.crc = INIT;
        assert(self@ =~= CrcView::fresh());
    }

    fn tick(&mut self, w: &mut Wires, cycles: u64) {
    }
}

/// The remainder of a message is reached by feeding its parts one after the other.
pub proof fn law_parts_add_up(c: u32, a: Seq<u8>, b: Seq<u8>)
    ensures
        crc_of(c, a + b) == crc_of(crc_of(c, a), b),
    decreases b.len(),
{
    if b.len() == 0 {
        assert(a + b =~= a);
    } else {
        law_parts_add_up(c, a, b.drop_last());
        assert((a + b).drop_last() =~= a + b.drop_last());
        assert((a + b).last() == b.last());
    }
}

/// A word feeds what its four bytes feed one by one, highest first; so does a half-word with
/// its two bytes.
pub proof fn law_word_feeds_its_bytes(s: CrcView, value: u32)
    requires
        s.wf(),
    ensures
        s.push(4, value).crc == s.push(1, bits::byte_at(value, 3) as u32).push(
            1,
            bits::byte_at(value, 2) as u32,
        ).push(1, bits::byte_at(value, 1) as u32).push(1, bits::byte_at(value, 0) as u32).crc,
        s.push(2, value).crc == s.push(1, bits::byte_at(value, 1) as u32).push(
            1,
            bits::byte_at(value, 0) as u32,
        ).crc,
{
    let (b3, b2, b1, b0) = (
        bits::byte_at(value, 3),
        bits::byte_at(value, 2),
        bits::byte_at(value, 1),
        bits::byte_at(value, 0),
    );
    lemma_low_byte(b3);
    lemma_low_byte(b2);
    lemma_low_byte(b1);
    lemma_low_byte(b0);
    lemma_crc_short(s.crc, b3, b2, b1, b0);
    lemma_crc_short(s.crc, b3, b2, b1, b3);
    lemma_crc_short(s.crc, b3, b2, b1, b1);
    let c3 = crc_byte(s.crc, b3);
    lemma_crc_short(c3, b3, b2, b1, b2);
    let c2 = crc_byte(c3, b2);
    lemma_crc_short(c2, b3, b2, b1, b1);
    let c1 = crc_byte(c2, b1);
    lemma_crc_short(c1, b3, b2, b1, b0);
    lemma_crc_short(crc_byte(s.crc, b1), b3, b2, b1, b0);
}

proof fn lemma_low_byte(b: u8)
    ensures
        bits::byte_at(b as u32, 0) == b,
{
    bits::law_bytes_are_digits(b as u32, 0, 0, 0, 0);
}

proof fn lemma_register_bits(c: u32)
    ensures
        c < 0x8000_0000 ==> shift_once(c) == 2 * c,
        c >= 0x8000_0000 ==> shift_once(c) ^ 0x04C1_1DB7 == 2 * c - 0x1_0000_0000,
        c ^ ((bits::byte_at(c, 3) as u32) << 24u32) == c % 0x100_0000,
{
    assert((c < 0x8000_0000 ==> c & 0x8000_0000 == 0 && c << 1u32 == 2 * c) && (c >= 0x8000_0000
        ==> c & 0x8000_0000 != 0 && ((c << 1u32) ^ 0x04C1_1DB7u32) ^ 0x04C1_1DB7 == 2 * c
        - 0x1_0000_0000) && c ^ ((((c >> 24u32) as u8) as u32) << 24u32) == c % 0x100_0000)
        by (bit_vector);
}

/// One step of the register doubles it; where the highest bit falls out, the polynomial
/// x^26 + x^23 + x^22 + x^16 + x^12 + x^11 + x^10 + x^8 + x^7 + x^5 + x^4 + x^2 + x + 1 comes in
/// for it. A fresh unit and one that was told to start anew hold all ones.
pub proof fn law_register_steps(s: CrcView, c: u32, value: u32)
    requires
        s.wf(),
    ensures
        c < 0x8000_0000 ==> shifted(c, 1) == 2 * c,
        c >= 0x8000_0000 ==> shifted(c, 1) ^ 0x04C1_1DB7 == 2 * c - 0x1_0000_0000,
        CrcView::fresh().read(0, 4) == Ok::<u32, BusError>(0xFFFF_FFFF),
        value & 1 != 0 ==> s.write(8, 4, value).0.read(0, 4) == Ok::<u32, BusError>(0xFFFF_FFFF),
        value & 1 == 0 ==> s.write(8, 4, value).0.read(0, 4) == s.read(0, 4),
        s.write(4, 4, value).0.read(4, 4) == Ok::<u32, BusError>(value & 0xFF),
        s.write(4, 4, value).0.read(0, 4) == s.read(0, 4),
        s.write(0, 4, value).0.read(4, 4) == s.read(4, 4),
        s.write(8, 4, value).0.read(4, 4) == s.read(4, 4),
{
    reveal_with_fuel(shifted, 2);
    lemma_register_bits(c);
    bits::lemma_mask(value, 0xFF);
}

proof fn lemma_small_shift(c: u32)
    requires
        c < 0x100_0000,
    ensures
        shifted(c, 8) == 256 * c,
{
    reveal_with_fuel(shifted, 9);
    lemma_register_bits(c);
    lemma_register_bits((2 * c) as u32);
    lemma_register_bits((4 * c) as u32);
    lemma_register_bits((8 * c) as u32);
    lemma_register_bits((16 * c) as u32);
    lemma_register_bits((32 * c) as u32);
    lemma_register_bits((64 * c) as u32);
    lemma_register_bits((128 * c) as u32);
}

/// Feeding the highest byte of the register shifts it out.
proof fn lemma_highest_byte_goes(r: u32, b0: u8, b1: u8, b2: u8, b3: u8)
    requires
        r == b0 + 0x100 * b1 + 0x1_0000 * b2 + 0x100_0000 * b3,
    ensures
        crc_byte(r, b3) == 0x100 * b0 + 0x1_0000 * b1 + 0x100_0000 * b2,
{
    bits::law_bytes_are_digits(r, 0, 0, 0, 0);
    assert(r / 0x100_0000 == b3 && r % 0x100_0000 == b0 + 0x100 * b1 + 0x1_0000 * b2);
    lemma_register_bits(r);
    lemma_small_shift(r % 0x100_0000);
}

/// A message that is followed by its own remainder, highest byte first, has the remainder zero:
/// the word that is read, written back, clears the register.
pub proof fn law_remainder_cancels(s: CrcView)
    requires
        s.wf(),
    ensures
        s.write(0, 4, s.crc).0.read(0, 4) == Ok::<u32, BusError>(0),
{
    let r = s.crc;
    let (b3, b2, b1, b0) = (
        bits::byte_at(r, 3),
        bits::byte_at(r, 2),
        bits::byte_at(r, 1),
        bits::byte_at(r, 0),
    );
    bits::lemma_word_of_bytes(r);
    bits::law_bytes_are_digits(r, b0, b1, b2, b3);
    lemma_crc_short(r, b3, b2, b1, b0);
    lemma_highest_byte_goes(r, b0, b1, b2, b3);
    let r1 = crc_byte(r, b3);
    lemma_highest_byte_goes(r1, 0, b0, b1, b2);
    let r2 = crc_byte(r1, b2);
    lemma_highest_byte_goes(r2, 0, 0, b0, b1);
    let r3 = crc_byte(r2, b1);
    lemma_highest_byte_goes(r3, 0, 0, 0, b0);
}

} // verus!
