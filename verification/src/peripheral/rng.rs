//! The random number generator.
//!
//! A deterministic xorshift sequence: the same seed gives the same numbers. While enabled and
//! free of errors, a number is always ready; reading it makes the next one. Errors are
//! injected from outside and raise interrupt 80 if it is enabled.
//!
//! Offsets: CR 0x00, SR 0x04, DR 0x08.
use crate::peripheral::{BusError, Peripheral};
use crate::wires::{Wires, WiresView};
use vstd::prelude::*;

verus! {

pub const RNG_IRQ: u32 = 80;

pub const OFF_CR: u32 = 0x00;

pub const OFF_SR: u32 = 0x04;

pub const OFF_DR: u32 = 0x08;

pub const CR_RNGEN: u32 = 0x4;

pub const CR_IE: u32 = 0x8;

/// The control bits that can be written.
pub const CR_WMASK: u32 = 0xC;

pub const SR_DRDY: u32 = 0x1;

pub const SR_CECS: u32 = 0x2;

pub const SR_SECS: u32 = 0x4;

/// Either error.
pub const SR_ERRORS: u32 = 0x6;

/// The seed in use: the sequence never starts at zero.
pub open spec fn seed_of(seed: u32) -> u32 {
    if seed == 0 {
        0x9E37_79B9
    } else {
        seed
    }
}

/// The successor in the xorshift sequence.
pub open spec fn successor(x: u32) -> u32 {
    let a = x ^ (x << 13u32);
    let b = a ^ (a >> 17u32);
    b ^ (b << 5u32)
}

fn normalize(seed: u32) -> (r: u32)
    ensures
        r == seed_of(seed),
{
    if seed == 0 {
        0x9E37_79B9
    } else {
        seed
    }
}

fn next(x: u32) -> (r: u32)
    ensures
        r == successor(x),
{
    let a = x ^ (x << 13u32);
    let b = a ^ (a >> 17u32);
    b ^ (b << 5u32)
}

/// Random number generator.
pub struct Rng {
    irq: u32,
    cr: u32,
    sr: u32,
    dr: u32,
    state: u32,
    seed: u32,
}

/// The state of the generator.
#[verifier::ext_equal]
pub struct RngView {
    pub irq: u32,
    pub cr: u32,
    pub sr: u32,
    /// The number that is ready.
    pub dr: u32,
    /// The place in the sequence.
    pub state: u32,
    pub seed: u32,
}

impl View for Rng {
    type V = RngView;

    closed spec fn view(&self) -> RngView {
        RngView {
            irq: self.irq,
            cr: self.cr,
            sr: self.sr,
            dr: self.dr,
            state: self.state,
            seed: self.seed,
        }
    }
}

impl RngView {
    pub open spec fn fresh(seed: u32, irq: u32) -> RngView {
        RngView { irq, cr: 0, sr: 0, dr: 0, state: seed_of(seed), seed: seed_of(seed) }
    }

    /// The sequence is never at zero.
    pub open spec fn wf(self) -> bool {
        self.irq < 96 && self.state != 0 && self.seed != 0
    }

    pub open spec fn enabled(self) -> bool {
        self.cr & CR_RNGEN != 0
    }

    pub open spec fn faulty(self) -> bool {
        self.sr & SR_ERRORS != 0
    }

    /// The next number of the sequence becomes ready.
    pub open spec fn produced(self) -> RngView {
        RngView {
            dr: successor(self.state),
            state: successor(self.state),
            sr: self.sr | SR_DRDY,
            ..self
        }
    }

    /// An error appears or goes away.
    pub open spec fn with_error(self, w: WiresView, flag: u32, on: bool) -> (RngView, WiresView) {
        let s = RngView {
            sr: if on {
                self.sr | flag
            } else {
                self.sr & !flag
            },
            ..self
        };
        (s, w.pend_if(s.cr & CR_IE != 0 && s.faulty(), s.irq))
    }

    pub open spec fn set_seed(self, seed: u32) -> RngView {
        let s = RngView { seed: seed_of(seed), state: seed_of(seed), ..self };
        if s.enabled() {
            s.produced()
        } else {
            s
        }
    }

    pub open spec fn read(self, offset: u32, size: u32) -> (RngView, Result<u32, BusError>) {
        if size != 4 {
            (self, Err(BusError::NotImplemented))
        } else if offset == OFF_CR {
            (self, Ok(self.cr))
        } else if offset == OFF_SR {
            (self, Ok(self.sr))
        } else if offset == OFF_DR {
            let s = RngView { sr: self.sr & !SR_DRDY, ..self };
            (
                if s.enabled() && !s.faulty() {
                    s.produced()
                } else {
                    s
                },
                Ok(self.dr),
            )
        } else {
            (self, Err(BusError::OutOfRange))
        }
    }

    pub open spec fn write(self, offset: u32, size: u32, value: u32) -> (RngView, Result<
        (),
        BusError,
    >) {
        if size != 4 {
            (self, Err(BusError::NotImplemented))
        } else if offset == OFF_CR {
            let s = RngView { cr: value & CR_WMASK, ..self };
            (
                if !self.enabled() && s.enabled() {
                    if s.faulty() {
                        s
                    } else {
                        s.produced()
                    }
                } else if self.enabled() && !s.enabled() {
                    RngView { sr: s.sr & !SR_DRDY, ..s }
                } else {
                    s
                },
                Ok(()),
            )
        } else if offset == OFF_SR || offset == OFF_DR {
            (self, Ok(()))
        } else {
            (self, Err(BusError::OutOfRange))
        }
    }
}

/// The sequence never reaches zero.
pub proof fn law_sequence_avoids_zero(x: u32)
    requires
        x != 0,
    ensures
        successor(x) != 0,
{
    let a = x ^ (x << 13u32);
    let b = a ^ (a >> 17u32);
    let c = b ^ (b << 5u32);
    assert((x != 0 ==> x ^ (x << 13u32) != 0) && (a != 0 ==> a ^ (a >> 17u32) != 0) && (b != 0
        ==> b ^ (b << 5u32) != 0)) by (bit_vector);
}

impl Rng {
    pub fn new(seed: u32, irq: u32) -> (r: Self)
        requires
            irq < 96,
        ensures
            r@ == RngView::fresh(seed, irq),
            r@.wf(),
    {
        let seed = normalize(seed);
        Rng { irq, cr: 0, sr: 0, dr: 0, state: seed, seed }
    }

    fn produce(&mut self)
        requires
            old(self)@.wf(),
        ensures
            final(self)@ == old(self)@.produced(),
            final(self)@.wf(),
    {
        proof {
            law_sequence_avoids_zero(self.state);
        }
        self.state = next(self.state);
        self.dr = self.state;
        self.sr = self.sr | SR_DRDY;
    }

    fn check_error_irq(&self, w: &mut Wires)
        requires
            self@.wf(),
        ensures
            final(w)@ == old(w)@.pend_if(self@.cr & CR_IE != 0 && self@.faulty(), self@.irq),
    {
        if self.cr & CR_IE != 0 && self.sr & SR_ERRORS != 0 {
            w.pend(self.irq);
        }
    }

    /// The clock fails, or recovers.
    pub fn inject_clock_error(&mut self, w: &mut Wires, on: bool)
        requires
            old(self)@.wf(),
        ensures
            final(self)@.wf(),
            (final(self)@, final(w)@) == old(self)@.with_error(old(w)@, SR_CECS, on),
    {
        if on {
            self.sr = self.sr | SR_CECS;
        } else {
            self.sr = self.sr & !SR_CECS;
        }
        self.check_error_irq(w);
    }

    /// The entropy source fails, or recovers.
    pub fn inject_seed_error(&mut self, w: &mut Wires, on: bool)
        requires
            old(self)@.wf(),
        ensures
            final(self)@.wf(),
            (final(self)@, final(w)@) == old(self)@.with_error(old(w)@, SR_SECS, on),
    {
        if on {
            self.sr = self.sr | SR_SECS;
        } else {
            self.sr = self.sr & !SR_SECS;
        }
        self.check_error_irq(w);
    }

    /// Starts the sequence anew; if enabled, its first number is ready at once.
    pub fn set_seed(&mut self, seed: u32)
        requires
            old(self)@.wf(),
        ensures
            final(self)@.wf(),
            final(self)@ == old(self)@.set_seed(seed),
    {
        self.seed = normalize(seed);
        self.state = self.seed;
        if self.cr & CR_RNGEN != 0 {
            self.produce();
        }
    }
}

impl Peripheral for Rng {
    open spec fn inv(s: RngView) -> bool {
        s.wf()
    }

    open spec fn readable(s: RngView, w: WiresView, offset: u32, size: u32) -> bool {
        true
    }

    open spec fn read_of(s: RngView, w: WiresView, offset: u32, size: u32) -> (
        RngView,
        WiresView,
        Result<u32, BusError>,
    ) {
        let (s1, r) = s.read(offset, size);
        (s1, w, r)
    }

    open spec fn writable(s: RngView, w: WiresView, offset: u32, size: u32, value: u32) -> bool {
        true
    }

    open spec fn write_of(s: RngView, w: WiresView, offset: u32, size: u32, value: u32) -> (
        RngView,
        WiresView,
        Result<(), BusError>,
    ) {
        let (s1, r) = s.write(offset, size, value);
        (s1, w, r)
    }

    open spec fn reset_of(s: RngView, w: WiresView) -> (RngView, WiresView) {
        (RngView::fresh(s.seed, s.irq), w)
    }

    open spec fn tickable(s: RngView, w: WiresView, cycles: u64) -> bool {
        true
    }

    open spec fn tick_of(s: RngView, w: WiresView, cycles: u64) -> (RngView, WiresView) {
        (s, w)
    }

    open spec fn label(s: RngView) -> Seq<char> {
        "RNG"@
    }

    fn name(&self) -> &str {
        "RNG"
    }

    fn read(&mut self, w: &mut Wires, offset: u32, size: u32) -> Result<u32, BusError> {
        if size != 4 {
            return Err(BusError::NotImplemented);
        }
        match offset {
            OFF_CR => Ok(self.cr),
            OFF_SR => Ok(self.sr),
            OFF_DR => {
                let v = self.dr;
                self.sr = self.sr & !SR_DRDY;
                if self.cr & CR_RNGEN != 0 && self.sr & SR_ERRORS == 0 {
                    self.produce();
                }
                Ok(v)
            },
            _ => Err(BusError::OutOfRange),
        }
    }

    fn write(&mut self, w: &mut Wires, offset: u32, size: u32, value: u32) -> Result<(), BusError> {
        if size != 4 {
            return Err(BusError::NotImplemented);
        }
        match offset {
            OFF_CR => {
                let was_on = self.cr & CR_RNGEN != 0;
                self.cr = value & CR_WMASK;
                let on = self.cr & CR_RNGEN != 0;
                if !was_on && on {
                    if self.sr & SR_ERRORS == 0 {
                        self.produce();
                    }
                } else if was_on && !on {
                    self.sr = self.sr & !SR_DRDY;
                }
                Ok(())
            },
            OFF_SR | OFF_DR => Ok(()),
            _ => Err(BusError::OutOfRange),
        }
    }

    fn reset(&mut self, w: &mut Wires) {
        self.cr = 0;
        self.sr = 0;
        self.dr = 0;
        self.state = self.seed;
    }

    fn tick(&mut self, w: &mut Wires, cycles: u64) {
    }
}

/// That a number is taken, or becomes ready, is no error.
proof fn lemma_flags(x: u32)
    ensures
        x & SR_ERRORS == 0 ==> (x & !SR_DRDY) & SR_ERRORS == 0 && ((x & !SR_DRDY) | SR_DRDY)
            & SR_ERRORS == 0 && (x | SR_DRDY) & SR_ERRORS == 0,
        (x | SR_DRDY) & SR_DRDY != 0,
        ((x & !SR_DRDY) | SR_DRDY) & SR_DRDY != 0,
{
    assert((x & 6 == 0 ==> (x & !1u32) & 6 == 0 && ((x & !1u32) | 1) & 6 == 0 && (x | 1) & 6 == 0)
        && (x | 1) & 1 != 0 && ((x & !1u32) | 1) & 1 != 0) by (bit_vector);
}

/// The numbers read one after the other are those of the sequence: what is ready is the
/// place that the sequence has reached, and a read moves it on by one.
pub proof fn law_reads_follow_the_sequence(s: RngView)
    requires
        s.wf(),
        s.enabled(),
        !s.faulty(),
        s.dr == s.state,
    ensures
        s.read(OFF_DR, 4).1 == Ok::<u32, BusError>(s.state),
        s.read(OFF_DR, 4).0.state == successor(s.state),
        s.read(OFF_DR, 4).0.dr == successor(s.state),
        s.read(OFF_DR, 4).0.sr & SR_DRDY != 0,
        s.read(OFF_DR, 4).0.enabled(),
        !s.read(OFF_DR, 4).0.faulty(),
        s.read(OFF_DR, 4).1 != s.read(OFF_DR, 4).0.read(OFF_DR, 4).1,
{
    let (x, n) = (s.sr, s.state);
    law_sequence_avoids_zero(n);
    lemma_flags(x);
    let a = n ^ (n << 13u32);
    let b = a ^ (a >> 17u32);
    let c = b ^ (b << 5u32);
    assert(n != 0 && a == n ^ (n << 13u32) && b == a ^ (a >> 17u32) && c == b ^ (b << 5u32) ==> c
        != n) by (bit_vector);
}

/// The answers of `n` reads of the data register in a row.
pub open spec fn numbers(s: RngView, n: nat) -> Seq<Result<u32, BusError>>
    decreases n,
{
    if n == 0 {
        Seq::empty()
    } else {
        seq![s.read(OFF_DR, 4).1] + numbers(s.read(OFF_DR, 4).0, (n - 1) as nat)
    }
}

/// The same control bits, flags, number and place give the same numbers from then on.
proof fn lemma_in_step(a: RngView, b: RngView, n: nat)
    requires
        a.cr == b.cr,
        a.sr == b.sr,
        a.dr == b.dr,
        a.state == b.state,
    ensures
        numbers(a, n) == numbers(b, n),
    decreases n,
{
    if n > 0 {
        lemma_in_step(a.read(OFF_DR, 4).0, b.read(OFF_DR, 4).0, (n - 1) as nat);
    }
}

/// Two generators with the same seed give the same numbers, however many are read.
pub proof fn law_same_seed_same_sequence(seed: u32, irq_a: u32, irq_b: u32, value: u32, n: nat)
    ensures
        numbers(RngView::fresh(seed, irq_a).write(OFF_CR, 4, value).0, n) == numbers(
            RngView::fresh(seed, irq_b).write(OFF_CR, 4, value).0,
            n,
        ),
{
    lemma_in_step(
        RngView::fresh(seed, irq_a).write(OFF_CR, 4, value).0,
        RngView::fresh(seed, irq_b).write(OFF_CR, 4, value).0,
        n,
    );
}

/// Two enabled generators without an error, with the same number ready and at the same place
/// in the sequence, give the same numbers from then on.
proof fn lemma_sequence_alone(a: RngView, b: RngView, n: nat)
    requires
        a.enabled() && !a.faulty(),
        b.enabled() && !b.faulty(),
        a.dr == b.dr,
        a.state == b.state,
    ensures
        numbers(a, n) == numbers(b, n),
    decreases n,
{
    lemma_flags(a.sr);
    lemma_flags(b.sr);
    if n > 0 {
        lemma_sequence_alone(a.read(OFF_DR, 4).0, b.read(OFF_DR, 4).0, (n - 1) as nat);
    }
}

/// A seed fixes the sequence, whatever went before: two enabled generators without an error
/// have a number ready once they are given the same seed, and give the same numbers from then
/// on.
pub proof fn law_seed_fixes_the_sequence(a: RngView, b: RngView, seed: u32, n: nat)
    requires
        a.enabled() && !a.faulty(),
        b.enabled() && !b.faulty(),
    ensures
        a.set_seed(seed).sr & SR_DRDY != 0,
        b.set_seed(seed).sr & SR_DRDY != 0,
        numbers(a.set_seed(seed), n) == numbers(b.set_seed(seed), n),
{
    lemma_flags(a.sr);
    lemma_flags(b.sr);
    lemma_sequence_alone(a.set_seed(seed), b.set_seed(seed), n);
}

/// A reset brings the generator back to the start of the sequence of its seed.
pub proof fn law_reset_restarts_the_sequence(s: RngView, w: WiresView)
    requires
        s.wf(),
    ensures
        Rng::reset_of(s, w).0 == RngView::fresh(s.seed, s.irq),
        Rng::reset_of(s, w).0.state == s.seed,
{
}

/// An error keeps the generator from making a number when it is enabled.
pub proof fn law_no_number_under_error(s: RngView, value: u32)
    requires
        s.faulty(),
        !s.enabled(),
    ensures
        s.write(OFF_CR, 4, value).0.dr == s.dr,
        s.write(OFF_CR, 4, value).0.sr == s.sr,
{
}

/// The generator multiplies, divides and multiplies again, each time by a power of two, and mixes
/// the result in.
pub proof fn law_sequence_steps(x: u32)
    ensures
        ({
            let a = x ^ (((x * 0x2000) % 0x1_0000_0000) as u32);
            let b = a ^ (a / 0x2_0000);
            successor(x) == b ^ (((b * 0x20) % 0x1_0000_0000) as u32)
        }),
        seed_of(0) == 0x9E37_79B9,
        x != 0 ==> seed_of(x) == x,
{
    let a = x ^ (x << 13u32);
    let b = a ^ (a >> 17u32);
    assert(x << 13u32 == (x * 0x2000) % 0x1_0000_0000 && a >> 17u32 == a / 0x2_0000 && b << 5u32
        == (b * 0x20) % 0x1_0000_0000) by (bit_vector);
}

/// Enabling the generator makes a number ready, disabling it takes the sign of it away. Either
/// error raises the line if bit 3 of the control register allows it, keeps numbers from being
/// made, and is gone when it is said to be.
pub proof fn law_switch_and_errors(s: RngView, w: WiresView, value: u32, on: bool)
    requires
        s.wf(),
    ensures
        ({
            let t = s.write(0, 4, value).0;
            &&& t.cr == value & 0xC
            &&& s.cr & 4 == 0 && value & 4 != 0 && s.sr & 6 == 0 ==> t.sr & 1 != 0 && t.dr
                == successor(s.state) && t.state == successor(s.state)
            &&& s.cr & 4 != 0 && value & 4 == 0 ==> t.sr & 1 == 0 && t.state == s.state
            &&& s.write(4, 4, value).0 == s && s.write(8, 4, value).0 == s
        }),
        ({
            let (t, v) = s.with_error(w, 2, on);
            &&& (t.sr & 2 != 0) == on
            &&& t.sr & !2u32 == s.sr & !2u32
            &&& s.cr & 8 != 0 && on ==> v == w.pend_if(true, s.irq)
            &&& s.cr & 8 == 0 ==> v == w.pend_if(false, s.irq)
        }),
        ({
            let (t, v) = s.with_error(w, 4, on);
            &&& (t.sr & 4 != 0) == on
            &&& t.sr & !4u32 == s.sr & !4u32
            &&& s.cr & 8 != 0 && on ==> v == w.pend_if(true, s.irq)
            &&& s.cr & 8 == 0 ==> v == w.pend_if(false, s.irq)
        }),
{
    let (x, y) = (s.sr, value);
    crate::bits::lemma_mask(x, 2);
    crate::bits::lemma_mask(x, 4);
    crate::bits::lemma_mask(x, 1);
    assert((y & 0xC) & 4 == y & 4 && (x & !2u32) & !2u32 == x & !2u32 && (x & !4u32) & !4u32 == x
        & !4u32 && (x | 2) & 6 != 0 && (x | 4) & 6 != 0 && (x | 1) & 1 != 0 && (x | 2) & 2 != 0 && (
    x | 4) & 4 != 0) by (bit_vector);
}

} // verus!
