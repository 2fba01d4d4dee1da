//! The general-purpose input and output ports.
//!
//! A change of the output register is published for every pin that changes and is configured
//! as an output. The input register shows the output register.
//!
//! Offsets: MODER 0x00, OTYPER 0x04, OSPEEDR 0x08, PUPDR 0x0C, IDR 0x10, ODR 0x14, BSRR 0x18,
//! LCKR 0x1C, AFRL 0x20, AFRH 0x24.
use crate::bits;
use crate::events::Event;
use crate::peripheral::{BusError, Peripheral};
use crate::wires::{Wires, WiresView};
use vstd::prelude::*;

verus! {

/// The mode of a pin (two bits) that makes it an output.
pub const MODE_OUTPUT: u32 = 1;

pub const OFF_MODER: u32 = 0x00;

pub const OFF_PUPDR: u32 = 0x0C;

pub const OFF_IDR: u32 = 0x10;

pub const OFF_ODR: u32 = 0x14;

pub const OFF_BSRR: u32 = 0x18;

pub const OFF_AFRH: u32 = 0x24;

/// An input and output port.
pub struct Gpio {
    /// 0 for GPIOA, 1 for GPIOB, and so on.
    pub port: u8,
    regs: [u32; 10],
    odr: u32,
}

/// The state of a port.
#[verifier::ext_equal]
pub struct GpioView {
    pub port: u8,
    /// The register file, by offset divided by four.
    pub regs: Seq<u32>,
    /// The output level of each pin.
    pub odr: u32,
}

impl View for Gpio {
    type V = GpioView;

    closed spec fn view(&self) -> GpioView {
        GpioView { port: self.port, regs: self.regs@, odr: self.odr }
    }
}

/// The output register after a write to the set/reset register: the low half sets pins, the
/// high half resets pins and wins.
pub open spec fn bsrr_result(odr: u32, value: u32) -> u32 {
    (odr | (value & 0xFFFF)) & !(value >> 16u32)
}

impl GpioView {
    pub open spec fn fresh(port: u8) -> GpioView {
        GpioView { port, regs: Seq::new(10, |i: int| 0u32), odr: 0 }
    }

    pub open spec fn wf(self) -> bool {
        self.regs.len() == 10
    }

    pub open spec fn is_output(self, pin: int) -> bool {
        (self.regs[0] >> ((2 * pin) as u32)) & 0x3 == MODE_OUTPUT
    }

    /// Does pin `pin` announce the change to `new_odr`?
    pub open spec fn announces(self, new_odr: u32, pin: int) -> bool {
        bits::has_bit(self.odr ^ new_odr, pin) && self.is_output(pin)
    }

    /// The announcement of pin `pin`.
    pub open spec fn announcement(self, new_odr: u32, pin: int) -> Event {
        Event::GpioLevel { port: self.port, pin: pin as u8, level: bits::has_bit(new_odr, pin) }
    }

    /// The announcements of the first `n` pins, in order.
    pub open spec fn announced(self, w: WiresView, new_odr: u32, n: int) -> WiresView
        decreases n,
    {
        if n <= 0 {
            w
        } else {
            self.announced(w, new_odr, n - 1).publish_if(
                self.announces(new_odr, n - 1),
                self.announcement(new_odr, n - 1),
            )
        }
    }

    pub open spec fn apply_odr(self, w: WiresView, new_odr: u32) -> (GpioView, WiresView) {
        (GpioView { odr: new_odr, ..self }, self.announced(w, new_odr, 16))
    }

    pub open spec fn read(self, offset: u32, size: u32) -> Result<u32, BusError> {
        if size != 4 {
            Err(BusError::NotImplemented)
        } else if offset <= OFF_PUPDR {
            Ok(self.regs[offset as int / 4])
        } else if offset == OFF_IDR || offset == OFF_ODR {
            Ok(self.odr)
        } else if OFF_BSRR <= offset <= OFF_AFRH {
            Ok(0u32)
        } else {
            Err(BusError::OutOfRange)
        }
    }

    pub open spec fn write(self, w: WiresView, offset: u32, size: u32, value: u32) -> (
        GpioView,
        WiresView,
        Result<(), BusError>,
    ) {
        if size != 4 {
            (self, w, Err(BusError::NotImplemented))
        } else if offset <= OFF_PUPDR {
            (GpioView { regs: self.regs.update(offset as int / 4, value), ..self }, w, Ok(()))
        } else if offset == OFF_ODR {
            let (s, w1) = self.apply_odr(w, value);
            (s, w1, Ok(()))
        } else if offset == OFF_BSRR {
            let (s, w1) = self.apply_odr(w, bsrr_result(self.odr, value));
            (s, w1, Ok(()))
        } else {
            (self, w, Err(BusError::OutOfRange))
        }
    }
}

impl Gpio {
    pub fn new(port: u8) -> (r: Self)
        ensures
            r@ == GpioView::fresh(port),
            r@.wf(),
    {
        let r = Gpio { port, regs: bits::filled(0), odr: 0 };
        assert(r@ =~= GpioView::fresh(port));
        r
    }

    /// The output level of every pin.
    pub fn output_level(&self) -> (r: u32)
        ensures
            r == self@.odr,
    {
        self.odr
    }

    fn is_output(&self, pin: u32) -> (r: bool)
        requires
            pin < 16,
        ensures
            r == self@.is_output(pin as int),
    {
        (self.regs[0] >> (2 * pin)) & 0x3 == MODE_OUTPUT
    }

    fn apply_odr(&mut self, w: &mut Wires, new_odr: u32)
        requires
            old(self)@.wf(),
        ensures
            final(self)@.wf(),
            (final(self)@, final(w)@) == old(self)@.apply_odr(old(w)@, new_odr),
    {
        let changed = self.odr ^ new_odr;
        self.odr = new_odr;
        let mut pin: u32 = 0;
        while pin < 16
            invariant
                pin <= 16,
                self@ == (GpioView { odr: new_odr, ..old(self)@ }),
                changed == old(self)@.odr ^ new_odr,
                w@ == old(self)@.announced(old(w)@, new_odr, pin as int),
            decreases 16 - pin,
        {
            if changed & (1u32 << pin) != 0 && self.is_output(pin) {
                let level = new_odr & (1u32 << pin) != 0;
                w.publish(Event::GpioLevel { port: self.port, pin: pin as u8, level });
            }
            pin = pin + 1;
        }
    }
}

impl Peripheral for Gpio {
    open spec fn inv(s: GpioView) -> bool {
        s.wf()
    }

    open spec fn readable(s: GpioView, w: WiresView, offset: u32, size: u32) -> bool {
        true
    }

    open spec fn read_of(s: GpioView, w: WiresView, offset: u32, size: u32) -> (
        GpioView,
        WiresView,
        Result<u32, BusError>,
    ) {
        (s, w, s.read(offset, size))
    }

    open spec fn writable(s: GpioView, w: WiresView, offset: u32, size: u32, value: u32) -> bool {
        true
    }

    open spec fn write_of(s: GpioView, w: WiresView, offset: u32, size: u32, value: u32) -> (
        GpioView,
        WiresView,
        Result<(), BusError>,
    ) {
        s.write(w, offset, size, value)
    }

    open spec fn reset_of(s: GpioView, w: WiresView) -> (GpioView, WiresView) {
        (GpioView::fresh(s.port), w)
    }

    open spec fn tickable(s: GpioView, w: WiresView, cycles: u64) -> bool {
        true
    }

    open spec fn tick_of(s: GpioView, w: WiresView, cycles: u64) -> (GpioView, WiresView) {
        (s, w)
    }

    open spec fn label(s: GpioView) -> Seq<char> {
        "GPIO"@
    }

    fn name(&self) -> &str {
        "GPIO"
    }

    fn read(&mut self, w: &mut Wires, offset: u32, size: u32) -> Result<u32, BusError> {
        if size != 4 {
            return Err(BusError::NotImplemented);
        }
        if offset <= OFF_PUPDR {
            Ok(self.regs[(offset / 4) as usize])
        } else if offset == OFF_IDR || offset == OFF_ODR {
            Ok(self.odr)
        } else if offset >= OFF_BSRR && offset <= OFF_AFRH {
            Ok(0)
        } else {
            Err(BusError::OutOfRange)
        }
    }

    fn write(&mut self, w: &mut Wires, offset: u32, size: u32, value: u32) -> Result<(), BusError> {
        if size != 4 {
            return Err(BusError::NotImplemented);
        }
        if offset <= OFF_PUPDR {
            self.regs[(offset / 4) as usize] = value;
            Ok(())
        } else if offset == OFF_ODR {
            self.apply_odr(w, value);
            Ok(())
        } else if offset == OFF_BSRR {
            let new_odr = (self.odr | (value & 0xFFFF)) & !(value >> 16u32);
            self.apply_odr(w, new_odr);
            Ok(())
        } else {
            Err(BusError::OutOfRange)
        }
    }

    fn reset(&mut self, w: &mut Wires) {
        self.regs = bits::filled(0);
        self.odr = 0;
        assert(self@ =~= GpioView::fresh(old(self)@.port));
    }

    fn tick(&mut self, w: &mut Wires, cycles: u64) {
    }
}

/// The set/reset register resets the pins of its high half, sets those of its low half that it
/// does not reset, and leaves the other pins alone.
pub proof fn law_set_reset(odr: u32, value: u32, pin: int)
    requires
        0 <= pin < 16,
    ensures
        bits::has_bit(bsrr_result(odr, value), pin) == (!bits::has_bit(value, pin + 16) && (
        bits::has_bit(value, pin) || bits::has_bit(odr, pin))),
{
    let (p, q) = (pin as u32, (pin + 16) as u32);
    assert(p < 16 && q == p + 16 ==> ((((odr | (value & 0xFFFF)) & !(value >> 16u32)) & (1u32 << p)
        != 0) == (value & (1u32 << q) == 0 && (value & (1u32 << p) != 0 || odr & (1u32 << p)
        != 0)))) by (bit_vector);
}

/// Writing the level that is already there announces nothing.
pub proof fn law_same_level_is_silent(s: GpioView, w: WiresView, n: int)
    requires
        n <= 16,
    ensures
        s.announced(w, s.odr, n) == w,
    decreases n,
{
    if n > 0 {
        law_same_level_is_silent(s, w, n - 1);
        let (x, p) = (s.odr, (n - 1) as u32);
        assert((x ^ x) & (1u32 << p) == 0) by (bit_vector);
    }
}

/// A pin that is no output announces nothing, whatever is written.
pub proof fn law_inputs_are_silent(s: GpioView, w: WiresView, new_odr: u32, n: int)
    requires
        n <= 16,
        forall|pin: int| 0 <= pin < 16 ==> !#[trigger] s.is_output(pin),
    ensures
        s.announced(w, new_odr, n) == w,
    decreases n,
{
    if n > 0 {
        law_inputs_are_silent(s, w, new_odr, n - 1);
    }
}

/// What is written to the output register is read back from both data registers.
pub proof fn law_output_reads_back(s: GpioView, w: WiresView, value: u32)
    requires
        s.wf(),
    ensures
        s.write(w, OFF_ODR, 4, value).0.read(OFF_ODR, 4) == Ok::<u32, BusError>(value),
        s.write(w, OFF_ODR, 4, value).0.read(OFF_IDR, 4) == Ok::<u32, BusError>(value),
{
}

/// A change of one output pin is announced once, with the port, the pin and the new level; bits
/// 2p and 2p + 1 of the mode register make pin p an output if they hold 1.
pub proof fn law_a_changed_output_is_announced(
    s: GpioView,
    w: WiresView,
    new_odr: u32,
    pin: int,
    n: int,
)
    requires
        s.wf(),
        0 <= pin < 16,
        0 <= n <= 16,
        (s.regs[0] >> ((2 * pin) as u32)) & 3 == 1,
        bits::has_bit(s.odr, pin) != bits::has_bit(new_odr, pin),
        forall|q: int|
            0 <= q < 16 && q != pin ==> #[trigger] bits::has_bit(s.odr, q) == bits::has_bit(
                new_odr,
                q,
            ),
    ensures
        s.announced(w, new_odr, n) == if pin < n {
            w.publish(
                Event::GpioLevel {
                    port: s.port,
                    pin: pin as u8,
                    level: bits::has_bit(new_odr, pin),
                },
            )
        } else {
            w
        },
    decreases n,
{
    if n > 0 {
        law_a_changed_output_is_announced(s, w, new_odr, pin, n - 1);
        bits::lemma_bits_of_sets(s.odr, new_odr, n - 1);
        assert(n - 1 != pin ==> bits::has_bit(s.odr, n - 1) == bits::has_bit(new_odr, n - 1));
    }
}

/// A pin announces its level exactly if it is an output and the level changes; a write leaves the
/// output register as written, whatever is announced.
pub proof fn law_who_announces(s: GpioView, w: WiresView, value: u32, pin: int)
    requires
        s.wf(),
        0 <= pin < 16,
    ensures
        s.announces(value, pin) <==> bits::has_bit(s.odr, pin) != bits::has_bit(value, pin) && (
        s.regs[0] >> ((2 * pin) as u32)) & 3 == 1,
        s.write(w, 0x14, 4, value).0.odr == value,
        s.write(w, 0x14, 4, value).0.regs == s.regs,
        s.write(w, 0x18, 4, value).0.odr == bsrr_result(s.odr, value),
{
    bits::lemma_bits_of_sets(s.odr, value, pin);
}

/// The configuration registers read back what was written to them, each on its own, and writing
/// them moves no pin.
pub proof fn law_configuration_reads_back(s: GpioView, w: WiresView, i: u32, j: u32, value: u32)
    requires
        s.wf(),
        i < 4,
        j < 4,
    ensures
        ({
            let (t, v, r) = s.write(w, (4 * i) as u32, 4, value);
            &&& r is Ok && v == w && t.odr == s.odr
            &&& t.read((4 * j) as u32, 4) == if i == j {
                Ok::<u32, BusError>(value)
            } else {
                s.read((4 * j) as u32, 4)
            }
        }),
{
}

} // verus!
