//! The peripherals, and the interface that they share.
use crate::wires::{Wires, WiresView};
use vstd::prelude::*;

pub mod adc;
pub mod calendar;
pub mod can;
pub mod console;
pub mod crc;
pub mod dac;
pub mod dcmi;
pub mod dma;
pub mod dwt;
pub mod exti;
pub mod flash;
pub mod fsmc;
pub mod gpio;
pub mod i2c;
pub mod mpu;
pub mod nvic;
pub mod pwr;
pub mod rcc;
pub mod rng;
pub mod rtc;
pub mod scb;
pub mod sdio;
pub mod spi;
pub mod syscfg;
pub mod terminal;
pub mod wdog;

verus! {

/// Why an access was refused.
#[derive(Debug, Clone, Copy, PartialEq, Eq, Structural)]
pub enum BusError {
    /// No device answers at this address.
    Unmapped(u32),
    /// The offset is outside the device's registers.
    OutOfRange,
    /// The region overlaps one that is already there.
    Overlap,
    /// The device does not offer this access.
    NotImplemented,
}

/// The interface of a device on the memory bus.
///
/// The spec functions give the device as a transition system over its state and the wires:
/// which accesses it serves, the next state, what happens on the wires, and the answer.
pub trait Peripheral: View + Sized {
    /// What holds of every state that the device reaches.
    spec fn inv(s: Self::V) -> bool;

    /// May the register at `offset` be read with this width?
    spec fn readable(s: Self::V, w: WiresView, offset: u32, size: u32) -> bool;

    spec fn read_of(s: Self::V, w: WiresView, offset: u32, size: u32) -> (Self::V, WiresView, Result<u32, BusError>);

    /// May `value` be written to the register at `offset` with this width?
    spec fn writable(s: Self::V, w: WiresView, offset: u32, size: u32, value: u32) -> bool;

    spec fn write_of(s: Self::V, w: WiresView, offset: u32, size: u32, value: u32) -> (Self::V, WiresView, Result<(), BusError>);

    spec fn reset_of(s: Self::V, w: WiresView) -> (Self::V, WiresView);

    /// May the device advance by this many cycles?
    spec fn tickable(s: Self::V, w: WiresView, cycles: u64) -> bool;

    spec fn tick_of(s: Self::V, w: WiresView, cycles: u64) -> (Self::V, WiresView);

    spec fn label(s: Self::V) -> Seq<char>;

    /// The name of the device.
    fn name(&self) -> (r: &str)
        ensures
            r@ == Self::label(self@),
    ;

    /// Reads a register; `size` is the width in bytes.
    fn read(&mut self, w: &mut Wires, offset: u32, size: u32) -> (r: Result<u32, BusError>)
        requires
            Self::inv(old(self)@),
            old(w)@.wf(),
            Self::readable(old(self)@, old(w)@, offset, size),
        ensures
            Self::inv(final(self)@),
            (final(self)@, final(w)@, r) == Self::read_of(old(self)@, old(w)@, offset, size),
    ;

    /// Writes a register; `size` is the width in bytes.
    fn write(&mut self, w: &mut Wires, offset: u32, size: u32, value: u32) -> (r: Result<(), BusError>)
        requires
            Self::inv(old(self)@),
            old(w)@.wf(),
            Self::writable(old(self)@, old(w)@, offset, size, value),
        ensures
            Self::inv(final(self)@),
            (final(self)@, final(w)@, r) == Self::write_of(old(self)@, old(w)@, offset, size, value),
    ;

    /// Brings the device back to its reset state.
    fn reset(&mut self, w: &mut Wires)
        requires
            Self::inv(old(self)@),
            old(w)@.wf(),
        ensures
            Self::inv(final(self)@),
            (final(self)@, final(w)@) == Self::reset_of(old(self)@, old(w)@),
    ;

    /// Advances the device by a number of clock cycles.
    fn tick(&mut self, w: &mut Wires, cycles: u64)
        requires
            Self::inv(old(self)@),
            old(w)@.wf(),
            Self::tickable(old(self)@, old(w)@, cycles),
        ensures
            Self::inv(final(self)@),
            (final(self)@, final(w)@) == Self::tick_of(old(self)@, old(w)@, cycles),
    ;

    /// The interrupt line that the device itself holds up; the devices here raise their lines
    /// on the wires instead.
    fn irq_line(&self) -> (r: Option<u32>)
        ensures
            r is None,
    {
        None
    }
}

} // verus!
