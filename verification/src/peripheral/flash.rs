//! The controller of the built-in flash.
//!
//! A register file: the status register never shows an error and is never busy, the key
//! registers take their unlock sequences without effect, and of the control register only the
//! programming and sector-erase bits stay.
//!
//! Offsets: ACR 0x00, KEYR 0x04, OPTKEYR 0x08, SR 0x0C, CR 0x10.
use crate::peripheral::{BusError, Peripheral};
use crate::wires::{Wires, WiresView};
use vstd::prelude::*;

verus! {

pub const OFF_ACR: u32 = 0x00;

pub const OFF_KEYR: u32 = 0x04;

pub const OFF_OPTKEYR: u32 = 0x08;

pub const OFF_SR: u32 = 0x0C;

pub const OFF_CR: u32 = 0x10;

pub const SR_BSY: u32 = 0x1_0000;

/// The control bits that stay: PG and SER.
pub const CR_KEPT: u32 = 0x3;

/// Flash controller.
pub struct Flash {
    regs: [u32; 5],
}


impl View for Flash {
    type V = Seq<u32>;

    closed spec fn view(&self) -> Seq<u32> {
        self.regs@
    }
}

/// The registers after a reset.
pub open spec fn reset_registers() -> Seq<u32> {
    seq![0x0000_0400u32, 0u32, 0u32, 0u32, 0u32]
}

impl Flash {
    pub fn new() -> (r: Self)
        ensures
            r@ == reset_registers(),
    {
        let r = Flash { regs: [0x0000_0400, 0, 0, 0, 0] };
        assert(r@ =~= reset_registers());
        r
    }

    /// The status register.
    pub fn sr(&self) -> (r: u32)
        requires
            self@.len() == 5,
        ensures
            r == self@[3],
    {
        self.regs[3]
    }
}

/// The busy bit of the status register.
pub fn sr_bsy() -> (r: u32)
    ensures
        r == SR_BSY,
{
    SR_BSY
}

impl Peripheral for Flash {
    /// The status register stays at zero.
    open spec fn inv(s: Seq<u32>) -> bool {
        s.len() == 5 && s[3] == 0
    }

    open spec fn readable(s: Seq<u32>, w: WiresView, offset: u32, size: u32) -> bool {
        true
    }

    open spec fn read_of(s: Seq<u32>, w: WiresView, offset: u32, size: u32) -> (
        Seq<u32>,
        WiresView,
        Result<u32, BusError>,
    ) {
        (
            s,
            w,
            if size != 4 {
                Err(BusError::NotImplemented)
            } else if offset == OFF_ACR || offset == OFF_SR || offset == OFF_CR {
                Ok(s[offset as int / 4])
            } else if offset == OFF_KEYR || offset == OFF_OPTKEYR {
                Ok(0u32)
            } else {
                Err(BusError::OutOfRange)
            },
        )
    }

    open spec fn writable(s: Seq<u32>, w: WiresView, offset: u32, size: u32, value: u32) -> bool {
        true
    }

    open spec fn write_of(s: Seq<u32>, w: WiresView, offset: u32, size: u32, value: u32) -> (
        Seq<u32>,
        WiresView,
        Result<(), BusError>,
    ) {
        if size != 4 {
            (s, w, Err(BusError::NotImplemented))
        } else if offset == OFF_ACR {
            (s.update(0, value & 0x1F), w, Ok(()))
        } else if offset == OFF_KEYR || offset == OFF_OPTKEYR || offset == OFF_SR {
            (s, w, Ok(()))
        } else if offset == OFF_CR {
            (s.update(4, value & CR_KEPT), w, Ok(()))
        } else {
            (s, w, Err(BusError::OutOfRange))
        }
    }

    open spec fn reset_of(s: Seq<u32>, w: WiresView) -> (Seq<u32>, WiresView) {
        (reset_registers(), w)
    }

    open spec fn tickable(s: Seq<u32>, w: WiresView, cycles: u64) -> bool {
        true
    }

    open spec fn tick_of(s: Seq<u32>, w: WiresView, cycles: u64) -> (Seq<u32>, WiresView) {
        (s, w)
    }

    open spec fn label(s: Seq<u32>) -> Seq<char> {
        "FLASH"@
    }

    fn name(&self) -> &str {
        "FLASH"
    }

    fn read(&mut self, w: &mut Wires, offset: u32, size: u32) -> Result<u32, BusError> {
        if size != 4 {
            return Err(BusError::NotImplemented);
        }
        match offset {
            OFF_ACR => Ok(self.regs[0]),
            OFF_SR => Ok(self.regs[3]),
            OFF_CR => Ok(self.regs[4]),
            OFF_KEYR | OFF_OPTKEYR => Ok(0),
            _ => Err(BusError::OutOfRange),
        }
    }

    fn write(&mut self, w: &mut Wires, offset: u32, size: u32, value: u32) -> Result<(), BusError> {
        if size != 4 {
            return Err(BusError::NotImplemented);
        }
        match offset {
            OFF_ACR => {
                self.regs[0] = value & 0x1F;
                Ok(())
            },
            OFF_KEYR | OFF_OPTKEYR | OFF_SR => Ok(()),
            OFF_CR => {
                self.regs[4] = value & CR_KEPT;
                Ok(())
            },
            _ => Err(BusError::OutOfRange),
        }
    }

    fn reset(&mut self, w: &mut Wires) {
        self.regs = [0x0000_0400, 0, 0, 0, 0];
        assert(self@ =~= reset_registers());
    }

    fn tick(&mut self, w: &mut Wires, cycles: u64) {
    }
}

/// Whatever is written, the status register reads as zero: no error, and never busy.
pub proof fn law_never_busy(s: Seq<u32>, w: WiresView, offset: u32, size: u32, value: u32)
    requires
        Flash::inv(s),
    ensures
        Flash::read_of(Flash::write_of(s, w, offset, size, value).0, w, OFF_SR, 4).2 == Ok::<
            u32,
            BusError,
        >(0),
{
}

/// The access control register keeps its low five bits, the control register its low two, and the
/// keys are not shown. No write changes a register that it does not name.
pub proof fn law_flash_registers(s: Seq<u32>, w: WiresView, value: u32)
    requires
        Flash::inv(s),
    ensures
        Flash::read_of(Flash::write_of(s, w, 0, 4, value).0, w, 0, 4).2 == Ok::<u32, BusError>(
            value & 0x1F,
        ),
        Flash::read_of(Flash::write_of(s, w, 0x10, 4, value).0, w, 0x10, 4).2 == Ok::<u32, BusError>(
            value & 3,
        ),
        Flash::write_of(s, w, 0, 4, value).0[4] == s[4],
        Flash::write_of(s, w, 0x10, 4, value).0[0] == s[0],
        Flash::write_of(s, w, 4, 4, value).0 == s,
        Flash::write_of(s, w, 8, 4, value).0 == s,
        Flash::write_of(s, w, 0xC, 4, value).0 == s,
        Flash::read_of(s, w, 4, 4).2 == Ok::<u32, BusError>(0),
        Flash::read_of(s, w, 8, 4).2 == Ok::<u32, BusError>(0),
{
}

} // verus!
