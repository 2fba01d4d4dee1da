//! The cycle counter of the data watchpoint and trace unit.
//!
//! CTRL (0x00) has one bit, which lets the counter run. CYCCNT (0x04) shows the low half of
//! the count; writing it sets the count. The other registers read as zero.
use crate::peripheral::{BusError, Peripheral};
use crate::wires::{Wires, WiresView};
use vstd::prelude::*;

verus! {

pub const OFF_CTRL: u32 = 0x00;

pub const OFF_CYCCNT: u32 = 0x04;

pub const CYCCNTENA: u32 = 0x1;

/// Cycle counter.
pub struct Dwt {
    ctrl: u32,
    cyccnt: u64,
    active: bool,
}

/// The state of the counter.
#[verifier::ext_equal]
pub struct DwtView {
    pub ctrl: u32,
    pub cyccnt: u64,
    /// Does the counter run?
    pub active: bool,
}

impl View for Dwt {
    type V = DwtView;

    closed spec fn view(&self) -> DwtView {
        DwtView { ctrl: self.ctrl, cyccnt: self.cyccnt, active: self.active }
    }
}

impl DwtView {
    pub open spec fn fresh() -> DwtView {
        DwtView { ctrl: 0, cyccnt: 0, active: false }
    }

    /// The activity flag follows the control bit.
    pub open spec fn wf(self) -> bool {
        self.active == (self.ctrl & CYCCNTENA != 0)
    }

    /// The register that shows the count.
    pub open spec fn shown(self) -> u32 {
        self.cyccnt as u32
    }
}

impl Dwt {
    pub fn new() -> (r: Self)
        ensures
            r@ == DwtView::fresh(),
            r@.wf(),
    {
        proof {
            crate::bits::lemma_mask(CYCCNTENA, 0);
        }
        Dwt { ctrl: 0, cyccnt: 0, active: false }
    }

    /// Does the counter run?
    pub fn active(&self) -> (r: bool)
        ensures
            r == self@.active,
    {
        self.active
    }
}

impl Peripheral for Dwt {
    open spec fn inv(s: DwtView) -> bool {
        s.wf()
    }

    open spec fn readable(s: DwtView, w: WiresView, offset: u32, size: u32) -> bool {
        true
    }

    open spec fn read_of(s: DwtView, w: WiresView, offset: u32, size: u32) -> (
        DwtView,
        WiresView,
        Result<u32, BusError>,
    ) {
        (
            s,
            w,
            if size != 4 {
                Err(BusError::NotImplemented)
            } else if offset == OFF_CTRL {
                Ok(s.ctrl)
            } else if offset == OFF_CYCCNT {
                Ok(s.shown())
            } else {
                Ok(0u32)
            },
        )
    }

    open spec fn writable(s: DwtView, w: WiresView, offset: u32, size: u32, value: u32) -> bool {
        true
    }

    open spec fn write_of(s: DwtView, w: WiresView, offset: u32, size: u32, value: u32) -> (
        DwtView,
        WiresView,
        Result<(), BusError>,
    ) {
        if size != 4 {
            (s, w, Err(BusError::NotImplemented))
        } else if offset == OFF_CTRL {
            (
                DwtView {
                    ctrl: value & CYCCNTENA,
                    active: (value & CYCCNTENA) & CYCCNTENA != 0,
                    ..s
                },
                w,
                Ok(()),
            )
        } else if offset == OFF_CYCCNT {
            (DwtView { cyccnt: value as u64, ..s }, w, Ok(()))
        } else {
            (s, w, Ok(()))
        }
    }

    open spec fn reset_of(s: DwtView, w: WiresView) -> (DwtView, WiresView) {
        (DwtView::fresh(), w)
    }

    open spec fn tickable(s: DwtView, w: WiresView, cycles: u64) -> bool {
        true
    }

    /// A running counter counts, modulo two to the 64th.
    open spec fn tick_of(s: DwtView, w: WiresView, cycles: u64) -> (DwtView, WiresView) {
        (
            if s.ctrl & CYCCNTENA != 0 {
                DwtView {
                    cyccnt: ((s.cyccnt + cycles) % 0x1_0000_0000_0000_0000) as u64,
                    ..s
                }
            } else {
                s
            },
            w,
        )
    }

    open spec fn label(s: DwtView) -> Seq<char> {
        "DWT"@
    }

    fn name(&self) -> &str {
        "DWT"
    }

    fn read(&mut self, w: &mut Wires, offset: u32, size: u32) -> Result<u32, BusError> {
        if size != 4 {
            return Err(BusError::NotImplemented);
        }
        match offset {
            OFF_CTRL => Ok(self.ctrl),
            OFF_CYCCNT => Ok(self.cyccnt as u32),
            _ => Ok(0),
        }
    }

    fn write(&mut self, w: &mut Wires, offset: u32, size: u32, value: u32) -> Result<(), BusError> {
        if size != 4 {
            return Err(BusError::NotImplemented);
        }
        match offset {
            OFF_CTRL => {
                self.ctrl = value & CYCCNTENA;
                self.active = self.ctrl & CYCCNTENA != 0;
            },
            OFF_CYCCNT => {
                self.cyccnt = value as u64;
            },
            _ => {},
        }
        Ok(())
    }

    fn reset(&mut self, w: &mut Wires) {
        proof {
            crate::bits::lemma_mask(CYCCNTENA, 0);
        }
        self.ctrl = 0;
        self.cyccnt = 0;
        self.active = false;
    }

    fn tick(&mut self, w: &mut Wires, cycles: u64) {
        if self.ctrl & CYCCNTENA != 0 {
            self.cyccnt = self.cyccnt.wrapping_add(cycles);
        }
    }
}

/// Cycles add up: two ticks in a row are one tick of both.
pub proof fn law_cycles_add_up(s: DwtView, w: WiresView, a: u64, b: u64)
    requires
        a + b <= u64::MAX,
    ensures
        Dwt::tick_of(Dwt::tick_of(s, w, a).0, w, b).0 == Dwt::tick_of(s, w, (a + b) as u64).0,
{
}

/// The shown count moves by the number of cycles, modulo two to the 32nd.
pub proof fn law_shown_count(s: DwtView, w: WiresView, cycles: u64)
    requires
        s.ctrl & CYCCNTENA != 0,
    ensures
        Dwt::tick_of(s, w, cycles).0.shown() == (s.shown() + cycles) % 0x1_0000_0000,
{
    let (x, y) = (s.cyccnt, Dwt::tick_of(s, w, cycles).0.cyccnt);
    assert(x as u32 == x % 0x1_0000_0000 && y as u32 == y % 0x1_0000_0000) by (bit_vector);
}

/// The count that is written is the count that is read; bit 0 of the control register starts the
/// counter and stops it. A stopped counter stands still.
pub proof fn law_counter_control(s: DwtView, w: WiresView, value: u32, cycles: u64)
    ensures
        Dwt::read_of(Dwt::write_of(s, w, 4, 4, value).0, w, 4, 4).2 == Ok::<u32, BusError>(value),
        Dwt::write_of(s, w, 4, 4, value).0.ctrl == s.ctrl,
        Dwt::write_of(s, w, 0, 4, value).0.cyccnt == s.cyccnt,
        Dwt::write_of(s, w, 0, 4, value).0.active == (value & 1 != 0),
        value & 1 == 0 ==> Dwt::tick_of(Dwt::write_of(s, w, 0, 4, value).0, w, cycles).0.cyccnt
            == s.cyccnt,
        value & 1 != 0 ==> Dwt::tick_of(Dwt::write_of(s, w, 0, 4, value).0, w, cycles).0.cyccnt
            == (s.cyccnt + cycles) % 0x1_0000_0000_0000_0000,
{
    crate::bits::lemma_mask(value, 1);
}

} // verus!
