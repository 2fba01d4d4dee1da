//! The power controller.
//!
//! Holds the low-power settings and the wake-up, standby and voltage flags. A wake-up in
//! standby asks for a system reset. The backup domain can be written while DBP is set.
//!
//! Offsets: CR 0x00, CSR 0x04.
use crate::peripheral::wdog::ResetReason;
use crate::peripheral::{BusError, Peripheral};
use crate::wires::{Wires, WiresView};
use vstd::prelude::*;

verus! {

pub const OFF_CR: u32 = 0x00;

pub const OFF_CSR: u32 = 0x04;

pub const CR_LPDS: u32 = 0x1;

pub const CR_PDDS: u32 = 0x2;

/// Clears the wake-up flag.
pub const CR_CWUF: u32 = 0x4;

/// Clears the standby flag.
pub const CR_CSBF: u32 = 0x8;

/// Opens the backup domain for writing.
pub const CR_DBP: u32 = 0x100;

/// The control bits that can be written: LPDS, PDDS, PVDE, PLS, DBP, FPDS, LPLVDS, MRUDS,
/// LPUDS, VOS, ODSWEN, ODSW, UDEN and UDIS.
pub const CR_WRITABLE: u32 = 0x000F_DFF3;

pub const CSR_WUF: u32 = 0x1;

pub const CSR_SBF: u32 = 0x2;

pub const CSR_PVDO: u32 = 0x4;

pub const CSR_EWUP: u32 = 0x100;

pub const CSR_BRE: u32 = 0x200;

/// The status bits that can be written: BRR, EWUP and BRE.
pub const CSR_WRITABLE: u32 = 0x308;

/// Power controller.
pub struct Pwr {
    cr: u32,
    csr: u32,
    standby: bool,
}

/// The state of the controller.
#[verifier::ext_equal]
pub struct PwrView {
    pub cr: u32,
    pub csr: u32,
    pub standby: bool,
}

impl View for Pwr {
    type V = PwrView;

    closed spec fn view(&self) -> PwrView {
        PwrView { cr: self.cr, csr: self.csr, standby: self.standby }
    }
}

impl PwrView {
    pub open spec fn fresh() -> PwrView {
        PwrView { cr: 0, csr: 0, standby: false }
    }

    /// A wake-up event arrives.
    pub open spec fn wakeup(self, w: WiresView) -> (PwrView, WiresView) {
        (
            PwrView { csr: self.csr | CSR_WUF, ..self },
            if self.standby {
                WiresView { reset: Some(ResetReason::LowPower), ..w }
            } else {
                w
            },
        )
    }

    /// The controller enters standby.
    pub open spec fn entered_standby(self) -> PwrView {
        PwrView { standby: true, csr: self.csr | CSR_SBF, ..self }
    }

    /// The supply voltage crosses the threshold.
    pub open spec fn with_pvd(self, on: bool) -> PwrView {
        PwrView {
            csr: if on {
                self.csr | CSR_PVDO
            } else {
                self.csr & !CSR_PVDO
            },
            ..self
        }
    }

    pub open spec fn read(self, offset: u32, size: u32) -> Result<u32, BusError> {
        if size != 4 {
            Err(BusError::NotImplemented)
        } else if offset == OFF_CR {
            Ok(self.cr)
        } else if offset == OFF_CSR {
            Ok(self.csr)
        } else {
            Err(BusError::OutOfRange)
        }
    }

    /// The status after a write to the control register.
    pub open spec fn csr_after_cr(self, value: u32) -> u32 {
        let csr = if value & CR_CWUF != 0 {
            self.csr & !CSR_WUF
        } else {
            self.csr
        };
        if value & CR_CSBF != 0 {
            csr & !CSR_SBF
        } else {
            csr
        }
    }

    pub open spec fn write(self, w: WiresView, offset: u32, size: u32, value: u32) -> (
        PwrView,
        WiresView,
        Result<(), BusError>,
    ) {
        if size != 4 {
            (self, w, Err(BusError::NotImplemented))
        } else if offset == OFF_CR {
            let s = PwrView { cr: value & CR_WRITABLE, csr: self.csr_after_cr(value), ..self };
            (s, WiresView { backup_writable: s.cr & CR_DBP != 0, ..w }, Ok(()))
        } else if offset == OFF_CSR {
            (
                PwrView { csr: (self.csr & !CSR_WRITABLE) | (value & CSR_WRITABLE), ..self },
                w,
                Ok(()),
            )
        } else {
            (self, w, Err(BusError::OutOfRange))
        }
    }
}

impl Pwr {
    pub fn new() -> (r: Self)
        ensures
            r@ == PwrView::fresh(),
    {
        Pwr { cr: 0, csr: 0, standby: false }
    }

    /// A wake-up event arrives; in standby it asks for a reset.
    pub fn inject_wakeup(&mut self, w: &mut Wires)
        ensures
            (final(self)@, final(w)@) == old(self)@.wakeup(old(w)@),
    {
        self.csr = self.csr | CSR_WUF;
        if self.standby {
            w.reset.request(ResetReason::LowPower);
        }
    }

    /// Enters standby.
    pub fn enter_standby(&mut self)
        ensures
            final(self)@ == old(self)@.entered_standby(),
    {
        self.standby = true;
        self.csr = self.csr | CSR_SBF;
    }

    /// Is the chip in standby?
    pub fn in_standby(&self) -> (r: bool)
        ensures
            r == self@.standby,
    {
        self.standby
    }

    /// The supply voltage crosses the threshold: sets or clears PVDO.
    pub fn inject_pvd(&mut self, on: bool)
        ensures
            final(self)@ == old(self)@.with_pvd(on),
    {
        if on {
            self.csr = self.csr | CSR_PVDO;
        } else {
            self.csr = self.csr & !CSR_PVDO;
        }
    }

    /// May the backup domain be written?
    pub fn backup_domain_writable(&self) -> (r: bool)
        ensures
            r == (self@.cr & CR_DBP != 0),
    {
        self.cr & CR_DBP != 0
    }
}

impl Peripheral for Pwr {
    open spec fn inv(s: PwrView) -> bool {
        true
    }

    open spec fn readable(s: PwrView, w: WiresView, offset: u32, size: u32) -> bool {
        true
    }

    open spec fn read_of(s: PwrView, w: WiresView, offset: u32, size: u32) -> (
        PwrView,
        WiresView,
        Result<u32, BusError>,
    ) {
        (s, w, s.read(offset, size))
    }

    open spec fn writable(s: PwrView, w: WiresView, offset: u32, size: u32, value: u32) -> bool {
        true
    }

    open spec fn write_of(s: PwrView, w: WiresView, offset: u32, size: u32, value: u32) -> (
        PwrView,
        WiresView,
        Result<(), BusError>,
    ) {
        s.write(w, offset, size, value)
    }

    open spec fn reset_of(s: PwrView, w: WiresView) -> (PwrView, WiresView) {
        (PwrView::fresh(), WiresView { backup_writable: false, ..w })
    }

    open spec fn tickable(s: PwrView, w: WiresView, cycles: u64) -> bool {
        true
    }

    open spec fn tick_of(s: PwrView, w: WiresView, cycles: u64) -> (PwrView, WiresView) {
        (s, w)
    }

    open spec fn label(s: PwrView) -> Seq<char> {
        "PWR"@
    }

    fn name(&self) -> &str {
        "PWR"
    }

    fn read(&mut self, w: &mut Wires, offset: u32, size: u32) -> Result<u32, BusError> {
        if size != 4 {
            return Err(BusError::NotImplemented);
        }
        match offset {
            OFF_CR => Ok(self.cr),
            OFF_CSR => Ok(self.csr),
            _ => Err(BusError::OutOfRange),
        }
    }

    fn write(&mut self, w: &mut Wires, offset: u32, size: u32, value: u32) -> Result<(), BusError> {
        if size != 4 {
            return Err(BusError::NotImplemented);
        }
        match offset {
            OFF_CR => {
                if value & CR_CWUF != 0 {
                    self.csr = self.csr & !CSR_WUF;
                }
                if value & CR_CSBF != 0 {
                    self.csr = self.csr & !CSR_SBF;
                }
                self.cr = value & CR_WRITABLE;
                w.backup_writable = self.backup_domain_writable();
                Ok(())
            },
            OFF_CSR => {
                self.csr = (self.csr & !CSR_WRITABLE) | (value & CSR_WRITABLE);
                Ok(())
            },
            _ => Err(BusError::OutOfRange),
        }
    }

    fn reset(&mut self, w: &mut Wires) {
        self.cr = 0;
        self.csr = 0;
        self.standby = false;
        w.backup_writable = false;
    }

    fn tick(&mut self, w: &mut Wires, cycles: u64) {
    }
}

/// A wake-up sets its flag and leaves the control register and the other status bits as they
/// were. It asks for a low-power reset if standby was entered, and for nothing otherwise.
pub proof fn law_wakeup_resets_from_standby_only(s: PwrView, w: WiresView)
    ensures
        ({
            let (p, v) = s.wakeup(w);
            &&& p.read(OFF_CSR, 4) == Ok::<u32, BusError>(p.csr)
            &&& p.csr & CSR_WUF != 0
            &&& p.csr & !CSR_WUF == s.csr & !CSR_WUF
            &&& p.cr == s.cr
            &&& p.standby == s.standby
            &&& v == (WiresView { reset: v.reset, ..w })
            &&& v.reset == if s.standby {
                Some(ResetReason::LowPower)
            } else {
                w.reset
            }
            &&& w.reset is None ==> (v.reset is Some <==> s.standby)
        }),
{
    crate::bits::lemma_mask(s.csr, 1);
}

/// The chip is in standby once standby was entered, and until a reset; at the start it is not.
pub proof fn law_standby_lasts_until_reset(
    s: PwrView,
    w: WiresView,
    offset: u32,
    size: u32,
    value: u32,
    on: bool,
)
    ensures
        !PwrView::fresh().standby,
        s.entered_standby().standby,
        s.write(w, offset, size, value).0.standby == s.standby,
        s.with_pvd(on).standby == s.standby,
        s.wakeup(w).0.standby == s.standby,
        !Pwr::reset_of(s, w).0.standby,
{
}

/// A write to the status register leaves the flags alone, and one to the control register
/// clears just the flags that it names.
pub proof fn law_flags_are_not_written(s: PwrView, w: WiresView, value: u32)
    ensures
        s.write(w, OFF_CSR, 4, value).0.csr & 0x7 == s.csr & 0x7,
        s.write(w, OFF_CSR, 4, value).0.csr & CSR_WRITABLE == value & CSR_WRITABLE,
        (s.write(w, OFF_CR, 4, value).0.csr & CSR_WUF != 0) == (s.csr & CSR_WUF != 0 && value
            & CR_CWUF == 0),
        (s.write(w, OFF_CR, 4, value).0.csr & CSR_SBF != 0) == (s.csr & CSR_SBF != 0 && value
            & CR_CSBF == 0),
{
    let c = s.csr;
    assert((((c & !0x308u32) | (value & 0x308)) & 7 == c & 7) && (((c & !0x308u32) | (value
        & 0x308)) & 0x308 == value & 0x308) && (c & !1u32) & 1 == 0 && (c & !1u32) & 2 == c & 2
        && (c & !2u32) & 1 == c & 1 && (c & !2u32) & 2 == 0 && ((c & !1u32) & !2u32) & 1 == 0 && ((
    c & !1u32) & !2u32) & 2 == 0) by (bit_vector);
}

/// Bit 8 of the control register opens the backup domain, and clearing it closes it. Standby
/// shows in bit 1 of the status, a wake-up in bit 0 and a low supply in bit 2.
pub proof fn law_backup_switch(s: PwrView, w: WiresView, value: u32, on: bool)
    ensures
        s.write(w, 0, 4, value).1.backup_writable == (value & 0x100 != 0),
        s.write(w, 0, 4, value).0.read(0, 4) == Ok::<u32, BusError>(value & 0x000F_DFF3),
        s.write(w, 4, 4, value).1 == w,
        s.write(w, 4, 4, value).0.cr == s.cr,
        s.entered_standby().csr == s.csr | 2,
        s.wakeup(w).0.csr == s.csr | 1,
        (s.with_pvd(on).csr & 4 != 0) == on,
        s.with_pvd(on).csr & !4u32 == s.csr & !4u32,
        s.with_pvd(on).cr == s.cr,
        s.entered_standby().cr == s.cr,
{
    crate::bits::lemma_mask(s.csr, 4);
    assert((value & 0x000F_DFF3) & 0x100 == value & 0x100 && (s.csr & !4u32) & !4u32 == s.csr
        & !4u32) by {
        let c = s.csr;
        assert((value & 0x000F_DFF3) & 0x100 == value & 0x100 && (c & !4u32) & !4u32 == c & !4u32)
            by (bit_vector);
    }
}

} // verus!
