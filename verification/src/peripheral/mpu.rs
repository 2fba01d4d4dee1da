//! The memory protection unit of the Cortex-M4: eight regions, permission checks for data
//! accesses and instruction fetches, and the record of memory management faults.
//!
//! Offsets are relative to the system control base 0xE000E000: MMFSR 0xD28, MMFAR 0xD34,
//! TYPE 0xD90, CTRL 0xD94, RNR 0xD98, RBAR 0xD9C, RASR 0xDA0, and the aliases 0xDA4 to 0xDB8
//! for the base and attribute words of the regions 1 to 3.
use crate::bits;
use crate::peripheral::BusError;
use vstd::prelude::*;

verus! {

pub const MPU_REGION_COUNT: usize = 8;

/// Fault status.
pub const MMFSR_OFF: u32 = 0xD28;

/// Fault address.
pub const MMFAR_OFF: u32 = 0xD34;

pub const MPU_TYPE_OFF: u32 = 0xD90;

pub const MPU_CTRL_OFF: u32 = 0xD94;

pub const MPU_RNR_OFF: u32 = 0xD98;

pub const MPU_RBAR_OFF: u32 = 0xD9C;

pub const MPU_RASR_OFF: u32 = 0xDA0;

/// First offset of the register window.
pub const MPU_WIN_START: u32 = 0xD90;

/// Last offset of the register window (inclusive).
pub const MPU_WIN_END: u32 = 0xDB8;

const CTRL_ENABLE: u32 = 0x1;

const CTRL_PRIVDEFENA: u32 = 0x4;

const RBAR_VALID: u32 = 0x10;

const RASR_ENABLE: u32 = 0x1;

const RASR_XN: u32 = 0x1000_0000;

const MMFSR_IACCVIOL: u32 = 0x1;

const MMFSR_DACCVIOL: u32 = 0x2;

const MMFSR_VIOL: u32 = 0x3;

const MMFSR_MMARVALID: u32 = 0x80;

/// What an access does.
#[derive(Debug, Clone, Copy, PartialEq, Eq, Structural)]
pub enum Access {
    Read,
    Write,
    Fetch,
}

/// The kind of a memory management fault.
#[derive(Debug, Clone, Copy, PartialEq, Eq, Structural)]
pub enum MemManageKind {
    InstructionAccess,
    DataAccess,
}

/// A refused access.
#[derive(Debug, Clone, Copy, PartialEq, Eq, Structural)]
pub struct MemManageFault {
    pub addr: u32,
    pub kind: MemManageKind,
}

/// The two words of a region as they were written last.
#[derive(Debug, Clone, Copy, PartialEq, Eq, Structural)]
pub struct MpuRegion {
    pub rbar: u32,
    pub rasr: u32,
}

/// Memory protection unit.
pub struct Mpu {
    ctrl: u32,
    rnr: u32,
    regions: [MpuRegion; 8],
    mmfsr: u32,
    mmfar: u32,
    enabled: bool,
}

/// The state of the unit.
#[verifier::ext_equal]
pub struct MpuView {
    pub ctrl: u32,
    pub rnr: u32,
    pub regions: Seq<MpuRegion>,
    pub mmfsr: u32,
    pub mmfar: u32,
    /// The copy of the enable bit that the access path looks at first.
    pub enabled: bool,
}

impl View for Mpu {
    type V = MpuView;

    closed spec fn view(&self) -> MpuView {
        MpuView {
            ctrl: self.ctrl,
            rnr: self.rnr,
            regions: self.regions@,
            mmfsr: self.mmfsr,
            mmfar: self.mmfar,
            enabled: self.enabled,
        }
    }
}

/// The size field of an attribute word.
pub open spec fn size_field(rasr: u32) -> u32 {
    (rasr >> 1u32) & 0x1F
}

/// The size of a region in bytes: 2 to the size field plus one, and at least 32. A smaller
/// field covers nothing.
pub open spec fn region_size(rasr: u32) -> nat {
    if size_field(rasr) < 4 {
        0
    } else {
        vstd::arithmetic::power2::pow2((size_field(rasr) + 1) as nat)
    }
}

/// The base of a region: its base address rounded down to a multiple of its size.
pub open spec fn region_base(r: MpuRegion) -> int {
    r.rbar as int - r.rbar as int % (region_size(r.rasr) as int)
}

/// The eighth of a region that an address falls into.
pub open spec fn sub_region(r: MpuRegion, addr: u32) -> int {
    (addr as int - region_base(r)) / (region_size(r.rasr) as int / 8)
}

/// Does an enabled part of the region cover `addr`?
pub open spec fn region_covers(r: MpuRegion, addr: u32) -> bool {
    &&& r.rasr & 1 != 0
    &&& region_size(r.rasr) > 0
    &&& region_base(r) <= addr < region_base(r) + region_size(r.rasr)
    &&& !bits::has_bit(r.rasr, 8 + sub_region(r, addr))
}

/// The permission field of an attribute word.
pub open spec fn ap_field(rasr: u32) -> u8 {
    ((rasr >> 24u32) & 0x7) as u8
}

/// Does the permission field allow a data access?
pub open spec fn ap_permits(ap: u8, access: Access, privileged: bool) -> bool {
    if ap == 1 {
        privileged
    } else if ap == 2 {
        privileged || access == Access::Read
    } else if ap == 3 {
        true
    } else if ap == 5 {
        privileged && access == Access::Read
    } else if ap == 6 || ap == 7 {
        access == Access::Read
    } else {
        false
    }
}

/// Does the region that governs an access allow it? Fetches look at the no-execute bit alone.
pub open spec fn region_permits(r: MpuRegion, access: Access, privileged: bool) -> bool {
    if access == Access::Fetch {
        r.rasr & 0x1000_0000 == 0
    } else {
        ap_permits(ap_field(r.rasr), access, privileged)
    }
}

/// The fault that a refused access is.
pub open spec fn fault_of(addr: u32, access: Access) -> MemManageFault {
    MemManageFault {
        addr,
        kind: if access == Access::Fetch {
            MemManageKind::InstructionAccess
        } else {
            MemManageKind::DataAccess
        },
    }
}

/// The region and the word (base or attributes) that an alias offset stands for.
pub open spec fn alias_region(offset: u32) -> int {
    (offset - 0xDA4) / 8 + 1
}

pub open spec fn alias_is_base(offset: u32) -> bool {
    (offset - 0xDA4) % 8 == 0
}

impl MpuView {
    pub open spec fn wf(self) -> bool {
        self.regions.len() == 8
    }

    pub open spec fn fresh(enabled: bool) -> MpuView {
        MpuView {
            ctrl: 0,
            rnr: 0,
            regions: Seq::new(8, |i: int| MpuRegion { rbar: 0, rasr: 0 }),
            mmfsr: 0,
            mmfar: 0,
            enabled,
        }
    }

    pub open spec fn is_enabled(self) -> bool {
        self.ctrl & 1 != 0
    }

    /// The highest-numbered region below `n` that covers `addr`.
    pub open spec fn hit_below(self, n: int, addr: u32) -> Option<int>
        decreases n,
    {
        if n <= 0 {
            None
        } else if region_covers(self.regions[n - 1], addr) {
            Some(n - 1)
        } else {
            self.hit_below(n - 1, addr)
        }
    }

    /// The region that governs `addr`.
    pub open spec fn hit(self, addr: u32) -> Option<int> {
        self.hit_below(8, addr)
    }

    /// Is an access allowed? A disabled unit allows everything; where no region covers the
    /// address, only privileged accesses pass, and only with the background map switched on.
    pub open spec fn permits(self, addr: u32, access: Access, privileged: bool) -> bool {
        !self.is_enabled() || match self.hit(addr) {
            Some(i) => region_permits(self.regions[i], access, privileged),
            None => self.ctrl & 4 != 0 && privileged,
        }
    }

    pub open spec fn record_violation(self, f: MemManageFault) -> MpuView {
        let bit = match f.kind {
            MemManageKind::InstructionAccess => 1u32,
            MemManageKind::DataAccess => 2u32,
        };
        MpuView { mmfsr: self.mmfsr | 0x80 | bit, mmfar: f.addr, ..self }
    }

    pub open spec fn pending_fault(self) -> Option<MemManageFault> {
        if self.mmfsr & 3 != 0 {
            Some(
                MemManageFault {
                    addr: self.mmfar,
                    kind: if self.mmfsr & 1 != 0 {
                        MemManageKind::InstructionAccess
                    } else {
                        MemManageKind::DataAccess
                    },
                },
            )
        } else {
            None
        }
    }

    /// The region that the region number register selects.
    pub open spec fn selected(self) -> int {
        (self.rnr & 0x7) as int
    }

    /// The accesses whose offset names a register of the window (a word access between the
    /// attribute register and the aliases names none).
    pub open spec fn readable(self, offset: u32, size: u32) -> bool {
        size == 4 ==> !(0xDA0 < offset < 0xDA4)
    }

    /// As for reads; a base word that selects a region names one of the eight.
    pub open spec fn writable(self, offset: u32, size: u32, value: u32) -> bool {
        &&& self.readable(offset, size)
        &&& size == 4 && offset == MPU_RBAR_OFF && value & 0x10 != 0 ==> value & 0xF < 8
    }

    pub open spec fn read(self, offset: u32, size: u32) -> Result<u32, BusError> {
        if size != 4 {
            Err(BusError::NotImplemented)
        } else if offset == MMFSR_OFF {
            Ok(self.mmfsr)
        } else if offset == MMFAR_OFF {
            Ok(self.mmfar)
        } else if offset == MPU_TYPE_OFF {
            Ok(0x0800u32)
        } else if offset == MPU_CTRL_OFF {
            Ok(self.ctrl)
        } else if offset == MPU_RNR_OFF {
            Ok(self.rnr)
        } else if offset == MPU_RBAR_OFF {
            Ok(self.regions[self.selected()].rbar)
        } else if offset == MPU_RASR_OFF {
            Ok(self.regions[self.selected()].rasr)
        } else if MPU_RASR_OFF < offset <= MPU_WIN_END {
            if alias_is_base(offset) {
                Ok(self.regions[alias_region(offset)].rbar)
            } else {
                Ok(self.regions[alias_region(offset)].rasr)
            }
        } else {
            Err(BusError::OutOfRange)
        }
    }

    pub open spec fn with_base(self, i: int, value: u32) -> MpuView {
        MpuView {
            regions: self.regions.update(i, MpuRegion { rbar: value, ..self.regions[i] }),
            ..self
        }
    }

    pub open spec fn with_attributes(self, i: int, value: u32) -> MpuView {
        MpuView {
            regions: self.regions.update(i, MpuRegion { rasr: value, ..self.regions[i] }),
            ..self
        }
    }

    pub open spec fn write(self, offset: u32, size: u32, value: u32) -> (MpuView, Result<
        (),
        BusError,
    >) {
        if size != 4 {
            (self, Err(BusError::NotImplemented))
        } else if offset == MMFSR_OFF {
            (MpuView { mmfsr: self.mmfsr & !(value & 0xFF), ..self }, Ok(()))
        } else if offset == MMFAR_OFF {
            (self, Ok(()))
        } else if offset == MPU_TYPE_OFF {
            (self, Err(BusError::NotImplemented))
        } else if offset == MPU_CTRL_OFF {
            (
                MpuView { ctrl: value & 0x7, enabled: (value & 0x7) & 1 != 0, ..self },
                Ok(()),
            )
        } else if offset == MPU_RNR_OFF {
            (MpuView { rnr: value & 0x7, ..self }, Ok(()))
        } else if offset == MPU_RBAR_OFF {
            if value & 0x10 != 0 {
                (
                    MpuView { rnr: value & 0xF, ..self.with_base((value & 0xF) as int, value) },
                    Ok(()),
                )
            } else {
                (self.with_base(self.selected(), value), Ok(()))
            }
        } else if offset == MPU_RASR_OFF {
            (self.with_attributes(self.selected(), value), Ok(()))
        } else if MPU_RASR_OFF < offset <= MPU_WIN_END {
            if alias_is_base(offset) {
                (self.with_base(alias_region(offset), value), Ok(()))
            } else {
                (self.with_attributes(alias_region(offset), value), Ok(()))
            }
        } else {
            (self, Err(BusError::OutOfRange))
        }
    }
}

fn region_size_bytes(rasr: u32) -> (r: u64)
    ensures
        r == region_size(rasr),
        r == 0 || 32 <= r <= 0x1_0000_0000,
        r % 8 == 0,
{
    let size: u32 = (rasr >> 1u32) & 0x1F;
    proof {
        bits::lemma_mask(rasr >> 1u32, 0x1F);
    }
    if size < 4 {
        0
    } else {
        proof {
            let k = (size + 1) as nat;
            vstd::arithmetic::power2::lemma2_to64();
            vstd::arithmetic::power2::lemma2_to64_rest();
            if 5 < k {
                vstd::arithmetic::power2::lemma_pow2_strictly_increases(5, k);
            }
            if k < 32 {
                vstd::arithmetic::power2::lemma_pow2_strictly_increases(k, 32);
            }
            vstd::arithmetic::power2::lemma_pow2_adds(3, (k - 3) as nat);
            assert(vstd::arithmetic::power2::pow2(k) % 8 == 0) by {
                assert((8 * vstd::arithmetic::power2::pow2((k - 3) as nat)) % 8 == 0);
            }
            vstd::bits::lemma_u64_shl_is_mul(1, (size + 1) as u64);
        }
        1u64 << ((size + 1) as u64)
    }
}

/// Does an enabled part of the region cover `addr`?
fn region_contains(r: &MpuRegion, addr: u32) -> (b: bool)
    ensures
        b == region_covers(*r, addr),
{
    if r.rasr & RASR_ENABLE == 0 {
        return false;
    }
    let size = region_size_bytes(r.rasr);
    if size == 0 {
        return false;
    }
    let rbar = r.rbar as u64;
    assert(rbar % size <= rbar) by (nonlinear_arith)
        requires
            size > 0,
    ;
    let base = rbar - rbar % size;
    let a = addr as u64;
    if a < base || a - base >= size {
        return false;
    }
    let eighth = size / 8;
    let sub = (a - base) / eighth;
    assert(sub < 8) by (nonlinear_arith)
        requires
            sub == (a - base) / eighth as int,
            eighth * 8 == size,
            0 <= a - base < size,
            eighth > 0,
    ;
    r.rasr & (1u32 << (8 + sub as u32)) == 0
}

fn ap_allows(ap: u8, access: Access, privileged: bool) -> (r: bool)
    ensures
        r == ap_permits(ap, access, privileged),
{
    match ap {
        1 => privileged,
        2 => privileged || access == Access::Read,
        3 => true,
        5 => privileged && access == Access::Read,
        6 => access == Access::Read,
        7 => access == Access::Read,
        _ => false,
    }
}

impl Default for Mpu {
    fn default() -> (r: Self)
        ensures
            r@ == MpuView::fresh(false),
    {
        Mpu::new()
    }
}

impl Mpu {
    pub fn new() -> (r: Self)
        ensures
            r@ == MpuView::fresh(false),
    {
        Self::with_enabled(false)
    }

    /// Starts with the copy of the enable bit as given.
    pub fn with_enabled(enabled: bool) -> (r: Self)
        ensures
            r@ == MpuView::fresh(enabled),
    {
        let r = Mpu {
            ctrl: 0,
            rnr: 0,
            regions: [MpuRegion { rbar: 0, rasr: 0 };8],
            mmfsr: 0,
            mmfar: 0,
            enabled,
        };
        assert(r@ =~= MpuView::fresh(enabled));
        r
    }

    pub proof fn lemma_wf(&self)
        ensures
            self@.wf(),
    {
    }

    /// The copy of the enable bit.
    pub fn enabled(&self) -> (r: bool)
        ensures
            r == self@.enabled,
    {
        self.enabled
    }

    pub fn is_enabled(&self) -> (r: bool)
        ensures
            r == self@.is_enabled(),
    {
        self.ctrl & CTRL_ENABLE != 0
    }

    /// Checks one access against the regions.
    pub fn check(&self, addr: u32, access: Access, privileged: bool) -> (r: Result<
        (),
        MemManageFault,
    >)
        ensures
            r is Ok <==> self@.permits(addr, access, privileged),
            r matches Err(f) ==> f == fault_of(addr, access),
    {
        if !self.is_enabled() {
            return Ok(());
        }
        let mut i: usize = 8;
        while i > 0
            invariant
                i <= 8,
                self@.is_enabled(),
                self@.hit(addr) == self@.hit_below(i as int, addr),
            decreases i,
        {
            let r = &self.regions[i - 1];
            if region_contains(r, addr) {
                if access == Access::Fetch {
                    if r.rasr & RASR_XN != 0 {
                        return Err(
                            MemManageFault { addr, kind: MemManageKind::InstructionAccess },
                        );
                    }
                    return Ok(());
                }
                let ap = ((r.rasr >> 24u32) & 0x7) as u8;
                if !ap_allows(ap, access, privileged) {
                    return Err(MemManageFault { addr, kind: MemManageKind::DataAccess });
                }
                return Ok(());
            }
            i = i - 1;
        }
        if self.ctrl & CTRL_PRIVDEFENA != 0 && privileged {
            Ok(())
        } else if access == Access::Fetch {
            Err(MemManageFault { addr, kind: MemManageKind::InstructionAccess })
        } else {
            Err(MemManageFault { addr, kind: MemManageKind::DataAccess })
        }
    }

    /// Notes a refused access in the fault registers.
    pub fn record_violation(&mut self, f: MemManageFault)
        ensures
            final(self)@ == old(self)@.record_violation(f),
    {
        let bit: u32 = match f.kind {
            MemManageKind::InstructionAccess => MMFSR_IACCVIOL,
            MemManageKind::DataAccess => MMFSR_DACCVIOL,
        };
        self.mmfsr = self.mmfsr | MMFSR_MMARVALID | bit;
        self.mmfar = f.addr;
    }

    /// The fault that has not been cleared yet.
    pub fn pending_fault(&self) -> (r: Option<MemManageFault>)
        ensures
            r == self@.pending_fault(),
    {
        if self.mmfsr & MMFSR_VIOL != 0 {
            let kind = if self.mmfsr & MMFSR_IACCVIOL != 0 {
                MemManageKind::InstructionAccess
            } else {
                MemManageKind::DataAccess
            };
            Some(MemManageFault { addr: self.mmfar, kind })
        } else {
            None
        }
    }

    pub fn mmfsr(&self) -> (r: u32)
        ensures
            r == self@.mmfsr,
    {
        self.mmfsr
    }

    pub fn mmfar(&self) -> (r: u32)
        ensures
            r == self@.mmfar,
    {
        self.mmfar
    }

    fn selected(&self) -> (r: usize)
        ensures
            r == self@.selected(),
            r < 8,
    {
        proof {
            bits::lemma_mask(self.rnr, 0x7);
        }
        (self.rnr & 0x7) as usize
    }

    pub fn read(&self, offset: u32, size: u32) -> (r: Result<u32, BusError>)
        requires
            self@.readable(offset, size),
        ensures
            r == self@.read(offset, size),
    {
        if size != 4 {
            return Err(BusError::NotImplemented);
        }
        match offset {
            MMFSR_OFF => Ok(self.mmfsr),
            MMFAR_OFF => Ok(self.mmfar),
            MPU_TYPE_OFF => Ok(0x0800),
            MPU_CTRL_OFF => Ok(self.ctrl),
            MPU_RNR_OFF => Ok(self.rnr),
            MPU_RBAR_OFF => Ok(self.regions[self.selected()].rbar),
            MPU_RASR_OFF => Ok(self.regions[self.selected()].rasr),
            _ => {
                if offset > MPU_RASR_OFF && offset <= MPU_WIN_END {
                    let (i, is_base) = alias_decode(offset);
                    if is_base {
                        Ok(self.regions[i].rbar)
                    } else {
                        Ok(self.regions[i].rasr)
                    }
                } else {
                    Err(BusError::OutOfRange)
                }
            },
        }
    }

    pub fn write(&mut self, offset: u32, size: u32, value: u32) -> (r: Result<(), BusError>)
        requires
            old(self)@.writable(offset, size, value),
        ensures
            (final(self)@, r) == old(self)@.write(offset, size, value),
    {
        if size != 4 {
            return Err(BusError::NotImplemented);
        }
        match offset {
            MMFSR_OFF => {
                self.mmfsr = self.mmfsr & !(value & 0xFF);
                Ok(())
            },
            MMFAR_OFF => Ok(()),
            MPU_TYPE_OFF => Err(BusError::NotImplemented),
            MPU_CTRL_OFF => {
                self.ctrl = value & 0x7;
                self.enabled = self.ctrl & CTRL_ENABLE != 0;
                Ok(())
            },
            MPU_RNR_OFF => {
                self.rnr = value & 0x7;
                Ok(())
            },
            MPU_RBAR_OFF => {
                let i = self.selected();
                self.write_rbar(i, value, true);
                Ok(())
            },
            MPU_RASR_OFF => {
                let i = self.selected();
                self.regions[i].rasr = value;
                Ok(())
            },
            _ => {
                if offset > MPU_RASR_OFF && offset <= MPU_WIN_END {
                    let (i, is_base) = alias_decode(offset);
                    if is_base {
                        self.write_rbar(i, value, false);
                    } else {
                        self.regions[i].rasr = value;
                    }
                    Ok(())
                } else {
                    Err(BusError::OutOfRange)
                }
            },
        }
    }

    /// Writes a base word. Through the base register itself a set VALID bit picks the region
    /// by the low four bits and moves the region number along.
    fn write_rbar(&mut self, i: usize, value: u32, honor_valid: bool)
        requires
            i < 8,
            honor_valid && value & 0x10 != 0 ==> value & 0xF < 8,
        ensures
            final(self)@ == (if honor_valid && value & 0x10 != 0 {
                MpuView {
                    rnr: value & 0xF,
                    ..old(self)@.with_base((value & 0xF) as int, value)
                }
            } else {
                old(self)@.with_base(i as int, value)
            }),
    {
        if honor_valid && value & RBAR_VALID != 0 {
            let n = (value & 0xF) as usize;
            self.regions[n].rbar = value;
            self.rnr = value & 0xF;
        } else {
            self.regions[i].rbar = value;
        }
    }
}

fn alias_decode(offset: u32) -> (r: (usize, bool))
    requires
        0xDA4 <= offset <= 0xDB8,
    ensures
        r.0 == alias_region(offset),
        1 <= r.0 <= 3,
        r.1 == alias_is_base(offset),
{
    let rel: u32 = offset - (MPU_RASR_OFF + 4);
    ((rel / 8) as usize + 1, rel % 8 == 0)
}

/// Where regions overlap, the highest-numbered one that covers the address decides.
pub proof fn law_highest_region_wins(m: MpuView, addr: u32, i: int)
    requires
        0 <= i < 8,
        region_covers(m.regions[i], addr),
        forall|j: int| i < j < 8 ==> !region_covers(#[trigger] m.regions[j], addr),
    ensures
        m.hit(addr) == Some(i),
{
    lemma_hit_below(m, addr, i, 8);
}

proof fn lemma_hit_below(m: MpuView, addr: u32, i: int, n: int)
    requires
        0 <= i < n <= 8,
        region_covers(m.regions[i], addr),
        forall|j: int| i < j < 8 ==> !region_covers(#[trigger] m.regions[j], addr),
    ensures
        m.hit_below(n, addr) == Some(i),
    decreases n,
{
    if n - 1 != i {
        assert(!region_covers(m.regions[n - 1], addr));
        lemma_hit_below(m, addr, i, n - 1);
    }
}

/// A disabled unit lets every access through.
pub proof fn law_disabled_allows_all(m: MpuView, addr: u32, access: Access, privileged: bool)
    requires
        m.ctrl & 1 == 0,
    ensures
        m.permits(addr, access, privileged),
{
}

/// A recorded fault is the pending one, as long as none of the other kind was pending.
pub proof fn law_recorded_fault_is_pending(m: MpuView, f: MemManageFault)
    requires
        f.kind == MemManageKind::InstructionAccess || m.mmfsr & 1 == 0,
    ensures
        m.record_violation(f).pending_fault() == Some(f),
{
    let s = m.mmfsr;
    assert((s | 0x80 | 1u32) & 3 != 0 && (s | 0x80 | 1u32) & 1 != 0 && (s | 0x80 | 2u32) & 3 != 0 && (
    s & 1 == 0 ==> (s | 0x80 | 2u32) & 1 == 0)) by (bit_vector);
}

/// Writing ones to the fault status clears exactly those bits; with both violation bits
/// written, no fault is pending.
pub proof fn law_fault_status_write_one_clears(m: MpuView, value: u32)
    ensures
        m.write(MMFSR_OFF, 4, value).0.mmfsr == m.mmfsr & !(value & 0xFF),
        value & 3 == 3 ==> m.write(MMFSR_OFF, 4, value).0.pending_fault() is None,
{
    let s = m.mmfsr;
    assert(value & 3 == 3 ==> (s & !(value & 0xFF)) & 3 == 0) by (bit_vector);
}

/// The copy of the enable bit follows the control register from reset on.
pub proof fn law_enable_copy_follows(m: MpuView, offset: u32, size: u32, value: u32)
    requires
        m.enabled == m.is_enabled(),
    ensures
        MpuView::fresh(false).enabled == MpuView::fresh(false).is_enabled(),
        m.write(offset, size, value).0.enabled == m.write(offset, size, value).0.is_enabled(),
{
    bits::lemma_mask(1, 0);
}

/// A region's words read back as written, through the selection and through the aliases.
pub proof fn law_region_readback(m: MpuView, value: u32, attributes: u32)
    requires
        m.wf(),
        value & 0x10 != 0 ==> value & 0xF < 8,
    ensures
        ({
            let m1 = m.write(MPU_RBAR_OFF, 4, value).0;
            let m2 = m1.write(MPU_RASR_OFF, 4, attributes).0;
            &&& m1.read(MPU_RBAR_OFF, 4) == Ok::<u32, BusError>(value)
            &&& m2.read(MPU_RBAR_OFF, 4) == Ok::<u32, BusError>(value)
            &&& m2.read(MPU_RASR_OFF, 4) == Ok::<u32, BusError>(attributes)
            &&& m2.selected() == 1 ==> m2.read(0xDA4, 4) == Ok::<u32, BusError>(value) && m2.read(
                0xDA8,
                4,
            ) == Ok::<u32, BusError>(attributes)
        }),
{
    let n = value & 0xF;
    assert(n < 8 ==> n & 0x7 == n) by (bit_vector);
    bits::lemma_mask(m.rnr, 0x7);
}

/// What the permission field of the region that governs an address allows. Field 1 is for
/// privileged code alone, field 2 adds reading for all, field 3 allows everything; 5 lets only
/// privileged code read, 6 and 7 let all code read; 0 and 4 allow nothing. For fetches the
/// no-execute bit counts alone.
pub proof fn law_permission_fields(m: MpuView, addr: u32, i: int, access: Access, privileged: bool)
    requires
        m.ctrl & 1 != 0,
        0 <= i < 8,
        region_covers(m.regions[i], addr),
        forall|j: int| i < j < 8 ==> !region_covers(#[trigger] m.regions[j], addr),
    ensures
        ({
            let ap = (m.regions[i].rasr >> 24u32) & 7;
            let ok = m.permits(addr, access, privileged);
            &&& access == Access::Write && privileged ==> (ok <==> ap == 1 || ap == 2 || ap == 3)
            &&& access == Access::Write && !privileged ==> (ok <==> ap == 3)
            &&& access == Access::Read && privileged ==> (ok <==> ap != 0 && ap != 4)
            &&& access == Access::Read && !privileged ==> (ok <==> ap == 2 || ap == 3 || ap == 6 || ap
                == 7)
            &&& access == Access::Fetch ==> (ok <==> m.regions[i].rasr & 0x1000_0000 == 0)
        }),
{
    law_highest_region_wins(m, addr, i);
    bits::lemma_mask(m.regions[i].rasr >> 24u32, 7);
}

/// Where no region covers the address, an enabled unit lets privileged accesses through if the
/// background map is switched on, and no others.
pub proof fn law_background_map(m: MpuView, addr: u32, access: Access, privileged: bool)
    requires
        m.ctrl & 1 != 0,
        forall|j: int| 0 <= j < 8 ==> !region_covers(#[trigger] m.regions[j], addr),
    ensures
        m.permits(addr, access, privileged) <==> privileged && m.ctrl & 4 != 0,
{
    lemma_no_hit(m, addr, 8);
}

proof fn lemma_no_hit(m: MpuView, addr: u32, n: int)
    requires
        0 <= n <= 8,
        forall|j: int| 0 <= j < 8 ==> !region_covers(#[trigger] m.regions[j], addr),
    ensures
        m.hit_below(n, addr) is None,
    decreases n,
{
    if n > 0 {
        assert(!region_covers(m.regions[n - 1], addr));
        lemma_no_hit(m, addr, n - 1);
    }
}

/// Privileged code may do whatever unprivileged code may.
pub proof fn law_privilege_only_adds(m: MpuView, addr: u32, access: Access)
    ensures
        m.permits(addr, access, false) ==> m.permits(addr, access, true),
{
}

/// An enabled region of 2 to the size field plus one bytes covers the addresses that share its
/// base address above the offset within it, without the eighths that are switched off. A size
/// field below 4 covers nothing.
pub proof fn law_region_extent(r: MpuRegion, addr: u32, p: int)
    requires
        p == vstd::arithmetic::power2::pow2(((r.rasr >> 1u32) & 0x1F) as nat + 1),
    ensures
        (r.rasr >> 1u32) & 0x1F < 4 ==> !region_covers(r, addr),
        (r.rasr >> 1u32) & 0x1F >= 4 ==> (region_covers(r, addr) <==> r.rasr & 1 != 0 && addr as int
            / p == r.rbar as int / p && !bits::has_bit(
            r.rasr,
            8 + (addr as int % p) / (p / 8),
        )),
{
    vstd::arithmetic::power2::lemma_pow2_pos(((r.rasr >> 1u32) & 0x1F) as nat + 1);
    let (a, b) = (addr as int, r.rbar as int);
    vstd::arithmetic::div_mod::lemma_fundamental_div_mod(a, p);
    vstd::arithmetic::div_mod::lemma_fundamental_div_mod(b, p);
    vstd::arithmetic::div_mod::lemma_mod_bound(a, p);
    vstd::arithmetic::div_mod::lemma_mod_bound(b, p);
    let (qa, qb) = (a / p, b / p);
    assert(p * qb <= a < p * qb + p <==> qa == qb) by (nonlinear_arith)
        requires
            a == p * qa + a % p,
            0 <= a % p < p,
    ;
    if qa == qb {
        assert(a - p * qb == a % p);
    }
}

/// A write to a region's words changes that word and nothing else of any region.
pub proof fn law_region_writes_are_apart(m: MpuView, value: u32, j: int, k: u32)
    requires
        m.wf(),
        value & 0x10 == 0,
        0 <= j < 8,
        1 <= k <= 3,
    ensures
        ({
            let b = m.write(0xD9C, 4, value).0;
            let a = m.write(0xDA0, 4, value).0;
            let n = (m.rnr & 7) as int;
            &&& b.regions[j].rasr == m.regions[j].rasr && a.regions[j].rbar == m.regions[j].rbar
            &&& b.regions[j].rbar == if j == n {
                value
            } else {
                m.regions[j].rbar
            }
            &&& a.regions[j].rasr == if j == n {
                value
            } else {
                m.regions[j].rasr
            }
            &&& a.ctrl == m.ctrl && b.ctrl == m.ctrl && a.rnr == m.rnr && b.rnr == m.rnr
        }),
        ({
            let b = m.write((0xD9C + 8 * k) as u32, 4, value).0;
            let a = m.write((0xDA0 + 8 * k) as u32, 4, value).0;
            &&& b.regions[j] == if j == k {
                MpuRegion { rbar: value, rasr: m.regions[j].rasr }
            } else {
                m.regions[j]
            }
            &&& a.regions[j] == if j == k {
                MpuRegion { rbar: m.regions[j].rbar, rasr: value }
            } else {
                m.regions[j]
            }
            &&& m.read((0xD9C + 8 * k) as u32, 4) == Ok::<u32, BusError>(m.regions[k as int].rbar)
            &&& m.read((0xDA0 + 8 * k) as u32, 4) == Ok::<u32, BusError>(m.regions[k as int].rasr)
        }),
        m.write(0xD98, 4, value).0 == (MpuView { rnr: value & 7, ..m }),
        m.write(0xD94, 4, value).0.ctrl == value & 7,
        m.write(0xD94, 4, value).0.regions == m.regions,
{
    bits::lemma_mask(m.rnr, 7);
}

/// A recorded fault shows its address and its kind, and that the address is valid; the kinds that
/// were there before stay.
pub proof fn law_fault_record(m: MpuView, f: MemManageFault)
    ensures
        ({
            let n = m.record_violation(f);
            &&& n.mmfar == f.addr
            &&& n.mmfsr & 0x80 != 0
            &&& f.kind == MemManageKind::InstructionAccess ==> n.mmfsr & 1 != 0 && n.mmfsr & 2
                == m.mmfsr & 2
            &&& f.kind == MemManageKind::DataAccess ==> n.mmfsr & 2 != 0 && n.mmfsr & 1 == m.mmfsr & 1
            &&& n.regions == m.regions && n.ctrl == m.ctrl
        }),
{
    let s = m.mmfsr;
    assert((s | 0x80 | 1u32) & 0x80 != 0 && (s | 0x80 | 2u32) & 0x80 != 0 && (s | 0x80 | 1u32) & 1
        != 0 && (s | 0x80 | 2u32) & 2 != 0 && (s | 0x80 | 1u32) & 2 == s & 2 && (s | 0x80 | 2u32) & 1
        == s & 1) by (bit_vector);
}

/// The registers of the unit are where the chip has them. The type register says eight regions,
/// and the fault status and address show the record.
pub proof fn law_register_map(m: MpuView)
    requires
        m.wf(),
    ensures
        m.read(0xD28, 4) == Ok::<u32, BusError>(m.mmfsr),
        m.read(0xD34, 4) == Ok::<u32, BusError>(m.mmfar),
        m.read(0xD90, 4) == Ok::<u32, BusError>(0x800),
        m.read(0xD94, 4) == Ok::<u32, BusError>(m.ctrl),
        m.read(0xD98, 4) == Ok::<u32, BusError>(m.rnr),
{
}

} // verus!
