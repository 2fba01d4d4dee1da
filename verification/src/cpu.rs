//! The processor as the rest of the library sees it: the registers that exceptions touch, and
//! why work on it can fail.
use crate::peripheral::mpu::MemManageKind;
use crate::peripheral::BusError;
use vstd::prelude::*;

verus! {

/// Why the processor could not go on.
#[derive(Debug)]
pub enum CoreError {
    /// The instruction engine failed.
    Unicorn(String),
    /// An access on the bus failed.
    Bus(BusError),
    /// A file could not be read or used.
    Io(String),
    /// The memory protection unit stopped an access.
    MemManageFault { addr: u32, kind: MemManageKind },
}

impl From<BusError> for CoreError {
    fn from(e: BusError) -> (r: Self) {
        CoreError::Bus(e)
    }
}

impl vstd::std_specs::convert::FromSpecImpl<BusError> for CoreError {
    open spec fn obeys_from_spec() -> bool {
        true
    }

    open spec fn from_spec(e: BusError) -> Self {
        CoreError::Bus(e)
    }
}

/// The stack pointer select bit of CONTROL: the process stack in thread mode.
pub const CONTROL_SPSEL: u32 = 0x2;

/// The floating point bit of CONTROL: the running code has used the floating point unit.
pub const CONTROL_FPCA: u32 = 0x4;

/// The registers of the processor.
#[derive(Debug, Clone, Copy)]
pub struct CpuContext {
    /// r0 to r12.
    pub r: [u32; 13],
    pub lr: u32,
    pub pc: u32,
    pub xpsr: u32,
    pub msp: u32,
    pub psp: u32,
    pub control: u32,
    pub ipsr: u32,
    pub primask: u32,
    pub basepri: u32,
}

/// The state of the registers.
#[verifier::ext_equal]
pub struct CpuView {
    pub r: Seq<u32>,
    pub lr: u32,
    pub pc: u32,
    pub xpsr: u32,
    pub msp: u32,
    pub psp: u32,
    pub control: u32,
    pub ipsr: u32,
    pub primask: u32,
    pub basepri: u32,
}

impl View for CpuContext {
    type V = CpuView;

    open spec fn view(&self) -> CpuView {
        CpuView {
            r: self.r@,
            lr: self.lr,
            pc: self.pc,
            xpsr: self.xpsr,
            msp: self.msp,
            psp: self.psp,
            control: self.control,
            ipsr: self.ipsr,
            primask: self.primask,
            basepri: self.basepri,
        }
    }
}

impl CpuView {
    /// Exceptions always run privileged; a thread does unless CONTROL bit 0 is set.
    pub open spec fn privileged(self) -> bool {
        self.ipsr != 0 || self.control & 1 == 0
    }
}

impl CpuContext {
    pub fn new() -> (r: Self)
        ensures
            r@ == (CpuView {
                r: Seq::new(13, |i: int| 0u32),
                lr: 0,
                pc: 0,
                xpsr: 0,
                msp: 0,
                psp: 0,
                control: 0,
                ipsr: 0,
                primask: 0,
                basepri: 0,
            }),
    {
        let r = CpuContext {
            r: [0; 13],
            lr: 0,
            pc: 0,
            xpsr: 0,
            msp: 0,
            psp: 0,
            control: 0,
            ipsr: 0,
            primask: 0,
            basepri: 0,
        };
        assert(r.r@ =~= Seq::new(13, |i: int| 0u32));
        r
    }

    /// Does the processor run privileged?
    pub fn privileged(&self) -> (r: bool)
        ensures
            r == self@.privileged(),
    {
        self.ipsr != 0 || self.control & 1 == 0
    }
}

/// A handler always runs privileged, and a thread does unless bit 0 of CONTROL is set.
pub proof fn law_privilege(c: CpuView)
    ensures
        c.ipsr != 0 ==> c.privileged(),
        c.ipsr == 0 ==> (c.privileged() <==> c.control % 2 == 0),
{
    let x = c.control;
    assert(x & 1 == x % 2) by (bit_vector);
}

} // verus!
