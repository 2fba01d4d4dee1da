//! The system control block.
//!
//! Most of its registers keep what was written last. The windows of the memory protection
//! unit, of the interrupt controller and of the system exception priorities are handed on. The
//! interrupt control register pends and unpends PendSV and SysTick. The SysTick timer counts
//! down one per cycle; from LOAD to 0 it takes LOAD + 1 cycles, then it overflows and starts
//! again at LOAD.
//!
//! Offsets are relative to 0xE000_E000.
use crate::bits;
use crate::peripheral::mpu::{MMFAR_OFF, MMFSR_OFF, MPU_RBAR_OFF, MPU_WIN_END, MPU_WIN_START};
use crate::peripheral::nvic::{AIRCR_OFF, NVIC_WIN_END, NVIC_WIN_START, NvicView, SHPR1_OFF, SHPR_END};
use crate::peripheral::{BusError, Peripheral};
use crate::wires::{Wires, WiresView};
use vstd::prelude::*;

verus! {

pub const SYST_CTRL_OFF: u32 = 0x010;

pub const SYST_LOAD_OFF: u32 = 0x014;

pub const SYST_VAL_OFF: u32 = 0x018;

pub const SYST_CALIB_OFF: u32 = 0x01C;

pub const ICSR_OFF: u32 = 0xD04;

pub const SYST_COUNTFLAG: u32 = 0x1_0000;

pub const SYST_TICKINT: u32 = 0x2;

pub const SYST_ENABLE: u32 = 0x1;

pub const ICSR_PENDSVSET: u32 = 0x1000_0000;

pub const ICSR_PENDSVCLR: u32 = 0x0800_0000;

pub const ICSR_PENDSTSET: u32 = 0x0400_0000;

pub const ICSR_PENDSTCLR: u32 = 0x0200_0000;

pub const ICSR_VECTACTIVE_MASK: u32 = 0x1FF;

pub const VECTOR_PENDSV: u32 = 14;

pub const VECTOR_SYSTICK: u32 = 15;

/// Does the memory protection unit answer at this offset?
pub open spec fn is_mpu_offset(offset: u32) -> bool {
    offset == MMFSR_OFF || offset == MMFAR_OFF || MPU_WIN_START <= offset <= MPU_WIN_END
}

/// Does the interrupt controller answer at this offset?
pub open spec fn is_nvic_offset(offset: u32) -> bool {
    NVIC_WIN_START <= offset < NVIC_WIN_END || offset == AIRCR_OFF || SHPR1_OFF <= offset
        < SHPR_END
}

fn mpu_answers(offset: u32) -> (r: bool)
    ensures
        r == is_mpu_offset(offset),
{
    offset == MMFSR_OFF || offset == MMFAR_OFF || (offset >= MPU_WIN_START && offset
        <= MPU_WIN_END)
}

fn nvic_answers(offset: u32) -> (r: bool)
    ensures
        r == is_nvic_offset(offset),
{
    (offset >= NVIC_WIN_START && offset < NVIC_WIN_END) || offset == AIRCR_OFF || (offset
        >= SHPR1_OFF && offset < SHPR_END)
}

/// System control block.
pub struct SystemControl {
    regs: Vec<u32>,
    has_mpu: bool,
    has_nvic: bool,
    syst_ctrl: u32,
    syst_load: u32,
    syst_val: u64,
    active: bool,
}

/// The state of the block.
#[verifier::ext_equal]
pub struct ScbView {
    /// The plain registers, by offset divided by four.
    pub regs: Seq<u32>,
    /// Is the memory protection unit wired up?
    pub has_mpu: bool,
    /// Is the interrupt controller wired up?
    pub has_nvic: bool,
    pub syst_ctrl: u32,
    pub syst_load: u32,
    pub syst_val: u64,
    /// Does the timer run?
    pub active: bool,
}

impl View for SystemControl {
    type V = ScbView;

    closed spec fn view(&self) -> ScbView {
        ScbView {
            regs: self.regs@,
            has_mpu: self.has_mpu,
            has_nvic: self.has_nvic,
            syst_ctrl: self.syst_ctrl,
            syst_load: self.syst_load,
            syst_val: self.syst_val,
            active: self.active,
        }
    }
}

/// The pending system exceptions after a write to the interrupt control register. Where a set
/// and a clear bit come together, the clear bit wins.
pub open spec fn icsr_written(n: NvicView, value: u32) -> NvicView {
    let n1 = if value & ICSR_PENDSVSET != 0 {
        n.set_sys_pending(VECTOR_PENDSV as int)
    } else {
        n
    };
    let n2 = if value & ICSR_PENDSVCLR != 0 {
        n1.clear_sys_pending(VECTOR_PENDSV as int)
    } else {
        n1
    };
    let n3 = if value & ICSR_PENDSTSET != 0 {
        n2.set_sys_pending(VECTOR_SYSTICK as int)
    } else {
        n2
    };
    if value & ICSR_PENDSTCLR != 0 {
        n3.clear_sys_pending(VECTOR_SYSTICK as int)
    } else {
        n3
    }
}

impl ScbView {
    pub open spec fn fresh(size: u32, has_mpu: bool, has_nvic: bool) -> ScbView {
        ScbView {
            regs: Seq::new((size / 4) as nat, |i: int| 0u32),
            has_mpu,
            has_nvic,
            syst_ctrl: 0,
            syst_load: 0,
            syst_val: 0,
            active: false,
        }
    }

    /// The timer's count fits in 32 bits, and the activity flag follows the enable bit.
    pub open spec fn wf(self) -> bool {
        self.syst_val <= u32::MAX && self.active == self.enabled()
    }

    pub open spec fn enabled(self) -> bool {
        self.syst_ctrl & SYST_ENABLE != 0
    }

    /// Does the timer overflow within this many cycles?
    pub open spec fn overflows(self, cycles: u64) -> bool {
        self.enabled() && cycles > self.syst_val
    }

    /// The count after this many cycles.
    pub open spec fn count_after(self, cycles: u64) -> int {
        if cycles <= self.syst_val {
            self.syst_val - cycles
        } else {
            self.syst_load - (cycles - self.syst_val - 1) % (self.syst_load + 1)
        }
    }

    pub open spec fn ticked(self, cycles: u64) -> ScbView {
        if !self.enabled() {
            self
        } else {
            ScbView {
                syst_val: self.count_after(cycles) as u64,
                syst_ctrl: if self.overflows(cycles) {
                    self.syst_ctrl | SYST_COUNTFLAG
                } else {
                    self.syst_ctrl
                },
                ..self
            }
        }
    }

    /// Does a tick of this many cycles pend SysTick?
    pub open spec fn tick_pends(self, cycles: u64) -> bool {
        self.overflows(cycles) && self.syst_ctrl & SYST_TICKINT != 0 && self.has_nvic
    }

    pub open spec fn read(self, w: WiresView, offset: u32, size: u32) -> (ScbView, Result<
        u32,
        BusError,
    >) {
        if self.has_mpu && is_mpu_offset(offset) {
            (self, w.mpu.read(offset, size))
        } else if self.has_nvic && is_nvic_offset(offset) {
            (self, w.nvic.read(offset, size))
        } else if size != 4 {
            (self, Err(BusError::NotImplemented))
        } else if offset == ICSR_OFF {
            (
                self,
                Ok(
                    if self.has_nvic && w.nvic.stack.len() > 0 {
                        w.nvic.stack.last() & ICSR_VECTACTIVE_MASK
                    } else {
                        0
                    },
                ),
            )
        } else if offset == SYST_CTRL_OFF {
            (
                ScbView { syst_ctrl: self.syst_ctrl & !SYST_COUNTFLAG, ..self },
                Ok(self.syst_ctrl),
            )
        } else if offset == SYST_LOAD_OFF {
            (self, Ok(self.syst_load))
        } else if offset == SYST_VAL_OFF {
            (self, Ok(self.syst_val as u32))
        } else if offset == SYST_CALIB_OFF {
            (self, Ok(0u32))
        } else if offset as int / 4 < self.regs.len() {
            (self, Ok(self.regs[offset as int / 4]))
        } else {
            (self, Err(BusError::OutOfRange))
        }
    }

    /// A write to the timer's control register; switching the timer on reloads it.
    pub open spec fn write_ctrl(self, value: u32) -> ScbView {
        let ctrl = (self.syst_ctrl & SYST_COUNTFLAG) | (value & 0x7);
        ScbView {
            syst_ctrl: ctrl,
            active: ctrl & SYST_ENABLE != 0,
            syst_val: if !self.enabled() && ctrl & SYST_ENABLE != 0 {
                self.syst_load as u64
            } else {
                self.syst_val
            },
            ..self
        }
    }

    pub open spec fn write(self, w: WiresView, offset: u32, size: u32, value: u32) -> (
        ScbView,
        WiresView,
        Result<(), BusError>,
    ) {
        if self.has_mpu && is_mpu_offset(offset) {
            let (mpu, r) = w.mpu.write(offset, size, value);
            (self, WiresView { mpu, ..w }, r)
        } else if self.has_nvic && is_nvic_offset(offset) {
            let (nvic, r) = w.nvic.write(offset, size, value);
            (self, WiresView { nvic, ..w }, r)
        } else if size != 4 {
            (self, w, Err(BusError::NotImplemented))
        } else if offset == ICSR_OFF {
            (
                self,
                if self.has_nvic {
                    WiresView { nvic: icsr_written(w.nvic, value), ..w }
                } else {
                    w
                },
                Ok(()),
            )
        } else if offset == SYST_CTRL_OFF {
            (self.write_ctrl(value), w, Ok(()))
        } else if offset == SYST_LOAD_OFF {
            (ScbView { syst_load: value, ..self }, w, Ok(()))
        } else if offset == SYST_VAL_OFF {
            (
                ScbView {
                    syst_ctrl: self.syst_ctrl & !SYST_COUNTFLAG,
                    syst_val: self.syst_load as u64,
                    ..self
                },
                w,
                Ok(()),
            )
        } else if offset as int / 4 < self.regs.len() {
            (ScbView { regs: self.regs.update(offset as int / 4, value), ..self }, w, Ok(()))
        } else {
            (self, w, Err(BusError::OutOfRange))
        }
    }
}

/// What the control bits of the timer keep of each other.
proof fn lemma_ctrl_bits(c: u32)
    ensures
        (c | SYST_COUNTFLAG) & SYST_ENABLE == c & SYST_ENABLE,
        (c | SYST_COUNTFLAG) & SYST_TICKINT == c & SYST_TICKINT,
        (c & !SYST_COUNTFLAG) & SYST_ENABLE == c & SYST_ENABLE,
        (c & !SYST_COUNTFLAG) & SYST_TICKINT == c & SYST_TICKINT,
        (c | SYST_COUNTFLAG) | SYST_COUNTFLAG == c | SYST_COUNTFLAG,
        0u32 & SYST_ENABLE == 0,
{
    assert((c | 0x1_0000) & 1 == c & 1 && (c | 0x1_0000) & 2 == c & 2 && (c & !0x1_0000u32) & 1 == c
        & 1 && (c & !0x1_0000u32) & 2 == c & 2 && (c | 0x1_0000) | 0x1_0000 == c | 0x1_0000 && 0u32
        & 1 == 0) by (bit_vector);
}

impl SystemControl {
    /// A block of `size` bytes, on its own.
    pub fn new(size: u32) -> (r: Self)
        ensures
            r@ == ScbView::fresh(size, false, false),
            r@.wf(),
    {
        Self::make(size, false, false)
    }

    /// A block that hands on the windows of the memory protection unit.
    pub fn new_with_mpu(size: u32) -> (r: Self)
        ensures
            r@ == ScbView::fresh(size, true, false),
            r@.wf(),
    {
        Self::make(size, true, false)
    }

    /// A block that hands on the windows of the memory protection unit and of the interrupt
    /// controller.
    pub fn new_with_mpu_nvic(size: u32) -> (r: Self)
        ensures
            r@ == ScbView::fresh(size, true, true),
            r@.wf(),
    {
        Self::make(size, true, true)
    }

    fn make(size: u32, has_mpu: bool, has_nvic: bool) -> (r: Self)
        ensures
            r@ == ScbView::fresh(size, has_mpu, has_nvic),
            r@.wf(),
    {
        proof {
            lemma_ctrl_bits(0);
        }
        let r = SystemControl {
            regs: vec![0u32; (size / 4) as usize],
            has_mpu,
            has_nvic,
            syst_ctrl: 0,
            syst_load: 0,
            syst_val: 0,
            active: false,
        };
        assert(r@ =~= ScbView::fresh(size, has_mpu, has_nvic));
        r
    }

    /// May the register be read? The memory protection unit decides on its own window.
    pub fn takes_read(&self, offset: u32, size: u32) -> (r: bool)
        ensures
            forall|w: WiresView| r == #[trigger] SystemControl::readable(self@, w, offset, size),
    {
        !(self.has_mpu && mpu_answers(offset) && size == 4 && offset > 0xDA0 && offset < 0xDA4)
    }

    /// May the register be written? The memory protection unit decides on its own window.
    pub fn takes_write(&self, offset: u32, size: u32, value: u32) -> (r: bool)
        ensures
            forall|w: WiresView|
                r == #[trigger] SystemControl::writable(self@, w, offset, size, value),
    {
        if self.has_mpu && mpu_answers(offset) && size == 4 {
            !(offset > 0xDA0 && offset < 0xDA4) && !(offset == MPU_RBAR_OFF && value & 0x10 != 0
                && value & 0xF >= 8)
        } else {
            true
        }
    }

    /// Does the timer run?
    pub fn active(&self) -> (r: bool)
        ensures
            r == self@.active,
    {
        self.active
    }

    fn write_icsr(w: &mut Wires, value: u32)
        ensures
            final(w)@ == (WiresView { nvic: icsr_written(old(w)@.nvic, value), ..old(w)@ }),
    {
        if value & ICSR_PENDSVSET != 0 {
            w.nvic.set_sys_pending(VECTOR_PENDSV);
        }
        if value & ICSR_PENDSVCLR != 0 {
            w.nvic.clear_sys_pending(VECTOR_PENDSV);
        }
        if value & ICSR_PENDSTSET != 0 {
            w.nvic.set_sys_pending(VECTOR_SYSTICK);
        }
        if value & ICSR_PENDSTCLR != 0 {
            w.nvic.clear_sys_pending(VECTOR_SYSTICK);
        }
    }

    fn write_ctrl(&mut self, value: u32)
        requires
            old(self)@.wf(),
        ensures
            final(self)@.wf(),
            final(self)@ == old(self)@.write_ctrl(value),
    {
        let was_enabled = self.syst_ctrl & SYST_ENABLE != 0;
        self.syst_ctrl = (self.syst_ctrl & SYST_COUNTFLAG) | (value & 0x7);
        self.active = self.syst_ctrl & SYST_ENABLE != 0;
        if !was_enabled && self.syst_ctrl & SYST_ENABLE != 0 {
            self.syst_val = self.syst_load as u64;
        }
    }
}

impl Peripheral for SystemControl {
    open spec fn inv(s: ScbView) -> bool {
        s.wf()
    }

    open spec fn readable(s: ScbView, w: WiresView, offset: u32, size: u32) -> bool {
        s.has_mpu && is_mpu_offset(offset) ==> w.mpu.readable(offset, size)
    }

    open spec fn read_of(s: ScbView, w: WiresView, offset: u32, size: u32) -> (
        ScbView,
        WiresView,
        Result<u32, BusError>,
    ) {
        let (s1, r) = s.read(w, offset, size);
        (s1, w, r)
    }

    open spec fn writable(s: ScbView, w: WiresView, offset: u32, size: u32, value: u32) -> bool {
        s.has_mpu && is_mpu_offset(offset) ==> w.mpu.writable(offset, size, value)
    }

    open spec fn write_of(s: ScbView, w: WiresView, offset: u32, size: u32, value: u32) -> (
        ScbView,
        WiresView,
        Result<(), BusError>,
    ) {
        s.write(w, offset, size, value)
    }

    /// The timer stops; the plain registers stay.
    open spec fn reset_of(s: ScbView, w: WiresView) -> (ScbView, WiresView) {
        (ScbView { syst_ctrl: 0, syst_load: 0, syst_val: 0, active: false, ..s }, w)
    }

    open spec fn tickable(s: ScbView, w: WiresView, cycles: u64) -> bool {
        true
    }

    open spec fn tick_of(s: ScbView, w: WiresView, cycles: u64) -> (ScbView, WiresView) {
        (
            s.ticked(cycles),
            if s.tick_pends(cycles) {
                WiresView { nvic: w.nvic.set_sys_pending(VECTOR_SYSTICK as int), ..w }
            } else {
                w
            },
        )
    }

    open spec fn label(s: ScbView) -> Seq<char> {
        "SCB"@
    }

    fn name(&self) -> &str {
        "SCB"
    }

    fn read(&mut self, w: &mut Wires, offset: u32, size: u32) -> Result<u32, BusError> {
        if self.has_mpu && mpu_answers(offset) {
            return w.mpu.read(offset, size);
        }
        if self.has_nvic && nvic_answers(offset) {
            return w.nvic.read(offset, size);
        }
        if size != 4 {
            return Err(BusError::NotImplemented);
        }
        match offset {
            ICSR_OFF => {
                let v: u32 = if self.has_nvic {
                    w.nvic.current_exception()
                } else {
                    0
                };
                proof {
                    bits::lemma_mask(ICSR_VECTACTIVE_MASK, 0);
                    bits::lemma_mask(0, ICSR_VECTACTIVE_MASK);
                }
                Ok(v & ICSR_VECTACTIVE_MASK)
            },
            SYST_CTRL_OFF => {
                let v = self.syst_ctrl;
                proof {
                    lemma_ctrl_bits(v);
                }
                self.syst_ctrl = v & !SYST_COUNTFLAG;
                Ok(v)
            },
            SYST_LOAD_OFF => Ok(self.syst_load),
            SYST_VAL_OFF => Ok(self.syst_val as u32),
            SYST_CALIB_OFF => Ok(0),
            _ => {
                let idx = (offset / 4) as usize;
                if idx < self.regs.len() {
                    Ok(self.regs[idx])
                } else {
                    Err(BusError::OutOfRange)
                }
            },
        }
    }

    fn write(&mut self, w: &mut Wires, offset: u32, size: u32, value: u32) -> Result<(), BusError> {
        if self.has_mpu && mpu_answers(offset) {
            return w.mpu.write(offset, size, value);
        }
        if self.has_nvic && nvic_answers(offset) {
            return w.nvic.write(offset, size, value);
        }
        if size != 4 {
            return Err(BusError::NotImplemented);
        }
        match offset {
            ICSR_OFF => {
                if self.has_nvic {
                    Self::write_icsr(w, value);
                }
                Ok(())
            },
            SYST_CTRL_OFF => {
                self.write_ctrl(value);
                Ok(())
            },
            SYST_LOAD_OFF => {
                self.syst_load = value;
                Ok(())
            },
            SYST_VAL_OFF => {
                proof {
                    lemma_ctrl_bits(self.syst_ctrl);
                }
                self.syst_ctrl = self.syst_ctrl & !SYST_COUNTFLAG;
                self.syst_val = self.syst_load as u64;
                Ok(())
            },
            _ => {
                let idx = (offset / 4) as usize;
                if idx < self.regs.len() {
                    self.regs[idx] = value;
                    Ok(())
                } else {
                    Err(BusError::OutOfRange)
                }
            },
        }
    }

    fn reset(&mut self, w: &mut Wires) {
        proof {
            lemma_ctrl_bits(0);
        }
        self.syst_ctrl = 0;
        self.syst_load = 0;
        self.syst_val = 0;
        self.active = false;
    }

    fn tick(&mut self, w: &mut Wires, cycles: u64) {
        if self.syst_ctrl & SYST_ENABLE == 0 {
            return ;
        }
        if cycles <= self.syst_val {
            self.syst_val = self.syst_val - cycles;
            return ;
        }
        proof {
            lemma_ctrl_bits(self.syst_ctrl);
        }
        self.syst_ctrl = self.syst_ctrl | SYST_COUNTFLAG;
        if self.syst_ctrl & SYST_TICKINT != 0 && self.has_nvic {
            w.nvic.set_sys_pending(VECTOR_SYSTICK);
        }
        let since = cycles - self.syst_val - 1;
        let period = self.syst_load as u64 + 1;
        self.syst_val = self.syst_load as u64 - since % period;
    }
}

/// The timer's period: counting from LOAD, the first overflow comes after LOAD + 1 cycles and
/// not before, and it leaves the count at LOAD again.
pub proof fn law_period_is_load_plus_one(s: ScbView, cycles: u64)
    requires
        s.wf(),
        s.enabled(),
        s.syst_val == s.syst_load,
    ensures
        s.overflows(cycles) <==> cycles >= s.syst_load + 1,
        s.ticked((s.syst_load + 1) as u64).syst_val == s.syst_load,
        s.ticked((s.syst_load + 1) as u64).syst_ctrl & SYST_COUNTFLAG != 0,
{
    bits::lemma_mask(s.syst_ctrl, SYST_COUNTFLAG);
    vstd::arithmetic::div_mod::lemma_small_mod(0, (s.syst_load + 1) as nat);
}

/// Cycles add up: two ticks in a row leave the timer where one tick of both leaves it, and
/// SysTick is pended by one of the two just if it is pended by the one.
pub proof fn law_cycles_add_up(s: ScbView, a: u64, b: u64)
    requires
        s.wf(),
        a + b <= u64::MAX,
    ensures
        s.ticked(a).ticked(b) == s.ticked((a + b) as u64),
        (s.tick_pends(a) || s.ticked(a).tick_pends(b)) == s.tick_pends((a + b) as u64),
{
    lemma_ctrl_bits(s.syst_ctrl);
    if s.enabled() {
        let t = s.ticked(a);
        let (v, l) = (s.syst_val as int, s.syst_load as int);
        let p = l + 1;
        if a > s.syst_val {
            let x = a - v - 1;
            lemma_reload(x, b as int, p);
            assert(t.syst_val == l - x % p);
        }
    }
}

/// Counting on from the middle of a period.
proof fn lemma_reload(x: int, b: int, p: int)
    requires
        x >= 0,
        b >= 0,
        p >= 1,
    ensures
        0 <= x % p < p,
        b <= p - 1 - x % p ==> (x + b) % p == x % p + b,
        b > p - 1 - x % p ==> (x + b) % p == (b - (p - 1 - x % p) - 1) % p,
{
    let (q, r) = (x / p, x % p);
    vstd::arithmetic::div_mod::lemma_fundamental_div_mod(x, p);
    vstd::arithmetic::div_mod::lemma_mod_bound(x, p);
    if b <= p - 1 - r {
        assert(x + b == p * q + (r + b));
        vstd::arithmetic::div_mod::lemma_fundamental_div_mod_converse(x + b, p, q, r + b);
    } else {
        let y = b - (p - 1 - r) - 1;
        assert(x + b == p * (q + 1) + y) by (nonlinear_arith)
            requires
                x == p * q + r,
                y == b - (p - 1 - r) - 1,
        ;
        vstd::arithmetic::div_mod::lemma_mod_multiples_vanish(q + 1, y, p);
    }
}

/// Reading the control register takes the overflow flag down, and nothing else.
pub proof fn law_reading_control_clears_the_flag(s: ScbView, w: WiresView)
    requires
        s.wf(),
    ensures
        ({
            let (t, r) = s.read(w, SYST_CTRL_OFF, 4);
            &&& r == Ok::<u32, BusError>(s.syst_ctrl)
            &&& t.syst_ctrl & SYST_COUNTFLAG == 0
            &&& t == (ScbView { syst_ctrl: t.syst_ctrl, ..s })
            &&& t.syst_ctrl & !SYST_COUNTFLAG == s.syst_ctrl & !SYST_COUNTFLAG
        }),
{
    bits::lemma_mask(s.syst_ctrl, SYST_COUNTFLAG);
    bits::lemma_mask(s.syst_ctrl, !SYST_COUNTFLAG);
}

/// A plain register reads back what was written to it.
pub proof fn law_plain_registers_read_back(s: ScbView, w: WiresView, offset: u32, value: u32)
    requires
        offset as int / 4 < s.regs.len(),
        !is_mpu_offset(offset),
        !is_nvic_offset(offset),
        offset != ICSR_OFF,
        !(SYST_CTRL_OFF <= offset <= SYST_CALIB_OFF),
    ensures
        s.write(w, offset, 4, value).0.read(w, offset, 4).1 == Ok::<u32, BusError>(value),
{
}

/// One cycle of the timer: the count goes down by one. At zero it starts over from LOAD, the
/// overflow flag goes up, and SysTick is pending if the timer's interrupt is enabled. A timer that
/// is off stands still.
pub proof fn law_one_cycle(s: ScbView, w: WiresView)
    requires
        s.wf(),
    ensures
        ({
            let (t, v) = SystemControl::tick_of(s, w, 1);
            let on = s.syst_ctrl & 1 != 0;
            &&& !on ==> t == s && v == w
            &&& on && s.syst_val > 0 ==> t.syst_val == s.syst_val - 1 && t.syst_ctrl == s.syst_ctrl && v
                == w
            &&& on && s.syst_val == 0 ==> {
                &&& t.syst_val == s.syst_load
                &&& t.syst_ctrl == s.syst_ctrl | 0x1_0000
                &&& s.syst_ctrl & 2 != 0 && s.has_nvic ==> {
                    &&& v.nvic == w.nvic.set_sys_pending(15)
                    &&& bits::has_bit(v.nvic.sys_pending, 15)
                }
                &&& !(s.syst_ctrl & 2 != 0 && s.has_nvic) ==> v == w
            }
            &&& t.regs == s.regs && t.syst_load == s.syst_load
        }),
{
    vstd::arithmetic::div_mod::lemma_small_mod(0, (s.syst_load + 1) as nat);
    bits::lemma_set_bit(w.nvic.sys_pending, 15, 15);
}

/// Within the count the timer moves by the cycles without an overflow.
pub proof fn law_counting_down(s: ScbView, w: WiresView, cycles: u64)
    requires
        s.wf(),
        s.syst_ctrl & 1 != 0,
        cycles <= s.syst_val,
    ensures
        SystemControl::tick_of(s, w, cycles) == (
            ScbView { syst_val: (s.syst_val - cycles) as u64, ..s },
            w,
        ),
{
}

/// Setting up the timer: switching it on loads the count, any write to the count loads it and
/// takes the overflow flag down, the reload value holds what was written. The control register
/// takes three bits and keeps the overflow flag.
pub proof fn law_timer_registers(s: ScbView, w: WiresView, value: u32)
    requires
        s.wf(),
    ensures
        ({
            let t = s.write(w, 0x10, 4, value).0;
            &&& t.syst_ctrl == (s.syst_ctrl & 0x1_0000) | (value & 7)
            &&& t.active == (t.syst_ctrl & 1 != 0)
            &&& t.syst_val == if s.syst_ctrl & 1 == 0 && t.syst_ctrl & 1 != 0 {
                s.syst_load as u64
            } else {
                s.syst_val
            }
            &&& t.syst_load == s.syst_load
        }),
        s.write(w, 0x14, 4, value).0 == (ScbView { syst_load: value, ..s }),
        ({
            let t = s.write(w, 0x18, 4, value).0;
            t.syst_val == s.syst_load && t.syst_ctrl == s.syst_ctrl & !0x1_0000u32
        }),
        s.read(w, 0x14, 4).1 == Ok::<u32, BusError>(s.syst_load),
        s.read(w, 0x18, 4).1 == Ok::<u32, BusError>(s.syst_val as u32),
{
}

/// The interrupt control register: bit 28 makes PendSV pending and bit 27 takes it back, bit 26
/// and bit 25 do the same for SysTick; clearing wins. It shows the running exception.
pub proof fn law_interrupt_control(s: ScbView, w: WiresView, value: u32, j: int)
    requires
        s.has_nvic,
        0 <= j < 32,
    ensures
        ({
            let (t, v, r) = s.write(w, 0xD04, 4, value);
            let (sv, st) = (value & 0x1000_0000 != 0, value & 0x0400_0000 != 0);
            let (no_sv, no_st) = (value & 0x0800_0000 != 0, value & 0x0200_0000 != 0);
            let before = bits::has_bit(w.nvic.sys_pending, j);
            &&& r is Ok && t == s
            &&& v.nvic.pending == w.nvic.pending && v.nvic.stack == w.nvic.stack
            &&& bits::has_bit(v.nvic.sys_pending, j) <==> if j == 14 {
                !no_sv && (sv || before)
            } else if j == 15 {
                !no_st && (st || before)
            } else {
                before
            }
        }),
        s.read(w, 0xD04, 4).1 == Ok::<u32, BusError>(
            if w.nvic.stack.len() > 0 {
                w.nvic.stack.last() & 0x1FF
            } else {
                0
            },
        ),
{
    let p0 = w.nvic.sys_pending;
    let p1 = if value & 0x1000_0000 != 0 {
        p0 | bits::bit(14)
    } else {
        p0
    };
    let p2 = if value & 0x0800_0000 != 0 {
        p1 & !bits::bit(14)
    } else {
        p1
    };
    let p3 = if value & 0x0400_0000 != 0 {
        p2 | bits::bit(15)
    } else {
        p2
    };
    bits::lemma_set_bit(p0, 14, j);
    bits::lemma_clear_bit(p1, 14, j);
    bits::lemma_set_bit(p2, 15, j);
    bits::lemma_clear_bit(p3, 15, j);
}

/// The block hands the windows of the interrupt controller and of the memory protection unit on
/// to them, if they are wired up, and keeps nothing of it.
pub proof fn law_windows_are_handed_on(s: ScbView, w: WiresView, offset: u32, size: u32, value: u32)
    requires
        s.has_mpu,
        s.has_nvic,
    ensures
        0xD90 <= offset <= 0xDB8 || offset == 0xD28 || offset == 0xD34 ==> {
            &&& s.read(w, offset, size).1 == w.mpu.read(offset, size)
            &&& s.write(w, offset, size, value).0 == s
            &&& s.write(w, offset, size, value).1.mpu == w.mpu.write(offset, size, value).0
            &&& s.write(w, offset, size, value).1.nvic == w.nvic
        },
        0x100 <= offset < 0x500 || 0xD18 <= offset < 0xD24 || offset == 0x00C ==> {
            &&& s.read(w, offset, size).1 == w.nvic.read(offset, size)
            &&& s.write(w, offset, size, value).0 == s
            &&& s.write(w, offset, size, value).1.nvic == w.nvic.write(offset, size, value).0
            &&& s.write(w, offset, size, value).1.mpu == w.mpu
        },
{
}

} // verus!
