//! The reset and clock controller.
//!
//! A register file with three live spots: switching an oscillator on makes it ready at once,
//! the clock switch follows the request if the requested source is ready (else it stays on the
//! internal oscillator), and the reset flags are set by resets and cleared by RMVF. The clock
//! tree is computed from the source in use and the prescalers.
use crate::bits;
use crate::peripheral::wdog::ResetReason;
use crate::peripheral::{BusError, Peripheral};
use crate::wires::{Wires, WiresView};
use vstd::prelude::*;

verus! {

/// The internal oscillator.
pub const HSI_FREQ_HZ: u32 = 16_000_000;

/// The external crystal.
pub const HSE_FREQ_HZ: u32 = 8_000_000;

pub const OFF_CR: u32 = 0x00;

pub const OFF_PLLCFGR: u32 = 0x04;

pub const OFF_CFGR: u32 = 0x08;

pub const OFF_CIR: u32 = 0x0C;

pub const OFF_AHB1RSTR: u32 = 0x10;

pub const OFF_AHB2RSTR: u32 = 0x14;

pub const OFF_AHB3RSTR: u32 = 0x18;

pub const OFF_APB1RSTR: u32 = 0x20;

pub const OFF_APB2RSTR: u32 = 0x24;

pub const OFF_AHB1ENR: u32 = 0x30;

pub const OFF_AHB2ENR: u32 = 0x34;

pub const OFF_AHB3ENR: u32 = 0x38;

pub const OFF_APB1ENR: u32 = 0x40;

pub const OFF_APB2ENR: u32 = 0x44;

pub const OFF_AHB1LPENR: u32 = 0x50;

pub const OFF_AHB2LPENR: u32 = 0x54;

pub const OFF_AHB3LPENR: u32 = 0x58;

pub const OFF_APB1LPENR: u32 = 0x60;

pub const OFF_APB2LPENR: u32 = 0x64;

pub const OFF_BDCR: u32 = 0x70;

pub const OFF_CSR: u32 = 0x74;

pub const OFF_SSCGR: u32 = 0x80;

pub const OFF_PLLI2SCFGR: u32 = 0x84;

pub const OFF_DCKCFGR: u32 = 0x8C;

pub const CR_HSEON: u32 = 0x1_0000;

pub const CR_HSERDY: u32 = 0x2_0000;

pub const CR_PLLON: u32 = 0x100_0000;

pub const CR_PLLRDY: u32 = 0x200_0000;

/// The control register after a reset.
pub const CR_RESET: u32 = 0x83;

pub const CSR_LPWRRSTF: u32 = 0x8000_0000;

pub const CSR_IWDGRSTF: u32 = 0x1000_0000;

pub const CSR_WWDGRSTF: u32 = 0x0800_0000;

/// Clears the reset flags.
pub const CSR_RMVF: u32 = 0x0100_0000;

pub const CSR_RESET_FLAGS: u32 = 0x9800_0000;

/// The frequencies of the chip, in Hertz.
#[derive(Debug, Clone, Copy, PartialEq, Eq, Structural)]
pub struct ClockTree {
    pub sysclk: u32,
    pub hclk: u32,
    pub pclk1: u32,
    pub pclk2: u32,
    pub timer_clk1: u32,
    pub timer_clk2: u32,
}

/// Reset and clock controller.
pub struct Rcc {
    regs: [u32; 36],
}

/// The state of the controller.
#[verifier::ext_equal]
pub struct RccView {
    /// The register file, by offset divided by four.
    pub regs: Seq<u32>,
}

impl View for Rcc {
    type V = RccView;

    closed spec fn view(&self) -> RccView {
        RccView { regs: self.regs@ }
    }
}

/// The divider that the four bits HPRE select.
pub open spec fn ahb_divider(cfgr: u32) -> u32 {
    let hpre = (cfgr / 0x10) % 0x10;
    if hpre < 8 {
        1
    } else if hpre == 8 {
        2
    } else if hpre == 9 {
        4
    } else if hpre == 10 {
        8
    } else if hpre == 11 {
        16
    } else if hpre == 12 {
        64
    } else if hpre == 13 {
        128
    } else if hpre == 14 {
        256
    } else {
        512
    }
}

/// The divider that three bits PPRE select.
pub open spec fn apb_divider(ppre: u32) -> u32 {
    if ppre < 4 {
        1
    } else if ppre == 4 {
        2
    } else if ppre == 5 {
        4
    } else if ppre == 6 {
        8
    } else {
        16
    }
}

/// The timer clock of a bus: that of the bus, or twice it where the bus is divided.
pub open spec fn timer_clock(hclk: u32, pclk: u32) -> int {
    if pclk == hclk {
        pclk as int
    } else {
        pclk * 2
    }
}

/// The flag that a reset sets.
pub open spec fn reset_flag(reason: ResetReason) -> u32 {
    match reason {
        ResetReason::Iwdg => CSR_IWDGRSTF,
        ResetReason::Wwdg => CSR_WWDGRSTF,
        ResetReason::LowPower => CSR_LPWRRSTF,
    }
}

/// The control register with the ready bits as the switches demand.
pub open spec fn with_ready_bits(cr: u32) -> u32 {
    let a = if cr & CR_HSEON != 0 {
        cr | CR_HSERDY
    } else {
        cr & !CR_HSERDY
    };
    if a & CR_PLLON != 0 {
        a | CR_PLLRDY
    } else {
        a & !CR_PLLRDY
    }
}

/// The clock source in use, for the request in the low two bits of `cfgr`: the crystal (1) or
/// the PLL (2) if it is requested and ready, else the internal oscillator (0).
pub open spec fn source_in_use(cr: u32, cfgr: u32) -> u32 {
    if cfgr % 4 == 1 && cr & CR_HSERDY != 0 {
        1
    } else if cfgr % 4 == 2 && cr & CR_PLLRDY != 0 {
        2
    } else {
        0
    }
}

impl RccView {
    pub open spec fn fresh() -> RccView {
        RccView { regs: Seq::new(36, |i: int| 0u32).update(0, CR_RESET) }
    }

    pub open spec fn wf(self) -> bool {
        self.regs.len() == 36
    }

    pub open spec fn csr(self) -> u32 {
        self.regs[29]
    }

    /// The source field of the configuration register.
    pub open spec fn sws(self) -> u32 {
        (self.regs[2] / 4) % 4
    }

    pub open spec fn pll_m(self) -> u32 {
        self.regs[1] % 0x40
    }

    pub open spec fn pll_n(self) -> u32 {
        (self.regs[1] / 0x40) % 0x200
    }

    pub open spec fn pll_p(self) -> u32 {
        let field = (self.regs[1] / 0x1_0000) % 4;
        (2 * field + 2) as u32
    }

    pub open spec fn pll_source(self) -> u32 {
        if self.regs[1] & 0x40_0000 != 0 {
            HSE_FREQ_HZ
        } else {
            HSI_FREQ_HZ
        }
    }

    /// The frequency inside the PLL, before the last divider.
    pub open spec fn vco(self) -> int {
        if self.pll_m() == 0 {
            0
        } else {
            (self.pll_source() / self.pll_m()) * self.pll_n()
        }
    }

    /// The frequency of the PLL: 0 if the input divider or the multiplier is 0.
    pub open spec fn pll_clk(self) -> int {
        self.vco() / self.pll_p() as int
    }

    /// Is the PLL set up so that its inner frequency fits in 32 bits?
    pub open spec fn pll_fits(self) -> bool {
        self.vco() <= u32::MAX
    }

    pub open spec fn sysclk(self) -> int {
        if self.sws() == 1 {
            HSE_FREQ_HZ as int
        } else if self.sws() == 2 {
            self.pll_clk()
        } else {
            HSI_FREQ_HZ as int
        }
    }

    /// The clock tree.
    pub open spec fn clocks(self) -> ClockTree {
        let cfgr = self.regs[2];
        let sysclk = self.sysclk() as u32;
        let hclk = sysclk / ahb_divider(cfgr);
        let pclk1 = hclk / apb_divider((cfgr / 0x400) % 8);
        let pclk2 = hclk / apb_divider((cfgr / 0x2000) % 8);
        ClockTree {
            sysclk,
            hclk,
            pclk1,
            pclk2,
            timer_clk1: timer_clock(hclk, pclk1) as u32,
            timer_clk2: timer_clock(hclk, pclk2) as u32,
        }
    }

    pub open spec fn record_reset(self, reason: ResetReason) -> RccView {
        RccView { regs: self.regs.update(29, self.csr() | reset_flag(reason)) }
    }

    /// The source field is brought up to date.
    pub open spec fn switched(self) -> RccView {
        RccView {
            regs: self.regs.update(
                2,
                (self.regs[2] & 0xFFFF_FFF3) | (4 * source_in_use(
                    self.regs[0],
                    self.regs[2],
                )) as u32,
            ),
        }
    }

    pub open spec fn read(self, offset: u32, size: u32) -> Result<u32, BusError> {
        if size != 4 {
            Err(BusError::NotImplemented)
        } else if offset < 0x90 {
            Ok(self.regs[offset as int / 4])
        } else {
            Err(BusError::OutOfRange)
        }
    }

    pub open spec fn write(self, offset: u32, size: u32, value: u32) -> (RccView, Result<
        (),
        BusError,
    >) {
        if size != 4 {
            (self, Err(BusError::NotImplemented))
        } else if offset >= 0x90 {
            (self, Err(BusError::OutOfRange))
        } else if offset == OFF_CSR {
            (
                if value & CSR_RMVF != 0 {
                    RccView { regs: self.regs.update(29, self.csr() & !CSR_RESET_FLAGS) }
                } else {
                    self
                },
                Ok(()),
            )
        } else if offset == OFF_CR {
            (RccView { regs: self.regs.update(0, with_ready_bits(value)) }.switched(), Ok(()))
        } else if offset == OFF_CFGR {
            (RccView { regs: self.regs.update(2, value) }.switched(), Ok(()))
        } else {
            (RccView { regs: self.regs.update(offset as int / 4, value) }, Ok(()))
        }
    }
}

fn ahb_div(cfgr: u32) -> (r: u32)
    ensures
        r == ahb_divider(cfgr),
        1 <= r <= 512,
{
    match (cfgr / 0x10) % 0x10 {
        8 => 2,
        9 => 4,
        10 => 8,
        11 => 16,
        12 => 64,
        13 => 128,
        14 => 256,
        15 => 512,
        _ => 1,
    }
}

fn apb_div(ppre: u32) -> (r: u32)
    ensures
        r == apb_divider(ppre),
        1 <= r <= 16,
{
    if ppre < 4 {
        1
    } else {
        match ppre {
            4 => 2,
            5 => 4,
            6 => 8,
            _ => 16,
        }
    }
}

fn timer_clk(hclk: u32, pclk: u32, div: u32) -> (r: u32)
    requires
        1 <= div <= 16,
        pclk == hclk / div,
    ensures
        r == timer_clock(hclk, pclk),
{
    if pclk == hclk {
        pclk
    } else {
        assert(pclk * 2 <= hclk) by (nonlinear_arith)
            requires
                1 <= div,
                pclk == hclk / div,
                pclk != hclk,
        ;
        pclk * 2
    }
}

impl Rcc {
    pub fn new() -> (r: Self)
        ensures
            r@ == RccView::fresh(),
            r@.wf(),
    {
        let mut regs: [u32; 36] = bits::filled(0);
        regs[0] = CR_RESET;
        let r = Rcc { regs };
        assert(r@ =~= RccView::fresh());
        r
    }

    /// Sets the flag of the reset that just happened.
    pub fn record_reset(&mut self, reason: ResetReason)
        requires
            old(self)@.wf(),
        ensures
            final(self)@.wf(),
            final(self)@ == old(self)@.record_reset(reason),
    {
        let flag: u32 = match reason {
            ResetReason::Iwdg => CSR_IWDGRSTF,
            ResetReason::Wwdg => CSR_WWDGRSTF,
            ResetReason::LowPower => CSR_LPWRRSTF,
        };
        self.regs[29] = self.regs[29] | flag;
    }

    /// The control and status register, with the reset flags.
    pub fn csr(&self) -> (r: u32)
        ensures
            r == self@.csr(),
    {
        self.regs[29]
    }

    /// The frequency of the PLL.
    pub fn pll_clk(&self) -> (r: u32)
        requires
            self@.pll_fits(),
        ensures
            r == self@.pll_clk(),
    {
        let p = self.regs[1];
        let m = p % 0x40;
        let n = (p / 0x40) % 0x200;
        let pllp = 2 * ((p / 0x1_0000) % 4) + 2;
        let src: u32 = if p & 0x40_0000 != 0 {
            HSE_FREQ_HZ
        } else {
            HSI_FREQ_HZ
        };
        if m == 0 || n == 0 {
            assert(self@.vco() == 0) by (nonlinear_arith)
                requires
                    m == self@.pll_m(),
                    n == self@.pll_n(),
                    m == 0 || n == 0,
                    self@.vco() == (if self@.pll_m() == 0 {
                        0
                    } else {
                        (self@.pll_source() / self@.pll_m()) * self@.pll_n()
                    }),
            ;
            return 0;
        }
        (src / m) * n / pllp
    }

    /// The clock tree, for the source in use.
    pub fn clocks(&self) -> (r: ClockTree)
        requires
            self@.sws() == 2 ==> self@.pll_fits(),
        ensures
            r == self@.clocks(),
            r.sysclk == self@.sysclk(),
    {
        let cfgr = self.regs[2];
        let sysclk: u32 = match (cfgr / 4) % 4 {
            1 => HSE_FREQ_HZ,
            2 => self.pll_clk(),
            _ => HSI_FREQ_HZ,
        };
        let hclk = sysclk / ahb_div(cfgr);
        let d1 = apb_div((cfgr / 0x400) % 8);
        let d2 = apb_div((cfgr / 0x2000) % 8);
        let pclk1 = hclk / d1;
        let pclk2 = hclk / d2;
        ClockTree {
            sysclk,
            hclk,
            pclk1,
            pclk2,
            timer_clk1: timer_clk(hclk, pclk1, d1),
            timer_clk2: timer_clk(hclk, pclk2, d2),
        }
    }

    fn recompute_sws(&mut self)
        requires
            old(self)@.wf(),
        ensures
            final(self)@.wf(),
            final(self)@ == old(self)@.switched(),
    {
        let cr = self.regs[0];
        let cfgr = self.regs[2];
        let sws: u32 = if cfgr % 4 == 1 && cr & CR_HSERDY != 0 {
            1
        } else if cfgr % 4 == 2 && cr & CR_PLLRDY != 0 {
            2
        } else {
            0
        };
        self.regs[2] = (cfgr & 0xFFFF_FFF3) | (4 * sws);
    }
}

impl Default for Rcc {
    fn default() -> (r: Self)
        ensures
            r@ == RccView::fresh(),
    {
        Self::new()
    }
}

impl Peripheral for Rcc {
    open spec fn inv(s: RccView) -> bool {
        s.wf()
    }

    open spec fn readable(s: RccView, w: WiresView, offset: u32, size: u32) -> bool {
        true
    }

    open spec fn read_of(s: RccView, w: WiresView, offset: u32, size: u32) -> (
        RccView,
        WiresView,
        Result<u32, BusError>,
    ) {
        (s, w, s.read(offset, size))
    }

    open spec fn writable(s: RccView, w: WiresView, offset: u32, size: u32, value: u32) -> bool {
        true
    }

    open spec fn write_of(s: RccView, w: WiresView, offset: u32, size: u32, value: u32) -> (
        RccView,
        WiresView,
        Result<(), BusError>,
    ) {
        let (s1, r) = s.write(offset, size, value);
        (s1, w, r)
    }

    open spec fn reset_of(s: RccView, w: WiresView) -> (RccView, WiresView) {
        (RccView::fresh(), w)
    }

    open spec fn tickable(s: RccView, w: WiresView, cycles: u64) -> bool {
        true
    }

    open spec fn tick_of(s: RccView, w: WiresView, cycles: u64) -> (RccView, WiresView) {
        (s, w)
    }

    open spec fn label(s: RccView) -> Seq<char> {
        "RCC"@
    }

    fn name(&self) -> &str {
        "RCC"
    }

    fn read(&mut self, w: &mut Wires, offset: u32, size: u32) -> Result<u32, BusError> {
        if size != 4 {
            return Err(BusError::NotImplemented);
        }
        if offset < 0x90 {
            Ok(self.regs[(offset / 4) as usize])
        } else {
            Err(BusError::OutOfRange)
        }
    }

    fn write(&mut self, w: &mut Wires, offset: u32, size: u32, value: u32) -> Result<(), BusError> {
        if size != 4 {
            return Err(BusError::NotImplemented);
        }
        if offset >= 0x90 {
            return Err(BusError::OutOfRange);
        }
        match offset {
            OFF_CSR => {
                if value & CSR_RMVF != 0 {
                    self.regs[29] = self.regs[29] & !CSR_RESET_FLAGS;
                }
            },
            OFF_CR => {
                let mut cr = value;
                if cr & CR_HSEON != 0 {
                    cr = cr | CR_HSERDY;
                } else {
                    cr = cr & !CR_HSERDY;
                }
                if cr & CR_PLLON != 0 {
                    cr = cr | CR_PLLRDY;
                } else {
                    cr = cr & !CR_PLLRDY;
                }
                self.regs[0] = cr;
                self.recompute_sws();
            },
            OFF_CFGR => {
                self.regs[2] = value;
                self.recompute_sws();
            },
            _ => {
                self.regs[(offset / 4) as usize] = value;
            },
        }
        Ok(())
    }

    fn reset(&mut self, w: &mut Wires) {
        self.regs = bits::filled(0);
        self.regs[0] = CR_RESET;
        assert(self@ =~= RccView::fresh());
    }

    fn tick(&mut self, w: &mut Wires, cycles: u64) {
    }
}

/// The field that shows the source is the source in use, and the request stays what it was.
pub proof fn law_switch_shows_the_source(s: RccView)
    requires
        s.wf(),
    ensures
        s.switched().sws() == source_in_use(s.regs[0], s.regs[2]),
        s.switched().regs[2] % 4 == s.regs[2] % 4,
        s.switched().regs[0] == s.regs[0],
{
    let (c, v) = (s.regs[2], source_in_use(s.regs[0], s.regs[2]));
    let f = (4 * v) as u32;
    assert(f == 0 || f == 4 || f == 8 ==> (((c & 0xFFFF_FFF3) | f) / 4) % 4 == f / 4 && ((c
        & 0xFFFF_FFF3) | f) % 4 == c % 4) by (bit_vector);
}

/// An oscillator is ready just if it is on.
pub proof fn law_ready_follows_on(s: RccView, value: u32)
    requires
        s.wf(),
    ensures
        ({
            let cr = s.write(OFF_CR, 4, value).0.regs[0];
            &&& (cr & CR_HSERDY != 0) == (value & CR_HSEON != 0)
            &&& (cr & CR_PLLRDY != 0) == (value & CR_PLLON != 0)
        }),
{
    let x = value;
    assert((with_ready_bits(x) & 0x2_0000 != 0 <==> x & 0x1_0000 != 0) && (with_ready_bits(x)
        & 0x200_0000 != 0 <==> x & 0x100_0000 != 0)) by (bit_vector);
}

/// No bus runs faster than the one that feeds it, and no timer faster than the core bus.
pub proof fn law_clocks_only_slow_down(s: RccView)
    requires
        s.wf(),
        s.sws() == 2 ==> s.pll_fits(),
    ensures
        ({
            let c = s.clocks();
            &&& c.pclk1 <= c.hclk <= c.sysclk
            &&& c.pclk2 <= c.hclk
            &&& c.timer_clk1 <= c.hclk
            &&& c.timer_clk2 <= c.hclk
            &&& c.pclk1 <= c.timer_clk1
            &&& c.pclk2 <= c.timer_clk2
        }),
{
    let cfgr = s.regs[2];
    let c = s.clocks();
    let (d, d1, d2) = (
        ahb_divider(cfgr),
        apb_divider((cfgr / 0x400) % 8),
        apb_divider((cfgr / 0x2000) % 8),
    );
    lemma_divided(c.sysclk, d);
    lemma_divided(c.hclk, d1);
    lemma_divided(c.hclk, d2);
}

proof fn lemma_divided(x: u32, d: u32)
    requires
        1 <= d,
    ensures
        x / d <= x,
        x / d != x ==> (x / d) * 2 <= x,
{
    assert(x / d <= x && (x / d != x ==> (x / d) * 2 <= x)) by (nonlinear_arith)
        requires
            1 <= d,
    ;
}

/// The reset flags stay set until they are removed.
pub proof fn law_reset_flags(s: RccView, reason: ResetReason, value: u32)
    requires
        s.wf(),
    ensures
        s.record_reset(reason).csr() & reset_flag(reason) != 0,
        value & CSR_RMVF == 0 ==> s.write(OFF_CSR, 4, value).0 == s,
        value & CSR_RMVF != 0 ==> s.write(OFF_CSR, 4, value).0.csr() & CSR_RESET_FLAGS == 0,
{
    crate::bits::lemma_mask(s.csr(), reset_flag(reason));
    crate::bits::lemma_mask(s.csr(), CSR_RESET_FLAGS);
}

/// The system clock is 16 MHz from the internal oscillator, 8 MHz from the crystal, or what the
/// PLL makes of one of the two: divided by the low six bits of its register, times the nine bits
/// above them, divided by two, four, six or eight.
pub proof fn law_system_clock(s: RccView)
    requires
        s.wf(),
        (s.regs[2] / 4) % 4 == 2 ==> s.pll_fits(),
    ensures
        ({
            let source = (s.regs[2] / 4) % 4;
            let pll = s.regs[1];
            let m = (pll % 64) as int;
            let n = ((pll / 64) % 512) as int;
            let p = 2 + 2 * ((pll / 0x1_0000) % 4);
            let f = s.clocks().sysclk as int;
            &&& source == 0 || source == 3 ==> f == 16_000_000
            &&& source == 1 ==> f == 8_000_000
            &&& source == 2 && m == 0 ==> f == 0
            &&& source == 2 && m != 0 && pll & 0x40_0000 == 0 ==> f == (16_000_000int / m) * n / p
            &&& source == 2 && m != 0 && pll & 0x40_0000 != 0 ==> f == (8_000_000int / m) * n / p
        }),
{
    let p = s.pll_p() as int;
    let v = s.vco();
    assert(p == 2 + 2 * ((s.regs[1] / 0x1_0000) % 4));
    if (s.regs[2] / 4) % 4 == 2 {
        let (a, n) = (s.pll_source() / s.pll_m(), s.pll_n());
        assert(a * n >= 0) by (nonlinear_arith);
        assert(0 <= v / p <= v) by (nonlinear_arith)
            requires
                p >= 1,
                v >= 0,
        ;
        if s.pll_m() == 0 {
            assert(v / p == 0) by (nonlinear_arith)
                requires
                    v == 0,
                    p >= 1,
            ;
        }
    }
}

/// The core clock is the system clock divided as bits 4 to 7 of the configuration say, and each
/// peripheral bus divides it again, the slow one as bits 10 to 12 say and the fast one as bits
/// 13 to 15 say. A timer runs with its bus, or twice as fast where the bus is divided.
pub proof fn law_dividers(s: RccView)
    requires
        s.wf(),
        s.sws() == 2 ==> s.pll_fits(),
    ensures
        ({
            let c = s.clocks();
            let cfgr = s.regs[2];
            let h = (cfgr / 0x10) % 16;
            &&& h < 8 ==> c.hclk == c.sysclk
            &&& h == 8 ==> c.hclk == c.sysclk / 2
            &&& h == 9 ==> c.hclk == c.sysclk / 4
            &&& h == 10 ==> c.hclk == c.sysclk / 8
            &&& h == 11 ==> c.hclk == c.sysclk / 16
            &&& h == 12 ==> c.hclk == c.sysclk / 64
            &&& h == 13 ==> c.hclk == c.sysclk / 128
            &&& h == 14 ==> c.hclk == c.sysclk / 256
            &&& h == 15 ==> c.hclk == c.sysclk / 512
            &&& forall|p: u32|
                #![trigger apb_divider(p)]
                p == (cfgr / 0x400) % 8 ==> {
                    &&& p < 4 ==> c.pclk1 == c.hclk
                    &&& p == 4 ==> c.pclk1 == c.hclk / 2
                    &&& p == 5 ==> c.pclk1 == c.hclk / 4
                    &&& p == 6 ==> c.pclk1 == c.hclk / 8
                    &&& p == 7 ==> c.pclk1 == c.hclk / 16
                }
            &&& forall|p: u32|
                #![trigger apb_divider(p)]
                p == (cfgr / 0x2000) % 8 ==> {
                    &&& p < 4 ==> c.pclk2 == c.hclk
                    &&& p == 4 ==> c.pclk2 == c.hclk / 2
                    &&& p == 5 ==> c.pclk2 == c.hclk / 4
                    &&& p == 6 ==> c.pclk2 == c.hclk / 8
                    &&& p == 7 ==> c.pclk2 == c.hclk / 16
                }
            &&& c.timer_clk1 == if c.pclk1 == c.hclk {
                c.pclk1 as int
            } else {
                2 * c.pclk1
            }
            &&& c.timer_clk2 == if c.pclk2 == c.hclk {
                c.pclk2 as int
            } else {
                2 * c.pclk2
            }
        }),
{
    law_clocks_only_slow_down(s);
    let c = s.clocks();
    lemma_divided(c.hclk, apb_divider((s.regs[2] / 0x400) % 8));
    lemma_divided(c.hclk, apb_divider((s.regs[2] / 0x2000) % 8));
}

/// Once the crystal is on and asked for, the chip runs from it; and so with the PLL. Whatever is
/// asked for without being on leaves the internal oscillator in use.
pub proof fn law_switching(s: RccView, cr: u32, cfgr: u32)
    requires
        s.wf(),
    ensures
        ({
            let t = s.write(0, 4, cr).0.write(8, 4, cfgr).0;
            let u = s.write(8, 4, cfgr).0.write(0, 4, cr).0;
            let hse = cr & 0x1_0000 != 0;
            let pll = cr & 0x100_0000 != 0;
            &&& cfgr % 4 == 1 && hse ==> (t.regs[2] / 4) % 4 == 1 && (u.regs[2] / 4) % 4 == 1
            &&& cfgr % 4 == 2 && pll ==> (t.regs[2] / 4) % 4 == 2 && (u.regs[2] / 4) % 4 == 2
            &&& !(cfgr % 4 == 1 && hse) && !(cfgr % 4 == 2 && pll) ==> (t.regs[2] / 4) % 4 == 0 && (
            u.regs[2] / 4) % 4 == 0
        }),
{
    let a = s.write(0, 4, cr).0;
    law_ready_follows_on(s, cr);
    law_switch_shows_the_source(RccView { regs: a.regs.update(2, cfgr) });
    let b = s.write(8, 4, cfgr).0;
    law_switch_shows_the_source(RccView { regs: s.regs.update(2, cfgr) });
    law_ready_follows_on(b, cr);
    law_switch_shows_the_source(RccView { regs: b.regs.update(0, with_ready_bits(cr)) });
}

/// Each reason for a reset has a flag of its own: bit 28 for the independent watchdog, bit 27 for
/// the window watchdog, bit 31 for a wake-up. Recording one leaves the other bits alone.
pub proof fn law_reset_reasons(s: RccView)
    requires
        s.wf(),
    ensures
        s.record_reset(ResetReason::Iwdg).read(0x74, 4) == Ok::<u32, BusError>(
            s.regs[29] | 0x1000_0000,
        ),
        s.record_reset(ResetReason::Wwdg).read(0x74, 4) == Ok::<u32, BusError>(
            s.regs[29] | 0x0800_0000,
        ),
        s.record_reset(ResetReason::LowPower).read(0x74, 4) == Ok::<u32, BusError>(
            s.regs[29] | 0x8000_0000,
        ),
        forall|value: u32|
            #![trigger s.write(0x74, 4, value)]
            value & 0x100_0000 != 0 ==> s.write(0x74, 4, value).0.regs[29] == s.regs[29]
                & !0x9800_0000u32,
{
}

/// The other registers read back what was written.
pub proof fn law_plain_registers(s: RccView, offset: u32, value: u32)
    requires
        s.wf(),
        offset < 0x90,
        offset % 4 == 0,
        offset != 0,
        offset != 8,
        offset != 0x74,
    ensures
        s.write(offset, 4, value).0.read(offset, 4) == Ok::<u32, BusError>(value),
        forall|other: u32|
            #![trigger s.read(other, 4)]
            other % 4 == 0 && other != offset ==> s.write(offset, 4, value).0.read(other, 4)
                == s.read(other, 4),
{
}

} // verus!
