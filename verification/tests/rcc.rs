use mcu_simulater::peripheral::rcc::{
    ClockTree, Rcc, CR_HSEON, CR_HSERDY, CR_PLLON, CR_PLLRDY, HSE_FREQ_HZ, HSI_FREQ_HZ, OFF_CFGR,
    OFF_CR, OFF_PLLCFGR,
};
use mcu_simulater::peripheral::Peripheral;
use mcu_simulater::wires::Wires;

#[test]
fn enable_bit_mirror() {
    let mut r = Rcc::new();
    let mut w = Wires::new();
    r.write(&mut w, 0x30, 4, 1).unwrap();
    assert_eq!(r.read(&mut w, 0x30, 4).unwrap(), 1);
    r.write(&mut w, 0x40, 4, 1).unwrap();
    assert_eq!(r.read(&mut w, 0x40, 4).unwrap(), 1);
}

#[test]
fn default_clocks_are_hsi_16m() {
    let r = Rcc::new();
    let c = r.clocks();
    assert_eq!(
        c,
        ClockTree {
            sysclk: 16_000_000,
            hclk: 16_000_000,
            pclk1: 16_000_000,
            pclk2: 16_000_000,
            timer_clk1: 16_000_000,
            timer_clk2: 16_000_000,
        }
    );
}

#[test]
fn hse_pll_168mhz_clock_tree() {
    let mut r = Rcc::new();
    let mut w = Wires::new();
    r.write(&mut w, OFF_CR, 4, CR_HSEON | CR_PLLON).unwrap();
    let cr = r.read(&mut w, OFF_CR, 4).unwrap();
    assert_ne!(cr & CR_HSERDY, 0);
    assert_ne!(cr & CR_PLLRDY, 0);
    let pllcfgr = (7 << 24) | (1 << 22) | (336 << 6) | (8 << 0);
    r.write(&mut w, OFF_PLLCFGR, 4, pllcfgr).unwrap();
    assert_eq!(r.pll_clk(), 168_000_000);
    let cfgr = (2 << 0) | (0 << 4) | (5 << 10) | (4 << 13);
    r.write(&mut w, OFF_CFGR, 4, cfgr).unwrap();
    assert_eq!((r.read(&mut w, OFF_CFGR, 4).unwrap() >> 2) & 0x3, 2);

    let c = r.clocks();
    assert_eq!(c.sysclk, 168_000_000);
    assert_eq!(c.hclk, 168_000_000);
    assert_eq!(c.pclk1, 42_000_000);
    assert_eq!(c.pclk2, 84_000_000);
    assert_eq!(c.timer_clk1, 84_000_000);
    assert_eq!(c.timer_clk2, 168_000_000);
}

#[test]
fn sws_falls_back_to_hsi_when_source_not_ready() {
    let mut r = Rcc::new();
    let mut w = Wires::new();
    r.write(&mut w, OFF_CFGR, 4, 1 << 0).unwrap();
    assert_eq!((r.read(&mut w, OFF_CFGR, 4).unwrap() >> 2) & 0x3, 0);
    assert_eq!(r.clocks().sysclk, HSI_FREQ_HZ);
    r.write(&mut w, OFF_CR, 4, CR_HSEON).unwrap();
    assert_eq!((r.read(&mut w, OFF_CFGR, 4).unwrap() >> 2) & 0x3, 1);
    assert_eq!(r.clocks().sysclk, HSE_FREQ_HZ);
}
