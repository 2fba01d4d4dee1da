use mcu_simulater::peripheral::fsmc::{
    Fsmc, BCR_MBKEN, BCR_WMASK, FSMC_BANK1_BASE, FSMC_BANK2_BASE, FSMC_BANK3_BASE,
    FSMC_BANK4_BASE, FSMC_BANK_SIZE, OFF_BCR1, OFF_BCR2, OFF_BCR4, OFF_BTR1, OFF_BTR4, OFF_BWTR1,
};
use mcu_simulater::peripheral::Peripheral;
use mcu_simulater::wires::Wires;

#[test]
fn bank_requires_mbken_for_window_access() {
    let mut f = Fsmc::new();
    let mut w = Wires::new();
    f.window_write(FSMC_BANK1_BASE, 4, 0xCAFE_BABE);
    assert_eq!(f.window_read(FSMC_BANK1_BASE, 4), 0);
    f.write(&mut w, OFF_BCR1, 4, BCR_MBKEN).unwrap();
    f.window_write(FSMC_BANK1_BASE, 4, 0xCAFE_BABE);
    assert_eq!(f.window_read(FSMC_BANK1_BASE, 4), 0xCAFE_BABE);
}

#[test]
fn each_bank_independent() {
    let mut f = Fsmc::new();
    let mut w = Wires::new();
    f.write(&mut w, OFF_BCR2, 4, BCR_MBKEN).unwrap();
    f.window_write(FSMC_BANK2_BASE + 8, 4, 0x1122_3344);
    assert_eq!(f.window_read(FSMC_BANK2_BASE + 8, 4), 0x1122_3344);
    f.window_write(FSMC_BANK1_BASE, 4, 0xFFFF_FFFF);
    assert_eq!(f.window_read(FSMC_BANK1_BASE, 4), 0);
    f.window_write(FSMC_BANK3_BASE, 4, 0xFFFF_FFFF);
    assert_eq!(f.window_read(FSMC_BANK3_BASE, 4), 0);
    f.window_write(FSMC_BANK4_BASE, 4, 0xFFFF_FFFF);
    assert_eq!(f.window_read(FSMC_BANK4_BASE, 4), 0);
}

#[test]
fn window_supports_widths_and_byte_layout() {
    let mut f = Fsmc::new();
    let mut w = Wires::new();
    f.write(&mut w, OFF_BCR1, 4, BCR_MBKEN).unwrap();
    f.window_write(FSMC_BANK1_BASE + 0, 1, 0xAB);
    assert_eq!(f.window_read(FSMC_BANK1_BASE + 0, 1), 0xAB);
    f.window_write(FSMC_BANK1_BASE + 4, 2, 0xCDEF);
    assert_eq!(f.window_read(FSMC_BANK1_BASE + 4, 2), 0xCDEF);
    f.window_write(FSMC_BANK1_BASE + 8, 4, 0x0123_4567);
    assert_eq!(f.window_read(FSMC_BANK1_BASE + 8, 4), 0x0123_4567);
    assert_eq!(f.window_read(FSMC_BANK1_BASE + 8, 1), 0x67);
}

#[test]
fn window_out_of_range_ignored() {
    let mut f = Fsmc::new();
    let mut w = Wires::new();
    f.write(&mut w, OFF_BCR1, 4, BCR_MBKEN).unwrap();
    f.window_write(FSMC_BANK1_BASE + FSMC_BANK_SIZE as u32, 4, 0xDEAD_BEEF);
    assert_eq!(
        f.window_read(FSMC_BANK1_BASE + FSMC_BANK_SIZE as u32, 4),
        0);
}

#[test]
fn registers_roundtrip_and_mask() {
    let mut f = Fsmc::new();
    let mut w = Wires::new();
    f.write(&mut w, OFF_BCR1, 4, 0xFFFF_FFFF).unwrap();
    assert_eq!(f.read(&mut w, OFF_BCR1, 4).unwrap(), BCR_WMASK);
    f.write(&mut w, OFF_BTR1, 4, 0x1234_5678).unwrap();
    assert_eq!(f.read(&mut w, OFF_BTR1, 4).unwrap(), 0x1234_5678);
    f.write(&mut w, OFF_BWTR1, 4, 0x8765_4321).unwrap();
    assert_eq!(f.read(&mut w, OFF_BWTR1, 4).unwrap(), 0x8765_4321);
    f.write(&mut w, OFF_BCR4, 4, BCR_MBKEN).unwrap();
    f.write(&mut w, OFF_BTR4, 4, 0x0F0F_0F0F).unwrap();
    assert_eq!(f.read(&mut w, OFF_BCR4, 4).unwrap(), BCR_MBKEN);
    assert_eq!(f.read(&mut w, OFF_BTR4, 4).unwrap(), 0x0F0F_0F0F);
}

#[test]
fn reset_clears_regs_and_windows() {
    let mut f = Fsmc::new();
    let mut w = Wires::new();
    f.write(&mut w, OFF_BCR1, 4, BCR_MBKEN).unwrap();
    f.window_write(FSMC_BANK1_BASE, 4, 0xCAFE_BABE);
    f.write(&mut w, OFF_BTR1, 4, 0x1111_1111).unwrap();
    f.reset(&mut w);
    assert_eq!(f.read(&mut w, OFF_BCR1, 4).unwrap(), 0);
    assert_eq!(f.read(&mut w, OFF_BTR1, 4).unwrap(), 0);
    assert_eq!(f.window_read(FSMC_BANK1_BASE, 4), 0);
}
