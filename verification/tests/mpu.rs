use mcu_simulater::peripheral::mpu::{
    Access, MemManageFault, MemManageKind, Mpu, MMFSR_OFF, MPU_CTRL_OFF, MPU_RASR_OFF,
    MPU_RBAR_OFF, MPU_RNR_OFF, MPU_TYPE_OFF,
};

fn prog_region0(m: &mut Mpu, base: u32, size_bytes: u32, ap: u8, xn: bool) {
    prog_region(m, 0, base, size_bytes, ap, xn);
}

fn prog_region(m: &mut Mpu, idx: u8, base: u32, size_bytes: u32, ap: u8, xn: bool) {
    let rbar = base | (1 << 4) | u32::from(idx);
    m.write(MPU_RBAR_OFF, 4, rbar).unwrap();
    let size_field = size_bytes.trailing_zeros() as u32 - 1;
    let mut rasr = (size_field << 1) | 1;
    rasr |= (ap as u32) << 24;
    if xn {
        rasr |= 1 << 28;
    }
    m.write(MPU_RASR_OFF, 4, rasr).unwrap();
}

#[test]
fn disabled_mpu_allows_all() {
    let m = Mpu::new();
    assert!(m.check(0x2000_0000, Access::Read, true).is_ok());
    assert!(m.check(0x2000_0000, Access::Write, false).is_ok());
    assert!(m.check(0x2000_0000, Access::Fetch, true).is_ok());
}

#[test]
fn background_region_privdef() {
    let mut m = Mpu::new();
    m.write(MPU_CTRL_OFF, 4, 0x1).unwrap();
    assert!(matches!(
        m.check(0x2000_0000, Access::Read, true),
        Err(MemManageFault { kind: MemManageKind::DataAccess, .. })
    ));
    let mut m = Mpu::new();
    m.write(MPU_CTRL_OFF, 4, 0x5).unwrap();
    assert!(m.check(0x2000_0000, Access::Write, true).is_ok());
    assert!(m.check(0x2000_0000, Access::Fetch, true).is_ok());
    assert!(matches!(
        m.check(0x2000_0000, Access::Write, false),
        Err(MemManageFault { kind: MemManageKind::DataAccess, .. })
    ));
}

#[test]
fn region_ap_permission() {
    let mut m = Mpu::new();
    prog_region0(&mut m, 0x2000_0000, 0x40, 0b010, false);
    m.write(MPU_CTRL_OFF, 4, 0x5).unwrap();

    assert!(m.check(0x2000_0000, Access::Write, true).is_ok());
    assert!(m.check(0x2000_0000, Access::Read, true).is_ok());
    assert!(m.check(0x2000_0010, Access::Read, false).is_ok());
    assert!(m.check(0x2000_0010, Access::Write, false).is_err());
    assert!(m.check(0x2000_1000, Access::Write, true).is_ok());
}

#[test]
fn region_xn_blocks_fetch() {
    let mut m = Mpu::new();
    prog_region0(&mut m, 0x0800_0000, 0x10000, 0b011, true);
    m.write(MPU_CTRL_OFF, 4, 0x5).unwrap();
    assert!(matches!(
        m.check(0x0800_0100, Access::Fetch, true),
        Err(MemManageFault { kind: MemManageKind::InstructionAccess, .. })
    ));
    assert!(m.check(0x0800_0100, Access::Read, true).is_ok());
    assert!(m.check(0x0800_0100, Access::Write, true).is_ok());
}

#[test]
fn subregion_disable() {
    let mut m = Mpu::new();
    let base = 0x2000_0000u32;
    let rbar = base | (1 << 4);
    m.write(MPU_RBAR_OFF, 4, rbar).unwrap();
    let rasr = (7 << 1) | (0b011 << 24) | (0x01 << 8) | 1;
    m.write(MPU_RASR_OFF, 4, rasr).unwrap();
    m.write(MPU_CTRL_OFF, 4, 0x1).unwrap();
    assert!(m.check(0x2000_0000, Access::Read, true).is_err());
    assert!(m.check(0x2000_0020, Access::Write, true).is_ok());
}

#[test]
fn overlap_higher_region_number_wins() {
    let mut m = Mpu::new();
    prog_region(&mut m, 0, 0x2000_0000, 0x40, 0b011, false);
    prog_region(&mut m, 7, 0x2000_0000, 0x40, 0b101, false);
    m.write(MPU_CTRL_OFF, 4, 0x5).unwrap();

    assert!(m.check(0x2000_0000, Access::Read, true).is_ok());
    assert!(matches!(
        m.check(0x2000_0000, Access::Write, true),
        Err(MemManageFault { kind: MemManageKind::DataAccess, .. })
    ));
    let mut m = Mpu::new();
    prog_region(&mut m, 0, 0x2000_0000, 0x40, 0b101, false);
    prog_region(&mut m, 7, 0x2000_0000, 0x40, 0b011, false);
    m.write(MPU_CTRL_OFF, 4, 0x5).unwrap();

    assert!(m.check(0x2000_0000, Access::Write, true).is_ok());
}

#[test]
fn base_aligned_to_region_size() {
    let mut m = Mpu::new();
    m.write(MPU_RNR_OFF, 4, 0).unwrap();
    m.write(MPU_RBAR_OFF, 4, 0x2000_0040 | (1 << 4)).unwrap();
    let rasr = (6 << 1) | (0b011 << 24) | 1;
    m.write(MPU_RASR_OFF, 4, rasr).unwrap();
    m.write(MPU_CTRL_OFF, 4, 0x1).unwrap();
    assert!(m.check(0x2000_0010, Access::Write, true).is_ok());
    assert!(m.check(0x2000_0070, Access::Write, true).is_ok());
    assert!(m.check(0x2000_0080, Access::Read, true).is_err());
}

#[test]
fn register_programming_and_readback() {
    let mut m = Mpu::new();
    m.write(MPU_RNR_OFF, 4, 0x2).unwrap();
    m.write(MPU_RBAR_OFF, 4, 0x1234_0000 & !0x1F).unwrap();
    m.write(MPU_RASR_OFF, 4, 0x1000_001B).unwrap();
    assert_eq!(m.read(MPU_RBAR_OFF, 4).unwrap(), 0x1234_0000 & !0x1F);
    assert_eq!(m.read(MPU_RASR_OFF, 4).unwrap(), 0x1000_001B);
    m.write(MPU_RBAR_OFF, 4, 0x2000_0000 | (1 << 4) | 1).unwrap();
    assert_eq!(m.read(MPU_RNR_OFF, 4).unwrap(), 1);
    assert_eq!(m.read(MPU_RBAR_OFF, 4).unwrap(), 0x2000_0000 | (1 << 4) | 1);
    m.write(MPU_RASR_OFF, 4, 0x0101_0011).unwrap();
    assert_eq!(m.read(0xDA4, 4).unwrap(), 0x2000_0000 | (1 << 4) | 1);
    assert_eq!(m.read(0xDA8, 4).unwrap(), 0x0101_0011);
    assert_eq!(m.read(MPU_TYPE_OFF, 4).unwrap(), 0x0800);
}

#[test]
fn fault_recording() {
    let mut m = Mpu::new();
    m.record_violation(MemManageFault {
        addr: 0x2000_0004,
        kind: MemManageKind::DataAccess,
    });
    assert_eq!(m.mmfsr() & 0x82, 0x82);
    assert_eq!(m.mmfar(), 0x2000_0004);
    assert_eq!(
        m.pending_fault(),
        Some(MemManageFault {
            addr: 0x2000_0004,
            kind: MemManageKind::DataAccess,
        })
    );
    m.write(MMFSR_OFF, 4, 0x82).unwrap();
    assert!(m.pending_fault().is_none());
}
