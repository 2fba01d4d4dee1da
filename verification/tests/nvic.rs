use mcu_simulater::peripheral::nvic::{
    basepri_to_prio, Nvic, AIRCR_OFF, NVIC_WIN_START, SHPR1_OFF, SHPR3_OFF,
};

#[test]
fn basepri_extracts_high_priority_bits() {
    assert_eq!(basepri_to_prio(0x40), 4);
    assert_eq!(basepri_to_prio(0x50), 5);
    assert_eq!(basepri_to_prio(0xF0), 15);
    assert_eq!(basepri_to_prio(0x00), 0);
    assert_ne!(basepri_to_prio(0x40), 0);
}

#[test]
fn kernel_critical_section_masks_lowest_prio_irq() {
    let mut n = Nvic::new();
    n.write(NVIC_WIN_START + 0x300, 1, 0xF0).unwrap();
    n.write(NVIC_WIN_START + 0x00, 4, 1).unwrap();
    n.set_pending(0);
    assert_eq!(n.priority(0), 15);
    let kernel_basepri = basepri_to_prio(0x40);
    assert_eq!(kernel_basepri, 4);
    assert_eq!(n.select_pending(false, kernel_basepri), None);
    assert_eq!(n.select_pending(false, 0), Some(0));
    assert_eq!(n.select_pending(false, basepri_to_prio(0x00)), Some(0));
}

#[test]
fn irq_set_clear_pending_enable() {
    let mut n = Nvic::new();
    assert!(!n.is_enabled(30));
    n.write(NVIC_WIN_START + 0x00, 4, 1 << 30).unwrap();
    assert!(n.is_enabled(30));
    n.write(NVIC_WIN_START + 0x80, 4, 1 << 30).unwrap();
    assert!(!n.is_enabled(30));

    n.write(NVIC_WIN_START + 0x00, 4, 1).unwrap();
    n.write(NVIC_WIN_START + 0x100, 4, 1).unwrap();
    assert!(n.is_pending(0));
    assert_eq!(n.select_pending(false, 0), Some(0));
    n.write(NVIC_WIN_START + 0x180, 4, 1).unwrap();
    assert!(!n.is_pending(0));
    assert_eq!(n.select_pending(false, 0), None);
}

#[test]
fn priority_selection() {
    let mut n = Nvic::new();
    n.write(NVIC_WIN_START + 0x300, 4, 0x0000_0A05).unwrap();
    assert_eq!(n.priority(0), 5);
    assert_eq!(n.priority(1), 10);
    n.write(NVIC_WIN_START + 0x00, 4, 0x3).unwrap();
    n.write(NVIC_WIN_START + 0x100, 4, 0x3).unwrap();
    assert_eq!(n.select_pending(false, 0), Some(0));
    n.push_exception(16);
    assert_eq!(n.select_pending(false, 0), None);
    n.pop_exception();
    n.push_exception(17);
    assert_eq!(n.select_pending(false, 0), Some(0));
    n.pop_exception();
    assert_eq!(n.select_pending(true, 0), None);
    assert_eq!(n.select_pending(false, 5), None);
    assert_eq!(n.select_pending(false, 6), Some(0));
}

#[test]
fn active_and_ipr_roundtrip() {
    let mut n = Nvic::new();
    n.write(NVIC_WIN_START + 0x100, 4, 1 << 5).unwrap();
    assert!(n.is_pending(5));
    n.set_active(5);
    n.clear_pending(5);
    assert_eq!(n.read(NVIC_WIN_START + 0x200, 4).unwrap(), 1 << 5);
    n.clear_active(5);
    assert_eq!(n.read(NVIC_WIN_START + 0x200, 4).unwrap(), 0);
    n.write(NVIC_WIN_START + 0x300, 4, 0xA).unwrap();
    assert_eq!(n.read(NVIC_WIN_START + 0x300, 4).unwrap(), 0xA);
}

#[test]
fn priority_grouping_preempts_and_subpriority_arbitration() {
    let mut n = Nvic::new();
    n.write(AIRCR_OFF, 4, (0x05FA << 16) | (5 << 8)).unwrap();
    assert_eq!(n.read(AIRCR_OFF, 4).unwrap(), 5 << 8);
    n.write(NVIC_WIN_START + 0x300, 4, 0x0000_0908).unwrap();
    n.write(NVIC_WIN_START + 0x00, 4, 0x3).unwrap();
    n.write(NVIC_WIN_START + 0x100, 4, 0x3).unwrap();
    assert_eq!(n.select_pending(false, 0), Some(0));
    n.push_exception(16);
    assert_eq!(n.select_pending(false, 0), None);
    n.pop_exception();
    n.write(NVIC_WIN_START + 0x300, 4, 0x0000_0808).unwrap();
    n.write(NVIC_WIN_START + 0x00, 4, 1 << 2).unwrap();
    n.write(NVIC_WIN_START + 0x100, 4, 1 << 2).unwrap();
    n.push_exception(16);
    assert_eq!(n.select_pending(false, 0), Some(2));
}

#[test]
fn aircr_vectkey_must_match() {
    let mut n = Nvic::new();
    n.write(AIRCR_OFF, 4, (0x1234 << 16) | (2 << 8)).unwrap();
    assert_eq!(n.read(AIRCR_OFF, 4).unwrap(), 0);
    n.write(AIRCR_OFF, 4, (0x05FA << 16) | (3 << 8)).unwrap();
    assert_eq!(n.read(AIRCR_OFF, 4).unwrap(), 3 << 8);
}

#[test]
fn shpr_system_exception_priority_affects_preemption() {
    let mut n = Nvic::new();
    n.write(NVIC_WIN_START + 0x300, 4, 0x0).unwrap();
    n.write(NVIC_WIN_START + 0x00, 4, 1).unwrap();
    n.write(NVIC_WIN_START + 0x100, 4, 1).unwrap();
    n.push_exception(4);
    assert_eq!(n.select_pending(false, 0), None);
    n.write(SHPR1_OFF, 4, 0x01).unwrap();
    assert_eq!(n.read(SHPR1_OFF, 4).unwrap(), 0x01);
    assert_eq!(n.select_pending(false, 0), Some(0));
    n.pop_exception();
    n.write(SHPR3_OFF, 4, (0x07 << 24) | (0x03 << 16)).unwrap();
    assert_eq!(n.read(SHPR3_OFF, 4).unwrap(), (0x07 << 24) | (0x03 << 16));
    n.push_exception(3);
    assert_eq!(n.select_pending(false, 0), None);
}

#[test]
fn a_system_exception_wins_a_tie() {
    let mut n = Nvic::new();
    n.write(NVIC_WIN_START, 4, 1 << 3).unwrap();
    n.write(NVIC_WIN_START + 0x300, 4, 0x0500_0000).unwrap();
    n.set_pending(3);
    assert_eq!(n.select_pending(false, 0), Some(3));
    assert_eq!(n.select_pending_vector(false, 0), Some(19));
    n.write(SHPR3_OFF, 4, 0x0500_0000).unwrap();
    n.set_sys_pending(15);
    assert_eq!(n.select_pending_vector(false, 0), Some(15));
    n.write(SHPR3_OFF, 4, 0x0600_0000).unwrap();
    assert_eq!(n.select_pending_vector(false, 0), Some(19));
    assert_eq!(n.select_pending_vector(true, 0), None);
}
