use mcu_simulater::peripheral::pwr::{
    Pwr, CR_CSBF, CR_CWUF, CR_DBP, CR_LPDS, CR_PDDS, CSR_BRE, CSR_EWUP, CSR_PVDO, CSR_SBF,
    CSR_WUF, OFF_CR, OFF_CSR,
};
use mcu_simulater::peripheral::wdog::ResetReason;
use mcu_simulater::peripheral::Peripheral;
use mcu_simulater::wires::Wires;

fn make() -> (Pwr, Wires) {
    (Pwr::new(), Wires::new())
}

#[test]
fn write_low_power_bits_reads_back() {
    let (mut p, mut w) = make();
    let v = CR_LPDS | CR_PDDS | CR_DBP;
    p.write(&mut w, OFF_CR, 4, v).unwrap();
    assert_eq!(p.read(&mut w, OFF_CR, 4).unwrap() & v, v);
}

#[test]
fn cwuf_clears_wuf() {
    let (mut p, mut w) = make();
    p.inject_wakeup(&mut w);
    assert_ne!(p.read(&mut w, OFF_CSR, 4).unwrap() & CSR_WUF, 0);
    p.write(&mut w, OFF_CR, 4, CR_CWUF).unwrap();
    assert_eq!(p.read(&mut w, OFF_CSR, 4).unwrap() & CSR_WUF, 0);
}

#[test]
fn wakeup_without_standby_no_reset() {
    let (mut p, mut w) = make();
    p.inject_wakeup(&mut w);
    assert!(!w.reset.is_pending());
}

#[test]
fn standby_wakeup_requests_low_power_reset() {
    let (mut p, mut w) = make();
    p.enter_standby();
    assert_ne!(p.read(&mut w, OFF_CSR, 4).unwrap() & CSR_SBF, 0);
    p.inject_wakeup(&mut w);
    assert_eq!(w.reset.take(), Some(ResetReason::LowPower));
}

#[test]
fn csbf_clears_sbf() {
    let (mut p, mut w) = make();
    p.enter_standby();
    p.write(&mut w, OFF_CR, 4, CR_CSBF).unwrap();
    assert_eq!(p.read(&mut w, OFF_CSR, 4).unwrap() & CSR_SBF, 0);
}

#[test]
fn pvd_injection_toggles_pvdo() {
    let (mut p, mut w) = make();
    p.inject_pvd(true);
    assert_ne!(p.read(&mut w, OFF_CSR, 4).unwrap() & CSR_PVDO, 0);
    p.inject_pvd(false);
    assert_eq!(p.read(&mut w, OFF_CSR, 4).unwrap() & CSR_PVDO, 0);
}

#[test]
fn csr_writable_bits_and_readonly_flags() {
    let (mut p, mut w) = make();
    p.write(&mut w, OFF_CSR, 4, CSR_EWUP | CSR_BRE | CSR_WUF).unwrap();
    let csr = p.read(&mut w, OFF_CSR, 4).unwrap();
    assert_ne!(csr & CSR_EWUP, 0);
    assert_eq!(csr & CSR_WUF, 0);
}

#[test]
fn reset_clears_all() {
    let (mut p, mut w) = make();
    p.enter_standby();
    p.inject_wakeup(&mut w);
    p.reset(&mut w);
    assert_eq!(p.read(&mut w, OFF_CR, 4).unwrap(), 0);
    assert_eq!(p.read(&mut w, OFF_CSR, 4).unwrap(), 0);
    assert!(!p.in_standby());
}

#[test]
fn a_wakeup_leaves_the_other_bits_alone() {
    let (mut p, mut w) = make();
    p.write(&mut w, OFF_CR, 4, CR_DBP).unwrap();
    p.write(&mut w, OFF_CSR, 4, CSR_EWUP | CSR_BRE).unwrap();
    p.enter_standby();
    p.inject_wakeup(&mut w);
    assert_eq!(p.read(&mut w, OFF_CR, 4).unwrap(), CR_DBP);
    let csr = p.read(&mut w, OFF_CSR, 4).unwrap();
    assert_eq!(csr, CSR_EWUP | CSR_BRE | CSR_SBF | CSR_WUF);
    assert!(p.in_standby());
    assert_eq!(w.reset.take(), Some(ResetReason::LowPower));
}
