use mcu_simulater::peripheral::exti::{
    line_irq, Exti, OFF_IMR, OFF_PR, OFF_RTSR, OFF_SWIER,
};
use mcu_simulater::peripheral::syscfg::Syscfg;
use mcu_simulater::peripheral::Peripheral;
use mcu_simulater::wires::Wires;

const OFF_EXTICR1: u32 = 0x08;
const OFF_EXTICR4: u32 = 0x14;

fn setup() -> (Exti, Wires) {
    (Exti::new(), Wires::new())
}

#[test]
fn swier_triggers_pending() {
    let (mut e, mut w) = setup();
    e.write(&mut w, OFF_IMR, 4, 1).unwrap();
    e.write(&mut w, OFF_SWIER, 4, 1).unwrap();
    assert_eq!(e.read(&mut w, OFF_PR, 4).unwrap() & 1, 1);
    assert!(w.nvic.is_pending(6));
    e.write(&mut w, OFF_SWIER, 4, 1).unwrap();
    assert!(w.nvic.is_pending(6));
    e.write(&mut w, OFF_PR, 4, 1).unwrap();
    assert_eq!(e.read(&mut w, OFF_PR, 4).unwrap() & 1, 0);
    e.write(&mut w, OFF_SWIER, 4, 1).unwrap();
    assert_eq!(e.read(&mut w, OFF_PR, 4).unwrap() & 1, 1);
}

#[test]
fn imr_gates_nvic() {
    let (mut e, mut w) = setup();
    e.write(&mut w, OFF_SWIER, 4, 1).unwrap();
    assert_eq!(e.read(&mut w, OFF_PR, 4).unwrap() & 1, 1);
    assert!(!w.nvic.is_pending(6));
    e.write(&mut w, OFF_PR, 4, 1).unwrap();
    e.write(&mut w, OFF_IMR, 4, 1).unwrap();
    e.write(&mut w, OFF_SWIER, 4, 1).unwrap();
    assert!(w.nvic.is_pending(6));
}

#[test]
fn feed_gpio_edge_and_port_filter() {
    let (mut e, mut w) = setup();
    e.write(&mut w, OFF_RTSR, 4, 1).unwrap();
    e.write(&mut w, OFF_IMR, 4, 1).unwrap();
    e.feed_gpio(&mut w, 1, 0, true);
    assert_eq!(e.read(&mut w, OFF_PR, 4).unwrap() & 1, 0);
    assert!(!w.nvic.is_pending(6));
    e.feed_gpio(&mut w, 0, 0, true);
    assert_eq!(e.read(&mut w, OFF_PR, 4).unwrap() & 1, 1);
    assert!(w.nvic.is_pending(6));
    e.feed_gpio(&mut w, 0, 0, true);
    assert_eq!(e.read(&mut w, OFF_PR, 4).unwrap() & 1, 1);
    e.write(&mut w, OFF_PR, 4, 1).unwrap();
    e.feed_gpio(&mut w, 0, 0, false);
    assert_eq!(e.read(&mut w, OFF_PR, 4).unwrap() & 1, 0);
    w.exti.port[0] = 1;
    e.write(&mut w, OFF_RTSR, 4, 1).unwrap();
    e.feed_gpio(&mut w, 0, 0, true);
    assert_eq!(e.read(&mut w, OFF_PR, 4).unwrap() & 1, 0);
    e.feed_gpio(&mut w, 1, 0, true);
    assert_eq!(e.read(&mut w, OFF_PR, 4).unwrap() & 1, 1);
}

#[test]
fn line_irq_mapping() {
    assert_eq!(line_irq(0), Some(6));
    assert_eq!(line_irq(4), Some(10));
    assert_eq!(line_irq(5), Some(23));
    assert_eq!(line_irq(9), Some(23));
    assert_eq!(line_irq(10), Some(40));
    assert_eq!(line_irq(15), Some(40));
    assert_eq!(line_irq(16), None);
}

#[test]
fn exti_port_selection() {
    let mut w = Wires::new();
    let mut s = Syscfg::new();
    s.write(&mut w, OFF_EXTICR1, 4, 0x0000_0021).unwrap();
    assert_eq!(w.exti.port[0], 1);
    assert_eq!(w.exti.port[1], 2);
    assert_eq!(w.exti.port[2], 0);
    assert_eq!(s.read(&mut w, OFF_EXTICR1, 4).unwrap(), 0x0000_0021);
    s.write(&mut w, OFF_EXTICR4, 4, 0x0000_4000).unwrap();
    assert_eq!(w.exti.port[15], 4);
}
