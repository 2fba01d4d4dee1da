use mcu_simulater::events::Event;
use mcu_simulater::peripheral::gpio::{Gpio, MODE_OUTPUT, OFF_BSRR, OFF_MODER};
use mcu_simulater::peripheral::Peripheral;
use mcu_simulater::wires::Wires;

fn levels(w: &Wires, id: usize) -> Vec<Event> {
    let mut out = Vec::new();
    let mut k = 0;
    while let Some(ev) = w.events.nth(id, k) {
        if let Event::GpioLevel { .. } = ev {
            out.push(ev.clone());
        }
        k += 1;
    }
    out
}

#[test]
fn odr_bsrr_toggle_publishes_events() {
    let mut g = Gpio::new(0);
    let mut w = Wires::new();
    let id = w.events.subscribe();
    g.write(&mut w, OFF_MODER, 4, MODE_OUTPUT << (5 * 2)).unwrap();
    g.write(&mut w, OFF_BSRR, 4, 1 << 5).unwrap();
    assert_eq!(g.output_level(), 1 << 5);
    g.write(&mut w, OFF_BSRR, 4, 1 << (5 + 16)).unwrap();
    assert_eq!(g.output_level(), 0);

    let evs = levels(&w, id);
    assert_eq!(evs.len(), 2);
    assert_eq!(evs[0], Event::GpioLevel { port: 0, pin: 5, level: true });
    assert_eq!(evs[1], Event::GpioLevel { port: 0, pin: 5, level: false });
}
