use mcu_simulater::events::Event;
use mcu_simulater::peripheral::console::Console;
use mcu_simulater::peripheral::terminal::Terminal;
use mcu_simulater::wires::Wires;

#[test]
fn accumulate_bytes() {
    let mut c = Console::new();
    c.write_byte(b'H');
    c.write_byte(b'i');
    assert_eq!(c.len(), 2);
    assert_eq!(c.take_output(), b"Hi");
    assert!(c.is_empty());
}

#[test]
fn display_accumulates_and_type_char_publishes_uart_rx() {
    let mut w = Wires::new();
    let id = w.events.subscribe();
    let mut t = Terminal::new();

    t.write_display(b'T');
    t.write_display(b'x');
    assert_eq!(t.len(), 2);
    assert_eq!(t.display(), b"Tx");

    t.type_char(&mut w, 4, b'a');
    t.type_char(&mut w, 4, b'b');
    let mut received = Vec::new();
    let mut k = 0;
    while let Some(ev) = w.events.nth(id, k) {
        if let Event::UartRx { byte, .. } = ev {
            received.push(*byte);
        }
        k += 1;
    }
    assert_eq!(received, b"ab");
    assert_eq!(t.take_display(), b"Tx");
    assert!(t.is_empty());
}
