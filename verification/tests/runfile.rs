use mcu_simulater::runfile::{
    heard, is_quit, locate, parse_cfg, plan, unseen_from, UsbHost,
};

#[test]
fn a_run_file_is_read() {
    let s = parse_cfg(
        "# what to run\n ELF = \"fw.elf\" ; the firmware\napp=x.bin\nn = 1000\nrx_port=3\nn=2000\nnoise\n",
    );
    assert_eq!(s.get("elf"), Some("fw.elf"));
    assert_eq!(s.get("noise"), None);
    let p = plan(&s);
    assert_eq!(p.elf.as_deref(), Some("fw.elf"));
    assert_eq!(p.app.as_deref(), Some("x.bin"));
    assert_eq!(p.n, 2000);
    assert_eq!(p.max_steps, 0);
    assert_eq!(p.rx_port, 3);
    assert!(!p.is_over(u64::MAX));
}

#[test]
fn what_is_missing_has_defaults() {
    let p = plan(&parse_cfg("rx_port = 256\nn = many\nmax_steps = 5\n"));
    assert_eq!(p.elf, None);
    assert_eq!(p.app, None);
    assert_eq!(p.n, 400_000);
    assert_eq!(p.rx_port, 1);
    assert!(!p.is_over(4));
    assert!(p.is_over(5));
}

#[test]
fn files_are_seen_from_the_run_file() {
    assert_eq!(locate("fw.elf", true, "/cfg"), "fw.elf");
    assert_eq!(locate("fw.elf", false, "/cfg"), "/cfg/fw.elf");
    assert_eq!(locate("/abs.elf", false, "/cfg"), "/abs.elf");
}

#[test]
fn console_output_is_shown_once() {
    assert_eq!(unseen_from(3, 5), 3);
    assert_eq!(unseen_from(5, 5), 5);
    assert_eq!(unseen_from(6, 5), 0);
}

#[test]
fn input_can_end_the_run() {
    assert!(is_quit(b"quit\r\n"));
    assert!(is_quit(b"exit"));
    assert!(!is_quit(b" quit"));
    assert!(!is_quit(b"quit\xff"));
    assert!(heard(b"\xffboot DRVTEST-USB-ENUM-OK\n", "DRVTEST-USB-ENUM-OK"));
    assert!(!heard(b"boot", "DRVTEST"));
}

#[test]
fn a_usb_host_sets_the_device_up_step_by_step() {
    let mut h = UsbHost::new();
    assert!(!h.resets(b"booting"));
    assert_eq!(h.next_setup(true, 1), None);
    assert!(h.resets(b"DRVTEST-USB-HOST-READY"));
    assert!(!h.resets(b"DRVTEST-USB-HOST-READY"));
    assert_eq!(h.next_setup(true, 0), None);
    assert_eq!(h.next_setup(false, 1), Some([0x80, 6, 0, 1, 0, 0, 0x12, 0]));
    assert_eq!(h.next_setup(false, 1), None);
    assert_eq!(h.next_setup(true, 0), Some([0x80, 6, 0, 2, 0, 0, 0x20, 0]));
    assert_eq!(h.next_setup(true, 0), Some([0, 5, 0x2a, 0, 0, 0, 0, 0]));
    assert_eq!(h.next_setup(true, 0), Some([0, 9, 1, 0, 0, 0, 0, 0]));
    assert_eq!(h.next_setup(true, 1), None);
    assert!(h.is_busy());
    let p = h.greeting(b"DRVTEST-USB-ENUM-OK").unwrap();
    assert_eq!(p.len(), 64);
    assert_eq!((p[0], p[63]), (0x55, 0x94));
    assert_eq!(h.greeting(b"DRVTEST-USB-ENUM-OK"), None);
    assert!(!h.is_busy());
}
