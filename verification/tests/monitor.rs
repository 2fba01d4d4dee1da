use mcu_simulater::machine::layout::map_stm32f407_layout;
use mcu_simulater::memory::GuestMemory;
use mcu_simulater::monitor::{
    dump_lines, parse_u32, pending_irqs, Action, Monitor, MonitorError, StepGo, TraceOp, Usage,
    READ_MAX, RUN_DEFAULT, STEP_BUDGET,
};
use mcu_simulater::peripheral::nvic::Nvic;
use mcu_simulater::text::chars_of;

#[test]
fn parse_u32_hex_and_dec() {
    assert_eq!(parse_u32(&chars_of("0x1000")).unwrap(), 0x1000);
    assert_eq!(parse_u32(&chars_of("4096")).unwrap(), 4096);
    assert!(parse_u32(&chars_of("xyz")).is_err());
}

#[test]
fn execute_help_and_quit() {
    let mut mon = Monitor::new();
    assert!(mon.execute("help").is_ok());
    assert_eq!(mon.execute("quit").unwrap(), Action::Quit);
}

#[test]
fn execute_unknown_command_errors() {
    let mut mon = Monitor::new();
    assert!(mon.execute("foobar").is_err());
}

#[test]
fn read_write_roundtrip_via_repl() {
    let mut mem = map_stm32f407_layout();
    let mut mon = Monitor::new();
    match mon.execute("write 0x20000000 0xdeadbeef").unwrap() {
        Action::Write { addr, value } => {
            assert!(mem.mem_write(addr as u64, &value.to_le_bytes().to_vec()));
        }
        other => panic!("{:?}", other),
    }
    let v = mem.mem_read(0x2000_0000, 4).unwrap();
    assert_eq!(u32::from_le_bytes(v.try_into().unwrap()), 0xdeadbeef);
    assert_eq!(
        mon.execute("read 0x20000000 4").unwrap(),
        Action::Read { addr: 0x2000_0000, len: 4 }
    );
}

#[test]
fn breakpoint_set_list_del() {
    let mut mon = Monitor::new();
    assert!(mon.execute("break 0x08000000").is_ok());
    assert!(mon.execute("break 0x08000100").is_ok());
    assert!(mon.execute("break list").is_ok());
    assert!(mon.execute("break del 0x08000000").is_ok());
    assert_eq!(mon.breaks, vec![0x0800_0100]);
    assert!(mon.stops_at(0x0800_0100));
    assert!(!mon.stops_at(0x0800_0000));
}

#[test]
fn commands_and_their_defaults() {
    let mut mon = Monitor::new();
    assert_eq!(mon.execute("   ").unwrap(), Action::Nothing);
    assert_eq!(mon.execute("regs").unwrap(), Action::Regs);
    assert_eq!(mon.execute("run").unwrap(), Action::Run { budget: RUN_DEFAULT });
    assert_eq!(mon.execute("run 77").unwrap(), Action::Run { budget: 77 });
    assert_eq!(mon.execute("step").unwrap(), Action::Step { count: 1 });
    assert_eq!(mon.execute("trace dump").unwrap(), Action::Trace(TraceOp::Dump));
    assert_eq!(
        mon.execute("read 16 100000").unwrap(),
        Action::Read { addr: 16, len: READ_MAX }
    );
}

#[test]
fn commands_that_are_refused() {
    let mut mon = Monitor::new();
    assert!(matches!(mon.execute("read"), Err(MonitorError::Usage(Usage::ReadAddr))));
    assert!(matches!(mon.execute("write"), Err(MonitorError::Usage(Usage::WriteAddr))));
    assert!(matches!(mon.execute("write 1"), Err(MonitorError::Usage(Usage::WriteValue))));
    assert!(matches!(mon.execute("break"), Err(MonitorError::Usage(Usage::Break))));
    assert!(matches!(mon.execute("break del"), Err(MonitorError::Usage(Usage::BreakDelAddr))));
    assert!(matches!(mon.execute("show"), Err(MonitorError::Usage(Usage::Show))));
    assert!(matches!(mon.execute("trace"), Err(MonitorError::Usage(Usage::Trace))));
    assert!(matches!(mon.execute("read 0xq"), Err(MonitorError::BadNumber(_))));
    assert!(matches!(mon.execute("jump"), Err(MonitorError::Unknown(w)) if w == "jump"));
}

#[test]
fn pending_interrupts_are_listed_in_order() {
    let mut n = Nvic::new();
    n.set_pending(40);
    n.set_pending(6);
    assert_eq!(pending_irqs(&n), vec![(6, false, 0), (40, false, 0)]);
}

#[test]
fn memory_is_shown_in_rows() {
    assert!(dump_lines(0x2000_0000, &[]).is_empty());
    let bytes: Vec<u8> = (0x3C..0x4E).collect();
    assert_eq!(
        dump_lines(0x0800_0FF8, &bytes),
        vec![
            "  08000ff8  3c 3d 3e 3f 40 41 42 43 44 45 46 47 48 49 4a 4b  <=>?@ABCDEFGHIJK",
            "  08001008  4c 4d  LM",
        ]
    );
    assert_eq!(dump_lines(0xFFFF_FFFF, &[0x00, 0x7F]), vec!["  ffffffff  00 7f  .."]);
}

#[test]
fn steps_end_at_a_breakpoint() {
    let mut mon = Monitor::new();
    mon.execute("break 0x8000100").unwrap();
    assert_eq!(mon.next_step(0, 0x0800_0100), StepGo::Done);
    assert_eq!(mon.next_step(2, 0x0800_0100), StepGo::Hit);
    assert_eq!(mon.next_step(2, 0x0800_0102), StepGo::Run { budget: STEP_BUDGET });
}
