//! The machine: accesses, time, interrupts, runs.
use mcu_simulater::cpu::CpuContext;
use mcu_simulater::events::Event;
use mcu_simulater::fault::{FaultAction, FaultScript};
use mcu_simulater::machine::access::{is_watched, shown_bytes, Answer};
use mcu_simulater::machine::board::{Board, ConnectSource, ConnectTarget};
use mcu_simulater::machine::exception::{
    enter_exception, exception_return, svc_entry, ExceptionError, EXC_RETURN_HANDLER,
    EXC_RETURN_MSP,
};
use mcu_simulater::machine::layout::{
    map_stm32f407_layout, name_at, region_at, DEVICE_COUNT, PLACE_DMA2, PLACE_EXTI,
};
use mcu_simulater::machine::rig::{I2cSlave, Source, SpiSlave, UartSlave};
use mcu_simulater::machine::routes::{i2c_route, requests_of, usart_route, Route};
use mcu_simulater::machine::{Go, Machine, RunError, INTR_EXCEPTION_RETURN, INTR_SVC};
use mcu_simulater::memory::{GuestMemory, Ram};
use mcu_simulater::peripheral::dma::DmaDir;
use mcu_simulater::peripheral::mpu::{Access, MemManageFault, MemManageKind};
use mcu_simulater::peripheral::nvic::Nvic;
use mcu_simulater::peripheral::wdog::ResetReason;
use mcu_simulater::timing::RETIRED_BYTES_PER_MS;

const GPIOA: u32 = 0x4002_0000;
const EXTI: u32 = 0x4001_3C00;
const DMA2: u32 = 0x4002_6400;
const NVIC_ISER0: u32 = 0xE000_E100;

fn put(mem: &mut Ram, addr: u64, v: u32) {
    assert!(mem.mem_write(addr, &v.to_le_bytes().to_vec()));
}

fn get(mem: &Ram, addr: u64) -> u32 {
    u32::from_le_bytes(mem.mem_read(addr, 4).unwrap().try_into().unwrap())
}

fn poke(b: &mut Board, addr: u32, value: u32) {
    assert!(b.takes_write(addr, 4, value));
    assert_eq!(b.written_by(true, addr, 4, value), Answer::Plain);
}

fn peek(b: &mut Board, addr: u32) -> u32 {
    assert!(b.takes_read(addr, 4));
    match b.read_by(true, addr, 4) {
        Answer::Value(v) => v,
        other => panic!("{:?}", other),
    }
}

fn thread() -> CpuContext {
    let mut cpu = CpuContext::new();
    cpu.msp = 0x2001_0000;
    cpu.pc = 0x0800_0200;
    cpu.xpsr = 0x0100_0000;
    cpu.lr = 0x0800_0301;
    for i in 0..13 {
        cpu.r[i] = 0x100 + i as u32;
    }
    cpu
}

#[test]
fn devices_stand_apart_under_their_names() {
    assert_eq!(region_at(0), (0xE000_E000, 0x1000));
    assert_eq!(name_at(PLACE_EXTI), "EXTI");
    for i in 0..DEVICE_COUNT {
        let (a, n) = region_at(i);
        for j in 0..i {
            let (b, m) = region_at(j);
            assert!(a + n <= b || b + m <= a);
        }
    }
}

#[test]
fn memory_shows_the_calibration() {
    let mem = map_stm32f407_layout();
    assert_eq!(get(&mem, 0x1FFF_7A10), 0x03F8);
    assert_eq!(mem.mem_read(0x1FFF_7A2C, 2).unwrap(), vec![0x82, 0x04]);
    assert_eq!(mem.mem_read(0x3000_0000, 1), None);
}

#[test]
fn a_pin_reaches_the_external_interrupt() {
    let mut b = Board::new();
    poke(&mut b, EXTI, 1);
    poke(&mut b, EXTI + 8, 1);
    poke(&mut b, GPIOA, 1);
    poke(&mut b, GPIOA + 0x18, 1);
    assert_eq!(peek(&mut b, EXTI + 0x14), 1);
    assert!(b.wires.nvic.is_pending(6));
    assert_eq!(peek(&mut b, GPIOA + 0x14), 1);
}

#[test]
fn a_frame_reaches_the_other_controller() {
    let mut b = Board::new();
    poke(&mut b, 0x4000_6400 + 0x184, 1 << 16);
    poke(&mut b, 0x4000_6400 + 0x188, 0x5A);
    poke(&mut b, 0x4000_6400 + 0x180, 0x123 << 21 | 1);
    assert_eq!(peek(&mut b, 0x4000_6800 + 0x0C) & 3, 1);
    assert_eq!(peek(&mut b, 0x4000_6800 + 0x1B0), 0x123 << 21);
    assert_eq!(peek(&mut b, 0x4000_6800 + 0x1B8), 0x5A);
}

#[test]
fn sent_bytes_appear_where_they_are_shown() {
    let mut b = Board::new();
    b.connect(ConnectSource::UartTx(2), ConnectTarget::TerminalRx);
    b.wires.publish(Event::UartByte { port: 1, byte: b'a' });
    b.wires.publish(Event::UartByte { port: 2, byte: b'b' });
    b.settle();
    assert_eq!(b.console.output(), b"ab");
    assert_eq!(b.terminal.display(), b"b");
}

#[test]
fn windows_that_nobody_watches_are_plain_memory() {
    let mut b = Board::new();
    assert!(!is_watched(0x2000_0000));
    assert_eq!(b.read_by(false, 0x2000_0000, 4), Answer::Plain);
    assert_eq!(b.read_by(true, 0x4003_F000, 4), Answer::Plain);
    assert_eq!(shown_bytes(0x0403_0201, 2), vec![1, 2]);
}

#[test]
fn banks_answer_once_they_are_enabled() {
    let mut b = Board::new();
    poke(&mut b, 0xA000_0000, 1);
    assert_eq!(b.written_by(true, 0x6000_0010, 4, 0xCAFE_F00D), Answer::Plain);
    assert_eq!(b.read_by(true, 0x6000_0010, 4), Answer::Value(0xCAFE_F00D));
}

#[test]
fn a_forbidden_access_is_blocked_and_noted() {
    let mut b = Board::new();
    poke(&mut b, 0xE000_ED94, 1);
    assert_eq!(b.read_by(false, GPIOA, 4), Answer::Blocked);
    assert_eq!(
        b.wires.mpu.pending_fault(),
        Some(MemManageFault { addr: GPIOA, kind: MemManageKind::DataAccess })
    );
    assert_eq!(b.read_by(false, 0xE000_1004, 4), Answer::Value(0));
}

#[test]
fn waiting_transfers_are_carried_out() {
    let mut b = Board::new();
    let mut mem = map_stm32f407_layout();
    put(&mut mem, 0x2000_0100, 0x1234_5678);
    let cr = 0x1 | 0x80 | 0x200 | 0x400 | 2 << 13 | 2 << 11;
    poke(&mut b, DMA2 + 0x14, 1);
    poke(&mut b, DMA2 + 0x18, 0x2000_0100);
    poke(&mut b, DMA2 + 0x1C, 0x2000_0200);
    poke(&mut b, DMA2 + 0x10, cr);
    assert!(b.any_active());
    assert!(b.takes_tick(1));
    b.tick(1, 1);
    assert!(b.dma_waits());
    assert!(b.transfers_fit());
    b.pump(&mut mem);
    assert!(!b.dma_waits());
    assert_eq!(get(&mem, 0x2000_0200), 0x1234_5678);
    assert_eq!(peek(&mut b, DMA2) & 0x20, 0x20);
    assert_eq!(region_at(PLACE_DMA2).0, DMA2);
}

#[test]
fn request_lines_end_at_their_streams() {
    assert_eq!(
        usart_route(1, DmaDir::PeriphToMem),
        Some(Route { second: true, stream: 2, channel: 4 })
    );
    assert_eq!(
        usart_route(6, DmaDir::PeriphToMem),
        Some(Route { second: true, stream: 1, channel: 5 })
    );
    assert_eq!(usart_route(7, DmaDir::PeriphToMem), None);
    assert!(i2c_route(3, DmaDir::MemToPeriph).is_some());
    assert_eq!(requests_of(&Event::UartDma { port: 2, dir: DmaDir::PeriphToMem }).len(), 1);
    assert!(requests_of(&Event::TimPwm { port: 1, channel: 1, level: true }).is_empty());
}

#[test]
fn every_block_counts() {
    let mut m = Machine::new_m4f();
    let cpu = thread();
    assert!(m.has_room_for(100));
    assert!(!m.block(&cpu, 0x0800_0200, 100));
    assert!(!m.block(&cpu, 0x0800_0264, 20));
    assert_eq!(m.retired_count(), 120);
    assert!(!m.peripheral_any_active());
}

#[test]
fn the_system_timer_runs_with_the_code() {
    let mut m = Machine::new_m4f();
    poke(&mut m.board, 0xE000_E014, 99);
    poke(&mut m.board, 0xE000_E010, 3);
    assert!(m.peripheral_any_active());
    assert_eq!(m.peripheral_active_count(), 1);
    let cpu = thread();
    assert!(!m.block(&cpu, 0x0800_0200, 60));
    assert!(!m.nvic_pending());
    m.block(&cpu, 0x0800_0200, 60);
    assert!(m.nvic_pending());
    assert!(m.board.wires.nvic.is_sys_pending(15));
}

#[test]
fn a_pending_interrupt_is_entered_and_left() {
    let mut m = Machine::new_m4f();
    let mut mem = map_stm32f407_layout();
    put(&mut mem, 0x0800_0000 + 4 * 22, 0x0800_0401);
    let mut cpu = thread();
    poke(&mut m.board, NVIC_ISER0, 1 << 6);
    poke(&mut m.board, EXTI, 1);
    poke(&mut m.board, EXTI + 0x10, 1);
    let mut run = m.run_budget(1000);
    let seg = m.begin_segment(&run);
    assert_eq!(seg.go, Go::Execute(1000));
    assert!(m.block(&cpu, 0x0800_0200, 16));
    assert!(m.can_end(&cpu, &run));
    let seg = m.end_segment(&mut run, &mut cpu, &mut mem).unwrap();
    assert_eq!(seg.go, Go::Continue);
    assert_eq!(run.remaining, 984);
    assert_eq!(cpu.pc, 0x0800_0401);
    assert_eq!(cpu.ipsr, 22);
    assert_eq!(cpu.lr, EXC_RETURN_MSP);
    assert_eq!(cpu.msp, 0x2001_0000 - 32);
    assert_eq!(get(&mem, 0x2001_0000 - 32 + 24), 0x0800_0200);
    assert_eq!(m.last_switch_pc(), 0x0800_0200);
    assert_eq!(m.vec_entries(), vec![(22, 1)]);
    cpu.r[4] = 0;
    cpu.r[0] = 0;
    cpu.pc = EXC_RETURN_MSP;
    assert!(m.can_interrupt(&cpu, INTR_EXCEPTION_RETURN));
    assert_eq!(m.interrupt(&mut cpu, &mut mem, INTR_EXCEPTION_RETURN), (true, Ok(())));
    let before = thread();
    assert_eq!(cpu.pc & !1, before.pc);
    assert_eq!(cpu.r, before.r);
    assert_eq!(cpu.msp, before.msp);
    assert_eq!(cpu.ipsr, 0);
}

#[test]
fn exceptions_that_cannot_be_entered_or_left() {
    let mut nvic = Nvic::new();
    let mut cpu = thread();
    let mut none = Ram::new();
    assert_eq!(
        enter_exception(&mut cpu, &mut none, &mut nvic, 16),
        Err(ExceptionError::NoStack)
    );
    let mut stack = Ram::new();
    stack.mem_map(0x2000_F000, 0x1000);
    assert_eq!(
        enter_exception(&mut cpu, &mut stack, &mut nvic, 16),
        Err(ExceptionError::NoVector)
    );
    let mut mem = map_stm32f407_layout();
    let mut cpu = thread();
    assert_eq!(
        exception_return(&mut cpu, &none, &mut nvic, EXC_RETURN_MSP),
        Err(ExceptionError::NoStack)
    );
    assert_eq!(
        exception_return(&mut cpu, &mem, &mut nvic, EXC_RETURN_MSP),
        Err(ExceptionError::NoException)
    );
    nvic.push_exception(16);
    assert_eq!(
        exception_return(&mut cpu, &mem, &mut nvic, EXC_RETURN_MSP),
        Err(ExceptionError::NoCallee)
    );
    enter_exception(&mut cpu, &mut mem, &mut nvic, 16).unwrap();
    enter_exception(&mut cpu, &mut mem, &mut nvic, 17).unwrap();
    assert_eq!(cpu.lr, EXC_RETURN_HANDLER);
    svc_entry(&mut cpu, &mut mem, &mut nvic);
    assert_eq!(nvic.current_exception(), 11);
}

#[test]
fn a_supervisor_call_stops_the_engine() {
    let mut m = Machine::new_m4f();
    let mut mem = map_stm32f407_layout();
    put(&mut mem, 0x0800_0000 + 4 * 11, 0x0800_0501);
    let mut cpu = thread();
    assert!(m.can_interrupt(&cpu, INTR_SVC));
    assert_eq!(m.interrupt(&mut cpu, &mut mem, INTR_SVC), (true, Ok(())));
    assert_eq!(cpu.pc, 0x0800_0501);
    assert_eq!(cpu.ipsr, 11);
    assert_eq!(m.interrupt(&mut cpu, &mut mem, 99), (false, Ok(())));
}

#[test]
fn a_forbidden_fetch_ends_the_run() {
    let mut m = Machine::new_m4f();
    let mut mem = map_stm32f407_layout();
    let mut cpu = thread();
    poke(&mut m.board, 0xE000_ED94, 1);
    assert!(m.mpu_enabled());
    assert!(!m.data_hook_active());
    let mut run = m.run_budget(100);
    m.begin_segment(&run);
    assert!(m.block(&cpu, 0x0800_0200, 8));
    let seg = m.end_segment(&mut run, &mut cpu, &mut mem).unwrap();
    assert!(seg.install);
    assert!(m.data_hook_active());
    m.begin_segment(&run);
    assert!(m.block(&cpu, 0x0800_0200, 8));
    let fault = MemManageFault { addr: 0x0800_0200, kind: MemManageKind::InstructionAccess };
    assert!(matches!(
        m.end_segment(&mut run, &mut cpu, &mut mem),
        Err(RunError::MemManage(f)) if f == fault
    ));
    assert!(m.touch(false, 0x2000_0000, Access::Write));
    assert!(!m.touch(false, 0x2002_0000, Access::Write));
}

#[test]
fn a_run_ends_with_its_budget() {
    let mut m = Machine::new_m4f();
    let mut mem = map_stm32f407_layout();
    let mut cpu = thread();
    let mut run = m.run_budget(50);
    assert_eq!(m.begin_segment(&run).go, Go::Execute(50));
    m.block(&cpu, 0x0800_0200, 64);
    let seg = m.end_segment(&mut run, &mut cpu, &mut mem).unwrap();
    assert_eq!(seg.go, Go::Done);
    assert_eq!(run.remaining, 0);
    assert_eq!(m.begin_segment(&run).go, Go::Done);
    assert_eq!(m.run_iterations(), 1);
}

#[test]
fn a_reset_starts_the_processor_anew() {
    let mut m = Machine::new_m4f();
    let mut mem = map_stm32f407_layout();
    let mut cpu = thread();
    m.set_vectors(0x2000_8000, 0x0800_0100);
    m.board.wires.reset.request(ResetReason::LowPower);
    let mut run = m.run_budget(50);
    m.begin_segment(&run);
    assert!(m.block(&cpu, 0x0800_0200, 4));
    let seg = m.end_segment(&mut run, &mut cpu, &mut mem).unwrap();
    assert_eq!(seg.go, Go::Restart { sp: 0x2000_8000, pc: 0x0800_0101 });
    assert!(!m.board.wires.reset.is_pending());
    assert_eq!(peek(&mut m.board, 0x4002_3874) >> 31, 1);
}

#[test]
fn scripted_faults_take_effect() {
    let mut m = Machine::new_m4f();
    assert!(m.fault_all_fired());
    m.register_i2c_slave(1, I2cSlave::Bmp280, Source::Fixed);
    m.attach_fault_script(
        FaultScript::new("s")
            .at(0, FaultAction::I2cNack { port: 1, addr7: 0x76, on: true })
            .at(0, FaultAction::UartDrop { port: 2, frames: 1 })
            .at(10, FaultAction::Halt),
    );
    let run = m.run_budget(100);
    assert_eq!(m.begin_segment(&run).actions.len(), 2);
    assert!(m.rig.i2c[0].nack);
    assert!(!m.offer_frame(2));
    assert!(m.offer_frame(2));
    assert!(!m.fault_all_fired());
    m.block(&thread(), 0x0800_0200, 10);
    let seg = m.begin_segment(&run);
    assert_eq!(seg.go, Go::Done);
    assert_eq!(seg.actions, vec![FaultAction::Halt]);
    assert!(m.halted());
    m.clear_halt();
    assert!(!m.halted());
    assert_eq!(m.virtual_step(), 10);
    assert_eq!(m.virtual_step(), 0);
}

#[test]
fn breakpoints_trap_and_are_taken_back() {
    let mut m = Machine::new_m4f();
    let mut mem = map_stm32f407_layout();
    put(&mut mem, 0x0800_0200, 0x4770_BF00);
    assert!(m.gdb_set_break(&mut mem, 0x0800_0201));
    assert_eq!(m.gdb_breaks_len(), 1);
    assert_eq!(get(&mem, 0x0800_0200), 0x4770_BEBE);
    assert!(m.instruction(0x0800_0200));
    assert!(!m.instruction(0x0800_0202));
    let mut run = m.run_budget(10);
    let mut cpu = thread();
    let seg = m.end_segment(&mut run, &mut cpu, &mut mem).unwrap();
    assert_eq!(seg.go, Go::Done);
    assert!(m.gdb_break_hit());
    assert!(m.gdb_break_hit_take());
    assert!(!m.gdb_break_hit());
    m.gdb_clear_break(&mut mem, 0x0800_0200);
    assert_eq!(get(&mem, 0x0800_0200), 0x4770_BF00);
    assert!(!m.instruction(0x0800_0200));
    assert!(!m.gdb_set_break(&mut mem, 0x3000_0000));
}

#[test]
fn milliseconds_are_rounds_of_half_a_millisecond() {
    let mut m = Machine::new_m4f();
    assert_eq!(m.ms_round(0), None);
    m.add_ms(2);
    assert_eq!(m.ms_round(0), Some(RETIRED_BYTES_PER_MS / 2));
    assert_eq!(m.ms_round(63), Some(47_800));
    assert_eq!(m.ms_round(64), None);
    assert_eq!(m.systick_ms(), 0);
}

#[test]
fn the_flight_controller_has_its_sensors() {
    let mut m = Machine::new_m4f();
    m.attach_default_sensors();
    m.attach_flysim_uart_slaves();
    assert_eq!(m.rig.spi[0].slave, SpiSlave::default_bmi088());
    assert_eq!(m.rig.spi[0].place, 2);
    assert_eq!(m.rig.i2c.len(), 3);
    assert_eq!(m.rig.uart[0].slave, UartSlave::NmeaGps);
    assert_eq!(m.rig.uart[1].source, Source::Shared);
    assert!(m.inject_i2c_nack(3, 0x0d, true));
    assert!(m.rig.i2c[2].nack);
    assert!(!m.inject_i2c_nack(1, 0x0d, true));
    assert!(m.inject_spi_fault(3, "bmi088", true));
    assert!(m.rig.spi[0].fault);
    assert!(!m.inject_spi_fault(3, "bmi160", true));
    m.register_i2c_slave(4, I2cSlave::Mpu6050, Source::Fixed);
    m.register_i2c_slave(0, I2cSlave::Mpu6050, Source::Fixed);
    assert_eq!(m.rig.i2c.len(), 4);
    assert_eq!(m.rig.i2c[3].place, 0);
}

#[test]
fn sensors_and_receivers_keep_their_source() {
    let mut m = Machine::new_m4f();
    m.attach_default_uart_slaves();
    m.attach_flysim_sensors();
    assert_eq!(m.rig.uart.len(), 2);
    assert_eq!(m.rig.uart[0].source, Source::Fixed);
    assert_eq!(m.rig.uart[1].slave, UartSlave::Sbus);
    assert_eq!(m.rig.spi[0].source, Source::Shared);
    assert_eq!(m.rig.i2c[0].slave, I2cSlave::Mpu6050);
    assert_eq!(m.rig.i2c[2].source, Source::Shared);
}

#[test]
fn a_breakpoint_set_twice_gives_the_instruction_back() {
    let mut m = Machine::new_m4f();
    let mut mem = map_stm32f407_layout();
    assert!(mem.mem_write(0x2000_0000, &vec![0x00, 0xBF]));
    assert!(m.gdb_set_break(&mut mem, 0x2000_0000));
    assert!(m.gdb_set_break(&mut mem, 0x2000_0000));
    assert_eq!(m.gdb_breaks_len(), 1);
    assert_eq!(mem.mem_read(0x2000_0000, 2).unwrap(), vec![0xBE, 0xBE]);
    m.gdb_clear_break(&mut mem, 0x2000_0000);
    assert_eq!(mem.mem_read(0x2000_0000, 2).unwrap(), vec![0x00, 0xBF]);
    assert_eq!(m.gdb_breaks_len(), 0);
    // Once cleared, it keeps what is there now.
    assert!(mem.mem_write(0x2000_0000, &vec![0x70, 0x47]));
    assert!(m.gdb_set_break(&mut mem, 0x2000_0000));
    m.gdb_clear_break(&mut mem, 0x2000_0000);
    assert_eq!(mem.mem_read(0x2000_0000, 2).unwrap(), vec![0x70, 0x47]);
}

#[test]
fn the_usb_window_is_protected_too() {
    let mut b = Board::new();
    assert!(is_watched(0x5000_0000));
    assert!(is_watched(0x5000_4FFF));
    assert!(!is_watched(0x5000_5000));
    assert!(b.takes_read(0x5000_0000, 4));
    assert_eq!(b.read_by(true, 0x5000_0000, 4), Answer::Plain);
    poke(&mut b, 0xE000_ED94, 1);
    assert_eq!(b.read_by(false, 0x5000_0010, 4), Answer::Blocked);
    assert_eq!(b.written_by(false, 0x5000_0010, 4, 1), Answer::Blocked);
}

#[test]
fn a_return_to_a_thread_gives_the_stack_bit_back() {
    let mut mem = map_stm32f407_layout();
    let mut nvic = Nvic::new();
    let mut cpu = thread();
    cpu.psp = 0x2000_8000;
    cpu.control = 2;
    enter_exception(&mut cpu, &mut mem, &mut nvic, 20).unwrap();
    assert_eq!(cpu.psp, 0x2000_8000 - 32);
    let back = cpu.lr;
    cpu.control = 1;
    cpu.ipsr = 0;
    exception_return(&mut cpu, &mem, &mut nvic, back).unwrap();
    assert_eq!(cpu.control, 3);
    assert_eq!(cpu.psp, 0x2000_8000);
    assert_eq!(cpu.ipsr, 0);
    assert_eq!(cpu.r, thread().r);
    // A return to a handler leaves CONTROL alone, and shows the outer exception.
    enter_exception(&mut cpu, &mut mem, &mut nvic, 20).unwrap();
    enter_exception(&mut cpu, &mut mem, &mut nvic, 21).unwrap();
    let back = cpu.lr;
    cpu.control = 0;
    exception_return(&mut cpu, &mem, &mut nvic, back).unwrap();
    assert_eq!(cpu.control, 0);
    assert_eq!(cpu.ipsr, 20);
}

#[test]
fn the_board_ticks_a_clock_set_up_without_a_date() {
    let mut b = Board::new();
    let rtc = 0x4000_2800;
    poke(&mut b, rtc + 0x24, 0xCA);
    poke(&mut b, rtc + 0x24, 0x53);
    poke(&mut b, rtc + 0x0C, 1 << 7);
    poke(&mut b, rtc, 0x12_34_56);
    b.tick(128 * 256, 128 * 256);
    assert_eq!(peek(&mut b, rtc), 0x12_34_56);
    poke(&mut b, rtc + 0x0C, 0);
    assert!(b.takes_tick(128 * 256));
    b.tick(128 * 256, 128 * 256);
    assert_eq!(peek(&mut b, rtc), 0x12_34_57);
}
