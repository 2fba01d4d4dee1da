use mcu_simulater::checkpoint::{is_ram, restore, snapshot, NoMemory};
use mcu_simulater::machine::layout::{map_stm32f407_layout, memory_at, MEMORY_COUNT};
use mcu_simulater::machine::Machine;
use mcu_simulater::memory::{GuestMemory, Ram};

fn regions() -> Vec<(u64, u64)> {
    (0..MEMORY_COUNT).map(memory_at).collect()
}

#[test]
fn snapshot_restore_ram_roundtrip() {
    let mut mem = map_stm32f407_layout();
    let mut regs = [0u32; 23];
    assert!(mem.mem_write(0x2000_1000, &0x11223344u32.to_le_bytes().to_vec()));
    let snap = snapshot(&regs, &mem, &regions(), 0).unwrap();
    assert!(mem.mem_write(0x2000_1000, &0xDEADBEEFu32.to_le_bytes().to_vec()));
    restore(&snap, &mut regs, &mut mem).unwrap();
    let v = mem.mem_read(0x2000_1000, 4).unwrap();
    assert_eq!(u32::from_le_bytes(v.try_into().unwrap()), 0x11223344);
}

#[test]
fn snapshot_captures_registers() {
    let mem = map_stm32f407_layout();
    let mut regs = [0u32; 23];
    regs[3] = 0xCAFE;
    let snap = snapshot(&regs, &mem, &regions(), 0).unwrap();
    let r3 = snap.regs[3];
    assert_eq!(r3, 0xCAFE);
}

#[test]
fn snapshot_skips_flash_and_mmio() {
    let mem = map_stm32f407_layout();
    let snap = snapshot(&[0; 23], &mem, &regions(), 0).unwrap();
    assert!(!snap.mem.is_empty());
    assert!(snap.mem.iter().all(|img| is_ram(img.begin)));
    assert_eq!(snap.mem.len(), 3);
}

#[test]
fn restore_brings_back_registers_and_time() {
    let mut m = Machine::new_m4f();
    let mut mem = map_stm32f407_layout();
    let mut regs = [7u32; 23];
    m.rewind(1234);
    let snap = m.snapshot(&regs, &mem, &regions()).unwrap();
    assert_eq!(snap.retired, 1234);
    regs = [0; 23];
    m.rewind(99);
    m.restore(&snap, &mut regs, &mut mem).unwrap();
    assert_eq!(regs, [7; 23]);
    assert_eq!(m.retired_count(), 1234);
    assert!(!m.halted());
}

#[test]
fn memory_that_is_gone_is_reported() {
    let mut mem = Ram::new();
    let gone = vec![(0x2000_0000u64, 16u64)];
    assert!(matches!(
        snapshot(&[0; 23], &mem, &gone, 0),
        Err(NoMemory { addr: 0x2000_0000 })
    ));
    let mut there = Ram::new();
    there.mem_map(0x2000_0000, 16);
    let snap = snapshot(&[0; 23], &there, &gone, 0).unwrap();
    assert!(matches!(
        restore(&snap, &mut [0; 23], &mut mem),
        Err(NoMemory { addr: 0x2000_0000 })
    ));
}
