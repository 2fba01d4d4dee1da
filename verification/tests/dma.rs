use mcu_simulater::device::Device;
use mcu_simulater::memory::{GuestMemory, Ram};
use mcu_simulater::peripheral::dma::{
    Dma, CR_DIR_MM, CR_EN, CR_MINC, CR_PINC, CR_TCIE, DMA1_STREAM_IRQ, DMA2_STREAM_IRQ, OFF_CR,
    OFF_HISR, OFF_LIFCR, OFF_LISR,
};
use mcu_simulater::peripheral::Peripheral;
use mcu_simulater::wires::Wires;

fn dma() -> (Dma, Wires) {
    (Dma::new("DMA1", DMA1_STREAM_IRQ), Wires::new())
}

/// Sets up stream 0.
fn cfg_stream(d: &mut Dma, w: &mut Wires, cr: u32, ndtr: u32, par: u32, m0ar: u32) {
    d.write(w, OFF_CR, 4, cr).unwrap();
    d.write(w, OFF_CR + 4, 4, ndtr).unwrap();
    d.write(w, OFF_CR + 8, 4, par).unwrap();
    d.write(w, OFF_CR + 0x0C, 4, m0ar).unwrap();
}

#[test]
fn register_layout_and_flag_position() {
    let (mut d, mut w) = dma();
    for s in [3usize, 4] {
        let base = OFF_CR + s as u32 * 0x18;
        d.write(&mut w, base, 4, CR_EN | CR_DIR_MM | CR_TCIE).unwrap();
        d.write(&mut w, base + 4, 4, 2).unwrap();
        d.write(&mut w, base + 8, 4, 0x2000_0100).unwrap();
        d.write(&mut w, base + 0x0C, 4, 0x2000_0200).unwrap();
    }
    d.tick(&mut w, 1);
    assert_eq!(d.read(&mut w, OFF_LISR, 4).unwrap() & (1 << 23), 1 << 23);
    assert_eq!(d.read(&mut w, OFF_HISR, 4).unwrap() & (1 << 5), 1 << 5);
    assert_eq!(d.read(&mut w, OFF_LISR, 4).unwrap() & (1 << 5), 0);
}

#[test]
fn tick_completes_mem2mem_and_clears_en() {
    let (mut d, mut w) = dma();
    cfg_stream(&mut d, &mut w, CR_EN | CR_DIR_MM | CR_TCIE, 8, 0x2000_0100, 0x2000_0200);
    d.tick(&mut w, 1);
    assert_eq!(d.stream_reg(0, 1), 0);
    assert_eq!(d.stream_reg(0, 0) & CR_EN, 0);
    assert_eq!(d.read(&mut w, OFF_LISR, 4).unwrap() & (1 << 5), 1 << 5);
    assert_eq!(d.pending_transfer(), 1 << 0);
    assert_eq!(d.pending_items(0), 8);
    d.tick(&mut w, 1);
    assert_eq!(d.pending_transfer(), 1 << 0);
}

#[test]
fn non_mem2mem_ignored() {
    let (mut d, mut w) = dma();
    cfg_stream(&mut d, &mut w, CR_EN | CR_TCIE, 8, 0x2000_0100, 0x2000_0200);
    d.tick(&mut w, 1);
    assert_eq!(d.pending_transfer(), 0);
    assert_eq!(d.read(&mut w, OFF_LISR, 4).unwrap() & (1 << 5), 0);
}

#[test]
fn process_copies_word_mem2mem() {
    let (mut d, mut w) = dma();
    cfg_stream(
        &mut d,
        &mut w,
        CR_EN | CR_DIR_MM | CR_PINC | CR_MINC | (2 << 13) | (2 << 11),
        4,
        0x2000_0100,
        0x2000_0200,
    );

    let mut mem = Ram::new();
    mem.mem_map(0x2000_0000, 0x4000);
    let src: [u32; 4] = [0x1111_1111, 0x2222_2222, 0x3333_3333, 0x4444_4444];
    for (i, v) in src.iter().enumerate() {
        assert!(mem.mem_write(0x2000_0100 + i as u64 * 4, &v.to_le_bytes().to_vec()));
    }

    d.tick(&mut w, 1);
    let mut devices: Vec<Device> = Vec::new();
    d.process(&mut w, &mut mem, &mut devices);

    for (i, v) in src.iter().enumerate() {
        let got = mem.mem_read(0x2000_0200 + i as u64 * 4, 4).unwrap();
        assert_eq!(u32::from_le_bytes(got.try_into().unwrap()), *v);
    }
    assert_eq!(d.pending_transfer(), 0);
}

#[test]
fn process_byte_mode_without_minc() {
    let (mut d, mut w) = dma();
    cfg_stream(&mut d, &mut w, CR_EN | CR_DIR_MM | CR_PINC, 3, 0x2000_0100, 0x2000_0200);

    let mut mem = Ram::new();
    mem.mem_map(0x2000_0000, 0x4000);
    assert!(mem.mem_write(0x2000_0100, &vec![0xAA, 0xBB, 0xCC]));

    d.tick(&mut w, 1);
    let mut devices: Vec<Device> = Vec::new();
    d.process(&mut w, &mut mem, &mut devices);
    let got = mem.mem_read(0x2000_0200, 1).unwrap();
    assert_eq!(got[0], 0xCC);
}

#[test]
fn lifcr_clears_tcif() {
    let (mut d, mut w) = dma();
    cfg_stream(&mut d, &mut w, CR_EN | CR_DIR_MM, 2, 0x2000_0100, 0x2000_0200);
    d.tick(&mut w, 1);
    assert_eq!(d.read(&mut w, OFF_LISR, 4).unwrap() & (1 << 5), 1 << 5);
    d.write(&mut w, OFF_LIFCR, 4, 1 << 5).unwrap();
    assert_eq!(d.read(&mut w, OFF_LISR, 4).unwrap() & (1 << 5), 0);
    assert_eq!(d.read(&mut w, OFF_LIFCR, 4).unwrap(), 0);
}

#[test]
fn dma2_instance_uses_own_irq_table() {
    let mut w = Wires::new();
    let mut d = Dma::new("DMA2", DMA2_STREAM_IRQ);
    assert_eq!(d.name(), "DMA2");

    cfg_stream(&mut d, &mut w, CR_EN | CR_DIR_MM | CR_TCIE, 2, 0x2000_0100, 0x2000_0200);
    d.tick(&mut w, 1);
    assert!(w.nvic.is_pending(56));
    assert!(!w.nvic.is_pending(11));
}
