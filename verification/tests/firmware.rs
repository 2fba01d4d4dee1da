//! Loading firmware and finding its symbols.
use mcu_simulater::elfsym::{
    app_sym, app_sym_size, elf_candidates, flyctrl_app_elf, symbols, ElfSym,
};
use mcu_simulater::machine::boot::{
    load_file, load_image, FileSection, FileSegment, LoadError, SectionClass,
};
use mcu_simulater::machine::layout::map_stm32f407_layout;
use mcu_simulater::machine::Machine;
use mcu_simulater::memory::{GuestMemory, Ram};

fn w16(b: &mut Vec<u8>, v: u16) {
    b.extend_from_slice(&v.to_le_bytes());
}

fn w32(b: &mut Vec<u8>, v: u32) {
    b.extend_from_slice(&v.to_le_bytes());
}

/// A small firmware: a vector table in flash, initialised data that runs in RAM and is stored
/// in flash, a zeroed area, and three symbols.
fn elf() -> Vec<u8> {
    let mut text = Vec::new();
    w32(&mut text, 0x2001_0000);
    w32(&mut text, 0x0800_0101);
    let data = vec![0xAA, 0xBB, 0xCC, 0xDD];
    let strtab = b"\0_RNv_SENSOR_SEQ.0\0none\0_RNv_EST_STATE\0".to_vec();
    let mut symtab = vec![0u8; 16];
    for (name, value, size) in [(19u32, 0u32, 0u32), (1, 0x2000_0000, 4), (24, 0x2000_0010, 8)] {
        w32(&mut symtab, name);
        w32(&mut symtab, value);
        w32(&mut symtab, size);
        w32(&mut symtab, 0);
    }
    let shstrtab = b"\0.text\0.data\0.bss\0.strtab\0.symtab\0.shstrtab\0".to_vec();
    let text_off = 52 + 32;
    let data_off = text_off + text.len() as u32;
    let str_off = data_off + data.len() as u32;
    let sym_off = str_off + strtab.len() as u32;
    let shs_off = sym_off + symtab.len() as u32;
    let sh_off = shs_off + shstrtab.len() as u32;
    let mut b = vec![0x7f, b'E', b'L', b'F', 1, 1, 1, 0, 0, 0, 0, 0, 0, 0, 0, 0];
    w16(&mut b, 2);
    w16(&mut b, 40);
    w32(&mut b, 1);
    w32(&mut b, 0x0800_0101);
    w32(&mut b, 52);
    w32(&mut b, sh_off);
    w32(&mut b, 0);
    for v in [52u16, 32, 1, 40, 7, 6] {
        w16(&mut b, v);
    }
    for v in [1u32, data_off, 0x2000_0000, 0x0800_1000, 4, 4, 6, 4] {
        w32(&mut b, v);
    }
    b.extend(&text);
    b.extend(&data);
    b.extend(&strtab);
    b.extend(&symtab);
    b.extend(&shstrtab);
    let headers: [[u32; 10]; 7] = [
        [0; 10],
        [1, 1, 6, 0x0800_0000, text_off, 8, 0, 0, 4, 0],
        [7, 1, 3, 0x2000_0000, data_off, 4, 0, 0, 4, 0],
        [13, 8, 3, 0x2000_0010, str_off, 8, 0, 0, 4, 0],
        [18, 3, 0, 0, str_off, strtab.len() as u32, 0, 0, 1, 0],
        [26, 2, 0, 0, sym_off, symtab.len() as u32, 4, 1, 4, 16],
        [34, 3, 0, 0, shs_off, shstrtab.len() as u32, 0, 0, 1, 0],
    ];
    for h in headers {
        for v in h {
            w32(&mut b, v);
        }
    }
    b
}

#[test]
fn an_elf_file_is_loaded() {
    let mut mem = map_stm32f407_layout();
    assert!(mem.mem_write(0x2000_0010, &vec![0xFF; 9]));
    let mut m = Machine::new_m4f();
    m.load_elf(&mut mem, &elf()).unwrap();
    assert_eq!(m.reset(), (0x2001_0000, 0x0800_0101));
    assert_eq!(mem.mem_read(0x2000_0000, 4).unwrap(), vec![0xAA, 0xBB, 0xCC, 0xDD]);
    assert_eq!(mem.mem_read(0x0800_1000, 4).unwrap(), vec![0xAA, 0xBB, 0xCC, 0xDD]);
    assert_eq!(mem.mem_read(0x2000_0010, 9).unwrap(), vec![0, 0, 0, 0, 0, 0, 0, 0, 0xFF]);
}

#[test]
fn files_that_cannot_be_loaded() {
    let mut mem = map_stm32f407_layout();
    assert_eq!(load_file(&mut mem, b"no firmware"), Err(LoadError::NotObject));
    let mut cut = elf();
    let n = cut.len();
    let data_header = n - 5 * 40;
    cut[data_header + 16..data_header + 20].copy_from_slice(&0x10_0000u32.to_le_bytes());
    assert_eq!(load_file(&mut mem, &cut), Err(LoadError::Unreadable));
    let mut none = Ram::new();
    assert_eq!(load_file(&mut none, &elf()), Err(LoadError::NoMemory(0x0800_0000)));
}

#[test]
fn images_are_put_in_place_by_class_where_there_are_no_flags() {
    let mut mem = map_stm32f407_layout();
    let section = |addr: u64, byte: u8| FileSection {
        flags: None,
        addr,
        size: 4,
        data: Some(vec![byte; 2]),
    };
    let sections = vec![section(0x0800_0000, 0x11), section(0x2000_0000, 0x22)];
    let classes = vec![SectionClass::Text, SectionClass::Other];
    let got = load_image(&mut mem, &sections, &classes, &vec![]);
    assert_eq!(got, Ok((0x1111, 0)));
    assert_eq!(mem.mem_read(0x2000_0000, 2).unwrap(), vec![0, 0]);
    let large = vec![FileSection { size: 1, ..section(0x2000_0000, 0x33) }];
    assert_eq!(
        load_image(&mut mem, &large, &vec![SectionClass::Other], &vec![]),
        Ok((0x1111, 0))
    );
    let broken = vec![FileSegment { vaddr: 0, paddr: 1, data: None }];
    assert_eq!(
        load_image(&mut mem, &vec![], &vec![], &broken),
        Err(LoadError::Unreadable)
    );
}

#[test]
fn an_application_goes_to_its_partition() {
    let mut mem = map_stm32f407_layout();
    assert_eq!(
        Machine::load_app_partition(&mut mem, &vec![0; 31]),
        Err(LoadError::TooSmall(31))
    );
    let mut app = vec![0u8; 40];
    assert_eq!(Machine::load_app_partition(&mut mem, &app), Err(LoadError::BadMagic(0)));
    app[0..4].copy_from_slice(&0x4150_4800u32.to_le_bytes());
    app[8..12].copy_from_slice(&0x0806_0021u32.to_le_bytes());
    app[39] = 0x5A;
    assert_eq!(Machine::load_app_partition(&mut mem, &app), Ok(0x0806_0021));
    assert_eq!(mem.mem_read(0x0806_0027, 1).unwrap(), vec![0x5A]);
}

#[test]
fn symbols_are_found_by_part_of_their_name() {
    let syms = symbols(&elf());
    assert_eq!(syms.len(), 3);
    assert_eq!(syms[0].name, "none");
    assert_eq!(syms[1].name, "_RNv_SENSOR_SEQ.0");
    assert_eq!(app_sym(&syms, "SENSOR_SEQ"), Some(0x2000_0000));
    assert_eq!(app_sym_size(&syms, "EST_STATE"), Some((0x2000_0010, 8)));
    assert_eq!(app_sym(&syms, "none"), None);
    assert_eq!(app_sym_size(&syms, "LOG_RING"), None);
}

#[test]
fn files_without_symbols() {
    assert!(symbols(b"").is_empty());
    let mut other = elf();
    other[4] = 2;
    assert!(symbols(&other).is_empty());
    let mut cut = elf();
    cut.truncate(300);
    assert!(symbols(&cut).is_empty());
}

#[test]
fn the_elf_file_is_looked_for() {
    let none: Vec<String> = vec![];
    assert_eq!(flyctrl_app_elf(Some("e"), None, "b", &none), "e");
    assert_eq!(flyctrl_app_elf(None, None, "b", &none), "../flyctrl/app.elf");
    assert_eq!(flyctrl_app_elf(None, Some("/p"), "b", &none), "/p/../flyctrl/app.elf");
    let second = vec!["flyctrl/app.elf".to_string()];
    assert_eq!(flyctrl_app_elf(None, Some("/p"), "b", &second), "flyctrl/app.elf");
    let beside = vec!["/tmp/app.elf".to_string()];
    assert_eq!(flyctrl_app_elf(None, None, "/tmp/flyctrl_real.bin", &beside), "/tmp/app.elf");
    assert_eq!(elf_candidates(None).len(), 2);
}

#[test]
fn the_size_is_that_of_the_symbol_found() {
    let sym = |name: &str, addr, size| ElfSym { name: name.to_string(), addr, size };
    let syms = vec![sym("$d", 0x2000_1000, 0), sym("app_EST_STATE", 0x2000_1000, 48)];
    assert_eq!(app_sym(&syms, "EST_STATE"), Some(0x2000_1000));
    assert_eq!(app_sym_size(&syms, "EST_STATE"), Some((0x2000_1000, 48)));
}
