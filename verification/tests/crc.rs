use mcu_simulater::peripheral::crc::Crc;

const INIT: u32 = 0xFFFF_FFFF;

#[test]
fn crc_mpeg2_known_value() {
    let mut c = Crc::new();
    for b in b"123456789" {
        c.push(1, *b as u32);
    }
    assert_eq!(c.crc(), 0x0376_E6E7);
}

#[test]
fn crc_initial_is_all_ones() {
    assert_eq!(Crc::new().crc(), 0xFFFF_FFFF);
}

#[test]
fn crc_word_write_matches_byte_sequence() {
    let mut word = Crc::new();
    let mut bytes = Crc::new();
    word.push(4, 0x3132_3334);
    for b in [0x31u8, 0x32, 0x33, 0x34] {
        bytes.push(1, b as u32);
    }
    assert_eq!(word.crc(), bytes.crc());
}

#[test]
fn crc_halfword_matches_byte_sequence() {
    let mut half = Crc::new();
    let mut bytes = Crc::new();
    half.push(2, 0x3334);
    for b in [0x33u8, 0x34] {
        bytes.push(1, b as u32);
    }
    assert_eq!(half.crc(), bytes.crc());
}

#[test]
fn crc_reset_restores_initial() {
    let mut c = Crc::new();
    c.push(4, 0x1234_5678);
    assert_ne!(c.crc(), INIT);
    c.reset();
    assert_eq!(c.crc(), INIT);
}
