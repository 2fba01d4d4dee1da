use mcu_simulater::gdbstub::{
    frame_reply, hex_to_bytes, hex_to_u32, parse_addr_len, GdbServer, PacketReader, Reply,
    CONTINUE_MAX_SEG, REG_PC,
};
use mcu_simulater::machine::layout::map_stm32f407_layout;
use mcu_simulater::memory::Ram;
use mcu_simulater::text::chars_of;

struct Target {
    server: GdbServer,
    regs: [u32; 23],
    mem: Ram,
}

impl Target {
    fn new(mem: Ram) -> Target {
        Target { server: GdbServer::new(), regs: [0; 23], mem }
    }

    /// The answer to a command, for a processor that does not move.
    fn ask(&mut self, cmd: &str) -> String {
        match self.server.handle_packet(cmd, &mut self.regs, &mut self.mem) {
            Reply::Text(t) => t,
            Reply::Step => "S05".to_string(),
            Reply::Continue(_) => {
                let mut segs = 0;
                loop {
                    if let Some(t) = self.server.continue_reply(self.regs[REG_PC], segs, false) {
                        return t;
                    }
                    segs += 1;
                }
            }
        }
    }
}

#[test]
fn hex_helpers() {
    assert_eq!(hex_to_u32(&chars_of("08000100")), Some(0x0800_0100));
    assert_eq!(hex_to_u32(&chars_of("ff")), Some(0xFF));
    assert_eq!(hex_to_bytes(&chars_of("0102ff")), Some(vec![1, 2, 0xFF]));
    assert!(hex_to_bytes(&chars_of("010")).is_none());
    assert_eq!(parse_addr_len(&chars_of("20000000,4")), Some((0x2000_0000, 4)));
}

#[test]
fn read_regs_returns_184_hex() {
    let mut t = Target::new(Ram::new());
    let g = t.ask("g");
    assert_eq!(g.len(), 23 * 8);
}

#[test]
fn query_and_halt_reason() {
    let mut t = Target::new(Ram::new());
    assert!(t.ask("qSupported").contains("PacketSize"));
    assert_eq!(t.ask("?"), "S05");
    assert_eq!(t.ask("qAttached"), "1");
    assert_eq!(t.ask("qC"), "QC1");
}

#[test]
fn memory_read_write_roundtrip() {
    let mut t = Target::new(map_stm32f407_layout());
    assert_eq!(t.ask("M20000000,4:deadbeef"), "OK");
    let r = t.ask("m20000000,4");
    assert_eq!(r, "deadbeef");
    assert_eq!(t.ask("m20000000,x"), "E01");
}

#[test]
fn breakpoint_set_and_hit() {
    let mut t = Target::new(Ram::new());
    let pc = t.regs[REG_PC];
    assert_eq!(t.ask(&format!("Z0,{:x},2", pc & !1)), "OK");
    let r = t.ask("c");
    assert_eq!(r, "S05");
    assert_eq!(t.ask(&format!("z0,{:x},2", pc & !1)), "OK");
}

#[test]
fn write_regs_roundtrip() {
    let mut t = Target::new(Ram::new());
    let g = t.ask("g");
    let mut modified = g.clone().into_bytes();
    modified[0..8].copy_from_slice(b"44332211");
    let g2 = String::from_utf8(modified).unwrap();
    assert_eq!(t.ask(&format!("G{g2}")), "OK");
    let g3 = t.ask("g");
    assert!(g3.starts_with("44332211"));
    assert_eq!(t.regs[0], 0x1122_3344);
}

#[test]
fn memory_that_is_not_there() {
    let mut t = Target::new(Ram::new());
    assert_eq!(t.ask("m20000000,4"), "E02");
    assert_eq!(t.ask("M20000000,1:ff"), "E02");
    assert_eq!(t.ask("M20000000,2:ff"), "E01");
    assert_eq!(t.ask("Gzz"), "E01");
    assert_eq!(t.ask(""), "");
    assert_eq!(t.ask("X"), "");
}

#[test]
fn continue_jumps_and_gives_up_in_the_end() {
    let mut t = Target::new(Ram::new());
    assert_eq!(t.ask("c1000"), "S02");
    assert_eq!(t.regs[REG_PC], 0x1000);
    assert_eq!(t.server.continue_reply(0, 0, true), Some("S05".to_string()));
    assert_eq!(t.server.continue_reply(0, CONTINUE_MAX_SEG - 1, false), None);
    assert_eq!(t.ask("s"), "S05");
}

#[test]
fn packets_are_framed_and_read() {
    assert_eq!(frame_reply(b"OK"), b"$OK#9a".to_vec());
    let mut r = PacketReader::new();
    let mut got = Vec::new();
    for b in b"+$qC#b4$g#67" {
        if r.feed(*b) {
            got.push(r.command_text());
        }
    }
    assert_eq!(got, vec!["qC".to_string(), "g".to_string()]);
    let mut r = PacketReader::new();
    let mut text = String::new();
    for b in b"$a\xffb#00" {
        if r.feed(*b) {
            text = r.command_text();
        }
    }
    assert_eq!(text, "a\u{fffd}b");
}
