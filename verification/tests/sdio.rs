use mcu_simulater::peripheral::dma::DmaByteIo;
use mcu_simulater::peripheral::sdio::{
    DataDir, Sdio, BLOCK_SIZE, CMD_APP_CMD, CMD_APP_OP_COND, CMD_CPSMEN, CMD_GO_IDLE,
    CMD_READ_SINGLE_BLOCK, CMD_SELECT_CARD, CMD_SEND_IF_COND, CMD_SEND_REL_ADDR, CMD_WRITE_BLOCK,
    DCTRL_DTEN, FIFO_DEPTH, OFF_ARG, OFF_CMD, OFF_DCTRL, OFF_DLEN, OFF_MASK, OFF_RESP1,
    OFF_RESPCMD, OFF_STATUS, SDIO_IRQ, ST_CMDREND, ST_CMDSENT, ST_DATAEND,
};
use mcu_simulater::peripheral::Peripheral;
use mcu_simulater::wires::Wires;

fn sdio() -> (Sdio, Wires) {
    (Sdio::new(), Wires::new())
}

/// Gives a command.
fn send_cmd(s: &mut Sdio, w: &mut Wires, index: u32, arg: u32, waitresp: u32) {
    s.write(w, OFF_ARG, 4, arg).unwrap();
    s.write(w, OFF_CMD, 4, index | (waitresp << 6) | CMD_CPSMEN)
        .unwrap();
}

#[test]
fn cmd8_echoes_check_pattern() {
    let (mut s, mut w) = sdio();
    send_cmd(&mut s, &mut w, CMD_SEND_IF_COND, 0x1AA, 1);
    assert_eq!(s.read(&mut w, OFF_RESP1, 4).unwrap(), 0x1AA);
    assert_eq!(s.read(&mut w, OFF_RESPCMD, 4).unwrap(), CMD_SEND_IF_COND);
    assert_eq!(s.read(&mut w, OFF_STATUS, 4).unwrap() & ST_CMDREND, ST_CMDREND);
}

#[test]
fn cmd0_no_response_sets_cmdsent() {
    let (mut s, mut w) = sdio();
    send_cmd(&mut s, &mut w, CMD_GO_IDLE, 0, 0);
    assert_eq!(s.read(&mut w, OFF_STATUS, 4).unwrap() & ST_CMDSENT, ST_CMDSENT);
    assert_eq!(s.read(&mut w, OFF_STATUS, 4).unwrap() & ST_CMDREND, 0);
}

#[test]
fn acmd41_returns_ocr_with_ccs() {
    let (mut s, mut w) = sdio();
    send_cmd(&mut s, &mut w, CMD_APP_CMD, 0, 1);
    send_cmd(&mut s, &mut w, CMD_APP_OP_COND, 0x40FF_8000, 1);
    let resp = s.read(&mut w, OFF_RESP1, 4).unwrap();
    assert_eq!(resp, 0x40FF_8000);
}

#[test]
fn select_card_moves_to_tran() {
    let (mut s, mut w) = sdio();
    send_cmd(&mut s, &mut w, CMD_SEND_REL_ADDR, 0, 1);
    let rca = (s.read(&mut w, OFF_RESP1, 4).unwrap() >> 16) as u32;
    send_cmd(&mut s, &mut w, CMD_SELECT_CARD, rca << 16, 1);
    let state = (s.read(&mut w, OFF_RESP1, 4).unwrap() >> 9) & 0xF;
    assert_eq!(state, 4);
}

#[test]
fn read_block_fills_fifo_and_drains() {
    let (mut s, mut w) = sdio();
    for i in 0..BLOCK_SIZE {
        s.card[i] = (i % 251) as u8;
    }
    send_cmd(&mut s, &mut w, CMD_READ_SINGLE_BLOCK, 0, 1);
    assert_eq!(s.fifo_len(), FIFO_DEPTH);
    while s.fifo_len() > 0 {
        s.dma_read_dr(&mut w);
    }
    assert_eq!(s.read(&mut w, OFF_STATUS, 4).unwrap() & ST_DATAEND, ST_DATAEND);
    assert_eq!(s.dir(), DataDir::Idle);
}

#[test]
fn write_block_flushes_to_card() {
    let (mut s, mut w) = sdio();
    s.write(&mut w, OFF_DLEN, 4, BLOCK_SIZE as u32).unwrap();
    s.write(&mut w, OFF_ARG, 4, 512).unwrap();
    send_cmd(&mut s, &mut w, CMD_WRITE_BLOCK, 512, 1);
    assert_eq!(s.data_block(), 512);
    s.write(&mut w, OFF_DCTRL, 4, DCTRL_DTEN).unwrap();
    for i in 0..FIFO_DEPTH {
        s.dma_write_dr(&mut w, 0x4433_2211 + i as u32);
    }
    assert_eq!(s.read(&mut w, OFF_STATUS, 4).unwrap() & ST_DATAEND, ST_DATAEND);
    assert_eq!(&s.card[512..516], &[0x11, 0x22, 0x33, 0x44]);
}

#[test]
fn mask_enables_irq() {
    let (mut s, mut w) = sdio();
    s.write(&mut w, OFF_MASK, 4, ST_CMDREND).unwrap();
    send_cmd(&mut s, &mut w, CMD_SEND_IF_COND, 0x1AA, 1);
    assert!(w.nvic.is_pending(SDIO_IRQ));
}
