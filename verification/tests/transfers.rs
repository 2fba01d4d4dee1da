//! Transfers between memory and the data registers of the peripherals.
use mcu_simulater::device::Device;
use mcu_simulater::events::Event;
use mcu_simulater::machine::access::Answer;
use mcu_simulater::machine::board::Board;
use mcu_simulater::machine::layout::{map_stm32f407_layout, PLACE_SDIO};
use mcu_simulater::machine::routes::{
    adc_route, dac_route, dcmi_route, sdio_routes, spi_route, timer_route, Route,
};
use mcu_simulater::memory::{GuestMemory, Ram};
use mcu_simulater::peripheral::dma::{Dma, DmaDir, DmaTarget, DMA1_STREAM_IRQ};

const ADC1: u32 = 0x4001_2000;
const DAC: u32 = 0x4000_7400;
const DCMI: u32 = 0x5005_0000;
const SDIO: u32 = 0x4001_2C00;
const SPI1: u32 = 0x4001_3000;
const SPI3: u32 = 0x4000_3C00;
const DMA1: u32 = 0x4002_6000;
const DMA2: u32 = 0x4002_6400;

const EN: u32 = 1;
const TO_PERIPH: u32 = 1 << 6;
const MINC: u32 = 1 << 10;
const BYTES: u32 = 0;
const HALVES: u32 = (1 << 11) | (1 << 13);
const WORDS: u32 = (2 << 11) | (2 << 13);

fn poke(b: &mut Board, addr: u32, value: u32) {
    assert!(b.takes_write(addr, 4, value));
    assert_eq!(b.written_by(true, addr, 4, value), Answer::Plain);
}

fn peek(b: &mut Board, addr: u32) -> u32 {
    assert!(b.takes_read(addr, 4));
    match b.read_by(true, addr, 4) {
        Answer::Value(v) => v,
        other => panic!("{:?}", other),
    }
}

fn stream(s: u32) -> u32 {
    0x10 + 0x18 * s
}

/// Sets up a stream with its buffer at `at`.
fn set_up(b: &mut Board, dma: u32, s: u32, channel: u32, mode: u32, count: u32, at: u32) {
    poke(b, dma + stream(s) + 4, count);
    poke(b, dma + stream(s) + 12, at);
    poke(b, dma + stream(s), (channel << 25) | mode | MINC | EN);
}

fn publish(b: &mut Board, ev: Event) {
    b.wires.publish(ev);
    b.settle();
}

fn pump(b: &mut Board, mem: &mut Ram) {
    assert!(b.transfers_fit());
    b.pump(mem);
    assert!(!b.dma_waits());
}

fn bytes(mem: &Ram, at: u64, len: usize) -> Vec<u8> {
    mem.mem_read(at, len).unwrap()
}

#[test]
fn samples_go_to_memory() {
    let mut b = Board::new();
    let mut mem = map_stm32f407_layout();
    set_up(&mut b, DMA2, 0, 0, HALVES, 2, 0x2000_0100);
    poke(&mut b, ADC1 + 0x08, 0x101);
    publish(&mut b, Event::AdcValue { port: 1, channel: 0, value: 0xABC });
    pump(&mut b, &mut mem);
    assert_eq!(bytes(&mem, 0x2000_0100, 4), vec![0xBC, 0x0A, 0, 0]);
    assert_eq!(peek(&mut b, DMA2 + stream(0) + 4), 1);
    publish(&mut b, Event::AdcValue { port: 1, channel: 0, value: 0x123 });
    pump(&mut b, &mut mem);
    assert_eq!(bytes(&mem, 0x2000_0100, 4), vec![0xBC, 0x0A, 0x23, 0x01]);
    // The count is used up: the stream is off, and its flag is up.
    assert_eq!(peek(&mut b, DMA2 + stream(0)) & EN, 0);
    assert_eq!(peek(&mut b, DMA2) & (1 << 5), 1 << 5);
    publish(&mut b, Event::AdcValue { port: 1, channel: 0, value: 0x456 });
    assert!(!b.dma_waits());
}

#[test]
fn samples_stay_without_dma_mode() {
    let mut b = Board::new();
    set_up(&mut b, DMA2, 0, 0, HALVES, 2, 0x2000_0100);
    poke(&mut b, ADC1 + 0x08, 0x1);
    publish(&mut b, Event::AdcValue { port: 1, channel: 0, value: 0xABC });
    assert!(!b.dma_waits());
    assert_eq!(peek(&mut b, ADC1 + 0x4C), 0xABC);
}

#[test]
fn requests_need_their_stream() {
    let mut b = Board::new();
    // Stream 0 is set up for another channel, and stream 2 for the other direction.
    set_up(&mut b, DMA2, 0, 3, HALVES, 2, 0x2000_0100);
    set_up(&mut b, DMA2, 2, 1, HALVES | TO_PERIPH, 2, 0x2000_0100);
    poke(&mut b, ADC1 + 0x08, 0x101);
    poke(&mut b, ADC1 + 0x108, 0x101);
    publish(&mut b, Event::AdcValue { port: 1, channel: 0, value: 1 });
    publish(&mut b, Event::AdcValue { port: 2, channel: 0, value: 1 });
    assert!(!b.dma_waits());
}

#[test]
fn frames_go_to_memory() {
    let mut b = Board::new();
    let mut mem = map_stm32f407_layout();
    set_up(&mut b, DMA2, 1, 1, WORDS, 2, 0x2000_0200);
    poke(&mut b, DCMI, 0x4001);
    publish(&mut b, Event::DcmiFrame { port: 1, data: vec![1, 2, 3, 4, 5, 6, 7, 8] });
    pump(&mut b, &mut mem);
    assert_eq!(bytes(&mem, 0x2000_0200, 8), vec![1, 2, 3, 4, 5, 6, 7, 8]);
    assert_eq!(peek(&mut b, DMA2 + stream(1)) & EN, 0);
    // Nothing is left in the interface.
    assert_eq!(peek(&mut b, DCMI + 0x04) & 1, 0);
}

#[test]
fn software_trigger_fetches_the_next_level() {
    let mut b = Board::new();
    let mut mem = map_stm32f407_layout();
    assert!(mem.mem_write(0x2000_0300, &vec![0x34, 0x02]));
    set_up(&mut b, DMA1, 5, 7, HALVES | TO_PERIPH, 1, 0x2000_0300);
    poke(&mut b, DAC, 0x1 | 0x4 | (7 << 3) | 0x1000);
    poke(&mut b, DAC + 0x08, 0x111);
    poke(&mut b, DAC + 0x04, 1);
    assert_eq!(peek(&mut b, DAC + 0x2C), 0x111);
    pump(&mut b, &mut mem);
    assert_eq!(peek(&mut b, DAC + 0x2C), 0x234);
}

#[test]
fn timer_fetches_the_next_level() {
    let mut b = Board::new();
    let mut mem = map_stm32f407_layout();
    assert!(mem.mem_write(0x2000_0300, &vec![0x78, 0x05]));
    set_up(&mut b, DMA1, 6, 7, HALVES | TO_PERIPH, 1, 0x2000_0300);
    // Channel 2 listens to timer 6.
    poke(&mut b, DAC, 0x1_0000 | 0x4_0000 | 0x1000_0000);
    poke(&mut b, DAC + 0x14, 0x222);
    publish(&mut b, Event::TimUpdate { port: 7 });
    assert!(!b.dma_waits());
    publish(&mut b, Event::TimUpdate { port: 6 });
    assert_eq!(peek(&mut b, DAC + 0x30), 0x222);
    pump(&mut b, &mut mem);
    assert_eq!(peek(&mut b, DAC + 0x30), 0x578);
}

#[test]
fn card_blocks_go_both_ways() {
    let mut b = Board::new();
    let mut mem = map_stm32f407_layout();
    let block: Vec<u8> = (0..512u32).map(|i| (i * 7) as u8).collect();
    assert!(mem.mem_write(0x2000_1000, &block));
    // Write block 1 from memory.
    set_up(&mut b, DMA2, 6, 4, WORDS | TO_PERIPH, 128, 0x2000_1000);
    poke(&mut b, SDIO + 0x28, 512);
    poke(&mut b, SDIO + 0x08, 512);
    poke(&mut b, SDIO + 0x0C, 24 | (1 << 6) | (1 << 10));
    poke(&mut b, SDIO + 0x2C, 0x9);
    assert!(b.dma_waits());
    pump(&mut b, &mut mem);
    match b.bus.device(PLACE_SDIO) {
        Device::Sdio(d) => assert_eq!(d.card_bytes(512, 512), &block[..]),
        _ => unreachable!(),
    }
    // The transfer is complete: DATAEND.
    assert_eq!(peek(&mut b, SDIO + 0x34) & (1 << 8), 1 << 8);
    // Read it back to another place.
    set_up(&mut b, DMA2, 3, 4, WORDS, 128, 0x2000_2000);
    poke(&mut b, SDIO + 0x2C, 0xB);
    poke(&mut b, SDIO + 0x0C, 17 | (1 << 6) | (1 << 10));
    pump(&mut b, &mut mem);
    assert_eq!(bytes(&mem, 0x2000_2000, 512), block);
    assert_eq!(peek(&mut b, DMA2 + stream(3)) & EN, 0);
}

#[test]
fn card_reads_fall_back_to_the_other_stream() {
    let mut b = Board::new();
    let mut mem = map_stm32f407_layout();
    set_up(&mut b, DMA2, 6, 4, WORDS, 128, 0x2000_2000);
    poke(&mut b, SDIO + 0x2C, 0xB);
    poke(&mut b, SDIO + 0x0C, 17 | (1 << 6) | (1 << 10));
    pump(&mut b, &mut mem);
    assert_eq!(bytes(&mem, 0x2000_2000, 512), vec![0xA5; 512]);
}

#[test]
fn spi_sends_from_memory() {
    let mut b = Board::new();
    let mut mem = map_stm32f407_layout();
    let ear = b.wires.events.subscribe();
    assert!(mem.mem_write(0x2000_0400, &vec![0x9F, 0x01, 0x02]));
    set_up(&mut b, DMA2, 3, 3, BYTES | TO_PERIPH, 3, 0x2000_0400);
    poke(&mut b, SPI1, 0x40);
    poke(&mut b, SPI1 + 0x04, 0x2);
    pump(&mut b, &mut mem);
    let mut sent = Vec::new();
    while let Some(ev) = b.wires.events.peek(ear) {
        if let Event::SpiByte { port: 1, byte } = ev {
            sent.push(*byte);
        }
        b.wires.events.advance(ear);
    }
    assert_eq!(sent, vec![0x9F, 0x01, 0x02]);
}

#[test]
fn spi_receives_into_memory() {
    let mut b = Board::new();
    let mut mem = map_stm32f407_layout();
    set_up(&mut b, DMA1, 0, 0, BYTES, 2, 0x2000_0500);
    set_up(&mut b, DMA1, 7, 0, BYTES | TO_PERIPH, 1, 0x2000_0600);
    poke(&mut b, SPI3, 0x40);
    // Sending asks for the receive stream too, which waits: nothing has arrived.
    poke(&mut b, SPI3 + 0x04, 0x3);
    assert!(b.transfers_fit());
    b.pump(&mut mem);
    assert!(b.dma_waits());
    assert_eq!(peek(&mut b, DMA1 + stream(7)) & EN, 0);
    assert_eq!(peek(&mut b, DMA1 + stream(0) + 4), 2);
    publish(&mut b, Event::SpiRx { port: 3, byte: 0x5A });
    pump(&mut b, &mut mem);
    publish(&mut b, Event::SpiRx { port: 3, byte: 0xC3 });
    pump(&mut b, &mut mem);
    assert_eq!(bytes(&mem, 0x2000_0500, 2), vec![0x5A, 0xC3]);
    assert_eq!(peek(&mut b, DMA1 + stream(0)) & EN, 0);
}

#[test]
fn lines_of_the_chip() {
    let dma1 = |stream, channel| Some(Route { second: false, stream, channel });
    let dma2 = |stream, channel| Some(Route { second: true, stream, channel });
    assert_eq!(adc_route(1), dma2(0, 0));
    assert_eq!(adc_route(2), dma2(2, 1));
    assert_eq!(adc_route(3), dma2(1, 2));
    assert_eq!(adc_route(4), None);
    assert_eq!(dac_route(1), dma1(5, 7));
    assert_eq!(dac_route(2), dma1(6, 7));
    assert_eq!(Some(dcmi_route()), dma2(1, 1));
    assert_eq!(Some(sdio_routes().0), dma2(3, 4));
    assert_eq!(Some(sdio_routes().1), dma2(6, 4));
    assert_eq!(spi_route(2, DmaDir::MemToPeriph), dma1(4, 0));
    assert_eq!(timer_route(1), dma2(5, 6));
    assert_eq!(timer_route(4), dma1(3, 2));
    assert_eq!(timer_route(8), dma2(3, 7));
    assert_eq!(timer_route(9), None);
}

#[test]
fn requests_for_a_number_of_items() {
    let mut d = Dma::new("DMA1", DMA1_STREAM_IRQ);
    assert!(!d.serves(2, 0, DmaDir::PeriphToMem));
    assert!(!d.service_stream_n(2, 0, DmaDir::PeriphToMem, DmaTarget::Dcmi(1), 4));
    assert_eq!(d.pending_transfer(), 0);
}

#[test]
fn what_was_asked_for_with_a_send_is_received_without_the_receive_bit() {
    let mut b = Board::new();
    let mut mem = map_stm32f407_layout();
    set_up(&mut b, DMA1, 0, 0, BYTES, 1, 0x2000_0500);
    set_up(&mut b, DMA1, 7, 0, BYTES | TO_PERIPH, 1, 0x2000_0600);
    poke(&mut b, SPI3, 0x40);
    poke(&mut b, SPI3 + 0x04, 0x2);
    b.pump(&mut mem);
    assert!(b.dma_waits());
    publish(&mut b, Event::SpiRx { port: 3, byte: 0x77 });
    pump(&mut b, &mut mem);
    assert_eq!(bytes(&mem, 0x2000_0500, 1), vec![0x77]);
}

#[test]
fn a_timer_asks_in_the_direction_of_its_stream() {
    for mode in [WORDS | TO_PERIPH, WORDS] {
        let mut b = Board::new();
        let mut mem = map_stm32f407_layout();
        set_up(&mut b, DMA1, 3, 5, mode, 4, 0x2000_0700);
        publish(&mut b, Event::TimUpdate { port: 4 });
        assert!(!b.dma_waits());
        publish(&mut b, Event::TimUpdate { port: 3 });
        assert!(b.dma_waits());
        // No timer is wired up: the transfer is passed over.
        pump(&mut b, &mut mem);
        assert_eq!(peek(&mut b, DMA1 + stream(3) + 4), 4);
    }
    let mut b = Board::new();
    publish(&mut b, Event::TimUpdate { port: 3 });
    publish(&mut b, Event::TimUpdate { port: 9 });
    assert!(!b.dma_waits());
}
