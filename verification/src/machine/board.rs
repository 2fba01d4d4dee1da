//! The board: the devices on the bus, the shared wires, and who hears of which event.
//!
//! An access to a device may publish events. The board passes each one on: bytes that a USART
//! sends appear on the console, a pin that changes its level reaches the external interrupt
//! unit, a CAN frame reaches the other controller, a request for a transfer reaches the DMA
//! controller that serves it.
use crate::bus;
use crate::bus::{Bus, BusView, RegionView};
use crate::device::{Device, DeviceView};
use crate::events::{Event, EventBusView};
use crate::machine::layout;
use crate::machine::layout::{
    DEVICE_COUNT, PLACE_ADC, PLACE_CAN1, PLACE_CAN2, PLACE_DAC, PLACE_DCMI, PLACE_DMA1, PLACE_DMA2,
    PLACE_EXTI, PLACE_I2C, PLACE_SPI,
};
use crate::machine::routes;
use crate::machine::routes::{Request, Route};
use crate::peripheral::can::CanFrame;
use crate::peripheral::console::Console;
use crate::peripheral::dcmi;
use crate::peripheral::dma::{DmaDir, DmaTarget};
use crate::peripheral::mpu::MpuView;
use crate::peripheral::nvic::NvicView;
use crate::peripheral::terminal::{Terminal, TerminalView};
use crate::peripheral::Peripheral;
use crate::wires::{Wires, WiresView};
use vstd::prelude::*;

verus! {

/// The source of a connection.
#[derive(Debug, Clone, Copy, PartialEq, Eq, Structural)]
pub enum ConnectSource {
    /// The bytes that a USART sends.
    UartTx(u8),
}

/// The target of a connection.
#[derive(Debug, Clone, Copy, PartialEq, Eq, Structural)]
pub enum ConnectTarget {
    ConsoleRx,
    TerminalRx,
}

/// The board.
pub struct Board {
    pub bus: Bus<Device>,
    pub wires: Wires,
    /// Shows what the USARTs send.
    pub console: Console,
    pub terminal: Terminal,
    /// The connections that were made.
    pub links: Vec<(ConnectSource, ConnectTarget)>,
    /// Was a device written to that may need ticks?
    pub any_active: bool,
}

/// The state of the board.
#[verifier::ext_equal]
pub struct BoardView {
    pub bus: BusView<DeviceView>,
    pub w: WiresView,
    pub console: Seq<u8>,
    pub terminal: TerminalView,
    pub links: Seq<(ConnectSource, ConnectTarget)>,
    /// Was a device written to that may need ticks?
    pub any_active: bool,
}

impl View for Board {
    type V = BoardView;

    open spec fn view(&self) -> BoardView {
        BoardView {
            bus: self.bus@,
            w: self.wires@,
            console: self.console@,
            terminal: self.terminal@,
            links: self.links@,
            any_active: self.any_active,
        }
    }
}

/// The region of device `i`, with its name.
pub open spec fn region_view(i: int) -> RegionView {
    RegionView {
        base: layout::region(i).0 as int,
        size: layout::region(i).1 as int,
        name: layout::device_name(i),
    }
}

/// The devices are in their places.
pub open spec fn bus_wf(b: BusView<DeviceView>) -> bool {
    &&& bus::bus_inv::<Device>(b)
    &&& b.devices.len() == DEVICE_COUNT
    &&& b.regions == Seq::new(DEVICE_COUNT as nat, |i: int| region_view(i))
    &&& forall|i: int| 0 <= i < DEVICE_COUNT ==> layout::fits(i, #[trigger] b.devices[i])
}

impl BoardView {
    /// The devices are in their places, and the wires are in shape.
    pub open spec fn wf(self) -> bool {
        &&& bus_wf(self.bus)
        &&& self.w.wf()
    }

    /// The board at power-on.
    pub open spec fn fresh() -> BoardView {
        BoardView {
            bus: BusView {
                regions: Seq::new(DEVICE_COUNT as nat, |i: int| region_view(i)),
                devices: Seq::new(DEVICE_COUNT as nat, |i: int| layout::fresh_device(i)),
            },
            w: WiresView {
                nvic: NvicView::fresh(false),
                events: EventBusView { log: Seq::empty(), cursors: seq![0usize] },
                mpu: MpuView::fresh(false),
                exti: Seq::new(16, |i: int| 0u8),
                reset: None,
                backup_writable: false,
            },
            console: Seq::empty(),
            terminal: TerminalView { display: Seq::empty(), connected: true },
            links: Seq::empty(),
            any_active: false,
        }
    }

    /// Device `i` and the wires after a step of the device.
    pub open spec fn with_device(self, i: int, d: DeviceView, w: WiresView) -> BoardView {
        BoardView { bus: self.bus.with_device(i, d), w, ..self }
    }

    /// The DMA controller at the end of a line.
    pub open spec fn controller(route: Route) -> int {
        if route.second {
            PLACE_DMA2 as int
        } else {
            PLACE_DMA1 as int
        }
    }

    /// A request for a transfer: the controller at the end of the line notes it.
    pub open spec fn served(self, q: Request) -> BoardView {
        let place = Self::controller(q.route);
        match self.bus.devices[place] {
            DeviceView::Dma(d) => {
                let d1 = if q.items == 0 {
                    d.service_stream(q.route.stream as int, q.route.channel, q.dir, q.requester)
                } else {
                    d.service_stream_n(
                        q.route.stream as int,
                        q.route.channel,
                        q.dir,
                        q.requester,
                        q.items,
                    )
                };
                self.with_device(place, DeviceView::Dma(d1), self.w)
            },
            _ => self,
        }
    }

    /// A request over a line, if it exists.
    pub open spec fn asked(self, line: Option<Route>, dir: DmaDir, requester: DmaTarget) -> BoardView {
        match line {
            Some(route) => self.served(Request { route, dir, requester, items: 0 }),
            None => self,
        }
    }

    /// Is a stream set up for the line and the direction?
    pub open spec fn is_set_up(self, route: Route, dir: DmaDir) -> bool {
        match self.bus.devices[Self::controller(route)] {
            DeviceView::Dma(d) => d.accepts(route.stream as int, route.channel, dir),
            _ => false,
        }
    }

    /// The card interface asks for a transfer. A read goes over the receive line, or over the
    /// other one if the receive line is not set up.
    pub open spec fn card_asked(self, port: u8, dir: DmaDir, items: u32) -> BoardView {
        let requester = DmaTarget::Sdio(port);
        if port != 1 {
            self
        } else {
            match dir {
                DmaDir::MemToPeriph => self.asked(Some(routes::sdio_tx_line()), dir, requester),
                DmaDir::PeriphToMem => if items == 0 {
                    self
                } else if self.is_set_up(routes::sdio_rx_line(), dir) {
                    self.served(Request { route: routes::sdio_rx_line(), dir, requester, items })
                } else {
                    self.served(Request { route: routes::sdio_tx_line(), dir, requester, items })
                },
            }
        }
    }

    /// A list of requests, in order.
    pub open spec fn served_all(self, qs: Seq<Request>) -> BoardView
        decreases qs.len(),
    {
        if qs.len() == 0 {
            self
        } else {
            self.served_all(qs.drop_last()).served(qs.last())
        }
    }

    /// A byte that a USART sent, at the first `n` connections.
    pub open spec fn shown(self, n: int, port: u8, byte: u8) -> BoardView
        decreases n,
    {
        if n <= 0 {
            self
        } else {
            let b = self.shown(n - 1, port, byte);
            let (src, dst) = self.links[n - 1];
            if src == ConnectSource::UartTx(port) {
                match dst {
                    ConnectTarget::ConsoleRx => BoardView { console: b.console.push(byte), ..b },
                    ConnectTarget::TerminalRx => BoardView {
                        terminal: TerminalView {
                            display: b.terminal.display.push(byte),
                            ..b.terminal
                        },
                        ..b
                    },
                }
            } else {
                b
            }
        }
    }

    /// A USART sent a byte: the console shows it, and so does every connection of the port.
    pub open spec fn uart_sent(self, port: u8, byte: u8) -> BoardView {
        let b = BoardView { console: self.console.push(byte), ..self };
        b.shown(b.links.len() as int, port, byte)
    }

    /// A byte arrives at an I2C controller, and may go on to memory.
    pub open spec fn i2c_received(self, port: u8, byte: u8) -> BoardView {
        if 1 <= port <= 3 {
            let i = PLACE_I2C + port - 1;
            match self.bus.devices[i] {
                DeviceView::I2c(d) => {
                    let (d1, w1) = d.feed_rx(self.w, byte);
                    let b = self.with_device(i, DeviceView::I2c(d1), w1);
                    if d1.dma_rx_pending() {
                        b.asked(
                            routes::i2c_line(port, DmaDir::PeriphToMem),
                            DmaDir::PeriphToMem,
                            DmaTarget::I2c(port),
                        )
                    } else {
                        b
                    }
                },
                _ => self,
            }
        } else {
            self
        }
    }

    /// A byte arrives at an SPI controller, and may go on to memory.
    pub open spec fn spi_received(self, port: u8, byte: u8) -> BoardView {
        if 1 <= port <= 3 {
            let i = PLACE_SPI + port - 1;
            match self.bus.devices[i] {
                DeviceView::Spi(d) => {
                    let (d1, w1) = d.feed_rx(self.w, byte);
                    let b = self.with_device(i, DeviceView::Spi(d1), w1);
                    if d1.dma_rx_pending() {
                        b.asked(
                            routes::spi_line(port, DmaDir::PeriphToMem),
                            DmaDir::PeriphToMem,
                            DmaTarget::Spi(port),
                        )
                    } else {
                        b
                    }
                },
                _ => self,
            }
        } else {
            self
        }
    }

    /// A sample arrives at an ADC, and may go on to memory.
    pub open spec fn adc_sampled(self, port: u8, value: u16) -> BoardView {
        if 1 <= port <= 3 {
            let i = PLACE_ADC + port - 1;
            match self.bus.devices[i] {
                DeviceView::Adc(d) => {
                    let (d1, w1) = d.feed_value(self.w, value);
                    let b = self.with_device(i, DeviceView::Adc(d1), w1);
                    if d1.dma_pending() {
                        b.asked(
                            routes::adc_line(port),
                            DmaDir::PeriphToMem,
                            DmaTarget::Adc(port),
                        )
                    } else {
                        b
                    }
                },
                _ => self,
            }
        } else {
            self
        }
    }

    /// A channel of the DAC asks for its next value.
    pub open spec fn dac_asked(self, channel: u8, on: bool) -> BoardView {
        if on {
            self.asked(routes::dac_line(channel), DmaDir::MemToPeriph, DmaTarget::Dac(1))
        } else {
            self
        }
    }

    /// The direction that the stream at the end of a line is set up for.
    pub open spec fn line_dir(self, route: Route) -> DmaDir {
        match self.bus.devices[Self::controller(route)] {
            DeviceView::Dma(d) => d.stream_dir(route.stream as int),
            _ => DmaDir::PeriphToMem,
        }
    }

    /// A timer asks for a transfer, in the direction that its stream is set up for.
    pub open spec fn timer_asked(self, port: u8) -> BoardView {
        match routes::timer_line(port) {
            Some(route) => self.served(
                Request {
                    route,
                    dir: self.line_dir(route),
                    requester: DmaTarget::Tim(port),
                    items: 0,
                },
            ),
            None => self,
        }
    }

    /// A timer reached its update event: it may trigger the DAC, whose channels may ask for
    /// their next values, and it asks for a transfer of its own.
    pub open spec fn timer_updated(self, port: u8) -> BoardView {
        self.dac_clocked(port).timer_asked(port)
    }

    /// A timer clocks the DAC.
    pub open spec fn dac_clocked(self, port: u8) -> BoardView {
        match self.bus.devices[PLACE_DAC as int] {
            DeviceView::Dac(d) => {
                let d1 = d.timer_trigger(port);
                self.with_device(PLACE_DAC as int, DeviceView::Dac(d1), self.w).dac_asked(
                    1,
                    d.triggered(1, port) && d1.dma_requested(1),
                ).dac_asked(2, d.triggered(2, port) && d1.dma_requested(2))
            },
            _ => self,
        }
    }

    /// A frame arrives at the camera interface, and may go on to memory.
    pub open spec fn camera_frame(self, port: u8, data: Seq<u8>) -> BoardView {
        match self.bus.devices[PLACE_DCMI as int] {
            DeviceView::Dcmi(d) => if port == 1 {
                let (d1, w1) = d.feed_frame(self.w, data);
                let b = self.with_device(PLACE_DCMI as int, DeviceView::Dcmi(d1), w1);
                let items = dcmi::frame_words(data).len() as u32;
                if d.running() && items > 0 {
                    b.served(
                        Request {
                            route: routes::dcmi_line(),
                            dir: DmaDir::PeriphToMem,
                            requester: DmaTarget::Dcmi(port),
                            items,
                        },
                    )
                } else {
                    b
                }
            } else {
                self
            },
            _ => self,
        }
    }

    /// A CAN controller sent a frame: the other one receives it.
    pub open spec fn can_frame(self, frame: CanFrame) -> BoardView {
        let i = if frame.port == 1 {
            PLACE_CAN2 as int
        } else {
            PLACE_CAN1 as int
        };
        if frame.port == 1 || frame.port == 2 {
            match self.bus.devices[i] {
                DeviceView::Can(d) => {
                    let (d1, w1) = d.feed_rx(self.w, frame);
                    self.with_device(i, DeviceView::Can(d1), w1)
                },
                _ => self,
            }
        } else {
            self
        }
    }

    /// A pin changed its level: the external interrupt unit hears of it.
    pub open spec fn pin_changed(self, port: u8, pin: u8, level: bool) -> BoardView {
        match self.bus.devices[PLACE_EXTI as int] {
            DeviceView::Exti(d) => {
                let (d1, w1) = d.feed_gpio(self.w, port, pin, level);
                self.with_device(PLACE_EXTI as int, DeviceView::Exti(d1), w1)
            },
            _ => self,
        }
    }

    /// What the board does on hearing of an event.
    #[verifier::opaque]
    pub open spec fn heard(self, ev: Event) -> BoardView {
        match ev {
            Event::UartByte { port, byte } => self.uart_sent(port, byte),
            Event::I2cRx { port, byte } => self.i2c_received(port, byte),
            Event::SpiRx { port, byte } => self.spi_received(port, byte),
            Event::AdcValue { port, channel, value } => self.adc_sampled(port, value),
            Event::TimUpdate { port } => self.timer_updated(port),
            Event::DcmiFrame { port, data } => self.camera_frame(port, data@),
            Event::CanFrame { frame } => self.can_frame(*frame),
            Event::GpioLevel { port, pin, level } => self.pin_changed(port, pin, level),
            Event::SdioDma { port, dir, items } => self.card_asked(port, dir, items),
            _ => self.served_all(routes::requests(ev)),
        }
    }

    /// A list of events, in order.
    pub open spec fn heard_all(self, evs: Seq<Event>) -> BoardView
        decreases evs.len(),
    {
        if evs.len() == 0 {
            self
        } else {
            self.heard_all(evs.drop_last()).heard(evs.last())
        }
    }

    /// The board has read all its events.
    pub open spec fn caught_up(self) -> BoardView {
        BoardView {
            w: WiresView {
                events: EventBusView {
                    cursors: self.w.events.cursors.update(0, self.w.events.log.len() as usize),
                    ..self.w.events
                },
                ..self.w
            },
            ..self
        }
    }

    /// All events that were published are passed on. The board is the first listener of the
    /// event bus.
    pub open spec fn settled(self) -> BoardView {
        if self.w.events.cursors.len() == 0 {
            self
        } else {
            self.heard_all(self.w.events.inbox(0)).caught_up()
        }
    }
}

/// What the board needs to know of an event.
enum Notice {
    UartByte { port: u8, byte: u8 },
    I2cRx { port: u8, byte: u8 },
    SpiRx { port: u8, byte: u8 },
    AdcValue { port: u8, value: u16 },
    TimUpdate { port: u8 },
    DcmiFrame { port: u8, data: Vec<u8> },
    CanFrame { frame: CanFrame },
    GpioLevel { port: u8, pin: u8, level: bool },
    SdioDma { port: u8, dir: DmaDir, items: u32 },
    Requests(Vec<Request>),
}

impl Notice {
    spec fn wf(self) -> bool {
        self matches Notice::Requests(qs) ==> forall|i: int|
            0 <= i < qs@.len() ==> (#[trigger] qs@[i]).route.stream < 8
    }
}

#[verifier::opaque]
spec fn noticed(b: BoardView, n: Notice) -> BoardView {
    match n {
        Notice::UartByte { port, byte } => b.uart_sent(port, byte),
        Notice::I2cRx { port, byte } => b.i2c_received(port, byte),
        Notice::SpiRx { port, byte } => b.spi_received(port, byte),
        Notice::AdcValue { port, value } => b.adc_sampled(port, value),
        Notice::TimUpdate { port } => b.timer_updated(port),
        Notice::DcmiFrame { port, data } => b.camera_frame(port, data@),
        Notice::CanFrame { frame } => b.can_frame(frame),
        Notice::GpioLevel { port, pin, level } => b.pin_changed(port, pin, level),
        Notice::SdioDma { port, dir, items } => b.card_asked(port, dir, items),
        Notice::Requests(qs) => b.served_all(qs@),
    }
}

fn copy_frame(f: &CanFrame) -> (r: CanFrame)
    ensures
        r == *f,
{
    CanFrame { port: f.port, id: f.id, ext: f.ext, rtr: f.rtr, dlc: f.dlc, data: f.data }
}

fn copy_bytes(data: &Vec<u8>) -> (r: Vec<u8>)
    ensures
        r@ == data@,
{
    let mut out: Vec<u8> = Vec::new();
    let mut i: usize = 0;
    while i < data.len()
        invariant
            i <= data@.len(),
            out@ == data@.take(i as int),
        decreases data@.len() - i,
    {
        out.push(data[i]);
        assert(data@.take(i + 1) =~= data@.take(i as int).push(data@[i as int]));
        i = i + 1;
    }
    assert(data@.take(data@.len() as int) =~= data@);
    out
}

fn notice(ev: &Event) -> (r: Notice)
    ensures
        r.wf(),
        forall|b: BoardView| noticed(b, r) == #[trigger] b.heard(*ev),
{
    reveal(BoardView::heard);
    reveal(noticed);
    match ev {
        Event::UartByte { port, byte } => Notice::UartByte { port: *port, byte: *byte },
        Event::I2cRx { port, byte } => Notice::I2cRx { port: *port, byte: *byte },
        Event::SpiRx { port, byte } => Notice::SpiRx { port: *port, byte: *byte },
        Event::AdcValue { port, channel, value } => Notice::AdcValue { port: *port, value: *value },
        Event::TimUpdate { port } => Notice::TimUpdate { port: *port },
        Event::DcmiFrame { port, data } => Notice::DcmiFrame {
            port: *port,
            data: copy_bytes(data),
        },
        Event::CanFrame { frame } => Notice::CanFrame { frame: copy_frame(frame) },
        Event::GpioLevel { port, pin, level } => Notice::GpioLevel {
            port: *port,
            pin: *pin,
            level: *level,
        },
        Event::SdioDma { port, dir, items } => Notice::SdioDma {
            port: *port,
            dir: *dir,
            items: *items,
        },
        _ => {
            let qs = routes::requests_of(ev);
            proof {
                assert forall|i: int| 0 <= i < qs@.len() implies (
                #[trigger] qs@[i]).route.stream < 8 by {
                    routes::law_lines_exist(*ev, i);
                }
            }
            Notice::Requests(qs)
        },
    }
}

/// Putting a device in its place keeps the bus in shape.
pub proof fn lemma_placed(b: BusView<DeviceView>, i: int, d: DeviceView)
    requires
        bus_wf(b),
        0 <= i < DEVICE_COUNT,
        Device::inv(d),
        layout::fits(i, d),
    ensures
        bus_wf(b.with_device(i, d)),
{
    bus::lemma_device_replaced::<Device>(b, i, d);
    let b1 = b.with_device(i, d);
    assert forall|k: int| 0 <= k < DEVICE_COUNT implies layout::fits(k, #[trigger] b1.devices[k]) by {
        if k != i {
            assert(b1.devices[k] == b.devices[k]);
        }
    }
}

/// A request whose stream is not set up for it changes nothing.
pub proof fn law_unserved_request_is_dropped(b: BoardView, q: Request)
    requires
        b.wf(),
        !b.is_set_up(q.route, q.dir),
    ensures
        b.served(q) == b,
{
    let place = BoardView::controller(q.route);
    assert(layout::fits(place, b.bus.devices[place]));
    let d = b.bus.devices[place];
    assert(b.bus.devices.update(place, d) =~= b.bus.devices);
}

impl Board {
    /// A request for a transfer reaches the DMA controller at the end of the line.
    fn serve(&mut self, q: Request)
        requires
            old(self)@.wf(),
            q.route.stream < 8,
        ensures
            final(self)@ == old(self)@.served(q),
            final(self)@.wf(),
            final(self)@.w == old(self)@.w,
    {
        let ghost b0 = self@;
        let place = if q.route.second {
            PLACE_DMA2
        } else {
            PLACE_DMA1
        };
        assert(layout::fits(place as int, b0.bus.devices[place as int]));
        assert(Device::inv(b0.bus.devices[place as int]));
        match self.bus.device_mut(place) {
            Device::Dma(d) => {
                if q.items == 0 {
                    d.service_stream(q.route.stream, q.route.channel, q.dir, q.requester);
                } else {
                    let _ = d.service_stream_n(
                        q.route.stream,
                        q.route.channel,
                        q.dir,
                        q.requester,
                        q.items,
                    );
                }
            },
            _ => {},
        }
        proof {
            lemma_placed(b0.bus, place as int, self.bus@.devices[place as int]);
            assert(self@ =~= b0.served(q));
        }
    }

    /// A request over a line, if it exists.
    fn ask(&mut self, line: Option<Route>, dir: DmaDir, requester: DmaTarget)
        requires
            old(self)@.wf(),
            line matches Some(route) ==> route.stream < 8,
        ensures
            final(self)@ == old(self)@.asked(line, dir, requester),
            final(self)@.wf(),
            final(self)@.w == old(self)@.w,
    {
        if let Some(route) = line {
            self.serve(Request { route, dir, requester, items: 0 });
        }
    }

    fn card_asked(&mut self, port: u8, dir: DmaDir, items: u32)
        requires
            old(self)@.wf(),
        ensures
            final(self)@ == old(self)@.card_asked(port, dir, items),
            final(self)@.wf(),
            final(self)@.w == old(self)@.w,
    {
        if port != 1 {
            return;
        }
        let (rx, tx) = routes::sdio_routes();
        let requester = DmaTarget::Sdio(port);
        match dir {
            DmaDir::MemToPeriph => self.ask(Some(tx), dir, requester),
            DmaDir::PeriphToMem => {
                if items == 0 {
                    return;
                }
                let route = if self.is_set_up(rx, dir) {
                    rx
                } else {
                    tx
                };
                self.serve(Request { route, dir, requester, items });
            },
        }
    }

    fn is_set_up(&self, route: Route, dir: DmaDir) -> (r: bool)
        requires
            self@.wf(),
            route.stream < 8,
        ensures
            r == self@.is_set_up(route, dir),
    {
        let place = if route.second {
            PLACE_DMA2
        } else {
            PLACE_DMA1
        };
        match self.bus.device(place) {
            Device::Dma(d) => d.serves(route.stream, route.channel, dir),
            _ => false,
        }
    }

    /// A list of requests, in order.
    fn serve_all(&mut self, qs: &Vec<Request>)
        requires
            old(self)@.wf(),
            forall|i: int| 0 <= i < qs@.len() ==> (#[trigger] qs@[i]).route.stream < 8,
        ensures
            final(self)@ == old(self)@.served_all(qs@),
            final(self)@.wf(),
            final(self)@.w == old(self)@.w,
    {
        let ghost b0 = self@;
        let n = qs.len();
        let mut i: usize = 0;
        assert(qs@.take(0) =~= Seq::<Request>::empty());
        while i < n
            invariant
                i <= n,
                n == qs@.len(),
                self@.wf(),
                self@.w == b0.w,
                self@ == b0.served_all(qs@.take(i as int)),
                forall|i: int| 0 <= i < qs@.len() ==> (#[trigger] qs@[i]).route.stream < 8,
            decreases n - i,
        {
            assert(qs@.take(i + 1).drop_last() =~= qs@.take(i as int));
            self.serve(qs[i]);
            i = i + 1;
        }
        assert(qs@.take(n as int) =~= qs@);
    }

    fn uart_sent(&mut self, port: u8, byte: u8)
        ensures
            final(self)@ == old(self)@.uart_sent(port, byte),
            old(self)@.wf() ==> final(self)@.wf(),
            final(self)@.w == old(self)@.w,
    {
        self.console.write_byte(byte);
        let ghost b1 = BoardView { console: old(self)@.console.push(byte), ..old(self)@ };
        let n = self.links.len();
        let mut i: usize = 0;
        assert(self@ =~= b1);
        while i < n
            invariant
                i <= n,
                n == b1.links.len(),
                self@.links == b1.links,
                self@ == b1.shown(i as int, port, byte),
                self@.w == b1.w,
                self@.bus == b1.bus,
            decreases n - i,
        {
            let ghost before = self@;
            let (src, dst) = self.links[i];
            if src == ConnectSource::UartTx(port) {
                match dst {
                    ConnectTarget::ConsoleRx => {
                        self.console.write_byte(byte);
                    },
                    ConnectTarget::TerminalRx => {
                        self.terminal.write_display(byte);
                    },
                }
            }
            assert(self@ =~= b1.shown(i + 1, port, byte));
            i = i + 1;
        }
    }

    fn i2c_received(&mut self, port: u8, byte: u8)
        requires
            old(self)@.wf(),
        ensures
            final(self)@ == old(self)@.i2c_received(port, byte),
            final(self)@.wf(),
            final(self)@.w.events == old(self)@.w.events,
            final(self)@.w.nested_as(old(self)@.w),
    {
        if port < 1 || port > 3 {
            return;
        }
        let ghost b0 = self@;
        let i = PLACE_I2C + (port as usize - 1);
        assert(layout::fits(i as int, b0.bus.devices[i as int]));
        assert(Device::inv(b0.bus.devices[i as int]));
        let pending = match self.bus.device_mut(i) {
            Device::I2c(d) => {
                d.feed_rx(&mut self.wires, byte);
                d.dma_rx_pending()
            },
            _ => false,
        };
        self.wires.shape();
        proof {
            lemma_placed(b0.bus, i as int, self.bus@.devices[i as int]);
        }
        if pending {
            let line = routes::i2c_route(port, DmaDir::PeriphToMem);
            self.ask(line, DmaDir::PeriphToMem, DmaTarget::I2c(port));
        }
    }

    fn spi_received(&mut self, port: u8, byte: u8)
        requires
            old(self)@.wf(),
        ensures
            final(self)@ == old(self)@.spi_received(port, byte),
            final(self)@.wf(),
            final(self)@.w.events == old(self)@.w.events,
            final(self)@.w.nested_as(old(self)@.w),
    {
        if port < 1 || port > 3 {
            return;
        }
        let ghost b0 = self@;
        let i = PLACE_SPI + (port as usize - 1);
        assert(layout::fits(i as int, b0.bus.devices[i as int]));
        assert(Device::inv(b0.bus.devices[i as int]));
        let pending = match self.bus.device_mut(i) {
            Device::Spi(d) => {
                d.feed_rx(&mut self.wires, byte);
                d.dma_rx_pending()
            },
            _ => false,
        };
        self.wires.shape();
        proof {
            lemma_placed(b0.bus, i as int, self.bus@.devices[i as int]);
        }
        if pending {
            let line = routes::spi_route(port, DmaDir::PeriphToMem);
            self.ask(line, DmaDir::PeriphToMem, DmaTarget::Spi(port));
        }
    }

    fn adc_sampled(&mut self, port: u8, value: u16)
        requires
            old(self)@.wf(),
        ensures
            final(self)@ == old(self)@.adc_sampled(port, value),
            final(self)@.wf(),
            final(self)@.w.events == old(self)@.w.events,
            final(self)@.w.nested_as(old(self)@.w),
    {
        if port < 1 || port > 3 {
            return;
        }
        let ghost b0 = self@;
        let i = PLACE_ADC + (port as usize - 1);
        assert(layout::fits(i as int, b0.bus.devices[i as int]));
        assert(Device::inv(b0.bus.devices[i as int]));
        let pending = match self.bus.device_mut(i) {
            Device::Adc(d) => {
                d.feed_value(&mut self.wires, value);
                d.dma_pending()
            },
            _ => false,
        };
        self.wires.shape();
        proof {
            lemma_placed(b0.bus, i as int, self.bus@.devices[i as int]);
        }
        if pending {
            self.ask(routes::adc_route(port), DmaDir::PeriphToMem, DmaTarget::Adc(port));
        }
    }

    fn timer_updated(&mut self, port: u8)
        requires
            old(self)@.wf(),
        ensures
            final(self)@ == old(self)@.timer_updated(port),
            final(self)@.wf(),
            final(self)@.w.events == old(self)@.w.events,
            final(self)@.w.nested_as(old(self)@.w),
    {
        self.clock_dac(port);
        if let Some(route) = routes::timer_route(port) {
            let dir = self.line_dir(route);
            self.serve(Request { route, dir, requester: DmaTarget::Tim(port), items: 0 });
        }
    }

    fn line_dir(&self, route: Route) -> (r: DmaDir)
        requires
            self@.wf(),
            route.stream < 8,
        ensures
            r == self@.line_dir(route),
    {
        let place = if route.second {
            PLACE_DMA2
        } else {
            PLACE_DMA1
        };
        match self.bus.device(place) {
            Device::Dma(d) => d.stream_dir(route.stream),
            _ => DmaDir::PeriphToMem,
        }
    }

    fn clock_dac(&mut self, port: u8)
        requires
            old(self)@.wf(),
        ensures
            final(self)@ == old(self)@.dac_clocked(port),
            final(self)@.wf(),
            final(self)@.w.events == old(self)@.w.events,
            final(self)@.w.nested_as(old(self)@.w),
    {
        let ghost b0 = self@;
        let i = PLACE_DAC;
        assert(layout::fits(i as int, b0.bus.devices[i as int]));
        assert(Device::inv(b0.bus.devices[i as int]));
        let (first, second) = match self.bus.device_mut(i) {
            Device::Dac(d) => {
                let latched = d.timer_trigger(port);
                (latched % 2 == 1 && d.dma_requested(1), latched >= 2 && d.dma_requested(2))
            },
            _ => (false, false),
        };
        proof {
            lemma_placed(b0.bus, i as int, self.bus@.devices[i as int]);
        }
        if first {
            self.ask(routes::dac_route(1), DmaDir::MemToPeriph, DmaTarget::Dac(1));
        }
        if second {
            self.ask(routes::dac_route(2), DmaDir::MemToPeriph, DmaTarget::Dac(1));
        }
    }

    fn camera_frame(&mut self, port: u8, data: &[u8])
        requires
            old(self)@.wf(),
        ensures
            final(self)@ == old(self)@.camera_frame(port, data@),
            final(self)@.wf(),
            final(self)@.w.events == old(self)@.w.events,
            final(self)@.w.nested_as(old(self)@.w),
    {
        if port != 1 {
            return;
        }
        let ghost b0 = self@;
        let i = PLACE_DCMI;
        assert(layout::fits(i as int, b0.bus.devices[i as int]));
        let items: u32 = match self.bus.device_mut(i) {
            Device::Dcmi(d) => d.feed_frame(&mut self.wires, data),
            _ => 0,
        };
        self.wires.shape();
        proof {
            lemma_placed(b0.bus, i as int, self.bus@.devices[i as int]);
        }
        if items > 0 {
            self.serve(
                Request {
                    route: routes::dcmi_route(),
                    dir: DmaDir::PeriphToMem,
                    requester: DmaTarget::Dcmi(port),
                    items,
                },
            );
        }
    }

    fn can_frame(&mut self, frame: CanFrame)
        requires
            old(self)@.wf(),
        ensures
            final(self)@ == old(self)@.can_frame(frame),
            final(self)@.wf(),
            final(self)@.w.events == old(self)@.w.events,
            final(self)@.w.nested_as(old(self)@.w),
    {
        if frame.port != 1 && frame.port != 2 {
            return;
        }
        let ghost b0 = self@;
        let i = if frame.port == 1 {
            PLACE_CAN2
        } else {
            PLACE_CAN1
        };
        assert(layout::fits(i as int, b0.bus.devices[i as int]));
        assert(Device::inv(b0.bus.devices[i as int]));
        match self.bus.device_mut(i) {
            Device::Can(d) => {
                d.feed_rx(&mut self.wires, frame);
            },
            _ => {},
        }
        self.wires.shape();
        proof {
            lemma_placed(b0.bus, i as int, self.bus@.devices[i as int]);
            assert(self@ =~= b0.can_frame(frame));
        }
    }

    fn pin_changed(&mut self, port: u8, pin: u8, level: bool)
        requires
            old(self)@.wf(),
        ensures
            final(self)@ == old(self)@.pin_changed(port, pin, level),
            final(self)@.wf(),
            final(self)@.w.events == old(self)@.w.events,
            final(self)@.w.nested_as(old(self)@.w),
    {
        let ghost b0 = self@;
        let i = PLACE_EXTI;
        assert(layout::fits(i as int, b0.bus.devices[i as int]));
        assert(Device::inv(b0.bus.devices[i as int]));
        match self.bus.device_mut(i) {
            Device::Exti(d) => {
                d.feed_gpio(&mut self.wires, port, pin, level);
            },
            _ => {},
        }
        self.wires.shape();
        proof {
            lemma_placed(b0.bus, i as int, self.bus@.devices[i as int]);
            assert(self@ =~= b0.pin_changed(port, pin, level));
        }
    }

    fn hear(&mut self, n: &Notice)
        requires
            old(self)@.wf(),
            n.wf(),
        ensures
            final(self)@ == noticed(old(self)@, *n),
            final(self)@.wf(),
            final(self)@.w.events == old(self)@.w.events,
            final(self)@.w.nested_as(old(self)@.w),
    {
        reveal(noticed);
        match n {
            Notice::UartByte { port, byte } => self.uart_sent(*port, *byte),
            Notice::I2cRx { port, byte } => self.i2c_received(*port, *byte),
            Notice::SpiRx { port, byte } => self.spi_received(*port, *byte),
            Notice::AdcValue { port, value } => self.adc_sampled(*port, *value),
            Notice::TimUpdate { port } => self.timer_updated(*port),
            Notice::DcmiFrame { port, data } => self.camera_frame(*port, data.as_slice()),
            Notice::CanFrame { frame } => self.can_frame(copy_frame(frame)),
            Notice::GpioLevel { port, pin, level } => self.pin_changed(*port, *pin, *level),
            Notice::SdioDma { port, dir, items } => self.card_asked(*port, *dir, *items),
            Notice::Requests(qs) => self.serve_all(qs),
        }
    }

    /// Passes on all events that were published.
    pub fn settle(&mut self)
        requires
            old(self)@.wf(),
        ensures
            final(self)@ == old(self)@.settled(),
            final(self)@.wf(),
            final(self)@.w.nested_as(old(self)@.w),
    {
        if self.wires.events.subscriber_count() == 0 {
            return;
        }
        let ghost b0 = self@;
        let ghost evs = b0.w.events.inbox(0);
        let mut k: usize = 0;
        assert(evs.take(0) =~= Seq::<Event>::empty());
        loop
            invariant
                k <= evs.len(),
                evs == b0.w.events.inbox(0),
                self@.wf(),
                self@ == b0.heard_all(evs.take(k as int)),
                self@.w.events == b0.w.events,
                self@.w.nested_as(b0.w),
                b0.w.events.cursors.len() > 0,
            ensures
                k == evs.len(),
            decreases evs.len() - k,
        {
            let n = match self.wires.events.nth(0, k) {
                Some(ev) => notice(ev),
                None => {
                    break;
                },
            };
            assert(evs.take(k + 1).drop_last() =~= evs.take(k as int));
            self.hear(&n);
            assert(self@ == b0.heard_all(evs.take(k as int)).heard(evs[k as int]));
            k = k + 1;
        }
        assert(evs.take(evs.len() as int) =~= evs);
        self.wires.events.catch_up(0);
        self.wires.shape();
        assert(self@ =~= b0.settled());
    }

    /// A board at power-on.
    pub fn new() -> (r: Self)
        ensures
            r@ == BoardView::fresh(),
            r@.wf(),
    {
        let mut bus: Bus<Device> = Bus::new();
        let mut i: usize = 0;
        while i < DEVICE_COUNT
            invariant
                i <= DEVICE_COUNT,
                bus::bus_inv::<Device>(bus@),
                bus@.devices.len() == i,
                bus@.regions.len() == i,
                forall|k: int| 0 <= k < i ==> #[trigger] bus@.regions[k] == region_view(k),
                forall|k: int|
                    0 <= k < i ==> #[trigger] bus@.devices[k] == layout::fresh_device(k)
                        && layout::fits(k, bus@.devices[k]),
            decreases DEVICE_COUNT - i,
        {
            let (base, size) = layout::region_at(i);
            let device = layout::make_device(i);
            proof {
                assert forall|k: int| 0 <= k < i implies !(#[trigger] bus@.regions[k]).overlaps(
                    base as int,
                    size as int,
                ) by {
                    layout::law_regions_are_apart(k, i as int);
                }
            }
            let _ = bus.attach(base, size, layout::name_at(i).to_owned(), device);
            i = i + 1;
        }
        let mut wires = Wires::new();
        let _ = wires.events.subscribe();
        wires.shape();
        let r = Board {
            bus,
            wires,
            console: Console::new(),
            terminal: Terminal::new(),
            links: Vec::new(),
            any_active: false,
        };
        proof {
            assert(r@.bus.regions =~= BoardView::fresh().bus.regions);
            assert(r@.bus.devices =~= BoardView::fresh().bus.devices);
            assert(r@.w.events.cursors[0] <= 0);
            assert(r@.w.events.cursors =~= seq![0usize]);
            assert(r@ =~= BoardView::fresh());
        }
        r
    }

    /// Connects a source to a target, beside the connections that are there.
    pub fn connect(&mut self, src: ConnectSource, dst: ConnectTarget)
        ensures
            final(self)@ == (BoardView { links: old(self)@.links.push((src, dst)), ..old(self)@ }),
            old(self)@.wf() ==> final(self)@.wf(),
    {
        self.links.push((src, dst));
    }

    /// Was a device written to that may need ticks?
    pub fn any_active(&self) -> (r: bool)
        ensures
            r == self@.any_active,
    {
        self.any_active
    }
}

/// How many connections of a port go to a target.
pub open spec fn taps(
    links: Seq<(ConnectSource, ConnectTarget)>,
    port: u8,
    target: ConnectTarget,
) -> nat
    decreases links.len(),
{
    if links.len() == 0 {
        0
    } else {
        taps(links.drop_last(), port, target) + if links.last() == (
            ConnectSource::UartTx(port),
            target,
        ) {
            1nat
        } else {
            0
        }
    }
}

proof fn lemma_shown(b: BoardView, n: int, port: u8, byte: u8)
    requires
        0 <= n <= b.links.len(),
    ensures
        ({
            let t = b.shown(n, port, byte);
            let links = b.links.take(n);
            &&& t.console == b.console + Seq::new(
                taps(links, port, ConnectTarget::ConsoleRx),
                |i: int| byte,
            )
            &&& t.terminal.display == b.terminal.display + Seq::new(
                taps(links, port, ConnectTarget::TerminalRx),
                |i: int| byte,
            )
            &&& t.terminal.connected == b.terminal.connected
            &&& t.bus == b.bus && t.w == b.w && t.links == b.links && t.any_active == b.any_active
        }),
    decreases n,
{
    if n > 0 {
        lemma_shown(b, n - 1, port, byte);
        assert(b.links.take(n).drop_last() =~= b.links.take(n - 1));
        assert(b.links.take(n).last() == b.links[n - 1]);
    }
    let t = b.shown(n, port, byte);
    let links = b.links.take(n);
    assert(t.console =~= b.console + Seq::new(
        taps(links, port, ConnectTarget::ConsoleRx),
        |i: int| byte,
    ));
    assert(t.terminal.display =~= b.terminal.display + Seq::new(
        taps(links, port, ConnectTarget::TerminalRx),
        |i: int| byte,
    ));
}

/// A byte that a USART sends appears on the console once, and once more at the end of every
/// connection of that port. Nothing else of the board changes.
pub proof fn law_sent_byte_is_shown(b: BoardView, port: u8, byte: u8)
    ensures
        ({
            let t = b.heard(Event::UartByte { port, byte });
            &&& t.console == b.console + Seq::new(
                1 + taps(b.links, port, ConnectTarget::ConsoleRx),
                |i: int| byte,
            )
            &&& t.terminal.display == b.terminal.display + Seq::new(
                taps(b.links, port, ConnectTarget::TerminalRx),
                |i: int| byte,
            )
            &&& t.bus == b.bus
            &&& t.w == b.w
            &&& t.links == b.links
            &&& t.any_active == b.any_active
        }),
{
    reveal(BoardView::heard);
    let b1 = BoardView { console: b.console.push(byte), ..b };
    lemma_shown(b1, b1.links.len() as int, port, byte);
    assert(b1.links.take(b1.links.len() as int) =~= b.links);
    let t = b.heard(Event::UartByte { port, byte });
    assert(t.console =~= b.console + Seq::new(
        1 + taps(b.links, port, ConnectTarget::ConsoleRx),
        |i: int| byte,
    ));
}

/// A frame that one CAN controller sends arrives at the other one, and at no other device.
pub proof fn law_frame_crosses(b: BoardView, frame: Box<CanFrame>)
    requires
        b.wf(),
    ensures
        ({
            let t = b.heard(Event::CanFrame { frame });
            let i = if frame.port == 1 {
                28int
            } else {
                27
            };
            &&& frame.port == 1 || frame.port == 2 ==> {
                &&& b.bus.devices[i] is Can
                &&& t.bus.devices[i] == DeviceView::Can(
                    b.bus.devices[i]->Can_0.feed_rx(b.w, *frame).0,
                )
                &&& t.w == b.bus.devices[i]->Can_0.feed_rx(b.w, *frame).1
                &&& forall|k: int|
                    0 <= k < 36 && k != i ==> #[trigger] t.bus.devices[k] == b.bus.devices[k]
            }
            &&& frame.port != 1 && frame.port != 2 ==> t == b
            &&& t.console == b.console && t.terminal == b.terminal
        }),
{
    reveal(BoardView::heard);
    assert(layout::fits(27, b.bus.devices[27]));
    assert(layout::fits(28, b.bus.devices[28]));
}

/// A pin that changes its level reaches the external interrupt unit, and no other device.
pub proof fn law_pin_reaches_the_unit(b: BoardView, port: u8, pin: u8, level: bool)
    requires
        b.wf(),
    ensures
        ({
            let t = b.heard(Event::GpioLevel { port, pin, level });
            &&& b.bus.devices[35] is Exti
            &&& t.bus.devices[35] == DeviceView::Exti(
                b.bus.devices[35]->Exti_0.feed_gpio(b.w, port, pin, level).0,
            )
            &&& t.w == b.bus.devices[35]->Exti_0.feed_gpio(b.w, port, pin, level).1
            &&& forall|k: int| 0 <= k < 35 ==> #[trigger] t.bus.devices[k] == b.bus.devices[k]
            &&& t.console == b.console && t.terminal == b.terminal
        }),
{
    reveal(BoardView::heard);
    assert(layout::fits(35, b.bus.devices[35]));
}

/// A request goes to the controller at the end of its line, and leaves all else alone. A stream
/// that is set up for it notes the items and who asked: one item from a peripheral, all that the
/// stream has left for one, or as many as the request says.
pub proof fn law_request_is_noted(b: BoardView, q: Request)
    requires
        b.wf(),
        q.route.stream < 8,
    ensures
        ({
            let i = if q.route.second {
                31int
            } else {
                30
            };
            let s = q.route.stream as int;
            let d = b.bus.devices[i]->Dma_0;
            let t = b.served(q);
            let e = t.bus.devices[i]->Dma_0;
            let items = if q.items != 0 {
                q.items
            } else if q.dir == DmaDir::PeriphToMem {
                1
            } else {
                d.ndtr(s)
            };
            &&& b.bus.devices[i] is Dma && t.bus.devices[i] is Dma
            &&& forall|k: int|
                0 <= k < 36 && k != i ==> #[trigger] t.bus.devices[k] == b.bus.devices[k]
            &&& t.w == b.w && t.console == b.console && t.terminal == b.terminal
            &&& d.accepts(s, q.route.channel, q.dir) && items != 0 ==> {
                &&& crate::bits::has_bit(e.pending_transfer, s)
                &&& e.pending_items[s] == items
                &&& e.pending_target[s] == Some(q.requester)
                &&& forall|r: int|
                    0 <= r < 8 && r != s ==> (#[trigger] e.pending_items[r]) == d.pending_items[r]
                        && e.pending_target[r] == d.pending_target[r]
            }
            &&& !d.accepts(s, q.route.channel, q.dir) || items == 0 ==> e == d
        }),
{
    let i = if q.route.second {
        31int
    } else {
        30
    };
    let s = q.route.stream as int;
    assert(layout::fits(i, b.bus.devices[i]));
    assert(Device::inv(b.bus.devices[i]));
    let d = b.bus.devices[i]->Dma_0;
    crate::bits::lemma_set_bit(d.pending_transfer, s, s);
}

/// A byte that arrives for an I2C or SPI port, and a sample for an ADC, goes to the device of that
/// port; beside it only the transfer controllers may take note. A port that does not exist hears
/// nothing.
pub proof fn law_arrivals_find_their_port(b: BoardView, port: u8, byte: u8, channel: u8, value: u16)
    requires
        b.wf(),
    ensures
        ({
            let t = b.heard(Event::I2cRx { port, byte });
            let i = 11 + port;
            &&& 1 <= port <= 3 ==> b.bus.devices[i] is I2c && t.bus.devices[i] == DeviceView::I2c(
                b.bus.devices[i]->I2c_0.feed_rx(b.w, byte).0,
            ) && t.w == b.bus.devices[i]->I2c_0.feed_rx(b.w, byte).1
            &&& 1 <= port <= 3 ==> forall|k: int|
                0 <= k < 36 && k != i && k != 30 ==> #[trigger] t.bus.devices[k]
                    == b.bus.devices[k]
            &&& !(1 <= port <= 3) ==> t == b
        }),
        ({
            let t = b.heard(Event::SpiRx { port, byte });
            let i = 14 + port;
            &&& 1 <= port <= 3 ==> b.bus.devices[i] is Spi && t.bus.devices[i] == DeviceView::Spi(
                b.bus.devices[i]->Spi_0.feed_rx(b.w, byte).0,
            ) && t.w == b.bus.devices[i]->Spi_0.feed_rx(b.w, byte).1
            &&& 1 <= port <= 3 ==> forall|k: int|
                0 <= k < 36 && k != i && k != 30 && k != 31 ==> #[trigger] t.bus.devices[k]
                    == b.bus.devices[k]
            &&& !(1 <= port <= 3) ==> t == b
        }),
        ({
            let t = b.heard(Event::AdcValue { port, channel, value });
            let i = 17 + port;
            &&& 1 <= port <= 3 ==> b.bus.devices[i] is Adc && t.bus.devices[i] == DeviceView::Adc(
                b.bus.devices[i]->Adc_0.feed_value(b.w, value).0,
            ) && t.w == b.bus.devices[i]->Adc_0.feed_value(b.w, value).1
            &&& 1 <= port <= 3 ==> forall|k: int|
                0 <= k < 36 && k != i && k != 31 ==> #[trigger] t.bus.devices[k]
                    == b.bus.devices[k]
            &&& !(1 <= port <= 3) ==> t == b
        }),
{
    reveal(BoardView::heard);
    if 1 <= port <= 3 {
        assert(layout::fits(11 + port, b.bus.devices[11 + port]));
        assert(layout::fits(14 + port, b.bus.devices[14 + port]));
        assert(layout::fits(17 + port, b.bus.devices[17 + port]));
    }
}

/// Events are heard in the order of their publication, each once, and all of them: after that
/// nothing is left to hear.
pub proof fn law_events_are_heard_in_order(b: BoardView, first: Seq<Event>, rest: Seq<Event>)
    ensures
        b.heard_all(first + rest) == b.heard_all(first).heard_all(rest),
        b.heard_all(Seq::empty()) == b,
    decreases rest.len(),
{
    if rest.len() == 0 {
        assert(first + rest =~= first);
    } else {
        law_events_are_heard_in_order(b, first, rest.drop_last());
        assert((first + rest).drop_last() =~= first + rest.drop_last());
        assert((first + rest).last() == rest.last());
    }
}

/// The card interface sends over stream 6 of the second controller. It receives over stream 3, or
/// over stream 6 if stream 3 is not set up for it, as many items as it says; a receipt of nothing
/// asks for nothing. There is one card interface.
pub proof fn law_card_requests(b: BoardView, port: u8, items: u32)
    requires
        b.wf(),
    ensures
        ({
            let out = DmaDir::MemToPeriph;
            let into = DmaDir::PeriphToMem;
            let three = Route { second: true, stream: 3, channel: 4 };
            let six = Route { second: true, stream: 6, channel: 4 };
            let d = b.bus.devices[31]->Dma_0;
            &&& port != 1 ==> b.heard(Event::SdioDma { port, dir: out, items }) == b && b.heard(
                Event::SdioDma { port, dir: into, items },
            ) == b
            &&& port == 1 ==> b.heard(Event::SdioDma { port, dir: out, items }) == b.served(
                Request { route: six, dir: out, requester: DmaTarget::Sdio(1), items: 0 },
            )
            &&& port == 1 && items == 0 ==> b.heard(Event::SdioDma { port, dir: into, items }) == b
            &&& port == 1 && items != 0 && d.accepts(3, 4, into) ==> b.heard(
                Event::SdioDma { port, dir: into, items },
            ) == b.served(
                Request { route: three, dir: into, requester: DmaTarget::Sdio(1), items },
            )
            &&& port == 1 && items != 0 && !d.accepts(3, 4, into) ==> b.heard(
                Event::SdioDma { port, dir: into, items },
            ) == b.served(Request { route: six, dir: into, requester: DmaTarget::Sdio(1), items })
        }),
{
    reveal(BoardView::heard);
    assert(layout::fits(31, b.bus.devices[31]));
}

/// A frame arrives at the camera interface; while it runs, its words are asked for over stream 1
/// of the second controller.
pub proof fn law_camera_frames(b: BoardView, port: u8, data: Vec<u8>)
    requires
        b.wf(),
    ensures
        ({
            let t = b.heard(Event::DcmiFrame { port, data });
            let d = b.bus.devices[24]->Dcmi_0;
            let words = dcmi::frame_words(data@).len() as u32;
            &&& b.bus.devices[24] is Dcmi
            &&& port != 1 ==> t == b
            &&& port == 1 ==> t.bus.devices[24] == DeviceView::Dcmi(d.feed_frame(b.w, data@).0)
                && t.w == d.feed_frame(b.w, data@).1
            &&& port == 1 && !(d.running() && words > 0) ==> t.bus.devices[31] == b.bus.devices[31]
            &&& port == 1 && d.running() && words > 0 ==> t == (BoardView {
                bus: b.bus.with_device(24, DeviceView::Dcmi(d.feed_frame(b.w, data@).0)),
                w: d.feed_frame(b.w, data@).1,
                ..b
            }).served(
                Request {
                    route: Route { second: true, stream: 1, channel: 1 },
                    dir: DmaDir::PeriphToMem,
                    requester: DmaTarget::Dcmi(1),
                    items: words,
                },
            )
            &&& forall|k: int|
                0 <= k < 36 && k != 24 && k != 31 ==> #[trigger] t.bus.devices[k]
                    == b.bus.devices[k]
        }),
{
    reveal(BoardView::heard);
    assert(layout::fits(24, b.bus.devices[24]));
    assert(layout::fits(31, b.bus.devices[31]));
}

/// A timer that reaches its update event asks for a transfer over its line, in the direction that
/// the stream there is set up for. A timer without a line asks for nothing.
pub proof fn law_timer_requests(b: BoardView, port: u8)
    requires
        b.wf(),
        !b.bus.devices[21]->Dac_0.triggered(1, port),
        !b.bus.devices[21]->Dac_0.triggered(2, port),
        b.bus.devices[21]->Dac_0.timer_trigger(port) == b.bus.devices[21]->Dac_0,
    ensures
        ({
            let t = b.heard(Event::TimUpdate { port });
            match routes::timer_line(port) {
                None => t == b,
                Some(route) => {
                    let d = b.bus.devices[if route.second {
                        31int
                    } else {
                        30
                    }]->Dma_0;
                    t == b.served(
                        Request {
                            route,
                            dir: if (d.cr(route.stream as int) / 0x40) % 4 == 1 {
                                DmaDir::MemToPeriph
                            } else {
                                DmaDir::PeriphToMem
                            },
                            requester: DmaTarget::Tim(port),
                            items: 0,
                        },
                    )
                },
            }
        }),
{
    reveal(BoardView::heard);
    assert(layout::fits(21, b.bus.devices[21]));
    assert(layout::fits(30, b.bus.devices[30]));
    assert(layout::fits(31, b.bus.devices[31]));
    assert(b.bus.devices.update(21, b.bus.devices[21]) =~= b.bus.devices);
}

} // verus!
