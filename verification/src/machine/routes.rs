//! Which DMA stream serves which peripheral.
//!
//! The chip ties each request line to a controller, a stream and a channel. A request that
//! finds its stream set up for another channel or direction is dropped.
use crate::events::Event;
use crate::peripheral::dma::{DmaDir, DmaTarget};
use vstd::prelude::*;

verus! {

/// Where a request line ends.
#[derive(Debug, Clone, Copy, PartialEq, Eq, Structural)]
pub struct Route {
    /// Controller 2 rather than controller 1.
    pub second: bool,
    pub stream: usize,
    pub channel: u32,
}

/// A request for a transfer.
#[derive(Debug, Clone, Copy, PartialEq, Eq, Structural)]
pub struct Request {
    pub route: Route,
    pub dir: DmaDir,
    /// The peripheral that asks.
    pub requester: DmaTarget,
    /// The number of items; 0 leaves it to the stream.
    pub items: u32,
}

pub open spec fn dma1(stream: usize, channel: u32) -> Option<Route> {
    Some(Route { second: false, stream, channel })
}

pub open spec fn dma2(stream: usize, channel: u32) -> Option<Route> {
    Some(Route { second: true, stream, channel })
}

/// The line of a USART.
pub open spec fn usart_line(port: u8, dir: DmaDir) -> Option<Route> {
    match dir {
        DmaDir::MemToPeriph => if port == 1 {
            dma2(7, 4)
        } else if port == 2 {
            dma1(6, 4)
        } else if port == 3 {
            dma1(3, 4)
        } else if port == 4 {
            dma1(4, 4)
        } else if port == 5 {
            dma1(7, 4)
        } else if port == 6 {
            dma2(6, 5)
        } else {
            None
        },
        DmaDir::PeriphToMem => if port == 1 {
            dma2(2, 4)
        } else if port == 2 {
            dma1(5, 4)
        } else if port == 3 {
            dma1(1, 4)
        } else if port == 4 {
            dma1(2, 4)
        } else if port == 5 {
            dma1(0, 4)
        } else if port == 6 {
            dma2(1, 5)
        } else {
            None
        },
    }
}

/// The line of an I2C controller.
pub open spec fn i2c_line(port: u8, dir: DmaDir) -> Option<Route> {
    match dir {
        DmaDir::MemToPeriph => if port == 1 {
            dma1(6, 1)
        } else if port == 2 {
            dma1(7, 7)
        } else if port == 3 {
            dma1(4, 3)
        } else {
            None
        },
        DmaDir::PeriphToMem => if port == 1 {
            dma1(0, 1)
        } else if port == 2 {
            dma1(3, 7)
        } else if port == 3 {
            dma1(2, 3)
        } else {
            None
        },
    }
}

/// The line of an SPI controller.
pub open spec fn spi_line(port: u8, dir: DmaDir) -> Option<Route> {
    match dir {
        DmaDir::MemToPeriph => if port == 1 {
            dma2(3, 3)
        } else if port == 2 {
            dma1(4, 0)
        } else if port == 3 {
            dma1(7, 0)
        } else {
            None
        },
        DmaDir::PeriphToMem => if port == 1 {
            dma2(0, 3)
        } else if port == 2 {
            dma1(3, 0)
        } else if port == 3 {
            dma1(0, 0)
        } else {
            None
        },
    }
}

/// The line of an ADC.
pub open spec fn adc_line(port: u8) -> Option<Route> {
    if port == 1 {
        dma2(0, 0)
    } else if port == 2 {
        dma2(2, 1)
    } else if port == 3 {
        dma2(1, 2)
    } else {
        None
    }
}

/// The line of a DAC channel.
pub open spec fn dac_line(channel: u8) -> Option<Route> {
    if channel == 1 {
        dma1(5, 7)
    } else if channel == 2 {
        dma1(6, 7)
    } else {
        None
    }
}

/// The line of a timer's update event. Timers 9 to 14 have none.
pub open spec fn timer_line(port: u8) -> Option<Route> {
    if port == 1 {
        dma2(5, 6)
    } else if port == 2 {
        dma1(5, 5)
    } else if port == 3 {
        dma1(3, 5)
    } else if port == 4 {
        dma1(3, 2)
    } else if port == 5 {
        dma1(6, 6)
    } else if port == 6 {
        dma1(0, 7)
    } else if port == 7 {
        dma1(5, 4)
    } else if port == 8 {
        dma2(3, 7)
    } else {
        None
    }
}

/// The line of the camera interface.
pub open spec fn dcmi_line() -> Route {
    Route { second: true, stream: 1, channel: 1 }
}

/// The receive line of the card interface.
pub open spec fn sdio_rx_line() -> Route {
    Route { second: true, stream: 3, channel: 4 }
}

/// The transmit line of the card interface, over which a read goes too if the firmware set it
/// up so.
pub open spec fn sdio_tx_line() -> Route {
    Route { second: true, stream: 6, channel: 4 }
}

/// One request, if the line exists.
pub open spec fn one(line: Option<Route>, dir: DmaDir, requester: DmaTarget) -> Seq<Request> {
    match line {
        Some(route) => seq![Request { route, dir, requester, items: 0 }],
        None => Seq::empty(),
    }
}

/// The requests that an event makes. A full-duplex SPI transfer that sends also receives.
pub open spec fn requests(ev: Event) -> Seq<Request> {
    match ev {
        Event::UartDma { port, dir } => one(usart_line(port, dir), dir, DmaTarget::Usart(port)),
        Event::I2cDma { port, dir } => one(i2c_line(port, dir), dir, DmaTarget::I2c(port)),
        Event::SpiDma { port, dir } => {
            let first = one(spi_line(port, dir), dir, DmaTarget::Spi(port));
            match dir {
                DmaDir::MemToPeriph => first + one(
                    spi_line(port, DmaDir::PeriphToMem),
                    DmaDir::PeriphToMem,
                    DmaTarget::Spi(port),
                ),
                DmaDir::PeriphToMem => first,
            }
        },
        Event::DacDma { port, channel, dir } => if port == 1 {
            one(dac_line(channel), DmaDir::MemToPeriph, DmaTarget::Dac(port))
        } else {
            Seq::empty()
        },
        _ => Seq::empty(),
    }
}

fn via1(stream: usize, channel: u32) -> (r: Option<Route>)
    ensures
        r == dma1(stream, channel),
{
    Some(Route { second: false, stream, channel })
}

fn via2(stream: usize, channel: u32) -> (r: Option<Route>)
    ensures
        r == dma2(stream, channel),
{
    Some(Route { second: true, stream, channel })
}

pub fn usart_route(port: u8, dir: DmaDir) -> (r: Option<Route>)
    ensures
        r == usart_line(port, dir),
{
    match dir {
        DmaDir::MemToPeriph => match port {
            1 => via2(7, 4),
            2 => via1(6, 4),
            3 => via1(3, 4),
            4 => via1(4, 4),
            5 => via1(7, 4),
            6 => via2(6, 5),
            _ => None,
        },
        DmaDir::PeriphToMem => match port {
            1 => via2(2, 4),
            2 => via1(5, 4),
            3 => via1(1, 4),
            4 => via1(2, 4),
            5 => via1(0, 4),
            6 => via2(1, 5),
            _ => None,
        },
    }
}

pub fn i2c_route(port: u8, dir: DmaDir) -> (r: Option<Route>)
    ensures
        r == i2c_line(port, dir),
{
    match dir {
        DmaDir::MemToPeriph => match port {
            1 => via1(6, 1),
            2 => via1(7, 7),
            3 => via1(4, 3),
            _ => None,
        },
        DmaDir::PeriphToMem => match port {
            1 => via1(0, 1),
            2 => via1(3, 7),
            3 => via1(2, 3),
            _ => None,
        },
    }
}

pub fn spi_route(port: u8, dir: DmaDir) -> (r: Option<Route>)
    ensures
        r == spi_line(port, dir),
{
    match dir {
        DmaDir::MemToPeriph => match port {
            1 => via2(3, 3),
            2 => via1(4, 0),
            3 => via1(7, 0),
            _ => None,
        },
        DmaDir::PeriphToMem => match port {
            1 => via2(0, 3),
            2 => via1(3, 0),
            3 => via1(0, 0),
            _ => None,
        },
    }
}

pub fn adc_route(port: u8) -> (r: Option<Route>)
    ensures
        r == adc_line(port),
{
    match port {
        1 => via2(0, 0),
        2 => via2(2, 1),
        3 => via2(1, 2),
        _ => None,
    }
}

pub fn dac_route(channel: u8) -> (r: Option<Route>)
    ensures
        r == dac_line(channel),
{
    match channel {
        1 => via1(5, 7),
        2 => via1(6, 7),
        _ => None,
    }
}

pub fn timer_route(port: u8) -> (r: Option<Route>)
    ensures
        r == timer_line(port),
{
    match port {
        1 => via2(5, 6),
        2 => via1(5, 5),
        3 => via1(3, 5),
        4 => via1(3, 2),
        5 => via1(6, 6),
        6 => via1(0, 7),
        7 => via1(5, 4),
        8 => via2(3, 7),
        _ => None,
    }
}

pub fn dcmi_route() -> (r: Route)
    ensures
        r == dcmi_line(),
{
    Route { second: true, stream: 1, channel: 1 }
}

pub fn sdio_routes() -> (r: (Route, Route))
    ensures
        r == (sdio_rx_line(), sdio_tx_line()),
{
    (
        Route { second: true, stream: 3, channel: 4 },
        Route { second: true, stream: 6, channel: 4 },
    )
}

fn ask(out: &mut Vec<Request>, line: Option<Route>, dir: DmaDir, requester: DmaTarget)
    ensures
        final(out)@ == old(out)@ + one(line, dir, requester),
{
    if let Some(route) = line {
        out.push(Request { route, dir, requester, items: 0 });
    }
    assert(out@ =~= old(out)@ + one(line, dir, requester));
}

/// The requests that an event makes.
pub fn requests_of(ev: &Event) -> (r: Vec<Request>)
    ensures
        r@ == requests(*ev),
{
    let mut out: Vec<Request> = Vec::new();
    match ev {
        Event::UartDma { port, dir } => {
            ask(&mut out, usart_route(*port, *dir), *dir, DmaTarget::Usart(*port));
        },
        Event::I2cDma { port, dir } => {
            ask(&mut out, i2c_route(*port, *dir), *dir, DmaTarget::I2c(*port));
        },
        Event::SpiDma { port, dir } => {
            ask(&mut out, spi_route(*port, *dir), *dir, DmaTarget::Spi(*port));
            match dir {
                DmaDir::MemToPeriph => {
                    ask(
                        &mut out,
                        spi_route(*port, DmaDir::PeriphToMem),
                        DmaDir::PeriphToMem,
                        DmaTarget::Spi(*port),
                    );
                },
                DmaDir::PeriphToMem => {},
            }
        },
        Event::DacDma { port, channel, dir } => {
            if *port == 1 {
                ask(
                    &mut out,
                    dac_route(*channel),
                    DmaDir::MemToPeriph,
                    DmaTarget::Dac(*port),
                );
            }
        },
        _ => {},
    }
    assert(out@ =~= requests(*ev));
    out
}

/// Every line ends at a stream and a channel that exist.
pub proof fn law_lines_exist(ev: Event, i: int)
    requires
        0 <= i < requests(ev).len(),
    ensures
        requests(ev)[i].route.stream < 8,
        requests(ev)[i].route.channel < 8,
{
}

/// Two USARTs, two I2C controllers, two SPI controllers or two ADCs never share a stream in
/// the same direction.
pub proof fn law_lines_are_apart(a: u8, b: u8, dir: DmaDir)
    requires
        a != b,
    ensures
        usart_line(a, dir) is Some ==> usart_line(a, dir) != usart_line(b, dir),
        i2c_line(a, dir) is Some ==> i2c_line(a, dir) != i2c_line(b, dir),
        spi_line(a, dir) is Some ==> spi_line(a, dir) != spi_line(b, dir),
        adc_line(a) is Some ==> adc_line(a) != adc_line(b),
{
}

/// The request lines of the chip. Each line is a controller (the second one or the first), a
/// stream and a channel.
pub proof fn law_request_lines()
    ensures
        ({
            let out = DmaDir::MemToPeriph;
            let into = DmaDir::PeriphToMem;
            let at = |second: bool, stream: usize, channel: u32|
                Some(Route { second, stream, channel });
            &&& usart_line(1, out) == at(true, 7, 4) && usart_line(1, into) == at(true, 2, 4)
            &&& usart_line(2, out) == at(false, 6, 4) && usart_line(2, into) == at(false, 5, 4)
            &&& usart_line(3, out) == at(false, 3, 4) && usart_line(3, into) == at(false, 1, 4)
            &&& usart_line(4, out) == at(false, 4, 4) && usart_line(4, into) == at(false, 2, 4)
            &&& usart_line(5, out) == at(false, 7, 4) && usart_line(5, into) == at(false, 0, 4)
            &&& usart_line(6, out) == at(true, 6, 5) && usart_line(6, into) == at(true, 1, 5)
            &&& i2c_line(1, out) == at(false, 6, 1) && i2c_line(1, into) == at(false, 0, 1)
            &&& i2c_line(2, out) == at(false, 7, 7) && i2c_line(2, into) == at(false, 3, 7)
            &&& i2c_line(3, out) == at(false, 4, 3) && i2c_line(3, into) == at(false, 2, 3)
            &&& spi_line(1, out) == at(true, 3, 3) && spi_line(1, into) == at(true, 0, 3)
            &&& spi_line(2, out) == at(false, 4, 0) && spi_line(2, into) == at(false, 3, 0)
            &&& spi_line(3, out) == at(false, 7, 0) && spi_line(3, into) == at(false, 0, 0)
            &&& adc_line(1) == at(true, 0, 0)
            &&& adc_line(2) == at(true, 2, 1)
            &&& adc_line(3) == at(true, 1, 2)
            &&& dac_line(1) == at(false, 5, 7) && dac_line(2) == at(false, 6, 7)
            &&& timer_line(1) == at(true, 5, 6) && timer_line(2) == at(false, 5, 5)
            &&& timer_line(3) == at(false, 3, 5) && timer_line(4) == at(false, 3, 2)
            &&& timer_line(5) == at(false, 6, 6) && timer_line(6) == at(false, 0, 7)
            &&& timer_line(7) == at(false, 5, 4) && timer_line(8) == at(true, 3, 7)
            &&& Some(dcmi_line()) == at(true, 1, 1)
            &&& Some(sdio_rx_line()) == at(true, 3, 4)
            &&& Some(sdio_tx_line()) == at(true, 6, 4)
        }),
        forall|p: u8, dir: DmaDir|
            #![trigger usart_line(p, dir)]
            usart_line(p, dir) is Some <==> 1 <= p <= 6,
        forall|p: u8, dir: DmaDir|
            #![trigger i2c_line(p, dir)]
            i2c_line(p, dir) is Some <==> 1 <= p <= 3,
        forall|p: u8, dir: DmaDir|
            #![trigger spi_line(p, dir)]
            spi_line(p, dir) is Some <==> 1 <= p <= 3,
        forall|p: u8| #![trigger adc_line(p)] adc_line(p) is Some <==> 1 <= p <= 3,
        forall|p: u8| #![trigger dac_line(p)] dac_line(p) is Some <==> 1 <= p <= 2,
        forall|p: u8| #![trigger timer_line(p)] timer_line(p) is Some <==> 1 <= p <= 8,
{
}

/// A serial port that asks gets one request, for itself and in the direction that it asked for.
/// An SPI controller that sends also asks to receive. A DAC only takes values.
pub proof fn law_who_asks(port: u8, channel: u8, dir: DmaDir)
    ensures
        ({
            let q = requests(Event::UartDma { port, dir });
            &&& q.len() == if 1 <= port <= 6 {
                1int
            } else {
                0
            }
            &&& q.len() > 0 ==> q[0].dir == dir && q[0].requester == DmaTarget::Usart(port)
                && Some(q[0].route) == usart_line(port, dir) && q[0].items == 0
        }),
        ({
            let q = requests(Event::I2cDma { port, dir });
            &&& q.len() == if 1 <= port <= 3 {
                1int
            } else {
                0
            }
            &&& q.len() > 0 ==> q[0].dir == dir && q[0].requester == DmaTarget::I2c(port)
                && Some(q[0].route) == i2c_line(port, dir) && q[0].items == 0
        }),
        ({
            let q = requests(Event::SpiDma { port, dir });
            &&& q.len() == if !(1 <= port <= 3) {
                0int
            } else if dir == DmaDir::MemToPeriph {
                2
            } else {
                1
            }
            &&& q.len() > 0 ==> q[0].dir == dir && q[0].requester == DmaTarget::Spi(port)
                && Some(q[0].route) == spi_line(port, dir) && q[0].items == 0
            &&& q.len() > 1 ==> q[1].dir == DmaDir::PeriphToMem && q[1].requester
                == DmaTarget::Spi(port) && Some(q[1].route) == spi_line(port, DmaDir::PeriphToMem)
                && q[1].items == 0
        }),
        ({
            let q = requests(Event::DacDma { port, channel, dir });
            &&& q.len() == if port == 1 && 1 <= channel <= 2 {
                1int
            } else {
                0
            }
            &&& q.len() > 0 ==> q[0].dir == DmaDir::MemToPeriph && q[0].requester
                == DmaTarget::Dac(1) && Some(q[0].route) == dac_line(channel) && q[0].items == 0
        }),
{
}

} // verus!
