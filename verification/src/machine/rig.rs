//! The virtual devices on the serial buses: which sensor, receiver or radio hangs on which
//! port, and which of them has been told to fail.
use crate::fault::FaultAction;
use crate::machine::{Machine, MachineView};
use crate::text;
use vstd::prelude::*;

verus! {

/// The number of I2C ports.
pub const I2C_PORTS: u8 = 3;

/// The number of SPI ports.
pub const SPI_PORTS: u8 = 3;

/// The number of USART ports.
pub const USART_PORTS: u8 = 6;

/// A device that answers on an I2C bus.
#[derive(Debug, Clone, Copy, PartialEq, Eq, Structural)]
pub enum I2cSlave {
    /// An inertial sensor.
    Mpu6050,
    /// A barometer.
    Bmp280,
    /// A magnetometer.
    Qmc5883,
}

/// A device that answers on an SPI bus.
#[derive(Debug, Clone, Copy, PartialEq, Eq, Structural)]
pub enum SpiSlave {
    /// An inertial sensor, with one chip select for each half.
    Bmi088 { accel_cs: Pin, gyro_cs: Pin },
}

/// A pin of a GPIO port; both are counted from 0.
#[derive(Debug, Clone, Copy, PartialEq, Eq, Structural)]
pub struct Pin {
    pub port: u8,
    pub pin: u8,
}

/// A device that sends to a USART.
#[derive(Debug, Clone, Copy, PartialEq, Eq, Structural)]
pub enum UartSlave {
    /// A satellite receiver.
    NmeaGps,
    /// A remote control receiver.
    Sbus,
}

/// Where a device has its readings from.
#[derive(Debug, Clone, Copy, PartialEq, Eq, Structural)]
pub enum Source {
    /// Readings of its own that stay the same.
    Fixed,
    /// The state that the flight model shares.
    Shared,
}

impl I2cSlave {
    pub open spec fn called(self) -> Seq<char> {
        match self {
            I2cSlave::Mpu6050 => "mpu6050"@,
            I2cSlave::Bmp280 => "bmp280"@,
            I2cSlave::Qmc5883 => "qmc5883"@,
        }
    }

    pub fn name(&self) -> (r: &'static str)
        ensures
            r@ == self.called(),
    {
        match self {
            I2cSlave::Mpu6050 => "mpu6050",
            I2cSlave::Bmp280 => "bmp280",
            I2cSlave::Qmc5883 => "qmc5883",
        }
    }

    /// The 7-bit address.
    pub open spec fn address(self) -> u8 {
        match self {
            I2cSlave::Mpu6050 => 0x68,
            I2cSlave::Bmp280 => 0x76,
            I2cSlave::Qmc5883 => 0x0d,
        }
    }

    /// The 7-bit address.
    pub fn addr7(&self) -> (r: u8)
        ensures
            r == self.address(),
    {
        match self {
            I2cSlave::Mpu6050 => 0x68,
            I2cSlave::Bmp280 => 0x76,
            I2cSlave::Qmc5883 => 0x0d,
        }
    }
}

impl SpiSlave {
    pub open spec fn called(self) -> Seq<char> {
        "bmi088"@
    }

    pub fn name(&self) -> (r: &'static str)
        ensures
            r@ == self.called(),
    {
        "bmi088"
    }

    /// The inertial sensor with the chip selects of the board: pins 7 and 8 of port E.
    pub open spec fn board_bmi088() -> SpiSlave {
        SpiSlave::Bmi088 {
            accel_cs: Pin { port: 4, pin: 7 },
            gyro_cs: Pin { port: 4, pin: 8 },
        }
    }

    pub fn default_bmi088() -> (r: SpiSlave)
        ensures
            r == SpiSlave::board_bmi088(),
    {
        SpiSlave::Bmi088 {
            accel_cs: Pin { port: 4, pin: 7 },
            gyro_cs: Pin { port: 4, pin: 8 },
        }
    }
}

/// A device on an I2C port.
#[derive(Debug, Clone, Copy, PartialEq, Eq, Structural)]
pub struct I2cUnit {
    /// The number of the port, from 0.
    pub place: u8,
    pub slave: I2cSlave,
    pub source: Source,
    /// It does not acknowledge.
    pub nack: bool,
}

/// A device on an SPI port.
#[derive(Debug, Clone, Copy, PartialEq, Eq, Structural)]
pub struct SpiUnit {
    pub place: u8,
    pub slave: SpiSlave,
    pub source: Source,
    /// It answers as if it were not there.
    pub fault: bool,
}

/// A device on a USART port.
#[derive(Debug, Clone, Copy, PartialEq, Eq, Structural)]
pub struct UartUnit {
    pub place: u8,
    pub slave: UartSlave,
    pub source: Source,
}

/// What hangs on the buses, in the order in which it was attached.
pub struct Rig {
    pub i2c: Vec<I2cUnit>,
    pub spi: Vec<SpiUnit>,
    pub uart: Vec<UartUnit>,
}

/// The state of the rig.
#[verifier::ext_equal]
pub struct RigView {
    pub i2c: Seq<I2cUnit>,
    pub spi: Seq<SpiUnit>,
    pub uart: Seq<UartUnit>,
}

impl View for Rig {
    type V = RigView;

    open spec fn view(&self) -> RigView {
        RigView { i2c: self.i2c@, spi: self.spi@, uart: self.uart@ }
    }
}

/// Ports are counted from 1; 0 means the first one too.
pub open spec fn place_of(port: u8) -> u8 {
    if port == 0 {
        0
    } else {
        (port - 1) as u8
    }
}

fn place(port: u8) -> (r: u8)
    ensures
        r == place_of(port),
{
    if port == 0 {
        0
    } else {
        port - 1
    }
}

/// Is it the device that answers at an address of a port?
pub open spec fn answers(u: I2cUnit, port: u8, addr7: u8) -> bool {
    u.place == place_of(port) && u.slave.address() == addr7
}

/// The first device from number `i` on that answers at the address.
pub open spec fn answerer(s: Seq<I2cUnit>, port: u8, addr7: u8, i: int) -> Option<int>
    decreases s.len() - i,
{
    if i >= s.len() {
        None
    } else if answers(s[i], port, addr7) {
        Some(i)
    } else {
        answerer(s, port, addr7, i + 1)
    }
}

/// Is it a device with that name at the port?
pub open spec fn is_named(u: SpiUnit, port: u8, name: Seq<char>) -> bool {
    u.place == place_of(port) && u.slave.called() == name
}

/// The devices with that name are told to fail, or to work again.
pub open spec fn marked(s: Seq<SpiUnit>, port: u8, name: Seq<char>, on: bool) -> Seq<SpiUnit> {
    Seq::new(
        s.len(),
        |i: int|
            if is_named(s[i], port, name) {
                SpiUnit { fault: on, ..s[i] }
            } else {
                s[i]
            },
    )
}

impl RigView {
    pub open spec fn bare() -> RigView {
        RigView { i2c: Seq::empty(), spi: Seq::empty(), uart: Seq::empty() }
    }

    /// A device is attached, if there is such a port.
    pub open spec fn with_i2c(self, port: u8, slave: I2cSlave, source: Source) -> RigView {
        if place_of(port) < I2C_PORTS {
            let u = I2cUnit { place: place_of(port), slave, source, nack: false };
            RigView { i2c: self.i2c.push(u), ..self }
        } else {
            self
        }
    }

    pub open spec fn with_spi(self, port: u8, slave: SpiSlave, source: Source) -> RigView {
        if place_of(port) < SPI_PORTS {
            let u = SpiUnit { place: place_of(port), slave, source, fault: false };
            RigView { spi: self.spi.push(u), ..self }
        } else {
            self
        }
    }

    pub open spec fn with_uart(self, port: u8, slave: UartSlave, source: Source) -> RigView {
        if place_of(port) < USART_PORTS {
            let u = UartUnit { place: place_of(port), slave, source };
            RigView { uart: self.uart.push(u), ..self }
        } else {
            self
        }
    }

    /// The first device at the address stops acknowledging, or starts again.
    pub open spec fn nacked(self, port: u8, addr7: u8, on: bool) -> RigView {
        match answerer(self.i2c, port, addr7, 0) {
            Some(k) => RigView {
                i2c: self.i2c.update(k, I2cUnit { nack: on, ..self.i2c[k] }),
                ..self
            },
            None => self,
        }
    }

    /// What a scripted fault does to the devices.
    pub open spec fn after_fault(self, a: FaultAction) -> RigView {
        match a {
            FaultAction::I2cNack { port, addr7, on } => self.nacked(port, addr7, on),
            _ => self,
        }
    }

    pub open spec fn after_faults(self, actions: Seq<FaultAction>) -> RigView
        decreases actions.len(),
    {
        if actions.len() == 0 {
            self
        } else {
            self.after_faults(actions.drop_last()).after_fault(actions.last())
        }
    }

    /// The receivers of the flight controller.
    pub open spec fn with_receivers(self, source: Source) -> RigView {
        self.with_uart(2, UartSlave::NmeaGps, source).with_uart(3, UartSlave::Sbus, source)
    }

    /// The sensors of the flight controller.
    pub open spec fn with_sensors(self, source: Source) -> RigView {
        self.with_spi(3, SpiSlave::board_bmi088(), source).with_i2c(
            3,
            I2cSlave::Mpu6050,
            source,
        ).with_i2c(3, I2cSlave::Bmp280, source).with_i2c(3, I2cSlave::Qmc5883, source)
    }
}

proof fn lemma_answerer(s: Seq<I2cUnit>, port: u8, addr7: u8, i: int)
    requires
        0 <= i <= s.len(),
    ensures
        match answerer(s, port, addr7, i) {
            Some(k) => i <= k < s.len() && answers(s[k], port, addr7) && forall|j: int|
                i <= j < k ==> !answers(#[trigger] s[j], port, addr7),
            None => forall|j: int| i <= j < s.len() ==> !answers(#[trigger] s[j], port, addr7),
        },
    decreases s.len() - i,
{
    if i < s.len() && !answers(s[i], port, addr7) {
        lemma_answerer(s, port, addr7, i + 1);
    }
}

impl Rig {
    /// No devices.
    pub fn new() -> (r: Self)
        ensures
            r@ == RigView::bare(),
    {
        let r = Rig { i2c: Vec::new(), spi: Vec::new(), uart: Vec::new() };
        assert(r@ =~= RigView::bare());
        r
    }

    /// Attaches a device to an I2C port; many may share one.
    pub fn register_i2c_slave(&mut self, port: u8, slave: I2cSlave, source: Source)
        ensures
            final(self)@ == old(self)@.with_i2c(port, slave, source),
    {
        if place(port) < I2C_PORTS {
            self.i2c.push(I2cUnit { place: place(port), slave, source, nack: false });
        }
    }

    /// Attaches a device to an SPI port.
    pub fn register_spi_slave(&mut self, port: u8, slave: SpiSlave, source: Source)
        ensures
            final(self)@ == old(self)@.with_spi(port, slave, source),
    {
        if place(port) < SPI_PORTS {
            self.spi.push(SpiUnit { place: place(port), slave, source, fault: false });
        }
    }

    /// Attaches a device to a USART port.
    pub fn register_uart_slave(&mut self, port: u8, slave: UartSlave, source: Source)
        ensures
            final(self)@ == old(self)@.with_uart(port, slave, source),
    {
        if place(port) < USART_PORTS {
            self.uart.push(UartUnit { place: place(port), slave, source });
        }
    }

    /// Makes a device on an I2C port stop acknowledging, or start again; says whether there is
    /// one.
    pub fn inject_i2c_nack(&mut self, port: u8, addr7: u8, nack: bool) -> (r: bool)
        ensures
            final(self)@ == old(self)@.nacked(port, addr7, nack),
            r == (answerer(old(self)@.i2c, port, addr7, 0) is Some),
    {
        let mut i: usize = 0;
        while i < self.i2c.len()
            invariant
                i <= self.i2c@.len(),
                *self == *old(self),
                answerer(self.i2c@, port, addr7, 0) == answerer(
                    self.i2c@,
                    port,
                    addr7,
                    i as int,
                ),
            decreases self.i2c@.len() - i,
        {
            let mut u = self.i2c[i];
            if u.place == place(port) && u.slave.addr7() == addr7 {
                u.nack = nack;
                self.i2c.set(i, u);
                return true;
            }
            i = i + 1;
        }
        false
    }

    /// Makes the devices of that name on an SPI port fail, or work again; says whether there
    /// is one.
    pub fn inject_spi_fault(&mut self, port: u8, name: &str, on: bool) -> (r: bool)
        ensures
            final(self)@ == (RigView {
                spi: marked(old(self)@.spi, port, name@, on),
                ..old(self)@
            }),
            r == exists|k: int|
                0 <= k < old(self)@.spi.len() && is_named(
                    #[trigger] old(self)@.spi[k],
                    port,
                    name@,
                ),
    {
        let cs = text::chars_of(name);
        let mut i: usize = 0;
        let mut hit = false;
        let ghost s0 = self.spi@;
        while i < self.spi.len()
            invariant
                i <= self.spi@.len(),
                cs@ == name@,
                s0 == old(self)@.spi,
                self.i2c == old(self).i2c,
                self.uart == old(self).uart,
                self.spi@.len() == s0.len(),
                forall|k: int|
                    0 <= k < i ==> #[trigger] self.spi@[k] == marked(s0, port, name@, on)[k],
                forall|k: int| i <= k < s0.len() ==> #[trigger] self.spi@[k] == s0[k],
                hit == exists|k: int| 0 <= k < i && is_named(#[trigger] s0[k], port, name@),
            decreases self.spi@.len() - i,
        {
            let mut u = self.spi[i];
            assert(u == s0[i as int]);
            if u.place == place(port) && text::is_text(cs.as_slice(), u.slave.name()) {
                u.fault = on;
                self.spi.set(i, u);
                assert(is_named(s0[i as int], port, name@));
                hit = true;
            }
            i = i + 1;
        }
        assert(self.spi@ =~= marked(s0, port, name@, on));
        hit
    }

    /// Does to the devices what the scripted faults say.
    pub fn apply_faults(&mut self, actions: &Vec<FaultAction>)
        ensures
            final(self)@ == old(self)@.after_faults(actions@),
    {
        let mut i: usize = 0;
        let ghost all = actions@;
        while i < actions.len()
            invariant
                i <= actions@.len(),
                all == actions@,
                self@ == old(self)@.after_faults(all.take(i as int)),
            decreases actions@.len() - i,
        {
            proof {
                let t = all.take(i + 1);
                assert(t.drop_last() =~= all.take(i as int));
                assert(t.last() == all[i as int]);
            }
            if let FaultAction::I2cNack { port, addr7, on } = &actions[i] {
                self.inject_i2c_nack(*port, *addr7, *on);
            }
            i = i + 1;
        }
        assert(all.take(all.len() as int) =~= all);
    }

    /// Attaches the receivers of the flight controller: satellite positions on port 2, the
    /// remote control on port 3.
    pub fn attach_receivers(&mut self, source: Source)
        ensures
            final(self)@ == old(self)@.with_receivers(source),
    {
        self.register_uart_slave(2, UartSlave::NmeaGps, source);
        self.register_uart_slave(3, UartSlave::Sbus, source);
    }

    /// Attaches the sensors of the flight controller: the inertial sensor on SPI port 3, the
    /// others on I2C port 3.
    pub fn attach_sensors(&mut self, source: Source)
        ensures
            final(self)@ == old(self)@.with_sensors(source),
    {
        self.register_spi_slave(3, SpiSlave::default_bmi088(), source);
        self.register_i2c_slave(3, I2cSlave::Mpu6050, source);
        self.register_i2c_slave(3, I2cSlave::Bmp280, source);
        self.register_i2c_slave(3, I2cSlave::Qmc5883, source);
    }
}

impl MachineView {
    pub open spec fn with_rig(self, rig: RigView) -> MachineView {
        MachineView { rig, ..self }
    }
}

impl Machine {
    /// Attaches a device to an I2C port.
    pub fn register_i2c_slave(&mut self, port: u8, slave: I2cSlave, source: Source)
        ensures
            final(self)@ == old(self)@.with_rig(old(self)@.rig.with_i2c(port, slave, source)),
    {
        self.rig.register_i2c_slave(port, slave, source);
    }

    /// Attaches a device to an SPI port.
    pub fn register_spi_slave(&mut self, port: u8, slave: SpiSlave, source: Source)
        ensures
            final(self)@ == old(self)@.with_rig(old(self)@.rig.with_spi(port, slave, source)),
    {
        self.rig.register_spi_slave(port, slave, source);
    }

    /// Attaches a device to a USART port.
    pub fn register_uart_slave(&mut self, port: u8, slave: UartSlave, source: Source)
        ensures
            final(self)@ == old(self)@.with_rig(old(self)@.rig.with_uart(port, slave, source)),
    {
        self.rig.register_uart_slave(port, slave, source);
    }

    /// Makes a device on an I2C port stop acknowledging, or start again; says whether there is
    /// one.
    pub fn inject_i2c_nack(&mut self, port: u8, addr7: u8, nack: bool) -> (r: bool)
        ensures
            final(self)@ == old(self)@.with_rig(old(self)@.rig.nacked(port, addr7, nack)),
            r == (answerer(old(self)@.rig.i2c, port, addr7, 0) is Some),
    {
        self.rig.inject_i2c_nack(port, addr7, nack)
    }

    /// Makes the devices of that name on an SPI port fail, or work again; says whether there
    /// is one.
    pub fn inject_spi_fault(&mut self, port: u8, name: &str, on: bool) -> (r: bool)
        ensures
            final(self)@ == old(self)@.with_rig(
                RigView { spi: marked(old(self)@.rig.spi, port, name@, on), ..old(self)@.rig },
            ),
            r == exists|k: int|
                0 <= k < old(self)@.rig.spi.len() && is_named(
                    #[trigger] old(self)@.rig.spi[k],
                    port,
                    name@,
                ),
    {
        self.rig.inject_spi_fault(port, name, on)
    }

    /// Attaches receivers with readings of their own.
    pub fn attach_default_uart_slaves(&mut self)
        ensures
            final(self)@ == old(self)@.with_rig(old(self)@.rig.with_receivers(Source::Fixed)),
    {
        self.rig.attach_receivers(Source::Fixed);
    }

    /// Attaches receivers that follow the flight model.
    pub fn attach_flysim_uart_slaves(&mut self)
        ensures
            final(self)@ == old(self)@.with_rig(old(self)@.rig.with_receivers(Source::Shared)),
    {
        self.rig.attach_receivers(Source::Shared);
    }

    /// Attaches sensors with readings of their own.
    pub fn attach_default_sensors(&mut self)
        ensures
            final(self)@ == old(self)@.with_rig(old(self)@.rig.with_sensors(Source::Fixed)),
    {
        self.rig.attach_sensors(Source::Fixed);
    }

    /// Attaches sensors that follow the flight model.
    pub fn attach_flysim_sensors(&mut self)
        ensures
            final(self)@ == old(self)@.with_rig(old(self)@.rig.with_sensors(Source::Shared)),
    {
        self.rig.attach_sensors(Source::Shared);
    }
}

/// A device that is told to stop acknowledging and then to start again is as it was, if it did
/// acknowledge before; and no other device notices.
pub proof fn law_nack_can_be_taken_back(r: RigView, port: u8, addr7: u8)
    ensures
        match answerer(r.i2c, port, addr7, 0) {
            Some(k) => {
                &&& r.nacked(port, addr7, true).i2c[k].nack
                &&& !r.i2c[k].nack ==> r.nacked(port, addr7, true).nacked(port, addr7, false) == r
                &&& forall|j: int|
                    0 <= j < r.i2c.len() && j != k ==> #[trigger] r.nacked(
                        port,
                        addr7,
                        true,
                    ).i2c[j] == r.i2c[j]
            },
            None => r.nacked(port, addr7, true) == r,
        },
{
    lemma_answerer(r.i2c, port, addr7, 0);
    if let Some(k) = answerer(r.i2c, port, addr7, 0) {
        let m = r.nacked(port, addr7, true);
        lemma_answerer(m.i2c, port, addr7, 0);
        assert(answers(m.i2c[k], port, addr7));
        let j = answerer(m.i2c, port, addr7, 0)->0;
        assert(answerer(m.i2c, port, addr7, 0) is Some);
        if j < k {
            assert(m.i2c[j] == r.i2c[j]);
        }
        assert(j == k);
        if !r.i2c[k].nack {
            assert(m.nacked(port, addr7, false).i2c =~= r.i2c);
        }
    }
}

/// The sensors answer at the addresses that their makers gave them.
pub proof fn law_sensor_addresses()
    ensures
        I2cSlave::Mpu6050.address() == 0x68,
        I2cSlave::Bmp280.address() == 0x76,
        I2cSlave::Qmc5883.address() == 0x0d,
        I2cSlave::Mpu6050.called() == "mpu6050"@,
        I2cSlave::Bmp280.called() == "bmp280"@,
        I2cSlave::Qmc5883.called() == "qmc5883"@,
        SpiSlave::board_bmi088().called() == "bmi088"@,
        SpiSlave::board_bmi088() == (SpiSlave::Bmi088 {
            accel_cs: Pin { port: 4, pin: 7 },
            gyro_cs: Pin { port: 4, pin: 8 },
        }),
{
}

/// A device that is attached comes after those that are there, works, and hangs on the port that
/// was named. There are three I2C ports, three SPI ports and six USARTs; on any other port nothing
/// is attached.
pub proof fn law_attaching(
    r: RigView,
    port: u8,
    i: I2cSlave,
    s: SpiSlave,
    u: UartSlave,
    source: Source,
)
    ensures
        1 <= port <= 3 ==> r.with_i2c(port, i, source).i2c == r.i2c.push(
            I2cUnit { place: (port - 1) as u8, slave: i, source, nack: false },
        ),
        1 <= port <= 3 ==> r.with_spi(port, s, source).spi == r.spi.push(
            SpiUnit { place: (port - 1) as u8, slave: s, source, fault: false },
        ),
        1 <= port <= 6 ==> r.with_uart(port, u, source).uart == r.uart.push(
            UartUnit { place: (port - 1) as u8, slave: u, source },
        ),
        port > 3 ==> r.with_i2c(port, i, source) == r && r.with_spi(port, s, source) == r,
        port > 6 ==> r.with_uart(port, u, source) == r,
        r.with_i2c(0, i, source) == r.with_i2c(1, i, source),
        r.with_spi(0, s, source) == r.with_spi(1, s, source),
        r.with_uart(0, u, source) == r.with_uart(1, u, source),
        r.with_i2c(port, i, source).spi == r.spi && r.with_i2c(port, i, source).uart == r.uart,
        r.with_spi(port, s, source).i2c == r.i2c && r.with_spi(port, s, source).uart == r.uart,
        r.with_uart(port, u, source).i2c == r.i2c && r.with_uart(port, u, source).spi == r.spi,
{
}

/// The flight controller has its receivers on USART 2 and 3, its inertial sensor on SPI 3 and the
/// others on I2C 3.
pub proof fn law_flight_rig(source: Source)
    ensures
        ({
            let r = RigView::bare().with_receivers(source);
            &&& r.uart == seq![
                UartUnit { place: 1, slave: UartSlave::NmeaGps, source },
                UartUnit { place: 2, slave: UartSlave::Sbus, source },
            ]
            &&& r.i2c.len() == 0 && r.spi.len() == 0
        }),
        ({
            let r = RigView::bare().with_sensors(source);
            &&& r.spi == seq![
                SpiUnit { place: 2, slave: SpiSlave::board_bmi088(), source, fault: false },
            ]
            &&& r.i2c == seq![
                I2cUnit { place: 2, slave: I2cSlave::Mpu6050, source, nack: false },
                I2cUnit { place: 2, slave: I2cSlave::Bmp280, source, nack: false },
                I2cUnit { place: 2, slave: I2cSlave::Qmc5883, source, nack: false },
            ]
            &&& r.uart.len() == 0
        }),
{
}

/// A fault of an SPI device strikes the devices of that name on that port, and no other.
pub proof fn law_spi_fault(s: Seq<SpiUnit>, port: u8, name: Seq<char>, on: bool, i: int)
    requires
        1 <= port,
        0 <= i < s.len(),
    ensures
        ({
            let t = marked(s, port, name, on);
            let meant = s[i].place == port - 1 && s[i].slave.called() == name;
            &&& t.len() == s.len()
            &&& meant ==> t[i] == (SpiUnit { fault: on, ..s[i] })
            &&& !meant ==> t[i] == s[i]
        }),
{
}

/// Scripted faults reach the devices in their order; only those for the I2C bus do anything.
pub proof fn law_faults_in_order(r: RigView, first: Seq<FaultAction>, a: FaultAction)
    ensures
        r.after_faults(first.push(a)) == r.after_faults(first).after_fault(a),
        r.after_faults(Seq::empty()) == r,
        !(a is I2cNack) ==> r.after_fault(a) == r,
        a matches FaultAction::I2cNack { port, addr7, on } ==> r.after_fault(a) == r.nacked(
            port,
            addr7,
            on,
        ),
{
    assert(first.push(a).drop_last() =~= first && first.push(a).last() == a);
}

} // verus!
