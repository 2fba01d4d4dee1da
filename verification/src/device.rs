//! The devices of the chip as one type, so that one bus can hold them all.
use crate::peripheral::adc::{Adc, AdcView};
use crate::peripheral::can::{Can, CanView};
use crate::peripheral::crc::{Crc, CrcView};
use crate::peripheral::dac::{Dac, DacView};
use crate::peripheral::dcmi::{Dcmi, DcmiView};
use crate::peripheral::dma::{Dma, DmaByteIo, DmaView};
use crate::peripheral::dwt::{Dwt, DwtView};
use crate::peripheral::exti::{Exti, ExtiView};
use crate::peripheral::flash::Flash;
use crate::peripheral::fsmc::{Fsmc, FsmcView};
use crate::peripheral::gpio::{Gpio, GpioView};
use crate::peripheral::i2c::{I2c, I2cView};
use crate::peripheral::pwr::{Pwr, PwrView};
use crate::peripheral::rcc::{Rcc, RccView};
use crate::peripheral::rng::{Rng, RngView};
use crate::peripheral::rtc::{Rtc, RtcView};
use crate::peripheral::scb::{ScbView, SystemControl};
use crate::peripheral::sdio::{OFF_CMD, Sdio, SdioView};
use crate::peripheral::spi::{Spi, SpiView};
use crate::peripheral::syscfg::{Syscfg, SyscfgView};
use crate::peripheral::{BusError, Peripheral};
use crate::wires::{Wires, WiresView};
use vstd::prelude::*;

verus! {

/// A device of the chip.
pub enum Device {
    Scb(SystemControl),
    Dwt(Dwt),
    Rcc(Rcc),
    Gpio(Gpio),
    I2c(I2c),
    Spi(Spi),
    Adc(Adc),
    Dac(Dac),
    Crc(Crc),
    Rng(Rng),
    Dcmi(Dcmi),
    Fsmc(Fsmc),
    Sdio(Sdio),
    Can(Can),
    Flash(Flash),
    Dma(Dma),
    Pwr(Pwr),
    Rtc(Rtc),
    Syscfg(Syscfg),
    Exti(Exti),
}

/// The state of a device.
pub enum DeviceView {
    Scb(ScbView),
    Dwt(DwtView),
    Rcc(RccView),
    Gpio(GpioView),
    I2c(I2cView),
    Spi(SpiView),
    Adc(AdcView),
    Dac(DacView),
    Crc(CrcView),
    Rng(RngView),
    Dcmi(DcmiView),
    Fsmc(FsmcView),
    Sdio(SdioView),
    Can(CanView),
    Flash(Seq<u32>),
    Dma(DmaView),
    Pwr(PwrView),
    Rtc(RtcView),
    Syscfg(SyscfgView),
    Exti(ExtiView),
}

impl View for Device {
    type V = DeviceView;

    open spec fn view(&self) -> DeviceView {
        match *self {
            Device::Scb(d) => DeviceView::Scb(d@),
            Device::Dwt(d) => DeviceView::Dwt(d@),
            Device::Rcc(d) => DeviceView::Rcc(d@),
            Device::Gpio(d) => DeviceView::Gpio(d@),
            Device::I2c(d) => DeviceView::I2c(d@),
            Device::Spi(d) => DeviceView::Spi(d@),
            Device::Adc(d) => DeviceView::Adc(d@),
            Device::Dac(d) => DeviceView::Dac(d@),
            Device::Crc(d) => DeviceView::Crc(d@),
            Device::Rng(d) => DeviceView::Rng(d@),
            Device::Dcmi(d) => DeviceView::Dcmi(d@),
            Device::Fsmc(d) => DeviceView::Fsmc(d@),
            Device::Sdio(d) => DeviceView::Sdio(d@),
            Device::Can(d) => DeviceView::Can(d@),
            Device::Flash(d) => DeviceView::Flash(d@),
            Device::Dma(d) => DeviceView::Dma(d@),
            Device::Pwr(d) => DeviceView::Pwr(d@),
            Device::Rtc(d) => DeviceView::Rtc(d@),
            Device::Syscfg(d) => DeviceView::Syscfg(d@),
            Device::Exti(d) => DeviceView::Exti(d@),
        }
    }
}

impl Peripheral for Device {
    open spec fn inv(s: DeviceView) -> bool {
        match s {
            DeviceView::Scb(d) => SystemControl::inv(d),
            DeviceView::Dwt(d) => Dwt::inv(d),
            DeviceView::Rcc(d) => Rcc::inv(d),
            DeviceView::Gpio(d) => Gpio::inv(d),
            DeviceView::I2c(d) => I2c::inv(d),
            DeviceView::Spi(d) => Spi::inv(d),
            DeviceView::Adc(d) => Adc::inv(d),
            DeviceView::Dac(d) => Dac::inv(d),
            DeviceView::Crc(d) => Crc::inv(d),
            DeviceView::Rng(d) => Rng::inv(d),
            DeviceView::Dcmi(d) => Dcmi::inv(d),
            DeviceView::Fsmc(d) => Fsmc::inv(d),
            DeviceView::Sdio(d) => Sdio::inv(d),
            DeviceView::Can(d) => Can::inv(d),
            DeviceView::Flash(d) => Flash::inv(d),
            DeviceView::Dma(d) => Dma::inv(d),
            DeviceView::Pwr(d) => Pwr::inv(d),
            DeviceView::Rtc(d) => Rtc::inv(d),
            DeviceView::Syscfg(d) => Syscfg::inv(d),
            DeviceView::Exti(d) => Exti::inv(d),
        }
    }

    open spec fn readable(s: DeviceView, w: WiresView, offset: u32, size: u32) -> bool {
        match s {
            DeviceView::Scb(d) => SystemControl::readable(d, w, offset, size),
            DeviceView::Dwt(d) => Dwt::readable(d, w, offset, size),
            DeviceView::Rcc(d) => Rcc::readable(d, w, offset, size),
            DeviceView::Gpio(d) => Gpio::readable(d, w, offset, size),
            DeviceView::I2c(d) => I2c::readable(d, w, offset, size),
            DeviceView::Spi(d) => Spi::readable(d, w, offset, size),
            DeviceView::Adc(d) => Adc::readable(d, w, offset, size),
            DeviceView::Dac(d) => Dac::readable(d, w, offset, size),
            DeviceView::Crc(d) => Crc::readable(d, w, offset, size),
            DeviceView::Rng(d) => Rng::readable(d, w, offset, size),
            DeviceView::Dcmi(d) => Dcmi::readable(d, w, offset, size),
            DeviceView::Fsmc(d) => Fsmc::readable(d, w, offset, size),
            DeviceView::Sdio(d) => Sdio::readable(d, w, offset, size),
            DeviceView::Can(d) => Can::readable(d, w, offset, size),
            DeviceView::Flash(d) => Flash::readable(d, w, offset, size),
            DeviceView::Dma(d) => Dma::readable(d, w, offset, size),
            DeviceView::Pwr(d) => Pwr::readable(d, w, offset, size),
            DeviceView::Rtc(d) => Rtc::readable(d, w, offset, size),
            DeviceView::Syscfg(d) => Syscfg::readable(d, w, offset, size),
            DeviceView::Exti(d) => Exti::readable(d, w, offset, size),
        }
    }

    open spec fn read_of(s: DeviceView, w: WiresView, offset: u32, size: u32) -> (
        DeviceView,
        WiresView,
        Result<u32, BusError>,
    ) {
        match s {
            DeviceView::Scb(d) => {
                let (d1, w1, r) = SystemControl::read_of(d, w, offset, size);
                (DeviceView::Scb(d1), w1, r)
            },
            DeviceView::Dwt(d) => {
                let (d1, w1, r) = Dwt::read_of(d, w, offset, size);
                (DeviceView::Dwt(d1), w1, r)
            },
            DeviceView::Rcc(d) => {
                let (d1, w1, r) = Rcc::read_of(d, w, offset, size);
                (DeviceView::Rcc(d1), w1, r)
            },
            DeviceView::Gpio(d) => {
                let (d1, w1, r) = Gpio::read_of(d, w, offset, size);
                (DeviceView::Gpio(d1), w1, r)
            },
            DeviceView::I2c(d) => {
                let (d1, w1, r) = I2c::read_of(d, w, offset, size);
                (DeviceView::I2c(d1), w1, r)
            },
            DeviceView::Spi(d) => {
                let (d1, w1, r) = Spi::read_of(d, w, offset, size);
                (DeviceView::Spi(d1), w1, r)
            },
            DeviceView::Adc(d) => {
                let (d1, w1, r) = Adc::read_of(d, w, offset, size);
                (DeviceView::Adc(d1), w1, r)
            },
            DeviceView::Dac(d) => {
                let (d1, w1, r) = Dac::read_of(d, w, offset, size);
                (DeviceView::Dac(d1), w1, r)
            },
            DeviceView::Crc(d) => {
                let (d1, w1, r) = Crc::read_of(d, w, offset, size);
                (DeviceView::Crc(d1), w1, r)
            },
            DeviceView::Rng(d) => {
                let (d1, w1, r) = Rng::read_of(d, w, offset, size);
                (DeviceView::Rng(d1), w1, r)
            },
            DeviceView::Dcmi(d) => {
                let (d1, w1, r) = Dcmi::read_of(d, w, offset, size);
                (DeviceView::Dcmi(d1), w1, r)
            },
            DeviceView::Fsmc(d) => {
                let (d1, w1, r) = Fsmc::read_of(d, w, offset, size);
                (DeviceView::Fsmc(d1), w1, r)
            },
            DeviceView::Sdio(d) => {
                let (d1, w1, r) = Sdio::read_of(d, w, offset, size);
                (DeviceView::Sdio(d1), w1, r)
            },
            DeviceView::Can(d) => {
                let (d1, w1, r) = Can::read_of(d, w, offset, size);
                (DeviceView::Can(d1), w1, r)
            },
            DeviceView::Flash(d) => {
                let (d1, w1, r) = Flash::read_of(d, w, offset, size);
                (DeviceView::Flash(d1), w1, r)
            },
            DeviceView::Dma(d) => {
                let (d1, w1, r) = Dma::read_of(d, w, offset, size);
                (DeviceView::Dma(d1), w1, r)
            },
            DeviceView::Pwr(d) => {
                let (d1, w1, r) = Pwr::read_of(d, w, offset, size);
                (DeviceView::Pwr(d1), w1, r)
            },
            DeviceView::Rtc(d) => {
                let (d1, w1, r) = Rtc::read_of(d, w, offset, size);
                (DeviceView::Rtc(d1), w1, r)
            },
            DeviceView::Syscfg(d) => {
                let (d1, w1, r) = Syscfg::read_of(d, w, offset, size);
                (DeviceView::Syscfg(d1), w1, r)
            },
            DeviceView::Exti(d) => {
                let (d1, w1, r) = Exti::read_of(d, w, offset, size);
                (DeviceView::Exti(d1), w1, r)
            },
        }
    }

    open spec fn writable(s: DeviceView, w: WiresView, offset: u32, size: u32, value: u32) -> bool {
        match s {
            DeviceView::Scb(d) => SystemControl::writable(d, w, offset, size, value),
            DeviceView::Dwt(d) => Dwt::writable(d, w, offset, size, value),
            DeviceView::Rcc(d) => Rcc::writable(d, w, offset, size, value),
            DeviceView::Gpio(d) => Gpio::writable(d, w, offset, size, value),
            DeviceView::I2c(d) => I2c::writable(d, w, offset, size, value),
            DeviceView::Spi(d) => Spi::writable(d, w, offset, size, value),
            DeviceView::Adc(d) => Adc::writable(d, w, offset, size, value),
            DeviceView::Dac(d) => Dac::writable(d, w, offset, size, value),
            DeviceView::Crc(d) => Crc::writable(d, w, offset, size, value),
            DeviceView::Rng(d) => Rng::writable(d, w, offset, size, value),
            DeviceView::Dcmi(d) => Dcmi::writable(d, w, offset, size, value),
            DeviceView::Fsmc(d) => Fsmc::writable(d, w, offset, size, value),
            DeviceView::Sdio(d) => Sdio::writable(d, w, offset, size, value),
            DeviceView::Can(d) => Can::writable(d, w, offset, size, value),
            DeviceView::Flash(d) => Flash::writable(d, w, offset, size, value),
            DeviceView::Dma(d) => Dma::writable(d, w, offset, size, value),
            DeviceView::Pwr(d) => Pwr::writable(d, w, offset, size, value),
            DeviceView::Rtc(d) => Rtc::writable(d, w, offset, size, value),
            DeviceView::Syscfg(d) => Syscfg::writable(d, w, offset, size, value),
            DeviceView::Exti(d) => Exti::writable(d, w, offset, size, value),
        }
    }

    open spec fn write_of(s: DeviceView, w: WiresView, offset: u32, size: u32, value: u32) -> (
        DeviceView,
        WiresView,
        Result<(), BusError>,
    ) {
        match s {
            DeviceView::Scb(d) => {
                let (d1, w1, r) = SystemControl::write_of(d, w, offset, size, value);
                (DeviceView::Scb(d1), w1, r)
            },
            DeviceView::Dwt(d) => {
                let (d1, w1, r) = Dwt::write_of(d, w, offset, size, value);
                (DeviceView::Dwt(d1), w1, r)
            },
            DeviceView::Rcc(d) => {
                let (d1, w1, r) = Rcc::write_of(d, w, offset, size, value);
                (DeviceView::Rcc(d1), w1, r)
            },
            DeviceView::Gpio(d) => {
                let (d1, w1, r) = Gpio::write_of(d, w, offset, size, value);
                (DeviceView::Gpio(d1), w1, r)
            },
            DeviceView::I2c(d) => {
                let (d1, w1, r) = I2c::write_of(d, w, offset, size, value);
                (DeviceView::I2c(d1), w1, r)
            },
            DeviceView::Spi(d) => {
                let (d1, w1, r) = Spi::write_of(d, w, offset, size, value);
                (DeviceView::Spi(d1), w1, r)
            },
            DeviceView::Adc(d) => {
                let (d1, w1, r) = Adc::write_of(d, w, offset, size, value);
                (DeviceView::Adc(d1), w1, r)
            },
            DeviceView::Dac(d) => {
                let (d1, w1, r) = Dac::write_of(d, w, offset, size, value);
                (DeviceView::Dac(d1), w1, r)
            },
            DeviceView::Crc(d) => {
                let (d1, w1, r) = Crc::write_of(d, w, offset, size, value);
                (DeviceView::Crc(d1), w1, r)
            },
            DeviceView::Rng(d) => {
                let (d1, w1, r) = Rng::write_of(d, w, offset, size, value);
                (DeviceView::Rng(d1), w1, r)
            },
            DeviceView::Dcmi(d) => {
                let (d1, w1, r) = Dcmi::write_of(d, w, offset, size, value);
                (DeviceView::Dcmi(d1), w1, r)
            },
            DeviceView::Fsmc(d) => {
                let (d1, w1, r) = Fsmc::write_of(d, w, offset, size, value);
                (DeviceView::Fsmc(d1), w1, r)
            },
            DeviceView::Sdio(d) => {
                let (d1, w1, r) = Sdio::write_of(d, w, offset, size, value);
                (DeviceView::Sdio(d1), w1, r)
            },
            DeviceView::Can(d) => {
                let (d1, w1, r) = Can::write_of(d, w, offset, size, value);
                (DeviceView::Can(d1), w1, r)
            },
            DeviceView::Flash(d) => {
                let (d1, w1, r) = Flash::write_of(d, w, offset, size, value);
                (DeviceView::Flash(d1), w1, r)
            },
            DeviceView::Dma(d) => {
                let (d1, w1, r) = Dma::write_of(d, w, offset, size, value);
                (DeviceView::Dma(d1), w1, r)
            },
            DeviceView::Pwr(d) => {
                let (d1, w1, r) = Pwr::write_of(d, w, offset, size, value);
                (DeviceView::Pwr(d1), w1, r)
            },
            DeviceView::Rtc(d) => {
                let (d1, w1, r) = Rtc::write_of(d, w, offset, size, value);
                (DeviceView::Rtc(d1), w1, r)
            },
            DeviceView::Syscfg(d) => {
                let (d1, w1, r) = Syscfg::write_of(d, w, offset, size, value);
                (DeviceView::Syscfg(d1), w1, r)
            },
            DeviceView::Exti(d) => {
                let (d1, w1, r) = Exti::write_of(d, w, offset, size, value);
                (DeviceView::Exti(d1), w1, r)
            },
        }
    }

    open spec fn reset_of(s: DeviceView, w: WiresView) -> (DeviceView, WiresView) {
        match s {
            DeviceView::Scb(d) => {
                let (d1, w1) = SystemControl::reset_of(d, w);
                (DeviceView::Scb(d1), w1)
            },
            DeviceView::Dwt(d) => {
                let (d1, w1) = Dwt::reset_of(d, w);
                (DeviceView::Dwt(d1), w1)
            },
            DeviceView::Rcc(d) => {
                let (d1, w1) = Rcc::reset_of(d, w);
                (DeviceView::Rcc(d1), w1)
            },
            DeviceView::Gpio(d) => {
                let (d1, w1) = Gpio::reset_of(d, w);
                (DeviceView::Gpio(d1), w1)
            },
            DeviceView::I2c(d) => {
                let (d1, w1) = I2c::reset_of(d, w);
                (DeviceView::I2c(d1), w1)
            },
            DeviceView::Spi(d) => {
                let (d1, w1) = Spi::reset_of(d, w);
                (DeviceView::Spi(d1), w1)
            },
            DeviceView::Adc(d) => {
                let (d1, w1) = Adc::reset_of(d, w);
                (DeviceView::Adc(d1), w1)
            },
            DeviceView::Dac(d) => {
                let (d1, w1) = Dac::reset_of(d, w);
                (DeviceView::Dac(d1), w1)
            },
            DeviceView::Crc(d) => {
                let (d1, w1) = Crc::reset_of(d, w);
                (DeviceView::Crc(d1), w1)
            },
            DeviceView::Rng(d) => {
                let (d1, w1) = Rng::reset_of(d, w);
                (DeviceView::Rng(d1), w1)
            },
            DeviceView::Dcmi(d) => {
                let (d1, w1) = Dcmi::reset_of(d, w);
                (DeviceView::Dcmi(d1), w1)
            },
            DeviceView::Fsmc(d) => {
                let (d1, w1) = Fsmc::reset_of(d, w);
                (DeviceView::Fsmc(d1), w1)
            },
            DeviceView::Sdio(d) => {
                let (d1, w1) = Sdio::reset_of(d, w);
                (DeviceView::Sdio(d1), w1)
            },
            DeviceView::Can(d) => {
                let (d1, w1) = Can::reset_of(d, w);
                (DeviceView::Can(d1), w1)
            },
            DeviceView::Flash(d) => {
                let (d1, w1) = Flash::reset_of(d, w);
                (DeviceView::Flash(d1), w1)
            },
            DeviceView::Dma(d) => {
                let (d1, w1) = Dma::reset_of(d, w);
                (DeviceView::Dma(d1), w1)
            },
            DeviceView::Pwr(d) => {
                let (d1, w1) = Pwr::reset_of(d, w);
                (DeviceView::Pwr(d1), w1)
            },
            DeviceView::Rtc(d) => {
                let (d1, w1) = Rtc::reset_of(d, w);
                (DeviceView::Rtc(d1), w1)
            },
            DeviceView::Syscfg(d) => {
                let (d1, w1) = Syscfg::reset_of(d, w);
                (DeviceView::Syscfg(d1), w1)
            },
            DeviceView::Exti(d) => {
                let (d1, w1) = Exti::reset_of(d, w);
                (DeviceView::Exti(d1), w1)
            },
        }
    }

    open spec fn tickable(s: DeviceView, w: WiresView, cycles: u64) -> bool {
        match s {
            DeviceView::Scb(d) => SystemControl::tickable(d, w, cycles),
            DeviceView::Dwt(d) => Dwt::tickable(d, w, cycles),
            DeviceView::Rcc(d) => Rcc::tickable(d, w, cycles),
            DeviceView::Gpio(d) => Gpio::tickable(d, w, cycles),
            DeviceView::I2c(d) => I2c::tickable(d, w, cycles),
            DeviceView::Spi(d) => Spi::tickable(d, w, cycles),
            DeviceView::Adc(d) => Adc::tickable(d, w, cycles),
            DeviceView::Dac(d) => Dac::tickable(d, w, cycles),
            DeviceView::Crc(d) => Crc::tickable(d, w, cycles),
            DeviceView::Rng(d) => Rng::tickable(d, w, cycles),
            DeviceView::Dcmi(d) => Dcmi::tickable(d, w, cycles),
            DeviceView::Fsmc(d) => Fsmc::tickable(d, w, cycles),
            DeviceView::Sdio(d) => Sdio::tickable(d, w, cycles),
            DeviceView::Can(d) => Can::tickable(d, w, cycles),
            DeviceView::Flash(d) => Flash::tickable(d, w, cycles),
            DeviceView::Dma(d) => Dma::tickable(d, w, cycles),
            DeviceView::Pwr(d) => Pwr::tickable(d, w, cycles),
            DeviceView::Rtc(d) => Rtc::tickable(d, w, cycles),
            DeviceView::Syscfg(d) => Syscfg::tickable(d, w, cycles),
            DeviceView::Exti(d) => Exti::tickable(d, w, cycles),
        }
    }

    open spec fn tick_of(s: DeviceView, w: WiresView, cycles: u64) -> (DeviceView, WiresView) {
        match s {
            DeviceView::Scb(d) => {
                let (d1, w1) = SystemControl::tick_of(d, w, cycles);
                (DeviceView::Scb(d1), w1)
            },
            DeviceView::Dwt(d) => {
                let (d1, w1) = Dwt::tick_of(d, w, cycles);
                (DeviceView::Dwt(d1), w1)
            },
            DeviceView::Rcc(d) => {
                let (d1, w1) = Rcc::tick_of(d, w, cycles);
                (DeviceView::Rcc(d1), w1)
            },
            DeviceView::Gpio(d) => {
                let (d1, w1) = Gpio::tick_of(d, w, cycles);
                (DeviceView::Gpio(d1), w1)
            },
            DeviceView::I2c(d) => {
                let (d1, w1) = I2c::tick_of(d, w, cycles);
                (DeviceView::I2c(d1), w1)
            },
            DeviceView::Spi(d) => {
                let (d1, w1) = Spi::tick_of(d, w, cycles);
                (DeviceView::Spi(d1), w1)
            },
            DeviceView::Adc(d) => {
                let (d1, w1) = Adc::tick_of(d, w, cycles);
                (DeviceView::Adc(d1), w1)
            },
            DeviceView::Dac(d) => {
                let (d1, w1) = Dac::tick_of(d, w, cycles);
                (DeviceView::Dac(d1), w1)
            },
            DeviceView::Crc(d) => {
                let (d1, w1) = Crc::tick_of(d, w, cycles);
                (DeviceView::Crc(d1), w1)
            },
            DeviceView::Rng(d) => {
                let (d1, w1) = Rng::tick_of(d, w, cycles);
                (DeviceView::Rng(d1), w1)
            },
            DeviceView::Dcmi(d) => {
                let (d1, w1) = Dcmi::tick_of(d, w, cycles);
                (DeviceView::Dcmi(d1), w1)
            },
            DeviceView::Fsmc(d) => {
                let (d1, w1) = Fsmc::tick_of(d, w, cycles);
                (DeviceView::Fsmc(d1), w1)
            },
            DeviceView::Sdio(d) => {
                let (d1, w1) = Sdio::tick_of(d, w, cycles);
                (DeviceView::Sdio(d1), w1)
            },
            DeviceView::Can(d) => {
                let (d1, w1) = Can::tick_of(d, w, cycles);
                (DeviceView::Can(d1), w1)
            },
            DeviceView::Flash(d) => {
                let (d1, w1) = Flash::tick_of(d, w, cycles);
                (DeviceView::Flash(d1), w1)
            },
            DeviceView::Dma(d) => {
                let (d1, w1) = Dma::tick_of(d, w, cycles);
                (DeviceView::Dma(d1), w1)
            },
            DeviceView::Pwr(d) => {
                let (d1, w1) = Pwr::tick_of(d, w, cycles);
                (DeviceView::Pwr(d1), w1)
            },
            DeviceView::Rtc(d) => {
                let (d1, w1) = Rtc::tick_of(d, w, cycles);
                (DeviceView::Rtc(d1), w1)
            },
            DeviceView::Syscfg(d) => {
                let (d1, w1) = Syscfg::tick_of(d, w, cycles);
                (DeviceView::Syscfg(d1), w1)
            },
            DeviceView::Exti(d) => {
                let (d1, w1) = Exti::tick_of(d, w, cycles);
                (DeviceView::Exti(d1), w1)
            },
        }
    }

    open spec fn label(s: DeviceView) -> Seq<char> {
        match s {
            DeviceView::Scb(d) => SystemControl::label(d),
            DeviceView::Dwt(d) => Dwt::label(d),
            DeviceView::Rcc(d) => Rcc::label(d),
            DeviceView::Gpio(d) => Gpio::label(d),
            DeviceView::I2c(d) => I2c::label(d),
            DeviceView::Spi(d) => Spi::label(d),
            DeviceView::Adc(d) => Adc::label(d),
            DeviceView::Dac(d) => Dac::label(d),
            DeviceView::Crc(d) => Crc::label(d),
            DeviceView::Rng(d) => Rng::label(d),
            DeviceView::Dcmi(d) => Dcmi::label(d),
            DeviceView::Fsmc(d) => Fsmc::label(d),
            DeviceView::Sdio(d) => Sdio::label(d),
            DeviceView::Can(d) => Can::label(d),
            DeviceView::Flash(d) => Flash::label(d),
            DeviceView::Dma(d) => Dma::label(d),
            DeviceView::Pwr(d) => Pwr::label(d),
            DeviceView::Rtc(d) => Rtc::label(d),
            DeviceView::Syscfg(d) => Syscfg::label(d),
            DeviceView::Exti(d) => Exti::label(d),
        }
    }

    fn name(&self) -> &str {
        match self {
            Device::Scb(d) => d.name(),
            Device::Dwt(d) => d.name(),
            Device::Rcc(d) => d.name(),
            Device::Gpio(d) => d.name(),
            Device::I2c(d) => d.name(),
            Device::Spi(d) => d.name(),
            Device::Adc(d) => d.name(),
            Device::Dac(d) => d.name(),
            Device::Crc(d) => d.name(),
            Device::Rng(d) => d.name(),
            Device::Dcmi(d) => d.name(),
            Device::Fsmc(d) => d.name(),
            Device::Sdio(d) => d.name(),
            Device::Can(d) => d.name(),
            Device::Flash(d) => d.name(),
            Device::Dma(d) => d.name(),
            Device::Pwr(d) => d.name(),
            Device::Rtc(d) => d.name(),
            Device::Syscfg(d) => d.name(),
            Device::Exti(d) => d.name(),
        }
    }

    fn read(&mut self, w: &mut Wires, offset: u32, size: u32) -> Result<u32, BusError> {
        match self {
            Device::Scb(d) => Peripheral::read(d, w, offset, size),
            Device::Dwt(d) => Peripheral::read(d, w, offset, size),
            Device::Rcc(d) => Peripheral::read(d, w, offset, size),
            Device::Gpio(d) => Peripheral::read(d, w, offset, size),
            Device::I2c(d) => Peripheral::read(d, w, offset, size),
            Device::Spi(d) => Peripheral::read(d, w, offset, size),
            Device::Adc(d) => Peripheral::read(d, w, offset, size),
            Device::Dac(d) => Peripheral::read(d, w, offset, size),
            Device::Crc(d) => Peripheral::read(d, w, offset, size),
            Device::Rng(d) => Peripheral::read(d, w, offset, size),
            Device::Dcmi(d) => Peripheral::read(d, w, offset, size),
            Device::Fsmc(d) => Peripheral::read(d, w, offset, size),
            Device::Sdio(d) => Peripheral::read(d, w, offset, size),
            Device::Can(d) => Peripheral::read(d, w, offset, size),
            Device::Flash(d) => Peripheral::read(d, w, offset, size),
            Device::Dma(d) => Peripheral::read(d, w, offset, size),
            Device::Pwr(d) => Peripheral::read(d, w, offset, size),
            Device::Rtc(d) => Peripheral::read(d, w, offset, size),
            Device::Syscfg(d) => Peripheral::read(d, w, offset, size),
            Device::Exti(d) => Peripheral::read(d, w, offset, size),
        }
    }

    fn write(&mut self, w: &mut Wires, offset: u32, size: u32, value: u32) -> Result<(), BusError> {
        match self {
            Device::Scb(d) => Peripheral::write(d, w, offset, size, value),
            Device::Dwt(d) => Peripheral::write(d, w, offset, size, value),
            Device::Rcc(d) => Peripheral::write(d, w, offset, size, value),
            Device::Gpio(d) => Peripheral::write(d, w, offset, size, value),
            Device::I2c(d) => Peripheral::write(d, w, offset, size, value),
            Device::Spi(d) => Peripheral::write(d, w, offset, size, value),
            Device::Adc(d) => Peripheral::write(d, w, offset, size, value),
            Device::Dac(d) => Peripheral::write(d, w, offset, size, value),
            Device::Crc(d) => Peripheral::write(d, w, offset, size, value),
            Device::Rng(d) => Peripheral::write(d, w, offset, size, value),
            Device::Dcmi(d) => Peripheral::write(d, w, offset, size, value),
            Device::Fsmc(d) => Peripheral::write(d, w, offset, size, value),
            Device::Sdio(d) => Peripheral::write(d, w, offset, size, value),
            Device::Can(d) => Peripheral::write(d, w, offset, size, value),
            Device::Flash(d) => Peripheral::write(d, w, offset, size, value),
            Device::Dma(d) => Peripheral::write(d, w, offset, size, value),
            Device::Pwr(d) => Peripheral::write(d, w, offset, size, value),
            Device::Rtc(d) => Peripheral::write(d, w, offset, size, value),
            Device::Syscfg(d) => Peripheral::write(d, w, offset, size, value),
            Device::Exti(d) => Peripheral::write(d, w, offset, size, value),
        }
    }

    fn reset(&mut self, w: &mut Wires) {
        match self {
            Device::Scb(d) => Peripheral::reset(d, w),
            Device::Dwt(d) => Peripheral::reset(d, w),
            Device::Rcc(d) => Peripheral::reset(d, w),
            Device::Gpio(d) => Peripheral::reset(d, w),
            Device::I2c(d) => Peripheral::reset(d, w),
            Device::Spi(d) => Peripheral::reset(d, w),
            Device::Adc(d) => Peripheral::reset(d, w),
            Device::Dac(d) => Peripheral::reset(d, w),
            Device::Crc(d) => Peripheral::reset(d, w),
            Device::Rng(d) => Peripheral::reset(d, w),
            Device::Dcmi(d) => Peripheral::reset(d, w),
            Device::Fsmc(d) => Peripheral::reset(d, w),
            Device::Sdio(d) => Peripheral::reset(d, w),
            Device::Can(d) => Peripheral::reset(d, w),
            Device::Flash(d) => Peripheral::reset(d, w),
            Device::Dma(d) => Peripheral::reset(d, w),
            Device::Pwr(d) => Peripheral::reset(d, w),
            Device::Rtc(d) => Peripheral::reset(d, w),
            Device::Syscfg(d) => Peripheral::reset(d, w),
            Device::Exti(d) => Peripheral::reset(d, w),
        }
    }

    fn tick(&mut self, w: &mut Wires, cycles: u64) {
        match self {
            Device::Scb(d) => Peripheral::tick(d, w, cycles),
            Device::Dwt(d) => Peripheral::tick(d, w, cycles),
            Device::Rcc(d) => Peripheral::tick(d, w, cycles),
            Device::Gpio(d) => Peripheral::tick(d, w, cycles),
            Device::I2c(d) => Peripheral::tick(d, w, cycles),
            Device::Spi(d) => Peripheral::tick(d, w, cycles),
            Device::Adc(d) => Peripheral::tick(d, w, cycles),
            Device::Dac(d) => Peripheral::tick(d, w, cycles),
            Device::Crc(d) => Peripheral::tick(d, w, cycles),
            Device::Rng(d) => Peripheral::tick(d, w, cycles),
            Device::Dcmi(d) => Peripheral::tick(d, w, cycles),
            Device::Fsmc(d) => Peripheral::tick(d, w, cycles),
            Device::Sdio(d) => Peripheral::tick(d, w, cycles),
            Device::Can(d) => Peripheral::tick(d, w, cycles),
            Device::Flash(d) => Peripheral::tick(d, w, cycles),
            Device::Dma(d) => Peripheral::tick(d, w, cycles),
            Device::Pwr(d) => Peripheral::tick(d, w, cycles),
            Device::Rtc(d) => Peripheral::tick(d, w, cycles),
            Device::Syscfg(d) => Peripheral::tick(d, w, cycles),
            Device::Exti(d) => Peripheral::tick(d, w, cycles),
        }
    }

}

impl Device {
    /// Does the device serve this read? See [`Peripheral::readable`].
    pub fn takes_read(&self, offset: u32, size: u32) -> (r: bool)
        ensures
            forall|w: WiresView| r == #[trigger] Device::readable(self@, w, offset, size),
    {
        match self {
            Device::Scb(d) => d.takes_read(offset, size),
            Device::Rtc(d) => d.takes_read(offset, size),
            _ => true,
        }
    }

    /// Does the device serve this write? See [`Peripheral::writable`].
    pub fn takes_write(&self, offset: u32, size: u32, value: u32) -> (r: bool)
        ensures
            forall|w: WiresView| r == #[trigger] Device::writable(self@, w, offset, size, value),
    {
        match self {
            Device::Scb(d) => d.takes_write(offset, size, value),
            Device::Rtc(d) => d.takes_write(offset, size, value),
            Device::Sdio(d) => !(size == 4 && offset == OFF_CMD) || d.takes_command(value),
            _ => true,
        }
    }

    /// Can the device advance by this many cycles? See [`Peripheral::tickable`].
    pub fn takes_tick(&self, cycles: u64) -> (r: bool)
        ensures
            forall|w: WiresView| r == #[trigger] Device::tickable(self@, w, cycles),
    {
        match self {
            Device::Rtc(d) => d.takes_tick(cycles),
            _ => true,
        }
    }

    /// Does the device need ticks?
    pub fn active(&self) -> (r: bool)
        ensures
            r == device_active(self@),
    {
        match self {
            Device::Scb(d) => d.active(),
            Device::Dwt(d) => d.active(),
            Device::Dac(d) => d.active(),
            Device::Dma(d) => d.active(),
            Device::Rtc(d) => d.active(),
            _ => false,
        }
    }
}

/// Does the device need ticks? Most never do.
pub open spec fn device_active(d: DeviceView) -> bool {
    match d {
        DeviceView::Scb(d) => d.active,
        DeviceView::Dwt(d) => d.active,
        DeviceView::Dac(d) => d.active,
        DeviceView::Dma(d) => d.active(),
        DeviceView::Rtc(d) => d.active,
        _ => false,
    }
}

impl DmaByteIo for Device {
    open spec fn dr_inv(s: DeviceView) -> bool {
        Device::inv(s)
    }

    open spec fn dr_ready(s: DeviceView) -> bool {
        match s {
            DeviceView::I2c(d) => I2c::dr_ready(d),
            DeviceView::Spi(d) => Spi::dr_ready(d),
            DeviceView::Adc(d) => Adc::dr_ready(d),
            DeviceView::Dac(d) => Dac::dr_ready(d),
            DeviceView::Dcmi(d) => Dcmi::dr_ready(d),
            DeviceView::Sdio(d) => Sdio::dr_ready(d),
            _ => true,
        }
    }

    /// Only the devices that the DMA serves have a data register here.
    open spec fn dr_read_of(s: DeviceView, w: WiresView) -> (DeviceView, WiresView, u32) {
        match s {
            DeviceView::I2c(d) => {
                let (d1, w1, v) = I2c::dr_read_of(d, w);
                (DeviceView::I2c(d1), w1, v)
            },
            DeviceView::Spi(d) => {
                let (d1, w1, v) = Spi::dr_read_of(d, w);
                (DeviceView::Spi(d1), w1, v)
            },
            DeviceView::Adc(d) => {
                let (d1, w1, v) = Adc::dr_read_of(d, w);
                (DeviceView::Adc(d1), w1, v)
            },
            DeviceView::Dac(d) => {
                let (d1, w1, v) = Dac::dr_read_of(d, w);
                (DeviceView::Dac(d1), w1, v)
            },
            DeviceView::Dcmi(d) => {
                let (d1, w1, v) = Dcmi::dr_read_of(d, w);
                (DeviceView::Dcmi(d1), w1, v)
            },
            DeviceView::Sdio(d) => {
                let (d1, w1, v) = Sdio::dr_read_of(d, w);
                (DeviceView::Sdio(d1), w1, v)
            },
            _ => (s, w, 0u32),
        }
    }

    open spec fn dr_write_of(s: DeviceView, w: WiresView, value: u32) -> (DeviceView, WiresView) {
        match s {
            DeviceView::I2c(d) => {
                let (d1, w1) = I2c::dr_write_of(d, w, value);
                (DeviceView::I2c(d1), w1)
            },
            DeviceView::Spi(d) => {
                let (d1, w1) = Spi::dr_write_of(d, w, value);
                (DeviceView::Spi(d1), w1)
            },
            DeviceView::Adc(d) => {
                let (d1, w1) = Adc::dr_write_of(d, w, value);
                (DeviceView::Adc(d1), w1)
            },
            DeviceView::Dac(d) => {
                let (d1, w1) = Dac::dr_write_of(d, w, value);
                (DeviceView::Dac(d1), w1)
            },
            DeviceView::Dcmi(d) => {
                let (d1, w1) = Dcmi::dr_write_of(d, w, value);
                (DeviceView::Dcmi(d1), w1)
            },
            DeviceView::Sdio(d) => {
                let (d1, w1) = Sdio::dr_write_of(d, w, value);
                (DeviceView::Sdio(d1), w1)
            },
            _ => (s, w),
        }
    }

    fn dma_dr_ready(&self) -> bool {
        match self {
            Device::I2c(d) => d.dma_dr_ready(),
            Device::Spi(d) => d.dma_dr_ready(),
            Device::Adc(d) => d.dma_dr_ready(),
            Device::Dac(d) => d.dma_dr_ready(),
            Device::Dcmi(d) => d.dma_dr_ready(),
            Device::Sdio(d) => d.dma_dr_ready(),
            _ => true,
        }
    }

    fn dma_read_dr(&mut self, w: &mut Wires) -> u32 {
        match self {
            Device::I2c(d) => DmaByteIo::dma_read_dr(d, w),
            Device::Spi(d) => DmaByteIo::dma_read_dr(d, w),
            Device::Adc(d) => DmaByteIo::dma_read_dr(d, w),
            Device::Dac(d) => DmaByteIo::dma_read_dr(d, w),
            Device::Dcmi(d) => DmaByteIo::dma_read_dr(d, w),
            Device::Sdio(d) => DmaByteIo::dma_read_dr(d, w),
            _ => 0,
        }
    }

    fn dma_write_dr(&mut self, w: &mut Wires, value: u32) {
        match self {
            Device::I2c(d) => DmaByteIo::dma_write_dr(d, w, value),
            Device::Spi(d) => DmaByteIo::dma_write_dr(d, w, value),
            Device::Adc(d) => DmaByteIo::dma_write_dr(d, w, value),
            Device::Dac(d) => DmaByteIo::dma_write_dr(d, w, value),
            Device::Dcmi(d) => DmaByteIo::dma_write_dr(d, w, value),
            Device::Sdio(d) => DmaByteIo::dma_write_dr(d, w, value),
            _ => {},
        }
    }
}

/// An access, a reset and the passing of time reach the device itself, whatever it is.
pub proof fn law_devices_answer_for_themselves(
    s: DeviceView,
    w: WiresView,
    offset: u32,
    size: u32,
    value: u32,
    cycles: u64,
)
    ensures
        s matches DeviceView::Scb(d) ==> Device::read_of(s, w, offset, size) == (
            DeviceView::Scb(SystemControl::read_of(d, w, offset, size).0),
            SystemControl::read_of(d, w, offset, size).1, SystemControl::read_of(d, w, offset, size).2,
        ),
        s matches DeviceView::Dwt(d) ==> Device::read_of(s, w, offset, size) == (
            DeviceView::Dwt(Dwt::read_of(d, w, offset, size).0),
            Dwt::read_of(d, w, offset, size).1, Dwt::read_of(d, w, offset, size).2,
        ),
        s matches DeviceView::Rcc(d) ==> Device::read_of(s, w, offset, size) == (
            DeviceView::Rcc(Rcc::read_of(d, w, offset, size).0),
            Rcc::read_of(d, w, offset, size).1, Rcc::read_of(d, w, offset, size).2,
        ),
        s matches DeviceView::Gpio(d) ==> Device::read_of(s, w, offset, size) == (
            DeviceView::Gpio(Gpio::read_of(d, w, offset, size).0),
            Gpio::read_of(d, w, offset, size).1, Gpio::read_of(d, w, offset, size).2,
        ),
        s matches DeviceView::I2c(d) ==> Device::read_of(s, w, offset, size) == (
            DeviceView::I2c(I2c::read_of(d, w, offset, size).0),
            I2c::read_of(d, w, offset, size).1, I2c::read_of(d, w, offset, size).2,
        ),
        s matches DeviceView::Spi(d) ==> Device::read_of(s, w, offset, size) == (
            DeviceView::Spi(Spi::read_of(d, w, offset, size).0),
            Spi::read_of(d, w, offset, size).1, Spi::read_of(d, w, offset, size).2,
        ),
        s matches DeviceView::Adc(d) ==> Device::read_of(s, w, offset, size) == (
            DeviceView::Adc(Adc::read_of(d, w, offset, size).0),
            Adc::read_of(d, w, offset, size).1, Adc::read_of(d, w, offset, size).2,
        ),
        s matches DeviceView::Dac(d) ==> Device::read_of(s, w, offset, size) == (
            DeviceView::Dac(Dac::read_of(d, w, offset, size).0),
            Dac::read_of(d, w, offset, size).1, Dac::read_of(d, w, offset, size).2,
        ),
        s matches DeviceView::Crc(d) ==> Device::read_of(s, w, offset, size) == (
            DeviceView::Crc(Crc::read_of(d, w, offset, size).0),
            Crc::read_of(d, w, offset, size).1, Crc::read_of(d, w, offset, size).2,
        ),
        s matches DeviceView::Rng(d) ==> Device::read_of(s, w, offset, size) == (
            DeviceView::Rng(Rng::read_of(d, w, offset, size).0),
            Rng::read_of(d, w, offset, size).1, Rng::read_of(d, w, offset, size).2,
        ),
        s matches DeviceView::Dcmi(d) ==> Device::read_of(s, w, offset, size) == (
            DeviceView::Dcmi(Dcmi::read_of(d, w, offset, size).0),
            Dcmi::read_of(d, w, offset, size).1, Dcmi::read_of(d, w, offset, size).2,
        ),
        s matches DeviceView::Fsmc(d) ==> Device::read_of(s, w, offset, size) == (
            DeviceView::Fsmc(Fsmc::read_of(d, w, offset, size).0),
            Fsmc::read_of(d, w, offset, size).1, Fsmc::read_of(d, w, offset, size).2,
        ),
        s matches DeviceView::Sdio(d) ==> Device::read_of(s, w, offset, size) == (
            DeviceView::Sdio(Sdio::read_of(d, w, offset, size).0),
            Sdio::read_of(d, w, offset, size).1, Sdio::read_of(d, w, offset, size).2,
        ),
        s matches DeviceView::Can(d) ==> Device::read_of(s, w, offset, size) == (
            DeviceView::Can(Can::read_of(d, w, offset, size).0),
            Can::read_of(d, w, offset, size).1, Can::read_of(d, w, offset, size).2,
        ),
        s matches DeviceView::Flash(d) ==> Device::read_of(s, w, offset, size) == (
            DeviceView::Flash(Flash::read_of(d, w, offset, size).0),
            Flash::read_of(d, w, offset, size).1, Flash::read_of(d, w, offset, size).2,
        ),
        s matches DeviceView::Dma(d) ==> Device::read_of(s, w, offset, size) == (
            DeviceView::Dma(Dma::read_of(d, w, offset, size).0),
            Dma::read_of(d, w, offset, size).1, Dma::read_of(d, w, offset, size).2,
        ),
        s matches DeviceView::Pwr(d) ==> Device::read_of(s, w, offset, size) == (
            DeviceView::Pwr(Pwr::read_of(d, w, offset, size).0),
            Pwr::read_of(d, w, offset, size).1, Pwr::read_of(d, w, offset, size).2,
        ),
        s matches DeviceView::Rtc(d) ==> Device::read_of(s, w, offset, size) == (
            DeviceView::Rtc(Rtc::read_of(d, w, offset, size).0),
            Rtc::read_of(d, w, offset, size).1, Rtc::read_of(d, w, offset, size).2,
        ),
        s matches DeviceView::Syscfg(d) ==> Device::read_of(s, w, offset, size) == (
            DeviceView::Syscfg(Syscfg::read_of(d, w, offset, size).0),
            Syscfg::read_of(d, w, offset, size).1, Syscfg::read_of(d, w, offset, size).2,
        ),
        s matches DeviceView::Exti(d) ==> Device::read_of(s, w, offset, size) == (
            DeviceView::Exti(Exti::read_of(d, w, offset, size).0),
            Exti::read_of(d, w, offset, size).1, Exti::read_of(d, w, offset, size).2,
        ),
        s matches DeviceView::Scb(d) ==> Device::write_of(s, w, offset, size, value) == (
            DeviceView::Scb(SystemControl::write_of(d, w, offset, size, value).0),
            SystemControl::write_of(d, w, offset, size, value).1, SystemControl::write_of(d, w, offset, size, value).2,
        ),
        s matches DeviceView::Dwt(d) ==> Device::write_of(s, w, offset, size, value) == (
            DeviceView::Dwt(Dwt::write_of(d, w, offset, size, value).0),
            Dwt::write_of(d, w, offset, size, value).1, Dwt::write_of(d, w, offset, size, value).2,
        ),
        s matches DeviceView::Rcc(d) ==> Device::write_of(s, w, offset, size, value) == (
            DeviceView::Rcc(Rcc::write_of(d, w, offset, size, value).0),
            Rcc::write_of(d, w, offset, size, value).1, Rcc::write_of(d, w, offset, size, value).2,
        ),
        s matches DeviceView::Gpio(d) ==> Device::write_of(s, w, offset, size, value) == (
            DeviceView::Gpio(Gpio::write_of(d, w, offset, size, value).0),
            Gpio::write_of(d, w, offset, size, value).1, Gpio::write_of(d, w, offset, size, value).2,
        ),
        s matches DeviceView::I2c(d) ==> Device::write_of(s, w, offset, size, value) == (
            DeviceView::I2c(I2c::write_of(d, w, offset, size, value).0),
            I2c::write_of(d, w, offset, size, value).1, I2c::write_of(d, w, offset, size, value).2,
        ),
        s matches DeviceView::Spi(d) ==> Device::write_of(s, w, offset, size, value) == (
            DeviceView::Spi(Spi::write_of(d, w, offset, size, value).0),
            Spi::write_of(d, w, offset, size, value).1, Spi::write_of(d, w, offset, size, value).2,
        ),
        s matches DeviceView::Adc(d) ==> Device::write_of(s, w, offset, size, value) == (
            DeviceView::Adc(Adc::write_of(d, w, offset, size, value).0),
            Adc::write_of(d, w, offset, size, value).1, Adc::write_of(d, w, offset, size, value).2,
        ),
        s matches DeviceView::Dac(d) ==> Device::write_of(s, w, offset, size, value) == (
            DeviceView::Dac(Dac::write_of(d, w, offset, size, value).0),
            Dac::write_of(d, w, offset, size, value).1, Dac::write_of(d, w, offset, size, value).2,
        ),
        s matches DeviceView::Crc(d) ==> Device::write_of(s, w, offset, size, value) == (
            DeviceView::Crc(Crc::write_of(d, w, offset, size, value).0),
            Crc::write_of(d, w, offset, size, value).1, Crc::write_of(d, w, offset, size, value).2,
        ),
        s matches DeviceView::Rng(d) ==> Device::write_of(s, w, offset, size, value) == (
            DeviceView::Rng(Rng::write_of(d, w, offset, size, value).0),
            Rng::write_of(d, w, offset, size, value).1, Rng::write_of(d, w, offset, size, value).2,
        ),
        s matches DeviceView::Dcmi(d) ==> Device::write_of(s, w, offset, size, value) == (
            DeviceView::Dcmi(Dcmi::write_of(d, w, offset, size, value).0),
            Dcmi::write_of(d, w, offset, size, value).1, Dcmi::write_of(d, w, offset, size, value).2,
        ),
        s matches DeviceView::Fsmc(d) ==> Device::write_of(s, w, offset, size, value) == (
            DeviceView::Fsmc(Fsmc::write_of(d, w, offset, size, value).0),
            Fsmc::write_of(d, w, offset, size, value).1, Fsmc::write_of(d, w, offset, size, value).2,
        ),
        s matches DeviceView::Sdio(d) ==> Device::write_of(s, w, offset, size, value) == (
            DeviceView::Sdio(Sdio::write_of(d, w, offset, size, value).0),
            Sdio::write_of(d, w, offset, size, value).1, Sdio::write_of(d, w, offset, size, value).2,
        ),
        s matches DeviceView::Can(d) ==> Device::write_of(s, w, offset, size, value) == (
            DeviceView::Can(Can::write_of(d, w, offset, size, value).0),
            Can::write_of(d, w, offset, size, value).1, Can::write_of(d, w, offset, size, value).2,
        ),
        s matches DeviceView::Flash(d) ==> Device::write_of(s, w, offset, size, value) == (
            DeviceView::Flash(Flash::write_of(d, w, offset, size, value).0),
            Flash::write_of(d, w, offset, size, value).1, Flash::write_of(d, w, offset, size, value).2,
        ),
        s matches DeviceView::Dma(d) ==> Device::write_of(s, w, offset, size, value) == (
            DeviceView::Dma(Dma::write_of(d, w, offset, size, value).0),
            Dma::write_of(d, w, offset, size, value).1, Dma::write_of(d, w, offset, size, value).2,
        ),
        s matches DeviceView::Pwr(d) ==> Device::write_of(s, w, offset, size, value) == (
            DeviceView::Pwr(Pwr::write_of(d, w, offset, size, value).0),
            Pwr::write_of(d, w, offset, size, value).1, Pwr::write_of(d, w, offset, size, value).2,
        ),
        s matches DeviceView::Rtc(d) ==> Device::write_of(s, w, offset, size, value) == (
            DeviceView::Rtc(Rtc::write_of(d, w, offset, size, value).0),
            Rtc::write_of(d, w, offset, size, value).1, Rtc::write_of(d, w, offset, size, value).2,
        ),
        s matches DeviceView::Syscfg(d) ==> Device::write_of(s, w, offset, size, value) == (
            DeviceView::Syscfg(Syscfg::write_of(d, w, offset, size, value).0),
            Syscfg::write_of(d, w, offset, size, value).1, Syscfg::write_of(d, w, offset, size, value).2,
        ),
        s matches DeviceView::Exti(d) ==> Device::write_of(s, w, offset, size, value) == (
            DeviceView::Exti(Exti::write_of(d, w, offset, size, value).0),
            Exti::write_of(d, w, offset, size, value).1, Exti::write_of(d, w, offset, size, value).2,
        ),
        s matches DeviceView::Scb(d) ==> Device::reset_of(s, w) == (
            DeviceView::Scb(SystemControl::reset_of(d, w).0),
            SystemControl::reset_of(d, w).1,
        ),
        s matches DeviceView::Dwt(d) ==> Device::reset_of(s, w) == (
            DeviceView::Dwt(Dwt::reset_of(d, w).0),
            Dwt::reset_of(d, w).1,
        ),
        s matches DeviceView::Rcc(d) ==> Device::reset_of(s, w) == (
            DeviceView::Rcc(Rcc::reset_of(d, w).0),
            Rcc::reset_of(d, w).1,
        ),
        s matches DeviceView::Gpio(d) ==> Device::reset_of(s, w) == (
            DeviceView::Gpio(Gpio::reset_of(d, w).0),
            Gpio::reset_of(d, w).1,
        ),
        s matches DeviceView::I2c(d) ==> Device::reset_of(s, w) == (
            DeviceView::I2c(I2c::reset_of(d, w).0),
            I2c::reset_of(d, w).1,
        ),
        s matches DeviceView::Spi(d) ==> Device::reset_of(s, w) == (
            DeviceView::Spi(Spi::reset_of(d, w).0),
            Spi::reset_of(d, w).1,
        ),
        s matches DeviceView::Adc(d) ==> Device::reset_of(s, w) == (
            DeviceView::Adc(Adc::reset_of(d, w).0),
            Adc::reset_of(d, w).1,
        ),
        s matches DeviceView::Dac(d) ==> Device::reset_of(s, w) == (
            DeviceView::Dac(Dac::reset_of(d, w).0),
            Dac::reset_of(d, w).1,
        ),
        s matches DeviceView::Crc(d) ==> Device::reset_of(s, w) == (
            DeviceView::Crc(Crc::reset_of(d, w).0),
            Crc::reset_of(d, w).1,
        ),
        s matches DeviceView::Rng(d) ==> Device::reset_of(s, w) == (
            DeviceView::Rng(Rng::reset_of(d, w).0),
            Rng::reset_of(d, w).1,
        ),
        s matches DeviceView::Dcmi(d) ==> Device::reset_of(s, w) == (
            DeviceView::Dcmi(Dcmi::reset_of(d, w).0),
            Dcmi::reset_of(d, w).1,
        ),
        s matches DeviceView::Fsmc(d) ==> Device::reset_of(s, w) == (
            DeviceView::Fsmc(Fsmc::reset_of(d, w).0),
            Fsmc::reset_of(d, w).1,
        ),
        s matches DeviceView::Sdio(d) ==> Device::reset_of(s, w) == (
            DeviceView::Sdio(Sdio::reset_of(d, w).0),
            Sdio::reset_of(d, w).1,
        ),
        s matches DeviceView::Can(d) ==> Device::reset_of(s, w) == (
            DeviceView::Can(Can::reset_of(d, w).0),
            Can::reset_of(d, w).1,
        ),
        s matches DeviceView::Flash(d) ==> Device::reset_of(s, w) == (
            DeviceView::Flash(Flash::reset_of(d, w).0),
            Flash::reset_of(d, w).1,
        ),
        s matches DeviceView::Dma(d) ==> Device::reset_of(s, w) == (
            DeviceView::Dma(Dma::reset_of(d, w).0),
            Dma::reset_of(d, w).1,
        ),
        s matches DeviceView::Pwr(d) ==> Device::reset_of(s, w) == (
            DeviceView::Pwr(Pwr::reset_of(d, w).0),
            Pwr::reset_of(d, w).1,
        ),
        s matches DeviceView::Rtc(d) ==> Device::reset_of(s, w) == (
            DeviceView::Rtc(Rtc::reset_of(d, w).0),
            Rtc::reset_of(d, w).1,
        ),
        s matches DeviceView::Syscfg(d) ==> Device::reset_of(s, w) == (
            DeviceView::Syscfg(Syscfg::reset_of(d, w).0),
            Syscfg::reset_of(d, w).1,
        ),
        s matches DeviceView::Exti(d) ==> Device::reset_of(s, w) == (
            DeviceView::Exti(Exti::reset_of(d, w).0),
            Exti::reset_of(d, w).1,
        ),
        s matches DeviceView::Scb(d) ==> Device::tick_of(s, w, cycles) == (
            DeviceView::Scb(SystemControl::tick_of(d, w, cycles).0),
            SystemControl::tick_of(d, w, cycles).1,
        ),
        s matches DeviceView::Dwt(d) ==> Device::tick_of(s, w, cycles) == (
            DeviceView::Dwt(Dwt::tick_of(d, w, cycles).0),
            Dwt::tick_of(d, w, cycles).1,
        ),
        s matches DeviceView::Rcc(d) ==> Device::tick_of(s, w, cycles) == (
            DeviceView::Rcc(Rcc::tick_of(d, w, cycles).0),
            Rcc::tick_of(d, w, cycles).1,
        ),
        s matches DeviceView::Gpio(d) ==> Device::tick_of(s, w, cycles) == (
            DeviceView::Gpio(Gpio::tick_of(d, w, cycles).0),
            Gpio::tick_of(d, w, cycles).1,
        ),
        s matches DeviceView::I2c(d) ==> Device::tick_of(s, w, cycles) == (
            DeviceView::I2c(I2c::tick_of(d, w, cycles).0),
            I2c::tick_of(d, w, cycles).1,
        ),
        s matches DeviceView::Spi(d) ==> Device::tick_of(s, w, cycles) == (
            DeviceView::Spi(Spi::tick_of(d, w, cycles).0),
            Spi::tick_of(d, w, cycles).1,
        ),
        s matches DeviceView::Adc(d) ==> Device::tick_of(s, w, cycles) == (
            DeviceView::Adc(Adc::tick_of(d, w, cycles).0),
            Adc::tick_of(d, w, cycles).1,
        ),
        s matches DeviceView::Dac(d) ==> Device::tick_of(s, w, cycles) == (
            DeviceView::Dac(Dac::tick_of(d, w, cycles).0),
            Dac::tick_of(d, w, cycles).1,
        ),
        s matches DeviceView::Crc(d) ==> Device::tick_of(s, w, cycles) == (
            DeviceView::Crc(Crc::tick_of(d, w, cycles).0),
            Crc::tick_of(d, w, cycles).1,
        ),
        s matches DeviceView::Rng(d) ==> Device::tick_of(s, w, cycles) == (
            DeviceView::Rng(Rng::tick_of(d, w, cycles).0),
            Rng::tick_of(d, w, cycles).1,
        ),
        s matches DeviceView::Dcmi(d) ==> Device::tick_of(s, w, cycles) == (
            DeviceView::Dcmi(Dcmi::tick_of(d, w, cycles).0),
            Dcmi::tick_of(d, w, cycles).1,
        ),
        s matches DeviceView::Fsmc(d) ==> Device::tick_of(s, w, cycles) == (
            DeviceView::Fsmc(Fsmc::tick_of(d, w, cycles).0),
            Fsmc::tick_of(d, w, cycles).1,
        ),
        s matches DeviceView::Sdio(d) ==> Device::tick_of(s, w, cycles) == (
            DeviceView::Sdio(Sdio::tick_of(d, w, cycles).0),
            Sdio::tick_of(d, w, cycles).1,
        ),
        s matches DeviceView::Can(d) ==> Device::tick_of(s, w, cycles) == (
            DeviceView::Can(Can::tick_of(d, w, cycles).0),
            Can::tick_of(d, w, cycles).1,
        ),
        s matches DeviceView::Flash(d) ==> Device::tick_of(s, w, cycles) == (
            DeviceView::Flash(Flash::tick_of(d, w, cycles).0),
            Flash::tick_of(d, w, cycles).1,
        ),
        s matches DeviceView::Dma(d) ==> Device::tick_of(s, w, cycles) == (
            DeviceView::Dma(Dma::tick_of(d, w, cycles).0),
            Dma::tick_of(d, w, cycles).1,
        ),
        s matches DeviceView::Pwr(d) ==> Device::tick_of(s, w, cycles) == (
            DeviceView::Pwr(Pwr::tick_of(d, w, cycles).0),
            Pwr::tick_of(d, w, cycles).1,
        ),
        s matches DeviceView::Rtc(d) ==> Device::tick_of(s, w, cycles) == (
            DeviceView::Rtc(Rtc::tick_of(d, w, cycles).0),
            Rtc::tick_of(d, w, cycles).1,
        ),
        s matches DeviceView::Syscfg(d) ==> Device::tick_of(s, w, cycles) == (
            DeviceView::Syscfg(Syscfg::tick_of(d, w, cycles).0),
            Syscfg::tick_of(d, w, cycles).1,
        ),
        s matches DeviceView::Exti(d) ==> Device::tick_of(s, w, cycles) == (
            DeviceView::Exti(Exti::tick_of(d, w, cycles).0),
            Exti::tick_of(d, w, cycles).1,
        ),
{
}

} // verus!
