//! Where everything stands: the memories of the chip, and the devices on its bus.
use crate::device::{Device, DeviceView};
use crate::memory;
use crate::memory::{GuestMemory, Ram};
use crate::peripheral::adc::{ADC_IRQ, Adc, AdcView};
use crate::peripheral::can::{CAN1_BASE, CAN2_BASE, Can, CanView};
use crate::peripheral::crc::{Crc, CrcView};
use crate::peripheral::dac::{Dac, DacView};
use crate::peripheral::dcmi::{DCMI_IRQ, Dcmi, DcmiView};
use crate::peripheral::dma::{DMA1_BASE, DMA1_STREAM_IRQ, DMA2_BASE, DMA2_STREAM_IRQ, Dma, DmaView};
use crate::peripheral::dwt::{Dwt, DwtView};
use crate::peripheral::exti::{EXTI_BASE, Exti, ExtiView};
use crate::peripheral::flash;
use crate::peripheral::flash::Flash;
use crate::peripheral::fsmc::{FSMC_BASE, Fsmc, FsmcView};
use crate::peripheral::gpio::{Gpio, GpioView};
use crate::peripheral::i2c::{I2C1_EV_IRQ, I2C2_EV_IRQ, I2C3_EV_IRQ, I2c, I2cView};
use crate::peripheral::pwr::{Pwr, PwrView};
use crate::peripheral::rcc::{Rcc, RccView};
use crate::peripheral::rng::{RNG_IRQ, Rng, RngView};
use crate::peripheral::rtc::{Rtc, RtcView};
use crate::peripheral::scb::{ScbView, SystemControl};
use crate::peripheral::sdio::{SDIO_BASE, Sdio, SdioView};
use crate::peripheral::spi::{SPI1_IRQ, SPI2_IRQ, SPI3_IRQ, Spi, SpiView};
use crate::peripheral::syscfg::{Syscfg, SyscfgView};
use crate::peripheral::Peripheral;
use vstd::prelude::*;

verus! {

/// How many devices there are.
pub const DEVICE_COUNT: usize = 36;

pub const PLACE_SCB: usize = 0;

pub const PLACE_DWT: usize = 1;

pub const PLACE_RCC: usize = 2;

/// GPIO A to I.
pub const PLACE_GPIO: usize = 3;

/// I2C 1 to 3.
pub const PLACE_I2C: usize = 12;

/// SPI 1 to 3.
pub const PLACE_SPI: usize = 15;

/// ADC 1 to 3.
pub const PLACE_ADC: usize = 18;

pub const PLACE_DAC: usize = 21;

pub const PLACE_CRC: usize = 22;

pub const PLACE_RNG: usize = 23;

pub const PLACE_DCMI: usize = 24;

pub const PLACE_FSMC: usize = 25;

pub const PLACE_SDIO: usize = 26;

pub const PLACE_CAN1: usize = 27;

pub const PLACE_CAN2: usize = 28;

pub const PLACE_FLASH: usize = 29;

pub const PLACE_DMA1: usize = 30;

pub const PLACE_DMA2: usize = 31;

pub const PLACE_PWR: usize = 32;

pub const PLACE_RTC: usize = 33;

pub const PLACE_SYSCFG: usize = 34;

pub const PLACE_EXTI: usize = 35;

/// The seed of the random number generator, fixed so that runs can be repeated.
pub const RNG_SEED: u32 = 0x5EED_2026;

/// The system control space.
pub const SCB_BASE: u32 = 0xE000_E000;

/// The debug counters.
pub const DWT_BASE: u32 = 0xE000_1000;

/// The window of the USB controller. No device stands behind it.
pub const USB_OTG_FS_BASE: u32 = 0x5000_0000;

/// The peripheral area.
pub const PERIPH_BASE: u32 = 0x4000_0000;

pub const PERIPH_SIZE: u32 = 0x4_0000;

/// The base and the size of the region of device `i`.
pub open spec fn region(i: int) -> (u32, u32) {
    if i == PLACE_SCB {
        (SCB_BASE, 0x1000)
    } else if i == PLACE_DWT {
        (DWT_BASE, 0x1000)
    } else if i == PLACE_RCC {
        (0x4002_3800, 0x400)
    } else if PLACE_GPIO <= i < PLACE_I2C {
        ((0x4002_0000 + (i - PLACE_GPIO) * 0x400) as u32, 0x400)
    } else if PLACE_I2C <= i < PLACE_SPI {
        ((0x4000_5400 + (i - PLACE_I2C) * 0x400) as u32, 0x400)
    } else if i == PLACE_SPI {
        (0x4001_3000, 0x400)
    } else if i == PLACE_SPI + 1 {
        (0x4000_3800, 0x400)
    } else if i == PLACE_SPI + 2 {
        (0x4000_3C00, 0x400)
    } else if PLACE_ADC <= i < PLACE_DAC {
        ((0x4001_2000 + (i - PLACE_ADC) * 0x100) as u32, 0x100)
    } else if i == PLACE_DAC {
        (0x4000_7400, 0x400)
    } else if i == PLACE_CRC {
        (0x4002_3000, 0x100)
    } else if i == PLACE_RNG {
        (0x5006_0800, 0x100)
    } else if i == PLACE_DCMI {
        (0x5005_0000, 0x40)
    } else if i == PLACE_FSMC {
        (FSMC_BASE, 0x200)
    } else if i == PLACE_SDIO {
        (SDIO_BASE, 0x400)
    } else if i == PLACE_CAN1 {
        (CAN1_BASE, 0x400)
    } else if i == PLACE_CAN2 {
        (CAN2_BASE, 0x400)
    } else if i == PLACE_FLASH {
        (0x4002_3C00, 0x100)
    } else if i == PLACE_DMA1 {
        (DMA1_BASE, 0x400)
    } else if i == PLACE_DMA2 {
        (DMA2_BASE, 0x400)
    } else if i == PLACE_PWR {
        (0x4000_7000, 0x400)
    } else if i == PLACE_RTC {
        (0x4000_2800, 0x400)
    } else if i == PLACE_SYSCFG {
        (0x4001_3800, 0x400)
    } else {
        (EXTI_BASE, 0x400)
    }
}

pub fn region_at(i: usize) -> (r: (u32, u32))
    requires
        i < DEVICE_COUNT,
    ensures
        r == region(i as int),
{
    if i == PLACE_SCB {
        (SCB_BASE, 0x1000)
    } else if i == PLACE_DWT {
        (DWT_BASE, 0x1000)
    } else if i == PLACE_RCC {
        (0x4002_3800, 0x400)
    } else if i < PLACE_I2C {
        (0x4002_0000 + (i - PLACE_GPIO) as u32 * 0x400, 0x400)
    } else if i < PLACE_SPI {
        (0x4000_5400 + (i - PLACE_I2C) as u32 * 0x400, 0x400)
    } else if i == PLACE_SPI {
        (0x4001_3000, 0x400)
    } else if i == PLACE_SPI + 1 {
        (0x4000_3800, 0x400)
    } else if i == PLACE_SPI + 2 {
        (0x4000_3C00, 0x400)
    } else if i < PLACE_DAC {
        (0x4001_2000 + (i - PLACE_ADC) as u32 * 0x100, 0x100)
    } else if i == PLACE_DAC {
        (0x4000_7400, 0x400)
    } else if i == PLACE_CRC {
        (0x4002_3000, 0x100)
    } else if i == PLACE_RNG {
        (0x5006_0800, 0x100)
    } else if i == PLACE_DCMI {
        (0x5005_0000, 0x40)
    } else if i == PLACE_FSMC {
        (FSMC_BASE, 0x200)
    } else if i == PLACE_SDIO {
        (SDIO_BASE, 0x400)
    } else if i == PLACE_CAN1 {
        (CAN1_BASE, 0x400)
    } else if i == PLACE_CAN2 {
        (CAN2_BASE, 0x400)
    } else if i == PLACE_FLASH {
        (0x4002_3C00, 0x100)
    } else if i == PLACE_DMA1 {
        (DMA1_BASE, 0x400)
    } else if i == PLACE_DMA2 {
        (DMA2_BASE, 0x400)
    } else if i == PLACE_PWR {
        (0x4000_7000, 0x400)
    } else if i == PLACE_RTC {
        (0x4000_2800, 0x400)
    } else if i == PLACE_SYSCFG {
        (0x4001_3800, 0x400)
    } else {
        (EXTI_BASE, 0x400)
    }
}

/// The name of device `i`.
pub open spec fn device_name(i: int) -> Seq<char> {
    if i == PLACE_SCB {
        "SCB"@
    } else if i == PLACE_DWT {
        "DWT"@
    } else if i == PLACE_RCC {
        "RCC"@
    } else if i == PLACE_GPIO {
        "GPIOA"@
    } else if i == PLACE_GPIO + 1 {
        "GPIOB"@
    } else if i == PLACE_GPIO + 2 {
        "GPIOC"@
    } else if i == PLACE_GPIO + 3 {
        "GPIOD"@
    } else if i == PLACE_GPIO + 4 {
        "GPIOE"@
    } else if i == PLACE_GPIO + 5 {
        "GPIOF"@
    } else if i == PLACE_GPIO + 6 {
        "GPIOG"@
    } else if i == PLACE_GPIO + 7 {
        "GPIOH"@
    } else if i == PLACE_GPIO + 8 {
        "GPIOI"@
    } else if i == PLACE_I2C {
        "I2C1"@
    } else if i == PLACE_I2C + 1 {
        "I2C2"@
    } else if i == PLACE_I2C + 2 {
        "I2C3"@
    } else if i == PLACE_SPI {
        "SPI1"@
    } else if i == PLACE_SPI + 1 {
        "SPI2"@
    } else if i == PLACE_SPI + 2 {
        "SPI3"@
    } else if i == PLACE_ADC {
        "ADC1"@
    } else if i == PLACE_ADC + 1 {
        "ADC2"@
    } else if i == PLACE_ADC + 2 {
        "ADC3"@
    } else if i == PLACE_DAC {
        "DAC"@
    } else if i == PLACE_CRC {
        "CRC"@
    } else if i == PLACE_RNG {
        "RNG"@
    } else if i == PLACE_DCMI {
        "DCMI"@
    } else if i == PLACE_FSMC {
        "FSMC"@
    } else if i == PLACE_SDIO {
        "SDIO"@
    } else if i == PLACE_CAN1 {
        "CAN1"@
    } else if i == PLACE_CAN2 {
        "CAN2"@
    } else if i == PLACE_FLASH {
        "FLASH"@
    } else if i == PLACE_DMA1 {
        "DMA1"@
    } else if i == PLACE_DMA2 {
        "DMA2"@
    } else if i == PLACE_PWR {
        "PWR"@
    } else if i == PLACE_RTC {
        "RTC"@
    } else if i == PLACE_SYSCFG {
        "SYSCFG"@
    } else {
        "EXTI"@
    }
}

pub fn name_at(i: usize) -> (r: &'static str)
    requires
        i < DEVICE_COUNT,
    ensures
        r@ == device_name(i as int),
{
    if i == PLACE_SCB {
        "SCB"
    } else if i == PLACE_DWT {
        "DWT"
    } else if i == PLACE_RCC {
        "RCC"
    } else if i == PLACE_GPIO {
        "GPIOA"
    } else if i == PLACE_GPIO + 1 {
        "GPIOB"
    } else if i == PLACE_GPIO + 2 {
        "GPIOC"
    } else if i == PLACE_GPIO + 3 {
        "GPIOD"
    } else if i == PLACE_GPIO + 4 {
        "GPIOE"
    } else if i == PLACE_GPIO + 5 {
        "GPIOF"
    } else if i == PLACE_GPIO + 6 {
        "GPIOG"
    } else if i == PLACE_GPIO + 7 {
        "GPIOH"
    } else if i == PLACE_GPIO + 8 {
        "GPIOI"
    } else if i == PLACE_I2C {
        "I2C1"
    } else if i == PLACE_I2C + 1 {
        "I2C2"
    } else if i == PLACE_I2C + 2 {
        "I2C3"
    } else if i == PLACE_SPI {
        "SPI1"
    } else if i == PLACE_SPI + 1 {
        "SPI2"
    } else if i == PLACE_SPI + 2 {
        "SPI3"
    } else if i == PLACE_ADC {
        "ADC1"
    } else if i == PLACE_ADC + 1 {
        "ADC2"
    } else if i == PLACE_ADC + 2 {
        "ADC3"
    } else if i == PLACE_DAC {
        "DAC"
    } else if i == PLACE_CRC {
        "CRC"
    } else if i == PLACE_RNG {
        "RNG"
    } else if i == PLACE_DCMI {
        "DCMI"
    } else if i == PLACE_FSMC {
        "FSMC"
    } else if i == PLACE_SDIO {
        "SDIO"
    } else if i == PLACE_CAN1 {
        "CAN1"
    } else if i == PLACE_CAN2 {
        "CAN2"
    } else if i == PLACE_FLASH {
        "FLASH"
    } else if i == PLACE_DMA1 {
        "DMA1"
    } else if i == PLACE_DMA2 {
        "DMA2"
    } else if i == PLACE_PWR {
        "PWR"
    } else if i == PLACE_RTC {
        "RTC"
    } else if i == PLACE_SYSCFG {
        "SYSCFG"
    } else {
        "EXTI"
    }
}

/// Is the device one that may stand in place `i`?
pub open spec fn fits(i: int, d: DeviceView) -> bool {
    &&& i == PLACE_SCB ==> d is Scb
    &&& i == PLACE_DWT ==> d is Dwt
    &&& i == PLACE_RCC ==> d is Rcc
    &&& PLACE_GPIO <= i < PLACE_I2C ==> d is Gpio
    &&& PLACE_I2C <= i < PLACE_SPI ==> d is I2c
    &&& PLACE_SPI <= i < PLACE_ADC ==> d is Spi
    &&& PLACE_ADC <= i < PLACE_DAC ==> d is Adc
    &&& i == PLACE_DAC ==> d is Dac
    &&& i == PLACE_CRC ==> d is Crc
    &&& i == PLACE_RNG ==> d is Rng
    &&& i == PLACE_DCMI ==> d is Dcmi && d->Dcmi_0.irq == DCMI_IRQ
    &&& i == PLACE_FSMC ==> d is Fsmc
    &&& i == PLACE_SDIO ==> d is Sdio
    &&& i == PLACE_CAN1 || i == PLACE_CAN2 ==> d is Can
    &&& i == PLACE_FLASH ==> d is Flash
    &&& i == PLACE_DMA1 || i == PLACE_DMA2 ==> d is Dma && d->Dma_0.wired_within(
        PLACE_CAN1 as int,
    )
    &&& i == PLACE_PWR ==> d is Pwr
    &&& i == PLACE_RTC ==> d is Rtc
    &&& i == PLACE_SYSCFG ==> d is Syscfg
    &&& i == PLACE_EXTI ==> d is Exti
}

/// DMA controller 1 serves the I2C controllers, two SPI controllers and the DAC.
pub open spec fn dma1_wired() -> Seq<Option<usize>> {
    Seq::new(
        18,
        |k: int|
            if 6 <= k < 9 {
                Some((PLACE_I2C + k - 6) as usize)
            } else if 10 <= k < 12 {
                Some((PLACE_SPI + k - 9) as usize)
            } else if k == 15 {
                Some(PLACE_DAC)
            } else {
                None
            },
    )
}

/// DMA controller 2 serves an SPI controller, the ADCs, the camera interface and the card
/// interface.
pub open spec fn dma2_wired() -> Seq<Option<usize>> {
    Seq::new(
        18,
        |k: int|
            if k == 9 {
                Some(PLACE_SPI)
            } else if 12 <= k < 15 {
                Some((PLACE_ADC + k - 12) as usize)
            } else if k == 16 {
                Some(PLACE_DCMI)
            } else if k == 17 {
                Some(PLACE_SDIO)
            } else {
                None
            },
    )
}

/// Device `i` as it comes out of power-on.
pub open spec fn fresh_device(i: int) -> DeviceView {
    if i == PLACE_SCB {
        DeviceView::Scb(ScbView::fresh(0x1000, true, true))
    } else if i == PLACE_DWT {
        DeviceView::Dwt(DwtView::fresh())
    } else if i == PLACE_RCC {
        DeviceView::Rcc(RccView::fresh())
    } else if PLACE_GPIO <= i < PLACE_I2C {
        DeviceView::Gpio(GpioView::fresh((i - PLACE_GPIO) as u8))
    } else if i == PLACE_I2C {
        DeviceView::I2c(I2cView::fresh(1, I2C1_EV_IRQ))
    } else if i == PLACE_I2C + 1 {
        DeviceView::I2c(I2cView::fresh(2, I2C2_EV_IRQ))
    } else if i == PLACE_I2C + 2 {
        DeviceView::I2c(I2cView::fresh(3, I2C3_EV_IRQ))
    } else if i == PLACE_SPI {
        DeviceView::Spi(SpiView::fresh(1, SPI1_IRQ))
    } else if i == PLACE_SPI + 1 {
        DeviceView::Spi(SpiView::fresh(2, SPI2_IRQ))
    } else if i == PLACE_SPI + 2 {
        DeviceView::Spi(SpiView::fresh(3, SPI3_IRQ))
    } else if PLACE_ADC <= i < PLACE_DAC {
        DeviceView::Adc(AdcView::fresh((i - PLACE_ADC + 1) as u8, ADC_IRQ))
    } else if i == PLACE_DAC {
        DeviceView::Dac(DacView::fresh(1, false))
    } else if i == PLACE_CRC {
        DeviceView::Crc(CrcView::fresh())
    } else if i == PLACE_RNG {
        DeviceView::Rng(RngView::fresh(RNG_SEED, RNG_IRQ))
    } else if i == PLACE_DCMI {
        DeviceView::Dcmi(DcmiView::fresh(DCMI_IRQ))
    } else if i == PLACE_FSMC {
        DeviceView::Fsmc(FsmcView::fresh())
    } else if i == PLACE_SDIO {
        DeviceView::Sdio(SdioView::fresh())
    } else if i == PLACE_CAN1 {
        DeviceView::Can(CanView::fresh(1, true))
    } else if i == PLACE_CAN2 {
        DeviceView::Can(CanView::fresh(2, true))
    } else if i == PLACE_FLASH {
        DeviceView::Flash(flash::reset_registers())
    } else if i == PLACE_DMA1 {
        DeviceView::Dma(
            DmaView { wired: dma1_wired(), ..DmaView::fresh("DMA1"@, DMA1_STREAM_IRQ@) },
        )
    } else if i == PLACE_DMA2 {
        DeviceView::Dma(
            DmaView { wired: dma2_wired(), ..DmaView::fresh("DMA2"@, DMA2_STREAM_IRQ@) },
        )
    } else if i == PLACE_PWR {
        DeviceView::Pwr(PwrView::fresh())
    } else if i == PLACE_RTC {
        DeviceView::Rtc(RtcView::fresh(Seq::new(20, |k: int| 0u32), false))
    } else if i == PLACE_SYSCFG {
        DeviceView::Syscfg(SyscfgView { regs: Seq::new(16, |k: int| 0u32) })
    } else {
        DeviceView::Exti(ExtiView::fresh())
    }
}

fn make_dma1() -> (r: Dma)
    ensures
        r@ == (DmaView { wired: dma1_wired(), ..DmaView::fresh("DMA1"@, DMA1_STREAM_IRQ@) }),
        r@.wf(),
        r@.wired_within(PLACE_CAN1 as int),
{
    let mut d = Dma::new("DMA1", DMA1_STREAM_IRQ);
    d.register_i2c(1, PLACE_I2C);
    d.register_i2c(2, PLACE_I2C + 1);
    d.register_i2c(3, PLACE_I2C + 2);
    d.register_spi(2, PLACE_SPI + 1);
    d.register_spi(3, PLACE_SPI + 2);
    d.register_dac(1, PLACE_DAC);
    assert(d@.wired =~= dma1_wired());
    d
}

fn make_dma2() -> (r: Dma)
    ensures
        r@ == (DmaView { wired: dma2_wired(), ..DmaView::fresh("DMA2"@, DMA2_STREAM_IRQ@) }),
        r@.wf(),
        r@.wired_within(PLACE_CAN1 as int),
{
    let mut d = Dma::new("DMA2", DMA2_STREAM_IRQ);
    d.register_spi(1, PLACE_SPI);
    d.register_adc(1, PLACE_ADC);
    d.register_adc(2, PLACE_ADC + 1);
    d.register_adc(3, PLACE_ADC + 2);
    d.register_dcmi(1, PLACE_DCMI);
    d.register_sdio(1, PLACE_SDIO);
    assert(d@.wired =~= dma2_wired());
    d
}

/// Makes device `i`.
pub fn make_device(i: usize) -> (r: Device)
    requires
        i < DEVICE_COUNT,
    ensures
        r@ == fresh_device(i as int),
        fits(i as int, r@),
        Device::inv(r@),
{
    if i == PLACE_SCB {
        Device::Scb(SystemControl::new_with_mpu_nvic(0x1000))
    } else if i == PLACE_DWT {
        Device::Dwt(Dwt::new())
    } else if i == PLACE_RCC {
        Device::Rcc(Rcc::new())
    } else if i < PLACE_I2C {
        Device::Gpio(Gpio::new((i - PLACE_GPIO) as u8))
    } else if i == PLACE_I2C {
        Device::I2c(I2c::new(1, I2C1_EV_IRQ))
    } else if i == PLACE_I2C + 1 {
        Device::I2c(I2c::new(2, I2C2_EV_IRQ))
    } else if i == PLACE_I2C + 2 {
        Device::I2c(I2c::new(3, I2C3_EV_IRQ))
    } else if i == PLACE_SPI {
        Device::Spi(Spi::new(1, SPI1_IRQ))
    } else if i == PLACE_SPI + 1 {
        Device::Spi(Spi::new(2, SPI2_IRQ))
    } else if i == PLACE_SPI + 2 {
        Device::Spi(Spi::new(3, SPI3_IRQ))
    } else if i < PLACE_DAC {
        Device::Adc(Adc::new((i - PLACE_ADC + 1) as u8, ADC_IRQ))
    } else {
        make_later_device(i)
    }
}

fn make_later_device(i: usize) -> (r: Device)
    requires
        PLACE_DAC <= i < DEVICE_COUNT,
    ensures
        r@ == fresh_device(i as int),
        fits(i as int, r@),
        Device::inv(r@),
{
    if i == PLACE_DAC {
        Device::Dac(Dac::with_active(1, false))
    } else if i == PLACE_CRC {
        Device::Crc(Crc::new())
    } else if i == PLACE_RNG {
        Device::Rng(Rng::new(RNG_SEED, RNG_IRQ))
    } else if i == PLACE_DCMI {
        Device::Dcmi(Dcmi::new(DCMI_IRQ))
    } else if i == PLACE_FSMC {
        Device::Fsmc(Fsmc::new())
    } else if i == PLACE_SDIO {
        Device::Sdio(Sdio::new())
    } else if i == PLACE_CAN1 {
        Device::Can(Can::new(1, true))
    } else if i == PLACE_CAN2 {
        Device::Can(Can::new(2, true))
    } else if i == PLACE_FLASH {
        Device::Flash(Flash::new())
    } else if i == PLACE_DMA1 {
        Device::Dma(make_dma1())
    } else if i == PLACE_DMA2 {
        Device::Dma(make_dma2())
    } else if i == PLACE_PWR {
        Device::Pwr(Pwr::new())
    } else if i == PLACE_RTC {
        Device::Rtc(Rtc::with_active(false))
    } else if i == PLACE_SYSCFG {
        let d = Syscfg::new();
        assert(d@ =~= SyscfgView { regs: Seq::new(16, |k: int| 0u32) });
        Device::Syscfg(d)
    } else {
        Device::Exti(Exti::new())
    }
}

/// No two devices share an address.
pub proof fn law_regions_are_apart(i: int, j: int)
    requires
        0 <= i < j < DEVICE_COUNT,
    ensures
        ({
            let (a, n) = region(i);
            let (b, m) = region(j);
            a + n <= b || b + m <= a
        }),
{
}

/// How many stretches of memory there are.
pub const MEMORY_COUNT: usize = 16;

/// The base and the size of memory `i`: flash, the static memories, the core-coupled memory,
/// the system memory, and the pages behind the windows of the devices.
pub open spec fn memory_region(i: int) -> (u64, u64) {
    if i == 0 {
        (0x0800_0000, 0x8_0000)
    } else if i == 1 {
        (0x2000_0000, 0x2_0000)
    } else if i == 2 {
        (0x2002_0000, 0x1_0000)
    } else if i == 3 {
        (0x1000_0000, 0x1_0000)
    } else if i == 4 {
        (0x1FFF_0000, 0x1_0000)
    } else if i == 5 {
        (0xE000_E000, 0x1000)
    } else if i == 6 {
        (0xE000_1000, 0x1000)
    } else if i == 7 {
        (0x4000_0000, 0x4_0000)
    } else if i == 8 {
        (0x5006_0000, 0x1000)
    } else if i == 9 {
        (0x5005_0000, 0x1000)
    } else if i == 10 {
        (0xA000_0000, 0x1000)
    } else if i == 11 {
        (0x6000_0000, 0x1_0000)
    } else if i == 12 {
        (0x6400_0000, 0x1_0000)
    } else if i == 13 {
        (0x6800_0000, 0x1_0000)
    } else if i == 14 {
        (0x6C00_0000, 0x1_0000)
    } else {
        (0x5000_0000, 0x5000)
    }
}

pub fn memory_at(i: usize) -> (r: (u64, u64))
    requires
        i < MEMORY_COUNT,
    ensures
        r == memory_region(i as int),
{
    match i {
        0 => (0x0800_0000, 0x8_0000),
        1 => (0x2000_0000, 0x2_0000),
        2 => (0x2002_0000, 0x1_0000),
        3 => (0x1000_0000, 0x1_0000),
        4 => (0x1FFF_0000, 0x1_0000),
        5 => (0xE000_E000, 0x1000),
        6 => (0xE000_1000, 0x1000),
        7 => (0x4000_0000, 0x4_0000),
        8 => (0x5006_0000, 0x1000),
        9 => (0x5005_0000, 0x1000),
        10 => (0xA000_0000, 0x1000),
        11 => (0x6000_0000, 0x1_0000),
        12 => (0x6400_0000, 0x1_0000),
        13 => (0x6800_0000, 0x1_0000),
        14 => (0x6C00_0000, 0x1_0000),
        _ => (0x5000_0000, 0x5000),
    }
}

/// Is the address in one of the first `n` memories?
pub open spec fn in_memory(n: int, a: u64) -> bool {
    exists|i: int|
        0 <= i < n && (#[trigger] memory_region(i)).0 <= a < memory_region(i).0 + memory_region(i).1
}

/// The factory calibration: the reference voltage, and the temperature sensor at two
/// temperatures.
pub open spec fn calibration(i: int) -> (u64, Seq<u8>) {
    if i == 0 {
        (0x1FFF_7A10, seq![0xF8u8, 0x03u8, 0u8, 0u8])
    } else if i == 1 {
        (0x1FFF_7A2C, seq![0x82u8, 0x04u8])
    } else {
        (0x1FFF_7A2E, seq![0xF6u8, 0x05u8])
    }
}

/// Calibration word `i`: where it stands, and its bytes.
pub fn calibration_at(i: usize) -> (r: (u64, Vec<u8>))
    requires
        i < 3,
    ensures
        (r.0, r.1@) == calibration(i as int),
{
    let mut b: Vec<u8> = Vec::new();
    if i == 0 {
        b.push(0xF8);
        b.push(0x03);
        b.push(0);
        b.push(0);
        assert(b@ =~= calibration(0).1);
        (0x1FFF_7A10, b)
    } else if i == 1 {
        b.push(0x82);
        b.push(0x04);
        assert(b@ =~= calibration(1).1);
        (0x1FFF_7A2C, b)
    } else {
        b.push(0xF6);
        b.push(0x05);
        assert(b@ =~= calibration(2).1);
        (0x1FFF_7A2E, b)
    }
}

/// The memory with the first `n` calibration words in place.
pub open spec fn calibrated(m: Map<u64, u8>, n: int) -> Map<u64, u8>
    decreases n,
{
    if n <= 0 {
        m
    } else {
        memory::stored_if_mapped(
            calibrated(m, n - 1),
            calibration(n - 1).0 as int,
            calibration(n - 1).1,
        )
    }
}

/// The memory of the chip before anything is loaded: zero but for the calibration.
pub open spec fn chip_memory() -> Map<u64, u8> {
    calibrated(Map::new(|a: u64| in_memory(MEMORY_COUNT as int, a), |a: u64| 0u8), 3)
}

/// The memory of the chip before anything is loaded.
pub fn map_stm32f407_layout() -> (r: Ram)
    ensures
        r@ == chip_memory(),
{
    let mut ram = Ram::new();
    let mut i: usize = 0;
    while i < MEMORY_COUNT
        invariant
            i <= MEMORY_COUNT,
            forall|a: u64| #[trigger] ram@.dom().contains(a) <==> in_memory(i as int, a),
            forall|a: u64| #[trigger] ram@.dom().contains(a) ==> ram@[a] == 0,
        decreases MEMORY_COUNT - i,
    {
        let (base, size) = memory_at(i);
        ram.mem_map(base, size as usize);
        proof {
            assert forall|a: u64| in_memory(i + 1, a) <==> in_memory(i as int, a) || base <= a < base
                + size by {
                if in_memory(i + 1, a) {
                    let k = choose|k: int|
                        0 <= k < i + 1 && (#[trigger] memory_region(k)).0 <= a < memory_region(k).0
                            + memory_region(k).1;
                    if k < i {
                        assert(in_memory(i as int, a));
                    }
                }
                if base <= a < base + size {
                    assert(memory_region(i as int).0 <= a);
                }
            }
        }
        i = i + 1;
    }
    assert(ram@ =~= Map::new(|a: u64| in_memory(MEMORY_COUNT as int, a), |a: u64| 0u8));
    let ghost zero = ram@;
    let mut i: usize = 0;
    while i < 3
        invariant
            i <= 3,
            ram@ == calibrated(zero, i as int),
        decreases 3 - i,
    {
        let (at, bytes) = calibration_at(i);
        let _ = ram.mem_write(at, &bytes);
        i = i + 1;
    }
    ram
}

/// Where the devices stand, and how long their regions are.
pub proof fn law_device_addresses()
    ensures
        region(0) == (0xE000_E000u32, 0x1000u32),
        region(1) == (0xE000_1000u32, 0x1000u32),
        region(2) == (0x4002_3800u32, 0x400u32),
        forall|k: int|
            0 <= k < 9 ==> #[trigger] region(3 + k) == ((0x4002_0000 + 0x400 * k) as u32, 0x400u32),
        region(12) == (0x4000_5400u32, 0x400u32),
        region(13) == (0x4000_5800u32, 0x400u32),
        region(14) == (0x4000_5C00u32, 0x400u32),
        region(15) == (0x4001_3000u32, 0x400u32),
        region(16) == (0x4000_3800u32, 0x400u32),
        region(17) == (0x4000_3C00u32, 0x400u32),
        region(18) == (0x4001_2000u32, 0x100u32),
        region(19) == (0x4001_2100u32, 0x100u32),
        region(20) == (0x4001_2200u32, 0x100u32),
        region(21) == (0x4000_7400u32, 0x400u32),
        region(22) == (0x4002_3000u32, 0x100u32),
        region(23) == (0x5006_0800u32, 0x100u32),
        region(24) == (0x5005_0000u32, 0x40u32),
        region(25) == (0xA000_0000u32, 0x200u32),
        region(26) == (0x4001_2C00u32, 0x400u32),
        region(27) == (0x4000_6400u32, 0x400u32),
        region(28) == (0x4000_6800u32, 0x400u32),
        region(29) == (0x4002_3C00u32, 0x100u32),
        region(30) == (0x4002_6000u32, 0x400u32),
        region(31) == (0x4002_6400u32, 0x400u32),
        region(32) == (0x4000_7000u32, 0x400u32),
        region(33) == (0x4000_2800u32, 0x400u32),
        region(34) == (0x4001_3800u32, 0x400u32),
        region(35) == (0x4001_3C00u32, 0x400u32),
{
}

/// Which device stands in each place, by its name and by what it is.
pub proof fn law_device_kinds(i: int)
    requires
        0 <= i < 36,
    ensures
        ({
            let d = fresh_device(i);
            let n = device_name(i);
            &&& i == 0 ==> d is Scb && n == "SCB"@
            &&& i == 1 ==> d is Dwt && n == "DWT"@
            &&& i == 2 ==> d is Rcc && n == "RCC"@
            &&& 3 <= i < 12 ==> d is Gpio && d->Gpio_0 == GpioView::fresh((i - 3) as u8)
            &&& i == 3 ==> n == "GPIOA"@
            &&& i == 4 ==> n == "GPIOB"@
            &&& i == 5 ==> n == "GPIOC"@
            &&& i == 6 ==> n == "GPIOD"@
            &&& i == 7 ==> n == "GPIOE"@
            &&& i == 8 ==> n == "GPIOF"@
            &&& i == 9 ==> n == "GPIOG"@
            &&& i == 10 ==> n == "GPIOH"@
            &&& i == 11 ==> n == "GPIOI"@
            &&& i == 12 ==> d == DeviceView::I2c(I2cView::fresh(1, 31)) && n == "I2C1"@
            &&& i == 13 ==> d == DeviceView::I2c(I2cView::fresh(2, 33)) && n == "I2C2"@
            &&& i == 14 ==> d == DeviceView::I2c(I2cView::fresh(3, 72)) && n == "I2C3"@
            &&& i == 15 ==> d == DeviceView::Spi(SpiView::fresh(1, 35)) && n == "SPI1"@
            &&& i == 16 ==> d == DeviceView::Spi(SpiView::fresh(2, 36)) && n == "SPI2"@
            &&& i == 17 ==> d == DeviceView::Spi(SpiView::fresh(3, 51)) && n == "SPI3"@
            &&& i == 18 ==> d == DeviceView::Adc(AdcView::fresh(1, 18)) && n == "ADC1"@
            &&& i == 19 ==> d == DeviceView::Adc(AdcView::fresh(2, 18)) && n == "ADC2"@
            &&& i == 20 ==> d == DeviceView::Adc(AdcView::fresh(3, 18)) && n == "ADC3"@
            &&& i == 21 ==> d is Dac && n == "DAC"@
            &&& i == 22 ==> d is Crc && n == "CRC"@
            &&& i == 23 ==> d == DeviceView::Rng(RngView::fresh(0x5EED_2026, 80)) && n == "RNG"@
            &&& i == 24 ==> d == DeviceView::Dcmi(DcmiView::fresh(78)) && n == "DCMI"@
            &&& i == 25 ==> d is Fsmc && n == "FSMC"@
            &&& i == 26 ==> d is Sdio && n == "SDIO"@
            &&& i == 27 ==> d == DeviceView::Can(CanView::fresh(1, true)) && n == "CAN1"@
            &&& i == 28 ==> d == DeviceView::Can(CanView::fresh(2, true)) && n == "CAN2"@
            &&& i == 29 ==> d is Flash && n == "FLASH"@
            &&& i == 30 ==> d is Dma && n == "DMA1"@
            &&& i == 31 ==> d is Dma && n == "DMA2"@
            &&& i == 32 ==> d is Pwr && n == "PWR"@
            &&& i == 33 ==> d is Rtc && n == "RTC"@
            &&& i == 34 ==> d is Syscfg && n == "SYSCFG"@
            &&& i == 35 ==> d is Exti && n == "EXTI"@
        }),
{
}

/// The peripheral that asks for a transfer is the one that the controller is wired to: the first
/// controller to the I2C controllers, SPI 2 and 3 and the DAC, the second to SPI 1, the ADCs, the
/// camera interface and the card interface.
pub proof fn law_controllers_are_wired(p: u8)
    ensures
        ({
            let slot = |t: crate::peripheral::dma::DmaTarget| crate::peripheral::dma::slot_of(t)->0;
            &&& 1 <= p <= 3 ==> dma1_wired()[slot(
                crate::peripheral::dma::DmaTarget::I2c(p),
            )] == Some((11 + p) as usize)
            &&& 2 <= p <= 3 ==> dma1_wired()[slot(
                crate::peripheral::dma::DmaTarget::Spi(p),
            )] == Some((14 + p) as usize)
            &&& dma1_wired()[slot(crate::peripheral::dma::DmaTarget::Dac(1))] == Some(21usize)
            &&& dma2_wired()[slot(crate::peripheral::dma::DmaTarget::Spi(1))] == Some(15usize)
            &&& 1 <= p <= 3 ==> dma2_wired()[slot(
                crate::peripheral::dma::DmaTarget::Adc(p),
            )] == Some((17 + p) as usize)
            &&& dma2_wired()[slot(crate::peripheral::dma::DmaTarget::Dcmi(1))] == Some(24usize)
            &&& dma2_wired()[slot(crate::peripheral::dma::DmaTarget::Sdio(1))] == Some(26usize)
        }),
{
}

proof fn lemma_memories(a: u64)
    ensures
        in_memory(16, a) <==> {
            ||| 0x0800_0000 <= a < 0x0808_0000
            ||| 0x1000_0000 <= a < 0x1001_0000
            ||| 0x1FFF_0000 <= a < 0x2000_0000
            ||| 0x2000_0000 <= a < 0x2003_0000
            ||| 0x4000_0000 <= a < 0x4004_0000
            ||| 0x5000_0000 <= a < 0x5000_5000
            ||| 0x5005_0000 <= a < 0x5005_1000
            ||| 0x5006_0000 <= a < 0x5006_1000
            ||| 0x6000_0000 <= a < 0x6001_0000
            ||| 0x6400_0000 <= a < 0x6401_0000
            ||| 0x6800_0000 <= a < 0x6801_0000
            ||| 0x6C00_0000 <= a < 0x6C01_0000
            ||| 0xA000_0000 <= a < 0xA000_1000
            ||| 0xE000_1000 <= a < 0xE000_2000
            ||| 0xE000_E000 <= a < 0xE000_F000
        },
{
    let (m0, m1, m2, m3) = (memory_region(0), memory_region(1), memory_region(2), memory_region(3));
    let (m4, m5, m6, m7) = (memory_region(4), memory_region(5), memory_region(6), memory_region(7));
    let (m8, m9, m10, m11) = (
        memory_region(8),
        memory_region(9),
        memory_region(10),
        memory_region(11),
    );
    let (m12, m13, m14, m15) = (
        memory_region(12),
        memory_region(13),
        memory_region(14),
        memory_region(15),
    );
}

/// The memories of the chip: 512 KiB of flash, 192 KiB of memory in one piece and 64 KiB coupled
/// to the core, the factory page, and what stands behind the windows of the devices. All of it is
/// zero at the start but the calibration in the factory page.
pub proof fn law_chip_memory(a: u64)
    ensures
        chip_memory().dom().contains(a) <==> {
            ||| 0x0800_0000 <= a < 0x0808_0000
            ||| 0x1000_0000 <= a < 0x1001_0000
            ||| 0x1FFF_0000 <= a < 0x2000_0000
            ||| 0x2000_0000 <= a < 0x2003_0000
            ||| 0x4000_0000 <= a < 0x4004_0000
            ||| 0x5000_0000 <= a < 0x5000_5000
            ||| 0x5005_0000 <= a < 0x5005_1000
            ||| 0x5006_0000 <= a < 0x5006_1000
            ||| 0x6000_0000 <= a < 0x6001_0000
            ||| 0x6400_0000 <= a < 0x6401_0000
            ||| 0x6800_0000 <= a < 0x6801_0000
            ||| 0x6C00_0000 <= a < 0x6C01_0000
            ||| 0xA000_0000 <= a < 0xA000_1000
            ||| 0xE000_1000 <= a < 0xE000_2000
            ||| 0xE000_E000 <= a < 0xE000_F000
        },
        chip_memory().dom().contains(a) ==> chip_memory()[a] == if a == 0x1FFF_7A10 {
            0xF8u8
        } else if a == 0x1FFF_7A11 {
            0x03
        } else if a == 0x1FFF_7A2C {
            0x82
        } else if a == 0x1FFF_7A2D {
            0x04
        } else if a == 0x1FFF_7A2E {
            0xF6
        } else if a == 0x1FFF_7A2F {
            0x05
        } else {
            0
        },
{
    reveal_with_fuel(calibrated, 4);
    let zero = Map::new(|a: u64| in_memory(MEMORY_COUNT as int, a), |a: u64| 0u8);
    lemma_memories(a);
    assert forall|k: int| 0x1FFF_7A00 <= k < 0x1FFF_7A40 implies #[trigger] zero.dom().contains(
        k as u64,
    ) by {
        lemma_memories(k as u64);
    }
    let c0 = calibration(0);
    memory::law_store_then_load(zero, c0.0 as int, c0.1, a);
    let m1 = calibrated(zero, 1);
    assert(m1.dom() == zero.dom());
    let c1 = calibration(1);
    memory::law_store_then_load(m1, c1.0 as int, c1.1, a);
    let m2 = calibrated(zero, 2);
    assert(m2.dom() == zero.dom());
    let c2 = calibration(2);
    memory::law_store_then_load(m2, c2.0 as int, c2.1, a);
}

} // verus!
